//! What the framebuffer driver says about the panel, and how an EGL refusal is reported.
use crate::store::path::last_index_of;
use crate::text::{
    append_str, chars_of, find_char, index_of, is_digit, line_ranges, lines, parse_bounded,
    parse_uint_range, split_once, string_of, trim, trim_range,
};
use vstd::prelude::*;

verus! {

/// Why the picture could not be brought up.
#[derive(Debug)]
pub enum GfxError {
    Context(String),
}

/// The run of ASCII digits `s` starts with.
pub open spec fn leading_digits(s: Seq<char>) -> Seq<char>
    decreases s.len(),
{
    if s.len() > 0 && is_digit(s[0]) {
        seq![s[0]] + leading_digits(s.drop_first())
    } else {
        Seq::empty()
    }
}

/// A `u32` as `str::parse` reads one.
pub open spec fn u32_of(s: Seq<char>) -> Option<u32> {
    match parse_bounded(s, u32::MAX as nat) {
        Some(n) => Some(n as u32),
        None => None,
    }
}

/// Both sides positive, or nothing.
pub open spec fn positive(w: Option<u32>, h: Option<u32>) -> Option<(u32, u32)> {
    match (w, h) {
        (Some(w), Some(h)) => if w > 0 && h > 0 {
            Some((w, h))
        } else {
            None
        },
        _ => None,
    }
}

/// The size in a mode line `<name>:<w>x<h><p|i>-<hz>`: what follows its last `:`, the width
/// before the first `x` and the height the digits right after it.
pub open spec fn panel_mode_of(text: Seq<char>) -> Option<(u32, u32)> {
    let ls = lines(text);
    if ls.len() == 0 {
        None
    } else {
        let line = ls[0];
        let body = line.skip(last_index_of(line, ':') + 1);
        match split_once(body, 'x') {
            None => None,
            Some((w, rest)) => positive(u32_of(trim(w)), u32_of(leading_digits(rest))),
        }
    }
}

/// The size in `virtual_size`, `width,height`.
pub open spec fn panel_size_of(text: Seq<char>) -> Option<(u32, u32)> {
    match split_once(trim(text), ',') {
        None => None,
        Some((w, h)) => positive(u32_of(trim(w)), u32_of(trim(h))),
    }
}

fn u32_in(v: &Vec<char>, lo: usize, hi: usize) -> (r: Option<u32>)
    requires
        lo <= hi <= v.len(),
    ensures
        r == u32_of(v@.subrange(lo as int, hi as int)),
{
    match parse_uint_range(v, lo, hi, u32::MAX as u64) {
        Some(n) => Some(n as u32),
        None => None,
    }
}

fn trimmed_u32_in(v: &Vec<char>, lo: usize, hi: usize) -> (r: Option<u32>)
    requires
        lo <= hi <= v.len(),
    ensures
        r == u32_of(trim(v@.subrange(lo as int, hi as int))),
{
    let (a, b) = trim_range(v, lo, hi);
    u32_in(v, a, b)
}

/// `/sys/class/graphics/fb0/modes`, printed as `<name>:<w>x<h><p|i>-<hz>`, and the panel as
/// the driver is actually scanning it out.
pub fn panel_mode(text: &str) -> (r: Option<(u32, u32)>)
    ensures
        r == panel_mode_of(text@),
{
    let v = chars_of(text);
    let ranges = line_ranges(&v);
    if ranges.len() == 0 {
        return None;
    }
    let (lo, hi) = ranges[0];
    let ghost line = v@.subrange(lo as int, hi as int);
    assert(line == lines(text@)[0]);
    // the body starts after the line's last ':'
    let mut s = hi;
    while s > lo && v[s - 1] != ':'
        invariant
            lo <= s <= hi <= v.len(),
            line == v@.subrange(lo as int, hi as int),
            forall|j: int| s <= j < hi ==> v@[j] != ':',
            last_index_of(line, ':') == last_index_of(v@.subrange(lo as int, s as int), ':'),
        decreases s - lo,
    {
        assert(v@.subrange(lo as int, s as int).drop_last() == v@.subrange(lo as int, s - 1));
        s -= 1;
    }
    proof {
        let p = v@.subrange(lo as int, s as int);
        if s > lo {
            assert(p.last() == ':');
        }
        assert(last_index_of(line, ':') + 1 == s - lo);
        assert(line.skip(s - lo) == v@.subrange(s as int, hi as int));
    }
    let ghost body = v@.subrange(s as int, hi as int);
    let x = match find_char(&v, s, hi, 'x') {
        Some(x) => x,
        None => return None,
    };
    assert(body.take(x - s) == v@.subrange(s as int, x as int));
    assert(body.skip(x - s + 1) == v@.subrange(x + 1, hi as int));
    let mut e = x + 1;
    while e < hi && '0' <= v[e] && v[e] <= '9'
        invariant
            x + 1 <= e <= hi <= v.len(),
            leading_digits(v@.subrange(x + 1, hi as int)) == v@.subrange(x + 1, e as int)
                + leading_digits(v@.subrange(e as int, hi as int)),
        decreases hi - e,
    {
        assert(v@.subrange(e as int, hi as int).drop_first() == v@.subrange(e + 1, hi as int));
        assert(v@.subrange(x + 1, e + 1) == v@.subrange(x + 1, e as int) + seq![v@[e as int]]);
        e += 1;
    }
    assert(leading_digits(v@.subrange(e as int, hi as int)) == Seq::<char>::empty());
    assert(v@.subrange(x + 1, e as int) + Seq::<char>::empty() == v@.subrange(x + 1, e as int));
    let w = trimmed_u32_in(&v, s, x);
    let h = u32_in(&v, x + 1, e);
    match (w, h) {
        (Some(w), Some(h)) => if w > 0 && h > 0 {
            Some((w, h))
        } else {
            None
        },
        _ => None,
    }
}

/// `/sys/class/graphics/fb0/virtual_size`, which the driver prints as `width,height`. This is
/// what was allocated rather than what is shown: a double buffered panel reports two screens
/// of height here, so it is a last resort behind the mode.
pub fn panel_size(text: &str) -> (r: Option<(u32, u32)>)
    ensures
        r == panel_size_of(text@),
{
    let v = chars_of(text);
    let (a, b) = trim_range(&v, 0, v.len());
    assert(v@.subrange(0, v@.len() as int) == v@);
    let ghost t = v@.subrange(a as int, b as int);
    let c = match find_char(&v, a, b, ',') {
        Some(c) => c,
        None => return None,
    };
    assert(t.take(c - a) == v@.subrange(a as int, c as int));
    assert(t.skip(c - a + 1) == v@.subrange(c + 1, b as int));
    let w = trimmed_u32_in(&v, a, c);
    let h = trimmed_u32_in(&v, c + 1, b);
    match (w, h) {
        (Some(w), Some(h)) => if w > 0 && h > 0 {
            Some((w, h))
        } else {
            None
        },
        _ => None,
    }
}

/// What `eglGetError` returns when nothing went wrong.
/// The panel size assumed when the driver says nothing usable.
pub const FALLBACK_PANEL: (u32, u32) = (720, 480);

pub open spec fn text_view(t: Option<&str>) -> Option<Seq<char>> {
    match t {
        Some(s) => Some(s@),
        None => None,
    }
}

/// The size to open the panel's window at, from the framebuffer's `mode`, `modes` and
/// `virtual_size` files (`None` where a file would not read): the mode in use, then the
/// first on offer, then what was allocated, then the fallback. `virtual_size` comes last
/// because it describes the scrollback rather than the screen.
pub open spec fn panel_hint_of(mode: Option<Seq<char>>, modes: Option<Seq<char>>, virtual_size: Option<Seq<char>>) -> (u32, u32) {
    let from_mode = match mode {
        Some(t) => panel_mode_of(t),
        None => None,
    };
    let from_modes = match modes {
        Some(t) => panel_mode_of(t),
        None => None,
    };
    let from_size = match virtual_size {
        Some(t) => panel_size_of(t),
        None => None,
    };
    if from_mode is Some {
        from_mode->0
    } else if from_modes is Some {
        from_modes->0
    } else if from_size is Some {
        from_size->0
    } else {
        FALLBACK_PANEL
    }
}

pub fn panel_hint(mode: Option<&str>, modes: Option<&str>, virtual_size: Option<&str>) -> (r: (u32, u32))
    ensures
        r == panel_hint_of(text_view(mode), text_view(modes), text_view(virtual_size)),
{
    if let Some(t) = mode {
        if let Some(size) = panel_mode(t) {
            return size;
        }
    }
    if let Some(t) = modes {
        if let Some(size) = panel_mode(t) {
            return size;
        }
    }
    if let Some(t) = virtual_size {
        if let Some(size) = panel_size(t) {
            return size;
        }
    }
    FALLBACK_PANEL
}

pub const EGL_SUCCESS: i32 = 0x3000;

/// The lowercase hex digits of `n`, most significant first, none of them a leading zero.
pub open spec fn hex(n: nat) -> Seq<char>
    decreases n,
{
    if n < 16 {
        seq![hex_char(n)]
    } else {
        hex(n / 16).push(hex_char(n % 16))
    }
}

pub open spec fn hex_char(d: nat) -> char {
    if d < 10 {
        ((d + 48) as u32) as char
    } else {
        ((d + 87) as u32) as char
    }
}

/// An `i32` as `{:x}` prints it: its bits, as an unsigned number.
pub open spec fn bits_of(code: i32) -> nat {
    if code < 0 {
        (code + 0x1_0000_0000) as nat
    } else {
        code as nat
    }
}

fn push_hex(out: &mut Vec<char>, n: u32)
    ensures
        final(out)@ == old(out)@ + hex(n as nat),
    decreases n,
{
    if n >= 16 {
        push_hex(out, n / 16);
    }
    let d = n % 16;
    let c = if d < 10 {
        crate::text::char_from_ascii((d + 48) as u8)
    } else {
        crate::text::char_from_ascii((d + 87) as u8)
    };
    out.push(c);
    proof {
        if n >= 16 {
            assert(final(out)@ == old(out)@ + hex((n / 16) as nat).push(hex_char((n % 16) as nat)));
        }
    }
}

/// The message for a refused EGL call: EGL refuses a request by returning false with nothing
/// queued, so the code read back is EGL_SUCCESS, and printing that as an error number sends
/// bring-up after a fault that never was.
pub open spec fn egl_message(what: Seq<char>, code: i32) -> Seq<char> {
    if code == EGL_SUCCESS {
        what + ": refused, egl flagged nothing"@
    } else {
        what + ": egl error 0x"@ + hex(bits_of(code))
    }
}

pub fn egl_error(what: &str, code: i32) -> (r: GfxError)
    ensures
        r matches GfxError::Context(m) && m@ == egl_message(what@, code),
{
    let mut m: Vec<char> = Vec::new();
    append_str(&mut m, what);
    if code == EGL_SUCCESS {
        append_str(&mut m, ": refused, egl flagged nothing");
    } else {
        append_str(&mut m, ": egl error 0x");
        let bits: u32 = if code < 0 {
            (code as i64 + 0x1_0000_0000i64) as u32
        } else {
            code as u32
        };
        push_hex(&mut m, bits);
    }
    GfxError::Context(string_of(&m))
}

} // verus!
