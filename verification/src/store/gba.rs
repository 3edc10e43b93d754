//! The Game Boy Advance cartridge header, read from the first bytes of a ROM file: the
//! twelve-byte title at 0xA0 and the four-character game code after it.
use crate::store::gb::{lemma_zero_at, zero_at};
use crate::text::{trim, trim_str, utf8_text};
use vstd::prelude::*;
use vstd::utf8::{decode_utf8, valid_utf8};

verus! {

pub const TITLE_OFF: usize = 0xa0;

pub const TITLE_LEN: usize = 12;

pub const CODE_OFF: usize = 0xac;

pub const CODE_LEN: usize = 4;

/// What a header text field says: its bytes up to the first zero, as UTF-8, trimmed; `None`
/// for bytes that are not UTF-8, which are dropped rather than mangled, and for an empty
/// field.
pub open spec fn clean_of(field: Seq<u8>) -> Option<Seq<char>> {
    let b = field.take(zero_at(field));
    if !valid_utf8(b) {
        None
    } else {
        let t = trim(decode_utf8(b));
        if t.len() == 0 {
            None
        } else {
            Some(t)
        }
    }
}

/// The field of `len` bytes at `off` of a ROM whose file starts with `rom`; `None` for a file
/// too short to hold it.
pub open spec fn field_of(rom: Seq<u8>, off: usize, len: usize) -> Option<Seq<char>> {
    if rom.len() < off + len {
        None
    } else {
        clean_of(rom.subrange(off as int, off + len))
    }
}

/// The text a header field holds, or `None` when it holds none.
pub fn header_clean(field: &[u8]) -> (r: Option<String>)
    ensures
        match r {
            Some(s) => clean_of(field@) == Some(s@),
            None => clean_of(field@) is None,
        },
{
    let ghost f = field@;
    let mut end: usize = 0;
    while end < field.len() && field[end] != 0
        invariant
            end <= field.len(),
            f == field@,
            forall|j: int| 0 <= j < end ==> f[j] != 0,
        decreases field.len() - end,
    {
        end += 1;
    }
    proof {
        lemma_zero_at(f);
        if zero_at(f) < end {
            assert(f[zero_at(f)] != 0);
        }
        if (end as int) < zero_at(f) {
            assert(f[end as int] == 0);
        }
    }
    let bytes = vstd::slice::slice_subrange(field, 0, end);
    assert(bytes@ == f.take(zero_at(f)));
    let text = match utf8_text(bytes) {
        Some(t) => t,
        None => return None,
    };
    proof {
        vstd::utf8::encode_utf8_decode_utf8(text@);
    }
    let t = trim_str(text.as_str());
    if t.as_str().is_empty() {
        None
    } else {
        Some(t)
    }
}

/// The header's field of `len` bytes at `off`, `None` where the file is too short for it.
fn header_field(rom: &[u8], off: usize, len: usize) -> (r: Option<String>)
    requires
        off + len <= usize::MAX,
    ensures
        match r {
            Some(s) => field_of(rom@, off, len) == Some(s@),
            None => field_of(rom@, off, len) is None,
        },
{
    if rom.len() < off + len {
        return None;
    }
    header_clean(vstd::slice::slice_subrange(rom, off, off + len))
}

/// The internal title, or `None` when the file is too short to hold one or it holds none.
/// `rom` is the file's first bytes, through the header at least where the file is that long.
pub fn header_title(rom: &[u8]) -> (r: Option<String>)
    ensures
        match r {
            Some(s) => field_of(rom@, TITLE_OFF, TITLE_LEN) == Some(s@),
            None => field_of(rom@, TITLE_OFF, TITLE_LEN) is None,
        },
{
    header_field(rom, TITLE_OFF, TITLE_LEN)
}

/// The four-character game code, or `None` when the file has none.
pub fn header_code(rom: &[u8]) -> (r: Option<String>)
    ensures
        match r {
            Some(s) => field_of(rom@, CODE_OFF, CODE_LEN) == Some(s@),
            None => field_of(rom@, CODE_OFF, CODE_LEN) is None,
        },
{
    header_field(rom, CODE_OFF, CODE_LEN)
}

} // verus!
