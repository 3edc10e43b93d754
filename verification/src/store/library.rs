//! `System/library.index`: what each ROM's header said, so a boot does not re-read every
//! header. Keyed by platform and file name, so two systems may safely hold ROMs with the same
//! name; a record is trusted only while the ROM's size and modification time are unchanged.
//!
//! The file is `slot-library-index=2` and then a line per ROM: its key, size, modification
//! time in nanoseconds, title and game code, tab separated, with the three texts in hex.
use crate::store::favorites::{compare_chars, lemma_lex_irreflexive, lemma_lex_transitive, lex_lt};
use crate::store::platform::{dir_of, Platform};
use crate::text::{
    append_str, chars_of, dec, lines, line_ranges, parse_bounded, parse_u128_range,
    parse_uint_range, push_dec, push_dec_u128, ranges_are, str_eq, string_of, utf8_text,
};
use vstd::prelude::*;
use vstd::utf8::{decode_utf8, encode_utf8, valid_utf8};

verus! {

pub const INDEX_FILE: &'static str = "library.index";

/// What a ROM file looked like when its header was read.
#[derive(Clone, Copy, PartialEq, Eq, Debug, Structural)]
pub struct Fingerprint {
    pub len: u64,
    pub modified_ns: u128,
}

#[derive(Clone, PartialEq, Eq, Debug)]
pub struct CachedRecord {
    pub fingerprint: Fingerprint,
    pub title: String,
    pub code: String,
}

/// A record with its texts as characters.
pub struct RecordModel {
    pub fingerprint: Fingerprint,
    pub title: Seq<char>,
    pub code: Seq<char>,
}

pub open spec fn record_view(r: CachedRecord) -> RecordModel {
    RecordModel { fingerprint: r.fingerprint, title: r.title@, code: r.code@ }
}

pub open spec fn records_view(v: Seq<(String, CachedRecord)>) -> Seq<(Seq<char>, RecordModel)> {
    Seq::new(v.len(), |i: int| (v[i].0@, record_view(v[i].1)))
}

/// `legacy/<name>` for a ROM found loose, `<platform>/<name>` otherwise.
pub open spec fn key_of(p: Platform, legacy: bool, name: Seq<char>) -> Seq<char> {
    if legacy {
        "legacy/"@ + name
    } else {
        dir_of(p) + seq!['/'] + name
    }
}

pub fn cache_key(platform: Platform, legacy: bool, name: &str) -> (r: String)
    ensures
        r@ == key_of(platform, legacy, name@),
{
    let mut k: Vec<char> = Vec::new();
    if legacy {
        append_str(&mut k, "legacy/");
    } else {
        append_str(&mut k, platform.dir_name());
        k.push('/');
    }
    append_str(&mut k, name);
    string_of(&k)
}

// ---------------------------------------------------------------------------------------------
// Hex
// ---------------------------------------------------------------------------------------------

pub open spec fn hex_digit_char(d: nat) -> char {
    if d < 10 {
        ((d + 48) as u32) as char
    } else {
        ((d + 87) as u32) as char
    }
}

/// Each byte as two lowercase hex digits.
pub open spec fn hex_of(bytes: Seq<u8>) -> Seq<char>
    decreases bytes.len(),
{
    if bytes.len() == 0 {
        Seq::empty()
    } else {
        seq![hex_digit_char((bytes[0] / 16) as nat), hex_digit_char((bytes[0] % 16) as nat)]
            + hex_of(bytes.drop_first())
    }
}

proof fn lemma_hex_digit_char(d: nat)
    requires
        d < 16,
    ensures
        hex_value(hex_digit_char(d)) == Some(d),
        is_ascii_char(hex_digit_char(d)),
        hex_digit_char(d) != '+',
{
    let k: u32 = if d < 10 {
        (d + 48) as u32
    } else {
        (d + 87) as u32
    };
    assert((k as char) as u32 == k);
}

fn hex_char(d: u8) -> (c: char)
    requires
        d < 16,
    ensures
        c == hex_digit_char(d as nat),
{
    if d < 10 {
        crate::text::char_from_ascii(d + 48)
    } else {
        crate::text::char_from_ascii(d + 87)
    }
}

/// A text's UTF-8 bytes as lowercase hex.
pub fn hex(value: &str) -> (r: String)
    ensures
        r@ == hex_of(encode_utf8(value@)),
{
    let bytes = value.as_bytes();
    let mut out: Vec<char> = Vec::new();
    let mut i: usize = 0;
    assert(bytes@.skip(0) =~= bytes@);
    assert(out@ + hex_of(bytes@) =~= hex_of(bytes@));
    while i < bytes.len()
        invariant
            i <= bytes.len(),
            bytes@ == encode_utf8(value@),
            out@ + hex_of(bytes@.skip(i as int)) == hex_of(bytes@),
        decreases bytes.len() - i,
    {
        let b = bytes[i];
        let ghost rest = bytes@.skip(i as int);
        assert(rest.drop_first() == bytes@.skip(i + 1));
        assert(rest[0] == b);
        out.push(hex_char(b / 16));
        out.push(hex_char(b % 16));
        i += 1;
        assert(out@ + hex_of(bytes@.skip(i as int)) =~= hex_of(bytes@));
    }
    assert(bytes@.skip(bytes.len() as int) =~= Seq::<u8>::empty());
    assert(out@ + Seq::<char>::empty() =~= out@);
    string_of(&out)
}

pub open spec fn hex_value(c: char) -> Option<nat> {
    if '0' <= c <= '9' {
        Some(((c as u32) - 48) as nat)
    } else if 'a' <= c <= 'f' {
        Some(((c as u32) - 87) as nat)
    } else if 'A' <= c <= 'F' {
        Some(((c as u32) - 55) as nat)
    } else {
        None
    }
}

/// `u8::from_str_radix` of a two character ASCII text, base 16: an optional `+` and one
/// digit, or two digits.
pub open spec fn hex_pair(a: char, b: char) -> Option<u8> {
    if a == '+' {
        match hex_value(b) {
            Some(d) => Some(d as u8),
            None => None,
        }
    } else {
        match (hex_value(a), hex_value(b)) {
            (Some(x), Some(y)) => Some((x * 16 + y) as u8),
            _ => None,
        }
    }
}

/// The bytes a hex text spells, as the index reader takes them two bytes at a time: `Split`
/// where a two byte slice would cut through a character, which `str` slicing refuses.
pub enum Unhexed {
    Bytes(Seq<u8>),
    Invalid,
    Split,
}

pub open spec fn is_ascii_char(c: char) -> bool {
    (c as u32) < 128
}

/// How many bytes UTF-8 spends on `c`.
pub open spec fn utf8_width(c: char) -> nat {
    if (c as u32) < 0x80 {
        1
    } else if (c as u32) < 0x800 {
        2
    } else if (c as u32) < 0x10000 {
        3
    } else {
        4
    }
}

/// The pairs of `s` from the front, with every pair before it good.
pub open spec fn unhex_pairs(s: Seq<char>) -> Unhexed
    decreases s.len(),
{
    if s.len() == 0 {
        Unhexed::Bytes(Seq::empty())
    } else if !is_ascii_char(s[0]) {
        if utf8_width(s[0]) == 2 {
            Unhexed::Invalid
        } else {
            Unhexed::Split
        }
    } else if s.len() < 2 {
        Unhexed::Invalid
    } else if !is_ascii_char(s[1]) {
        Unhexed::Split
    } else {
        match hex_pair(s[0], s[1]) {
            None => Unhexed::Invalid,
            Some(b) => match unhex_pairs(s.skip(2)) {
                Unhexed::Bytes(rest) => Unhexed::Bytes(seq![b] + rest),
                other => other,
            },
        }
    }
}

/// What a hex text decodes to: the text its bytes spell, `Invalid` for an odd byte count,
/// a non-hex pair or bytes that are not UTF-8, and `Split` where the reader would slice
/// through a character.
pub enum Unhex {
    Text(Seq<char>),
    Invalid,
    Split,
}

pub open spec fn unhex_of(s: Seq<char>) -> Unhex {
    if encode_utf8(s).len() % 2 == 1 {
        Unhex::Invalid
    } else {
        match unhex_pairs(s) {
            Unhexed::Bytes(b) => if valid_utf8(b) {
                Unhex::Text(decode_utf8(b))
            } else {
                Unhex::Invalid
            },
            Unhexed::Invalid => Unhex::Invalid,
            Unhexed::Split => Unhex::Split,
        }
    }
}

fn hex_value_of(c: char) -> (r: Option<u8>)
    ensures
        match r {
            Some(d) => hex_value(c) == Some(d as nat) && d < 16,
            None => hex_value(c) is None,
        },
{
    if '0' <= c && c <= '9' {
        Some((c as u32 - 48) as u8)
    } else if 'a' <= c && c <= 'f' {
        Some((c as u32 - 87) as u8)
    } else if 'A' <= c && c <= 'F' {
        Some((c as u32 - 55) as u8)
    } else {
        None
    }
}

/// The outcome of reading `v[lo..hi]` as hex.
pub enum UnhexResult {
    Text(String),
    Invalid,
    Split,
}

fn unhex_range(v: &Vec<char>, lo: usize, hi: usize, byte_len: usize) -> (r: UnhexResult)
    requires
        lo <= hi <= v.len(),
        byte_len == encode_utf8(v@.subrange(lo as int, hi as int)).len(),
    ensures
        match (r, unhex_of(v@.subrange(lo as int, hi as int))) {
            (UnhexResult::Text(t), Unhex::Text(u)) => t@ == u,
            (UnhexResult::Invalid, Unhex::Invalid) => true,
            (UnhexResult::Split, Unhex::Split) => true,
            _ => false,
        },
{
    let ghost s = v@.subrange(lo as int, hi as int);
    if byte_len % 2 == 1 {
        return UnhexResult::Invalid;
    }
    let mut bytes: Vec<u8> = Vec::new();
    let mut i = lo;
    while i < hi
        invariant
            lo <= i <= hi <= v.len(),
            s == v@.subrange(lo as int, hi as int),
            encode_utf8(s).len() % 2 == 0,
            (i - lo) % 2 == 0,
            unhex_pairs(s) == match unhex_pairs(v@.subrange(i as int, hi as int)) {
                Unhexed::Bytes(rest) => Unhexed::Bytes(bytes@ + rest),
                other => other,
            },
        decreases hi - i,
    {
        let ghost t = v@.subrange(i as int, hi as int);
        let c1 = v[i];
        if c1 as u32 >= 128 {
            let w = c1 as u32;
            if w >= 0x80 && w < 0x800 {
                assert(unhex_pairs(t) == Unhexed::Invalid);
                return UnhexResult::Invalid;
            }
            assert(unhex_pairs(t) == Unhexed::Split);
            return UnhexResult::Split;
        }
        if i + 1 >= hi {
            assert(unhex_pairs(t) == Unhexed::Invalid);
            return UnhexResult::Invalid;
        }
        let c2 = v[i + 1];
        if c2 as u32 >= 128 {
            assert(unhex_pairs(t) == Unhexed::Split);
            return UnhexResult::Split;
        }
        let b = if c1 == '+' {
            match hex_value_of(c2) {
                Some(d) => d,
                None => {
                    assert(unhex_pairs(t) == Unhexed::Invalid);
                    return UnhexResult::Invalid;
                },
            }
        } else {
            match (hex_value_of(c1), hex_value_of(c2)) {
                (Some(x), Some(y)) => x * 16 + y,
                _ => {
                    assert(unhex_pairs(t) == Unhexed::Invalid);
                    return UnhexResult::Invalid;
                },
            }
        };
        assert(t.skip(2) == v@.subrange(i + 2, hi as int));
        assert(hex_pair(c1, c2) == Some(b));
        let ghost before = bytes@;
        bytes.push(b);
        proof {
            match unhex_pairs(v@.subrange(i + 2, hi as int)) {
                Unhexed::Bytes(rest) => {
                    assert(before + (seq![b] + rest) =~= bytes@ + rest);
                },
                _ => {},
            }
        }
        i += 2;
    }
    assert(v@.subrange(hi as int, hi as int) =~= Seq::<char>::empty());
    assert(bytes@ + Seq::<u8>::empty() =~= bytes@);
    match utf8_text(bytes.as_slice()) {
        Some(t) => {
            proof {
                vstd::utf8::encode_utf8_decode_utf8(t@);
            }
            UnhexResult::Text(t)
        },
        None => UnhexResult::Invalid,
    }
}

/// Reads a hex text back into the text it spells.
pub fn unhex(value: &str) -> (r: UnhexResult)
    ensures
        match (r, unhex_of(value@)) {
            (UnhexResult::Text(t), Unhex::Text(u)) => t@ == u,
            (UnhexResult::Invalid, Unhex::Invalid) => true,
            (UnhexResult::Split, Unhex::Split) => true,
            _ => false,
        },
{
    let v = chars_of(value);
    assert(v@.subrange(0, v@.len() as int) == v@);
    let n = value.as_bytes().len();
    unhex_range(&v, 0, v.len(), n)
}

/// A text written by `hex` reads back as that text.
pub proof fn law_hex_round_trip(s: Seq<char>)
    ensures
        unhex_of(hex_of(encode_utf8(s))) == Unhex::Text(s),
{
    let b = encode_utf8(s);
    lemma_hex_shape(b);
    lemma_unhex_hex(b);
    vstd::utf8::encode_utf8_valid_utf8(s);
    vstd::utf8::encode_utf8_decode_utf8(s);
    lemma_hex_utf8_len(hex_of(b));
}

proof fn lemma_hex_shape(b: Seq<u8>)
    ensures
        hex_of(b).len() == 2 * b.len(),
        forall|i: int| 0 <= i < hex_of(b).len() ==> is_ascii_char(#[trigger] hex_of(b)[i]),
    decreases b.len(),
{
    if b.len() > 0 {
        lemma_hex_shape(b.drop_first());
        lemma_hex_digit_char((b[0] / 16) as nat);
        lemma_hex_digit_char((b[0] % 16) as nat);
        let h = hex_of(b);
        let t = hex_of(b.drop_first());
        assert forall|i: int| 0 <= i < h.len() implies is_ascii_char(#[trigger] h[i]) by {
            if i >= 2 {
                assert(h[i] == t[i - 2]);
            }
        }
    }
}

proof fn lemma_unhex_hex(b: Seq<u8>)
    ensures
        unhex_pairs(hex_of(b)) == Unhexed::Bytes(b),
    decreases b.len(),
{
    if b.len() > 0 {
        lemma_unhex_hex(b.drop_first());
        let h = hex_of(b);
        let hi = (b[0] / 16) as nat;
        let lo = (b[0] % 16) as nat;
        lemma_hex_digit_char(hi);
        lemma_hex_digit_char(lo);
        lemma_hex_shape(b);
        assert(h.len() >= 2);
        assert(is_ascii_char(h[0]) && is_ascii_char(h[1]));
        assert(hex_pair(h[0], h[1]) == Some(b[0]));
        assert(h.skip(2) =~= hex_of(b.drop_first()));
        assert(unhex_pairs(h.skip(2)) == Unhexed::Bytes(b.drop_first()));
        assert(seq![b[0]] + b.drop_first() =~= b);
        assert(unhex_pairs(h) == Unhexed::Bytes(seq![b[0]] + b.drop_first()));
        assert(h[0] == hex_digit_char(hi));
        assert(h[1] == hex_digit_char(lo));
        assert(h.skip(2) == hex_of(b.drop_first()));
        assert(hex_value(hex_digit_char(hi)) == Some(hi));
        assert(hex_value(hex_digit_char(lo)) == Some(lo));
        assert(hex_digit_char(hi) != '+');
        assert(hi * 16 + lo == b[0]);
        assert(seq![b[0]] + b.drop_first() == b);
    } else {
        assert(b =~= Seq::<u8>::empty());
        assert(hex_of(b) =~= Seq::<char>::empty());
    }
}

/// ASCII text is one byte a character.
proof fn lemma_hex_utf8_len(h: Seq<char>)
    requires
        forall|i: int| 0 <= i < h.len() ==> is_ascii_char(#[trigger] h[i]),
    ensures
        encode_utf8(h).len() == h.len(),
    decreases h.len(),
{
    if h.len() > 0 {
        assert forall|i: int| 0 <= i < h.drop_first().len() implies is_ascii_char(#[trigger] h.drop_first()[i]) by {
            assert(h.drop_first()[i] == h[i + 1]);
        }
        lemma_hex_utf8_len(h.drop_first());
        assert(is_ascii_char(h[0]));
    }
}

// ---------------------------------------------------------------------------------------------
// The file
// ---------------------------------------------------------------------------------------------

pub open spec fn header_line() -> Seq<char> {
    "slot-library-index=2"@
}

/// A line split at every tab.
pub open spec fn tab_fields(l: Seq<char>) -> Seq<Seq<char>>
    decreases l.len(),
{
    let i = crate::text::index_of(l, '\t');
    if i < 0 {
        seq![l]
    } else {
        proof {
            crate::text::lemma_index_of(l, '\t');
        }
        seq![l.take(i)] + tab_fields(l.skip(i + 1))
    }
}

/// What one record line says, in the order the reader takes its fields.
pub enum LineRead {
    Record(Seq<char>, RecordModel),
    Bad,
    Split,
}

pub open spec fn line_read(l: Seq<char>) -> LineRead {
    let f = tab_fields(l);
    match unhex_of(f[0]) {
        Unhex::Split => LineRead::Split,
        Unhex::Invalid => LineRead::Bad,
        Unhex::Text(name) => if f.len() < 2 {
            LineRead::Bad
        } else {
            match parse_bounded(f[1], u64::MAX as nat) {
                None => LineRead::Bad,
                Some(len) => if f.len() < 3 {
                    LineRead::Bad
                } else {
                    match parse_bounded(f[2], u128::MAX as nat) {
                        None => LineRead::Bad,
                        Some(modified) => if f.len() < 4 {
                            LineRead::Bad
                        } else {
                            match unhex_of(f[3]) {
                                Unhex::Split => LineRead::Split,
                                Unhex::Invalid => LineRead::Bad,
                                Unhex::Text(title) => if f.len() < 5 {
                                    LineRead::Bad
                                } else {
                                    match unhex_of(f[4]) {
                                        Unhex::Split => LineRead::Split,
                                        Unhex::Invalid => LineRead::Bad,
                                        Unhex::Text(code) => if f.len() > 5 {
                                            LineRead::Bad
                                        } else {
                                            LineRead::Record(
                                                name,
                                                RecordModel {
                                                    fingerprint: Fingerprint {
                                                        len: len as u64,
                                                        modified_ns: modified as u128,
                                                    },
                                                    title,
                                                    code,
                                                },
                                            )
                                        },
                                    }
                                },
                            }
                        },
                    }
                },
            }
        },
    }
}

/// What the index's record lines say, in file order: every record, or `None` from the first
/// line that is not one, or `Err` from the first that would be sliced through a character.
pub open spec fn records_read(ls: Seq<Seq<char>>) -> Result<Option<Seq<(Seq<char>, RecordModel)>>, ()>
    decreases ls.len(),
{
    if ls.len() == 0 {
        Ok(Some(Seq::empty()))
    } else {
        match line_read(ls[0]) {
            LineRead::Split => Err(()),
            LineRead::Bad => Ok(None),
            LineRead::Record(name, r) => match records_read(ls.drop_first()) {
                Ok(Some(rest)) => Ok(Some(seq![(name, r)] + rest)),
                other => other,
            },
        }
    }
}

/// The index a file's text holds: `None` when it is not a version 2 index or a line is
/// malformed, `Err` where the reader would slice through a character.
pub open spec fn index_of_text(text: Seq<char>) -> Result<Option<Seq<(Seq<char>, RecordModel)>>, ()> {
    let ls = lines(text);
    if ls.len() == 0 || ls[0] != header_line() {
        Ok(None)
    } else {
        records_read(ls.drop_first())
    }
}

/// The reader would slice a hex field through a multi-byte character here; the index has
/// been edited by hand.
#[derive(Debug)]
pub struct SplitCharacter;

pub open spec fn result_view(r: Result<Option<Vec<(String, CachedRecord)>>, SplitCharacter>) -> Result<Option<Seq<(Seq<char>, RecordModel)>>, ()> {
    match r {
        Ok(Some(v)) => Ok(Some(records_view(v@))),
        Ok(None) => Ok(None),
        Err(_) => Err(()),
    }
}

/// The bounds of each tab separated field of `v[lo..hi]`.
fn field_ranges(v: &Vec<char>, lo: usize, hi: usize) -> (r: Vec<(usize, usize)>)
    requires
        lo <= hi <= v.len(),
    ensures
        r@.len() == tab_fields(v@.subrange(lo as int, hi as int)).len(),
        forall|k: int|
            0 <= k < r@.len() ==> (#[trigger] r@[k]).0 <= r@[k].1 <= v.len() && v@.subrange(
                r@[k].0 as int,
                r@[k].1 as int,
            ) == tab_fields(v@.subrange(lo as int, hi as int))[k],
{
    let mut out: Vec<(usize, usize)> = Vec::new();
    let mut start = lo;
    let ghost whole = tab_fields(v@.subrange(lo as int, hi as int));
    loop
        invariant
            lo <= start <= hi <= v.len(),
            whole == tab_fields(v@.subrange(lo as int, hi as int)),
            forall|k: int|
                0 <= k < out@.len() ==> (#[trigger] out@[k]).0 <= out@[k].1 <= v.len() && v@.subrange(
                    out@[k].0 as int,
                    out@[k].1 as int,
                ) == whole[k],
            whole == Seq::new(out@.len() as nat, |k: int| whole[k]) + tab_fields(v@.subrange(start as int, hi as int)),
        decreases hi - start,
    {
        let ghost rest = v@.subrange(start as int, hi as int);
        match crate::text::find_char(v, start, hi, '\t') {
            Some(t) => {
                let ghost before = out@;
                out.push((start, t));
                proof {
                    crate::text::lemma_index_of(rest, '\t');
                    assert(rest.take(t - start) == v@.subrange(start as int, t as int));
                    assert(rest.skip(t - start + 1) == v@.subrange(t + 1, hi as int));
                    assert(tab_fields(rest) == seq![v@.subrange(start as int, t as int)] + tab_fields(v@.subrange(t + 1, hi as int)));
                    assert(whole[before.len() as int] == v@.subrange(start as int, t as int));
                    assert(Seq::new(out@.len() as nat, |k: int| whole[k]) =~= Seq::new(before.len() as nat, |k: int| whole[k]).push(whole[before.len() as int]));
                }
                start = t + 1;
            },
            None => {
                proof {
                    assert(tab_fields(rest) == seq![rest]);
                    assert(whole[out@.len() as int] == rest);
                    assert(whole.len() == out@.len() + 1);
                }
                out.push((start, hi));
                return out;
            },
        }
    }
}

/// The UTF-8 length of `v[lo..hi]`.
fn utf8_len_range(v: &Vec<char>, lo: usize, hi: usize) -> (r: usize)
    requires
        lo <= hi <= v.len(),
    ensures
        r == encode_utf8(v@.subrange(lo as int, hi as int)).len(),
{
    let s = crate::text::string_of_range(v, lo, hi);
    s.as_str().as_bytes().len()
}

fn unhex_field(v: &Vec<char>, r: (usize, usize)) -> (out: UnhexResult)
    requires
        r.0 <= r.1 <= v.len(),
    ensures
        match (out, unhex_of(v@.subrange(r.0 as int, r.1 as int))) {
            (UnhexResult::Text(t), Unhex::Text(u)) => t@ == u,
            (UnhexResult::Invalid, Unhex::Invalid) => true,
            (UnhexResult::Split, Unhex::Split) => true,
            _ => false,
        },
{
    let n = utf8_len_range(v, r.0, r.1);
    unhex_range(v, r.0, r.1, n)
}

enum LineResult {
    Record(String, CachedRecord),
    Bad,
    Split,
}

fn read_line(v: &Vec<char>, lo: usize, hi: usize) -> (out: LineResult)
    requires
        lo <= hi <= v.len(),
    ensures
        match (out, line_read(v@.subrange(lo as int, hi as int))) {
            (LineResult::Record(n, r), LineRead::Record(m, q)) => n@ == m && record_view(r) == q,
            (LineResult::Bad, LineRead::Bad) => true,
            (LineResult::Split, LineRead::Split) => true,
            _ => false,
        },
{
    let f = field_ranges(v, lo, hi);
    let ghost fs = tab_fields(v@.subrange(lo as int, hi as int));
    proof {
        crate::text::lemma_index_of(v@.subrange(lo as int, hi as int), '\t');
        assert(fs.len() >= 1);
    }
    let name = match unhex_field(v, f[0]) {
        UnhexResult::Text(t) => t,
        UnhexResult::Invalid => return LineResult::Bad,
        UnhexResult::Split => return LineResult::Split,
    };
    if f.len() < 2 {
        return LineResult::Bad;
    }
    let len = match parse_uint_range(v, f[1].0, f[1].1, u64::MAX) {
        Some(n) => n,
        None => return LineResult::Bad,
    };
    if f.len() < 3 {
        return LineResult::Bad;
    }
    let modified = match parse_u128_range(v, f[2].0, f[2].1) {
        Some(n) => n,
        None => return LineResult::Bad,
    };
    if f.len() < 4 {
        return LineResult::Bad;
    }
    let title = match unhex_field(v, f[3]) {
        UnhexResult::Text(t) => t,
        UnhexResult::Invalid => return LineResult::Bad,
        UnhexResult::Split => return LineResult::Split,
    };
    if f.len() < 5 {
        return LineResult::Bad;
    }
    let code = match unhex_field(v, f[4]) {
        UnhexResult::Text(t) => t,
        UnhexResult::Invalid => return LineResult::Bad,
        UnhexResult::Split => return LineResult::Split,
    };
    if f.len() > 5 {
        return LineResult::Bad;
    }
    LineResult::Record(name, CachedRecord { fingerprint: Fingerprint { len, modified_ns: modified }, title, code })
}

/// The records an index file's text holds, in file order; a later record for a key stands
/// for that key.
pub fn read_cache(text: &str) -> (r: Result<Option<Vec<(String, CachedRecord)>>, SplitCharacter>)
    ensures
        result_view(r) == index_of_text(text@),
{
    let v = chars_of(text);
    let ranges = line_ranges(&v);
    let ghost ls = lines(v@);
    if ranges.len() == 0 {
        return Ok(None);
    }
    let (h0, h1) = ranges[0];
    let head = chars_of("slot-library-index=2");
    proof {
        reveal_strlit("slot-library-index=2");
        assert(ranges@[0].0 <= ranges@[0].1 <= v@.len());
    }
    if !crate::text::chars_eq(&v, h0, h1, &head, 0, head.len()) {
        assert(head@.subrange(0, head@.len() as int) == head@);
        return Ok(None);
    }
    assert(head@.subrange(0, head@.len() as int) == head@);
    let ghost body = ls.drop_first();
    let mut out: Vec<(String, CachedRecord)> = Vec::new();
    let mut i: usize = 1;
    proof {
        assert(v@.subrange(h0 as int, h1 as int) == ls[0]);
        assert(ls[0] == header_line());
        assert(index_of_text(text@) == records_read(body));
        assert(body.skip(0) =~= body);
        match records_read(body) {
            Ok(Some(rest)) => {
                assert(records_view(out@) + rest =~= rest);
            },
            _ => {},
        }
    }
    while i < ranges.len()
        invariant
            1 <= i <= ranges.len(),
            ls == lines(v@),
            v@ == text@,
            ranges_are(v@, ranges@, ls),
            body == ls.drop_first(),
            index_of_text(text@) == records_read(body),
            records_read(body) == match records_read(body.skip(i - 1)) {
                Ok(Some(rest)) => Ok(Some(records_view(out@) + rest)),
                other => other,
            },
        decreases ranges.len() - i,
    {
        let (lo, hi) = ranges[i];
        assert(ranges@[i as int].0 <= ranges@[i as int].1 <= v@.len());
        let ghost tail = body.skip(i - 1);
        assert(tail[0] == v@.subrange(lo as int, hi as int));
        assert(tail.drop_first() == body.skip(i as int));
        match read_line(&v, lo, hi) {
            LineResult::Split => {
                assert(records_read(tail) is Err);
                return Err(SplitCharacter);
            },
            LineResult::Bad => {
                assert(records_read(tail) == Ok::<Option<Seq<(Seq<char>, RecordModel)>>, ()>(None));
                return Ok(None);
            },
            LineResult::Record(name, rec) => {
                let ghost before = records_view(out@);
                out.push((name, rec));
                proof {
                    match records_read(body.skip(i as int)) {
                        Ok(Some(rest)) => {
                            assert(before + (seq![records_view(out@)[before.len() as int]] + rest) =~= records_view(out@) + rest);
                        },
                        _ => {},
                    }
                    assert(records_view(out@) =~= before.push(records_view(out@)[before.len() as int]));
                }
            },
        }
        i += 1;
    }
    assert(body.skip(i - 1) =~= Seq::<Seq<char>>::empty());
    assert(records_view(out@) + Seq::<(Seq<char>, RecordModel)>::empty() =~= records_view(out@));
    Ok(Some(out))
}

/// One record's line: key, size, time, title and code, tab separated, with a newline.
pub open spec fn record_line(name: Seq<char>, r: RecordModel) -> Seq<char> {
    record_body(name, r) + seq!['\n']
}

/// A record's line without its newline.
pub open spec fn record_body(name: Seq<char>, r: RecordModel) -> Seq<char> {
    hex_of(encode_utf8(name)) + seq!['\t'] + dec(r.fingerprint.len as nat) + seq!['\t'] + dec(
        r.fingerprint.modified_ns as nat,
    ) + seq!['\t'] + hex_of(encode_utf8(r.title)) + seq!['\t'] + hex_of(encode_utf8(r.code))
}

pub open spec fn records_text(rs: Seq<(Seq<char>, RecordModel)>) -> Seq<char>
    decreases rs.len(),
{
    if rs.len() == 0 {
        Seq::empty()
    } else {
        records_text(rs.drop_last()) + record_line(rs.last().0, rs.last().1)
    }
}

/// The text of the index file that holds `records`, in the order given.
pub fn encode_cache(records: &Vec<(String, CachedRecord)>) -> (r: String)
    ensures
        r@ == header_line() + seq!['\n'] + records_text(records_view(records@)),
{
    let mut out: Vec<char> = Vec::new();
    append_str(&mut out, "slot-library-index=2\n");
    proof {
        reveal_strlit("slot-library-index=2\n");
        reveal_strlit("slot-library-index=2");
        assert("slot-library-index=2\n"@ =~= header_line() + seq!['\n']);
    }
    let ghost all = records_view(records@);
    let mut i: usize = 0;
    assert(all.take(0) =~= Seq::<(Seq<char>, RecordModel)>::empty());
    while i < records.len()
        invariant
            i <= records.len(),
            all == records_view(records@),
            out@ == header_line() + seq!['\n'] + records_text(all.take(i as int)),
        decreases records.len() - i,
    {
        let (name, rec) = &records[i];
        let ghost before = out@;
        append_str(&mut out, hex(name.as_str()).as_str());
        out.push('\t');
        push_dec(&mut out, rec.fingerprint.len);
        out.push('\t');
        push_dec_u128(&mut out, rec.fingerprint.modified_ns);
        out.push('\t');
        append_str(&mut out, hex(rec.title.as_str()).as_str());
        out.push('\t');
        append_str(&mut out, hex(rec.code.as_str()).as_str());
        out.push('\n');
        proof {
            assert(all.take(i + 1).drop_last() == all.take(i as int));
            assert(all.take(i + 1).last() == all[i as int]);
            assert(out@ =~= before + record_line(all[i as int].0, all[i as int].1));
        }
        i += 1;
    }
    assert(all.take(records.len() as int) == all);
    string_of(&out)
}

// ---------------------------------------------------------------------------------------------
// The index by key
// ---------------------------------------------------------------------------------------------

/// What an index holds by key: a later record for a key stands for it.
pub open spec fn index_map(rs: Seq<(Seq<char>, RecordModel)>) -> Map<Seq<char>, RecordModel>
    decreases rs.len(),
{
    if rs.len() == 0 {
        Map::empty()
    } else {
        index_map(rs.drop_last()).insert(rs.last().0, rs.last().1)
    }
}

/// Each key sorts before every later one: the records are a map, in key order.
pub open spec fn keys_ascending(rs: Seq<(Seq<char>, RecordModel)>) -> bool {
    forall|i: int, j: int| 0 <= i < j < rs.len() ==> lex_lt(#[trigger] rs[i].0, #[trigger] rs[j].0)
}

proof fn lemma_index_map_dom(rs: Seq<(Seq<char>, RecordModel)>, k: Seq<char>)
    ensures
        index_map(rs).contains_key(k) ==> exists|j: int| 0 <= j < rs.len() && #[trigger] rs[j].0 == k,
    decreases rs.len(),
{
    if rs.len() > 0 {
        lemma_index_map_dom(rs.drop_last(), k);
        if index_map(rs.drop_last()).contains_key(k) {
            let j = choose|j: int| 0 <= j < rs.drop_last().len() && #[trigger] rs.drop_last()[j].0 == k;
            assert(rs[j].0 == k);
        } else if index_map(rs).contains_key(k) {
            assert(rs[rs.len() - 1].0 == k);
        }
    }
}

proof fn lemma_index_map_at(rs: Seq<(Seq<char>, RecordModel)>, i: int)
    requires
        keys_ascending(rs),
        0 <= i < rs.len(),
    ensures
        index_map(rs).contains_key(rs[i].0),
        index_map(rs)[rs[i].0] == rs[i].1,
    decreases rs.len(),
{
    if i < rs.len() - 1 {
        let d = rs.drop_last();
        assert(keys_ascending(d)) by {
            assert forall|p: int, q: int| 0 <= p < q < d.len() implies lex_lt(#[trigger] d[p].0, #[trigger] d[q].0) by {
                assert(d[p] == rs[p] && d[q] == rs[q]);
            }
        }
        lemma_index_map_at(d, i);
        assert(d[i] == rs[i]);
        assert(lex_lt(rs[i].0, rs[rs.len() - 1].0));
        lemma_lex_irreflexive(rs[i].0);
    }
}

proof fn lemma_index_map_suffix(rs: Seq<(Seq<char>, RecordModel)>, i: int, k: Seq<char>)
    requires
        0 <= i <= rs.len(),
        forall|j: int| i <= j < rs.len() ==> #[trigger] rs[j].0 != k,
    ensures
        index_map(rs).contains_key(k) == index_map(rs.take(i)).contains_key(k),
        index_map(rs).contains_key(k) ==> index_map(rs)[k] == index_map(rs.take(i))[k],
    decreases rs.len(),
{
    if i < rs.len() {
        let d = rs.drop_last();
        assert forall|j: int| i <= j < d.len() implies #[trigger] d[j].0 != k by {
            assert(d[j] == rs[j]);
        }
        lemma_index_map_suffix(d, i, k);
        assert(d.take(i) =~= rs.take(i));
        assert(rs.last().0 != k);
    } else {
        assert(rs.take(i) =~= rs);
    }
}

/// What the index `m` answers for `key` and a ROM that now has `fingerprint`: the title and
/// code read from its header, while the ROM still has the size and modification time they
/// were read at.
pub open spec fn cache_hit(m: Map<Seq<char>, RecordModel>, key: Seq<char>, fingerprint: Fingerprint) -> Option<
    (Seq<char>, Seq<char>),
> {
    if m.contains_key(key) && m[key].fingerprint == fingerprint {
        Some((m[key].title, m[key].code))
    } else {
        None
    }
}

/// The title and code an index holds for `key`, when the ROM still has the size and
/// modification time they were read at; `None` when the header has to be read again.
pub fn cached_header(cache: &Vec<(String, CachedRecord)>, key: &str, fingerprint: Fingerprint) -> (r:
    Option<(String, String)>)
    ensures
        match r {
            Some((title, code)) => cache_hit(index_map(records_view(cache@)), key@, fingerprint)
                == Some((title@, code@)),
            None => cache_hit(index_map(records_view(cache@)), key@, fingerprint) is None,
        },
{
    let ghost all = records_view(cache@);
    let mut i: usize = cache.len();
    while i > 0
        invariant
            i <= cache.len(),
            all == records_view(cache@),
            forall|j: int| i <= j < all.len() ==> #[trigger] all[j].0 != key@,
        decreases i,
    {
        if str_eq(cache[i - 1].0.as_str(), key) {
            proof {
                lemma_index_map_suffix(all, i as int, key@);
                assert(all.take(i as int).drop_last() =~= all.take(i - 1));
                assert(all.take(i as int).last() == all[i - 1]);
            }
            let rec = &cache[i - 1].1;
            if rec.fingerprint == fingerprint {
                return Some((rec.title.clone(), rec.code.clone()));
            }
            return None;
        }
        i -= 1;
    }
    proof {
        lemma_index_map_suffix(all, 0, key@);
        assert(all.take(0) =~= Seq::<(Seq<char>, RecordModel)>::empty());
    }
    None
}

/// Records `record` under `key`, replacing what the key held, keeping the keys in order.
pub fn remember(records: &mut Vec<(String, CachedRecord)>, key: String, record: CachedRecord)
    requires
        keys_ascending(records_view(old(records)@)),
    ensures
        keys_ascending(records_view(final(records)@)),
        index_map(records_view(final(records)@)) == index_map(records_view(old(records)@)).insert(
            key@,
            record_view(record),
        ),
{
    let ghost s = records_view(records@);
    let ghost k = key@;
    let ghost rv = record_view(record);
    let kc = chars_of(key.as_str());
    let mut i: usize = 0;
    let mut c: i8 = -1;
    let mut done = false;
    while !done && i < records.len()
        invariant
            i <= records.len(),
            s == records_view(records@),
            kc@ == k,
            forall|j: int| 0 <= j < i ==> lex_lt(#[trigger] s[j].0, k),
            done ==> i < records.len() && c >= 0,
            done && c == 0 ==> s[i as int].0 == k,
            done && c > 0 ==> lex_lt(k, s[i as int].0),
        decreases records.len() - i + (if done { 0int } else { 1int }),
    {
        let other = chars_of(records[i].0.as_str());
        c = compare_chars(&other, &kc);
        if c >= 0 {
            done = true;
        } else {
            i += 1;
        }
    }
    let replace = done && c == 0;
    if replace {
        records.set(i, (key, record));
    } else {
        records.insert(i, (key, record));
    }
    let ghost n = records_view(records@);
    proof {
        if replace {
            assert(n =~= s.update(i as int, (k, rv)));
        } else {
            assert(n =~= s.insert(i as int, (k, rv)));
        }
        // The keys stay in order.
        assert forall|p: int, q: int| 0 <= p < q < n.len() implies lex_lt(#[trigger] n[p].0, #[trigger] n[q].0) by {
            if replace {
                if p == i {
                    assert(n[q] == s[q]);
                } else if q == i {
                    assert(n[p] == s[p]);
                } else {
                    assert(n[p] == s[p] && n[q] == s[q]);
                }
            } else if q < i {
                assert(n[p] == s[p] && n[q] == s[q]);
            } else if q == i {
                assert(n[p] == s[p]);
            } else if p == i {
                assert(n[q] == s[q - 1]);
                if q - 1 > i {
                    lemma_lex_transitive(k, s[i as int].0, s[q - 1].0);
                }
            } else if p < i {
                assert(n[p] == s[p] && n[q] == s[q - 1]);
            } else {
                assert(n[p] == s[p - 1] && n[q] == s[q - 1]);
            }
        }
        let m = index_map(s).insert(k, rv);
        lemma_index_map_at(n, i as int);
        assert(n[i as int] == (k, rv));
        assert forall|x: Seq<char>| #[trigger] index_map(n).contains_key(x) implies m.contains_key(x)
            && index_map(n)[x] == m[x] by {
            lemma_index_map_dom(n, x);
            let j = choose|j: int| 0 <= j < n.len() && #[trigger] n[j].0 == x;
            lemma_index_map_at(n, j);
            if x != k {
                let js = if replace || j < i { j } else { j - 1 };
                assert(j != i);
                assert(n[j] == s[js]);
                lemma_index_map_at(s, js);
            }
        }
        assert forall|x: Seq<char>| #[trigger] m.contains_key(x) implies index_map(n).contains_key(x) by {
            if x != k {
                lemma_index_map_dom(s, x);
                let js = choose|j: int| 0 <= j < s.len() && #[trigger] s[j].0 == x;
                let j = if replace || js < i { js } else { js + 1 };
                if replace {
                    assert(js != i);
                }
                assert(n[j] == s[js]);
                lemma_index_map_at(n, j);
            }
        }
        assert(index_map(n) =~= m);
    }
}

/// The index `records` hold, by key in key order, as the reader's later records override
/// earlier ones.
pub fn collect_index(records: &Vec<(String, CachedRecord)>) -> (r: Vec<(String, CachedRecord)>)
    ensures
        keys_ascending(records_view(r@)),
        index_map(records_view(r@)) == index_map(records_view(records@)),
{
    let ghost all = records_view(records@);
    let mut out: Vec<(String, CachedRecord)> = Vec::new();
    let mut i: usize = 0;
    assert(records_view(out@) =~= Seq::<(Seq<char>, RecordModel)>::empty());
    assert(all.take(0) =~= Seq::<(Seq<char>, RecordModel)>::empty());
    while i < records.len()
        invariant
            i <= records.len(),
            all == records_view(records@),
            keys_ascending(records_view(out@)),
            index_map(records_view(out@)) == index_map(all.take(i as int)),
        decreases records.len() - i,
    {
        let (name, rec) = &records[i];
        let copy = CachedRecord {
            fingerprint: rec.fingerprint,
            title: rec.title.clone(),
            code: rec.code.clone(),
        };
        remember(&mut out, name.clone(), copy);
        proof {
            assert(all.take(i + 1).drop_last() =~= all.take(i as int));
            assert(all.take(i + 1).last() == all[i as int]);
        }
        i += 1;
    }
    assert(all.take(records.len() as int) =~= all);
    out
}

/// Whether the index file has to be written again after a scan: there was none, a ROM's
/// header had to be read, or ROMs have gone.
pub fn index_is_stale(cache: &Option<Vec<(String, CachedRecord)>>, missed: bool, records: &Vec<(String, CachedRecord)>) -> (r: bool)
    ensures
        r == match cache {
            None => true,
            Some(old) => missed || old.len() != records.len(),
        },
{
    match cache {
        None => true,
        Some(old) => missed || old.len() != records.len(),
    }
}

// ---------------------------------------------------------------------------------------------
// Laws
// ---------------------------------------------------------------------------------------------

pub open spec fn no_tab(s: Seq<char>) -> bool {
    forall|i: int| 0 <= i < s.len() ==> #[trigger] s[i] != '\t' && s[i] != '\n'
}

proof fn lemma_fields_one(f: Seq<char>)
    requires
        no_tab(f),
    ensures
        tab_fields(f) == seq![f],
{
    crate::text::lemma_index_of_is(f, '\t', -1);
}

proof fn lemma_fields_cons(f: Seq<char>, rest: Seq<char>)
    requires
        no_tab(f),
    ensures
        tab_fields(f + seq!['\t'] + rest) == seq![f] + tab_fields(rest),
{
    let s = f + seq!['\t'] + rest;
    assert forall|j: int| 0 <= j < s.len() && j < f.len() implies s[j] != '\t' by {
        assert(s[j] == f[j]);
    }
    assert(s[f.len() as int] == '\t');
    crate::text::lemma_index_of_is(s, '\t', f.len() as int);
    assert(s.take(f.len() as int) =~= f);
    assert(s.skip(f.len() as int + 1) =~= rest);
}

proof fn lemma_hex_no_tab(b: Seq<u8>)
    ensures
        no_tab(hex_of(b)),
{
    lemma_hex_shape(b);
    let h = hex_of(b);
    assert forall|i: int| 0 <= i < h.len() implies #[trigger] h[i] != '\t' && h[i] != '\n' by {
        lemma_hex_chars(b, i);
    }
}

proof fn lemma_hex_chars(b: Seq<u8>, i: int)
    requires
        0 <= i < hex_of(b).len(),
    ensures
        hex_of(b)[i] != '\t' && hex_of(b)[i] != '\n' && hex_of(b)[i] != '\r',
    decreases b.len(),
{
    lemma_hex_shape(b);
    if b.len() > 0 {
        let h = hex_of(b);
        lemma_hex_digit_char((b[0] / 16) as nat);
        lemma_hex_digit_char((b[0] % 16) as nat);
        if i >= 2 {
            assert(h[i] == hex_of(b.drop_first())[i - 2]);
            lemma_hex_chars(b.drop_first(), i - 2);
        } else {
            assert(hex_value(h[i]) is Some);
        }
    }
}

proof fn lemma_dec_no_tab(n: nat)
    ensures
        no_tab(dec(n)),
        dec(n).len() > 0,
{
    crate::text::lemma_dec_digits(n);
    let d = dec(n);
    assert forall|i: int| 0 <= i < d.len() implies #[trigger] d[i] != '\t' && d[i] != '\n' by {
        assert(crate::text::is_digit(d[i]));
    }
}

proof fn lemma_record_body(name: Seq<char>, r: RecordModel)
    ensures
        line_read(record_body(name, r)) == LineRead::Record(name, r),
        crate::store::ini::no_newline(record_body(name, r)),
        record_body(name, r).len() == 0 || record_body(name, r).last() != '\r',
{
    let a = hex_of(encode_utf8(name));
    let b = dec(r.fingerprint.len as nat);
    let c = dec(r.fingerprint.modified_ns as nat);
    let d = hex_of(encode_utf8(r.title));
    let e = hex_of(encode_utf8(r.code));
    lemma_hex_no_tab(encode_utf8(name));
    lemma_hex_no_tab(encode_utf8(r.title));
    lemma_hex_no_tab(encode_utf8(r.code));
    lemma_dec_no_tab(r.fingerprint.len as nat);
    lemma_dec_no_tab(r.fingerprint.modified_ns as nat);
    let t4 = e;
    let t3 = d + seq!['\t'] + e;
    let t2 = c + seq!['\t'] + t3;
    let t1 = b + seq!['\t'] + t2;
    let body = a + seq!['\t'] + t1;
    assert(record_body(name, r) =~= body);
    lemma_fields_one(e);
    lemma_fields_cons(d, e);
    lemma_fields_cons(c, t3);
    lemma_fields_cons(b, t2);
    lemma_fields_cons(a, t1);
    let f = tab_fields(body);
    assert(f =~= seq![a, b, c, d, e]);
    law_hex_round_trip(name);
    law_hex_round_trip(r.title);
    law_hex_round_trip(r.code);
    crate::text::lemma_parse_dec(r.fingerprint.len as nat);
    crate::text::lemma_parse_dec(r.fingerprint.modified_ns as nat);
    assert(crate::store::ini::no_newline(body)) by {
        assert forall|i: int| 0 <= i < body.len() implies #[trigger] body[i] != '\n' by {
            if i < a.len() {
                assert(body[i] == a[i]);
            } else if i > a.len() {
                let j = i - a.len() - 1;
                assert(body[i] == t1[j]);
                if j < b.len() {
                    assert(t1[j] == b[j]);
                } else if j > b.len() {
                    let k = j - b.len() - 1;
                    assert(t1[j] == t2[k]);
                    if k < c.len() {
                        assert(t2[k] == c[k]);
                    } else if k > c.len() {
                        let m = k - c.len() - 1;
                        assert(t2[k] == t3[m]);
                        if m < d.len() {
                            assert(t3[m] == d[m]);
                        } else if m > d.len() {
                            assert(t3[m] == e[m - d.len() - 1]);
                        }
                    }
                }
            }
        }
    }
    if e.len() > 0 {
        assert(body.last() == e.last());
        lemma_hex_chars(encode_utf8(r.code), e.len() - 1);
    } else {
        assert(body.last() == '\t');
    }
}

pub open spec fn bodies(rs: Seq<(Seq<char>, RecordModel)>) -> Seq<Seq<char>> {
    Seq::new(rs.len(), |i: int| record_body(rs[i].0, rs[i].1))
}

proof fn lemma_records_text(rs: Seq<(Seq<char>, RecordModel)>)
    ensures
        records_text(rs) == crate::store::ini::join_lines(bodies(rs)),
    decreases rs.len(),
{
    if rs.len() > 0 {
        lemma_records_text(rs.drop_last());
        assert(bodies(rs).drop_last() =~= bodies(rs.drop_last()));
    } else {
        assert(bodies(rs) =~= Seq::<Seq<char>>::empty());
    }
}

proof fn lemma_records_read(rs: Seq<(Seq<char>, RecordModel)>)
    ensures
        records_read(bodies(rs)) == Ok::<Option<Seq<(Seq<char>, RecordModel)>>, ()>(Some(rs)),
    decreases rs.len(),
{
    if rs.len() > 0 {
        lemma_records_read(rs.drop_first());
        assert(bodies(rs).drop_first() =~= bodies(rs.drop_first()));
        lemma_record_body(rs[0].0, rs[0].1);
        assert(seq![(rs[0].0, rs[0].1)] + rs.drop_first() =~= rs);
    } else {
        assert(bodies(rs) =~= Seq::<Seq<char>>::empty());
        assert(rs =~= Seq::<(Seq<char>, RecordModel)>::empty());
    }
}

/// A header remembered under a key is what the next lookup of that key answers while the
/// ROM is unchanged, nothing once it has changed, and remembering one key leaves every
/// other key's answer as it was.
pub proof fn law_lookup_after_remember(
    m: Map<Seq<char>, RecordModel>,
    key: Seq<char>,
    rec: RecordModel,
    other: Seq<char>,
    fingerprint: Fingerprint,
)
    ensures
        cache_hit(m.insert(key, rec), key, rec.fingerprint) == Some((rec.title, rec.code)),
        fingerprint != rec.fingerprint ==> cache_hit(m.insert(key, rec), key, fingerprint) is None,
        other != key ==> cache_hit(m.insert(key, rec), other, fingerprint) == cache_hit(m, other, fingerprint),
{
}

/// An index written out reads back as the records that were written, in order, whatever
/// their keys, titles and codes hold.
pub proof fn law_index_round_trip(rs: Seq<(Seq<char>, RecordModel)>)
    ensures
        index_of_text(header_line() + seq!['\n'] + records_text(rs))
            == Ok::<Option<Seq<(Seq<char>, RecordModel)>>, ()>(Some(rs)),
{
    reveal_strlit("slot-library-index=2");
    let bs = bodies(rs);
    let all = seq![header_line()] + bs;
    lemma_records_text(rs);
    assert forall|i: int| 0 <= i < all.len() implies crate::store::ini::no_newline(#[trigger] all[i])
        && (all[i].len() == 0 || all[i].last() != '\r') by {
        if i > 0 {
            assert(all[i] == bs[i - 1]);
            lemma_record_body(rs[i - 1].0, rs[i - 1].1);
        } else {
            let h = header_line();
            assert forall|j: int| 0 <= j < h.len() implies #[trigger] h[j] != '\n' by {}
        }
    }
    assert(crate::store::ini::no_newlines(all));
    lemma_join_prefix(header_line(), bs);
    crate::store::ini::lemma_lines_join(all, Seq::empty());
    assert(crate::store::ini::join_lines(all) + Seq::<char>::empty() == crate::store::ini::join_lines(all));
    assert(lines(Seq::<char>::empty()) == Seq::<Seq<char>>::empty());
    assert forall|i: int| 0 <= i < all.len() implies #[trigger] crate::store::ini::strip_crs(all)[i] == all[i] by {
    }
    assert(crate::store::ini::strip_crs(all) =~= all);
    assert(all.drop_first() =~= bs);
    lemma_records_read(rs);
}

proof fn lemma_join_prefix(h: Seq<char>, bs: Seq<Seq<char>>)
    ensures
        crate::store::ini::join_lines(seq![h] + bs) == h + seq!['\n'] + crate::store::ini::join_lines(bs),
    decreases bs.len(),
{
    let all = seq![h] + bs;
    if bs.len() == 0 {
        assert(all =~= seq![h]);
        assert(all.drop_last() =~= Seq::<Seq<char>>::empty());
        assert(crate::store::ini::join_lines(all.drop_last()) == Seq::<char>::empty());
        assert(crate::store::ini::join_lines(all) == Seq::<char>::empty() + h + seq!['\n']);
        assert(Seq::<char>::empty() + h + seq!['\n'] =~= h + seq!['\n'] + Seq::<char>::empty());
    } else {
        lemma_join_prefix(h, bs.drop_last());
        assert(all.drop_last() =~= seq![h] + bs.drop_last());
        assert(all.last() == bs.last());
        let jr = crate::store::ini::join_lines(bs.drop_last());
        assert(crate::store::ini::join_lines(all) == h + seq!['\n'] + jr + bs.last() + seq!['\n']);
        assert(crate::store::ini::join_lines(bs) == jr + bs.last() + seq!['\n']);
        assert(h + seq!['\n'] + jr + bs.last() + seq!['\n'] =~= h + seq!['\n'] + (jr + bs.last() + seq!['\n']));
    }
}

} // verus!
