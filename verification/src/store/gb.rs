//! The Game Boy cartridge header, read from the first bytes of a ROM file.
use crate::text::{trim, trim_str, utf8_text};
use vstd::prelude::*;
use vstd::utf8::{decode_utf8, valid_utf8};

verus! {

/// The title runs from 0x134 and was **11** bytes on later carts, which shortened it to make
/// room for a four-character manufacturer code at 0x13F and the CGB flag at 0x143. Reading
/// sixteen from 0x134, as the old field allowed, swallows both.
pub const TITLE_OFF: usize = 0x134;

pub const TITLE_LEN: usize = 11;

/// 0x00 is a plain Game Boy cart, 0x80 is Colour-enhanced but still runs on original hardware,
/// and 0xC0 is Colour-only.
pub const CGB_OFF: usize = 0x143;

/// Where the first zero byte of `f` is, or its length when it has none.
pub open spec fn zero_at(f: Seq<u8>) -> int
    decreases f.len(),
{
    if f.len() == 0 {
        0
    } else if f[0] == 0 {
        0
    } else {
        1 + zero_at(f.drop_first())
    }
}

/// The header title of a ROM whose file starts with `rom`: the eleven title bytes up to the
/// first zero, as UTF-8, trimmed; `None` for a file too short to hold them, for bytes that
/// are not UTF-8, and for an empty title — which is not a malformed ROM.
pub open spec fn title_of(rom: Seq<u8>) -> Option<Seq<char>> {
    if rom.len() < TITLE_OFF + TITLE_LEN {
        None
    } else {
        let f = rom.subrange(TITLE_OFF as int, (TITLE_OFF + TITLE_LEN) as int);
        let b = f.take(zero_at(f));
        if !valid_utf8(b) {
            None
        } else {
            let t = trim(decode_utf8(b));
            if t.len() == 0 {
                None
            } else {
                Some(t)
            }
        }
    }
}

pub(crate) proof fn lemma_zero_at(f: Seq<u8>)
    ensures
        0 <= zero_at(f) <= f.len(),
        zero_at(f) < f.len() ==> f[zero_at(f)] == 0,
        forall|j: int| 0 <= j < zero_at(f) ==> f[j] != 0,
    decreases f.len(),
{
    if f.len() > 0 && f[0] != 0 {
        lemma_zero_at(f.drop_first());
        assert forall|j: int| 0 <= j < zero_at(f) implies f[j] != 0 by {
            if j > 0 {
                assert(f[j] == f.drop_first()[j - 1]);
            }
        }
    }
}

/// The header title, or `None` when the field is empty. `rom` is the file's first bytes,
/// through the header at least where the file is that long.
pub fn title(rom: &[u8]) -> (r: Option<String>)
    ensures
        match r {
            Some(s) => title_of(rom@) == Some(s@),
            None => title_of(rom@) is None,
        },
{
    if rom.len() < TITLE_OFF + TITLE_LEN {
        return None;
    }
    let ghost f = rom@.subrange(TITLE_OFF as int, (TITLE_OFF + TITLE_LEN) as int);
    let mut end: usize = 0;
    while end < TITLE_LEN && rom[TITLE_OFF + end] != 0
        invariant
            end <= TITLE_LEN,
            rom@.len() >= TITLE_OFF + TITLE_LEN,
            f == rom@.subrange(TITLE_OFF as int, (TITLE_OFF + TITLE_LEN) as int),
            forall|j: int| 0 <= j < end ==> f[j] != 0,
        decreases TITLE_LEN - end,
    {
        end += 1;
    }
    proof {
        lemma_zero_at(f);
        if zero_at(f) < end {
            assert(f[zero_at(f)] != 0);
        }
        if (end as int) < zero_at(f) {
            assert(f[end as int] == 0);
        }
    }
    let bytes = vstd::slice::slice_subrange(rom, TITLE_OFF, TITLE_OFF + end);
    assert(bytes@ == f.take(zero_at(f)));
    let text = match utf8_text(bytes) {
        Some(t) => t,
        None => return None,
    };
    proof {
        vstd::utf8::encode_utf8_decode_utf8(text@);
    }
    let t = trim_str(text.as_str());
    if t.as_str().is_empty() {
        None
    } else {
        Some(t)
    }
}

/// The CGB flag byte, `None` for a file too short to have one.
pub fn cgb_flag(rom: &[u8]) -> (r: Option<u8>)
    ensures
        r == (if rom@.len() > CGB_OFF {
            Some(rom@[CGB_OFF as int])
        } else {
            None
        }),
{
    if rom.len() > CGB_OFF {
        Some(rom[CGB_OFF])
    } else {
        None
    }
}

/// Which cartridge Nintendo actually manufactured for this rom. The three classes are the ones
/// its own typology names, and the CGB flag is what picks between them — not the file
/// extension, which is a dumping convention.
#[derive(Copy, Clone, PartialEq, Eq, Debug, Structural)]
pub enum Class {
    /// Flag 0x00, "CGB Incompatible": a grey pak with the power-switch notch, which runs on
    /// every Game Boy there is.
    Original,
    /// Flag 0x80, "CGB Compatible": a **black** pak. It uses Colour functions and still runs on
    /// original hardware, so it was moulded in the same notched shell as a grey one.
    DualMode,
    /// Flag 0xc0, "CGB Exclusive": the clear pak, and the only one of the three without the
    /// notch.
    ColourOnly,
}

pub open spec fn class_of(flag: Option<u8>) -> Class {
    match flag {
        Some(f) => if f == 0xc0 {
            Class::ColourOnly
        } else if f == 0x80 {
            Class::DualMode
        } else {
            Class::Original
        },
        None => Class::Original,
    }
}

/// The manual lists three values and no others, so anything else — including a rom too short to
/// have a header — is an original pak. That is the safe way to be wrong.
pub fn class(rom: &[u8]) -> (r: Class)
    ensures
        r == class_of(if rom@.len() > CGB_OFF {
            Some(rom@[CGB_OFF as int])
        } else {
            None
        }),
{
    match cgb_flag(rom) {
        Some(0xc0) => Class::ColourOnly,
        Some(0x80) => Class::DualMode,
        _ => Class::Original,
    }
}

} // verus!
