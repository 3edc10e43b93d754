//! `System/font.txt`: which face the interface draws its text in.
use crate::text::{str_eq, trim, trim_str};
use vstd::prelude::*;

verus! {

pub const FONT_FILE: &'static str = "font.txt";

/// Pixelify unless the file, trimmed, says `original`: the face used before Pixelify was
/// added. A missing file reads as empty text.
pub open spec fn pixelify_of(text: Seq<char>) -> bool {
    trim(text) != "original"@
}

/// Pixelify is the default now; `original` restores the face used before it was added.
pub fn read_pixelify(text: &str) -> (r: bool)
    ensures
        r == pixelify_of(text@),
{
    let t = trim_str(text);
    if str_eq(t.as_str(), "pixelify") {
        proof {
            reveal_strlit("pixelify");
            reveal_strlit("original");
            assert(t@[0] != "original"@[0]);
        }
        true
    } else if str_eq(t.as_str(), "original") {
        false
    } else {
        true
    }
}

/// The text of the file that records the choice.
pub fn write_pixelify(pixelify: bool) -> (r: &'static str)
    ensures
        r@ == (if pixelify {
            "pixelify\n"@
        } else {
            "original\n"@
        }),
{
    if pixelify {
        "pixelify\n"
    } else {
        "original\n"
    }
}

/// The choice written is the choice read back.
pub proof fn law_font_round_trip(pixelify: bool)
    ensures
        pixelify_of(
            if pixelify {
                "pixelify\n"@
            } else {
                "original\n"@
            },
        ) == pixelify,
{
    reveal_strlit("pixelify\n");
    reveal_strlit("original\n");
    reveal_strlit("original");
    let p = "pixelify\n"@;
    let o = "original\n"@;
    crate::text::lemma_trim_ws_around(Seq::empty(), p.take(8), seq!['\n']);
    crate::text::lemma_trim_ws_around(Seq::empty(), o.take(8), seq!['\n']);
    assert(Seq::<char>::empty() + p.take(8) + seq!['\n'] =~= p);
    assert(Seq::<char>::empty() + o.take(8) + seq!['\n'] =~= o);
    crate::text::lemma_trim_plain(p.take(8));
    crate::text::lemma_trim_plain(o.take(8));
    assert(p.take(8)[0] != "original"@[0]);
    assert(o.take(8) =~= "original"@);
}

} // verus!
