//! `System/lcd.txt`: whether the game picture is drawn through the LCD cell mask.
use crate::text::{str_eq, trim, trim_str};
use vstd::prelude::*;

verus! {

pub const LCD_FILE: &'static str = "lcd.txt";

/// On unless the file, trimmed, says `off`. A missing file reads as empty text.
pub open spec fn lcd_of(text: Seq<char>) -> bool {
    trim(text) != "off"@
}

/// On by default, preserving the panel treatment used before the setting existed.
pub fn read_lcd(text: &str) -> (r: bool)
    ensures
        r == lcd_of(text@),
{
    let t = trim_str(text);
    if str_eq(t.as_str(), "on") {
        proof {
            reveal_strlit("on");
            reveal_strlit("off");
            assert(t@.len() != "off"@.len());
        }
        true
    } else if str_eq(t.as_str(), "off") {
        false
    } else {
        true
    }
}

/// The text of the file that records the setting.
pub fn write_lcd(enabled: bool) -> (r: &'static str)
    ensures
        r@ == (if enabled {
            "on\n"@
        } else {
            "off\n"@
        }),
{
    if enabled {
        "on\n"
    } else {
        "off\n"
    }
}

/// The setting written is the setting read back.
pub proof fn law_lcd_round_trip(enabled: bool)
    ensures
        lcd_of(
            if enabled {
                "on\n"@
            } else {
                "off\n"@
            },
        ) == enabled,
{
    reveal_strlit("on\n");
    reveal_strlit("off\n");
    reveal_strlit("off");
    let p = "on\n"@;
    let o = "off\n"@;
    crate::text::lemma_trim_ws_around(Seq::empty(), p.take(2), seq!['\n']);
    crate::text::lemma_trim_ws_around(Seq::empty(), o.take(3), seq!['\n']);
    assert(Seq::<char>::empty() + p.take(2) + seq!['\n'] =~= p);
    assert(Seq::<char>::empty() + o.take(3) + seq!['\n'] =~= o);
    crate::text::lemma_trim_plain(p.take(2));
    crate::text::lemma_trim_plain(o.take(3));
    assert(p.take(2).len() != "off"@.len());
    assert(o.take(3) =~= "off"@);
}

} // verus!
