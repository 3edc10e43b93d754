//! Platform defaults and per-game overrides for the three display toggles: LCD effect, colour
//! correction, and the GB overlay.
//!
//! Written from the quick menu: a console tab on the shelf owns the platform line; the in-game
//! menu owns the game line. Resolve is game, then platform, then the older globals
//! (`lcd.txt` / `slot.state`) so a card that has never been edited this way keeps working.
//! Every function here works on the text of `System/display.ini`.
use crate::store::ini::{ini_map, ini_removed, ini_written, law_read_after_remove, law_read_after_write, plain_key};
use crate::store::lcd::{lcd_of, read_lcd};
use crate::store::platform::{dir_of, Platform};
use crate::store::slot_state::{read_slot_state, slot_state_or_default, write_slot_state, SlotState, slot_state_text, SlotStateModel};
use crate::text::{append_str, chars_of, is_ws, lower_range, lower_seq, str_eq, trim, trim_str};
use vstd::prelude::*;

verus! {

pub const DISPLAY_FILE: &'static str = "System/display.ini";

#[derive(Clone, Copy, PartialEq, Eq, Debug, Structural)]
pub struct DisplayPrefs {
    pub lcd: bool,
    pub colour: bool,
    pub overlay: bool,
}

impl DisplayPrefs {
    /// What a card with no display.ini and no legacy files would run: LCD on, colour off,
    /// overlay on — the same defaults `SlotState` and `read_lcd` already used.
    pub fn built_in() -> (r: Self)
        ensures
            r == (DisplayPrefs { lcd: true, colour: false, overlay: true }),
    {
        DisplayPrefs { lcd: true, colour: false, overlay: true }
    }
}

#[derive(Clone, Copy, PartialEq, Eq, Debug, Structural)]
pub enum DisplayField {
    Lcd,
    Colour,
    Overlay,
}

/// The name a field goes by in a key.
pub open spec fn field_name(f: DisplayField) -> Seq<char> {
    match f {
        DisplayField::Lcd => seq!['l', 'c', 'd'],
        DisplayField::Colour => seq!['c', 'o', 'l', 'o', 'u', 'r'],
        DisplayField::Overlay => seq!['o', 'v', 'e', 'r', 'l', 'a', 'y'],
    }
}

impl DisplayField {
    pub fn as_str(self) -> (r: &'static str)
        ensures
            r@ == field_name(self),
    {
        proof {
            reveal_strlit("lcd");
            reveal_strlit("colour");
            reveal_strlit("overlay");
        }
        match self {
            DisplayField::Lcd => "lcd",
            DisplayField::Colour => "colour",
            DisplayField::Overlay => "overlay",
        }
    }
}

/// Whose line a write goes to: a console's default, or one cart's override.
#[derive(Clone, Copy, PartialEq, Eq, Debug)]
pub enum DisplayTarget<'a> {
    Platform(Platform),
    Game { platform: Platform, stem: &'a str },
}

/// A platform's directory, lowercased: what every key for it starts with.
pub open spec fn prefix_of(p: Platform) -> Seq<char> {
    lower_seq(dir_of(p))
}

/// `<platform>.<field>`.
pub open spec fn platform_key_of(p: Platform, f: DisplayField) -> Seq<char> {
    prefix_of(p) + seq!['.'] + field_name(f)
}

/// `<platform>/<stem>.<field>`.
pub open spec fn game_key_of(p: Platform, stem: Seq<char>, f: DisplayField) -> Seq<char> {
    prefix_of(p) + seq!['/'] + stem + seq!['.'] + field_name(f)
}

pub open spec fn target_key(t: DisplayTarget, f: DisplayField) -> Seq<char> {
    match t {
        DisplayTarget::Platform(p) => platform_key_of(p, f),
        DisplayTarget::Game { platform, stem } => game_key_of(platform, stem@, f),
    }
}

/// A value as a flag, in any letter case and with space around it: `on`, `1` and `true`
/// are on; `off`, `0` and `false` are off; anything else says nothing.
pub open spec fn flag_value(v: Seq<char>) -> Option<bool> {
    let t = lower_seq(trim(v));
    if t == "on"@ || t == "1"@ || t == "true"@ {
        Some(true)
    } else if t == "off"@ || t == "0"@ || t == "false"@ {
        Some(false)
    } else {
        None
    }
}

/// What the file says of `key`, if it says anything readable.
pub open spec fn field_in(text: Seq<char>, key: Seq<char>) -> Option<bool> {
    if ini_map(text).contains_key(key) {
        flag_value(ini_map(text)[key])
    } else {
        None
    }
}

/// One field's effective value: the cart's line, else the console's line, else the legacy
/// global.
pub open spec fn resolved(
    text: Seq<char>,
    p: Platform,
    stem: Option<Seq<char>>,
    f: DisplayField,
    legacy: bool,
) -> bool {
    let game = match stem {
        Some(s) => field_in(text, game_key_of(p, s, f)),
        None => None,
    };
    match game {
        Some(v) => v,
        None => match field_in(text, platform_key_of(p, f)) {
            Some(v) => v,
            None => legacy,
        },
    }
}

pub open spec fn flag_text(value: bool) -> Seq<char> {
    if value {
        "on"@
    } else {
        "off"@
    }
}

fn platform_prefix(platform: Platform) -> (r: Vec<char>)
    ensures
        r@ == prefix_of(platform),
{
    let d = chars_of(platform.dir_name());
    let r = lower_range(&d, 0, d.len());
    assert(d@.subrange(0, d@.len() as int) == d@);
    r
}

fn platform_key(platform: Platform, field: DisplayField) -> (r: String)
    ensures
        r@ == platform_key_of(platform, field),
{
    let mut k = platform_prefix(platform);
    k.push('.');
    append_str(&mut k, field.as_str());
    crate::text::string_of(&k)
}

fn game_key(platform: Platform, stem: &str, field: DisplayField) -> (r: String)
    ensures
        r@ == game_key_of(platform, stem@, field),
{
    let mut k = platform_prefix(platform);
    k.push('/');
    append_str(&mut k, stem);
    k.push('.');
    append_str(&mut k, field.as_str());
    crate::text::string_of(&k)
}

fn key_for(target: DisplayTarget<'_>, field: DisplayField) -> (r: String)
    ensures
        r@ == target_key(target, field),
{
    match target {
        DisplayTarget::Platform(platform) => platform_key(platform, field),
        DisplayTarget::Game { platform, stem } => game_key(platform, stem, field),
    }
}

fn parse_flag(value: &str) -> (r: Option<bool>)
    ensures
        r == flag_value(value@),
{
    let t = trim_str(value);
    let v = chars_of(t.as_str());
    let low = crate::text::string_of(&lower_range(&v, 0, v.len()));
    assert(v@.subrange(0, v@.len() as int) == v@);
    let s = low.as_str();
    if str_eq(s, "on") || str_eq(s, "1") || str_eq(s, "true") {
        Some(true)
    } else if str_eq(s, "off") || str_eq(s, "0") || str_eq(s, "false") {
        Some(false)
    } else {
        None
    }
}

fn flag_str(value: bool) -> (r: &'static str)
    ensures
        r@ == flag_text(value),
{
    if value {
        "on"
    } else {
        "off"
    }
}

fn read_field(text: &str, key: &str) -> (r: Option<bool>)
    ensures
        r == field_in(text@, key@),
{
    match crate::store::ini::value(text, key) {
        Some(v) => parse_flag(v.as_str()),
        None => None,
    }
}

/// Legacy globals: `lcd.txt`'s text plus colour / overlay from `slot.state` (or the live copy
/// handed in).
pub fn legacy_prefs(lcd_text: &str, state: &SlotState) -> (r: DisplayPrefs)
    ensures
        r == (DisplayPrefs {
            lcd: lcd_of(lcd_text@),
            colour: state.colour_correction,
            overlay: state.gb_overlay,
        }),
{
    DisplayPrefs {
        lcd: read_lcd(lcd_text),
        colour: state.colour_correction,
        overlay: state.gb_overlay,
    }
}

/// Legacy prefs read fresh from the card's `lcd.txt` and `slot.state` texts. Used when the
/// live `SlotState` may already hold a game override and must not be trusted as the fallback.
pub fn legacy_from_disk(lcd_text: &str, slot_state_text: &str) -> (r: DisplayPrefs)
    ensures
        r == (DisplayPrefs {
            lcd: lcd_of(lcd_text@),
            colour: slot_state_or_default(slot_state_text@).colour_correction,
            overlay: slot_state_or_default(slot_state_text@).gb_overlay,
        }),
{
    let state = read_slot_state(slot_state_text);
    legacy_prefs(lcd_text, &state)
}

fn resolve_field(
    text: &str,
    platform: Platform,
    stem: Option<&str>,
    field: DisplayField,
    legacy: bool,
) -> (r: bool)
    ensures
        r == resolved(
            text@,
            platform,
            match stem {
                Some(s) => Some(s@),
                None => None,
            },
            field,
            legacy,
        ),
{
    if let Some(stem) = stem {
        if let Some(value) = read_field(text, game_key(platform, stem, field).as_str()) {
            return value;
        }
    }
    if let Some(value) = read_field(text, platform_key(platform, field).as_str()) {
        return value;
    }
    legacy
}

/// Effective display prefs for a platform, optionally narrowed to one cart.
pub fn resolve_display(
    text: &str,
    platform: Platform,
    stem: Option<&str>,
    legacy: DisplayPrefs,
) -> (r: DisplayPrefs)
    ensures
        ({
            let s = match stem {
                Some(s) => Some(s@),
                None => None,
            };
            r == (DisplayPrefs {
                lcd: resolved(text@, platform, s, DisplayField::Lcd, legacy.lcd),
                colour: resolved(text@, platform, s, DisplayField::Colour, legacy.colour),
                overlay: resolved(text@, platform, s, DisplayField::Overlay, legacy.overlay),
            })
        }),
{
    DisplayPrefs {
        lcd: resolve_field(text, platform, stem, DisplayField::Lcd, legacy.lcd),
        colour: resolve_field(text, platform, stem, DisplayField::Colour, legacy.colour),
        overlay: resolve_field(text, platform, stem, DisplayField::Overlay, legacy.overlay),
    }
}

/// The file's text with one field set for a platform default or a per-game override.
pub fn write_field(text: &str, target: DisplayTarget<'_>, field: DisplayField, value: bool) -> (r:
    String)
    ensures
        r@ == ini_written(text@, target_key(target, field), flag_text(value)),
{
    crate::store::ini::write(text, key_for(target, field).as_str(), flag_str(value))
}

pub fn write_platform(text: &str, platform: Platform, field: DisplayField, value: bool) -> (r:
    String)
    ensures
        r@ == ini_written(text@, platform_key_of(platform, field), flag_text(value)),
{
    write_field(text, DisplayTarget::Platform(platform), field, value)
}

pub fn write_game(
    text: &str,
    platform: Platform,
    stem: &str,
    field: DisplayField,
    value: bool,
) -> (r: String)
    ensures
        r@ == ini_written(text@, game_key_of(platform, stem@, field), flag_text(value)),
{
    write_field(text, DisplayTarget::Game { platform, stem }, field, value)
}

/// The file's text once every key of `target` is gone, lcd first, then colour, then overlay.
pub open spec fn cleared(text: Seq<char>, t: DisplayTarget) -> Seq<char> {
    ini_removed(
        ini_removed(
            ini_removed(text, target_key(t, DisplayField::Lcd)),
            target_key(t, DisplayField::Colour),
        ),
        target_key(t, DisplayField::Overlay),
    )
}

/// Drop every display.ini key for this target so resolve falls through to the next layer.
pub fn clear_target(text: &str, target: DisplayTarget<'_>) -> (r: String)
    ensures
        r@ == cleared(text@, target),
{
    let a = crate::store::ini::remove(text, key_for(target, DisplayField::Lcd).as_str());
    let b = crate::store::ini::remove(a.as_str(), key_for(target, DisplayField::Colour).as_str());
    crate::store::ini::remove(b.as_str(), key_for(target, DisplayField::Overlay).as_str())
}

/// Restores the pre-display.ini globals to the built-in defaults: the new text of `lcd.txt`,
/// and of `slot.state` with its colour and overlay settings put back and all else kept.
pub fn reset_legacy(slot_state_text: &str) -> (r: (&'static str, String))
    ensures
        r.0@ == "on\n"@,
        r.1@ == crate::store::slot_state::slot_state_text(
            SlotStateModel {
                colour_correction: false,
                gb_overlay: true,
                ..slot_state_or_default(slot_state_text@)
            },
        ),
{
    let defaults = DisplayPrefs::built_in();
    let lcd = crate::store::lcd::write_lcd(defaults.lcd);
    let mut state = read_slot_state(slot_state_text);
    state.colour_correction = defaults.colour;
    state.gb_overlay = defaults.overlay;
    (lcd, write_slot_state(&state))
}

// ---------------------------------------------------------------------------------------------
// Laws
// ---------------------------------------------------------------------------------------------

/// A stem that can stand in a key: one line, without `=`.
pub open spec fn key_stem(stem: Seq<char>) -> bool {
    forall|i: int| 0 <= i < stem.len() ==> #[trigger] stem[i] != '=' && stem[i] != '\n'
}

proof fn lemma_prefix(p: Platform)
    ensures
        prefix_of(p).len() >= 2,
        prefix_of(p)[0] == 'g',
        forall|i: int| 0 <= i < prefix_of(p).len() ==> #[trigger] prefix_of(p)[i] != '='
            && prefix_of(p)[i] != '\n' && prefix_of(p)[i] != '/' && prefix_of(p)[i] != '.',
{
    assert(lower_seq(seq!['G', 'B', 'A']) =~= seq!['g', 'b', 'a']);
    assert(lower_seq(seq!['G', 'B']) =~= seq!['g', 'b']);
    assert(lower_seq(seq!['G', 'B', 'C']) =~= seq!['g', 'b', 'c']);
}

proof fn lemma_field_name(f: DisplayField)
    ensures
        field_name(f).len() >= 3,
        forall|i: int| 0 <= i < field_name(f).len() ==> #[trigger] field_name(f)[i] != '='
            && field_name(f)[i] != '\n' && field_name(f)[i] != '/' && field_name(f)[i] != '.',
        !is_ws(field_name(f).last()),
{
}

/// Every key a target's field is written under is one `ini::write` and `ini::remove` can
/// address.
pub proof fn lemma_keys_plain(t: DisplayTarget, f: DisplayField)
    requires
        t matches DisplayTarget::Game { stem, .. } ==> key_stem(stem@),
    ensures
        plain_key(target_key(t, f)),
{
    lemma_field_name(f);
    let k = target_key(t, f);
    let n = field_name(f);
    match t {
        DisplayTarget::Platform(p) => {
            lemma_prefix(p);
            let pre = prefix_of(p);
            assert(k[0] == 'g');
            assert(k.last() == n.last());
            assert forall|i: int| 0 <= i < k.len() implies #[trigger] k[i] != '=' && k[i] != '\n' by {
                if i < pre.len() {
                    assert(k[i] == pre[i]);
                } else if i > pre.len() {
                    assert(k[i] == n[i - pre.len() - 1]);
                }
            }
            crate::text::lemma_trim_plain(k);
        },
        DisplayTarget::Game { platform, stem } => {
            lemma_game_key_plain(platform, stem@, f);
        },
    }
}

/// How a value reads as a flag: whatever its letter case and the space around it, `false`,
/// `0` and `off` turn a setting off, `true`, `1` and `on` turn it on, and a value that reads
/// as neither leaves the setting to the line below it.
pub proof fn law_flag_spellings(v: Seq<char>)
    ensures
        lower_seq(trim(v)) == "false"@ ==> flag_value(v) == Some(false),
        lower_seq(trim(v)) == "0"@ ==> flag_value(v) == Some(false),
        lower_seq(trim(v)) == "off"@ ==> flag_value(v) == Some(false),
        lower_seq(trim(v)) == "true"@ ==> flag_value(v) == Some(true),
        lower_seq(trim(v)) == "1"@ ==> flag_value(v) == Some(true),
        lower_seq(trim(v)) == "on"@ ==> flag_value(v) == Some(true),
        flag_value(v) == Some(true) ==> lower_seq(trim(v)) == "true"@ || lower_seq(trim(v)) == "1"@
            || lower_seq(trim(v)) == "on"@,
        flag_value(v) == Some(false) ==> lower_seq(trim(v)) == "false"@ || lower_seq(trim(v)) == "0"@
            || lower_seq(trim(v)) == "off"@,
        flag_value("false"@) == Some(false),
        flag_value("0"@) == Some(false),
        flag_value("off"@) == Some(false),
        flag_value("true"@) == Some(true),
        flag_value("1"@) == Some(true),
        flag_value("on"@) == Some(true),
{
    reveal_strlit("on");
    reveal_strlit("off");
    reveal_strlit("1");
    reveal_strlit("true");
    reveal_strlit("0");
    reveal_strlit("false");
    let words = seq!["false"@, "0"@, "off"@, "true"@, "1"@, "on"@];
    assert forall|i: int| 0 <= i < words.len() implies trim(#[trigger] words[i]) == words[i]
        && lower_seq(words[i]) == words[i] by {
        crate::text::lemma_trim_plain(words[i]);
        assert(lower_seq(words[i]) =~= words[i]);
    }
    assert(words[0] == "false"@);
    assert(words[1] == "0"@);
    assert(words[2] == "off"@);
    assert(words[3] == "true"@);
    assert(words[4] == "1"@);
    assert(words[5] == "on"@);
}

/// The keys of `display.ini`: the console's directory in lower case, then `.lcd`,
/// `.colour` or `.overlay` for its default, and `/<stem>` before that for one cart.
pub proof fn law_keys_are_spelled(stem: Seq<char>)
    ensures
        platform_key_of(Platform::Gba, DisplayField::Lcd) == "gba.lcd"@,
        platform_key_of(Platform::Gba, DisplayField::Colour) == "gba.colour"@,
        platform_key_of(Platform::Gba, DisplayField::Overlay) == "gba.overlay"@,
        platform_key_of(Platform::Gb, DisplayField::Lcd) == "gb.lcd"@,
        platform_key_of(Platform::Gb, DisplayField::Colour) == "gb.colour"@,
        platform_key_of(Platform::Gb, DisplayField::Overlay) == "gb.overlay"@,
        platform_key_of(Platform::Gbc, DisplayField::Lcd) == "gbc.lcd"@,
        platform_key_of(Platform::Gbc, DisplayField::Colour) == "gbc.colour"@,
        platform_key_of(Platform::Gbc, DisplayField::Overlay) == "gbc.overlay"@,
        game_key_of(Platform::Gba, stem, DisplayField::Lcd) == "gba/"@ + stem + ".lcd"@,
        game_key_of(Platform::Gb, stem, DisplayField::Colour) == "gb/"@ + stem + ".colour"@,
        game_key_of(Platform::Gbc, stem, DisplayField::Overlay) == "gbc/"@ + stem + ".overlay"@,
{
    reveal_strlit("gba.lcd");
    reveal_strlit("gba.colour");
    reveal_strlit("gba.overlay");
    reveal_strlit("gb.lcd");
    reveal_strlit("gb.colour");
    reveal_strlit("gb.overlay");
    reveal_strlit("gbc.lcd");
    reveal_strlit("gbc.colour");
    reveal_strlit("gbc.overlay");
    reveal_strlit("gba/");
    reveal_strlit("gb/");
    reveal_strlit("gbc/");
    reveal_strlit(".lcd");
    reveal_strlit(".colour");
    reveal_strlit(".overlay");
    assert(prefix_of(Platform::Gba) =~= seq!['g', 'b', 'a']);
    assert(prefix_of(Platform::Gb) =~= seq!['g', 'b']);
    assert(prefix_of(Platform::Gbc) =~= seq!['g', 'b', 'c']);
    assert(platform_key_of(Platform::Gba, DisplayField::Lcd) =~= "gba.lcd"@);
    assert(platform_key_of(Platform::Gba, DisplayField::Colour) =~= "gba.colour"@);
    assert(platform_key_of(Platform::Gba, DisplayField::Overlay) =~= "gba.overlay"@);
    assert(platform_key_of(Platform::Gb, DisplayField::Lcd) =~= "gb.lcd"@);
    assert(platform_key_of(Platform::Gb, DisplayField::Colour) =~= "gb.colour"@);
    assert(platform_key_of(Platform::Gb, DisplayField::Overlay) =~= "gb.overlay"@);
    assert(platform_key_of(Platform::Gbc, DisplayField::Lcd) =~= "gbc.lcd"@);
    assert(platform_key_of(Platform::Gbc, DisplayField::Colour) =~= "gbc.colour"@);
    assert(platform_key_of(Platform::Gbc, DisplayField::Overlay) =~= "gbc.overlay"@);
    assert(game_key_of(Platform::Gba, stem, DisplayField::Lcd) =~= "gba/"@ + stem + ".lcd"@);
    assert(game_key_of(Platform::Gb, stem, DisplayField::Colour) =~= "gb/"@ + stem + ".colour"@);
    assert(game_key_of(Platform::Gbc, stem, DisplayField::Overlay) =~= "gbc/"@ + stem + ".overlay"@);
}

proof fn lemma_flag_text(value: bool)
    ensures
        flag_value(trim(flag_text(value))) == Some(value),
        crate::store::ini::no_newline(flag_text(value)),
{
    reveal_strlit("on");
    reveal_strlit("off");
    reveal_strlit("1");
    reveal_strlit("true");
    reveal_strlit("0");
    reveal_strlit("false");
    let t = flag_text(value);
    crate::text::lemma_trim_plain(t);
    crate::text::lemma_trim_plain(trim(t));
    assert(lower_seq(t) =~= t);
    assert forall|i: int| 0 <= i < t.len() implies #[trigger] t[i] != '\n' by {}
}

/// Keys of different fields never meet: each field's name ends in its own letter.
proof fn lemma_fields_apart(a: Seq<char>, f: DisplayField, b: Seq<char>, g: DisplayField)
    requires
        f != g,
    ensures
        a + seq!['.'] + field_name(f) != b + seq!['.'] + field_name(g),
{
    let x = a + seq!['.'] + field_name(f);
    let y = b + seq!['.'] + field_name(g);
    assert(x.last() == field_name(f).last());
    assert(y.last() == field_name(g).last());
}

/// A platform's key and any cart's key never meet: only a cart's has a `/`.
proof fn lemma_platform_not_game(p: Platform, q: Platform, stem: Seq<char>, f: DisplayField, g: DisplayField)
    ensures
        platform_key_of(p, f) != game_key_of(q, stem, g),
{
    lemma_prefix(p);
    lemma_prefix(q);
    lemma_field_name(f);
    let pk = platform_key_of(p, f);
    let gk = game_key_of(q, stem, g);
    let i = prefix_of(q).len() as int;
    assert(gk[i] == '/');
    if pk == gk {
        let pre = prefix_of(p);
        if i < pre.len() {
            assert(pk[i] == pre[i]);
        } else if i == pre.len() {
            assert(pk[i] == '.');
        } else {
            assert(pk[i] == field_name(f)[i - pre.len() - 1]);
        }
    }
}

/// A cart's override, once written, is what that field resolves to for that cart, whatever
/// the console's line and the legacy global say.
pub proof fn law_game_write_wins(
    text: Seq<char>,
    p: Platform,
    stem: Seq<char>,
    f: DisplayField,
    value: bool,
    legacy: bool,
)
    requires
        key_stem(stem),
    ensures
        resolved(
            ini_written(text, game_key_of(p, stem, f), flag_text(value)),
            p,
            Some(stem),
            f,
            legacy,
        ) == value,
{
    let k = game_key_of(p, stem, f);
    lemma_game_key_plain(p, stem, f);
    lemma_flag_text(value);
    law_read_after_write(text, k, flag_text(value));
}

proof fn lemma_game_key_plain(p: Platform, stem: Seq<char>, f: DisplayField)
    requires
        key_stem(stem),
    ensures
        plain_key(game_key_of(p, stem, f)),
{
    lemma_field_name(f);
    lemma_prefix(p);
    let k = game_key_of(p, stem, f);
    let n = field_name(f);
    let pre = prefix_of(p);
    assert(k[0] == 'g');
    assert(k.last() == n.last());
    assert forall|i: int| 0 <= i < k.len() implies #[trigger] k[i] != '=' && k[i] != '\n' by {
        if i < pre.len() {
            assert(k[i] == pre[i]);
        } else if pre.len() < i < pre.len() + 1 + stem.len() {
            assert(k[i] == stem[i - pre.len() - 1]);
        } else if i > pre.len() + 1 + stem.len() {
            assert(k[i] == n[i - pre.len() - 2 - stem.len()]);
        }
    }
    crate::text::lemma_trim_plain(k);
}

/// A console's default, once written, is what that field resolves to for any cart of that
/// console without an override of its own.
pub proof fn law_platform_write_wins(
    text: Seq<char>,
    p: Platform,
    stem: Option<Seq<char>>,
    f: DisplayField,
    value: bool,
    legacy: bool,
)
    requires
        stem matches Some(s) ==> field_in(text, game_key_of(p, s, f)) is None,
    ensures
        resolved(
            ini_written(text, platform_key_of(p, f), flag_text(value)),
            p,
            stem,
            f,
            legacy,
        ) == value,
{
    let t = DisplayTarget::Platform(p);
    lemma_keys_plain(t, f);
    let k = platform_key_of(p, f);
    lemma_flag_text(value);
    law_read_after_write(text, k, flag_text(value));
    if let Some(s) = stem {
        lemma_platform_not_game(p, p, s, f, f);
        let w = ini_written(text, k, flag_text(value));
        assert(ini_map(w).contains_key(game_key_of(p, s, f)) == ini_map(text).contains_key(
            game_key_of(p, s, f),
        ));
    }
}

/// Writing one field of any target leaves how every other field resolves as it was.
pub proof fn law_fields_resolve_independently(
    text: Seq<char>,
    t: DisplayTarget,
    f: DisplayField,
    value: bool,
    p: Platform,
    stem: Option<Seq<char>>,
    g: DisplayField,
    legacy: bool,
)
    requires
        f != g,
        t matches DisplayTarget::Game { stem, .. } ==> key_stem(stem@),
    ensures
        resolved(ini_written(text, target_key(t, f), flag_text(value)), p, stem, g, legacy)
            == resolved(text, p, stem, g, legacy),
{
    lemma_keys_plain(t, f);
    let k = target_key(t, f);
    lemma_flag_text(value);
    law_read_after_write(text, k, flag_text(value));
    let pk = platform_key_of(p, g);
    match t {
        DisplayTarget::Platform(q) => {
            lemma_fields_apart(prefix_of(q), f, prefix_of(p), g);
        },
        DisplayTarget::Game { platform, stem: s } => {
            lemma_fields_apart(prefix_of(platform) + seq!['/'] + s@, f, prefix_of(p), g);
            assert(k == prefix_of(platform) + seq!['/'] + s@ + seq!['.'] + field_name(f));
        },
    }
    assert(k != pk);
    if let Some(s) = stem {
        let gk = game_key_of(p, s, g);
        match t {
            DisplayTarget::Platform(q) => {
                lemma_fields_apart(prefix_of(q), f, prefix_of(p) + seq!['/'] + s, g);
                assert(gk == prefix_of(p) + seq!['/'] + s + seq!['.'] + field_name(g));
            },
            DisplayTarget::Game { platform, stem: s2 } => {
                lemma_fields_apart(prefix_of(platform) + seq!['/'] + s2@, f, prefix_of(p) + seq!['/'] + s, g);
                assert(k == prefix_of(platform) + seq!['/'] + s2@ + seq!['.'] + field_name(f));
                assert(gk == prefix_of(p) + seq!['/'] + s + seq!['.'] + field_name(g));
            },
        }
        assert(k != gk);
    }
}

/// Once a target is cleared, the file says nothing for any of its fields: a cart falls
/// through to its console's line, a console to the legacy globals.
pub proof fn law_clear_falls_through(text: Seq<char>, t: DisplayTarget, f: DisplayField)
    requires
        t matches DisplayTarget::Game { stem, .. } ==> key_stem(stem@),
    ensures
        field_in(cleared(text, t), target_key(t, f)) is None,
        forall|k: Seq<char>|
            k != target_key(t, DisplayField::Lcd) && k != target_key(t, DisplayField::Colour) && k
                != target_key(t, DisplayField::Overlay) ==> #[trigger] field_in(cleared(text, t), k)
                == field_in(text, k),
{
    lemma_keys_plain(t, DisplayField::Lcd);
    lemma_keys_plain(t, DisplayField::Colour);
    lemma_keys_plain(t, DisplayField::Overlay);
    let k1 = target_key(t, DisplayField::Lcd);
    let k2 = target_key(t, DisplayField::Colour);
    let k3 = target_key(t, DisplayField::Overlay);
    let a = ini_removed(text, k1);
    let b = ini_removed(a, k2);
    law_read_after_remove(text, k1);
    law_read_after_remove(a, k2);
    law_read_after_remove(b, k3);
}

} // verus!
