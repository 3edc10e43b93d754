//! `System/slot.state`: what is in the slot, and the levels and settings the device keeps
//! across boots, as `key=value` lines.
use crate::store::platform::{dir_of, Platform};
use crate::text::{
    append_range, append_str, chars_eq, chars_of, eq_ignore_case, find_char, line_ranges, lines,
    lower_range, lower_seq, parse_bounded, parse_int, parse_int_range, parse_uint_range,
    push_dec, push_dec_int, ranges_are, split_once, str_eq, string_of_range,
};
use vstd::prelude::*;

verus! {

pub const BRIGHTNESS_MAX: u8 = 16;

pub const BLUE_LIGHT_MAX: u8 = 9;

pub const VOLUME_MAX: u8 = 100;

/// What a real zone can be, in minutes.
pub const UTC_OFFSET_MIN: i16 = -720;

pub const UTC_OFFSET_MAX: i16 = 840;

/// The fast-forward speeds the quick menu offers, in game frames per screen refresh.
pub const FF_SPEEDS: [u8; 4] = [2, 3, 4, 6];

pub const FF_SPEED_DEFAULT: u8 = 4;

pub const FF_SPEED_MIN: u8 = 2;

pub const FF_SPEED_MAX: u8 = 6;

/// Version 1 stored a ten-position brightness index; these are the physical levels the
/// positions meant.
pub open spec fn legacy_brightness(i: nat) -> Option<u8> {
    if i == 0 {
        Some(0u8)
    } else if i == 1 {
        Some(1u8)
    } else if i == 2 {
        Some(3u8)
    } else if i == 3 {
        Some(5u8)
    } else if i == 4 {
        Some(7u8)
    } else if i == 5 {
        Some(9u8)
    } else if i == 6 {
        Some(11u8)
    } else if i == 7 {
        Some(13u8)
    } else if i == 8 {
        Some(15u8)
    } else if i == 9 {
        Some(16u8)
    } else {
        None
    }
}

pub open spec fn is_ff_speed(n: nat) -> bool {
    n == 2 || n == 3 || n == 4 || n == 6
}

#[derive(Clone, PartialEq, Eq, Debug)]
pub struct SlotState {
    /// Filename stem. `None` is an empty slot, which is the shelf.
    pub cart: Option<String>,
    /// Platform of the cart in the slot; `None` on cards whose state only stored the stem.
    pub cart_platform: Option<Platform>,
    pub brightness: u8,
    pub blue_light: u8,
    pub volume: u8,
    /// Silence on top of the level rather than instead of it.
    pub muted: bool,
    /// Whether anyone has ever confirmed the wall clock.
    pub clock_set: bool,
    /// Minutes to add to the card's UTC to get local time.
    pub utc_offset_min: i16,
    /// Whether the motor may move.
    pub rumble: bool,
    /// Game frames per screen refresh while fast-forwarding.
    pub ff_speed: u8,
    /// Whether fast-forward is heard.
    pub ff_sound: bool,
    /// Whether the selected core should apply its console LCD colour correction.
    pub colour_correction: bool,
    /// Whether a Game Boy's picture is framed by its console overlay.
    pub gb_overlay: bool,
}

/// A `SlotState` with its stem as characters.
pub struct SlotStateModel {
    pub cart: Option<Seq<char>>,
    pub cart_platform: Option<Platform>,
    pub brightness: u8,
    pub blue_light: u8,
    pub volume: u8,
    pub muted: bool,
    pub clock_set: bool,
    pub utc_offset_min: i16,
    pub rumble: bool,
    pub ff_speed: u8,
    pub ff_sound: bool,
    pub colour_correction: bool,
    pub gb_overlay: bool,
}

impl View for SlotState {
    type V = SlotStateModel;

    open spec fn view(&self) -> SlotStateModel {
        SlotStateModel {
            cart: match self.cart {
                Some(c) => Some(c@),
                None => None,
            },
            cart_platform: self.cart_platform,
            brightness: self.brightness,
            blue_light: self.blue_light,
            volume: self.volume,
            muted: self.muted,
            clock_set: self.clock_set,
            utc_offset_min: self.utc_offset_min,
            rumble: self.rumble,
            ff_speed: self.ff_speed,
            ff_sound: self.ff_sound,
            colour_correction: self.colour_correction,
            gb_overlay: self.gb_overlay,
        }
    }
}

/// A first boot: the backlight lit and the mixer audible.
pub open spec fn default_state() -> SlotStateModel {
    SlotStateModel {
        cart: None,
        cart_platform: None,
        brightness: 5,
        blue_light: 0,
        volume: 60,
        muted: false,
        clock_set: false,
        utc_offset_min: 0,
        rumble: true,
        ff_speed: FF_SPEED_DEFAULT,
        ff_sound: false,
        colour_correction: false,
        gb_overlay: true,
    }
}

impl Default for SlotState {
    fn default() -> (s: Self)
        ensures
            s@ == default_state(),
    {
        SlotState {
            cart: None,
            cart_platform: None,
            brightness: 5,
            blue_light: 0,
            volume: 60,
            muted: false,
            clock_set: false,
            utc_offset_min: 0,
            rumble: true,
            ff_speed: FF_SPEED_DEFAULT,
            ff_sound: false,
            colour_correction: false,
            gb_overlay: true,
        }
    }
}

// ---------------------------------------------------------------------------------------------
// Reading
// ---------------------------------------------------------------------------------------------

/// What the lines read so far have said, each field `None` until a line gives it.
pub struct Fields {
    pub version: Option<u8>,
    pub cart: Option<Seq<char>>,
    pub cart_platform: Option<Platform>,
    pub brightness: Option<u8>,
    pub blue_light: Option<u8>,
    pub volume: Option<u8>,
    pub muted: Option<bool>,
    pub clock_set: Option<bool>,
    pub utc_offset_min: Option<i16>,
    pub rumble: Option<bool>,
    pub ff_speed: Option<u8>,
    pub ff_sound: Option<bool>,
    pub colour_correction: Option<bool>,
    pub gb_overlay: Option<bool>,
}

pub open spec fn no_fields() -> Fields {
    Fields {
        version: None,
        cart: None,
        cart_platform: None,
        brightness: None,
        blue_light: None,
        volume: None,
        muted: None,
        clock_set: None,
        utc_offset_min: None,
        rumble: None,
        ff_speed: None,
        ff_sound: None,
        colour_correction: None,
        gb_overlay: None,
    }
}

/// A level from `0` to `max`.
pub open spec fn level_of(v: Seq<char>, max: nat) -> Option<u8> {
    match parse_bounded(v, max) {
        Some(n) => Some(n as u8),
        None => None,
    }
}

/// `0` or `1`.
pub open spec fn flag_of(v: Seq<char>) -> Option<bool> {
    match parse_bounded(v, 1) {
        Some(n) => Some(n == 1),
        None => None,
    }
}

/// The platform a `cart_platform` value names, in any case.
pub open spec fn platform_of_value(v: Seq<char>) -> Option<Platform> {
    if eq_ignore_case(v, dir_of(Platform::Gba)) {
        Some(Platform::Gba)
    } else if eq_ignore_case(v, dir_of(Platform::Gb)) {
        Some(Platform::Gb)
    } else if eq_ignore_case(v, dir_of(Platform::Gbc)) {
        Some(Platform::Gbc)
    } else {
        None
    }
}

/// A zone's offset: a number of minutes within the range real zones have.
pub open spec fn offset_of(v: Seq<char>) -> Option<i16> {
    match parse_int(v) {
        Some(n) => if UTC_OFFSET_MIN <= n <= UTC_OFFSET_MAX {
            Some(n as i16)
        } else {
            None
        },
        None => None,
    }
}

pub open spec fn ff_speed_of(v: Seq<char>) -> Option<u8> {
    match parse_bounded(v, 255) {
        Some(n) => if is_ff_speed(n) {
            Some(n as u8)
        } else {
            None
        },
        None => None,
    }
}

/// What one `key=value` line does to what has been read: a line every build has written
/// that does not hold a valid value spoils the whole file (`None`); a later setting that
/// does not falls back to its default; a key this build does not know changes nothing.
#[verifier::opaque]
pub open spec fn apply_line(f: Fields, k: Seq<char>, v: Seq<char>) -> Option<Fields> {
    if k == "version"@ {
        match parse_bounded(v, 255) {
            Some(n) => if n == 2 {
                Some(Fields { version: Some(2u8), ..f })
            } else {
                None
            },
            None => None,
        }
    } else if k == "cart"@ {
        Some(Fields { cart: Some(v), ..f })
    } else if k == "cart_platform"@ {
        Some(Fields { cart_platform: platform_of_value(v), ..f })
    } else if k == "brightness"@ {
        match level_of(v, 255) {
            Some(n) => Some(Fields { brightness: Some(n), ..f }),
            None => None,
        }
    } else if k == "blue_light"@ {
        match level_of(v, BLUE_LIGHT_MAX as nat) {
            Some(n) => Some(Fields { blue_light: Some(n), ..f }),
            None => None,
        }
    } else if k == "volume"@ {
        match level_of(v, VOLUME_MAX as nat) {
            Some(n) => Some(Fields { volume: Some(n), ..f }),
            None => None,
        }
    } else if k == "muted"@ {
        match flag_of(v) {
            Some(b) => Some(Fields { muted: Some(b), ..f }),
            None => None,
        }
    } else if k == "clock_set"@ {
        match flag_of(v) {
            Some(b) => Some(Fields { clock_set: Some(b), ..f }),
            None => None,
        }
    } else if k == "utc_offset_min"@ {
        match offset_of(v) {
            Some(n) => Some(Fields { utc_offset_min: Some(n), ..f }),
            None => None,
        }
    } else if k == "rumble"@ {
        Some(Fields { rumble: flag_of(v), ..f })
    } else if k == "ff_speed"@ {
        Some(Fields { ff_speed: ff_speed_of(v), ..f })
    } else if k == "ff_sound"@ {
        Some(Fields { ff_sound: flag_of(v), ..f })
    } else if k == "colour_correction"@ {
        Some(Fields { colour_correction: flag_of(v), ..f })
    } else if k == "gb_overlay"@ {
        Some(Fields { gb_overlay: flag_of(v), ..f })
    } else {
        Some(f)
    }
}

/// Everything the non-empty lines say, or `None` once one has spoiled the file.
pub open spec fn fields_of(ls: Seq<Seq<char>>) -> Option<Fields>
    decreases ls.len(),
{
    if ls.len() == 0 {
        Some(no_fields())
    } else {
        match fields_of(ls.drop_last()) {
            None => None,
            Some(f) => {
                let l = ls.last();
                if l.len() == 0 {
                    Some(f)
                } else {
                    match split_once(l, '=') {
                        None => Some(f),
                        Some((k, v)) => apply_line(f, k, v),
                    }
                }
            },
        }
    }
}

/// The state a file's text holds, or `None` when it is not one this build wrote: a line
/// every build writes missing or out of range, or a version this build does not know.
pub open spec fn slot_state_of(text: Seq<char>) -> Option<SlotStateModel> {
    match fields_of(lines(text)) {
        None => None,
        Some(f) => {
            let brightness = match f.brightness {
                None => None,
                Some(b) => if f.version is Some {
                    if b <= BRIGHTNESS_MAX {
                        Some(b)
                    } else {
                        None
                    }
                } else {
                    legacy_brightness(b as nat)
                },
            };
            if brightness is None || f.cart is None || f.blue_light is None || f.volume is None
                || f.muted is None || f.clock_set is None || f.utc_offset_min is None {
                None
            } else {
                let cart = f.cart->0;
                Some(
                    SlotStateModel {
                        cart: if cart.len() == 0 {
                            None
                        } else {
                            Some(cart)
                        },
                        cart_platform: f.cart_platform,
                        brightness: brightness->0,
                        blue_light: f.blue_light->0,
                        volume: f.volume->0,
                        muted: f.muted->0,
                        clock_set: f.clock_set->0,
                        utc_offset_min: f.utc_offset_min->0,
                        rumble: match f.rumble {
                            Some(b) => b,
                            None => true,
                        },
                        ff_speed: match f.ff_speed {
                            Some(n) => n,
                            None => FF_SPEED_DEFAULT,
                        },
                        ff_sound: match f.ff_sound {
                            Some(b) => b,
                            None => false,
                        },
                        colour_correction: match f.colour_correction {
                            Some(b) => b,
                            None => false,
                        },
                        gb_overlay: match f.gb_overlay {
                            Some(b) => b,
                            None => true,
                        },
                    },
                )
            }
        },
    }
}

/// What `read_slot_state` hands back for a file's text: its state, or the first-boot one.
pub open spec fn slot_state_or_default(text: Seq<char>) -> SlotStateModel {
    match slot_state_of(text) {
        Some(s) => s,
        None => default_state(),
    }
}

/// Exec mirror of `Fields`.
struct FieldsExec {
    version: Option<u8>,
    cart: Option<String>,
    cart_platform: Option<Platform>,
    brightness: Option<u8>,
    blue_light: Option<u8>,
    volume: Option<u8>,
    muted: Option<bool>,
    clock_set: Option<bool>,
    utc_offset_min: Option<i16>,
    rumble: Option<bool>,
    ff_speed: Option<u8>,
    ff_sound: Option<bool>,
    colour_correction: Option<bool>,
    gb_overlay: Option<bool>,
}

impl FieldsExec {
    spec fn model(&self) -> Fields {
        Fields {
            version: self.version,
            cart: match self.cart {
                Some(c) => Some(c@),
                None => None,
            },
            cart_platform: self.cart_platform,
            brightness: self.brightness,
            blue_light: self.blue_light,
            volume: self.volume,
            muted: self.muted,
            clock_set: self.clock_set,
            utc_offset_min: self.utc_offset_min,
            rumble: self.rumble,
            ff_speed: self.ff_speed,
            ff_sound: self.ff_sound,
            colour_correction: self.colour_correction,
            gb_overlay: self.gb_overlay,
        }
    }
}

fn level_in(v: &Vec<char>, lo: usize, hi: usize, max: u8) -> (r: Option<u8>)
    requires
        lo <= hi <= v.len(),
    ensures
        r == level_of(v@.subrange(lo as int, hi as int), max as nat),
{
    match parse_uint_range(v, lo, hi, max as u64) {
        Some(n) => Some(n as u8),
        None => None,
    }
}

fn flag_in(v: &Vec<char>, lo: usize, hi: usize) -> (r: Option<bool>)
    requires
        lo <= hi <= v.len(),
    ensures
        r == flag_of(v@.subrange(lo as int, hi as int)),
{
    match parse_uint_range(v, lo, hi, 1) {
        Some(n) => Some(n == 1),
        None => None,
    }
}

fn platform_in(v: &Vec<char>, lo: usize, hi: usize) -> (r: Option<Platform>)
    requires
        lo <= hi <= v.len(),
    ensures
        r == platform_of_value(v@.subrange(lo as int, hi as int)),
{
    let low = lower_range(v, lo, hi);
    assert(low@.subrange(0, low@.len() as int) == low@);
    let ghost val = v@.subrange(lo as int, hi as int);
    let a = chars_of("gba");
    let b = chars_of("gb");
    let c = chars_of("gbc");
    proof {
        reveal_strlit("gba");
        reveal_strlit("gb");
        reveal_strlit("gbc");
        assert(lower_seq(dir_of(Platform::Gba)) =~= "gba"@);
        assert(lower_seq(dir_of(Platform::Gb)) =~= "gb"@);
        assert(lower_seq(dir_of(Platform::Gbc)) =~= "gbc"@);
        assert(a@.subrange(0, a@.len() as int) == a@);
        assert(b@.subrange(0, b@.len() as int) == b@);
        assert(c@.subrange(0, c@.len() as int) == c@);
    }
    if chars_eq(&low, 0, low.len(), &a, 0, a.len()) {
        Some(Platform::Gba)
    } else if chars_eq(&low, 0, low.len(), &b, 0, b.len()) {
        Some(Platform::Gb)
    } else if chars_eq(&low, 0, low.len(), &c, 0, c.len()) {
        Some(Platform::Gbc)
    } else {
        None
    }
}

fn offset_in(v: &Vec<char>, lo: usize, hi: usize) -> (r: Option<i16>)
    requires
        lo <= hi <= v.len(),
    ensures
        r == offset_of(v@.subrange(lo as int, hi as int)),
{
    match parse_int_range(v, lo, hi, -32768, 32767) {
        Some(n) => if UTC_OFFSET_MIN as i64 <= n && n <= UTC_OFFSET_MAX as i64 {
            Some(n as i16)
        } else {
            None
        },
        None => None,
    }
}

fn ff_speed_in(v: &Vec<char>, lo: usize, hi: usize) -> (r: Option<u8>)
    requires
        lo <= hi <= v.len(),
    ensures
        r == ff_speed_of(v@.subrange(lo as int, hi as int)),
{
    match parse_uint_range(v, lo, hi, 255) {
        Some(n) => if n == 2 || n == 3 || n == 4 || n == 6 {
            Some(n as u8)
        } else {
            None
        },
        None => None,
    }
}

/// The key `v[lo..hi]` is `lit`.
fn key_is(v: &Vec<char>, lo: usize, hi: usize, lit: &str) -> (r: bool)
    requires
        lo <= hi <= v.len(),
    ensures
        r == (v@.subrange(lo as int, hi as int) == lit@),
{
    let k = chars_of(lit);
    let r = chars_eq(v, lo, hi, &k, 0, k.len());
    assert(k@.subrange(0, k@.len() as int) == k@);
    r
}

/// One `key=value` line, `v[lo..e]` the key and `v[e+1..hi]` the value.
fn apply_exec(f: &mut FieldsExec, v: &Vec<char>, lo: usize, e: usize, hi: usize) -> (ok: bool)
    requires
        lo <= e < hi <= v.len(),
    ensures
        ({
            let r = apply_line(
                old(f).model(),
                v@.subrange(lo as int, e as int),
                v@.subrange(e + 1, hi as int),
            );
            if ok {
                r == Some(final(f).model())
            } else {
                r is None
            }
        }),
{
    reveal(apply_line);
    let a = e + 1;
    if key_is(v, lo, e, "version") {
        match parse_uint_range(v, a, hi, 255) {
            Some(n) => if n == 2 {
                f.version = Some(2);
                true
            } else {
                false
            },
            None => false,
        }
    } else if key_is(v, lo, e, "cart") {
        f.cart = Some(string_of_range(v, a, hi));
        true
    } else if key_is(v, lo, e, "cart_platform") {
        f.cart_platform = platform_in(v, a, hi);
        true
    } else if key_is(v, lo, e, "brightness") {
        match level_in(v, a, hi, 255) {
            Some(n) => {
                f.brightness = Some(n);
                true
            },
            None => false,
        }
    } else if key_is(v, lo, e, "blue_light") {
        match level_in(v, a, hi, BLUE_LIGHT_MAX) {
            Some(n) => {
                f.blue_light = Some(n);
                true
            },
            None => false,
        }
    } else if key_is(v, lo, e, "volume") {
        match level_in(v, a, hi, VOLUME_MAX) {
            Some(n) => {
                f.volume = Some(n);
                true
            },
            None => false,
        }
    } else if key_is(v, lo, e, "muted") {
        match flag_in(v, a, hi) {
            Some(b) => {
                f.muted = Some(b);
                true
            },
            None => false,
        }
    } else if key_is(v, lo, e, "clock_set") {
        match flag_in(v, a, hi) {
            Some(b) => {
                f.clock_set = Some(b);
                true
            },
            None => false,
        }
    } else if key_is(v, lo, e, "utc_offset_min") {
        match offset_in(v, a, hi) {
            Some(n) => {
                f.utc_offset_min = Some(n);
                true
            },
            None => false,
        }
    } else if key_is(v, lo, e, "rumble") {
        f.rumble = flag_in(v, a, hi);
        true
    } else if key_is(v, lo, e, "ff_speed") {
        f.ff_speed = ff_speed_in(v, a, hi);
        true
    } else if key_is(v, lo, e, "ff_sound") {
        f.ff_sound = flag_in(v, a, hi);
        true
    } else if key_is(v, lo, e, "colour_correction") {
        f.colour_correction = flag_in(v, a, hi);
        true
    } else if key_is(v, lo, e, "gb_overlay") {
        f.gb_overlay = flag_in(v, a, hi);
        true
    } else {
        true
    }
}

/// The state a file's text holds, or `None` when the text is not one this build wrote.
pub fn parse(text: &str) -> (r: Option<SlotState>)
    ensures
        match r {
            Some(s) => slot_state_of(text@) == Some(s@),
            None => slot_state_of(text@) is None,
        },
{
    let v = chars_of(text);
    let ranges = line_ranges(&v);
    let ghost ls = lines(v@);
    let mut f = FieldsExec {
        version: None,
        cart: None,
        cart_platform: None,
        brightness: None,
        blue_light: None,
        volume: None,
        muted: None,
        clock_set: None,
        utc_offset_min: None,
        rumble: None,
        ff_speed: None,
        ff_sound: None,
        colour_correction: None,
        gb_overlay: None,
    };
    let mut i: usize = 0;
    assert(ls.take(0) =~= Seq::<Seq<char>>::empty());
    while i < ranges.len()
        invariant
            i <= ranges.len(),
            ls == lines(v@),
            v@ == text@,
            ranges_are(v@, ranges@, ls),
            fields_of(ls.take(i as int)) == Some(f.model()),
        decreases ranges.len() - i,
    {
        let (lo, hi) = ranges[i];
        assert(ranges@[i as int].0 <= ranges@[i as int].1 <= v@.len());
        let ghost l = ls[i as int];
        assert(ls.take(i + 1).drop_last() == ls.take(i as int));
        assert(ls.take(i + 1).last() == l);
        assert(l == v@.subrange(lo as int, hi as int));
        if lo < hi {
            match find_char(&v, lo, hi, '=') {
                None => {},
                Some(e) => {
                    assert(l.take(e - lo) == v@.subrange(lo as int, e as int));
                    assert(l.skip(e - lo + 1) == v@.subrange(e + 1, hi as int));
                    if !apply_exec(&mut f, &v, lo, e, hi) {
                        assert(fields_of(ls.take(i + 1)) is None);
                        proof {
                            lemma_fields_spoiled(ls, i as int + 1);
                        }
                        assert(ls.take(ranges.len() as int) == ls);
                        return None;
                    }
                },
            }
        }
        i += 1;
    }
    assert(ls.take(ranges.len() as int) == ls);
    let brightness = match f.brightness {
        None => None,
        Some(b) => if f.version.is_some() {
            if b <= BRIGHTNESS_MAX {
                Some(b)
            } else {
                None
            }
        } else {
            legacy_brightness_exec(b)
        },
    };
    match (brightness, f.cart, f.blue_light, f.volume, f.muted, f.clock_set, f.utc_offset_min) {
        (Some(brightness), Some(cart), Some(blue_light), Some(volume), Some(muted), Some(
            clock_set,
        ), Some(utc_offset_min)) => {
            let cart = if cart.as_str().is_empty() {
                None
            } else {
                Some(cart)
            };
            Some(
                SlotState {
                    cart,
                    cart_platform: f.cart_platform,
                    brightness,
                    blue_light,
                    volume,
                    muted,
                    clock_set,
                    utc_offset_min,
                    rumble: match f.rumble {
                        Some(b) => b,
                        None => true,
                    },
                    ff_speed: match f.ff_speed {
                        Some(n) => n,
                        None => FF_SPEED_DEFAULT,
                    },
                    ff_sound: match f.ff_sound {
                        Some(b) => b,
                        None => false,
                    },
                    colour_correction: match f.colour_correction {
                        Some(b) => b,
                        None => false,
                    },
                    gb_overlay: match f.gb_overlay {
                        Some(b) => b,
                        None => true,
                    },
                },
            )
        },
        _ => None,
    }
}

/// The state a file's text holds, or the first-boot state when the text is not one this
/// build wrote (a missing or unreadable file reads as empty text).
pub fn read_slot_state(text: &str) -> (r: SlotState)
    ensures
        r@ == slot_state_or_default(text@),
{
    match parse(text) {
        Some(s) => s,
        None => SlotState::default(),
    }
}

fn legacy_brightness_exec(i: u8) -> (r: Option<u8>)
    ensures
        r == legacy_brightness(i as nat),
{
    match i {
        0 => Some(0),
        1 => Some(1),
        2 => Some(3),
        3 => Some(5),
        4 => Some(7),
        5 => Some(9),
        6 => Some(11),
        7 => Some(13),
        8 => Some(15),
        9 => Some(16),
        _ => None,
    }
}

/// Once a line has spoiled the file, no later line mends it.
proof fn lemma_fields_spoiled(ls: Seq<Seq<char>>, n: int)
    requires
        0 <= n <= ls.len(),
        fields_of(ls.take(n)) is None,
    ensures
        fields_of(ls) is None,
    decreases ls.len() - n,
{
    if n < ls.len() {
        assert(ls.take(n + 1).drop_last() == ls.take(n));
        lemma_fields_spoiled(ls, n + 1);
    } else {
        assert(ls.take(n) == ls);
    }
}

} // verus!

verus! {

// ---------------------------------------------------------------------------------------------
// Writing
// ---------------------------------------------------------------------------------------------

/// `<key>=<value>`.
pub open spec fn kv(k: Seq<char>, v: Seq<char>) -> Seq<char> {
    k + seq!['='] + v
}

/// A flag as the file spells it.
pub open spec fn bit(b: bool) -> Seq<char> {
    if b {
        seq!['1']
    } else {
        seq!['0']
    }
}

/// The file's spelling of the slot's platform: its directory, lowercased, or nothing.
pub open spec fn platform_key(p: Option<Platform>) -> Seq<char> {
    match p {
        Some(p) => lower_seq(dir_of(p)),
        None => Seq::empty(),
    }
}

/// The lines of the file that holds `s`, in the order every build has written them.
pub open spec fn slot_state_lines(s: SlotStateModel) -> Seq<Seq<char>> {
    seq![
        kv("version"@, crate::text::dec(2)),
        kv(
            "cart"@,
            match s.cart {
                Some(c) => c,
                None => Seq::empty(),
            },
        ),
        kv("cart_platform"@, platform_key(s.cart_platform)),
        kv("brightness"@, crate::text::dec(s.brightness as nat)),
        kv("blue_light"@, crate::text::dec(s.blue_light as nat)),
        kv("volume"@, crate::text::dec(s.volume as nat)),
        kv("muted"@, bit(s.muted)),
        kv("clock_set"@, bit(s.clock_set)),
        kv("utc_offset_min"@, crate::text::dec_int(s.utc_offset_min as int)),
        kv("rumble"@, bit(s.rumble)),
        kv("ff_speed"@, crate::text::dec(s.ff_speed as nat)),
        kv("ff_sound"@, bit(s.ff_sound)),
        kv("colour_correction"@, bit(s.colour_correction)),
        kv("gb_overlay"@, bit(s.gb_overlay)),
    ]
}

/// The text of the file that holds `s`.
pub open spec fn slot_state_text(s: SlotStateModel) -> Seq<char> {
    crate::store::ini::join_lines(slot_state_lines(s))
}

/// Appends `<key>=<value>\n`.
fn push_kv(out: &mut Vec<char>, key: &str, value: &Vec<char>)
    ensures
        final(out)@ == old(out)@ + kv(key@, value@) + seq!['\n'],
{
    append_str(out, key);
    out.push('=');
    append_range(out, value, 0, value.len());
    out.push('\n');
    assert(value@.subrange(0, value@.len() as int) == value@);
    assert(final(out)@ == old(out)@ + kv(key@, value@) + seq!['\n']);
}

fn bit_chars(b: bool) -> (r: Vec<char>)
    ensures
        r@ == bit(b),
{
    let mut r: Vec<char> = Vec::new();
    r.push(if b {
        '1'
    } else {
        '0'
    });
    assert(r@ == bit(b));
    r
}

fn dec_chars(n: u64) -> (r: Vec<char>)
    ensures
        r@ == crate::text::dec(n as nat),
{
    let mut r: Vec<char> = Vec::new();
    push_dec(&mut r, n);
    assert(r@ == Seq::<char>::empty() + crate::text::dec(n as nat));
    r
}

/// The text of the file that holds `s`.
pub fn write_slot_state(s: &SlotState) -> (r: String)
    ensures
        r@ == slot_state_text(s@),
{
    let ghost ls = slot_state_lines(s@);
    let mut out: Vec<char> = Vec::new();
    let cart = match &s.cart {
        Some(c) => chars_of(c.as_str()),
        None => Vec::new(),
    };
    let mut platform: Vec<char> = Vec::new();
    if let Some(p) = s.cart_platform {
        let d = chars_of(p.dir_name());
        platform = lower_range(&d, 0, d.len());
        assert(d@.subrange(0, d@.len() as int) == d@);
    }
    let mut offset: Vec<char> = Vec::new();
    push_dec_int(&mut offset, s.utc_offset_min as i64);
    assert(offset@ == Seq::<char>::empty() + crate::text::dec_int(s.utc_offset_min as int));
    push_kv(&mut out, "version", &dec_chars(2));
    proof { crate::store::ini::lemma_join_push(ls.take(0), ls[0]); assert(ls.take(1) == ls.take(0).push(ls[0])); assert(ls.take(0) == Seq::<Seq<char>>::empty()); }
    push_kv(&mut out, "cart", &cart);
    proof { crate::store::ini::lemma_join_push(ls.take(1), ls[1]); assert(ls.take(2) == ls.take(1).push(ls[1])); }
    push_kv(&mut out, "cart_platform", &platform);
    proof { crate::store::ini::lemma_join_push(ls.take(2), ls[2]); assert(ls.take(3) == ls.take(2).push(ls[2])); }
    push_kv(&mut out, "brightness", &dec_chars(s.brightness as u64));
    proof { crate::store::ini::lemma_join_push(ls.take(3), ls[3]); assert(ls.take(4) == ls.take(3).push(ls[3])); }
    push_kv(&mut out, "blue_light", &dec_chars(s.blue_light as u64));
    proof { crate::store::ini::lemma_join_push(ls.take(4), ls[4]); assert(ls.take(5) == ls.take(4).push(ls[4])); }
    push_kv(&mut out, "volume", &dec_chars(s.volume as u64));
    proof { crate::store::ini::lemma_join_push(ls.take(5), ls[5]); assert(ls.take(6) == ls.take(5).push(ls[5])); }
    push_kv(&mut out, "muted", &bit_chars(s.muted));
    proof { crate::store::ini::lemma_join_push(ls.take(6), ls[6]); assert(ls.take(7) == ls.take(6).push(ls[6])); }
    push_kv(&mut out, "clock_set", &bit_chars(s.clock_set));
    proof { crate::store::ini::lemma_join_push(ls.take(7), ls[7]); assert(ls.take(8) == ls.take(7).push(ls[7])); }
    push_kv(&mut out, "utc_offset_min", &offset);
    proof { crate::store::ini::lemma_join_push(ls.take(8), ls[8]); assert(ls.take(9) == ls.take(8).push(ls[8])); }
    push_kv(&mut out, "rumble", &bit_chars(s.rumble));
    proof { crate::store::ini::lemma_join_push(ls.take(9), ls[9]); assert(ls.take(10) == ls.take(9).push(ls[9])); }
    push_kv(&mut out, "ff_speed", &dec_chars(s.ff_speed as u64));
    proof { crate::store::ini::lemma_join_push(ls.take(10), ls[10]); assert(ls.take(11) == ls.take(10).push(ls[10])); }
    push_kv(&mut out, "ff_sound", &bit_chars(s.ff_sound));
    proof { crate::store::ini::lemma_join_push(ls.take(11), ls[11]); assert(ls.take(12) == ls.take(11).push(ls[11])); }
    push_kv(&mut out, "colour_correction", &bit_chars(s.colour_correction));
    proof { crate::store::ini::lemma_join_push(ls.take(12), ls[12]); assert(ls.take(13) == ls.take(12).push(ls[12])); }
    push_kv(&mut out, "gb_overlay", &bit_chars(s.gb_overlay));
    proof { crate::store::ini::lemma_join_push(ls.take(13), ls[13]); assert(ls.take(14) == ls.take(13).push(ls[13])); assert(ls.take(14) == ls); }
    crate::text::string_of(&out)
}

} // verus!

verus! {

// ---------------------------------------------------------------------------------------------
// Laws
// ---------------------------------------------------------------------------------------------

/// A state the file can hold: every level in its range, a real zone, a speed the menu
/// offers, and a stem that is one line of text.
pub open spec fn writable(s: SlotStateModel) -> bool {
    &&& s.brightness <= BRIGHTNESS_MAX
    &&& s.blue_light <= BLUE_LIGHT_MAX
    &&& s.volume <= VOLUME_MAX
    &&& UTC_OFFSET_MIN <= s.utc_offset_min <= UTC_OFFSET_MAX
    &&& is_ff_speed(s.ff_speed as nat)
    &&& match s.cart {
        Some(c) => c.len() > 0 && crate::store::ini::no_newline(c) && c.last() != '\r',
        None => true,
    }
}

proof fn lemma_split_kv(k: Seq<char>, v: Seq<char>)
    requires
        forall|i: int| 0 <= i < k.len() ==> k[i] != '=',
    ensures
        split_once(kv(k, v), '=') == Some((k, v)),
{
    let s = kv(k, v);
    assert forall|j: int| 0 <= j < s.len() && j < k.len() implies s[j] != '=' by {
        assert(s[j] == k[j]);
    }
    assert(s[k.len() as int] == '=');
    crate::text::lemma_index_of_is(s, '=', k.len() as int);
    assert(s.take(k.len() as int) == k);
    assert(s.skip(k.len() as int + 1) == v);
}

proof fn lemma_keys()
    ensures
        "version"@ == seq!['v', 'e', 'r', 's', 'i', 'o', 'n'],
        "cart"@ == seq!['c', 'a', 'r', 't'],
        "cart_platform"@ == seq!['c', 'a', 'r', 't', '_', 'p', 'l', 'a', 't', 'f', 'o', 'r', 'm'],
        "brightness"@ == seq!['b', 'r', 'i', 'g', 'h', 't', 'n', 'e', 's', 's'],
        "blue_light"@ == seq!['b', 'l', 'u', 'e', '_', 'l', 'i', 'g', 'h', 't'],
        "volume"@ == seq!['v', 'o', 'l', 'u', 'm', 'e'],
        "muted"@ == seq!['m', 'u', 't', 'e', 'd'],
        "clock_set"@ == seq!['c', 'l', 'o', 'c', 'k', '_', 's', 'e', 't'],
        "utc_offset_min"@ == seq!['u', 't', 'c', '_', 'o', 'f', 'f', 's', 'e', 't', '_', 'm', 'i', 'n'],
        "rumble"@ == seq!['r', 'u', 'm', 'b', 'l', 'e'],
        "ff_speed"@ == seq!['f', 'f', '_', 's', 'p', 'e', 'e', 'd'],
        "ff_sound"@ == seq!['f', 'f', '_', 's', 'o', 'u', 'n', 'd'],
        "colour_correction"@ == seq![
            'c', 'o', 'l', 'o', 'u', 'r', '_', 'c', 'o', 'r', 'r', 'e', 'c', 't', 'i', 'o', 'n'
        ],
        "gb_overlay"@ == seq!['g', 'b', '_', 'o', 'v', 'e', 'r', 'l', 'a', 'y'],
{
    reveal_strlit("version");
    reveal_strlit("cart");
    reveal_strlit("cart_platform");
    reveal_strlit("brightness");
    reveal_strlit("blue_light");
    reveal_strlit("volume");
    reveal_strlit("muted");
    reveal_strlit("clock_set");
    reveal_strlit("utc_offset_min");
    reveal_strlit("rumble");
    reveal_strlit("ff_speed");
    reveal_strlit("ff_sound");
    reveal_strlit("colour_correction");
    reveal_strlit("gb_overlay");
}

proof fn lemma_flag(b: bool)
    ensures
        flag_of(bit(b)) == Some(b),
        bit(b).len() == 1,
        bit(b)[0] != '\n' && bit(b)[0] != '\r',
{
    crate::text::lemma_parse_dec(if b {
        1
    } else {
        0
    });
    assert(crate::text::dec(1) == seq!['1']) by {
        crate::text::lemma_digit_char(1);
        assert(crate::text::digit_char(1) == '1');
    }
    assert(crate::text::dec(0) == seq!['0']) by {
        crate::text::lemma_digit_char(0);
        assert(crate::text::digit_char(0) == '0');
    }
}

proof fn lemma_dec_line(n: nat)
    ensures
        crate::store::ini::no_newline(crate::text::dec(n)),
        crate::text::dec(n).len() > 0,
        crate::text::dec(n).last() != '\r',
{
    crate::text::lemma_dec_digits(n);
    let d = crate::text::dec(n);
    assert forall|i: int| 0 <= i < d.len() implies #[trigger] d[i] != '\n' by {
        assert(crate::text::is_digit(d[i]));
    }
    assert(crate::text::is_digit(d[d.len() - 1]));
}

proof fn lemma_offset_line(n: int)
    ensures
        crate::store::ini::no_newline(crate::text::dec_int(n)),
        crate::text::dec_int(n).len() > 0,
        crate::text::dec_int(n).last() != '\r',
        crate::text::parse_int(crate::text::dec_int(n)) == Some(n),
{
    crate::text::lemma_parse_dec_int(n);
    if n < 0 {
        lemma_dec_line((-n) as nat);
        let d = crate::text::dec((-n) as nat);
        let s = seq!['-'] + d;
        assert forall|i: int| 0 <= i < s.len() implies #[trigger] s[i] != '\n' by {
            if i > 0 {
                assert(s[i] == d[i - 1]);
            }
        }
        assert(s.last() == d.last());
    } else {
        lemma_dec_line(n as nat);
    }
}

proof fn lemma_platform_key(p: Option<Platform>)
    ensures
        crate::store::ini::no_newline(platform_key(p)),
        platform_key(p).len() == 0 || platform_key(p).last() != '\r',
        p is Some ==> platform_of_value(platform_key(p)) == p,
{
    let k = platform_key(p);
    assert(lower_seq(seq!['G', 'B', 'A']) =~= seq!['g', 'b', 'a']);
    assert(lower_seq(seq!['G', 'B']) =~= seq!['g', 'b']);
    assert(lower_seq(seq!['G', 'B', 'C']) =~= seq!['g', 'b', 'c']);
    assert(lower_seq(seq!['g', 'b', 'a']) =~= seq!['g', 'b', 'a']);
    assert(lower_seq(seq!['g', 'b']) =~= seq!['g', 'b']);
    assert(lower_seq(seq!['g', 'b', 'c']) =~= seq!['g', 'b', 'c']);
    assert(seq!['g', 'b'].len() != seq!['g', 'b', 'a'].len());
    assert(seq!['g', 'b', 'c'][2] != seq!['g', 'b', 'a'][2]);
    assert(seq!['g', 'b', 'c'].len() != seq!['g', 'b'].len());
    assert forall|i: int| 0 <= i < k.len() implies #[trigger] k[i] != '\n' by {}
}

proof fn lemma_line_ok(k: Seq<char>, v: Seq<char>)
    requires
        k.len() > 0,
        crate::store::ini::no_newline(k),
        crate::store::ini::no_newline(v),
        v.len() == 0 || v.last() != '\r',
    ensures
        crate::store::ini::no_newline(kv(k, v)),
        kv(k, v).len() > 0,
        kv(k, v).last() != '\r',
{
    let s = kv(k, v);
    assert forall|i: int| 0 <= i < s.len() implies #[trigger] s[i] != '\n' by {
        if i < k.len() {
            assert(s[i] == k[i]);
        } else if i > k.len() {
            assert(s[i] == v[i - k.len() - 1]);
        }
    }
}

/// What `write_slot_state` writes, `read_slot_state` reads back: any state the file can
/// hold comes back exactly, its platform, its settings and a stem with `=` in it included.
pub proof fn law_slot_state_round_trip(s: SlotStateModel)
    requires
        writable(s),
    ensures
        slot_state_of(slot_state_text(s)) == Some(s),
{
    lemma_keys();
    let ls = slot_state_lines(s);
    let cart = match s.cart {
        Some(c) => c,
        None => Seq::<char>::empty(),
    };
    lemma_flag(s.muted);
    lemma_flag(s.clock_set);
    lemma_flag(s.rumble);
    lemma_flag(s.ff_sound);
    lemma_flag(s.colour_correction);
    lemma_flag(s.gb_overlay);
    lemma_dec_line(2);
    lemma_dec_line(s.brightness as nat);
    lemma_dec_line(s.blue_light as nat);
    lemma_dec_line(s.volume as nat);
    lemma_dec_line(s.ff_speed as nat);
    lemma_offset_line(s.utc_offset_min as int);
    lemma_platform_key(s.cart_platform);
    assert(crate::store::ini::no_newline(bit(s.muted))) by {
        assert forall|i: int| 0 <= i < bit(s.muted).len() implies #[trigger] bit(s.muted)[i] != '\n' by {}
    }
    assert(crate::store::ini::no_newline(cart)) by {
        assert forall|i: int| 0 <= i < cart.len() implies #[trigger] cart[i] != '\n' by {}
    }
    assert forall|i: int| 0 <= i < ls.len() implies crate::store::ini::no_newline(#[trigger] ls[i])
        && ls[i].len() > 0 && ls[i].last() != '\r' by {
        let k = if i == 0 {
            "version"@
        } else if i == 1 {
            "cart"@
        } else if i == 2 {
            "cart_platform"@
        } else if i == 3 {
            "brightness"@
        } else if i == 4 {
            "blue_light"@
        } else if i == 5 {
            "volume"@
        } else if i == 6 {
            "muted"@
        } else if i == 7 {
            "clock_set"@
        } else if i == 8 {
            "utc_offset_min"@
        } else if i == 9 {
            "rumble"@
        } else if i == 10 {
            "ff_speed"@
        } else if i == 11 {
            "ff_sound"@
        } else if i == 12 {
            "colour_correction"@
        } else {
            "gb_overlay"@
        };
        assert(crate::store::ini::no_newline(k)) by {
            assert forall|j: int| 0 <= j < k.len() implies #[trigger] k[j] != '\n' by {}
        }
        if i == 0 { lemma_line_ok(k, crate::text::dec(2)); }
        else if i == 1 { lemma_line_ok(k, cart); }
        else if i == 2 { lemma_line_ok(k, platform_key(s.cart_platform)); }
        else if i == 3 { lemma_line_ok(k, crate::text::dec(s.brightness as nat)); }
        else if i == 4 { lemma_line_ok(k, crate::text::dec(s.blue_light as nat)); }
        else if i == 5 { lemma_line_ok(k, crate::text::dec(s.volume as nat)); }
        else if i == 8 { lemma_line_ok(k, crate::text::dec_int(s.utc_offset_min as int)); }
        else if i == 10 { lemma_line_ok(k, crate::text::dec(s.ff_speed as nat)); }
        else {
            let x = if i == 6 { s.muted } else if i == 7 { s.clock_set } else if i == 9 { s.rumble }
                else if i == 11 { s.ff_sound } else if i == 12 { s.colour_correction } else { s.gb_overlay };
            lemma_flag(x);
            assert(crate::store::ini::no_newline(bit(x))) by {
                assert forall|j: int| 0 <= j < bit(x).len() implies #[trigger] bit(x)[j] != '\n' by {}
            }
            lemma_line_ok(k, bit(x));
        }
    }
    assert(crate::store::ini::no_newlines(ls));
    crate::store::ini::lemma_lines_join(ls, Seq::empty());
    assert(crate::store::ini::join_lines(ls) + Seq::<char>::empty() == crate::store::ini::join_lines(ls));
    assert(lines(Seq::<char>::empty()) == Seq::<Seq<char>>::empty());
    assert(crate::store::ini::strip_crs(ls) =~= ls);
    assert(lines(slot_state_text(s)) == ls);
    lemma_fields_run(s);
    crate::text::lemma_parse_dec(s.brightness as nat);
}

proof fn lemma_fields_step(ls: Seq<Seq<char>>, k: Seq<char>, v: Seq<char>)
    requires
        forall|i: int| 0 <= i < k.len() ==> k[i] != '=',
        k.len() > 0,
    ensures
        fields_of(ls.push(kv(k, v))) == match fields_of(ls) {
            None => None,
            Some(f) => apply_line(f, k, v),
        },
{
    lemma_split_kv(k, v);
    assert(ls.push(kv(k, v)).drop_last() == ls);
}

proof fn step_version(ls: Seq<Seq<char>>, f: Fields)
    requires
        fields_of(ls) == Some(f),
    ensures
        fields_of(ls.push(kv("version"@, crate::text::dec(2)))) == Some(
            Fields { version: Some(2u8), ..f },
        ),
{
    lemma_keys();
    crate::text::lemma_parse_dec(2);
    lemma_fields_step(ls, "version"@, crate::text::dec(2));
    reveal(apply_line);
}

proof fn step_cart(ls: Seq<Seq<char>>, f: Fields, c: Seq<char>)
    requires
        fields_of(ls) == Some(f),
    ensures
        fields_of(ls.push(kv("cart"@, c))) == Some(Fields { cart: Some(c), ..f }),
{
    lemma_keys();
    lemma_fields_step(ls, "cart"@, c);
    reveal(apply_line);
}

proof fn step_platform(ls: Seq<Seq<char>>, f: Fields, p: Option<Platform>)
    requires
        fields_of(ls) == Some(f),
    ensures
        fields_of(ls.push(kv("cart_platform"@, platform_key(p)))) == Some(
            Fields { cart_platform: p, ..f },
        ),
{
    lemma_keys();
    lemma_platform_key(p);
    lemma_fields_step(ls, "cart_platform"@, platform_key(p));
    reveal(apply_line);
    if p is None {
        assert(!eq_ignore_case(Seq::empty(), dir_of(Platform::Gba))) by {
            assert(lower_seq(Seq::<char>::empty()).len() != lower_seq(dir_of(Platform::Gba)).len());
        }
        assert(!eq_ignore_case(Seq::empty(), dir_of(Platform::Gb))) by {
            assert(lower_seq(Seq::<char>::empty()).len() != lower_seq(dir_of(Platform::Gb)).len());
        }
        assert(!eq_ignore_case(Seq::empty(), dir_of(Platform::Gbc))) by {
            assert(lower_seq(Seq::<char>::empty()).len() != lower_seq(dir_of(Platform::Gbc)).len());
        }
    }
}

proof fn step_brightness(ls: Seq<Seq<char>>, f: Fields, n: u8)
    requires
        fields_of(ls) == Some(f),
    ensures
        fields_of(ls.push(kv("brightness"@, crate::text::dec(n as nat)))) == Some(
            Fields { brightness: Some(n), ..f },
        ),
{
    lemma_keys();
    crate::text::lemma_parse_dec(n as nat);
    lemma_fields_step(ls, "brightness"@, crate::text::dec(n as nat));
    reveal(apply_line);
}

proof fn step_blue_light(ls: Seq<Seq<char>>, f: Fields, n: u8)
    requires
        fields_of(ls) == Some(f),
        n <= BLUE_LIGHT_MAX,
    ensures
        fields_of(ls.push(kv("blue_light"@, crate::text::dec(n as nat)))) == Some(
            Fields { blue_light: Some(n), ..f },
        ),
{
    lemma_keys();
    crate::text::lemma_parse_dec(n as nat);
    lemma_fields_step(ls, "blue_light"@, crate::text::dec(n as nat));
    reveal(apply_line);
    assert("blue_light"@[1] != "brightness"@[1]);
}

proof fn step_volume(ls: Seq<Seq<char>>, f: Fields, n: u8)
    requires
        fields_of(ls) == Some(f),
        n <= VOLUME_MAX,
    ensures
        fields_of(ls.push(kv("volume"@, crate::text::dec(n as nat)))) == Some(
            Fields { volume: Some(n), ..f },
        ),
{
    lemma_keys();
    crate::text::lemma_parse_dec(n as nat);
    lemma_fields_step(ls, "volume"@, crate::text::dec(n as nat));
    reveal(apply_line);
}

proof fn step_offset(ls: Seq<Seq<char>>, f: Fields, n: i16)
    requires
        fields_of(ls) == Some(f),
        UTC_OFFSET_MIN <= n <= UTC_OFFSET_MAX,
    ensures
        fields_of(ls.push(kv("utc_offset_min"@, crate::text::dec_int(n as int)))) == Some(
            Fields { utc_offset_min: Some(n), ..f },
        ),
{
    lemma_keys();
    lemma_offset_line(n as int);
    lemma_fields_step(ls, "utc_offset_min"@, crate::text::dec_int(n as int));
    reveal(apply_line);
}

proof fn step_ff_speed(ls: Seq<Seq<char>>, f: Fields, n: u8)
    requires
        fields_of(ls) == Some(f),
        is_ff_speed(n as nat),
    ensures
        fields_of(ls.push(kv("ff_speed"@, crate::text::dec(n as nat)))) == Some(
            Fields { ff_speed: Some(n), ..f },
        ),
{
    lemma_keys();
    crate::text::lemma_parse_dec(n as nat);
    lemma_fields_step(ls, "ff_speed"@, crate::text::dec(n as nat));
    reveal(apply_line);
}

/// The six flags, by their place in the file: muted, clock_set, rumble, ff_sound,
/// colour_correction, gb_overlay.
pub open spec fn flag_key(i: int) -> Seq<char> {
    if i == 0 {
        "muted"@
    } else if i == 1 {
        "clock_set"@
    } else if i == 2 {
        "rumble"@
    } else if i == 3 {
        "ff_sound"@
    } else if i == 4 {
        "colour_correction"@
    } else {
        "gb_overlay"@
    }
}

pub open spec fn set_flag(f: Fields, i: int, b: bool) -> Fields {
    if i == 0 {
        Fields { muted: Some(b), ..f }
    } else if i == 1 {
        Fields { clock_set: Some(b), ..f }
    } else if i == 2 {
        Fields { rumble: Some(b), ..f }
    } else if i == 3 {
        Fields { ff_sound: Some(b), ..f }
    } else if i == 4 {
        Fields { colour_correction: Some(b), ..f }
    } else {
        Fields { gb_overlay: Some(b), ..f }
    }
}

proof fn step_flag(ls: Seq<Seq<char>>, f: Fields, i: int, b: bool)
    requires
        fields_of(ls) == Some(f),
        0 <= i < 6,
    ensures
        fields_of(ls.push(kv(flag_key(i), bit(b)))) == Some(set_flag(f, i, b)),
{
    lemma_keys();
    lemma_flag(b);
    lemma_fields_step(ls, flag_key(i), bit(b));
    reveal(apply_line);
    assert("rumble"@[0] != "volume"@[0]);
    assert("ff_sound"@[4] != "ff_speed"@[4]);
    assert("gb_overlay"@[0] != "brightness"@[0]);
    assert("gb_overlay"@[0] != "blue_light"@[0]);
}

proof fn lemma_fields_run(s: SlotStateModel)
    requires
        writable(s),
    ensures
        fields_of(slot_state_lines(s)) == Some(
            Fields {
                version: Some(2u8),
                cart: Some(
                    match s.cart {
                        Some(c) => c,
                        None => Seq::<char>::empty(),
                    },
                ),
                cart_platform: s.cart_platform,
                brightness: Some(s.brightness),
                blue_light: Some(s.blue_light),
                volume: Some(s.volume),
                muted: Some(s.muted),
                clock_set: Some(s.clock_set),
                utc_offset_min: Some(s.utc_offset_min),
                rumble: Some(s.rumble),
                ff_speed: Some(s.ff_speed),
                ff_sound: Some(s.ff_sound),
                colour_correction: Some(s.colour_correction),
                gb_overlay: Some(s.gb_overlay),
            },
        ),
{
    lemma_keys();
    let ls = slot_state_lines(s);
    let cart = match s.cart {
        Some(c) => c,
        None => Seq::<char>::empty(),
    };
    let e = Seq::<Seq<char>>::empty();
    let f0 = Fields { version: Some(2u8), ..no_fields() };
    step_version(e, no_fields());
    let l0 = e.push(ls[0]);
    let f1 = Fields { cart: Some(cart), ..f0 };
    step_cart(l0, f0, cart);
    let l1 = l0.push(ls[1]);
    let f2 = Fields { cart_platform: s.cart_platform, ..f1 };
    step_platform(l1, f1, s.cart_platform);
    let l2 = l1.push(ls[2]);
    let f3 = Fields { brightness: Some(s.brightness), ..f2 };
    step_brightness(l2, f2, s.brightness);
    let l3 = l2.push(ls[3]);
    let f4 = Fields { blue_light: Some(s.blue_light), ..f3 };
    step_blue_light(l3, f3, s.blue_light);
    let l4 = l3.push(ls[4]);
    let f5 = Fields { volume: Some(s.volume), ..f4 };
    step_volume(l4, f4, s.volume);
    let l5 = l4.push(ls[5]);
    let f6 = set_flag(f5, 0, s.muted);
    step_flag(l5, f5, 0, s.muted);
    let l6 = l5.push(ls[6]);
    let f7 = set_flag(f6, 1, s.clock_set);
    step_flag(l6, f6, 1, s.clock_set);
    let l7 = l6.push(ls[7]);
    let f8 = Fields { utc_offset_min: Some(s.utc_offset_min), ..f7 };
    step_offset(l7, f7, s.utc_offset_min);
    let l8 = l7.push(ls[8]);
    let f9 = set_flag(f8, 2, s.rumble);
    step_flag(l8, f8, 2, s.rumble);
    let l9 = l8.push(ls[9]);
    let f10 = Fields { ff_speed: Some(s.ff_speed), ..f9 };
    step_ff_speed(l9, f9, s.ff_speed);
    let l10 = l9.push(ls[10]);
    let f11 = set_flag(f10, 3, s.ff_sound);
    step_flag(l10, f10, 3, s.ff_sound);
    let l11 = l10.push(ls[11]);
    let f12 = set_flag(f11, 4, s.colour_correction);
    step_flag(l11, f11, 4, s.colour_correction);
    let l12 = l11.push(ls[12]);
    step_flag(l12, f12, 5, s.gb_overlay);
    let l13 = l12.push(ls[13]);
    assert(l13 =~= ls);
}

} // verus!
