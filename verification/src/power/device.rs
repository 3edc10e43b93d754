//! What a Linux handheld's sysfs says, decoded: the backlight curve, the capability mask
//! that finds the motor, the charge state, the LED's colours and the PMIC's I2C bus. The
//! files are read and written by the caller; these are the decisions made on their text.
use crate::power::{Battery, Charge, LedState};
use crate::store::path::{file_name, file_name_of};
use crate::text::{
    append_str, chars_of, dec, index_of, is_ws, parse_bounded, parse_uint_range, push_dec,
    split_once, str_eq, trim, trim_range,
};
use vstd::prelude::*;

verus! {

/// The top step. The panel has nine visible levels above off; what they span in the
/// kernel's own units is whatever `max_brightness` says, which is 255 on some panels and
/// 100 on others. A step above the top is the top.
pub const TOP_STEP: u32 = 9;

/// The panel value for a step: the nine steps spread evenly over `0..=max`, rounded down,
/// with every lit step at least 1 and step 0 off.
pub open spec fn backlight_of(step: u32, max: u32) -> u32 {
    let s = if step < TOP_STEP {
        step
    } else {
        TOP_STEP
    };
    let v = (max as nat) * (s as nat) / (TOP_STEP as nat);
    if s == 0 || max == 0 {
        0
    } else if v < 1 {
        1
    } else {
        v as u32
    }
}

proof fn lemma_scaled_fits(max: u32, s: nat)
    requires
        s <= 9,
    ensures
        (max as nat) * s / 9 <= max as nat,
        (max as nat) * s <= 0xffff_ffff * 9,
{
    assert((max as nat) * s <= (max as nat) * 9) by (nonlinear_arith)
        requires
            s <= 9,
    ;
    assert((max as nat) * 9 / 9 == max as nat) by (nonlinear_arith);
    vstd::arithmetic::div_mod::lemma_div_is_ordered((max as nat * s) as int, (max as nat * 9) as int, 9);
    assert((max as nat) * 9 <= 0xffff_ffff * 9) by (nonlinear_arith)
        requires
            max <= 0xffff_ffff,
    ;
}

/// Turn a brightness step into the panel's native range, keeping every lit step non-zero
/// even on a particularly narrow backlight range.
pub fn backlight_value(step: u32, max: u32) -> (r: u32)
    ensures
        r == backlight_of(step, max),
{
    let s = if step < TOP_STEP {
        step
    } else {
        TOP_STEP
    };
    proof {
        lemma_scaled_fits(max, s as nat);
    }
    let value: u64 = (max as u64) * (s as u64) / 9;
    if s == 0 || max == 0 {
        0
    } else if value < 1 {
        1
    } else {
        value as u32
    }
}

/// Step 0 is the panel off, whatever the range; the top step is the whole range; a higher
/// step is never dimmer than a lower one; and every lit step is lit.
pub proof fn law_backlight_curve(lo: u32, hi: u32, max: u32)
    requires
        lo <= hi,
    ensures
        backlight_of(0, max) == 0,
        backlight_of(TOP_STEP, max) == max,
        backlight_of(lo, max) <= backlight_of(hi, max),
        lo > 0 && max > 0 ==> backlight_of(lo, max) >= 1,
{
    assert((max as nat) * 9 / 9 == max as nat) by (nonlinear_arith);
    let a = if lo < TOP_STEP { lo } else { TOP_STEP };
    let b = if hi < TOP_STEP { hi } else { TOP_STEP };
    assert((max as nat) * (a as nat) <= (max as nat) * (b as nat)) by (nonlinear_arith)
        requires
            a <= b,
    ;
    vstd::arithmetic::div_mod::lemma_div_is_ordered(
        (max as nat * a as nat) as int,
        (max as nat * b as nat) as int,
        9,
    );
    lemma_scaled_fits(max, b as nat);
    lemma_scaled_fits(max, a as nat);
}

// ---------------------------------------------------------------------------------------------
// Capability masks
// ---------------------------------------------------------------------------------------------

/// Where the run of non-space characters starting at `i` ends.
pub open spec fn word_end(s: Seq<char>, i: int) -> int
    decreases s.len() - i,
{
    if i >= s.len() || i < 0 || is_ws(s[i]) {
        i
    } else {
        word_end(s, i + 1)
    }
}

proof fn lemma_word_end(s: Seq<char>, i: int)
    requires
        0 <= i <= s.len(),
    ensures
        i <= word_end(s, i) <= s.len(),
        word_end(s, i) < s.len() ==> is_ws(s[word_end(s, i)]),
        forall|j: int| i <= j < word_end(s, i) ==> !is_ws(#[trigger] s[j]),
    decreases s.len() - i,
{
    if i < s.len() && !is_ws(s[i]) {
        lemma_word_end(s, i + 1);
    }
}

/// `str::split_whitespace` from `i` on: the runs of non-space characters, in order.
pub open spec fn words_from(s: Seq<char>, i: int) -> Seq<Seq<char>>
    decreases s.len() - i,
{
    if i >= s.len() || i < 0 {
        Seq::empty()
    } else if is_ws(s[i]) {
        words_from(s, i + 1)
    } else {
        let j = word_end(s, i);
        if j <= i || j > s.len() {
            Seq::empty()
        } else {
            seq![s.subrange(i, j)] + words_from(s, j)
        }
    }
}

pub open spec fn hex_digit_value(c: char) -> Option<nat> {
    if '0' <= c <= '9' {
        Some(((c as u32) - 48) as nat)
    } else if 'a' <= c <= 'f' {
        Some(((c as u32) - 87) as nat)
    } else if 'A' <= c <= 'F' {
        Some(((c as u32) - 55) as nat)
    } else {
        None
    }
}

/// The number a run of hex digits spells, or `None` when one is not a hex digit.
pub open spec fn hex_digits(s: Seq<char>) -> Option<nat>
    decreases s.len(),
{
    if s.len() == 0 {
        Some(0)
    } else {
        match (hex_digits(s.drop_last()), hex_digit_value(s.last())) {
            (Some(a), Some(d)) => Some(a * 16 + d),
            _ => None,
        }
    }
}

/// `u64::from_str_radix(s, 16)`: an optional `+`, then at least one hex digit, fitting 64 bits.
pub open spec fn hex_u64(s: Seq<char>) -> Option<u64> {
    let d = if s.len() > 0 && s[0] == '+' {
        s.drop_first()
    } else {
        s
    };
    if d.len() == 0 {
        None
    } else {
        match hex_digits(d) {
            Some(n) => if n <= u64::MAX {
                Some(n as u64)
            } else {
                None
            },
            None => None,
        }
    }
}

/// Whether bit `bit` is set in a mask sysfs prints as 64 bit hex words, most significant
/// first: the last word holds bits 0 to 63.
pub open spec fn mask_has_bit(mask: Seq<char>, bit: u16) -> bool {
    let words = words_from(mask, 0);
    let from_end = (bit / 64) as int;
    if words.len() < from_end + 1 {
        false
    } else {
        match hex_u64(words[words.len() - 1 - from_end]) {
            Some(w) => (w >> ((bit % 64) as u64)) & 1u64 == 1u64,
            None => false,
        }
    }
}

fn hex_digit(c: char) -> (r: Option<u64>)
    ensures
        match r {
            Some(d) => hex_digit_value(c) == Some(d as nat) && d < 16,
            None => hex_digit_value(c) is None,
        },
{
    if '0' <= c && c <= '9' {
        Some((c as u32 - 48) as u64)
    } else if 'a' <= c && c <= 'f' {
        Some((c as u32 - 87) as u64)
    } else if 'A' <= c && c <= 'F' {
        Some((c as u32 - 55) as u64)
    } else {
        None
    }
}

/// `u64::from_str_radix(v[lo..hi], 16)`.
fn hex_in(v: &Vec<char>, lo: usize, hi: usize) -> (r: Option<u64>)
    requires
        lo <= hi <= v.len(),
    ensures
        r == hex_u64(v@.subrange(lo as int, hi as int)),
{
    let ghost s = v@.subrange(lo as int, hi as int);
    let mut a = lo;
    if a < hi && v[a] == '+' {
        a += 1;
    }
    let ghost d = v@.subrange(a as int, hi as int);
    assert(d == (if s.len() > 0 && s[0] == '+' {
        s.drop_first()
    } else {
        s
    }));
    if a == hi {
        return None;
    }
    let mut n: u64 = 0;
    let mut i = a;
    while i < hi
        invariant
            a <= i <= hi <= v.len(),
            lo <= a < hi,
            d == v@.subrange(a as int, hi as int),
            s == v@.subrange(lo as int, hi as int),
            d == (if s.len() > 0 && s[0] == '+' {
                s.drop_first()
            } else {
                s
            }),
            hex_digits(v@.subrange(a as int, i as int)) == Some(n as nat),
        decreases hi - i,
    {
        let ghost p = v@.subrange(a as int, i + 1);
        assert(p.drop_last() == v@.subrange(a as int, i as int));
        assert(p.last() == v@[i as int]);
        match hex_digit(v[i]) {
            None => {
                assert(hex_digits(p) is None);
                assert(d.take((i + 1 - a) as int) == p);
                proof {
                    lemma_hex_none_extends(d, (i + 1 - a) as int);
                }
                return None;
            },
            Some(x) => {
                if n > (u64::MAX - x) / 16 {
                    assert(hex_digits(p) == Some(n as nat * 16 + x as nat));
                    assert(n as nat * 16 + x as nat > u64::MAX) by (nonlinear_arith)
                        requires
                            n > (u64::MAX - x) / 16,
                            x < 16,
                    ;
                    assert(d.take((i + 1 - a) as int) == p);
                    proof {
                        lemma_hex_big_extends(d, (i + 1 - a) as int);
                    }
                    return None;
                }
                assert(n * 16 + x <= u64::MAX) by (nonlinear_arith)
                    requires
                        n <= (u64::MAX - x) / 16,
                        x < 16,
                ;
                n = n * 16 + x;
            },
        }
        i += 1;
    }
    assert(v@.subrange(a as int, hi as int) == d);
    Some(n)
}

/// A run that holds a non-digit spells nothing, however it goes on.
proof fn lemma_hex_none_extends(d: Seq<char>, k: int)
    requires
        0 <= k <= d.len(),
        hex_digits(d.take(k)) is None,
    ensures
        hex_digits(d) is None,
    decreases d.len() - k,
{
    if k < d.len() {
        assert(d.take(k + 1).drop_last() == d.take(k));
        lemma_hex_none_extends(d, k + 1);
    } else {
        assert(d.take(k) == d);
    }
}

/// A run whose beginning is already past 64 bits stays past them.
proof fn lemma_hex_big_extends(d: Seq<char>, k: int)
    requires
        0 <= k <= d.len(),
        hex_digits(d.take(k)) is None || hex_digits(d.take(k))->0 > u64::MAX,
    ensures
        hex_digits(d) is None || hex_digits(d)->0 > u64::MAX,
    decreases d.len() - k,
{
    if k < d.len() {
        assert(d.take(k + 1).drop_last() == d.take(k));
        lemma_hex_big_extends(d, k + 1);
    } else {
        assert(d.take(k) == d);
    }
}

/// sysfs prints a capability bitmask as 64 bit words in hex, most significant first, so the
/// last word holds bits 0 to 63 and an offset only comes out right counted from the end.
pub fn has_bit(mask: &str, bit: u16) -> (r: bool)
    ensures
        r == mask_has_bit(mask@, bit),
{
    let v = chars_of(mask);
    let ghost s = v@;
    let mut words: Vec<(usize, usize)> = Vec::new();
    let mut i: usize = 0;
    while i < v.len()
        invariant
            i <= v.len(),
            s == v@,
            s == mask@,
            forall|k: int| 0 <= k < words@.len() ==> (#[trigger] words@[k]).0 <= words@[k].1 <= v.len(),
            word_views(s, words@) + words_from(s, i as int) == words_from(s, 0),
        decreases v.len() - i,
    {
        if crate::text::is_whitespace(v[i]) {
            assert(words_from(s, i as int) == words_from(s, i + 1));
            i += 1;
        } else {
            let start = i;
            proof {
                lemma_word_end(s, start as int);
            }
            while i < v.len() && !crate::text::is_whitespace(v[i])
                invariant
                    start <= i <= v.len(),
                    s == v@,
                    word_end(s, start as int) == word_end(s, i as int),
                decreases v.len() - i,
            {
                i += 1;
            }
            let ghost old_words = words@;
            words.push((start, i));
            assert(word_views(s, words@) =~= word_views(s, old_words).push(s.subrange(start as int, i as int)));
            assert(words_from(s, start as int) == seq![s.subrange(start as int, i as int)] + words_from(s, i as int));
            assert(word_views(s, words@) + words_from(s, i as int) =~= word_views(s, old_words) + words_from(s, start as int));
        }
    }
    assert(words_from(s, i as int) == Seq::<Seq<char>>::empty());
    assert(word_views(s, words@) == words_from(s, 0));
    let from_end: usize = (bit / 64) as usize;
    if words.len() < from_end + 1 {
        return false;
    }
    let (lo, hi) = words[words.len() - 1 - from_end];
    match hex_in(&v, lo, hi) {
        Some(w) => (w >> ((bit % 64) as u64)) & 1u64 == 1u64,
        None => false,
    }
}

pub open spec fn word_views(s: Seq<char>, r: Seq<(usize, usize)>) -> Seq<Seq<char>> {
    Seq::new(r.len(), |k: int| s.subrange(r[k].0 as int, r[k].1 as int))
}

/// What the motor should be told, given a new strength and what it is doing now. `None` is
/// the common case twice over: the core asks for the same thing most frames, and this driver
/// ignores magnitude entirely, so anything above zero is the same buzz.
pub fn motor_change(strength: u16, running: bool) -> (r: Option<bool>)
    ensures
        r == (if (strength > 0) == running {
            None
        } else {
            Some(strength > 0)
        }),
{
    match (strength > 0, running) {
        (true, false) => Some(true),
        (false, true) => Some(false),
        _ => None,
    }
}

/// Telling the motor what `motor_change` says leaves it doing what the strength asks, and
/// asking it again for the same thing changes nothing.
pub proof fn law_motor_follows_the_edge(strength: u16, running: bool)
    ensures
        ({
            let now = match (if (strength > 0) == running {
                None
            } else {
                Some(strength > 0)
            }) {
                Some(on) => on,
                None => running,
            };
            now == (strength > 0)
        }),
{
}

// ---------------------------------------------------------------------------------------------
// Charge and gauge
// ---------------------------------------------------------------------------------------------

/// The kernel names five states and this cares about three. Anything else — "Not charging"
/// on a charger that is not filling, an empty file, a node that is not there — is the
/// reading that leaves every policy where it was.
pub open spec fn charge_of_status(text: Option<Seq<char>>) -> Charge {
    match text {
        None => Charge::Unknown,
        Some(t) => if trim(t) == "Charging"@ {
            Charge::Charging
        } else if trim(t) == "Discharging"@ {
            Charge::Discharging
        } else if trim(t) == "Full"@ {
            Charge::Full
        } else {
            Charge::Unknown
        },
    }
}

/// The charge state the battery's `status` file says, `None` being no file.
pub fn charge_at(status: Option<&str>) -> (r: Charge)
    ensures
        r == charge_of_status(match status {
            Some(s) => Some(s@),
            None => None,
        }),
{
    let text = match status {
        Some(t) => t,
        None => return Charge::Unknown,
    };
    let t = crate::text::trim_str(text);
    let s = t.as_str();
    if str_eq(s, "Charging") {
        Charge::Charging
    } else if str_eq(s, "Discharging") {
        Charge::Discharging
    } else if str_eq(s, "Full") {
        Charge::Full
    } else {
        Charge::Unknown
    }
}

/// The charge state once a charger is known about: a charger online with time still to go
/// is charging whatever `status` says; otherwise only a full battery, or a discharging one
/// with no charger online, is taken at its word.
pub open spec fn active_charge_of(status: Charge, charger_online: Option<bool>, time_to_full: u32) -> Charge {
    match charger_online {
        None => status,
        Some(online) => if online && time_to_full > 0 {
            Charge::Charging
        } else {
            match status {
                Charge::Full => Charge::Full,
                Charge::Discharging => if !online {
                    Charge::Discharging
                } else {
                    Charge::Unknown
                },
                _ => Charge::Unknown,
            }
        },
    }
}

/// `status` is the battery's own reading; `charger_online` is whether the charger's `online`
/// reads 1, `None` where there is no charger; `time_to_full` is the battery's
/// `time_to_full_now`, 0 where it will not read.
pub fn active_charge(status: Charge, charger_online: Option<bool>, time_to_full: u32) -> (r: Charge)
    ensures
        r == active_charge_of(status, charger_online, time_to_full),
{
    let online = match charger_online {
        None => return status,
        Some(o) => o,
    };
    if online && time_to_full > 0 {
        return Charge::Charging;
    }
    match status {
        Charge::Full => Charge::Full,
        Charge::Discharging if !online => Charge::Discharging,
        _ => Charge::Unknown,
    }
}

/// A number file: its text trimmed, as a `u32`.
pub open spec fn number_of(text: Option<Seq<char>>) -> Option<u32> {
    match text {
        None => None,
        Some(t) => match parse_bounded(trim(t), u32::MAX as nat) {
            Some(n) => Some(n as u32),
            None => None,
        },
    }
}

pub fn read_number(text: Option<&str>) -> (r: Option<u32>)
    ensures
        r == number_of(match text {
            Some(s) => Some(s@),
            None => None,
        }),
{
    let t = match text {
        Some(t) => t,
        None => return None,
    };
    let v = chars_of(t);
    let (a, b) = trim_range(&v, 0, v.len());
    assert(v@.subrange(0, v@.len() as int) == v@);
    match parse_uint_range(&v, a, b, u32::MAX as u64) {
        Some(n) => Some(n as u32),
        None => None,
    }
}

/// What a `power_supply` node's `type` file makes it, as far as the probe cares.
#[derive(Copy, Clone, PartialEq, Eq, Debug, Structural)]
pub enum SupplyKind {
    Battery,
    /// A supply that charges the battery: USB, USB-C or mains.
    Charger,
    Other,
}

pub open spec fn supply_kind_of(type_text: Option<Seq<char>>) -> SupplyKind {
    match type_text {
        None => SupplyKind::Other,
        Some(t) => {
            let w = trim(t);
            if w == "Battery"@ {
                SupplyKind::Battery
            } else if w == "USB"@ || w == "USB_C"@ || w == "Mains"@ {
                SupplyKind::Charger
            } else {
                SupplyKind::Other
            }
        },
    }
}

fn trimmed_is(v: &Vec<char>, a: usize, b: usize, lit: &str) -> (r: bool)
    requires
        a <= b <= v.len(),
    ensures
        r == (v@.subrange(a as int, b as int) == lit@),
{
    let k = chars_of(lit);
    let r = crate::text::chars_eq(v, a, b, &k, 0, k.len());
    assert(k@.subrange(0, k@.len() as int) == k@);
    r
}

/// Reads a supply's `type` text; `None` where the file would not read.
pub fn supply_kind(type_text: Option<&str>) -> (r: SupplyKind)
    ensures
        r == supply_kind_of(match type_text {
            Some(s) => Some(s@),
            None => None,
        }),
{
    let t = match type_text {
        Some(t) => t,
        None => return SupplyKind::Other,
    };
    let v = chars_of(t);
    let (a, b) = trim_range(&v, 0, v.len());
    assert(v@.subrange(0, v@.len() as int) == v@);
    if trimmed_is(&v, a, b, "Battery") {
        SupplyKind::Battery
    } else if trimmed_is(&v, a, b, "USB") || trimmed_is(&v, a, b, "USB_C") || trimmed_is(&v, a, b, "Mains") {
        SupplyKind::Charger
    } else {
        SupplyKind::Other
    }
}

pub open spec fn trimmed_equals(text: Option<Seq<char>>, word: Seq<char>) -> bool {
    match text {
        Some(t) => trim(t) == word,
        None => false,
    }
}

fn trimmed_text_is(text: Option<&str>, word: &str) -> (r: bool)
    ensures
        r == trimmed_equals(
            match text {
                Some(s) => Some(s@),
                None => None,
            },
            word@,
        ),
{
    match text {
        None => false,
        Some(t) => {
            let v = chars_of(t);
            let (a, b) = trim_range(&v, 0, v.len());
            assert(v@.subrange(0, v@.len() as int) == v@);
            trimmed_is(&v, a, b, word)
        },
    }
}

/// Whether a USB device controller's `state` says a host has configured it.
pub fn udc_configured(state: Option<&str>) -> (r: bool)
    ensures
        r == trimmed_equals(
            match state {
                Some(s) => Some(s@),
                None => None,
            },
            "configured"@,
        ),
{
    trimmed_text_is(state, "configured")
}

/// Whether the lid is still shut after a wake: the hall sensor reads `0`. A sensor that
/// will not read counts as open, so a board without one never sleeps again unasked.
pub fn lid_still_shut(hall: Option<&str>) -> (r: bool)
    ensures
        r == trimmed_equals(
            match hall {
                Some(s) => Some(s@),
                None => None,
            },
            "0"@,
        ),
{
    trimmed_text_is(hall, "0")
}

/// What a suspend has just learnt. Lid-shut standby sleeps in rounds until the
/// Super Standby window runs out or the lid opens.
#[derive(Copy, Clone, PartialEq, Eq, Debug, Structural)]
pub enum StandbyEvent {
    /// Before a round: how long is left of the window.
    Due { remaining_ms: u64 },
    /// The timed wake could not be armed.
    ArmFailed,
    /// A round of sleep returned: whether the kernel took the request, and whether the lid
    /// is still shut.
    Slept { ok: bool, lid_shut: bool },
}

/// What a suspend does next.
#[derive(Copy, Clone, PartialEq, Eq, Debug, Structural)]
pub enum StandbyStep {
    /// Stop and report no wake, so the caller can cut the rails.
    GiveUp,
    /// Arm the timed wake for what is left and sleep.
    Sleep,
    /// The lid opened: stop and report the wake.
    Woke,
    /// Still shut: wait a moment and start another round.
    Again,
}

pub open spec fn standby_step_of(e: StandbyEvent) -> StandbyStep {
    match e {
        StandbyEvent::Due { remaining_ms } => if remaining_ms == 0 {
            StandbyStep::GiveUp
        } else {
            StandbyStep::Sleep
        },
        StandbyEvent::ArmFailed => StandbyStep::GiveUp,
        StandbyEvent::Slept { ok, lid_shut } => if !ok {
            StandbyStep::GiveUp
        } else if lid_shut {
            StandbyStep::Again
        } else {
            StandbyStep::Woke
        },
    }
}

pub fn standby_step(e: StandbyEvent) -> (r: StandbyStep)
    ensures
        r == standby_step_of(e),
{
    match e {
        StandbyEvent::Due { remaining_ms } => if remaining_ms == 0 {
            StandbyStep::GiveUp
        } else {
            StandbyStep::Sleep
        },
        StandbyEvent::ArmFailed => StandbyStep::GiveUp,
        StandbyEvent::Slept { ok, lid_shut } => if !ok {
            StandbyStep::GiveUp
        } else if lid_shut {
            StandbyStep::Again
        } else {
            StandbyStep::Woke
        },
    }
}

/// A suspend never reports a wake while the lid is shut, never sleeps once the window has
/// run out, and reports a wake only after a round of sleep the kernel took.
pub proof fn law_no_wake_with_the_lid_shut(e: StandbyEvent)
    ensures
        standby_step_of(e) is Woke ==> (e matches StandbyEvent::Slept { ok, lid_shut } && ok && !lid_shut),
        (e matches StandbyEvent::Due { remaining_ms } && remaining_ms == 0) ==> standby_step_of(e) is GiveUp,
{
}

/// The gauge: `None` where the capacity will not read, which is no gauge rather than an
/// empty battery; a reading over 100 is 100.
pub fn battery_of(capacity: Option<&str>, charge: Charge) -> (r: Option<Battery>)
    ensures
        r == match number_of(match capacity {
            Some(s) => Some(s@),
            None => None,
        }) {
            None => None,
            Some(p) => Some(Battery { percent: if p > 100 { 100u8 } else { p as u8 }, charge }),
        },
{
    match read_number(capacity) {
        None => None,
        Some(p) => Some(Battery { percent: if p > 100 { 100 } else { p as u8 }, charge }),
    }
}

// ---------------------------------------------------------------------------------------------
// LED
// ---------------------------------------------------------------------------------------------

/// The colour a multicolour LED shows for each state, as red, green and blue intensities.
pub fn led_colour(state: LedState) -> (r: (u8, u8, u8))
    ensures
        r == match state {
            LedState::Off => (0u8, 0u8, 0u8),
            LedState::Running | LedState::Charged => (0u8, 255u8, 0u8),
            LedState::Low => (255u8, 0u8, 0u8),
            LedState::Charging => (255u8, 140u8, 0u8),
        },
{
    match state {
        LedState::Off => (0, 0, 0),
        LedState::Running | LedState::Charged => (0, 255, 0),
        LedState::Low => (255, 0, 0),
        LedState::Charging => (255, 140, 0),
    }
}

/// One distinction is all a single brightness carries without a blink timer, and the fastest
/// tick here is a second. Low is what it is spent on: the LED is lit except when off or low.
pub fn led_mono_lit(state: LedState) -> (r: bool)
    ensures
        r == !(state == LedState::Off || state == LedState::Low),
{
    !matches!(state, LedState::Off | LedState::Low)
}

// ---------------------------------------------------------------------------------------------
// The PMIC
// ---------------------------------------------------------------------------------------------

/// The bus device for the PMIC whose sysfs node is `sysfs`: the part of its last component
/// before `-` names the bus. Bus 5 where nothing better is known, which is the H700's.
pub open spec fn axp_devnode_of(sysfs: Option<Seq<char>>) -> Seq<char> {
    let bus = match sysfs {
        None => None,
        Some(p) => match file_name(p) {
            None => None,
            Some(leaf) => match split_once(leaf, '-') {
                Some((b, _)) => Some(b),
                None => None,
            },
        },
    };
    match bus {
        Some(b) => "/dev/i2c-"@ + b,
        None => "/dev/i2c-5"@,
    }
}

pub fn axp_i2c_devnode(sysfs: Option<&str>) -> (r: String)
    ensures
        r@ == axp_devnode_of(match sysfs {
            Some(s) => Some(s@),
            None => None,
        }),
{
    let leaf = match sysfs {
        Some(p) => file_name_of(p),
        None => None,
    };
    let mut out: Vec<char> = Vec::new();
    if let Some(leaf) = leaf {
        let v = chars_of(leaf.as_str());
        if let Some(e) = crate::text::find_char(&v, 0, v.len(), '-') {
            append_str(&mut out, "/dev/i2c-");
            crate::text::append_range(&mut out, &v, 0, e);
            assert(v@.subrange(0, v@.len() as int) == v@);
            assert(v@.take(e as int) == v@.subrange(0, e as int));
            return crate::text::string_of(&out);
        }
        assert(v@.subrange(0, v@.len() as int) == v@);
    }
    append_str(&mut out, "/dev/i2c-5");
    crate::text::string_of(&out)
}

/// Whether a sysfs I2C device is the PMIC: its leaf's address part is `0034` or `34`, and
/// its `name` starts, after leading space, with `axp`.
pub open spec fn is_axp_of(leaf: Seq<char>, name: Option<Seq<char>>) -> bool {
    match split_once(leaf, '-') {
        None => false,
        Some((_, address)) => (address == "0034"@ || address == "34"@) && match name {
            None => false,
            Some(n) => {
                let t = crate::text::trim_start(n);
                t.len() >= 3 && t.take(3) == "axp"@
            },
        },
    }
}

pub fn is_axp(leaf: &str, name: Option<&str>) -> (r: bool)
    ensures
        r == is_axp_of(leaf@, match name {
            Some(s) => Some(s@),
            None => None,
        }),
{
    let v = chars_of(leaf);
    let e = match crate::text::find_char(&v, 0, v.len(), '-') {
        Some(e) => e,
        None => {
            assert(v@.subrange(0, v@.len() as int) == v@);
            return false;
        },
    };
    assert(v@.subrange(0, v@.len() as int) == v@);
    assert(v@.skip(e + 1) == v@.subrange(e + 1, v@.len() as int));
    let address = crate::text::string_of_range(&v, e + 1, v.len());
    if !(str_eq(address.as_str(), "0034") || str_eq(address.as_str(), "34")) {
        return false;
    }
    let n = match name {
        Some(n) => n,
        None => return false,
    };
    let w = chars_of(n);
    let mut a: usize = 0;
    while a < w.len() && crate::text::is_whitespace(w[a])
        invariant
            a <= w.len(),
            forall|j: int| 0 <= j < a ==> is_ws(#[trigger] w@[j]),
        decreases w.len() - a,
    {
        a += 1;
    }
    let ghost t = crate::text::trim_start(n@);
    proof {
        lemma_trim_start_is_suffix(w@, a as int);
    }
    if w.len() - a < 3 {
        return false;
    }
    let p = chars_of("axp");
    proof {
        reveal_strlit("axp");
    }
    let r = crate::text::chars_eq(&w, a, a + 3, &p, 0, 3);
    proof {
        assert(p@.subrange(0, 3) == p@);
        assert(t.take(3) == w@.subrange(a as int, a + 3));
    }
    r
}

/// Where `trim_range` starts a text is where `trim_start` leaves it.
proof fn lemma_trim_start_is_suffix(s: Seq<char>, a: int)
    requires
        0 <= a <= s.len(),
        forall|j: int| 0 <= j < a ==> is_ws(#[trigger] s[j]),
        a == s.len() || !is_ws(s[a]),
    ensures
        crate::text::trim_start(s) == s.skip(a),
    decreases a,
{
    if a > 0 {
        assert(s.drop_first().skip(a - 1) == s.skip(a));
        assert forall|j: int| 0 <= j < a - 1 implies is_ws(#[trigger] s.drop_first()[j]) by {
            assert(s.drop_first()[j] == s[j + 1]);
        }
        lemma_trim_start_is_suffix(s.drop_first(), a - 1);
    } else {
        assert(s.skip(0) == s);
    }
}

/// What the RTC's `wakealarm` is given to ring `after` seconds from now: a relative alarm,
/// which does not need the wall clock to have been set, and never less than a second.
pub fn wakealarm_text(after_secs: u64) -> (r: String)
    ensures
        r@ == seq!['+'] + dec(if after_secs < 1 { 1nat } else { after_secs as nat }),
{
    let mut out: Vec<char> = Vec::new();
    out.push('+');
    push_dec(&mut out, if after_secs < 1 { 1 } else { after_secs });
    crate::text::string_of(&out)
}

} // verus!
