//! The gesture machine: raw key edges and the passage of time in, actions out.
//!
//! Its state is modelled by [`GestureModel`], and every transition by a spec function over
//! that model, one per gesture. `Gestures::feed` and `Gestures::tick` are proved to compute
//! exactly those transitions, and the laws at the end of the file are stated over them.
use super::{Btn, Millis, RawEvent};
use vstd::prelude::*;

verus! {

/// How long a held SELECT waits for a second key before conceding it was a plain press.
pub const SELECT_CHORD_MS: Millis = 600;

/// How long a delivered tap stays down.
pub const SELECT_TAP_MS: Millis = 50;

pub const MENU_TAP_MS: Millis = 250;

pub const MENU_DOUBLE_TAP_MS: Millis = 350;

pub const MENU_HOLD_MS: Millis = 1000;

pub const FF_DOUBLE_TAP_MS: Millis = 250;

/// How far apart the two volume keys may go down and still read as one gesture.
pub const MUTE_CHORD_MS: Millis = 200;

/// Well short of the PMIC's own six second cutoff.
pub const POWER_HOLD_MS: Millis = 1000;

/// How long a volume key is held before the level starts running, and how fast it runs.
pub const VOLUME_REPEAT_DELAY_MS: Millis = 400;

pub const VOLUME_REPEAT_MS: Millis = 120;

#[derive(Copy, Clone, PartialEq, Eq, Debug, Structural)]
pub enum Action {
    GbaDown(Btn),
    GbaUp(Btn),
    ShelfLeft,
    ShelfRight,
    Insert,
    Eject,
    Polaroids,
    SaveState,
    LoadState,
    RewindStart,
    RewindStop,
    FfStart,
    FfStop,
    BrightnessUp,
    BrightnessDown,
    BlueLightUp,
    BlueLightDown,
    VolumeUp,
    VolumeDown,
    /// The quick menu, off a tap of MENU.
    QuickMenu,
    /// The in-game menu, off SELECT+MENU.
    GameMenu,
    MuteToggle,
    /// The press of POWER itself, so the save state is flushed before a hold can reach the
    /// PMIC's own cutoff.
    PowerPress,
    /// A short press, delivered on release.
    PowerTap,
    /// The hold threshold, while the button is still down.
    PowerHold,
    /// Released after a hold: the graceful shutdown starts here.
    PowerOff,
    LidClose,
    LidOpen,
}

/// Where SELECT stands.
#[derive(Copy, Clone, PartialEq, Eq, Debug, Structural)]
pub enum Select {
    Idle,
    /// Held, chord still undecided.
    Pending(Millis),
    /// A chord fired, so this press never reaches the core.
    Consumed,
    /// Passed to the core and still physically held.
    Delivered,
    /// Passed to the core after a release; the core is owed the up edge, but not in the
    /// same batch as the down.
    ReleaseDue(Millis),
}

/// Everything the machine remembers.
pub struct GestureModel {
    pub select: Select,
    /// Chord buttons whose press fired a chord, so their release is swallowed too.
    pub chord_held: u8,
    pub menu_down_at: Option<Millis>,
    pub menu_last_tap: Option<Millis>,
    pub menu_eject_fired: bool,
    pub power_down_at: Option<Millis>,
    pub power_hold_fired: bool,
    pub vol_up_at: Option<Millis>,
    pub vol_down_at: Option<Millis>,
    pub vol_up_ramp: Option<Millis>,
    pub vol_down_ramp: Option<Millis>,
    pub mute_fired: bool,
    pub ff_on: bool,
    pub ff_latched: bool,
    pub ff_latching_press: bool,
    pub ff_latch_enabled: bool,
    pub r2_last_release: Option<Millis>,
    pub rewinding: bool,
}

pub struct Gestures {
    select: Select,
    chord_held: u8,
    menu_down_at: Option<Millis>,
    menu_last_tap: Option<Millis>,
    menu_eject_fired: bool,
    power_down_at: Option<Millis>,
    power_hold_fired: bool,
    vol_up_at: Option<Millis>,
    vol_down_at: Option<Millis>,
    vol_up_ramp: Option<Millis>,
    vol_down_ramp: Option<Millis>,
    mute_fired: bool,
    ff_on: bool,
    ff_latched: bool,
    ff_latching_press: bool,
    ff_latch_enabled: bool,
    r2_last_release: Option<Millis>,
    rewinding: bool,
}

impl View for Gestures {
    type V = GestureModel;

    closed spec fn view(&self) -> GestureModel {
        GestureModel {
            select: self.select,
            chord_held: self.chord_held,
            menu_down_at: self.menu_down_at,
            menu_last_tap: self.menu_last_tap,
            menu_eject_fired: self.menu_eject_fired,
            power_down_at: self.power_down_at,
            power_hold_fired: self.power_hold_fired,
            vol_up_at: self.vol_up_at,
            vol_down_at: self.vol_down_at,
            vol_up_ramp: self.vol_up_ramp,
            vol_down_ramp: self.vol_down_ramp,
            mute_fired: self.mute_fired,
            ff_on: self.ff_on,
            ff_latched: self.ff_latched,
            ff_latching_press: self.ff_latching_press,
            ff_latch_enabled: self.ff_latch_enabled,
            r2_last_release: self.r2_last_release,
            rewinding: self.rewinding,
        }
    }
}

// ---------------------------------------------------------------------------------------------
// The model
// ---------------------------------------------------------------------------------------------

/// `now.saturating_sub(then)`.
pub open spec fn since(now: Millis, then: Millis) -> int {
    if now >= then {
        now - then
    } else {
        0
    }
}

/// The machine before any key has moved: nothing held, fast-forward latching allowed.
pub open spec fn initial() -> GestureModel {
    GestureModel {
        select: Select::Idle,
        chord_held: 0,
        menu_down_at: None,
        menu_last_tap: None,
        menu_eject_fired: false,
        power_down_at: None,
        power_hold_fired: false,
        vol_up_at: None,
        vol_down_at: None,
        vol_up_ramp: None,
        vol_down_ramp: None,
        mute_fired: false,
        ff_on: false,
        ff_latched: false,
        ff_latching_press: false,
        ff_latch_enabled: true,
        r2_last_release: None,
        rewinding: false,
    }
}

/// The SELECT chords: the bit that remembers the button, and what it does.
pub open spec fn chord_of(b: Btn) -> Option<(u8, Action)> {
    match b {
        Btn::Up => Some((1u8, Action::BrightnessUp)),
        Btn::Down => Some((2u8, Action::BrightnessDown)),
        Btn::Left => Some((4u8, Action::BlueLightDown)),
        Btn::Right => Some((8u8, Action::BlueLightUp)),
        Btn::L1 => Some((16u8, Action::LoadState)),
        Btn::R1 => Some((32u8, Action::SaveState)),
        _ => None,
    }
}

/// The bit that remembers a chord button.
pub open spec fn chord_bit(b: Btn) -> u8 {
    match chord_of(b) {
        Some((bit, _)) => bit,
        None => 0,
    }
}

/// What a chord button does under SELECT.
pub open spec fn chord_action(b: Btn) -> Action {
    match chord_of(b) {
        Some((_, a)) => a,
        None => Action::GbaDown(b),
    }
}

/// Whether a volume key pressed at `down`, last stepped at `last`, owes a step at `now`: the
/// first repeat waits `VOLUME_REPEAT_DELAY_MS` after the press, later ones `VOLUME_REPEAT_MS`
/// after the one before.
pub open spec fn ramp_is_due(down: Option<Millis>, last: Option<Millis>, now: Millis) -> bool {
    match down {
        None => false,
        Some(d) => since(now, d) >= VOLUME_REPEAT_DELAY_MS && match last {
            None => true,
            Some(l) => since(now, l) >= VOLUME_REPEAT_MS,
        },
    }
}

/// Whether SELECT is being held with its chord window still open, or already spent on one.
pub open spec fn chording(s: Select) -> bool {
    s is Pending || s is Consumed
}

pub open spec fn one(a: Action) -> Seq<Action> {
    seq![a]
}

pub open spec fn none() -> Seq<Action> {
    Seq::empty()
}

pub open spec fn opt(b: bool, a: Action) -> Seq<Action> {
    if b {
        seq![a]
    } else {
        Seq::empty()
    }
}

/// What time passing does to SELECT: a press held past the chord window reaches the core,
/// and a delivered tap is released once it has been down long enough to be seen.
pub open spec fn select_tick(s: Select, now: Millis) -> (Select, Seq<Action>) {
    match s {
        Select::Pending(d) => if since(now, d) >= SELECT_CHORD_MS {
            (Select::Delivered, one(Action::GbaDown(Btn::Select)))
        } else {
            (s, none())
        },
        Select::ReleaseDue(d) => if since(now, d) >= SELECT_TAP_MS {
            (Select::Idle, one(Action::GbaUp(Btn::Select)))
        } else {
            (s, none())
        },
        _ => (s, none()),
    }
}

/// MENU has been held long enough to eject, and has not yet.
pub open spec fn eject_due(m: GestureModel, now: Millis) -> bool {
    match m.menu_down_at {
        Some(d) => !m.menu_eject_fired && since(now, d) >= MENU_HOLD_MS,
        None => false,
    }
}

/// POWER has been held long enough to arm the shutdown, and has not yet.
pub open spec fn hold_due(m: GestureModel, now: Millis) -> bool {
    match m.power_down_at {
        Some(d) => !m.power_hold_fired && since(now, d) >= POWER_HOLD_MS,
        None => false,
    }
}

/// Time passing with nothing pressed or released.
pub open spec fn tick_model(m: GestureModel, now: Millis) -> (GestureModel, Seq<Action>) {
    let (select, select_out) = select_tick(m.select, now);
    let eject = eject_due(m, now);
    let hold = hold_due(m, now);
    let up = !m.mute_fired && ramp_is_due(m.vol_up_at, m.vol_up_ramp, now);
    let down = !m.mute_fired && ramp_is_due(m.vol_down_at, m.vol_down_ramp, now);
    (
        GestureModel {
            select,
            menu_eject_fired: m.menu_eject_fired || eject,
            power_hold_fired: m.power_hold_fired || hold,
            vol_up_ramp: if up {
                Some(now)
            } else {
                m.vol_up_ramp
            },
            vol_down_ramp: if down {
                Some(now)
            } else {
                m.vol_down_ramp
            },
            ..m
        },
        select_out + opt(eject, Action::Eject) + opt(hold, Action::PowerHold) + opt(
            up,
            Action::VolumeUp,
        ) + opt(down, Action::VolumeDown),
    )
}

/// MENU going down: SELECT+MENU opens the game menu, a second press inside the double-tap
/// window opens the polaroids, and anything else arms a hold.
pub open spec fn menu_down_model(m: GestureModel, now: Millis) -> (GestureModel, Seq<Action>) {
    if chording(m.select) {
        (
            GestureModel {
                select: Select::Consumed,
                menu_down_at: None,
                menu_last_tap: None,
                ..m
            },
            one(Action::GameMenu),
        )
    } else if m.menu_last_tap is Some && since(now, m.menu_last_tap->0) <= MENU_DOUBLE_TAP_MS {
        (GestureModel { menu_last_tap: None, menu_down_at: None, ..m }, one(Action::Polaroids))
    } else {
        (GestureModel { menu_down_at: Some(now), menu_eject_fired: false, ..m }, none())
    }
}

/// MENU coming up: a short press that did not eject is a tap, and opens the quick menu.
pub open spec fn menu_up_model(m: GestureModel, now: Millis) -> (GestureModel, Seq<Action>) {
    match m.menu_down_at {
        None => (m, none()),
        Some(d) => {
            let tapped = !m.menu_eject_fired && since(now, d) < MENU_TAP_MS;
            (
                GestureModel {
                    menu_down_at: None,
                    menu_eject_fired: false,
                    menu_last_tap: if tapped {
                        Some(now)
                    } else {
                        None
                    },
                    ..m
                },
                opt(tapped, Action::QuickMenu),
            )
        },
    }
}

/// `now` and `then` are at most `MUTE_CHORD_MS` apart, either way round.
pub open spec fn close_enough(now: Millis, then: Millis) -> bool {
    if now >= then {
        now - then <= MUTE_CHORD_MS
    } else {
        then - now <= MUTE_CHORD_MS
    }
}

/// A volume key going down: always its own step, and the mute too when the other key went
/// down close enough to it.
pub open spec fn volume_press_model(m: GestureModel, up: bool, now: Millis) -> (
    GestureModel,
    Seq<Action>,
) {
    let other = if up {
        m.vol_down_at
    } else {
        m.vol_up_at
    };
    let paired = match other {
        Some(t) => close_enough(now, t),
        None => false,
    };
    let mute = paired && !m.mute_fired;
    let step = if up {
        Action::VolumeUp
    } else {
        Action::VolumeDown
    };
    let m1 = if up {
        GestureModel { vol_up_at: Some(now), vol_up_ramp: None, ..m }
    } else {
        GestureModel { vol_down_at: Some(now), vol_down_ramp: None, ..m }
    };
    (GestureModel { mute_fired: m.mute_fired || mute, ..m1 }, one(step) + opt(mute, Action::MuteToggle))
}

/// A volume key coming up ends its ramp, and the pair is spent once both are up.
pub open spec fn volume_release_model(m: GestureModel, up: bool) -> (GestureModel, Seq<Action>) {
    let m1 = if up {
        GestureModel { vol_up_at: None, vol_up_ramp: None, ..m }
    } else {
        GestureModel { vol_down_at: None, vol_down_ramp: None, ..m }
    };
    (
        GestureModel {
            mute_fired: if m1.vol_up_at is None && m1.vol_down_at is None {
                false
            } else {
                m1.mute_fired
            },
            ..m1
        },
        none(),
    )
}

/// Fast-forward stops, and its latch with it.
pub open spec fn ff_clear_model(m: GestureModel) -> (GestureModel, Seq<Action>) {
    let m1 = GestureModel { ff_latched: false, ff_latching_press: false, ..m };
    if !m.ff_on {
        (m1, none())
    } else {
        (GestureModel { ff_on: false, ..m1 }, one(Action::FfStop))
    }
}

/// L2 going down: rewind starts, and fast-forward stops under it.
pub open spec fn rewind_start_model(m: GestureModel) -> (GestureModel, Seq<Action>) {
    if m.rewinding {
        (m, none())
    } else {
        let (m1, out) = ff_clear_model(m);
        (GestureModel { rewinding: true, ..m1 }, out + one(Action::RewindStart))
    }
}

pub open spec fn rewind_stop_model(m: GestureModel) -> (GestureModel, Seq<Action>) {
    if !m.rewinding {
        (m, none())
    } else {
        (GestureModel { rewinding: false, ..m }, one(Action::RewindStop))
    }
}

/// R2 going down: fast-forward starts, and a second press inside the double-tap window of
/// the last release latches it.
pub open spec fn ff_down_model(m: GestureModel, now: Millis) -> (GestureModel, Seq<Action>) {
    if m.rewinding {
        (m, none())
    } else {
        let m1 = if m.ff_latched {
            GestureModel { ff_latching_press: false, ..m }
        } else if m.ff_latch_enabled {
            let double = match m.r2_last_release {
                Some(rel) => since(now, rel) <= FF_DOUBLE_TAP_MS,
                None => false,
            };
            GestureModel { ff_latched: double, ff_latching_press: double, ..m }
        } else {
            m
        };
        if m1.ff_on {
            (m1, none())
        } else {
            (GestureModel { ff_on: true, ..m1 }, one(Action::FfStart))
        }
    }
}

/// R2 coming up: the press that latched keeps fast-forward running; any other stops it.
pub open spec fn ff_up_model(m: GestureModel, now: Millis) -> (GestureModel, Seq<Action>) {
    let m1 = GestureModel { r2_last_release: Some(now), ..m };
    if m1.ff_latching_press {
        (GestureModel { ff_latching_press: false, ..m1 }, none())
    } else {
        ff_clear_model(m1)
    }
}

/// SELECT coming up: an undecided press is handed to the core now and released a tick
/// later; a delivered one is released now; a spent one says nothing.
pub open spec fn select_up_model(m: GestureModel, now: Millis) -> (GestureModel, Seq<Action>) {
    match m.select {
        Select::Pending(_) => (
            GestureModel { select: Select::ReleaseDue(now), ..m },
            one(Action::GbaDown(Btn::Select)),
        ),
        Select::Delivered => (
            GestureModel { select: Select::Idle, ..m },
            one(Action::GbaUp(Btn::Select)),
        ),
        _ => (GestureModel { select: Select::Idle, ..m }, none()),
    }
}

/// A key going down.
pub open spec fn down_model(m: GestureModel, b: Btn, now: Millis) -> (GestureModel, Seq<Action>) {
    match b {
        Btn::Select => (GestureModel { select: Select::Pending(now), ..m }, none()),
        Btn::Menu => menu_down_model(m, now),
        Btn::Power => (
            GestureModel { power_down_at: Some(now), power_hold_fired: false, ..m },
            one(Action::PowerPress),
        ),
        Btn::Lid => (m, one(Action::LidClose)),
        Btn::VolUp => volume_press_model(m, true, now),
        Btn::VolDown => volume_press_model(m, false, now),
        Btn::L2 => rewind_start_model(m),
        Btn::R2 => ff_down_model(m, now),
        _ => match chord_of(b) {
            Some((bit, action)) if chording(m.select) => (
                GestureModel { select: Select::Consumed, chord_held: m.chord_held | bit, ..m },
                one(action),
            ),
            _ => (m, one(Action::GbaDown(b))),
        },
    }
}

/// A key coming up.
pub open spec fn up_model(m: GestureModel, b: Btn, now: Millis) -> (GestureModel, Seq<Action>) {
    match b {
        Btn::Select => select_up_model(m, now),
        Btn::Menu => menu_up_model(m, now),
        Btn::Power => (
            GestureModel { power_down_at: None, power_hold_fired: false, ..m },
            one(
                if m.power_hold_fired {
                    Action::PowerOff
                } else {
                    Action::PowerTap
                },
            ),
        ),
        Btn::Lid => (m, one(Action::LidOpen)),
        Btn::VolUp => volume_release_model(m, true),
        Btn::VolDown => volume_release_model(m, false),
        Btn::L2 => rewind_stop_model(m),
        Btn::R2 => ff_up_model(m, now),
        _ => match chord_of(b) {
            Some((bit, _)) if m.chord_held & bit != 0 => (
                GestureModel { chord_held: m.chord_held & !bit, ..m },
                none(),
            ),
            _ => (m, one(Action::GbaUp(b))),
        },
    }
}

/// One raw edge.
pub open spec fn feed_model(m: GestureModel, ev: RawEvent, now: Millis) -> (
    GestureModel,
    Seq<Action>,
) {
    match ev {
        RawEvent::Down(b) => down_model(m, b, now),
        RawEvent::Up(b) => up_model(m, b, now),
    }
}

/// Turning fast-forward latching on or off. Off, a latch in place is dropped along with
/// fast-forward itself.
pub open spec fn set_ff_latch_model(m: GestureModel, enabled: bool) -> GestureModel {
    if enabled {
        GestureModel { ff_latch_enabled: true, ..m }
    } else {
        GestureModel {
            ff_latch_enabled: false,
            ff_latched: false,
            ff_latching_press: false,
            ff_on: false,
            r2_last_release: None,
            ..m
        }
    }
}

// ---------------------------------------------------------------------------------------------
// The machine
// ---------------------------------------------------------------------------------------------

fn tick_select(s: Select, now: Millis) -> (r: (Select, Vec<Action>))
    ensures
        (r.0, r.1@) == select_tick(s, now),
{
    match s {
        Select::Pending(d) => if now.saturating_sub(d) >= SELECT_CHORD_MS {
            (Select::Delivered, vec![Action::GbaDown(Btn::Select)])
        } else {
            (s, Vec::new())
        },
        Select::ReleaseDue(d) => if now.saturating_sub(d) >= SELECT_TAP_MS {
            (Select::Idle, vec![Action::GbaUp(Btn::Select)])
        } else {
            (s, Vec::new())
        },
        _ => (s, Vec::new()),
    }
}

fn push_if(out: &mut Vec<Action>, cond: bool, a: Action)
    ensures
        final(out)@ == old(out)@ + opt(cond, a),
{
    if cond {
        out.push(a);
    }
    assert(final(out)@ == old(out)@ + opt(cond, a));
}

fn chord(b: Btn) -> (r: Option<(u8, Action)>)
    ensures
        r == chord_of(b),
{
    match b {
        Btn::Up => Some((1, Action::BrightnessUp)),
        Btn::Down => Some((2, Action::BrightnessDown)),
        Btn::Left => Some((4, Action::BlueLightDown)),
        Btn::Right => Some((8, Action::BlueLightUp)),
        Btn::L1 => Some((16, Action::LoadState)),
        Btn::R1 => Some((32, Action::SaveState)),
        _ => None,
    }
}

/// Whether a held key owes a step at `now`.
fn ramp_due(down: Option<Millis>, last: Option<Millis>, now: Millis) -> (r: bool)
    ensures
        r == ramp_is_due(down, last, now),
{
    let d = match down {
        Some(d) => d,
        None => return false,
    };
    if now.saturating_sub(d) < VOLUME_REPEAT_DELAY_MS {
        return false;
    }
    match last {
        None => true,
        Some(l) => now.saturating_sub(l) >= VOLUME_REPEAT_MS,
    }
}

impl Default for Gestures {
    fn default() -> (g: Self)
        ensures
            g@ == initial(),
    {
        Gestures {
            select: Select::Idle,
            chord_held: 0,
            menu_down_at: None,
            menu_last_tap: None,
            menu_eject_fired: false,
            power_down_at: None,
            power_hold_fired: false,
            vol_up_at: None,
            vol_down_at: None,
            vol_up_ramp: None,
            vol_down_ramp: None,
            mute_fired: false,
            ff_on: false,
            ff_latched: false,
            ff_latching_press: false,
            ff_latch_enabled: true,
            r2_last_release: None,
            rewinding: false,
        }
    }
}

impl Gestures {
    pub fn new() -> (g: Self)
        ensures
            g@ == initial(),
    {
        Gestures::default()
    }

    /// Enable or disable double-tap latching on R2. Disabled, every press is momentary.
    pub fn set_ff_latch(&mut self, enabled: bool)
        ensures
            final(self)@ == set_ff_latch_model(old(self)@, enabled),
    {
        self.ff_latch_enabled = enabled;
        if !enabled {
            self.ff_latched = false;
            self.ff_latching_press = false;
            self.ff_on = false;
            self.r2_last_release = None;
        }
    }

    /// Whether fast forward is latched rather than held.
    pub fn ff_latched(&self) -> (r: bool)
        ensures
            r == self@.ff_latched,
    {
        self.ff_latched
    }

    pub fn feed(&mut self, ev: RawEvent, now: Millis) -> (out: Vec<Action>)
        ensures
            (final(self)@, out@) == feed_model(old(self)@, ev, now),
    {
        match ev {
            RawEvent::Down(b) => self.down(b, now),
            RawEvent::Up(b) => self.up(b, now),
        }
    }

    pub fn tick(&mut self, now: Millis) -> (out: Vec<Action>)
        ensures
            (final(self)@, out@) == tick_model(old(self)@, now),
    {
        let ghost m = self@;
        let (select, mut out) = tick_select(self.select, now);
        let eject = match self.menu_down_at {
            Some(d) => !self.menu_eject_fired && now.saturating_sub(d) >= MENU_HOLD_MS,
            None => false,
        };
        let hold = match self.power_down_at {
            Some(d) => !self.power_hold_fired && now.saturating_sub(d) >= POWER_HOLD_MS,
            None => false,
        };
        let up = !self.mute_fired && ramp_due(self.vol_up_at, self.vol_up_ramp, now);
        let down = !self.mute_fired && ramp_due(self.vol_down_at, self.vol_down_ramp, now);
        assert(eject == eject_due(m, now));
        assert(hold == hold_due(m, now));
        let ghost select_out = out@;
        push_if(&mut out, eject, Action::Eject);
        push_if(&mut out, hold, Action::PowerHold);
        push_if(&mut out, up, Action::VolumeUp);
        push_if(&mut out, down, Action::VolumeDown);
        assert(out@ == tick_model(m, now).1);
        *self = Gestures {
            select,
            menu_eject_fired: self.menu_eject_fired || eject,
            power_hold_fired: self.power_hold_fired || hold,
            vol_up_ramp: if up {
                Some(now)
            } else {
                self.vol_up_ramp
            },
            vol_down_ramp: if down {
                Some(now)
            } else {
                self.vol_down_ramp
            },
            ..*self
        };
        out
    }

    fn down(&mut self, b: Btn, now: Millis) -> (out: Vec<Action>)
        ensures
            (final(self)@, out@) == down_model(old(self)@, b, now),
    {
        match b {
            Btn::Select => {
                self.select = Select::Pending(now);
                Vec::new()
            },
            Btn::Menu => self.menu_down(now),
            Btn::Power => {
                self.power_down_at = Some(now);
                self.power_hold_fired = false;
                vec![Action::PowerPress]
            },
            Btn::Lid => vec![Action::LidClose],
            Btn::VolUp | Btn::VolDown => self.volume_press(b, now),
            Btn::L2 => self.rewind_start(),
            Btn::R2 => self.ff_down(now),
            _ => {
                let chording = match self.select {
                    Select::Pending(_) | Select::Consumed => true,
                    _ => false,
                };
                if chording {
                    if let Some((bit, action)) = chord(b) {
                        self.select = Select::Consumed;
                        self.chord_held = self.chord_held | bit;
                        return vec![action];
                    }
                }
                vec![Action::GbaDown(b)]
            },
        }
    }

    fn up(&mut self, b: Btn, now: Millis) -> (out: Vec<Action>)
        ensures
            (final(self)@, out@) == up_model(old(self)@, b, now),
    {
        match b {
            Btn::Select => self.select_up(now),
            Btn::Menu => self.menu_up(now),
            Btn::Power => self.power_up(),
            Btn::Lid => vec![Action::LidOpen],
            Btn::VolUp | Btn::VolDown => self.volume_release(b),
            Btn::L2 => self.rewind_stop(),
            Btn::R2 => self.ff_up(now),
            _ => {
                if let Some((bit, _)) = chord(b) {
                    if self.chord_held & bit != 0 {
                        self.chord_held = self.chord_held & !bit;
                        return Vec::new();
                    }
                }
                vec![Action::GbaUp(b)]
            },
        }
    }

    fn select_up(&mut self, now: Millis) -> (out: Vec<Action>)
        ensures
            (final(self)@, out@) == select_up_model(old(self)@, now),
    {
        let taken = self.select;
        self.select = Select::Idle;
        match taken {
            Select::Pending(_) => {
                self.select = Select::ReleaseDue(now);
                vec![Action::GbaDown(Btn::Select)]
            },
            Select::Delivered => vec![Action::GbaUp(Btn::Select)],
            _ => Vec::new(),
        }
    }

    /// SELECT+MENU is checked ahead of the double tap, so a chord that follows a recent tap
    /// opens the menu rather than the switcher.
    fn menu_down(&mut self, now: Millis) -> (out: Vec<Action>)
        ensures
            (final(self)@, out@) == menu_down_model(old(self)@, now),
    {
        let chording = match self.select {
            Select::Pending(_) | Select::Consumed => true,
            _ => false,
        };
        if chording {
            self.select = Select::Consumed;
            self.menu_down_at = None;
            self.menu_last_tap = None;
            return vec![Action::GameMenu];
        }
        if let Some(tap) = self.menu_last_tap {
            if now.saturating_sub(tap) <= MENU_DOUBLE_TAP_MS {
                self.menu_last_tap = None;
                self.menu_down_at = None;
                return vec![Action::Polaroids];
            }
        }
        self.menu_down_at = Some(now);
        self.menu_eject_fired = false;
        Vec::new()
    }

    fn menu_up(&mut self, now: Millis) -> (out: Vec<Action>)
        ensures
            (final(self)@, out@) == menu_up_model(old(self)@, now),
    {
        let d = match self.menu_down_at {
            Some(d) => d,
            None => return Vec::new(),
        };
        self.menu_down_at = None;
        let ejected = self.menu_eject_fired;
        self.menu_eject_fired = false;
        let tapped = !ejected && now.saturating_sub(d) < MENU_TAP_MS;
        self.menu_last_tap = if tapped {
            Some(now)
        } else {
            None
        };
        if tapped {
            vec![Action::QuickMenu]
        } else {
            Vec::new()
        }
    }

    /// A press that never reached the threshold is a lock; one that did is a shutdown.
    fn power_up(&mut self) -> (out: Vec<Action>)
        ensures
            (final(self)@, out@) == up_model(old(self)@, Btn::Power, 0),
    {
        let held = self.power_hold_fired;
        self.power_down_at = None;
        self.power_hold_fired = false;
        vec![
            if held {
                Action::PowerOff
            } else {
                Action::PowerTap
            },
        ]
    }

    /// The press always lands; the pair is recognised behind its own presses.
    fn volume_press(&mut self, b: Btn, now: Millis) -> (out: Vec<Action>)
        requires
            b == Btn::VolUp || b == Btn::VolDown,
        ensures
            (final(self)@, out@) == volume_press_model(old(self)@, b == Btn::VolUp, now),
    {
        let up = match b {
            Btn::VolUp => true,
            _ => false,
        };
        let other = if up {
            self.vol_down_at
        } else {
            self.vol_up_at
        };
        let action = if up {
            Action::VolumeUp
        } else {
            Action::VolumeDown
        };
        if up {
            self.vol_up_at = Some(now);
            self.vol_up_ramp = None;
        } else {
            self.vol_down_at = Some(now);
            self.vol_down_ramp = None;
        }
        let mut out = vec![action];
        let paired = match other {
            Some(t) => {
                let diff = if now >= t {
                    now - t
                } else {
                    t - now
                };
                diff <= MUTE_CHORD_MS
            },
            None => false,
        };
        if paired && !self.mute_fired {
            self.mute_fired = true;
            out.push(Action::MuteToggle);
        }
        out
    }

    fn volume_release(&mut self, b: Btn) -> (out: Vec<Action>)
        requires
            b == Btn::VolUp || b == Btn::VolDown,
        ensures
            (final(self)@, out@) == volume_release_model(old(self)@, b == Btn::VolUp),
    {
        match b {
            Btn::VolUp => {
                self.vol_up_at = None;
                self.vol_up_ramp = None;
            },
            _ => {
                self.vol_down_at = None;
                self.vol_down_ramp = None;
            },
        }
        if self.vol_up_at.is_none() && self.vol_down_at.is_none() {
            self.mute_fired = false;
        }
        Vec::new()
    }

    fn rewind_start(&mut self) -> (out: Vec<Action>)
        ensures
            (final(self)@, out@) == rewind_start_model(old(self)@),
    {
        if self.rewinding {
            return Vec::new();
        }
        let mut out = self.ff_clear();
        self.rewinding = true;
        out.push(Action::RewindStart);
        out
    }

    fn rewind_stop(&mut self) -> (out: Vec<Action>)
        ensures
            (final(self)@, out@) == rewind_stop_model(old(self)@),
    {
        if !self.rewinding {
            return Vec::new();
        }
        self.rewinding = false;
        vec![Action::RewindStop]
    }

    fn ff_down(&mut self, now: Millis) -> (out: Vec<Action>)
        ensures
            (final(self)@, out@) == ff_down_model(old(self)@, now),
    {
        if self.rewinding {
            return Vec::new();
        }
        if self.ff_latched {
            self.ff_latching_press = false;
        } else if self.ff_latch_enabled {
            let double = match self.r2_last_release {
                Some(rel) => now.saturating_sub(rel) <= FF_DOUBLE_TAP_MS,
                None => false,
            };
            self.ff_latched = double;
            self.ff_latching_press = double;
        }
        if self.ff_on {
            return Vec::new();
        }
        self.ff_on = true;
        vec![Action::FfStart]
    }

    fn ff_up(&mut self, now: Millis) -> (out: Vec<Action>)
        ensures
            (final(self)@, out@) == ff_up_model(old(self)@, now),
    {
        self.r2_last_release = Some(now);
        if self.ff_latching_press {
            self.ff_latching_press = false;
            return Vec::new();
        }
        self.ff_clear()
    }

    fn ff_clear(&mut self) -> (out: Vec<Action>)
        ensures
            (final(self)@, out@) == ff_clear_model(old(self)@),
    {
        self.ff_latched = false;
        self.ff_latching_press = false;
        if !self.ff_on {
            return Vec::new();
        }
        self.ff_on = false;
        vec![Action::FfStop]
    }
}

} // verus!

verus! {

// ---------------------------------------------------------------------------------------------
// Laws
// ---------------------------------------------------------------------------------------------

/// One step of the machine: a key edge, or (with `None`) time passing.
pub open spec fn step(m: GestureModel, ev: Option<RawEvent>, now: Millis) -> (
    GestureModel,
    Seq<Action>,
) {
    match ev {
        Some(e) => feed_model(m, e, now),
        None => tick_model(m, now),
    }
}

/// The machine after a run of steps, and everything it said along the way.
pub open spec fn run(m: GestureModel, evs: Seq<(Option<RawEvent>, Millis)>) -> (
    GestureModel,
    Seq<Action>,
)
    decreases evs.len(),
{
    if evs.len() == 0 {
        (m, Seq::empty())
    } else {
        let (m1, o1) = step(m, evs[0].0, evs[0].1);
        let (m2, o2) = run(m1, evs.drop_first());
        (m2, o1 + o2)
    }
}

proof fn lemma_chord_bits(x: u8, b: u8, c: u8)
    requires
        x & b != 0,
        b != c,
        b == 1 || b == 2 || b == 4 || b == 8 || b == 16 || b == 32,
        c == 1 || c == 2 || c == 4 || c == 8 || c == 16 || c == 32,
    ensures
        (x & !c) & b != 0,
        (x | c) & b != 0,
{
    assert((x & !c) & b != 0) by (bit_vector)
        requires
            x & b != 0,
            b != c,
            b == 1 || b == 2 || b == 4 || b == 8 || b == 16 || b == 32,
            c == 1 || c == 2 || c == 4 || c == 8 || c == 16 || c == 32,
    ;
    assert((x | c) & b != 0) by (bit_vector)
        requires
            x & b != 0,
    ;
}

proof fn lemma_chord_bit_kept(m: GestureModel, b: Btn, ev: Option<RawEvent>, now: Millis)
    requires
        chord_of(b) is Some,
        m.chord_held & chord_bit(b) != 0,
        ev != Some(RawEvent::Up(b)),
    ensures
        step(m, ev, now).0.chord_held & chord_bit(b) != 0,
{
    let bit = chord_bit(b);
    match ev {
        Some(RawEvent::Down(c)) => {
            if let Some((cbit, _)) = chord_of(c) {
                if c != b {
                    lemma_chord_bits(m.chord_held, bit, cbit);
                } else {
                    let x = m.chord_held;
                    assert((x | bit) & bit != 0) by (bit_vector)
                        requires
                            x & bit != 0,
                    ;
                }
            }
        },
        Some(RawEvent::Up(c)) => {
            if let Some((cbit, _)) = chord_of(c) {
                assert(c != b);
                lemma_chord_bits(m.chord_held, bit, cbit);
            }
        },
        None => {},
    }
}

/// A button that fired a SELECT chord never reaches the core: its press is the chord's own
/// action rather than a button, and its release, however much happened in between, says
/// nothing at all.
pub proof fn law_chord_release_is_swallowed(
    m: GestureModel,
    b: Btn,
    t: Millis,
    between: Seq<(Option<RawEvent>, Millis)>,
    t2: Millis,
)
    requires
        chording(m.select),
        chord_of(b) is Some,
        forall|i: int| 0 <= i < between.len() ==> between[i].0 != Some(RawEvent::Up(b)),
    ensures
        down_model(m, b, t).1 == one(chord_action(b)),
        up_model(run(down_model(m, b, t).0, between).0, b, t2).1 == none(),
    decreases between.len(),
{
    let bit = chord_bit(b);
    let m1 = down_model(m, b, t).0;
    let x = m.chord_held;
    assert((x | bit) & bit != 0) by (bit_vector)
        requires
            bit == 1 || bit == 2 || bit == 4 || bit == 8 || bit == 16 || bit == 32,
    ;
    lemma_chord_bit_survives(m1, b, between);
}

proof fn lemma_chord_bit_survives(m: GestureModel, b: Btn, evs: Seq<(Option<RawEvent>, Millis)>)
    requires
        chord_of(b) is Some,
        m.chord_held & chord_bit(b) != 0,
        forall|i: int| 0 <= i < evs.len() ==> evs[i].0 != Some(RawEvent::Up(b)),
    ensures
        run(m, evs).0.chord_held & chord_bit(b) != 0,
    decreases evs.len(),
{
    if evs.len() > 0 {
        lemma_chord_bit_kept(m, b, evs[0].0, evs[0].1);
        let m1 = step(m, evs[0].0, evs[0].1).0;
        let rest = evs.drop_first();
        assert forall|i: int| 0 <= i < rest.len() implies rest[i].0 != Some(RawEvent::Up(b)) by {
            assert(rest[i] == evs[i + 1]);
        }
        lemma_chord_bit_survives(m1, b, rest);
    }
}

/// Fast-forward starts and stops alternate: every step that emits `FfStart` turns it on
/// from off, every step that emits `FfStop` turns it off from on, and no step does both or
/// changes it silently. (Switching latching off with `set_ff_latch(false)` is the one thing
/// that drops fast-forward without a word, and is not a step.)
pub proof fn law_ff_edges_alternate(m: GestureModel, ev: Option<RawEvent>, now: Millis)
    ensures
        ({
            let (m2, o) = step(m, ev, now);
            &&& !(o.contains(Action::FfStart) && o.contains(Action::FfStop))
            &&& (o.contains(Action::FfStart) ==> !m.ff_on && m2.ff_on)
            &&& (o.contains(Action::FfStop) ==> m.ff_on && !m2.ff_on)
            &&& (!o.contains(Action::FfStart) && !o.contains(Action::FfStop) ==> m2.ff_on
                == m.ff_on)
        }),
{
    let (m2, o) = step(m, ev, now);
    match ev {
        None => {
            let (s, so) = select_tick(m.select, now);
            assert(!o.contains(Action::FfStart) && !o.contains(Action::FfStop)) by {
                if o.contains(Action::FfStart) || o.contains(Action::FfStop) {
                    let x = if o.contains(Action::FfStart) {
                        Action::FfStart
                    } else {
                        Action::FfStop
                    };
                    let i = choose|i: int| 0 <= i < o.len() && o[i] == x;
                    assert(false);
                }
            }
        },
        Some(RawEvent::Down(b)) => {
            if b == Btn::L2 && !m.rewinding {
                let (m1, o1) = ff_clear_model(m);
                assert(o == o1 + one(Action::RewindStart));
                if m.ff_on {
                    assert(o =~= seq![Action::FfStop, Action::RewindStart]);
                    assert(o[0] == Action::FfStop);
                    assert(!o.contains(Action::FfStart)) by {
                        if o.contains(Action::FfStart) {
                            let i = choose|i: int| 0 <= i < o.len() && o[i] == Action::FfStart;
                        }
                    }
                } else {
                    assert(o =~= seq![Action::RewindStart]);
                    assert(!o.contains(Action::FfStart) && !o.contains(Action::FfStop)) by {
                        if o.contains(Action::FfStart) || o.contains(Action::FfStop) {
                            let i = choose|i: int|
                                0 <= i < o.len() && (o[i] == Action::FfStart || o[i]
                                    == Action::FfStop);
                        }
                    }
                }
            } else if b == Btn::VolUp || b == Btn::VolDown {
                let up = b == Btn::VolUp;
                let paired = volume_press_model(m, up, now);
                assert(!o.contains(Action::FfStart) && !o.contains(Action::FfStop)) by {
                    if o.contains(Action::FfStart) || o.contains(Action::FfStop) {
                        let i = choose|i: int|
                            0 <= i < o.len() && (o[i] == Action::FfStart || o[i] == Action::FfStop);
                    }
                }
            } else {
                assert(o.len() <= 1);
                if o.len() == 1 {
                    assert(o.contains(o[0]));
                }
                assert(!(o.contains(Action::FfStart) && o.contains(Action::FfStop))) by {
                    if o.contains(Action::FfStart) && o.contains(Action::FfStop) {
                        let i = choose|i: int| 0 <= i < o.len() && o[i] == Action::FfStart;
                        let j = choose|j: int| 0 <= j < o.len() && o[j] == Action::FfStop;
                    }
                }
                if o.contains(Action::FfStart) || o.contains(Action::FfStop) {
                    let i = choose|i: int|
                        0 <= i < o.len() && (o[i] == Action::FfStart || o[i] == Action::FfStop);
                }
            }
        },
        Some(RawEvent::Up(b)) => {
            assert(o.len() <= 1);
            if o.contains(Action::FfStart) || o.contains(Action::FfStop) {
                let i = choose|i: int|
                    0 <= i < o.len() && (o[i] == Action::FfStart || o[i] == Action::FfStop);
            }
            assert(!(o.contains(Action::FfStart) && o.contains(Action::FfStop))) by {
                if o.contains(Action::FfStart) && o.contains(Action::FfStop) {
                    let i = choose|i: int| 0 <= i < o.len() && o[i] == Action::FfStart;
                    let j = choose|j: int| 0 <= j < o.len() && o[j] == Action::FfStop;
                }
            }
        },
    }
}

} // verus!

verus! {

proof fn lemma_contains_add(a: Seq<Action>, b: Seq<Action>, x: Action)
    ensures
        (a + b).contains(x) <==> a.contains(x) || b.contains(x),
{
    if (a + b).contains(x) {
        let i = choose|i: int| 0 <= i < (a + b).len() && (a + b)[i] == x;
        if i >= a.len() {
            assert(b[i - a.len()] == x);
        }
    }
    if a.contains(x) {
        let i = choose|i: int| 0 <= i < a.len() && a[i] == x;
        assert((a + b)[i] == x);
    }
    if b.contains(x) {
        let i = choose|i: int| 0 <= i < b.len() && b[i] == x;
        assert((a + b)[a.len() + i] == x);
    }
}

proof fn lemma_contains_one(a: Action, x: Action)
    ensures
        one(a).contains(x) <==> a == x,
        !none().contains(x),
        opt(true, a).contains(x) <==> a == x,
        !opt(false, a).contains(x),
{
    assert(one(a)[0] == a);
    assert(opt(true, a)[0] == a);
}

/// No step emits POWER's hold unless it is a tick with POWER down.
proof fn lemma_power_hold_step(m: GestureModel, ev: Option<RawEvent>, now: Millis)
    requires
        ev != Some(RawEvent::Down(Btn::Power)),
        ev != Some(RawEvent::Up(Btn::Power)),
        m.power_down_at is Some,
    ensures
        ({
            let (m2, o) = step(m, ev, now);
            &&& m2.power_down_at is Some
            &&& m2.power_hold_fired == (m.power_hold_fired || o.contains(Action::PowerHold))
        }),
{
    let (m2, o) = step(m, ev, now);
    lemma_contains_one(Action::PowerHold, Action::PowerHold);
    match ev {
        None => {
            let (s, so) = select_tick(m.select, now);
            let e = eject_due(m, now);
            let h = hold_due(m, now);
            let u = !m.mute_fired && ramp_is_due(m.vol_up_at, m.vol_up_ramp, now);
            let d = !m.mute_fired && ramp_is_due(m.vol_down_at, m.vol_down_ramp, now);
            lemma_contains_one(Action::Eject, Action::PowerHold);
            lemma_contains_one(Action::VolumeUp, Action::PowerHold);
            lemma_contains_one(Action::VolumeDown, Action::PowerHold);
            lemma_contains_one(Action::GbaDown(Btn::Select), Action::PowerHold);
            lemma_contains_one(Action::GbaUp(Btn::Select), Action::PowerHold);
            lemma_contains_add(so, opt(e, Action::Eject), Action::PowerHold);
            lemma_contains_add(so + opt(e, Action::Eject), opt(h, Action::PowerHold), Action::PowerHold);
            lemma_contains_add(
                so + opt(e, Action::Eject) + opt(h, Action::PowerHold),
                opt(u, Action::VolumeUp),
                Action::PowerHold,
            );
            lemma_contains_add(
                so + opt(e, Action::Eject) + opt(h, Action::PowerHold) + opt(u, Action::VolumeUp),
                opt(d, Action::VolumeDown),
                Action::PowerHold,
            );
        },
        Some(e) => {
            assert(!o.contains(Action::PowerHold)) by {
                if o.contains(Action::PowerHold) {
                    let i = choose|i: int| 0 <= i < o.len() && o[i] == Action::PowerHold;
                    if let RawEvent::Down(b) = e {
                        if b == Btn::L2 && !m.rewinding && m.ff_on {
                            assert(o =~= seq![Action::FfStop, Action::RewindStart]);
                        }
                    }
                }
            }
        },
    }
}

proof fn lemma_power_hold_run(m: GestureModel, evs: Seq<(Option<RawEvent>, Millis)>)
    requires
        m.power_down_at is Some,
        forall|i: int|
            0 <= i < evs.len() ==> evs[i].0 != Some(RawEvent::Down(Btn::Power)) && evs[i].0 != Some(
                RawEvent::Up(Btn::Power),
            ),
    ensures
        run(m, evs).0.power_down_at is Some,
        run(m, evs).0.power_hold_fired == (m.power_hold_fired || run(m, evs).1.contains(
            Action::PowerHold,
        )),
    decreases evs.len(),
{
    if evs.len() == 0 {
        lemma_contains_one(Action::PowerHold, Action::PowerHold);
    } else {
        lemma_power_hold_step(m, evs[0].0, evs[0].1);
        let (m1, o1) = step(m, evs[0].0, evs[0].1);
        let rest = evs.drop_first();
        assert forall|i: int| 0 <= i < rest.len() implies rest[i].0 != Some(
            RawEvent::Down(Btn::Power),
        ) && rest[i].0 != Some(RawEvent::Up(Btn::Power)) by {
            assert(rest[i] == evs[i + 1]);
        }
        lemma_power_hold_run(m1, rest);
        lemma_contains_add(o1, run(m1, rest).1, Action::PowerHold);
    }
}

/// POWER is one press and one release, whatever happens in between: the press flushes
/// (`PowerPress`), and the release is a shutdown (`PowerOff`) exactly when the hold was
/// announced (`PowerHold`) while it was down, and a lock (`PowerTap`) otherwise.
pub proof fn law_power_release_follows_the_hold(
    m: GestureModel,
    t: Millis,
    between: Seq<(Option<RawEvent>, Millis)>,
    t2: Millis,
)
    requires
        forall|i: int|
            0 <= i < between.len() ==> between[i].0 != Some(RawEvent::Down(Btn::Power))
                && between[i].0 != Some(RawEvent::Up(Btn::Power)),
    ensures
        ({
            let (m1, o1) = feed_model(m, RawEvent::Down(Btn::Power), t);
            let (m2, o2) = run(m1, between);
            let (m3, o3) = feed_model(m2, RawEvent::Up(Btn::Power), t2);
            &&& o1 == one(Action::PowerPress)
            &&& o3 == one(
                if o2.contains(Action::PowerHold) {
                    Action::PowerOff
                } else {
                    Action::PowerTap
                },
            )
            &&& m3.power_down_at is None
        }),
{
    let (m1, o1) = feed_model(m, RawEvent::Down(Btn::Power), t);
    lemma_power_hold_run(m1, between);
}

proof fn lemma_no_eject_step(m: GestureModel, ev: Option<RawEvent>, now: Millis)
    requires
        ev != Some(RawEvent::Down(Btn::Menu)),
        m.menu_down_at is None,
    ensures
        step(m, ev, now).0.menu_down_at is None,
        !step(m, ev, now).1.contains(Action::Eject),
{
    let (m2, o) = step(m, ev, now);
    match ev {
        None => {
            let (s, so) = select_tick(m.select, now);
            let h = hold_due(m, now);
            let u = !m.mute_fired && ramp_is_due(m.vol_up_at, m.vol_up_ramp, now);
            let d = !m.mute_fired && ramp_is_due(m.vol_down_at, m.vol_down_ramp, now);
            lemma_contains_one(Action::Eject, Action::Eject);
            lemma_contains_one(Action::PowerHold, Action::Eject);
            lemma_contains_one(Action::VolumeUp, Action::Eject);
            lemma_contains_one(Action::VolumeDown, Action::Eject);
            lemma_contains_one(Action::GbaDown(Btn::Select), Action::Eject);
            lemma_contains_one(Action::GbaUp(Btn::Select), Action::Eject);
            lemma_contains_add(so, opt(false, Action::Eject), Action::Eject);
            lemma_contains_add(so + opt(false, Action::Eject), opt(h, Action::PowerHold), Action::Eject);
            lemma_contains_add(
                so + opt(false, Action::Eject) + opt(h, Action::PowerHold),
                opt(u, Action::VolumeUp),
                Action::Eject,
            );
            lemma_contains_add(
                so + opt(false, Action::Eject) + opt(h, Action::PowerHold) + opt(u, Action::VolumeUp),
                opt(d, Action::VolumeDown),
                Action::Eject,
            );
        },
        Some(e) => {
            assert(!o.contains(Action::Eject)) by {
                if o.contains(Action::Eject) {
                    let i = choose|i: int| 0 <= i < o.len() && o[i] == Action::Eject;
                    if let RawEvent::Down(b) = e {
                        if b == Btn::L2 && !m.rewinding && m.ff_on {
                            assert(o =~= seq![Action::FfStop, Action::RewindStart]);
                        }
                    }
                }
            }
        },
    }
}

proof fn lemma_no_eject_run(m: GestureModel, evs: Seq<(Option<RawEvent>, Millis)>)
    requires
        m.menu_down_at is None,
        forall|i: int| 0 <= i < evs.len() ==> evs[i].0 != Some(RawEvent::Down(Btn::Menu)),
    ensures
        !run(m, evs).1.contains(Action::Eject),
    decreases evs.len(),
{
    if evs.len() > 0 {
        lemma_no_eject_step(m, evs[0].0, evs[0].1);
        let (m1, o1) = step(m, evs[0].0, evs[0].1);
        let rest = evs.drop_first();
        assert forall|i: int| 0 <= i < rest.len() implies rest[i].0 != Some(
            RawEvent::Down(Btn::Menu),
        ) by {
            assert(rest[i] == evs[i + 1]);
        }
        lemma_no_eject_run(m1, rest);
        lemma_contains_add(o1, run(m1, rest).1, Action::Eject);
    }
}

/// A double tap of MENU acts on its second press, so that press can never also become a
/// hold: after the polaroids open, nothing ejects the cart until MENU goes down again.
pub proof fn law_double_tap_never_ejects(
    m: GestureModel,
    t: Millis,
    between: Seq<(Option<RawEvent>, Millis)>,
)
    requires
        down_model(m, Btn::Menu, t).1 == one(Action::Polaroids),
        forall|i: int| 0 <= i < between.len() ==> between[i].0 != Some(RawEvent::Down(Btn::Menu)),
    ensures
        !run(down_model(m, Btn::Menu, t).0, between).1.contains(Action::Eject),
{
    let (m1, o1) = down_model(m, Btn::Menu, t);
    if chording(m.select) {
        assert(one(Action::GameMenu)[0] != one(Action::Polaroids)[0]);
    } else if m.menu_last_tap is Some && since(t, m.menu_last_tap->0) <= MENU_DOUBLE_TAP_MS {
    } else {
        assert(none().len() != one(Action::Polaroids).len());
    }
    lemma_no_eject_run(m1, between);
}


// ---------------------------------------------------------------------------------------------
// A hold fires once per press
// ---------------------------------------------------------------------------------------------

/// How many times `a` is in `o`.
pub open spec fn count_of(o: Seq<Action>, a: Action) -> nat
    decreases o.len(),
{
    if o.len() == 0 {
        0
    } else {
        count_of(o.drop_last(), a) + if o.last() == a {
            1nat
        } else {
            0nat
        }
    }
}

proof fn lemma_count_add(x: Seq<Action>, y: Seq<Action>, a: Action)
    ensures
        count_of(x + y, a) == count_of(x, a) + count_of(y, a),
    decreases y.len(),
{
    if y.len() > 0 {
        lemma_count_add(x, y.drop_last(), a);
        assert((x + y).drop_last() =~= x + y.drop_last());
        assert((x + y).last() == y.last());
    } else {
        assert(x + y =~= x);
    }
}

proof fn lemma_count_contains(o: Seq<Action>, a: Action)
    ensures
        count_of(o, a) > 0 <==> o.contains(a),
    decreases o.len(),
{
    if o.len() > 0 {
        lemma_count_contains(o.drop_last(), a);
        if o.drop_last().contains(a) {
            let i = choose|i: int| 0 <= i < o.drop_last().len() && o.drop_last()[i] == a;
            assert(o[i] == a);
        }
        if o.contains(a) {
            let i = choose|i: int| 0 <= i < o.len() && o[i] == a;
            if i < o.len() - 1 {
                assert(o.drop_last()[i] == a);
            }
        }
    }
}

proof fn lemma_count_opt(b: bool, x: Action, a: Action)
    ensures
        count_of(opt(b, x), a) == (if b && x == a {
            1nat
        } else {
            0nat
        }),
        count_of(one(x), a) == (if x == a {
            1nat
        } else {
            0nat
        }),
        count_of(none(), a) == 0,
{
    assert(one(x).drop_last() =~= Seq::<Action>::empty());
    assert(one(x).last() == x);
    assert(count_of(Seq::<Action>::empty(), a) == 0);
    assert(count_of(none(), a) == 0);
    assert(count_of(one(x), a) == count_of(one(x).drop_last(), a) + (if x == a {
        1nat
    } else {
        0nat
    }));
}

/// A tick at `now` finds POWER's hold due for a press made at `t`.
pub open spec fn hold_is_due(t: Millis, now: Millis) -> bool {
    since(now, t) >= POWER_HOLD_MS
}

/// Some tick in `evs` finds POWER's hold due for a press made at `t`.
pub open spec fn hold_due_in(evs: Seq<(Option<RawEvent>, Millis)>, t: Millis) -> bool {
    exists|i: int| 0 <= i < evs.len() && evs[i].0 is None && #[trigger] hold_is_due(t, evs[i].1)
}

proof fn lemma_hold_count_step(m: GestureModel, ev: Option<RawEvent>, now: Millis, t: Millis)
    requires
        ev != Some(RawEvent::Down(Btn::Power)),
        ev != Some(RawEvent::Up(Btn::Power)),
        m.power_down_at == Some(t),
    ensures
        ({
            let (m2, o) = step(m, ev, now);
            let due = ev is None && hold_is_due(t, now);
            &&& m2.power_down_at == Some(t)
            &&& m2.power_hold_fired == (m.power_hold_fired || due)
            &&& count_of(o, Action::PowerHold) == (if !m.power_hold_fired && due {
                1nat
            } else {
                0nat
            })
        }),
{
    lemma_power_hold_step(m, ev, now);
    let (m2, o) = step(m, ev, now);
    lemma_count_contains(o, Action::PowerHold);
    match ev {
        None => {
            let (sel, so) = select_tick(m.select, now);
            let e = eject_due(m, now);
            let h = hold_due(m, now);
            let u = !m.mute_fired && ramp_is_due(m.vol_up_at, m.vol_up_ramp, now);
            let d = !m.mute_fired && ramp_is_due(m.vol_down_at, m.vol_down_ramp, now);
            let a = Action::PowerHold;
            lemma_count_add(so, opt(e, Action::Eject), a);
            lemma_count_add(so + opt(e, Action::Eject), opt(h, a), a);
            lemma_count_add(so + opt(e, Action::Eject) + opt(h, a), opt(u, Action::VolumeUp), a);
            lemma_count_add(
                so + opt(e, Action::Eject) + opt(h, a) + opt(u, Action::VolumeUp),
                opt(d, Action::VolumeDown),
                a,
            );
            lemma_count_opt(e, Action::Eject, a);
            lemma_count_opt(h, a, a);
            lemma_count_opt(u, Action::VolumeUp, a);
            lemma_count_opt(d, Action::VolumeDown, a);
            lemma_count_opt(false, Action::GbaDown(Btn::Select), a);
            lemma_count_opt(false, Action::GbaUp(Btn::Select), a);
            assert(count_of(so, a) == 0);
        },
        Some(e) => {
            match e {
                RawEvent::Down(b) => {
                    assert(m2.power_down_at == Some(t));
                },
                RawEvent::Up(b) => {
                    assert(m2.power_down_at == Some(t));
                },
            }
        },
    }
}

proof fn lemma_hold_count_run(m: GestureModel, evs: Seq<(Option<RawEvent>, Millis)>, t: Millis)
    requires
        m.power_down_at == Some(t),
        forall|i: int|
            0 <= i < evs.len() ==> evs[i].0 != Some(RawEvent::Down(Btn::Power)) && evs[i].0 != Some(
                RawEvent::Up(Btn::Power),
            ),
    ensures
        run(m, evs).0.power_down_at == Some(t),
        run(m, evs).0.power_hold_fired == (m.power_hold_fired || hold_due_in(evs, t)),
        count_of(run(m, evs).1, Action::PowerHold) == (if !m.power_hold_fired && hold_due_in(evs, t) {
            1nat
        } else {
            0nat
        }),
    decreases evs.len(),
{
    if evs.len() == 0 {
        assert(count_of(Seq::<Action>::empty(), Action::PowerHold) == 0);
    } else {
        lemma_hold_count_step(m, evs[0].0, evs[0].1, t);
        let (m1, o1) = step(m, evs[0].0, evs[0].1);
        let rest = evs.drop_first();
        assert forall|i: int| 0 <= i < rest.len() implies rest[i].0 != Some(
            RawEvent::Down(Btn::Power),
        ) && rest[i].0 != Some(RawEvent::Up(Btn::Power)) by {
            assert(rest[i] == evs[i + 1]);
        }
        lemma_hold_count_run(m1, rest, t);
        lemma_count_add(o1, run(m1, rest).1, Action::PowerHold);
        let first = evs[0].0 is None && hold_is_due(t, evs[0].1);
        assert(hold_due_in(evs, t) == (first || hold_due_in(rest, t))) by {
            if hold_due_in(rest, t) {
                let i = choose|i: int| 0 <= i < rest.len() && rest[i].0 is None && #[trigger] hold_is_due(t, rest[i].1);
                assert(evs[i + 1] == rest[i]);
            }
            if hold_due_in(evs, t) && !first {
                let i = choose|i: int| 0 <= i < evs.len() && evs[i].0 is None && #[trigger] hold_is_due(t, evs[i].1);
                assert(i != 0);
                assert(rest[i - 1] == evs[i]);
            }
        }
    }
}

/// POWER's hold fires once per press, at the first tick a second after the press: over
/// the steps after POWER goes down at `t`, up to any point before it comes up, the hold has
/// been announced once if some tick by then found it due and not at all otherwise.
pub proof fn law_hold_fires_once_per_press(
    m: GestureModel,
    t: Millis,
    evs: Seq<(Option<RawEvent>, Millis)>,
    k: int,
)
    requires
        0 <= k <= evs.len(),
        forall|i: int|
            0 <= i < evs.len() ==> evs[i].0 != Some(RawEvent::Down(Btn::Power)) && evs[i].0 != Some(
                RawEvent::Up(Btn::Power),
            ),
    ensures
        ({
            let (m1, o1) = feed_model(m, RawEvent::Down(Btn::Power), t);
            count_of(run(m1, evs.take(k)).1, Action::PowerHold) == (if hold_due_in(evs.take(k), t) {
                1nat
            } else {
                0nat
            })
        }),
{
    let (m1, o1) = feed_model(m, RawEvent::Down(Btn::Power), t);
    let p = evs.take(k);
    assert forall|i: int| 0 <= i < p.len() implies p[i].0 != Some(RawEvent::Down(Btn::Power))
        && p[i].0 != Some(RawEvent::Up(Btn::Power)) by {
        assert(p[i] == evs[i]);
    }
    lemma_hold_count_run(m1, p, t);
}
/// No step emits MENU's eject unless it is a tick with MENU down.
proof fn lemma_eject_step(m: GestureModel, ev: Option<RawEvent>, now: Millis)
    requires
        ev != Some(RawEvent::Down(Btn::Menu)),
        ev != Some(RawEvent::Up(Btn::Menu)),
        m.menu_down_at is Some,
    ensures
        ({
            let (m2, o) = step(m, ev, now);
            &&& m2.menu_down_at is Some
            &&& m2.menu_eject_fired == (m.menu_eject_fired || o.contains(Action::Eject))
        }),
{
    let (m2, o) = step(m, ev, now);
    lemma_contains_one(Action::Eject, Action::Eject);
    match ev {
        None => {
            let (s, so) = select_tick(m.select, now);
            let e = eject_due(m, now);
            let h = hold_due(m, now);
            let u = !m.mute_fired && ramp_is_due(m.vol_up_at, m.vol_up_ramp, now);
            let d = !m.mute_fired && ramp_is_due(m.vol_down_at, m.vol_down_ramp, now);
            lemma_contains_one(Action::PowerHold, Action::Eject);
            lemma_contains_one(Action::VolumeUp, Action::Eject);
            lemma_contains_one(Action::VolumeDown, Action::Eject);
            lemma_contains_one(Action::GbaDown(Btn::Select), Action::Eject);
            lemma_contains_one(Action::GbaUp(Btn::Select), Action::Eject);
            lemma_contains_add(so, opt(e, Action::Eject), Action::Eject);
            lemma_contains_add(so + opt(e, Action::Eject), opt(h, Action::PowerHold), Action::Eject);
            lemma_contains_add(
                so + opt(e, Action::Eject) + opt(h, Action::PowerHold),
                opt(u, Action::VolumeUp),
                Action::Eject,
            );
            lemma_contains_add(
                so + opt(e, Action::Eject) + opt(h, Action::PowerHold) + opt(u, Action::VolumeUp),
                opt(d, Action::VolumeDown),
                Action::Eject,
            );
        },
        Some(e) => {
            assert(!o.contains(Action::Eject)) by {
                if o.contains(Action::Eject) {
                    let i = choose|i: int| 0 <= i < o.len() && o[i] == Action::Eject;
                    if let RawEvent::Down(b) = e {
                        if b == Btn::L2 && !m.rewinding && m.ff_on {
                            assert(o =~= seq![Action::FfStop, Action::RewindStart]);
                        }
                    }
                }
            }
        },
    }
}

/// A tick at `now` finds MENU's eject due for a press made at `t`.
pub open spec fn eject_is_due(t: Millis, now: Millis) -> bool {
    since(now, t) >= MENU_HOLD_MS
}

/// Some tick in `evs` finds MENU's eject due for a press made at `t`.
pub open spec fn eject_due_in(evs: Seq<(Option<RawEvent>, Millis)>, t: Millis) -> bool {
    exists|i: int| 0 <= i < evs.len() && evs[i].0 is None && #[trigger] eject_is_due(t, evs[i].1)
}

proof fn lemma_eject_count_step(m: GestureModel, ev: Option<RawEvent>, now: Millis, t: Millis)
    requires
        ev != Some(RawEvent::Down(Btn::Menu)),
        ev != Some(RawEvent::Up(Btn::Menu)),
        m.menu_down_at == Some(t),
    ensures
        ({
            let (m2, o) = step(m, ev, now);
            let due = ev is None && eject_is_due(t, now);
            &&& m2.menu_down_at == Some(t)
            &&& m2.menu_eject_fired == (m.menu_eject_fired || due)
            &&& count_of(o, Action::Eject) == (if !m.menu_eject_fired && due {
                1nat
            } else {
                0nat
            })
        }),
{
    lemma_eject_step(m, ev, now);
    let (m2, o) = step(m, ev, now);
    lemma_count_contains(o, Action::Eject);
    match ev {
        None => {
            let (sel, so) = select_tick(m.select, now);
            let e = eject_due(m, now);
            let h = hold_due(m, now);
            let u = !m.mute_fired && ramp_is_due(m.vol_up_at, m.vol_up_ramp, now);
            let d = !m.mute_fired && ramp_is_due(m.vol_down_at, m.vol_down_ramp, now);
            let a = Action::Eject;
            lemma_count_add(so, opt(e, Action::Eject), a);
            lemma_count_add(so + opt(e, Action::Eject), opt(h, Action::PowerHold), a);
            lemma_count_add(so + opt(e, Action::Eject) + opt(h, Action::PowerHold), opt(u, Action::VolumeUp), a);
            lemma_count_add(
                so + opt(e, Action::Eject) + opt(h, Action::PowerHold) + opt(u, Action::VolumeUp),
                opt(d, Action::VolumeDown),
                a,
            );
            lemma_count_opt(e, Action::Eject, a);
            lemma_count_opt(h, Action::PowerHold, a);
            lemma_count_opt(u, Action::VolumeUp, a);
            lemma_count_opt(d, Action::VolumeDown, a);
            lemma_count_opt(false, Action::GbaDown(Btn::Select), a);
            lemma_count_opt(false, Action::GbaUp(Btn::Select), a);
            assert(count_of(so, a) == 0);
        },
        Some(e) => {
            match e {
                RawEvent::Down(b) => {
                    assert(m2.menu_down_at == Some(t));
                },
                RawEvent::Up(b) => {
                    assert(m2.menu_down_at == Some(t));
                },
            }
        },
    }
}

proof fn lemma_eject_count_run(m: GestureModel, evs: Seq<(Option<RawEvent>, Millis)>, t: Millis)
    requires
        m.menu_down_at == Some(t),
        forall|i: int|
            0 <= i < evs.len() ==> evs[i].0 != Some(RawEvent::Down(Btn::Menu)) && evs[i].0 != Some(
                RawEvent::Up(Btn::Menu),
            ),
    ensures
        run(m, evs).0.menu_down_at == Some(t),
        run(m, evs).0.menu_eject_fired == (m.menu_eject_fired || eject_due_in(evs, t)),
        count_of(run(m, evs).1, Action::Eject) == (if !m.menu_eject_fired && eject_due_in(evs, t) {
            1nat
        } else {
            0nat
        }),
    decreases evs.len(),
{
    if evs.len() == 0 {
        assert(count_of(Seq::<Action>::empty(), Action::Eject) == 0);
    } else {
        lemma_eject_count_step(m, evs[0].0, evs[0].1, t);
        let (m1, o1) = step(m, evs[0].0, evs[0].1);
        let rest = evs.drop_first();
        assert forall|i: int| 0 <= i < rest.len() implies rest[i].0 != Some(
            RawEvent::Down(Btn::Menu),
        ) && rest[i].0 != Some(RawEvent::Up(Btn::Menu)) by {
            assert(rest[i] == evs[i + 1]);
        }
        lemma_eject_count_run(m1, rest, t);
        lemma_count_add(o1, run(m1, rest).1, Action::Eject);
        let first = evs[0].0 is None && eject_is_due(t, evs[0].1);
        assert(eject_due_in(evs, t) == (first || eject_due_in(rest, t))) by {
            if eject_due_in(rest, t) {
                let i = choose|i: int| 0 <= i < rest.len() && rest[i].0 is None && #[trigger] eject_is_due(t, rest[i].1);
                assert(evs[i + 1] == rest[i]);
            }
            if eject_due_in(evs, t) && !first {
                let i = choose|i: int| 0 <= i < evs.len() && evs[i].0 is None && #[trigger] eject_is_due(t, evs[i].1);
                assert(i != 0);
                assert(rest[i - 1] == evs[i]);
            }
        }
    }
}

/// MENU's eject fires once per press, at the first tick a second after the press that armed
/// it: over the steps after MENU goes down at `t` and arms a hold, up to any point before
/// it comes up, the eject has been sent once if some tick by then found it due and not at
/// all otherwise.
pub proof fn law_eject_fires_once_per_press(
    m: GestureModel,
    t: Millis,
    evs: Seq<(Option<RawEvent>, Millis)>,
    k: int,
)
    requires
        0 <= k <= evs.len(),
        feed_model(m, RawEvent::Down(Btn::Menu), t).0.menu_down_at is Some,
        forall|i: int|
            0 <= i < evs.len() ==> evs[i].0 != Some(RawEvent::Down(Btn::Menu)) && evs[i].0 != Some(
                RawEvent::Up(Btn::Menu),
            ),
    ensures
        ({
            let (m1, o1) = feed_model(m, RawEvent::Down(Btn::Menu), t);
            count_of(run(m1, evs.take(k)).1, Action::Eject) == (if eject_due_in(evs.take(k), t) {
                1nat
            } else {
                0nat
            })
        }),
{
    let (m1, o1) = feed_model(m, RawEvent::Down(Btn::Menu), t);
    let p = evs.take(k);
    assert forall|i: int| 0 <= i < p.len() implies p[i].0 != Some(RawEvent::Down(Btn::Menu))
        && p[i].0 != Some(RawEvent::Up(Btn::Menu)) by {
        assert(p[i] == evs[i]);
    }
    lemma_eject_count_run(m1, p, t);
}

// ---------------------------------------------------------------------------------------------
// Latching off
// ---------------------------------------------------------------------------------------------

/// Latching is off, and nothing is latched or latching.
pub open spec fn unlatched(m: GestureModel) -> bool {
    !m.ff_latch_enabled && !m.ff_latched && !m.ff_latching_press
}

proof fn lemma_unlatched_step(m: GestureModel, ev: Option<RawEvent>, now: Millis)
    requires
        unlatched(m),
    ensures
        unlatched(step(m, ev, now).0),
{
}

proof fn lemma_unlatched_run(m: GestureModel, evs: Seq<(Option<RawEvent>, Millis)>)
    requires
        unlatched(m),
    ensures
        unlatched(run(m, evs).0),
    decreases evs.len(),
{
    if evs.len() > 0 {
        lemma_unlatched_step(m, evs[0].0, evs[0].1);
        lemma_unlatched_run(step(m, evs[0].0, evs[0].1).0, evs.drop_first());
    }
}

/// With latching turned off, nothing latches until it is turned on again: whatever steps
/// follow, fast-forward is never latched, and every R2 release that finds it running stops
/// it (`FfStop`) however soon it follows the last, so each press is momentary.
pub proof fn law_unlatched_presses_are_momentary(
    m: GestureModel,
    evs: Seq<(Option<RawEvent>, Millis)>,
    now: Millis,
)
    ensures
        ({
            let m1 = run(set_ff_latch_model(m, false), evs).0;
            let (m2, o) = feed_model(m1, RawEvent::Up(Btn::R2), now);
            &&& !m1.ff_latched
            &&& !m2.ff_latched
            &&& !m2.ff_on
            &&& o == (if m1.ff_on {
                one(Action::FfStop)
            } else {
                none()
            })
        }),
{
    lemma_unlatched_run(set_ff_latch_model(m, false), evs);
}

proof fn lemma_opt_contains(c: bool, a: Action, x: Action)
    ensures
        opt(c, a).contains(x) <==> c && a == x,
{
    if c {
        assert(opt(c, a)[0] == a);
    }
}

/// Under SELECT, held with its chord window open or already spent on a chord, each chord
/// button does exactly its own thing: Up and Down step the brightness, Left and Right the
/// blue light, L1 loads the newest state and R1 writes a new one, and SELECT is spent, so it
/// never reaches the game. Without SELECT the same buttons go to the game as they are.
pub proof fn law_select_chords(m: GestureModel, t: Millis, b: Btn)
    ensures
        m.select is Pending || m.select is Consumed ==> {
            &&& feed_model(m, RawEvent::Down(Btn::Up), t).1 == seq![Action::BrightnessUp]
            &&& feed_model(m, RawEvent::Down(Btn::Down), t).1 == seq![Action::BrightnessDown]
            &&& feed_model(m, RawEvent::Down(Btn::Left), t).1 == seq![Action::BlueLightDown]
            &&& feed_model(m, RawEvent::Down(Btn::Right), t).1 == seq![Action::BlueLightUp]
            &&& feed_model(m, RawEvent::Down(Btn::L1), t).1 == seq![Action::LoadState]
            &&& feed_model(m, RawEvent::Down(Btn::R1), t).1 == seq![Action::SaveState]
            &&& (b == Btn::Up || b == Btn::Down || b == Btn::Left || b == Btn::Right || b == Btn::L1
                || b == Btn::R1) ==> feed_model(m, RawEvent::Down(b), t).0.select == Select::Consumed
        },
        !(m.select is Pending || m.select is Consumed) && (b == Btn::Up || b == Btn::Down || b
            == Btn::Left || b == Btn::Right || b == Btn::L1 || b == Btn::R1) ==> feed_model(
            m,
            RawEvent::Down(b),
            t,
        ).1 == seq![Action::GbaDown(b)],
{
}

/// Only SELECT+L1 loads a state and only SELECT+R1 writes one: no other edge, and no tick,
/// ever asks for either.
pub proof fn law_only_the_state_chords_touch_states(m: GestureModel, ev: RawEvent, t: Millis)
    ensures
        feed_model(m, ev, t).1.contains(Action::LoadState) ==> ev == RawEvent::Down(Btn::L1),
        feed_model(m, ev, t).1.contains(Action::SaveState) ==> ev == RawEvent::Down(Btn::R1),
        !tick_model(m, t).1.contains(Action::LoadState),
        !tick_model(m, t).1.contains(Action::SaveState),
{
    assert forall|x: Action| (x == Action::LoadState || x == Action::SaveState) implies {
        &&& (feed_model(m, ev, t).1.contains(x) ==> ev == RawEvent::Down(Btn::L1) || ev == RawEvent::Down(Btn::R1))
        &&& !tick_model(m, t).1.contains(x)
    } by {
        lemma_tick_contains(m, t, x);
        lemma_feed_contains(m, ev, t, x);
    }
    if feed_model(m, ev, t).1.contains(Action::LoadState) {
        lemma_feed_contains(m, ev, t, Action::LoadState);
    }
    if feed_model(m, ev, t).1.contains(Action::SaveState) {
        lemma_feed_contains(m, ev, t, Action::SaveState);
    }
}

/// What a tick can say: the SELECT edges, an eject, a power hold, and volume steps, each only
/// when its own key is held.
proof fn lemma_tick_contains(m: GestureModel, now: Millis, x: Action)
    ensures
        tick_model(m, now).1.contains(x) ==> {
            ||| x == Action::GbaDown(Btn::Select) || x == Action::GbaUp(Btn::Select)
            ||| x == Action::Eject
            ||| x == Action::PowerHold
            ||| (x == Action::VolumeUp && m.vol_up_at is Some)
            ||| (x == Action::VolumeDown && m.vol_down_at is Some)
        },
{
    let (sel, so) = select_tick(m.select, now);
    let eject = eject_due(m, now);
    let hold = hold_due(m, now);
    let up = !m.mute_fired && ramp_is_due(m.vol_up_at, m.vol_up_ramp, now);
    let down = !m.mute_fired && ramp_is_due(m.vol_down_at, m.vol_down_ramp, now);
    lemma_contains_add(so + opt(eject, Action::Eject) + opt(hold, Action::PowerHold) + opt(up, Action::VolumeUp), opt(down, Action::VolumeDown), x);
    lemma_contains_add(so + opt(eject, Action::Eject) + opt(hold, Action::PowerHold), opt(up, Action::VolumeUp), x);
    lemma_contains_add(so + opt(eject, Action::Eject), opt(hold, Action::PowerHold), x);
    lemma_contains_add(so, opt(eject, Action::Eject), x);
    lemma_opt_contains(eject, Action::Eject, x);
    lemma_opt_contains(hold, Action::PowerHold, x);
    lemma_opt_contains(up, Action::VolumeUp, x);
    lemma_opt_contains(down, Action::VolumeDown, x);
    if so.contains(x) {
        assert(so.len() == 1);
        assert(so[0] == x);
    }
}

/// A state action comes only from its own chord button going down.
proof fn lemma_feed_contains(m: GestureModel, ev: RawEvent, t: Millis, x: Action)
    requires
        x == Action::LoadState || x == Action::SaveState,
    ensures
        feed_model(m, ev, t).1.contains(x) ==> (x == Action::LoadState && ev == RawEvent::Down(Btn::L1))
            || (x == Action::SaveState && ev == RawEvent::Down(Btn::R1)),
{
    let o = feed_model(m, ev, t).1;
    if o.contains(x) {
        let k = choose|k: int| 0 <= k < o.len() && o[k] == x;
        match ev {
            RawEvent::Down(b) => {
                if b == Btn::VolUp || b == Btn::VolDown {
                    let up = b == Btn::VolUp;
                    let r = volume_press_model(m, up, t);
                    let step = if up { Action::VolumeUp } else { Action::VolumeDown };
                    let other = if up { m.vol_down_at } else { m.vol_up_at };
                    let paired = match other {
                        Some(u) => close_enough(t, u),
                        None => false,
                    };
                    let mute = paired && !m.mute_fired;
                    lemma_contains_add(one(step), opt(mute, Action::MuteToggle), x);
                    lemma_opt_contains(mute, Action::MuteToggle, x);
                    assert(one(step).contains(x) ==> one(step)[0] == x);
                    assert(o.contains(x));
                } else if b == Btn::L2 {
                    if !m.rewinding {
                        let (m1, out) = ff_clear_model(m);
                        lemma_contains_add(out, one(Action::RewindStart), x);
                        assert(out.contains(x) ==> out[0] == x);
                        assert(one(Action::RewindStart).contains(x) ==> one(Action::RewindStart)[0] == x);
                        assert(o.contains(x));
                    }
                } else {
                    assert(o.len() == 1);
                }
            },
            RawEvent::Up(b) => {
                if b == Btn::R2 {
                    let m1 = GestureModel { r2_last_release: Some(t), ..m };
                    if !m1.ff_latching_press {
                        assert(o == ff_clear_model(m1).1);
                    }
                }
                assert(o.len() <= 1);
                assert(o[k] == x);
            },
        }
    }
}

/// A SELECT tapped inside its chord window reaches the game as a press on release, and the
/// game is always told it was let go: the first tick `SELECT_TAP_MS` or more after the
/// release releases it, an earlier tick does not, and SELECT goes back to idle then and only
/// then. However SELECT stands, a tick takes it back to idle only with that release.
pub proof fn law_a_tapped_select_is_released_to_the_game(m: GestureModel, u: Millis, now: Millis)
    ensures
        m.select is Pending ==> {
            let (m1, o1) = feed_model(m, RawEvent::Up(Btn::Select), u);
            let (m2, o2) = tick_model(m1, now);
            &&& o1 == seq![Action::GbaDown(Btn::Select)]
            &&& m1.select == Select::ReleaseDue(u)
            &&& now >= u + SELECT_TAP_MS ==> o2.len() > 0 && o2[0] == Action::GbaUp(Btn::Select) && m2.select
                == Select::Idle
            &&& now < u + SELECT_TAP_MS ==> !o2.contains(Action::GbaUp(Btn::Select)) && m2.select
                == Select::ReleaseDue(u)
        },
        tick_model(m, now).0.select == Select::Idle && m.select != Select::Idle ==> tick_model(m, now).1.len() > 0
            && tick_model(m, now).1[0] == Action::GbaUp(Btn::Select),
{
    if m.select is Pending {
        let (m1, o1) = feed_model(m, RawEvent::Up(Btn::Select), u);
        lemma_tick_contains(m1, now, Action::GbaUp(Btn::Select));
        let (sel, so) = select_tick(m1.select, now);
        let eject = eject_due(m1, now);
        let hold = hold_due(m1, now);
        let up = !m1.mute_fired && ramp_is_due(m1.vol_up_at, m1.vol_up_ramp, now);
        let down = !m1.mute_fired && ramp_is_due(m1.vol_down_at, m1.vol_down_ramp, now);
        let x = Action::GbaUp(Btn::Select);
        lemma_contains_add(so + opt(eject, Action::Eject) + opt(hold, Action::PowerHold) + opt(up, Action::VolumeUp), opt(down, Action::VolumeDown), x);
        lemma_contains_add(so + opt(eject, Action::Eject) + opt(hold, Action::PowerHold), opt(up, Action::VolumeUp), x);
        lemma_contains_add(so + opt(eject, Action::Eject), opt(hold, Action::PowerHold), x);
        lemma_contains_add(so, opt(eject, Action::Eject), x);
        lemma_opt_contains(eject, Action::Eject, x);
        lemma_opt_contains(hold, Action::PowerHold, x);
        lemma_opt_contains(up, Action::VolumeUp, x);
        lemma_opt_contains(down, Action::VolumeDown, x);
    }
}

/// A volume key steps its own way: its press gives its own step first, then a mute only
/// when the other key went down with it; and a tick steps a key only while that key is held,
/// so a held VolUp repeats upwards once its delay has passed.
pub proof fn law_volume_keys_step_their_own_way(m: GestureModel, t: Millis, d: Millis)
    ensures
        feed_model(m, RawEvent::Down(Btn::VolUp), t).1 == seq![Action::VolumeUp] || feed_model(
            m,
            RawEvent::Down(Btn::VolUp),
            t,
        ).1 == seq![Action::VolumeUp, Action::MuteToggle],
        feed_model(m, RawEvent::Down(Btn::VolDown), t).1 == seq![Action::VolumeDown] || feed_model(
            m,
            RawEvent::Down(Btn::VolDown),
            t,
        ).1 == seq![Action::VolumeDown, Action::MuteToggle],
        m.vol_up_at is None ==> !tick_model(m, t).1.contains(Action::VolumeUp),
        m.vol_down_at is None ==> !tick_model(m, t).1.contains(Action::VolumeDown),
        !m.mute_fired && m.vol_up_at == Some(d) && m.vol_up_ramp is None && t >= d
            + VOLUME_REPEAT_DELAY_MS ==> tick_model(m, t).1.contains(Action::VolumeUp),
        !m.mute_fired && m.vol_down_at == Some(d) && m.vol_down_ramp is None && t >= d
            + VOLUME_REPEAT_DELAY_MS ==> tick_model(m, t).1.contains(Action::VolumeDown),
{
    lemma_tick_contains(m, t, Action::VolumeUp);
    lemma_tick_contains(m, t, Action::VolumeDown);
    let (sel, so) = select_tick(m.select, t);
    let eject = eject_due(m, t);
    let hold = hold_due(m, t);
    let up = !m.mute_fired && ramp_is_due(m.vol_up_at, m.vol_up_ramp, t);
    let down = !m.mute_fired && ramp_is_due(m.vol_down_at, m.vol_down_ramp, t);
    let a = so + opt(eject, Action::Eject) + opt(hold, Action::PowerHold);
    lemma_contains_add(a + opt(up, Action::VolumeUp), opt(down, Action::VolumeDown), Action::VolumeUp);
    lemma_contains_add(a + opt(up, Action::VolumeUp), opt(down, Action::VolumeDown), Action::VolumeDown);
    lemma_contains_add(a, opt(up, Action::VolumeUp), Action::VolumeUp);
    lemma_contains_add(a, opt(up, Action::VolumeUp), Action::VolumeDown);
    lemma_opt_contains(up, Action::VolumeUp, Action::VolumeUp);
    lemma_opt_contains(down, Action::VolumeDown, Action::VolumeDown);
}

/// What each key does on its own. The lid says it closed and opened; POWER announces its
/// press, and its release is a tap, or the shutdown after a hold. SELECT says nothing going
/// down, and a SELECT held past the chord window is handed to the game as a press. MENU under
/// SELECT opens the game menu, a second press soon after a tap opens the polaroids, and a
/// short press opens the quick menu on release. L2 starts the rewind, stopping fast-forward
/// first, and its release stops it; R2 starts fast-forward unless a rewind is running. A, B,
/// X, Y and START go to the game as they are.
pub proof fn law_keys_do_their_own_thing(m: GestureModel, t: Millis, b: Btn, d: Millis)
    ensures
        feed_model(m, RawEvent::Down(Btn::Lid), t).1 == seq![Action::LidClose],
        feed_model(m, RawEvent::Up(Btn::Lid), t).1 == seq![Action::LidOpen],
        feed_model(m, RawEvent::Down(Btn::Power), t).1 == seq![Action::PowerPress],
        feed_model(m, RawEvent::Up(Btn::Power), t).1 == (if m.power_hold_fired {
            seq![Action::PowerOff]
        } else {
            seq![Action::PowerTap]
        }),
        feed_model(m, RawEvent::Down(Btn::Select), t).1 == Seq::<Action>::empty(),
        feed_model(m, RawEvent::Down(Btn::Select), t).0.select == Select::Pending(t),
        m.select == Select::Pending(d) && t >= d + SELECT_CHORD_MS ==> tick_model(m, t).1.len() > 0
            && tick_model(m, t).1[0] == Action::GbaDown(Btn::Select) && tick_model(m, t).0.select
            == Select::Delivered,
        m.select == Select::Delivered ==> feed_model(m, RawEvent::Up(Btn::Select), t).1 == seq![
            Action::GbaUp(Btn::Select),
        ],
        m.select == Select::Consumed ==> feed_model(m, RawEvent::Up(Btn::Select), t).1 == Seq::<
            Action,
        >::empty(),
        (m.select is Pending || m.select is Consumed) ==> feed_model(m, RawEvent::Down(Btn::Menu), t).1
            == seq![Action::GameMenu],
        m.select is Idle && m.menu_last_tap == Some(d) && d <= t && t <= d + MENU_DOUBLE_TAP_MS
            ==> feed_model(m, RawEvent::Down(Btn::Menu), t).1 == seq![Action::Polaroids],
        m.menu_down_at == Some(d) && !m.menu_eject_fired && d <= t && t < d + MENU_TAP_MS
            ==> feed_model(m, RawEvent::Up(Btn::Menu), t).1 == seq![Action::QuickMenu],
        m.menu_down_at == Some(d) && t >= d + MENU_TAP_MS ==> feed_model(m, RawEvent::Up(Btn::Menu), t).1
            == Seq::<Action>::empty(),
        !m.rewinding ==> feed_model(m, RawEvent::Down(Btn::L2), t).1 == (if m.ff_on {
            seq![Action::FfStop, Action::RewindStart]
        } else {
            seq![Action::RewindStart]
        }),
        m.rewinding ==> feed_model(m, RawEvent::Up(Btn::L2), t).1 == seq![Action::RewindStop],
        !m.rewinding && !m.ff_on ==> feed_model(m, RawEvent::Down(Btn::R2), t).1 == seq![Action::FfStart],
        m.rewinding ==> feed_model(m, RawEvent::Down(Btn::R2), t).1 == Seq::<Action>::empty(),
        (b == Btn::A || b == Btn::B || b == Btn::X || b == Btn::Y || b == Btn::Start) ==> {
            &&& feed_model(m, RawEvent::Down(b), t).1 == seq![Action::GbaDown(b)]
            &&& feed_model(m, RawEvent::Up(b), t).1 == seq![Action::GbaUp(b)]
        },
{
    if !m.rewinding {
        let (m1, out) = ff_clear_model(m);
        assert(out + one(Action::RewindStart) =~= (if m.ff_on {
            seq![Action::FfStop, Action::RewindStart]
        } else {
            seq![Action::RewindStart]
        }));
    }
}
} // verus!
