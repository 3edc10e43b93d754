//! The handheld's power and panel: the battery gauge, the LED, the motor and the lid.
//! `Platform` is what a board provides; `Power` is the lid policy in front of it.
pub mod device;

use vstd::prelude::*;

verus! {

/// What the kernel's `status` attribute said, decoded. `Unknown` is a first-class answer
/// rather than an error: on this PMIC `current_now` already reads empty, so a standard
/// `power_supply` attribute being present is no promise that it is populated. Every
/// consumer has to make `Unknown` behave the way the frontend did before it could read
/// the charge state at all.
#[derive(Copy, Clone, PartialEq, Eq, Debug, Structural)]
pub enum Charge {
    Unknown,
    Discharging,
    Charging,
    Full,
}

/// One reading of the gauge. The two halves come from different files and, once the fast
/// tick is in, on different cadences, so they are carried together rather than fetched
/// separately: a consumer that asked for each in turn could act on a percent and a charge
/// state that never coexisted.
#[derive(Copy, Clone, PartialEq, Eq, Debug, Structural)]
pub struct Battery {
    pub percent: u8,
    pub charge: Charge,
}

/// What the device wants the LED to say, not how to say it. The mapping to colours or to a
/// single brightness belongs to the platform, which is the only thing that has seen the node.
#[derive(Copy, Clone, PartialEq, Eq, Debug, Structural)]
pub enum LedState {
    Off,
    Running,
    Low,
    Charging,
    Charged,
}

/// What a board provides. Its readings come from hardware, so nothing is promised of what
/// they return; a board that keeps a default answers no. What a board is handed is named
/// by the spec functions below, and every implementation, checked or not, owes the
/// `ensures` of its setters: after a call, the matching spec function says what the call
/// handed over, and the others say what they said before it. Suspending and relinking hand
/// over nothing, and leave every one of them as it was.
pub trait Platform {
    /// The step last handed to the panel, `None` before any.
    spec fn backlight(&self) -> Option<u8>;

    /// The LED state last asked for, `None` before any.
    spec fn led(&self) -> Option<LedState>;

    /// The motor strength last asked for, `None` before any.
    spec fn rumble(&self) -> Option<u16>;

    /// The seconds last written to the hardware clock, `None` before any.
    spec fn clock(&self) -> Option<i64>;

    /// Whether the board has been asked to cut the power.
    spec fn powered_off(&self) -> bool;

    /// Whether the board has been asked to restart.
    spec fn restarting(&self) -> bool;

    fn set_backlight(&mut self, step: u8)
        ensures
            final(self).backlight() == Some(step),
            final(self).led() == old(self).led(),
            final(self).rumble() == old(self).rumble(),
            final(self).clock() == old(self).clock(),
            final(self).powered_off() == old(self).powered_off(),
            final(self).restarting() == old(self).restarting(),
    ;

    /// The gauge and the charge state in one read. `None` where there is no gauge, and
    /// where the gauge will not parse.
    fn battery(&self) -> Option<Battery>;

    /// The charge state alone: the cheap half of `battery`, and the half that changes the
    /// instant a cable moves. `Unknown` where there is no gauge to ask.
    fn charge(&self) -> Charge;

    /// Physical input power, independent of whether a full battery is accepting charge.
    fn charger_present(&self) -> (r: bool)
        default_ensures
            !r,
    {
        false
    }

    /// A computer has enumerated the USB gadget. A wall charger is deliberately not this.
    fn usb_host(&self) -> (r: bool)
        default_ensures
            !r,
    {
        false
    }

    /// Best effort. A device with no LED node is a device that does not have one, which is
    /// not a failure.
    fn set_led(&mut self, state: LedState)
        ensures
            final(self).led() == Some(state),
            final(self).backlight() == old(self).backlight(),
            final(self).rumble() == old(self).rumble(),
            final(self).clock() == old(self).clock(),
            final(self).powered_off() == old(self).powered_off(),
            final(self).restarting() == old(self).restarting(),
    ;

    /// Cuts the power. On a device it does not come back.
    fn poweroff(&mut self)
        ensures
            final(self).powered_off(),
            final(self).backlight() == old(self).backlight(),
            final(self).led() == old(self).led(),
            final(self).rumble() == old(self).rumble(),
            final(self).clock() == old(self).clock(),
            final(self).restarting() == old(self).restarting(),
    ;

    /// The same teardown as a power off — busybox init runs its shutdown actions for a
    /// reboot too — so the GPU module is unloaded either way, which is the thing that stops
    /// this hardware hanging with the rails up. On a device it does not come back.
    fn restart(&mut self)
        ensures
            final(self).restarting(),
            final(self).backlight() == old(self).backlight(),
            final(self).led() == old(self).led(),
            final(self).rumble() == old(self).rumble(),
            final(self).clock() == old(self).clock(),
            final(self).powered_off() == old(self).powered_off(),
    ;

    /// The content root: the card's mount point on the device, `SLOT_ROOT` on the host.
    fn root(&self) -> &str;

    /// Seconds since the epoch, from the RTC on device and the system clock on the host.
    fn now(&self) -> i64;

    /// Persist to the hardware clock. The host stores an offset instead, so the setter is
    /// exercisable without touching the machine's clock.
    fn set_clock(&mut self, secs: i64)
        ensures
            final(self).clock() == Some(secs),
            final(self).backlight() == old(self).backlight(),
            final(self).led() == old(self).led(),
            final(self).rumble() == old(self).rumble(),
            final(self).powered_off() == old(self).powered_off(),
            final(self).restarting() == old(self).restarting(),
    ;

    /// 0 is off, `u16::MAX` is full. Strong and weak are one motor here; the caller has
    /// already taken the louder.
    fn set_rumble(&mut self, strength: u16)
        ensures
            final(self).rumble() == Some(strength),
            final(self).backlight() == old(self).backlight(),
            final(self).led() == old(self).led(),
            final(self).clock() == old(self).clock(),
            final(self).powered_off() == old(self).powered_off(),
            final(self).restarting() == old(self).restarting(),
    ;

    /// Suspend-to-RAM and return after wake. `false` means unsupported, failed, or the Super
    /// Standby window ran out with the lid still shut, so the caller can cut the rails.
    fn suspend(&mut self) -> (r: bool)
        ensures
            final(self).backlight() == old(self).backlight(),
            final(self).led() == old(self).led(),
            final(self).rumble() == old(self).rumble(),
            final(self).clock() == old(self).clock(),
            final(self).powered_off() == old(self).powered_off(),
            final(self).restarting() == old(self).restarting(),
        default_ensures
            !r,
    {
        false
    }

    /// Put the debug link back after the cable was pulled, and say whether there was anything
    /// to put back. `false` everywhere there is no USB gadget to rebind.
    fn relink_adb(&mut self) -> (r: bool)
        ensures
            final(self).backlight() == old(self).backlight(),
            final(self).led() == old(self).led(),
            final(self).rumble() == old(self).rumble(),
            final(self).clock() == old(self).clock(),
            final(self).powered_off() == old(self).powered_off(),
            final(self).restarting() == old(self).restarting(),
        default_ensures
            !r,
    {
        false
    }
}

/// Everything a board has been handed, as its spec functions name it: one value, so that a
/// contract can say which part of it a call changed and that the rest stayed put.
pub struct Outputs {
    pub backlight: Option<u8>,
    pub led: Option<LedState>,
    pub rumble: Option<u16>,
    pub clock: Option<i64>,
    pub powered_off: bool,
    pub restarting: bool,
}

pub open spec fn outputs<P: Platform>(p: P) -> Outputs {
    Outputs {
        backlight: p.backlight(),
        led: p.led(),
        rumble: p.rumble(),
        clock: p.clock(),
        powered_off: p.powered_off(),
        restarting: p.restarting(),
    }
}

/// Lid close and lid wake are one code path, parameterised.
///
/// The lid's dark wait becomes H700 Super Standby after five minutes: this board suspends
/// well, under 45 mA. Five more minutes in that state with the lid still shut cuts the
/// rails; resume.state was written when the panel went dark. Open the lid or press POWER
/// inside that window and you're back in the game. Holding POWER is still off.
pub trait LidPolicy {
    fn on_close(&mut self);

    fn on_open(&mut self);

    fn timeout(&self) -> std::time::Duration;
}

/// What the lid policy remembers: the level the panel goes back to, and whether the lid is
/// shut.
#[derive(Copy, Clone, PartialEq, Eq, Debug, Structural)]
pub struct Lid {
    pub level: u8,
    pub closed: bool,
}

/// A level is always remembered; it reaches the panel only while the lid is open.
pub open spec fn lid_set(l: Lid, step: u8) -> (Lid, Option<u8>) {
    (Lid { level: step, ..l }, if l.closed {
        None
    } else {
        Some(step)
    })
}

/// The first close darkens the panel; a bounce of the hall sensor does nothing.
pub open spec fn lid_close(l: Lid) -> (Lid, Option<u8>) {
    if l.closed {
        (l, None)
    } else {
        (Lid { closed: true, ..l }, Some(0u8))
    }
}

/// Opening lights the remembered level.
pub open spec fn lid_open(l: Lid) -> (Lid, u8) {
    (Lid { closed: false, ..l }, l.level)
}

/// The lid policy and the panel it acts on, which have to be one object because the policy
/// takes no arguments.
pub struct Power<P: Platform> {
    platform: P,
    /// What the panel goes back to on open. The platform has no getter, so remembering
    /// every step that passed through here is the only way to know.
    level: u8,
    closed: bool,
    timeout: std::time::Duration,
}

impl<P: Platform> View for Power<P> {
    type V = Lid;

    closed spec fn view(&self) -> Lid {
        Lid { level: self.level, closed: self.closed }
    }
}

impl<P: Platform> Power<P> {
    /// How long the lid's dark wait lasts; the one it was made with.
    pub closed spec fn spec_timeout(&self) -> std::time::Duration {
        self.timeout
    }

    /// The board this drives. What a board reads back is the board's: these methods hand on
    /// what its own method answered for it.
    pub closed spec fn platform(&self) -> P {
        self.platform
    }

    pub fn new(platform: P, timeout: std::time::Duration) -> (r: Self)
        ensures
            r.platform() == platform,
            r@ == (Lid { level: 0, closed: false }),
            r.spec_timeout() == timeout,
    {
        Power { platform, level: 0, closed: false, timeout }
    }

    /// A level set while the lid is shut is remembered rather than lit. The keyboard still
    /// reaches a dozing host, and a panel that comes on inside a closed clamshell is the
    /// one thing the doze exists to prevent. Returns the step handed to the panel, if any.
    pub fn set_backlight(&mut self, step: u8) -> (lit: Option<u8>)
        ensures
            (final(self)@, lit) == lid_set(old(self)@, step),
            !old(self)@.closed ==> outputs(final(self).platform()) == (Outputs {
                backlight: Some(step),
                ..outputs(old(self).platform())
            }),
            old(self)@.closed ==> final(self).platform() == old(self).platform(),
            final(self).spec_timeout() == old(self).spec_timeout(),
    {
        self.level = step;
        if !self.closed {
            self.platform.set_backlight(step);
            Some(step)
        } else {
            None
        }
    }

    pub fn battery(&self) -> (r: Option<Battery>)
        ensures
            call_ensures(P::battery, (&self.platform(),), r),
    {
        self.platform.battery()
    }

    pub fn charge(&self) -> (r: Charge)
        ensures
            call_ensures(P::charge, (&self.platform(),), r),
    {
        self.platform.charge()
    }

    pub fn externally_powered(&self) -> (r: bool)
        ensures
            call_ensures(P::charger_present, (&self.platform(),), r),
    {
        self.platform.charger_present()
    }

    pub fn usb_host(&self) -> (r: bool)
        ensures
            call_ensures(P::usb_host, (&self.platform(),), r),
    {
        self.platform.usb_host()
    }

    pub fn suspend(&mut self) -> (woke: bool)
        ensures
            outputs(final(self).platform()) == outputs(old(self).platform()),
            final(self)@ == old(self)@,
            final(self).spec_timeout() == old(self).spec_timeout(),
    {
        self.platform.suspend()
    }

    pub fn set_led(&mut self, state: LedState)
        ensures
            outputs(final(self).platform()) == (Outputs {
                led: Some(state),
                ..outputs(old(self).platform())
            }),
            final(self)@ == old(self)@,
            final(self).spec_timeout() == old(self).spec_timeout(),
    {
        self.platform.set_led(state)
    }

    /// Not gated on the lid the way the backlight is. Whatever stopped the motor for the
    /// doze has to be the thing that starts it again, or a cart resumes buzzing on wake.
    pub fn set_rumble(&mut self, strength: u16)
        ensures
            outputs(final(self).platform()) == (Outputs {
                rumble: Some(strength),
                ..outputs(old(self).platform())
            }),
            final(self)@ == old(self)@,
            final(self).spec_timeout() == old(self).spec_timeout(),
    {
        self.platform.set_rumble(strength);
    }

    /// Straight through: this is a cable coming back, which has nothing to do with the lid,
    /// the level or anything else this type arbitrates.
    pub fn relink_adb(&mut self) -> (relinked: bool)
        ensures
            outputs(final(self).platform()) == outputs(old(self).platform()),
            final(self)@ == old(self)@,
            final(self).spec_timeout() == old(self).spec_timeout(),
    {
        self.platform.relink_adb()
    }

    pub fn poweroff(&mut self)
        ensures
            outputs(final(self).platform()) == (Outputs {
                powered_off: true,
                ..outputs(old(self).platform())
            }),
            final(self)@ == old(self)@,
            final(self).spec_timeout() == old(self).spec_timeout(),
    {
        self.platform.poweroff()
    }

    pub fn restart(&mut self)
        ensures
            outputs(final(self).platform()) == (Outputs {
                restarting: true,
                ..outputs(old(self).platform())
            }),
            final(self)@ == old(self)@,
            final(self).spec_timeout() == old(self).spec_timeout(),
    {
        self.platform.restart()
    }

    pub fn now(&self) -> (r: i64)
        ensures
            call_ensures(P::now, (&self.platform(),), r),
    {
        self.platform.now()
    }

    pub fn set_clock(&mut self, secs: i64)
        ensures
            outputs(final(self).platform()) == (Outputs {
                clock: Some(secs),
                ..outputs(old(self).platform())
            }),
            final(self)@ == old(self)@,
            final(self).spec_timeout() == old(self).spec_timeout(),
    {
        self.platform.set_clock(secs);
    }

    /// The first close takes the panel dark; a second one, a bounce of the hall sensor,
    /// does nothing, so the dark panel is never taken for the level to restore. Returns the
    /// step handed to the panel, if any.
    pub fn close_lid(&mut self) -> (lit: Option<u8>)
        ensures
            (final(self)@, lit) == lid_close(old(self)@),
            !old(self)@.closed ==> outputs(final(self).platform()) == (Outputs {
                backlight: Some(0u8),
                ..outputs(old(self).platform())
            }),
            old(self)@.closed ==> final(self).platform() == old(self).platform(),
            final(self).spec_timeout() == old(self).spec_timeout(),
    {
        if self.closed {
            return None;
        }
        self.closed = true;
        self.platform.set_backlight(0);
        Some(0)
    }

    /// Opening lights the level last set, whatever happened while the lid was shut.
    /// Returns the step handed to the panel.
    pub fn open_lid(&mut self) -> (lit: u8)
        ensures
            (final(self)@, lit) == lid_open(old(self)@),
            outputs(final(self).platform()) == (Outputs {
                backlight: Some(old(self)@.level),
                ..outputs(old(self).platform())
            }),
            final(self).spec_timeout() == old(self).spec_timeout(),
    {
        self.closed = false;
        self.platform.set_backlight(self.level);
        self.level
    }
}

impl<P: Platform> LidPolicy for Power<P> {
    fn on_close(&mut self)
        ensures
            final(self)@ == lid_close(old(self)@).0,
            !old(self)@.closed ==> outputs(final(self).platform()) == (Outputs {
                backlight: Some(0u8),
                ..outputs(old(self).platform())
            }),
            old(self)@.closed ==> final(self).platform() == old(self).platform(),
    {
        self.close_lid();
    }

    fn on_open(&mut self)
        ensures
            final(self)@ == lid_open(old(self)@).0,
            outputs(final(self).platform()) == (Outputs {
                backlight: Some(old(self)@.level),
                ..outputs(old(self).platform())
            }),
    {
        self.open_lid();
    }

    fn timeout(&self) -> (r: std::time::Duration)
        ensures
            r == self.spec_timeout(),
    {
        self.timeout
    }
}

/// Whatever is set while the lid is shut, and however often the sensor bounces, nothing
/// reaches the panel until the lid opens, and opening lights the last level set.
pub proof fn law_shut_lid_remembers(l: Lid, steps: Seq<u8>, bounces: nat)
    requires
        l.closed,
    ensures
        ({
            let end = lid_after(l, steps, bounces);
            &&& end.closed
            &&& lid_open(end).1 == (if steps.len() > 0 {
                steps.last()
            } else {
                l.level
            })
        }),
        forall|i: int| 0 <= i < steps.len() ==> #[trigger] lid_set(lid_after(l, steps.take(i), 0), steps[i]).1 is None,
    decreases steps.len() + bounces,
{
    if bounces > 0 {
        law_shut_lid_remembers(l, steps, (bounces - 1) as nat);
    } else if steps.len() > 0 {
        law_shut_lid_remembers(l, steps.drop_last(), 0);
        assert forall|i: int| 0 <= i < steps.len() implies #[trigger] lid_set(lid_after(l, steps.take(i), 0), steps[i]).1 is None by {
            lemma_shut_stays_shut(l, steps.take(i));
        }
    } else {
        assert forall|i: int| 0 <= i < steps.len() implies #[trigger] lid_set(lid_after(l, steps.take(i), 0), steps[i]).1 is None by {}
    }
}

/// The lid after `steps` are set one by one and the sensor then reports `bounces` closes.
pub open spec fn lid_after(l: Lid, steps: Seq<u8>, bounces: nat) -> Lid
    decreases steps.len() + bounces,
{
    if bounces > 0 {
        lid_close(lid_after(l, steps, (bounces - 1) as nat)).0
    } else if steps.len() > 0 {
        lid_set(lid_after(l, steps.drop_last(), 0), steps.last()).0
    } else {
        l
    }
}

proof fn lemma_shut_stays_shut(l: Lid, steps: Seq<u8>)
    requires
        l.closed,
    ensures
        lid_after(l, steps, 0).closed,
    decreases steps.len(),
{
    if steps.len() > 0 {
        lemma_shut_stays_shut(l, steps.drop_last());
    }
}

/// Closing an open lid and opening it again puts back the level it had, and lights it.
pub proof fn law_close_then_open_restores(l: Lid)
    requires
        !l.closed,
    ensures
        lid_open(lid_close(l).0).0 == l,
        lid_open(lid_close(l).0).1 == l.level,
        lid_close(l).1 == Some(0u8),
{
}

} // verus!
