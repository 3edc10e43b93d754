//! The handheld's sysfs, decoded, and the lid in front of the panel.

use slot::power::device::{
    active_charge, axp_i2c_devnode, backlight_value, battery_of, charge_at, has_bit, is_axp,
    led_colour, led_mono_lit, lid_still_shut, motor_change, read_number, supply_kind,
    standby_step, udc_configured, wakealarm_text, StandbyEvent, StandbyStep, SupplyKind,
};
use slot::power::{Battery, Charge, LedState, LidPolicy, Platform, Power};

/// What `charge_at` makes of a battery whose `status` file holds `status` and a newline,
/// `None` being no file at all.
fn charge_of(status: Option<&str>) -> Charge {
    let text = status.map(|s| format!("{s}\n"));
    charge_at(text.as_deref())
}

#[test]
fn axp_i2c_devnode_reads_the_bus_out_of_the_sysfs_leaf() {
    assert_eq!(axp_i2c_devnode(Some("/sys/bus/i2c/devices/5-0034")), "/dev/i2c-5");
    assert_eq!(axp_i2c_devnode(None), "/dev/i2c-5", "the H700 fallback is bus 5");
}

#[test]
fn the_three_states_the_kernel_names_are_taken_at_face_value() {
    assert_eq!(charge_of(Some("Charging")), Charge::Charging);
    assert_eq!(charge_of(Some("Discharging")), Charge::Discharging);
    assert_eq!(charge_of(Some("Full")), Charge::Full);
}

#[test]
fn everything_else_is_unknown_rather_than_a_guess() {
    assert_eq!(charge_of(Some("Not charging")), Charge::Unknown);
    assert_eq!(charge_of(Some("Unknown")), Charge::Unknown);
    assert_eq!(charge_of(Some("")), Charge::Unknown);
    assert_eq!(charge_of(None), Charge::Unknown);
}

#[test]
fn only_the_edge_between_still_and_moving_reaches_the_motor() {
    assert_eq!(motor_change(0, false), None);
    assert_eq!(motor_change(1, false), Some(true));
    assert_eq!(motor_change(65_535, true), None);
    assert_eq!(motor_change(1, true), None);
    assert_eq!(motor_change(0, true), Some(false));
}

#[test]
fn h700_only_reports_active_charge_when_time_to_full_is_positive() {
    let online = read_number(Some("1\n")) == Some(1);
    let ttf = read_number(Some("1200\n")).unwrap_or(0);
    assert_eq!(active_charge(charge_of(Some("Charging")), Some(online), ttf), Charge::Charging);
    let ttf = read_number(Some("0\n")).unwrap_or(0);
    assert_eq!(active_charge(charge_of(Some("Charging")), Some(online), ttf), Charge::Unknown);
    assert_eq!(active_charge(Charge::Full, Some(true), 0), Charge::Full);
    assert_eq!(active_charge(Charge::Discharging, Some(false), 0), Charge::Discharging);
    assert_eq!(active_charge(Charge::Discharging, Some(true), 0), Charge::Unknown);
    assert_eq!(active_charge(Charge::Charging, None, 0), Charge::Charging);
}

#[test]
fn the_battery_gauge_reads_its_capacity_or_nothing() {
    assert_eq!(battery_of(Some("87\n"), Charge::Charging), Some(Battery { percent: 87, charge: Charge::Charging }));
    assert_eq!(battery_of(Some("not a number\n"), Charge::Unknown), None);
    assert_eq!(battery_of(None, Charge::Unknown), None);
    assert_eq!(battery_of(Some("250"), Charge::Full).map(|b| b.percent), Some(100));
}

#[test]
fn the_motor_is_found_by_capability_rather_than_by_position() {
    // FF_RUMBLE is bit 0x50, in the second word from the end of a two-word mask.
    assert!(!has_bit("0\n", 0x50));
    assert!(has_bit("107030000 0\n", 0x50));
    assert!(!has_bit("20000 0\n", 0x50));
    assert!(has_bit("1", 0));
    assert!(!has_bit("zz", 0));
    assert!(has_bit("  8000000000000000 ", 63));
}

#[test]
fn a_multicolour_led_gets_a_colour_per_state() {
    assert_eq!(led_colour(LedState::Off), (0, 0, 0));
    assert_eq!(led_colour(LedState::Running), (0, 255, 0));
    assert_eq!(led_colour(LedState::Charged), (0, 255, 0));
    assert_eq!(led_colour(LedState::Low), (255, 0, 0));
    assert_eq!(led_colour(LedState::Charging), (255, 140, 0));
}

#[test]
fn a_mono_led_is_on_except_when_the_battery_is_low() {
    assert!(led_mono_lit(LedState::Running));
    assert!(led_mono_lit(LedState::Charging));
    assert!(led_mono_lit(LedState::Charged));
    assert!(!led_mono_lit(LedState::Low));
    assert!(!led_mono_lit(LedState::Off));
}

/// Step 0 is the one the lid closes with, so it is the panel actually off.
#[test]
fn step_zero_is_dark() {
    assert_eq!(backlight_value(0, 255), 0);
    assert_eq!(backlight_value(0, 100), 0);
}

#[test]
fn the_top_step_is_the_whole_range() {
    assert_eq!(backlight_value(9, 255), 255);
    assert_eq!(backlight_value(16, 255), 255);
    assert_eq!(backlight_value(40, 100), 100);
    assert_eq!(backlight_value(1, 100), 11);
    assert_eq!(backlight_value(1, 5), 1, "a lit step is never dark on a narrow range");
    assert_eq!(backlight_value(5, 0), 0);
}

#[test]
fn the_backlight_steps_span_whatever_range_the_kernel_reports() {
    assert_eq!(backlight_value(9, 255), 255);
    let mid = backlight_value(5, 255);
    assert!((110..=160).contains(&mid), "step 5 of 9 wrote {mid} of 255");
    assert_eq!(backlight_value(0, 255), 0);
}

#[test]
fn the_pmic_is_known_by_its_address_and_its_name() {
    assert!(is_axp("5-0034", Some("  axp2202\n")));
    assert!(is_axp("5-34", Some("axp717")));
    assert!(!is_axp("5-0035", Some("axp2202")));
    assert!(!is_axp("5-0034", Some("rtc")));
    assert!(!is_axp("5-0034", None));
    assert!(!is_axp("i2c-5", Some("axp")));
}

#[test]
fn a_relative_rtc_alarm_is_armed_without_needing_a_valid_wall_clock() {
    assert_eq!(wakealarm_text(300), "+300");
    assert_eq!(wakealarm_text(0), "+1");
}

/// What reached a board.
#[derive(Default)]
struct Handed {
    backlight: Vec<u8>,
    rumble: Vec<u16>,
    led: Option<LedState>,
    clock: Option<i64>,
    powered_off: bool,
    restarting: bool,
}

/// A board that records what reached it where the test can read it back.
#[derive(Default)]
struct Recorder(std::rc::Rc<std::cell::RefCell<Handed>>);

impl Platform for Recorder {
    fn backlight(&self) -> Option<u8> {
        self.0.borrow().backlight.last().copied()
    }
    fn led(&self) -> Option<LedState> {
        self.0.borrow().led
    }
    fn rumble(&self) -> Option<u16> {
        self.0.borrow().rumble.last().copied()
    }
    fn clock(&self) -> Option<i64> {
        self.0.borrow().clock
    }
    fn powered_off(&self) -> bool {
        self.0.borrow().powered_off
    }
    fn restarting(&self) -> bool {
        self.0.borrow().restarting
    }
    fn set_backlight(&mut self, step: u8) {
        self.0.borrow_mut().backlight.push(step);
    }
    fn battery(&self) -> Option<Battery> {
        None
    }
    fn charge(&self) -> Charge {
        Charge::Unknown
    }
    fn set_led(&mut self, state: LedState) {
        self.0.borrow_mut().led = Some(state);
    }
    fn poweroff(&mut self) {
        self.0.borrow_mut().powered_off = true;
    }
    fn restart(&mut self) {
        self.0.borrow_mut().restarting = true;
    }
    fn root(&self) -> &str {
        "/mnt/sdcard"
    }
    fn now(&self) -> i64 {
        0
    }
    fn set_clock(&mut self, secs: i64) {
        self.0.borrow_mut().clock = Some(secs);
    }
    fn set_rumble(&mut self, strength: u16) {
        self.0.borrow_mut().rumble.push(strength);
    }
}

#[test]
fn a_level_set_with_the_lid_shut_waits_for_the_lid_to_open() {
    let mut p = Power::new(Recorder::default(), std::time::Duration::from_secs(300));
    assert_eq!(p.set_backlight(7), Some(7));
    p.on_close();
    p.on_close();
    assert_eq!(p.set_backlight(11), None);
    p.set_rumble(500);
    p.on_open();
    assert_eq!(p.timeout(), std::time::Duration::from_secs(300));
    assert_eq!(p.close_lid(), Some(0));
    assert_eq!(p.open_lid(), 11);
}

#[test]
fn power_supplies_are_told_apart_by_their_type() {
    assert_eq!(supply_kind(Some("Battery\n")), SupplyKind::Battery);
    assert_eq!(supply_kind(Some("USB")), SupplyKind::Charger);
    assert_eq!(supply_kind(Some(" USB_C\n")), SupplyKind::Charger);
    assert_eq!(supply_kind(Some("Mains\n")), SupplyKind::Charger);
    assert_eq!(supply_kind(Some("UPS\n")), SupplyKind::Other);
    assert_eq!(supply_kind(Some("battery\n")), SupplyKind::Other);
    assert_eq!(supply_kind(None), SupplyKind::Other);
}

#[test]
fn a_usb_controller_is_a_host_link_once_configured() {
    assert!(udc_configured(Some("configured\n")));
    assert!(!udc_configured(Some("not attached\n")));
    assert!(!udc_configured(None));
}

#[test]
fn the_lid_counts_as_shut_only_when_the_hall_sensor_reads_zero() {
    assert!(lid_still_shut(Some("0\n")));
    assert!(!lid_still_shut(Some("1\n")));
    assert!(!lid_still_shut(None));
}

#[test]
fn a_board_that_keeps_the_defaults_answers_no_and_its_readings_pass_through() {
    let mut p = Power::new(Recorder::default(), std::time::Duration::from_secs(300));
    assert!(!p.externally_powered());
    assert!(!p.usb_host());
    assert!(!p.suspend());
    assert!(!p.relink_adb());
    assert_eq!(p.battery(), None);
    assert_eq!(p.charge(), Charge::Unknown);
    assert_eq!(p.now(), 0);
}

#[test]
fn each_setter_reaches_only_its_own_output() {
    let board = Recorder::default();
    let handed = board.0.clone();
    let mut p = Power::new(board, std::time::Duration::from_secs(300));
    p.set_rumble(9);
    assert!(handed.borrow().backlight.is_empty());
    assert_eq!(handed.borrow().led, None);
    assert_eq!(handed.borrow().clock, None);
    p.set_backlight(4);
    assert_eq!(handed.borrow().rumble, vec![9]);
    assert_eq!(handed.borrow().backlight, vec![4]);
    p.on_close();
    p.on_open();
    assert_eq!(handed.borrow().backlight, vec![4, 0, 4]);
    assert_eq!(handed.borrow().rumble, vec![9]);
    assert!(!handed.borrow().powered_off && !handed.borrow().restarting);
}

#[test]
fn what_the_board_is_handed_follows_the_lid() {
    let board = Recorder::default();
    let handed = board.0.clone();
    let mut p = Power::new(board, std::time::Duration::from_secs(300));
    p.set_backlight(7);
    p.on_close();
    p.on_close();
    p.set_backlight(11);
    p.set_rumble(500);
    p.set_led(LedState::Charging);
    p.set_clock(1_700_000_000);
    assert_eq!(handed.borrow().backlight, vec![7, 0], "nothing reaches a shut panel");
    p.on_open();
    assert_eq!(handed.borrow().backlight, vec![7, 0, 11], "opening lights the last level set");
    assert_eq!(handed.borrow().rumble, vec![500]);
    assert_eq!(handed.borrow().led, Some(LedState::Charging));
    assert_eq!(handed.borrow().clock, Some(1_700_000_000));
    p.poweroff();
    p.restart();
    assert!(handed.borrow().powered_off && handed.borrow().restarting);
}

#[test]
fn standby_sleeps_in_rounds_until_the_lid_opens_or_the_window_runs_out() {
    assert_eq!(standby_step(StandbyEvent::Due { remaining_ms: 300_000 }), StandbyStep::Sleep);
    assert_eq!(standby_step(StandbyEvent::Due { remaining_ms: 0 }), StandbyStep::GiveUp);
    assert_eq!(standby_step(StandbyEvent::ArmFailed), StandbyStep::GiveUp);
    assert_eq!(standby_step(StandbyEvent::Slept { ok: true, lid_shut: true }), StandbyStep::Again);
    assert_eq!(standby_step(StandbyEvent::Slept { ok: true, lid_shut: false }), StandbyStep::Woke);
    assert_eq!(standby_step(StandbyEvent::Slept { ok: false, lid_shut: false }), StandbyStep::GiveUp);
}
