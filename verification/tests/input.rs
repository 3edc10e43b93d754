//! The gesture machine, from key edges to actions.

use slot::input::gesture::{Action, Gestures};
use slot::input::{Btn, RawEvent};

#[test]
fn a_plain_button_reaches_the_core_as_it_is_pressed() {
    let mut g = Gestures::new();
    assert_eq!(g.feed(RawEvent::Down(Btn::A), 0), vec![Action::GbaDown(Btn::A)]);
    assert_eq!(g.feed(RawEvent::Up(Btn::A), 10), vec![Action::GbaUp(Btn::A)]);
}

#[test]
fn the_lid_is_its_own_pair_of_actions() {
    let mut g = Gestures::new();
    assert_eq!(g.feed(RawEvent::Down(Btn::Lid), 0), vec![Action::LidClose]);
    assert_eq!(g.feed(RawEvent::Up(Btn::Lid), 5), vec![Action::LidOpen]);
}

#[test]
fn the_fast_forward_latch_is_off_until_asked_for() {
    let mut g = Gestures::new();
    assert!(!g.ff_latched());
    g.set_ff_latch(true);
    assert!(g.tick(0).is_empty());
}
