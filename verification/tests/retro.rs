//! The joypad bits, the link queues and the mock core.

use slot::retro::link::{Link, LinkChannel, LoopbackLink};
use slot::retro::mock::{MockCore, SRAM_LEN, VIDEO_LEN};
use slot::retro::{ButtonMask, CoreError};

#[test]
fn the_joypad_bits_are_libretros_order() {
    assert_eq!(ButtonMask::B, 1);
    assert_eq!(ButtonMask::A, 1 << 8);
    assert_eq!(ButtonMask::R, 1 << 11);
    assert_eq!(ButtonMask::default(), ButtonMask(0));
}

#[test]
fn loopback_hands_back_what_was_sent_in_order() {
    let mut l = LoopbackLink::default();
    assert_eq!(l.try_recv(), None);
    l.send(0, &[1, 2]);
    l.send(1, &[3]);
    assert_eq!(l.try_recv(), Some(vec![1, 2]));
    assert_eq!(l.try_recv(), Some(vec![3]));
    assert_eq!(l.try_recv(), None);
    assert!(!l.is_closed());
}

#[test]
fn a_link_keeps_each_direction_in_order_and_clear_empties_both() {
    let mut link = Link::new();
    assert!(!link.is_active());
    link.push_inbound(vec![1]);
    link.push_inbound(vec![2]);
    link.push_outbound(vec![9]);
    link.set_active(true);
    assert!(link.is_active());
    assert_eq!(link.take_inbound(), Some(vec![1]));
    link.clear();
    assert_eq!(link.take_inbound(), None);
    assert_eq!(link.take_outbound(), None);
    assert!(link.is_active(), "clearing the queues does not end the session");
}

#[test]
fn the_mock_picture_is_a_function_of_the_frame() {
    let mut core = MockCore::new();
    let v = core.video_xrgb8888();
    assert_eq!(v.len(), VIDEO_LEN);
    // pixel (x = 9, y = 159) of frame 0: blue stripe, full green, red 9
    let i = 4 * (240 * 159 + 9);
    assert_eq!(&v[i..i + 4], &[255, 255, 9, 0]);
    core.advance();
    let i = 4 * 5;
    assert_eq!(&core.video_xrgb8888()[i..i + 4], &[0, 0, 6, 0]);
}

#[test]
fn a_skipped_frame_leaves_the_last_picture() {
    let mut core = MockCore::new();
    let before = core.video_xrgb8888().to_vec();
    core.set_frame_skip(true);
    core.advance();
    assert_eq!(core.frame(), 1);
    assert_eq!(core.video_xrgb8888(), &before[..]);
}

#[test]
fn a_state_puts_the_mock_back_at_its_frame() {
    let mut core = MockCore::new();
    for _ in 0..5 {
        core.advance();
    }
    let state = core.serialize();
    assert_eq!(state, vec![5, 0, 0, 0, 0, 0, 0, 0]);
    let picture = core.video_xrgb8888().to_vec();
    core.advance();
    core.push_audio(&[1, 2]);
    core.unserialize(&state).unwrap();
    assert_eq!(core.frame(), 5);
    assert_eq!(core.video_xrgb8888(), &picture[..]);
    assert!(core.take_audio().is_empty());
    match core.unserialize(&[1, 2, 3]) {
        Err(CoreError::State(m)) => assert_eq!(m, "expected 8 bytes, got 3"),
        _ => panic!("a short state was accepted"),
    }
}

#[test]
fn save_ram_needs_a_cart_and_the_right_length() {
    let mut core = MockCore::new();
    assert!(core.save_ram().is_none());
    match core.load_save_ram(&[0; 4]) {
        Err(CoreError::State(m)) => assert_eq!(m, "no rom loaded"),
        _ => panic!("save ram was taken with no cart"),
    }
    core.load();
    assert_eq!(core.save_ram().map(|s| s.len()), Some(SRAM_LEN));
    match core.load_save_ram(&[0; 4]) {
        Err(CoreError::State(m)) => assert_eq!(m, "save ram is 8192 bytes, got 4"),
        _ => panic!("a short save was accepted"),
    }
    let data = vec![7u8; SRAM_LEN];
    core.load_save_ram(&data).unwrap();
    assert_eq!(core.save_ram(), Some(data));
}

#[test]
fn audio_is_handed_out_once() {
    let mut core = MockCore::new();
    core.push_audio(&[3, 3, -4, -4]);
    assert_eq!(core.take_audio(), vec![3, 3, -4, -4]);
    assert!(core.take_audio().is_empty());
}
