//! What the framebuffer driver says about the panel.

use slot::gfx::{egl_error, panel_hint, panel_mode, panel_size, GfxError, FALLBACK_PANEL};

#[test]
fn the_mode_line_gives_the_scanned_out_size() {
    assert_eq!(panel_mode("U:640x480p-60\n"), Some((640, 480)));
    assert_eq!(panel_mode("640x480p-60"), Some((640, 480)));
    assert_eq!(panel_mode("S:a:b: 720x720p-60\nU:1x1p-60\n"), Some((720, 720)));
    assert_eq!(panel_mode(""), None);
    assert_eq!(panel_mode("U:0x480p-60"), None);
    assert_eq!(panel_mode("U:640p-60"), None);
    assert_eq!(panel_mode("U:640x"), None);
}

#[test]
fn the_virtual_size_is_width_comma_height() {
    assert_eq!(panel_size("640,960\n"), Some((640, 960)));
    assert_eq!(panel_size(" 640 , 480 "), Some((640, 480)));
    assert_eq!(panel_size("640x480"), None);
    assert_eq!(panel_size("0,480"), None);
}

#[test]
fn a_refusal_with_nothing_flagged_is_not_printed_as_an_error_number() {
    let GfxError::Context(m) = egl_error("eglMakeCurrent", 0x3000);
    assert_eq!(m, "eglMakeCurrent: refused, egl flagged nothing");
    let GfxError::Context(m) = egl_error("eglInitialize", 0x3001);
    assert_eq!(m, "eglInitialize: egl error 0x3001");
    let GfxError::Context(m) = egl_error("x", -1);
    assert_eq!(m, "x: egl error 0xffffffff");
}

#[test]
fn the_panel_hint_prefers_the_mode_in_use_then_the_modes_then_the_allocation() {
    assert_eq!(panel_hint(Some("U:640x480p-60\n"), Some("U:320x240p-60\n"), Some("1,1")), (640, 480));
    assert_eq!(panel_hint(Some(""), Some("U:320x240p-60\n"), Some("1,1")), (320, 240));
    assert_eq!(panel_hint(None, None, Some("640,960\n")), (640, 960));
    assert_eq!(panel_hint(None, Some("garbage"), None), FALLBACK_PANEL);
    assert_eq!(FALLBACK_PANEL, (720, 480));
}
