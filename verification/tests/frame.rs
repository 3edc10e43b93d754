//! A core's picture in the host's frame, and the joypad a core reads.

use slot::retro::frame::{
    blit_frame, frame_extent, input_state, pixel_format, PixelFormat, DEVICE_JOYPAD, JOYPAD_MASK,
    VIDEO_BYTES,
};

fn at(video: &[u8], y: usize, x: usize) -> [u8; 4] {
    let o = (y * 240 + x) * 4;
    [video[o], video[o + 1], video[o + 2], video[o + 3]]
}

#[test]
fn pixel_formats_are_named_by_libretros_numbers() {
    assert_eq!(pixel_format(1), Some(PixelFormat::Xrgb8888));
    assert_eq!(pixel_format(2), Some(PixelFormat::Rgb565));
    assert_eq!(pixel_format(0), None);
}

#[test]
fn a_full_xrgb_frame_is_copied_as_it_is() {
    let frame: Vec<u8> = (0..VIDEO_BYTES).map(|i| (i % 251) as u8).collect();
    let mut video = vec![7u8; VIDEO_BYTES];
    blit_frame(&mut video, PixelFormat::Xrgb8888, &frame, 240, 160, 240 * 4);
    assert_eq!(video, frame);
}

#[test]
fn rgb565_channels_widen_to_eight_bits() {
    // Four pixels, low byte first: white, red, green, blue.
    let row: Vec<u8> = [0xFFFFu16, 0xF800, 0x07E0, 0x001F, 0x0841]
        .iter()
        .flat_map(|p| p.to_le_bytes())
        .collect();
    let mut video = vec![0u8; VIDEO_BYTES];
    blit_frame(&mut video, PixelFormat::Rgb565, &row, 5, 1, row.len());
    // Five columns wide is centred: (240 - 5) / 2 = 117.
    assert_eq!(at(&video, 0, 117), [255, 255, 255, 0]);
    assert_eq!(at(&video, 0, 118), [0, 0, 255, 0]);
    assert_eq!(at(&video, 0, 119), [0, 255, 0, 0]);
    assert_eq!(at(&video, 0, 120), [255, 0, 0, 0]);
    // 0x0841: r = 1, g = 2, b = 1.
    assert_eq!(at(&video, 0, 121), [8, 8, 8, 0]);
    assert_eq!(at(&video, 0, 116), [0, 0, 0, 0]);
    assert_eq!(at(&video, 0, 122), [0, 0, 0, 0]);
}

#[test]
fn a_game_boy_frame_is_centred_and_raised() {
    let pitch = 160 * 2 + 6;
    let frame = vec![0xFFu8; pitch * 144];
    let mut video = vec![9u8; VIDEO_BYTES];
    blit_frame(&mut video, PixelFormat::Rgb565, &frame, 160, 144, pitch);
    // Columns 40..200 and rows 4..148 hold the picture; the rest is untouched.
    assert_eq!(at(&video, 4, 40), [255, 255, 255, 0]);
    assert_eq!(at(&video, 147, 199), [255, 255, 255, 0]);
    assert_eq!(at(&video, 3, 40), [9, 9, 9, 9]);
    assert_eq!(at(&video, 148, 40), [9, 9, 9, 9]);
    assert_eq!(at(&video, 4, 39), [9, 9, 9, 9]);
    assert_eq!(at(&video, 4, 200), [9, 9, 9, 9]);
}

#[test]
fn a_larger_frame_is_cropped() {
    let pitch = 300 * 4;
    let frame = vec![1u8; pitch * 200];
    let mut video = vec![0u8; VIDEO_BYTES];
    blit_frame(&mut video, PixelFormat::Xrgb8888, &frame, 300, 200, pitch);
    assert!(video.iter().all(|&b| b == 1));
}

#[test]
fn the_copy_reads_only_the_kept_rows_and_columns() {
    assert_eq!(frame_extent(PixelFormat::Rgb565, 160, 144, 512), Some(143 * 512 + 320));
    assert_eq!(frame_extent(PixelFormat::Xrgb8888, 300, 200, 1200), Some(159 * 1200 + 960));
    assert_eq!(frame_extent(PixelFormat::Xrgb8888, 240, 0, 960), Some(0));
    assert_eq!(frame_extent(PixelFormat::Xrgb8888, 240, 160, usize::MAX), None);
}

#[test]
fn the_joypad_reads_one_button_or_all_of_them() {
    let input = 0b1000_0000_1001u16;
    assert_eq!(input_state(input, 0, DEVICE_JOYPAD, 0), 1);
    assert_eq!(input_state(input, 0, DEVICE_JOYPAD, 1), 0);
    assert_eq!(input_state(input, 0, DEVICE_JOYPAD, 3), 1);
    assert_eq!(input_state(input, 0, DEVICE_JOYPAD, 11), 1);
    assert_eq!(input_state(input, 0, DEVICE_JOYPAD, JOYPAD_MASK), input as i16);
    assert_eq!(input_state(input, 0, DEVICE_JOYPAD, 16), 0);
    assert_eq!(input_state(input, 1, DEVICE_JOYPAD, 0), 0);
    assert_eq!(input_state(input, 0, 2, 0), 0);
}
