//! A core's picture, copied into the GBA-sized frame the host presents, and the joypad a
//! core reads back. A frame smaller than a GBA's is centred; a Game Boy's 160x144 frame is
//! then raised by four source pixels, which is twelve at the fixed 3x presentation.
use crate::retro::{GBA_H, GBA_W};
use vstd::prelude::*;

verus! {

/// `GBA_W * GBA_H * 4`: the XRGB8888 frame, byte order B, G, R, unused.
pub const VIDEO_BYTES: usize = 153600;

pub const PIXEL_FORMAT_XRGB8888: u32 = 1;

pub const PIXEL_FORMAT_RGB565: u32 = 2;

pub const DEVICE_JOYPAD: u32 = 1;

/// `RETRO_DEVICE_ID_JOYPAD_MASK`, a query for every button at once.
pub const JOYPAD_MASK: u32 = 256;

/// How a core lays out the pixels it hands over.
#[derive(Copy, Clone, PartialEq, Eq, Debug, Structural)]
pub enum PixelFormat {
    Xrgb8888,
    Rgb565,
}

pub open spec fn format_named(code: u32) -> Option<PixelFormat> {
    if code == PIXEL_FORMAT_XRGB8888 {
        Some(PixelFormat::Xrgb8888)
    } else if code == PIXEL_FORMAT_RGB565 {
        Some(PixelFormat::Rgb565)
    } else {
        None
    }
}

/// The format a core asks for by libretro's number, when the host can take it.
pub fn pixel_format(code: u32) -> (r: Option<PixelFormat>)
    ensures
        r == format_named(code),
{
    if code == PIXEL_FORMAT_XRGB8888 {
        Some(PixelFormat::Xrgb8888)
    } else if code == PIXEL_FORMAT_RGB565 {
        Some(PixelFormat::Rgb565)
    } else {
        None
    }
}

pub open spec fn bytes_per_pixel(f: PixelFormat) -> int {
    match f {
        PixelFormat::Xrgb8888 => 4,
        PixelFormat::Rgb565 => 2,
    }
}

/// The columns of a frame that are kept.
pub open spec fn kept_cols(width: u32) -> int {
    if width < GBA_W {
        width as int
    } else {
        GBA_W as int
    }
}

/// The rows of a frame that are kept.
pub open spec fn kept_rows(height: u32) -> int {
    if height < GBA_H {
        height as int
    } else {
        GBA_H as int
    }
}

/// The first column a frame lands in.
pub open spec fn left_of(width: u32) -> int {
    (GBA_W - kept_cols(width)) / 2
}

/// The first row a frame lands in.
pub open spec fn top_of(width: u32, height: u32) -> int {
    if width == 160 && height == 144 {
        4
    } else {
        0
    }
}

/// How far into a core's frame the copy reads: every kept row's kept pixels.
pub open spec fn frame_extent_of(f: PixelFormat, width: u32, height: u32, pitch: usize) -> int {
    if kept_rows(height) == 0 {
        0
    } else {
        (kept_rows(height) - 1) * pitch + kept_cols(width) * bytes_per_pixel(f)
    }
}

/// A five bit channel widened to eight, its top bits repeated below.
pub open spec fn widen5(c: int) -> int {
    c * 8 + c / 4
}

/// A six bit channel widened to eight.
pub open spec fn widen6(c: int) -> int {
    c * 4 + c / 16
}

/// Byte `k` (B, G, R, unused) of the pixel in column `x` of the row that starts at
/// `start` in a core's frame. An RGB565 pixel is two bytes, low byte first.
pub open spec fn pixel_byte(f: PixelFormat, frame: Seq<u8>, start: int, x: int, k: int) -> int {
    match f {
        PixelFormat::Xrgb8888 => frame[start + x * 4 + k] as int,
        PixelFormat::Rgb565 => {
            let lo = frame[start + x * 2] as int;
            let hi = frame[start + x * 2 + 1] as int;
            if k == 0 {
                widen5(lo % 32)
            } else if k == 1 {
                widen6((hi % 8) * 8 + lo / 32)
            } else if k == 2 {
                widen5(hi / 8)
            } else {
                0
            }
        },
    }
}

/// Byte `k` of the pixel at row `y`, column `x` of the host's frame.
pub open spec fn byte_at(video: Seq<u8>, y: int, x: int, k: int) -> u8 {
    video[(y * 240 + x) * 4 + k]
}

/// What the host's frame holds at row `y`, column `x`, byte `k` once a core's frame has
/// been copied over `old`.
pub open spec fn blitted(
    old: Seq<u8>,
    f: PixelFormat,
    frame: Seq<u8>,
    width: u32,
    height: u32,
    pitch: usize,
    y: int,
    x: int,
    k: int,
) -> int {
    let top = top_of(width, height);
    let left = left_of(width);
    if top <= y < top + kept_rows(height) && left <= x < left + kept_cols(width) {
        pixel_byte(f, frame, (y - top) * pitch, x - left, k)
    } else {
        byte_at(old, y, x, k) as int
    }
}

proof fn lemma_cell_index(y: int, x: int, k: int, y2: int, x2: int, k2: int)
    requires
        0 <= x < 240,
        0 <= x2 < 240,
        0 <= k < 4,
        0 <= k2 < 4,
    ensures
        (y * 240 + x) * 4 + k == (y2 * 240 + x2) * 4 + k2 ==> y == y2 && x == x2 && k == k2,
{
    if (y * 240 + x) * 4 + k == (y2 * 240 + x2) * 4 + k2 {
        assert(y * 240 + x == y2 * 240 + x2);
        assert(y == y2);
    }
}

/// How many bytes of a core's frame the copy reads, or `None` when that does not fit in
/// a `usize`.
pub fn frame_extent(f: PixelFormat, width: u32, height: u32, pitch: usize) -> (r: Option<usize>)
    ensures
        match r {
            Some(n) => n == frame_extent_of(f, width, height, pitch),
            None => frame_extent_of(f, width, height, pitch) > usize::MAX,
        },
{
    let cols: usize = if width < GBA_W { width as usize } else { GBA_W as usize };
    let rows: usize = if height < GBA_H { height as usize } else { GBA_H as usize };
    if rows == 0 {
        return Some(0);
    }
    let bpp: usize = match f {
        PixelFormat::Xrgb8888 => 4,
        PixelFormat::Rgb565 => 2,
    };
    match (rows - 1).checked_mul(pitch) {
        None => {
            proof {
                assert(0 <= cols * bpp) by (nonlinear_arith)
                    requires
                        cols <= 240,
                        bpp <= 4,
                ;
            }
            None
        },
        Some(skip) => skip.checked_add(cols * bpp),
    }
}

/// Copies a core's frame into the host's: the kept rows and columns land centred (a Game
/// Boy frame raised by four rows), converted from the core's format; the rest of the host's
/// frame is left as it was.
pub fn blit_frame(
    video: &mut Vec<u8>,
    f: PixelFormat,
    frame: &[u8],
    width: u32,
    height: u32,
    pitch: usize,
)
    requires
        old(video)@.len() == VIDEO_BYTES,
        frame_extent_of(f, width, height, pitch) <= frame@.len(),
    ensures
        final(video)@.len() == VIDEO_BYTES,
        forall|y: int, x: int, k: int|
            0 <= y < 160 && 0 <= x < 240 && 0 <= k < 4 ==> #[trigger] byte_at(final(video)@, y, x, k)
                == blitted(old(video)@, f, frame@, width, height, pitch, y, x, k),
{
    let ghost old_video = video@;
    let flen: usize = frame.len();
    let cols: usize = if width < GBA_W { width as usize } else { GBA_W as usize };
    let rows: usize = if height < GBA_H { height as usize } else { GBA_H as usize };
    let left: usize = (240 - cols) / 2;
    let top: usize = if width == 160 && height == 144 { 4 } else { 0 };
    assert(top + rows <= 160);
    assert(left + cols <= 240);
    let mut y: usize = 0;
    while y < rows
        invariant
            video@.len() == VIDEO_BYTES,
            y <= rows,
            cols == kept_cols(width),
            rows == kept_rows(height),
            left == left_of(width),
            top == top_of(width, height),
            top + rows <= 160,
            left + cols <= 240,
            frame_extent_of(f, width, height, pitch) <= frame@.len(),
            flen == frame@.len(),
            forall|yy: int, xx: int, k: int|
                0 <= yy < 160 && 0 <= xx < 240 && 0 <= k < 4 ==> #[trigger] byte_at(video@, yy, xx, k) == (
                if top <= yy < top + y && left <= xx < left + cols {
                    pixel_byte(f, frame@, (yy - top) * pitch, xx - left, k)
                } else {
                    byte_at(old_video, yy, xx, k) as int
                }),
        decreases rows - y,
    {
        proof {
            vstd::arithmetic::mul::lemma_mul_inequality(y as int, (rows - 1) as int, pitch as int);
            assert(0 <= cols * bytes_per_pixel(f)) by (nonlinear_arith)
                requires
                    cols <= 240,
                    bytes_per_pixel(f) <= 4,
            ;
        }
        assert(y * pitch + cols * bytes_per_pixel(f) <= flen);
        let start: usize = y * pitch;
        let row: usize = ((y + top) * 240 + left) * 4;
        let ghost before_row = video@;
        let mut x: usize = 0;
        while x < cols
            invariant
                video@.len() == VIDEO_BYTES,
                y < rows,
                x <= cols,
                cols == kept_cols(width),
                rows == kept_rows(height),
                top + rows <= 160,
                left + cols <= 240,
                start == y * pitch,
                start + cols * bytes_per_pixel(f) <= frame@.len(),
                flen == frame@.len(),
                row == ((y + top) * 240 + left) * 4,
                forall|yy: int, xx: int, k: int|
                    0 <= yy < 160 && 0 <= xx < 240 && 0 <= k < 4 ==> #[trigger] byte_at(video@, yy, xx, k) == (
                    if (top <= yy < top + y && left <= xx < left + cols) || (yy == top + y && left <= xx
                        < left + x) {
                        pixel_byte(f, frame@, (yy - top) * pitch, xx - left, k)
                    } else {
                        byte_at(old_video, yy, xx, k) as int
                    }),
            decreases cols - x,
        {
            let o: usize = row + x * 4;
            assert(start + x * bytes_per_pixel(f) + bytes_per_pixel(f) <= flen) by (nonlinear_arith)
                requires
                    start + cols * bytes_per_pixel(f) <= flen,
                    x < cols,
                    bytes_per_pixel(f) >= 0,
            ;
            let ghost before = video@;
            let (b0, b1, b2, b3): (u8, u8, u8, u8) = match f {
                PixelFormat::Xrgb8888 => {
                    let s: usize = start + x * 4;
                    (frame[s], frame[s + 1], frame[s + 2], frame[s + 3])
                },
                PixelFormat::Rgb565 => {
                    let lo: u8 = frame[start + x * 2];
                    let hi: u8 = frame[start + x * 2 + 1];
                    let b: u8 = lo % 32;
                    let g: u8 = (hi % 8) * 8 + lo / 32;
                    let r: u8 = hi / 8;
                    (b * 8 + b / 4, g * 4 + g / 16, r * 8 + r / 4, 0)
                },
            };
            video.set(o, b0);
            video.set(o + 1, b1);
            video.set(o + 2, b2);
            video.set(o + 3, b3);
            proof {
                let vals = seq![b0 as int, b1 as int, b2 as int, b3 as int];
                assert forall|j: int| 0 <= j < 4 implies vals[j] == pixel_byte(
                    f,
                    frame@,
                    y * pitch,
                    x as int,
                    j,
                ) by {}
                assert forall|yy: int, xx: int, k: int|
                    0 <= yy < 160 && 0 <= xx < 240 && 0 <= k < 4 implies #[trigger] byte_at(video@, yy, xx, k) == (
                    if (top <= yy < top + y && left <= xx < left + cols) || (yy == top + y && left
                        <= xx < left + x + 1) {
                        pixel_byte(f, frame@, (yy - top) * pitch, xx - left, k)
                    } else {
                        byte_at(old_video, yy, xx, k) as int
                    }) by {
                    let cy = (y + top) as int;
                    let cx = (left + x) as int;
                    lemma_cell_index(yy, xx, k, cy, cx, 0);
                    lemma_cell_index(yy, xx, k, cy, cx, 1);
                    lemma_cell_index(yy, xx, k, cy, cx, 2);
                    lemma_cell_index(yy, xx, k, cy, cx, 3);
                    if yy == cy && xx == cx {
                        assert(byte_at(video@, yy, xx, k) == vals[k]);
                    } else {
                        assert(byte_at(video@, yy, xx, k) == byte_at(before, yy, xx, k));
                    }
                }
            }
            x += 1;
        }
        y += 1;
    }
}

/// A full-size XRGB8888 frame with rows packed end to end replaces the host's frame
/// byte for byte.
pub proof fn law_full_frame_is_copied(old: Seq<u8>, frame: Seq<u8>, y: int, x: int, k: int)
    requires
        0 <= y < 160,
        0 <= x < 240,
        0 <= k < 4,
    ensures
        blitted(old, PixelFormat::Xrgb8888, frame, 240, 160, 960, y, x, k) == frame[(y * 240 + x) * 4 + k] as int,
{
    assert(y * 960 + x * 4 + k == (y * 240 + x) * 4 + k);
}

/// What a core reads for `id` on joypad port 0: the button's bit, or every button at once;
/// anything else reads as nothing pressed.
pub fn input_state(input: u16, port: u32, device: u32, id: u32) -> (r: i16)
    ensures
        r == (if port != 0 || device != DEVICE_JOYPAD {
            0i16
        } else if id == JOYPAD_MASK {
            input as i16
        } else if id < 16 {
            ((input >> id) & 1) as i16
        } else {
            0i16
        }),
{
    if port != 0 || device != DEVICE_JOYPAD {
        return 0;
    }
    if id == JOYPAD_MASK {
        input as i16
    } else if id < 16 {
        ((input >> id) & 1) as i16
    } else {
        0
    }
}

} // verus!
