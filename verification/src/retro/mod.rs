//! The emulator side: the joypad bits a libretro core reads, the errors a core reports, the
//! link session's packet queues, and the mock core the host runs without a real one.
pub mod frame;
pub mod host;
pub mod link;
pub mod mock;

use vstd::prelude::*;

verus! {

pub const GBA_W: u32 = 240;

pub const GBA_H: u32 = 160;

/// libretro `RETRO_DEVICE_ID_JOYPAD` bit order. Y and X have no GBA equivalent, so bits 1
/// and 9 are never set.
#[derive(Copy, Clone, PartialEq, Eq, Debug, Structural)]
pub struct ButtonMask(pub u16);

impl ButtonMask {
    pub const B: u16 = 1;
    pub const SELECT: u16 = 4;
    pub const START: u16 = 8;
    pub const UP: u16 = 16;
    pub const DOWN: u16 = 32;
    pub const LEFT: u16 = 64;
    pub const RIGHT: u16 = 128;
    pub const A: u16 = 256;
    pub const L: u16 = 1024;
    pub const R: u16 = 2048;
}

impl Default for ButtonMask {
    fn default() -> (r: Self)
        ensures
            r == ButtonMask(0),
    {
        ButtonMask(0)
    }
}

/// `std::io::Error`, carried through as the reason a core's file could not be read.
#[verifier::external_type_specification]
#[verifier::external_body]
pub struct ExIoError(std::io::Error);

#[derive(Debug)]
pub enum CoreError {
    Io(std::io::Error),
    Load(String),
    Unsupported(String),
    State(String),
}

} // verus!
