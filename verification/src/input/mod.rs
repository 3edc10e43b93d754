//! Keys as they arrive from the pad, and the gesture machine that turns them into what the
//! frontend and the emulated console are told.
pub mod gesture;

use vstd::prelude::*;

verus! {

/// Milliseconds on a clock that only moves forward.
pub type Millis = u64;

/// The physical keys and switches of the handheld.
#[derive(Copy, Clone, PartialEq, Eq, Debug, Structural)]
pub enum Btn {
    Up,
    Down,
    Left,
    Right,
    A,
    B,
    X,
    Y,
    L1,
    R1,
    L2,
    R2,
    Start,
    Select,
    Menu,
    Power,
    VolUp,
    VolDown,
    Lid,
}

/// One edge of one key.
#[derive(Copy, Clone, PartialEq, Eq, Debug, Structural)]
pub enum RawEvent {
    Down(Btn),
    Up(Btn),
}

} // verus!
