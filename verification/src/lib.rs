//! The card, the buttons and the handheld underneath a focused Game Boy frontend: every file
//! format kept on the card, the gesture machine between the keys and the emulator, and the
//! power and link plumbing, each stated and proved.
pub mod text;
pub mod input;
pub mod store;
pub mod power;
pub mod retro;
pub mod gfx;
