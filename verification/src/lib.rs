//! HomeCtrl LED strip controller: the verified core.
//!
//! The controller drives LED strips over a small UDP protocol; an emulator
//! receives the same packets and renders them. This crate holds the logic of
//! both sides: the frame buffer and its packets, the animation modes, the
//! looper's state machine, option handling, and the emulator's packet parser.

pub mod text;
pub mod error;
pub mod colors;
pub mod strip;
pub mod json;
pub mod opts;
pub mod server;
pub mod modes;
pub mod emu;
pub mod clock;
pub mod looper;
