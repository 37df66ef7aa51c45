//! The emulator side: it receives the strips' UDP packets and keeps what each strip shows.

pub mod packet;
pub mod udp_listener;
pub mod app;
pub mod types;
