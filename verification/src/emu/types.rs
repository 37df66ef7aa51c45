//! The records the emulator reads from the controller's REST API, and the
//! addresses it reads them from.

use vstd::prelude::*;
use crate::text::{push_signed_decimal, signed_decimal};

verus! {

/// A strip as the controller lists it.
#[derive(Debug)]
pub struct StripConfig {
    pub id: i32,
    pub hostname: String,
    pub port: u16,
    pub num_leds: usize,
    pub mode: String,
    pub brightness: u8,
    /// Delay between frames, as the bit pattern of a binary64 number of seconds.
    pub delay_bits: u64,
}

/// The strips as the controller lists them.
#[derive(Debug)]
pub struct StripData {
    pub strips: Vec<StripConfig>,
}

/// The modes the controller offers.
#[derive(Debug)]
pub struct ModeResponse {
    pub modes: Vec<String>,
}

/// A mode name.
#[derive(Debug)]
pub struct CurrentModeResponse {
    pub mode: String,
}

/// A brightness.
#[derive(Debug)]
pub struct BrightnessResponse {
    pub brightness: u8,
}

/// A delay, as the bit pattern of a binary64 number of seconds.
#[derive(Debug)]
pub struct DelayResponse {
    pub delay_bits: u64,
}

/// The controller's loop state.
#[derive(Debug)]
pub struct LoopState {
    pub state: String,
    pub iterations_remaining: i32,
    pub debug_mode: bool,
}

/// The address of an API resource: `BASE/api/PATH`.
pub fn endpoint(base_url: &str, path: &str) -> (res: String)
    ensures
        res@ == base_url@ + "/api/"@ + path@,
{
    let mut s = base_url.to_owned();
    s.append("/api/");
    s.append(path);
    s
}

/// The address of a resource of strip `strip_id`: `BASE/api/strips/ID/WHAT`.
pub fn strip_endpoint(base_url: &str, strip_id: i32, what: &str) -> (res: String)
    ensures
        res@ == base_url@ + "/api/strips/"@ + signed_decimal(strip_id as int) + "/"@ + what@,
{
    let mut s = base_url.to_owned();
    s.append("/api/strips/");
    push_signed_decimal(&mut s, strip_id);
    s.append("/");
    s.append(what);
    s
}

} // verus!
