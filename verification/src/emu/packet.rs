//! Parsing of the LED strip packets that the emulator receives.
//!
//! Packet format:
//! Byte 0: Message type (1 = LED_STRIP)
//! Byte 1: Sequence number (0-255)
//! Byte 2: Brightness (0-255)
//! Byte 3: Number of LEDs
//! Byte 4: Device ID
//! Bytes 5+: RGB data (3 bytes per LED)

use vstd::prelude::*;
use crate::colors::rgb;
use crate::strip::{frame_led, Strip};
use crate::text::{decimal, push_decimal};

verus! {

/// The network address a packet came from.
#[derive(Debug, Clone, Copy)]
pub enum SourceAddr {
    /// An IPv4 address and port.
    V4 { octets: [u8; 4], port: u16 },
    /// An IPv6 address, port, flow information and scope id.
    V6 { segments: [u16; 8], port: u16, flowinfo: u32, scope_id: u32 },
}

/// LED strip packet structure matching the ESP32 protocol.
#[derive(Debug, Clone)]
pub struct LEDPacket {
    pub msg_type: u8,
    pub sequence: u8,
    pub brightness: u8,
    pub num_leds: u8,
    pub device_id: u8,
    pub led_data: Vec<[u8; 3]>,
    pub source_addr: SourceAddr,
}

/// Why a packet was rejected.
#[derive(Debug, Clone, Copy)]
pub enum PacketError {
    /// Fewer than the five header bytes.
    TooShort { len: usize },
    /// The header announces more LEDs than the packet carries.
    TooShortForLeds { num_leds: u8, expected: usize, got: usize },
}

/// Whether `data` holds a header and the RGB data for as many LEDs as it announces.
pub open spec fn packet_ok(data: Seq<u8>) -> bool {
    data.len() >= 5 && data.len() >= 5 + 3 * data[3]
}

/// The LED colors that a well-formed packet carries.
pub open spec fn packet_leds(data: Seq<u8>) -> Seq<(u8, u8, u8)> {
    Seq::new(data[3] as nat, |i: int| frame_led(data, i))
}

/// The error for data that is not a well-formed packet.
pub open spec fn parse_error(data: Seq<u8>) -> PacketError {
    if data.len() < 5 {
        PacketError::TooShort { len: data.len() as usize }
    } else {
        PacketError::TooShortForLeds {
            num_leds: data[3],
            expected: (5 + 3 * data[3]) as usize,
            got: data.len() as usize,
        }
    }
}

/// The message of a packet error.
pub open spec fn packet_error_text(e: PacketError) -> Seq<char> {
    match e {
        PacketError::TooShort { len } => "Packet too short: "@ + decimal(len as nat) + " bytes"@,
        PacketError::TooShortForLeds { num_leds, expected, got } => "Packet too short for "@ + decimal(
            num_leds as nat,
        ) + " LEDs: expected "@ + decimal(expected as nat) + " bytes, got "@ + decimal(got as nat),
    }
}

/// Whether an LED shows any light.
pub open spec fn is_lit(c: (u8, u8, u8)) -> bool {
    c.0 > 0 || c.1 > 0 || c.2 > 0
}

/// The number of lit LEDs in `s`.
pub open spec fn count_lit_spec(s: Seq<(u8, u8, u8)>) -> nat
    decreases s.len(),
{
    if s.len() == 0 {
        0
    } else {
        count_lit_spec(s.drop_last()) + if is_lit(s.last()) { 1nat } else { 0nat }
    }
}

/// A channel value scaled by `brightness / 255`, rounded to the nearest
/// integer with halves rounded up.
pub open spec fn apply_brightness(v: u8, brightness: u8) -> u8 {
    ((2 * v * brightness + 255) / 510) as u8
}

/// A color scaled by `brightness / 255`, channel by channel.
pub open spec fn dim(c: (u8, u8, u8), brightness: u8) -> (u8, u8, u8) {
    (apply_brightness(c.0, brightness), apply_brightness(c.1, brightness), apply_brightness(c.2, brightness))
}

/// Scales one channel by `brightness / 255`, rounding to nearest.
pub fn scale_channel(v: u8, brightness: u8) -> (res: u8)
    ensures
        res == apply_brightness(v, brightness),
{
    proof {
        assert(v as int * brightness as int <= 255 * 255) by (nonlinear_arith)
            requires
                v <= 255,
                brightness <= 255,
        ;
        assert(2 * v * brightness == 2 * (v as int * brightness as int)) by (nonlinear_arith);
    }
    let p: u32 = (v as u32) * (brightness as u32);
    let x: u32 = 2 * p + 255;
    (x / 510) as u8
}

impl PacketError {
    /// The error message.
    pub fn to_string(&self) -> (res: String)
        ensures
            res@ == packet_error_text(*self),
    {
        let mut s = String::new();
        match *self {
            PacketError::TooShort { len } => {
                s.append("Packet too short: ");
                push_decimal(&mut s, len as u64);
                s.append(" bytes");
            },
            PacketError::TooShortForLeds { num_leds, expected, got } => {
                s.append("Packet too short for ");
                push_decimal(&mut s, num_leds as u64);
                s.append(" LEDs: expected ");
                push_decimal(&mut s, expected as u64);
                s.append(" bytes, got ");
                push_decimal(&mut s, got as u64);
            },
        }
        s
    }
}

impl LEDPacket {
    /// The colors the packet carries.
    pub open spec fn leds(&self) -> Seq<(u8, u8, u8)> {
        self.led_data@.map_values(|c: [u8; 3]| rgb(c))
    }

    /// The packet holds the header and LED colors of `data`, received from `source`.
    pub open spec fn parsed_from(&self, data: Seq<u8>, source: SourceAddr) -> bool {
        &&& self.msg_type == data[0]
        &&& self.sequence == data[1]
        &&& self.brightness == data[2]
        &&& self.num_leds == data[3]
        &&& self.device_id == data[4]
        &&& self.leds() == packet_leds(data)
        &&& self.led_data@.len() == data[3]
        &&& self.source_addr == source
    }

    /// Parse a UDP packet from bytes according to the LED strip protocol.
    pub fn from_bytes(data: &[u8], source_addr: SourceAddr) -> (res: Result<Self, PacketError>)
        ensures
            !packet_ok(data@) ==> res == Err::<Self, PacketError>(parse_error(data@)),
            packet_ok(data@) ==> (res matches Ok(p) && p.parsed_from(data@, source_addr)),
    {
        if data.len() < 5 {
            return Err(PacketError::TooShort { len: data.len() });
        }
        let msg_type = data[0];
        let sequence = data[1];
        let brightness = data[2];
        let num_leds = data[3];
        let device_id = data[4];

        let expected_len: usize = 5 + (num_leds as usize) * 3;
        if data.len() < expected_len {
            return Err(PacketError::TooShortForLeds { num_leds, expected: expected_len, got: data.len() });
        }

        let mut led_data: Vec<[u8; 3]> = Vec::new();
        let mut i: u8 = 0;
        while i < num_leds
            invariant
                i <= num_leds,
                num_leds == data@[3],
                data@.len() >= 5 + 3 * num_leds,
                led_data@.len() == i,
                forall|j: int| 0 <= j < i ==> rgb(#[trigger] led_data@[j]) == frame_led(data@, j),
            decreases num_leds - i,
        {
            let offset: usize = 5 + (i as usize) * 3;
            let r = data[offset];
            let g = data[offset + 1];
            let b = data[offset + 2];
            led_data.push([r, g, b]);
            i = i + 1;
        }
        let p = LEDPacket { msg_type, sequence, brightness, num_leds, device_id, led_data, source_addr };
        assert(p.leds() =~= packet_leds(data@));
        Ok(p)
    }

    /// Get RGB value for a specific LED.
    pub fn get_led(&self, index: usize) -> (res: Option<[u8; 3]>)
        ensures
            index < self.led_data@.len() ==> res == Some(self.led_data@[index as int]),
            index >= self.led_data@.len() ==> res is None,
    {
        if index < self.led_data.len() {
            Some(self.led_data[index])
        } else {
            None
        }
    }

    /// Check if any LED has a non-zero value.
    pub fn has_any_lit(&self) -> (res: bool)
        ensures
            res == exists|i: int| 0 <= i < self.leds().len() && is_lit(#[trigger] self.leds()[i]),
    {
        let n = self.led_data.len();
        let mut i: usize = 0;
        while i < n
            invariant
                n == self.led_data@.len(),
                i <= n,
                forall|j: int| 0 <= j < i ==> !is_lit(#[trigger] self.leds()[j]),
            decreases n - i,
        {
            let c = self.led_data[i];
            if c[0] > 0 || c[1] > 0 || c[2] > 0 {
                assert(is_lit(self.leds()[i as int]));
                return true;
            }
            i = i + 1;
        }
        false
    }

    /// Count how many LEDs have any non-zero value.
    pub fn count_lit(&self) -> (res: usize)
        ensures
            res == count_lit_spec(self.leds()),
    {
        let n = self.led_data.len();
        let mut i: usize = 0;
        let mut count: usize = 0;
        while i < n
            invariant
                n == self.led_data@.len(),
                i <= n,
                count == count_lit_spec(self.leds().take(i as int)),
                count <= i,
            decreases n - i,
        {
            let c = self.led_data[i];
            assert(self.leds().take(i as int + 1).drop_last() =~= self.leds().take(i as int));
            if c[0] > 0 || c[1] > 0 || c[2] > 0 {
                count = count + 1;
            }
            i = i + 1;
        }
        assert(self.leds().take(n as int) =~= self.leds());
        count
    }

    /// Get LED data as RGB tuples with the packet's brightness applied.
    pub fn get_led_data_with_brightness(&self) -> (res: Vec<(u8, u8, u8)>)
        ensures
            res@ == self.leds().map_values(|c: (u8, u8, u8)| dim(c, self.brightness)),
    {
        let n = self.led_data.len();
        let mut out: Vec<(u8, u8, u8)> = Vec::new();
        let mut i: usize = 0;
        while i < n
            invariant
                n == self.led_data@.len(),
                i <= n,
                out@.len() == i,
                forall|j: int| 0 <= j < i ==> #[trigger] out@[j] == dim(self.leds()[j], self.brightness),
            decreases n - i,
        {
            let c = self.led_data[i];
            let rf = scale_channel(c[0], self.brightness);
            let gf = scale_channel(c[1], self.brightness);
            let bf = scale_channel(c[2], self.brightness);
            out.push((rf, gf, bf));
            i = i + 1;
        }
        assert(out@ =~= self.leds().map_values(|c: (u8, u8, u8)| dim(c, self.brightness)));
        out
    }
}

/// Every frame a strip sends is a well-formed packet whose header and LED
/// data are those of the strip: the emulator decodes exactly what the
/// controller shows (the LED count travels in one byte, so the first
/// `num_leds % 256` LEDs are carried).
pub proof fn lemma_strip_frame_decodes(strip: &Strip)
    requires
        strip.wf(),
    ensures
        packet_ok(strip.frame()),
        strip.frame()[0] == crate::strip::MSG_TYPE_LED_DATA,
        strip.frame()[1] == strip.frame_seq(),
        strip.frame()[2] == strip.spec_brightness(),
        strip.frame()[3] == strip.num_leds % 256,
        strip.frame()[4] == strip.dev_id,
        packet_leds(strip.frame()) == strip.leds().take((strip.num_leds % 256) as int),
{
    let f = strip.frame();
    let n: usize = strip.num_leds;
    assert((n as u8) as int == n % 256) by (bit_vector);
    assert(packet_leds(f) =~= strip.leds().take((strip.num_leds % 256) as int));
}

} // verus!
