//! The LED strip frame buffer and its UDP packets.
//!
//! Each packet has a 5-byte header followed by RGB data:
//! - Byte 0: Message type (1 = LED data)
//! - Byte 1: Sequence number (for packet ordering)
//! - Byte 2: Global brightness (0-255)
//! - Byte 3: Number of LEDs
//! - Byte 4: Device ID
//! - Bytes 5+: RGB triplets for each LED
//!
//! A `Strip` keeps the frame; `send` queues the current packet in the strip's
//! outbox, and the transport drains the outbox with `take_outgoing`.

use vstd::prelude::*;
use crate::colors::rgb;

verus! {

/// Size of the protocol header in bytes.
pub const PROTOCOL_HEADER_SIZE: usize = 5;

/// Protocol message type for LED data.
pub const MSG_TYPE_LED_DATA: u8 = 1;

/// Default UDP port for ESP32 LED controllers.
pub const DEFAULT_UDP_PORT: u16 = 4210;

/// The largest LED count whose frame length fits in a `usize`.
pub open spec fn max_leds() -> int {
    (usize::MAX - 5) / 3
}

/// The three bytes of LED `i` in a frame.
pub open spec fn frame_led(frame: Seq<u8>, i: int) -> (u8, u8, u8) {
    (frame[5 + 3 * i], frame[5 + 3 * i + 1], frame[5 + 3 * i + 2])
}

/// Byte `i` of the RGB data for `leds`.
pub open spec fn led_byte(leds: Seq<(u8, u8, u8)>, i: int) -> u8 {
    let c = leds[i / 3];
    if i % 3 == 0 {
        c.0
    } else if i % 3 == 1 {
        c.1
    } else {
        c.2
    }
}

/// A frame: the five header bytes followed by the RGB triplets of `leds`.
pub open spec fn encode_frame(header: Seq<u8>, leds: Seq<(u8, u8, u8)>) -> Seq<u8> {
    header + Seq::new(3 * leds.len(), |i: int| led_byte(leds, i))
}

/// The header of a strip's frame with the given sequence and brightness bytes.
pub open spec fn frame_header(num_leds: usize, dev_id: u8, seq: u8, brightness: u8) -> Seq<u8> {
    seq![MSG_TYPE_LED_DATA, seq, brightness, num_leds as u8, dev_id]
}

/// A single LED strip: its address, its frame buffer and its queue of outgoing packets.
pub struct Strip {
    /// Device identifier (0-255).
    pub dev_id: u8,
    /// Target hostname or IP address.
    pub udp_ip: String,
    /// Target UDP port.
    pub udp_port: u16,
    /// Number of LEDs on this strip.
    pub num_leds: usize,
    /// Protocol header followed by the RGB data; kept consistent with the
    /// fields above (see `wf`).
    pub buffer: Vec<u8>,
    /// Sequence number of the next packet.
    pub seq: u8,
    /// Packets queued for transmission, oldest first.
    pub outgoing: Vec<Vec<u8>>,
}

impl Strip {
    /// The frame: protocol header followed by the RGB data.
    pub open spec fn frame(&self) -> Seq<u8> {
        self.buffer@
    }

    /// The sequence number that the next packet will carry.
    pub open spec fn next_seq(&self) -> u8 {
        self.seq
    }

    /// The packets queued for transmission, oldest first.
    pub open spec fn outbox(&self) -> Seq<Seq<u8>> {
        self.outgoing@.map_values(|p: Vec<u8>| p@)
    }

    /// The frame has the right length and header for this strip.
    pub open spec fn wf(&self) -> bool {
        &&& self.num_leds <= max_leds()
        &&& self.frame().len() == 5 + 3 * self.num_leds
        &&& self.frame()[0] == MSG_TYPE_LED_DATA
        &&& self.frame()[3] == self.num_leds as u8
        &&& self.frame()[4] == self.dev_id
    }

    /// The global brightness stored in the frame.
    pub open spec fn spec_brightness(&self) -> u8 {
        self.frame()[2]
    }

    /// The sequence byte stored in the frame (that of the last packet made).
    pub open spec fn frame_seq(&self) -> u8 {
        self.frame()[1]
    }

    /// The color of LED `i`.
    pub open spec fn led(&self, i: int) -> (u8, u8, u8) {
        frame_led(self.frame(), i)
    }

    /// The colors of all LEDs.
    pub open spec fn leds(&self) -> Seq<(u8, u8, u8)> {
        Seq::new(self.num_leds as nat, |i: int| self.led(i))
    }

    /// Both strips have the same address, length, frame and queue position.
    pub open spec fn same_frame(&self, other: &Strip) -> bool {
        &&& self.dev_id == other.dev_id
        &&& self.udp_ip == other.udp_ip
        &&& self.udp_port == other.udp_port
        &&& self.num_leds == other.num_leds
        &&& self.frame() == other.frame()
        &&& self.next_seq() == other.next_seq()
        &&& self.outbox() == other.outbox()
    }

    /// The frame is the encoding of the strip's header and LED colors.
    pub proof fn lemma_frame_encoding(&self)
        requires
            self.wf(),
        ensures
            self.frame() == encode_frame(
                frame_header(self.num_leds, self.dev_id, self.frame_seq(), self.spec_brightness()),
                self.leds(),
            ),
    {
        let f = self.frame();
        let e = encode_frame(
            frame_header(self.num_leds, self.dev_id, self.frame_seq(), self.spec_brightness()),
            self.leds(),
        );
        assert forall|i: int| 5 <= i < f.len() implies f[i] == e[i] by {
            let k = i - 5;
            vstd::arithmetic::div_mod::lemma_fundamental_div_mod(k, 3);
            assert(0 <= k / 3 < self.num_leds) by (nonlinear_arith)
                requires
                    0 <= k < 3 * self.num_leds,
                    k == 3 * (k / 3) + k % 3,
                    0 <= k % 3 < 3,
            ;
        }
        assert(f =~= e);
    }

    /// `self` is `old` with only the LED colors changed, to `leds`.
    pub open spec fn leds_changed(&self, old: &Strip, leds: Seq<(u8, u8, u8)>) -> bool {
        &&& self.wf()
        &&& self.dev_id == old.dev_id
        &&& self.udp_ip == old.udp_ip
        &&& self.udp_port == old.udp_port
        &&& self.num_leds == old.num_leds
        &&& self.frame_seq() == old.frame_seq()
        &&& self.spec_brightness() == old.spec_brightness()
        &&& self.next_seq() == old.next_seq()
        &&& self.outbox() == old.outbox()
        &&& self.leds() == leds
    }

    /// `self` is `old` with the LED colors changed to `leds` and then one
    /// packet queued.
    pub open spec fn leds_changed_and_sent(&self, old: &Strip, leds: Seq<(u8, u8, u8)>) -> bool {
        &&& self.wf()
        &&& self.leds() == leds
        &&& self.frame_seq() == old.next_seq()
        &&& self.next_seq() == (old.next_seq() + 1) % 256
        &&& self.spec_brightness() == old.spec_brightness()
        &&& self.dev_id == old.dev_id
        &&& self.udp_ip == old.udp_ip
        &&& self.udp_port == old.udp_port
        &&& self.num_leds == old.num_leds
        &&& self.outbox() == old.outbox().push(self.frame())
    }

    /// Creates a strip with all LEDs off, brightness 255, sequence 0 and an empty outbox.
    pub fn new(dev_id: u8, hostname: &str, num_leds: usize) -> (res: Self)
        requires
            num_leds <= max_leds(),
        ensures
            res.wf(),
            res.dev_id == dev_id,
            res.udp_ip@ == hostname@,
            res.udp_port == DEFAULT_UDP_PORT,
            res.num_leds == num_leds,
            res.spec_brightness() == 255,
            res.frame_seq() == 0,
            res.next_seq() == 0,
            res.outbox().len() == 0,
            res.leds() == Seq::new(num_leds as nat, |i: int| (0u8, 0u8, 0u8)),
    {
        let total_size = (num_leds * 3) + PROTOCOL_HEADER_SIZE;
        let mut buffer: Vec<u8> = Vec::new();
        buffer.push(MSG_TYPE_LED_DATA);
        buffer.push(0);
        buffer.push(255);
        buffer.push(num_leds as u8);
        buffer.push(dev_id);
        while buffer.len() < total_size
            invariant
                total_size == 5 + 3 * num_leds,
                5 <= buffer.len() <= total_size,
                buffer@[0] == MSG_TYPE_LED_DATA,
                buffer@[1] == 0,
                buffer@[2] == 255,
                buffer@[3] == num_leds as u8,
                buffer@[4] == dev_id,
                forall|j: int| 5 <= j < buffer.len() ==> buffer@[j] == 0,
            decreases total_size - buffer.len(),
        {
            buffer.push(0);
        }
        let res = Strip {
            dev_id,
            udp_ip: hostname.to_owned(),
            udp_port: DEFAULT_UDP_PORT,
            num_leds,
            buffer,
            seq: 0,
            outgoing: Vec::new(),
        };
        assert(res.outbox() =~= Seq::<Seq<u8>>::empty());
        assert(res.leds() =~= Seq::new(num_leds as nat, |i: int| (0u8, 0u8, 0u8)));
        res
    }

    /// Returns the current global brightness level (0-255).
    pub fn brightness(&self) -> (res: u8)
        requires
            self.wf(),
        ensures
            res == self.spec_brightness(),
    {
        self.buffer[2]
    }

    /// Sets the global brightness level for the entire strip.
    pub fn set_brightness(&mut self, val: u8)
        requires
            old(self).wf(),
        ensures
            final(self).wf(),
            final(self).spec_brightness() == val,
            final(self).frame() == old(self).frame().update(2, val),
            final(self).leds() == old(self).leds(),
            final(self).frame_seq() == old(self).frame_seq(),
            final(self).dev_id == old(self).dev_id,
            final(self).udp_ip == old(self).udp_ip,
            final(self).udp_port == old(self).udp_port,
            final(self).num_leds == old(self).num_leds,
            final(self).next_seq() == old(self).next_seq(),
            final(self).outbox() == old(self).outbox(),
    {
        self.buffer.set(2, val);
        assert(final(self).leds() =~= old(self).leds());
    }

    /// Sets a single LED to the specified RGB color. The index must be on
    /// the strip (an index past the end is a programming error, checked in
    /// debug builds).
    pub fn set_led(&mut self, led: usize, r: u8, g: u8, b: u8)
        requires
            old(self).wf(),
            led < old(self).num_leds,
        ensures
            final(self).leds_changed(old(self), old(self).leds().update(led as int, (r, g, b))),
    {
        if led < self.num_leds {
            let offset = (led * 3) + PROTOCOL_HEADER_SIZE;
            self.buffer.set(offset, r);
            self.buffer.set(offset + 1, g);
            self.buffer.set(offset + 2, b);
            assert(final(self).leds() =~= old(self).leds().update(led as int, (r, g, b)));
        }
    }

    /// Sets a single LED using an RGB array.
    pub fn set_led_rgb(&mut self, led: usize, color: [u8; 3])
        requires
            old(self).wf(),
            led < old(self).num_leds,
        ensures
            final(self).leds_changed(old(self), old(self).leds().update(led as int, rgb(color))),
    {
        self.set_led(led, color[0], color[1], color[2]);
    }

    /// Gets the current RGB value of a specific LED, or `None` past the end.
    pub fn get_led(&self, led: usize) -> (res: Option<[u8; 3]>)
        requires
            self.wf(),
        ensures
            led < self.num_leds ==> res is Some && rgb(res->0) == self.led(led as int),
            led >= self.num_leds ==> res is None,
    {
        if led < self.num_leds {
            let offset = (led * 3) + PROTOCOL_HEADER_SIZE;
            Some([self.buffer[offset], self.buffer[offset + 1], self.buffer[offset + 2]])
        } else {
            None
        }
    }

    /// Returns a complete packet: the frame with the next sequence number
    /// written into it. The sequence counter then advances, wrapping at 256.
    pub fn packet(&mut self) -> (res: Vec<u8>)
        requires
            old(self).wf(),
        ensures
            final(self).wf(),
            final(self).frame() == old(self).frame().update(1, old(self).next_seq()),
            res@ == final(self).frame(),
            final(self).next_seq() == (old(self).next_seq() + 1) % 256,
            final(self).frame_seq() == old(self).next_seq(),
            final(self).spec_brightness() == old(self).spec_brightness(),
            final(self).leds() == old(self).leds(),
            final(self).dev_id == old(self).dev_id,
            final(self).udp_ip == old(self).udp_ip,
            final(self).udp_port == old(self).udp_port,
            final(self).num_leds == old(self).num_leds,
            final(self).outbox() == old(self).outbox(),
    {
        let seq = self.seq;
        self.seq = self.seq.wrapping_add(1);
        self.buffer.set(1, seq);
        assert(final(self).leds() =~= old(self).leds());
        self.buffer.clone()
    }

    /// Queues the current packet (see `packet`) for transmission.
    pub fn send(&mut self)
        requires
            old(self).wf(),
        ensures
            final(self).wf(),
            final(self).frame() == old(self).frame().update(1, old(self).next_seq()),
            final(self).next_seq() == (old(self).next_seq() + 1) % 256,
            final(self).frame_seq() == old(self).next_seq(),
            final(self).spec_brightness() == old(self).spec_brightness(),
            final(self).leds() == old(self).leds(),
            final(self).dev_id == old(self).dev_id,
            final(self).udp_ip == old(self).udp_ip,
            final(self).udp_port == old(self).udp_port,
            final(self).num_leds == old(self).num_leds,
            final(self).outbox() == old(self).outbox().push(final(self).frame()),
    {
        let packet = self.packet();
        self.outgoing.push(packet);
        assert(final(self).outbox() =~= old(self).outbox().push(final(self).frame()));
    }

    /// Removes and returns the queued packets, oldest first.
    pub fn take_outgoing(&mut self) -> (res: Vec<Vec<u8>>)
        requires
            old(self).wf(),
        ensures
            res@.map_values(|p: Vec<u8>| p@) == old(self).outbox(),
            final(self).outbox().len() == 0,
            final(self).wf(),
            final(self).frame() == old(self).frame(),
            final(self).next_seq() == old(self).next_seq(),
            final(self).dev_id == old(self).dev_id,
            final(self).udp_ip == old(self).udp_ip,
            final(self).udp_port == old(self).udp_port,
            final(self).num_leds == old(self).num_leds,
    {
        let mut res: Vec<Vec<u8>> = Vec::new();
        std::mem::swap(&mut res, &mut self.outgoing);
        assert(final(self).outbox() =~= Seq::<Seq<u8>>::empty());
        res
    }

    /// Fills the entire strip with a single color and queues the packet.
    pub fn fill(&mut self, color: [u8; 3])
        requires
            old(self).wf(),
        ensures
            final(self).wf(),
            final(self).leds() == Seq::new(old(self).num_leds as nat, |i: int| rgb(color)),
            final(self).frame_seq() == old(self).next_seq(),
            final(self).next_seq() == (old(self).next_seq() + 1) % 256,
            final(self).spec_brightness() == old(self).spec_brightness(),
            final(self).dev_id == old(self).dev_id,
            final(self).udp_ip == old(self).udp_ip,
            final(self).udp_port == old(self).udp_port,
            final(self).num_leds == old(self).num_leds,
            final(self).outbox() == old(self).outbox().push(final(self).frame()),
    {
        let n = self.num_leds;
        let mut i: usize = 0;
        assert(self.leds() =~= Seq::new(
            n as nat,
            |j: int| if j < 0 { rgb(color) } else { old(self).led(j) },
        ));
        while i < n
            invariant
                i <= n,
                n == old(self).num_leds,
                self.leds_changed(
                    old(self),
                    Seq::new(n as nat, |j: int| if j < i { rgb(color) } else { old(self).led(j) }),
                ),
            decreases n - i,
        {
            self.set_led_rgb(i, color);
            assert(self.leds() =~= Seq::new(
                n as nat,
                |j: int| if j < i + 1 { rgb(color) } else { old(self).led(j) },
            ));
            i = i + 1;
        }
        assert(self.leds() =~= Seq::new(n as nat, |j: int| rgb(color)));
        self.send();
    }
}

/// An LED read back after it is set (see `set_led`) has the color set; the
/// other LEDs keep theirs.
pub proof fn lemma_set_led_then_get(before: &Strip, after: &Strip, led: int, c: (u8, u8, u8))
    requires
        0 <= led < before.num_leds,
        after.leds_changed(before, before.leds().update(led, c)),
    ensures
        after.led(led) == c,
        forall|j: int| 0 <= j < before.num_leds && j != led ==> after.led(j) == before.led(j),
{
    assert(after.leds()[led] == c);
    assert forall|j: int| 0 <= j < before.num_leds && j != led implies after.led(j) == before.led(j) by {
        assert(after.leds()[j] == before.leds()[j]);
    }
}

/// `after` made one packet since `before`: it carries `before`'s next
/// sequence number, and the next one follows it, modulo 256.
pub open spec fn seq_advanced(before: Strip, after: Strip) -> bool {
    &&& after.frame_seq() == before.next_seq()
    &&& after.next_seq() == (before.next_seq() + 1) % 256
}

/// `after` made no packet since `before`.
pub open spec fn seq_kept(before: Strip, after: Strip) -> bool {
    after.next_seq() == before.next_seq()
}

/// The number of packets made over the first `i` steps of `states`.
pub open spec fn packets_made(states: Seq<Strip>, i: int) -> nat
    decreases i,
{
    if i <= 0 {
        0
    } else {
        packets_made(states, i - 1) + if seq_advanced(states[i - 1], states[i]) {
            1nat
        } else {
            0nat
        }
    }
}

/// A run of a strip from its creation, where each step either makes one
/// packet (`packet`, `send`, `fill`) or makes none (`set_led`,
/// `set_brightness`, ...): after `i` steps the next sequence number is the
/// number of packets made modulo 256, and the packet made by a step carries
/// the number of packets made before it, modulo 256, in its header, followed
/// by the strip's brightness, LED count, device id and LED colors.
pub proof fn lemma_packet_sequence(states: Seq<Strip>)
    requires
        states.len() > 0,
        states[0].next_seq() == 0,
        forall|i: int| 0 <= i < states.len() ==> (#[trigger] states[i]).wf(),
        forall|i: int|
            0 <= i < states.len() - 1 ==> seq_advanced(#[trigger] states[i], states[i + 1]) || seq_kept(
                states[i],
                states[i + 1],
            ),
    ensures
        forall|i: int| 0 <= i < states.len() ==> (#[trigger] states[i]).next_seq() == packets_made(states, i) % 256,
        forall|i: int|
            0 <= i < states.len() - 1 && seq_advanced(#[trigger] states[i], states[i + 1]) ==> {
                &&& states[i + 1].frame_seq() == packets_made(states, i) % 256
                &&& states[i + 1].frame() == encode_frame(
                    frame_header(
                        states[i + 1].num_leds,
                        states[i + 1].dev_id,
                        (packets_made(states, i) % 256) as u8,
                        states[i + 1].spec_brightness(),
                    ),
                    states[i + 1].leds(),
                )
            },
{
    lemma_packet_sequence_upto(states, states.len() - 1);
    assert forall|i: int|
        0 <= i < states.len() - 1 && seq_advanced(#[trigger] states[i], states[i + 1]) implies {
            &&& states[i + 1].frame_seq() == packets_made(states, i) % 256
            &&& states[i + 1].frame() == encode_frame(
                frame_header(
                    states[i + 1].num_leds,
                    states[i + 1].dev_id,
                    (packets_made(states, i) % 256) as u8,
                    states[i + 1].spec_brightness(),
                ),
                states[i + 1].leds(),
            )
        } by {
        assert(states[i + 1].wf());
        states[i + 1].lemma_frame_encoding();
    }
}

proof fn lemma_packet_sequence_upto(states: Seq<Strip>, k: int)
    requires
        0 <= k < states.len(),
        states[0].next_seq() == 0,
        forall|i: int|
            0 <= i < states.len() - 1 ==> seq_advanced(#[trigger] states[i], states[i + 1]) || seq_kept(
                states[i],
                states[i + 1],
            ),
    ensures
        forall|i: int| 0 <= i <= k ==> (#[trigger] states[i]).next_seq() == packets_made(states, i) % 256,
    decreases k,
{
    if k > 0 {
        lemma_packet_sequence_upto(states, k - 1);
        let p = packets_made(states, k - 1);
        assert(states[k - 1].next_seq() == p % 256);
        if seq_advanced(states[k - 1], states[k]) {
            assert(packets_made(states, k) == p + 1);
            assert((p % 256 + 1) % 256 == (p + 1) % 256) by {
                vstd::arithmetic::div_mod::lemma_add_mod_noop(p as int, 1, 256);
            }
        } else {
            assert(seq_kept(states[k - 1], states[k]));
            assert(packets_made(states, k) == p);
        }
    }
}

} // verus!
