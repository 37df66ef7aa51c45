//! What the emulator keeps of each strip, and how a received packet
//! changes it.

use vstd::prelude::*;
use std::collections::HashMap;
use std::time::Instant;
use crate::clock::instant_now;
use crate::emu::packet::{LEDPacket, SourceAddr, dim};
use crate::strip::Strip;
use crate::emu::udp_listener::{StripConfig, StripMessage, create_default_strips};

verus! {

/// The colors a strip of `n` LEDs shows for a packet's colors at a
/// brightness: each color dimmed, then padded with black or cut to `n`.
pub open spec fn shown_colors(leds: Seq<(u8, u8, u8)>, brightness: u8, n: nat) -> Seq<(u8, u8, u8)> {
    Seq::new(n, |i: int| if i < leds.len() { dim(leds[i], brightness) } else { (0u8, 0u8, 0u8) })
}

/// State for a single LED strip.
#[derive(Debug)]
pub struct StripState {
    pub config: StripConfig,
    pub led_colors: Vec<(u8, u8, u8)>,
    pub current_sequence: u8,
    pub current_brightness: u8,
    pub packet_count: usize,
    pub last_update: Option<Instant>,
}

impl StripState {
    /// All LEDs off, at full brightness, no packet seen.
    pub fn new(config: StripConfig) -> (res: Self)
        ensures
            res.config == config,
            res.led_colors@ == Seq::new(config.num_leds as nat, |i: int| (0u8, 0u8, 0u8)),
            res.current_sequence == 0,
            res.current_brightness == 255,
            res.packet_count == 0,
            res.last_update is None,
    {
        let n = config.num_leds as usize;
        let mut led_colors: Vec<(u8, u8, u8)> = Vec::new();
        let mut i: usize = 0;
        while i < n
            invariant
                i <= n,
                led_colors@ == Seq::new(i as nat, |j: int| (0u8, 0u8, 0u8)),
            decreases n - i,
        {
            led_colors.push((0, 0, 0));
            i = i + 1;
            proof {
                assert(led_colors@ =~= Seq::new(i as nat, |j: int| (0u8, 0u8, 0u8)));
            }
        }
        StripState {
            config,
            led_colors,
            current_sequence: 0,
            current_brightness: 255,
            packet_count: 0,
            last_update: None,
        }
    }

    /// Takes the packet's sequence, brightness and colors (dimmed by its
    /// brightness, padded with black or cut to the strip's length), counts
    /// it, and notes the time.
    pub fn update_from_packet(&mut self, packet: &LEDPacket)
        requires
            old(self).packet_count < usize::MAX,
        ensures
            final(self).config == old(self).config,
            final(self).current_sequence == packet.sequence,
            final(self).current_brightness == packet.brightness,
            final(self).packet_count == old(self).packet_count + 1,
            final(self).last_update is Some,
            final(self).led_colors@ == shown_colors(
                packet.leds(),
                packet.brightness,
                old(self).config.num_leds as nat,
            ),
    {
        self.current_sequence = packet.sequence;
        self.current_brightness = packet.brightness;
        self.packet_count = self.packet_count + 1;
        self.last_update = Some(instant_now());

        let new_colors = packet.get_led_data_with_brightness();
        let n = self.config.num_leds as usize;
        let mut colors: Vec<(u8, u8, u8)> = Vec::new();
        let mut i: usize = 0;
        while i < n
            invariant
                i <= n,
                n == old(self).config.num_leds,
                new_colors@ == packet.leds().map_values(|c: (u8, u8, u8)| dim(c, packet.brightness)),
                colors@ == shown_colors(packet.leds(), packet.brightness, n as nat).take(i as int),
            decreases n - i,
        {
            if i < new_colors.len() {
                colors.push(new_colors[i]);
            } else {
                colors.push((0, 0, 0));
            }
            proof {
                assert(colors@ =~= shown_colors(packet.leds(), packet.brightness, n as nat).take(i + 1));
            }
            i = i + 1;
        }
        proof {
            assert(colors@ =~= shown_colors(packet.leds(), packet.brightness, n as nat));
        }
        self.led_colors = colors;
    }
}

/// The emulator's strips by device id, and its display switches.
pub struct LEDStripEmulator {
    pub strips: HashMap<u8, StripState>,
    pub show_debug: bool,
    pub auto_update: bool,
}

impl LEDStripEmulator {
    /// No strips, debug info shown, updating automatically.
    pub fn new() -> (res: Self)
        ensures
            res.strips@ == Map::<u8, StripState>::empty(),
            res.show_debug,
            res.auto_update,
    {
        LEDStripEmulator { strips: HashMap::new(), show_debug: true, auto_update: true }
    }

    /// Replaces the strips by the default configurations (see
    /// `create_default_strips`), each fresh.
    pub fn initialize(&mut self)
        ensures
            final(self).strips@.dom() == set![1u8, 2u8],
            final(self).strips@[1u8].config == (StripConfig { id: 1, num_leds: 67, port: 4210 }),
            final(self).strips@[2u8].config == (StripConfig { id: 2, num_leds: 83, port: 4210 }),
            forall|id: u8|
                #![trigger final(self).strips@[id]]
                final(self).strips@.contains_key(id) ==> {
                    let st = final(self).strips@[id];
                    &&& st.led_colors@ == Seq::new(st.config.num_leds as nat, |i: int| (0u8, 0u8, 0u8))
                    &&& st.current_sequence == 0
                    &&& st.current_brightness == 255
                    &&& st.packet_count == 0
                    &&& st.last_update is None
                },
            final(self).show_debug == old(self).show_debug,
            final(self).auto_update == old(self).auto_update,
    {
        let configs = create_default_strips();
        self.strips.clear();
        let mut i: usize = 0;
        while i < configs.len()
            invariant
                configs@.len() == 2,
                configs@[0] == (StripConfig { id: 1, num_leds: 67, port: 4210 }),
                configs@[1] == (StripConfig { id: 2, num_leds: 83, port: 4210 }),
                i <= 2,
                self.strips@.dom() == Set::new(|id: u8| exists|j: int| 0 <= j < i && configs@[j].id == id),
                forall|id: u8|
                    #![trigger self.strips@[id]]
                    self.strips@.contains_key(id) ==> {
                        let st = self.strips@[id];
                        &&& st.config.id == id
                        &&& exists|j: int| 0 <= j < i && configs@[j] == st.config
                        &&& st.led_colors@ == Seq::new(st.config.num_leds as nat, |k: int| (0u8, 0u8, 0u8))
                        &&& st.current_sequence == 0
                        &&& st.current_brightness == 255
                        &&& st.packet_count == 0
                        &&& st.last_update is None
                    },
                self.show_debug == old(self).show_debug,
                self.auto_update == old(self).auto_update,
            decreases 2 - i,
        {
            let config = configs[i];
            self.strips.insert(config.id, StripState::new(config));
            proof {
                assert(self.strips@.dom() =~= Set::new(
                    |id: u8| exists|j: int| 0 <= j < i + 1 && configs@[j].id == id,
                ));
            }
            i = i + 1;
        }
        proof {
            assert(self.strips@.dom() =~= set![1u8, 2u8]) by {
                assert(configs@[0].id == 1u8);
                assert(configs@[1].id == 2u8);
            }
        }
    }

    /// Whether a packet for `device_id` can be taken: its strip, if any, has
    /// not counted the largest number of packets.
    pub open spec fn can_take(&self, device_id: u8) -> bool {
        self.strips@.contains_key(device_id) ==> self.strips@[device_id].packet_count < usize::MAX
    }

    /// Shows the packet on the strip of its device; packets for unknown
    /// devices are ignored.
    pub fn process_packet(&mut self, packet: &LEDPacket)
        requires
            old(self).can_take(packet.device_id),
        ensures
            final(self).show_debug == old(self).show_debug,
            final(self).auto_update == old(self).auto_update,
            final(self).strips@.dom() == old(self).strips@.dom(),
            forall|id: u8|
                #![trigger final(self).strips@[id]]
                old(self).strips@.contains_key(id) && id != packet.device_id ==> final(self).strips@[id]
                    == old(self).strips@[id],
            old(self).strips@.contains_key(packet.device_id) ==> {
                let (a, b) = (final(self).strips@[packet.device_id], old(self).strips@[packet.device_id]);
                &&& a.config == b.config
                &&& a.current_sequence == packet.sequence
                &&& a.current_brightness == packet.brightness
                &&& a.packet_count == b.packet_count + 1
                &&& a.last_update is Some
                &&& a.led_colors@ == shown_colors(packet.leds(), packet.brightness, b.config.num_leds as nat)
            },
    {
        let id = packet.device_id;
        match self.strips.remove(&id) {
            Some(mut st) => {
                st.update_from_packet(packet);
                self.strips.insert(id, st);
                proof {
                    assert(self.strips@.dom() =~= old(self).strips@.dom());
                }
            },
            None => {
                proof {
                    assert(self.strips@ =~= old(self).strips@);
                }
            },
        }
    }

    /// Handles a message from the listener: a packet is shown (see
    /// `process_packet`); an error is handed back to be reported.
    pub fn handle_message(&mut self, message: StripMessage) -> (res: Option<String>)
        requires
            message matches StripMessage::PacketReceived(p) ==> old(self).can_take(p.device_id),
        ensures
            message matches StripMessage::ListenerError(e) ==> res == Some(e) && final(self).strips@
                == old(self).strips@,
            message is PacketReceived ==> res is None,
            final(self).show_debug == old(self).show_debug,
            final(self).auto_update == old(self).auto_update,
    {
        match message {
            StripMessage::PacketReceived(packet) => {
                self.process_packet(&packet);
                None
            },
            StripMessage::ListenerError(error) => Some(error),
        }
    }
}

/// The emulator shows what a controller strip of fewer than 256 LEDs sends:
/// a strip state for that many LEDs that takes the packet decoded from the
/// strip's frame shows each of the strip's colors dimmed by its brightness.
pub proof fn lemma_emulator_shows_strip(strip: &Strip, p: LEDPacket, source: SourceAddr)
    requires
        strip.wf(),
        strip.num_leds < 256,
        p.parsed_from(strip.frame(), source),
    ensures
        shown_colors(p.leds(), p.brightness, strip.num_leds as nat) == strip.leds().map_values(
            |c: (u8, u8, u8)| dim(c, strip.spec_brightness()),
        ),
{
    crate::emu::packet::lemma_strip_frame_decodes(strip);
    assert(strip.leds().take((strip.num_leds % 256) as int) =~= strip.leds());
    assert(shown_colors(p.leds(), p.brightness, strip.num_leds as nat) =~= strip.leds().map_values(
        |c: (u8, u8, u8)| dim(c, strip.spec_brightness()),
    ));
}

} // verus!
