//! What the emulator's UDP listener decides: the strip configurations it
//! listens for, how a datagram becomes a message for the application, and
//! the count of packets per device.

use vstd::prelude::*;
use std::collections::HashMap;
use crate::emu::packet::{LEDPacket, SourceAddr, packet_error_text, packet_ok, parse_error};

verus! {

/// Configuration for a single LED strip.
#[derive(Debug, Clone, Copy)]
pub struct StripConfig {
    pub id: u8,
    pub num_leds: u8,
    pub port: u16,
}

impl Default for StripConfig {
    /// Strip 1 with 67 LEDs on port 4210.
    fn default() -> (res: Self)
        ensures
            res.id == 1,
            res.num_leds == 67,
            res.port == 4210,
    {
        StripConfig { id: 1, num_leds: 67, port: 4210 }
    }
}

/// The strips of the installation: device 1 with 67 LEDs and device 2 with
/// 83, both on port 4210 (packets carry the device id).
pub fn create_default_strips() -> (res: Vec<StripConfig>)
    ensures
        res@.len() == 2,
        res@[0].id == 1 && res@[0].num_leds == 67 && res@[0].port == 4210,
        res@[1].id == 2 && res@[1].num_leds == 83 && res@[1].port == 4210,
{
    let mut res: Vec<StripConfig> = Vec::new();
    res.push(StripConfig { id: 1, num_leds: 67, port: 4210 });
    res.push(StripConfig { id: 2, num_leds: 83, port: 4210 });
    res
}

/// Message sent from the UDP listener to the application.
#[derive(Debug, Clone)]
pub enum StripMessage {
    PacketReceived(LEDPacket),
    ListenerError(String),
}

/// The number of packets received per device.
pub struct PacketCounter {
    pub counts: HashMap<u8, usize>,
}

impl View for PacketCounter {
    type V = Map<u8, usize>;

    open spec fn view(&self) -> Map<u8, usize> {
        self.counts@
    }
}

/// The count of device `id` in `m`: 0 when it has none.
pub open spec fn count_of(m: Map<u8, usize>, id: u8) -> usize {
    if m.contains_key(id) {
        m[id]
    } else {
        0
    }
}

impl PacketCounter {
    /// No packets counted.
    pub fn new() -> (res: Self)
        ensures
            res@ == Map::<u8, usize>::empty(),
    {
        PacketCounter { counts: HashMap::new() }
    }

    /// Whether one more packet of `device_id` can be counted.
    pub open spec fn can_record(&self, device_id: u8) -> bool {
        count_of(self@, device_id) < usize::MAX
    }

    /// Counts one packet of `device_id`.
    pub fn record(&mut self, device_id: u8)
        requires
            old(self).can_record(device_id),
        ensures
            final(self)@ == old(self)@.insert(device_id, (count_of(old(self)@, device_id) + 1) as usize),
    {
        let cur = match self.counts.get(&device_id) {
            Some(c) => *c,
            None => 0,
        };
        self.counts.insert(device_id, cur + 1);
    }

    /// The number of packets counted for `device_id` (0 when none).
    pub fn get_packet_count(&self, device_id: u8) -> (res: usize)
        ensures
            res == count_of(self@, device_id),
    {
        match self.counts.get(&device_id) {
            Some(c) => *c,
            None => 0,
        }
    }

    /// A copy of all counts.
    pub fn get_all_packet_counts(&self) -> (res: HashMap<u8, usize>)
        ensures
            res@ == self@,
    {
        self.counts.clone()
    }

    /// Forgets the count of `device_id`.
    pub fn reset_packet_count(&mut self, device_id: u8)
        ensures
            final(self)@ == old(self)@.remove(device_id),
    {
        self.counts.remove(&device_id);
    }

    /// Forgets all counts.
    pub fn reset_all_packet_counts(&mut self)
        ensures
            final(self)@ == Map::<u8, usize>::empty(),
    {
        self.counts.clear();
    }
}

/// The counts after a datagram `data` arrives: its device's count one
/// higher when it parses, unchanged otherwise.
pub open spec fn counted_after(m: Map<u8, usize>, data: Seq<u8>) -> Map<u8, usize> {
    if packet_ok(data) {
        m.insert(data[4], (count_of(m, data[4]) + 1) as usize)
    } else {
        m
    }
}

/// The number of the first `k` datagrams that parse and are for device `id`.
pub open spec fn packets_for(datagrams: Seq<Seq<u8>>, id: u8, k: int) -> nat
    decreases k,
{
    if k <= 0 {
        0
    } else {
        packets_for(datagrams, id, k - 1) + if packet_ok(datagrams[k - 1]) && datagrams[k - 1][4] == id {
            1nat
        } else {
            0nat
        }
    }
}

/// The message for a received datagram: the parsed packet, counted for its
/// device; or, when it does not parse, "Parse error from A: E" with the
/// sender's address text A and the parse error E, nothing counted.
pub fn handle_datagram(counter: &mut PacketCounter, data: &[u8], source: SourceAddr, source_text: &str) -> (res:
    StripMessage)
    requires
        packet_ok(data@) ==> old(counter).can_record(data@[4]),
    ensures
        packet_ok(data@) ==> (res matches StripMessage::PacketReceived(p) && p.parsed_from(data@, source)),
        packet_ok(data@) ==> final(counter)@ == old(counter)@.insert(
            data@[4],
            (count_of(old(counter)@, data@[4]) + 1) as usize,
        ),
        final(counter)@ == counted_after(old(counter)@, data@),
        !packet_ok(data@) ==> (res matches StripMessage::ListenerError(msg) && msg@ == "Parse error from "@
            + source_text@ + ": "@ + packet_error_text(parse_error(data@))),
{
    match LEDPacket::from_bytes(data, source) {
        Ok(packet) => {
            counter.record(packet.device_id);
            StripMessage::PacketReceived(packet)
        },
        Err(e) => {
            let mut msg = "Parse error from ".to_owned();
            msg.append(source_text);
            msg.append(": ");
            let text = e.to_string();
            msg.append(text.as_str());
            StripMessage::ListenerError(msg)
        },
    }
}

/// Counting a packet raises its device's count by one and leaves the others;
/// resetting a device's count reads back as 0.
pub proof fn lemma_counter_record_reset(m: Map<u8, usize>, id: u8, other: u8)
    requires
        count_of(m, id) < usize::MAX,
        other != id,
    ensures
        count_of(m.insert(id, (count_of(m, id) + 1) as usize), id) == count_of(m, id) + 1,
        count_of(m.insert(id, (count_of(m, id) + 1) as usize), other) == count_of(m, other),
        count_of(m.remove(id), id) == 0,
        count_of(m.remove(id), other) == count_of(m, other),
{
}

/// Datagram `k` was handled on the counts after the ones before it, with
/// room to count it.
pub open spec fn handled_in_turn(counts: Seq<Map<u8, usize>>, datagrams: Seq<Seq<u8>>, k: int) -> bool {
    &&& packet_ok(datagrams[k]) ==> count_of(counts[k], datagrams[k][4]) < usize::MAX
    &&& counts[k + 1] == counted_after(counts[k], datagrams[k])
}

/// Over a run of datagrams handled one after another (see
/// `handle_datagram`), each device's count grows by the number of the
/// datagrams that parse and are for it; the others leave every count as it
/// was. (`counts[k]` are the counts after the first `k` datagrams; a count
/// stays below the largest `usize` where it grows.)
pub proof fn lemma_counts_over_datagrams(counts: Seq<Map<u8, usize>>, datagrams: Seq<Seq<u8>>)
    requires
        counts.len() == datagrams.len() + 1,
        forall|k: int| 0 <= k < datagrams.len() ==> #[trigger] handled_in_turn(counts, datagrams, k),
    ensures
        forall|id: u8, k: int|
            0 <= k <= datagrams.len() ==> #[trigger] count_of(counts[k], id) == count_of(counts[0], id)
                + packets_for(datagrams, id, k),
{
    assert forall|id: u8, k: int| 0 <= k <= datagrams.len() implies #[trigger] count_of(counts[k], id) == count_of(
        counts[0],
        id,
    ) + packets_for(datagrams, id, k) by {
        lemma_counts_upto(counts, datagrams, id, k);
    }
}

proof fn lemma_counts_upto(counts: Seq<Map<u8, usize>>, datagrams: Seq<Seq<u8>>, id: u8, k: int)
    requires
        counts.len() == datagrams.len() + 1,
        0 <= k <= datagrams.len(),
        forall|j: int| 0 <= j < datagrams.len() ==> #[trigger] handled_in_turn(counts, datagrams, j),
    ensures
        count_of(counts[k], id) == count_of(counts[0], id) + packets_for(datagrams, id, k),
    decreases k,
{
    if k > 0 {
        lemma_counts_upto(counts, datagrams, id, k - 1);
        assert(handled_in_turn(counts, datagrams, k - 1));
    }
}

} // verus!
