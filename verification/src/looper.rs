//! The looper's state: the strips with their modes and delays, and the
//! debug controls that pause the animation loop or step it a number of
//! times. The loop itself (timing, sleeping, sending) runs outside; it asks
//! this state what to do and tells it what happened.

use vstd::prelude::*;
use crate::modes::{Mode, create_mode};
use crate::opts::{OptMap, OptSpec, merge_existing};
use crate::strip::Strip;
use crate::text::{decimal, push_decimal, str_eq};

verus! {

/// Delay between frames by default: the bit pattern of the binary64
/// number 0.025 (seconds).
pub const DEFAULT_DELAY_BITS: u64 = 0x3f99_9999_9999_999a;

/// Delay between frames for still modes (Solid, White, Off): the bit
/// pattern of the binary64 number 0.25 (seconds).
pub const SLOW_DELAY_BITS: u64 = 0x3fd0_0000_0000_0000;

/// The delay a mode gets when it is loaded by `name`: slow for the still
/// modes, else the default.
pub open spec fn load_delay(name: Seq<char>) -> u64 {
    if name == "Solid"@ || name == "White"@ || name == "Off"@ {
        SLOW_DELAY_BITS
    } else {
        DEFAULT_DELAY_BITS
    }
}

/// What the API shows of one strip.
pub struct StripModel {
    pub id: u8,
    pub hostname: Seq<char>,
    pub port: u16,
    pub num_leds: usize,
    pub mode: Seq<char>,
    pub brightness: u8,
    pub delay_bits: u64,
    pub opts: Map<Seq<char>, OptSpec>,
}

/// One strip with its animation.
pub struct StripState {
    pub strip: Strip,
    pub mode: Mode,
    /// Delay between frames, as the bit pattern of a binary64 number of seconds.
    pub delay_bits: u64,
    /// The strip's rainbow palette, one color per LED, for RainbowCycle.
    pub rainbow: Vec<[u8; 3]>,
}

impl View for StripState {
    type V = StripModel;

    open spec fn view(&self) -> StripModel {
        StripModel {
            id: self.strip.dev_id,
            hostname: self.strip.udp_ip@,
            port: self.strip.udp_port,
            num_leds: self.strip.num_leds,
            mode: self.mode.mode_name(),
            brightness: self.strip.spec_brightness(),
            delay_bits: self.delay_bits,
            opts: self.mode.opts_view(),
        }
    }
}

/// A copy of a palette.
fn copy_colors(v: &Vec<[u8; 3]>) -> (res: Vec<[u8; 3]>)
    ensures
        res@ == v@,
{
    let mut res: Vec<[u8; 3]> = Vec::new();
    let mut i: usize = 0;
    while i < v.len()
        invariant
            i <= v@.len(),
            res@ == v@.take(i as int),
        decreases v@.len() - i,
    {
        res.push(v[i]);
        proof {
            assert(res@ =~= v@.take(i as int + 1));
        }
        i = i + 1;
    }
    proof {
        assert(v@.take(v@.len() as int) =~= v@);
    }
    res
}

impl StripState {
    /// The strip and its mode are consistent.
    pub open spec fn wf(&self) -> bool {
        self.strip.wf() && self.mode.wf()
    }

    /// A strip running the mode called `mode_name` at the default delay.
    pub fn new(strip: Strip, mode_name: &str, rainbow: Vec<[u8; 3]>) -> (res: Self)
        requires
            strip.wf(),
        ensures
            res.wf(),
            res.strip == strip,
            res.mode.created(mode_name@, strip, rainbow@),
            res.delay_bits == DEFAULT_DELAY_BITS,
            res.rainbow == rainbow,
    {
        let palette = copy_colors(&rainbow);
        let mode = create_mode(mode_name, &strip, palette);
        StripState { strip, mode, delay_bits: DEFAULT_DELAY_BITS, rainbow }
    }

    /// The strip's global brightness.
    pub fn get_brightness(&self) -> (res: u8)
        requires
            self.wf(),
        ensures
            res == self@.brightness,
    {
        self.strip.brightness()
    }

    /// Sets the strip's global brightness.
    pub fn set_brightness(&mut self, val: u8)
        requires
            old(self).wf(),
        ensures
            final(self).wf(),
            final(self)@ == (StripModel { brightness: val, ..old(self)@ }),
            final(self).mode == old(self).mode,
            final(self).rainbow == old(self).rainbow,
            final(self).strip.frame() == old(self).strip.frame().update(2, val),
            final(self).strip.next_seq() == old(self).strip.next_seq(),
            final(self).strip.outbox() == old(self).strip.outbox(),
    {
        self.strip.set_brightness(val);
    }

    /// The name of the strip's mode.
    pub fn get_mode_name(&self) -> (res: String)
        ensures
            res@ == self@.mode,
    {
        self.mode.name().to_owned()
    }

    /// A copy of the mode's options.
    pub fn get_opts(&self) -> (res: OptMap)
        requires
            self.wf(),
        ensures
            res.wf(),
            res@ == self@.opts,
    {
        self.mode.get_opts()
    }

    /// Sets the mode's options that it already has (see `Mode::set_opts`).
    pub fn set_opts(&mut self, opts: &OptMap)
        requires
            old(self).wf(),
            opts.wf(),
        ensures
            final(self).wf(),
            final(self)@ == (StripModel { opts: merge_existing(old(self)@.opts, opts@), ..old(self)@ }),
            final(self).mode.same_but_opts(&old(self).mode),
            final(self).strip == old(self).strip,
            final(self).rainbow == old(self).rainbow,
    {
        self.mode.set_opts(opts);
    }

    /// Loads the mode called `mode_name` (an unknown name loads NightRider)
    /// and the delay that goes with the name.
    pub fn load_mode(&mut self, mode_name: &str)
        requires
            old(self).wf(),
        ensures
            final(self).wf(),
            final(self).mode.created(mode_name@, old(self).strip, old(self).rainbow@),
            final(self).delay_bits == load_delay(mode_name@),
            final(self).strip == old(self).strip,
            final(self).rainbow == old(self).rainbow,
    {
        let palette = copy_colors(&self.rainbow);
        self.mode = create_mode(mode_name, &self.strip, palette);
        if str_eq(mode_name, "Solid") || str_eq(mode_name, "White") || str_eq(mode_name, "Off") {
            self.delay_bits = SLOW_DELAY_BITS;
        } else {
            self.delay_bits = DEFAULT_DELAY_BITS;
        }
    }

    /// What the API shows of the strip, as a record.
    pub fn info(&self) -> (res: StripInfo)
        requires
            self.wf(),
        ensures
            res.shows(self@),
    {
        StripInfo {
            id: self.strip.dev_id,
            hostname: self.strip.udp_ip.clone(),
            port: self.strip.udp_port,
            num_leds: self.strip.num_leds,
            mode: self.get_mode_name(),
            brightness: self.get_brightness(),
            delay_bits: self.delay_bits,
        }
    }
}

/// A strip as the API lists it.
#[derive(Debug, Clone)]
pub struct StripInfo {
    pub id: u8,
    pub hostname: String,
    pub port: u16,
    pub num_leds: usize,
    pub mode: String,
    pub brightness: u8,
    /// Delay between frames, as the bit pattern of a binary64 number of seconds.
    pub delay_bits: u64,
}

impl StripInfo {
    /// The record shows the strip `m`.
    pub open spec fn shows(&self, m: StripModel) -> bool {
        &&& self.id == m.id
        &&& self.hostname@ == m.hostname
        &&& self.port == m.port
        &&& self.num_leds == m.num_leds
        &&& self.mode@ == m.mode
        &&& self.brightness == m.brightness
        &&& self.delay_bits == m.delay_bits
    }
}

/// The first place in `strips`, from `k` on, of the strip with id `id`.
pub open spec fn index_from(strips: Seq<StripModel>, id: u8, k: int) -> Option<int>
    decreases strips.len() - k,
{
    if k < 0 || k >= strips.len() {
        None
    } else if strips[k].id == id {
        Some(k)
    } else {
        index_from(strips, id, k + 1)
    }
}

/// The place of the first strip with id `id`, if any.
pub open spec fn index_of(strips: Seq<StripModel>, id: u8) -> Option<int> {
    index_from(strips, id, 0)
}

/// Where `index_from` finds a strip, it has the id, and no strip between
/// `k` and there has it; where it finds none, no strip from `k` on has it.
pub proof fn lemma_index_from(strips: Seq<StripModel>, id: u8, k: int)
    requires
        0 <= k,
    ensures
        index_from(strips, id, k) matches Some(i) ==> k <= i < strips.len() && strips[i].id == id
            && forall|j: int| k <= j < i ==> strips[j].id != id,
        index_from(strips, id, k) is None ==> forall|j: int| k <= j < strips.len() ==> strips[j].id != id,
    decreases strips.len() - k,
{
    if k < strips.len() && strips[k].id != id {
        lemma_index_from(strips, id, k + 1);
    }
}

/// Strips with the same ids in the same places are found in the same place.
pub proof fn lemma_index_same_ids(a: Seq<StripModel>, b: Seq<StripModel>, id: u8, k: int)
    requires
        a.len() == b.len(),
        forall|i: int| 0 <= i < a.len() ==> (#[trigger] a[i]).id == b[i].id,
    ensures
        index_from(a, id, k) == index_from(b, id, k),
    decreases a.len() - k,
{
    if 0 <= k < a.len() {
        lemma_index_same_ids(a, b, id, k + 1);
    }
}

/// The running state of the loop.
pub open spec fn running_text() -> Seq<char> {
    "running"@
}

/// The paused state of the loop.
pub open spec fn paused_text() -> Seq<char> {
    "paused"@
}

/// What the API shows of the looper.
pub struct LooperModel {
    pub strips: Seq<StripModel>,
    pub debug_mode: bool,
    pub loop_state: Seq<char>,
    pub iterations_remaining: i64,
}

impl LooperModel {
    /// The model with strip `i` replaced by `m`.
    pub open spec fn with_strip(self, i: int, m: StripModel) -> LooperModel {
        LooperModel { strips: self.strips.update(i, m), ..self }
    }

    /// The name of the first strip's mode, or "Unknown" when there is no strip.
    pub open spec fn current_mode(self) -> Seq<char> {
        if self.strips.len() > 0 {
            self.strips[0].mode
        } else {
            "Unknown"@
        }
    }

    /// The first strip's brightness, or 255 when there is no strip.
    pub open spec fn brightness(self) -> u8 {
        if self.strips.len() > 0 {
            self.strips[0].brightness
        } else {
            255
        }
    }

    /// The first strip's delay, or the default when there is no strip.
    pub open spec fn delay_bits(self) -> u64 {
        if self.strips.len() > 0 {
            self.strips[0].delay_bits
        } else {
            DEFAULT_DELAY_BITS
        }
    }

    /// The first strip's options, or none when there is no strip.
    pub open spec fn opts(self) -> Map<Seq<char>, OptSpec> {
        if self.strips.len() > 0 {
            self.strips[0].opts
        } else {
            Map::empty()
        }
    }

    /// Every strip with brightness `v`.
    pub open spec fn with_brightness(self, v: u8) -> LooperModel {
        LooperModel {
            strips: self.strips.map_values(|m: StripModel| StripModel { brightness: v, ..m }),
            ..self
        }
    }

    /// Every strip with delay `v`.
    pub open spec fn with_delay(self, v: u64) -> LooperModel {
        LooperModel {
            strips: self.strips.map_values(|m: StripModel| StripModel { delay_bits: v, ..m }),
            ..self
        }
    }

    /// Every strip with the options it shares with `opts` taken from `opts`.
    pub open spec fn with_opts(self, opts: Map<Seq<char>, OptSpec>) -> LooperModel {
        LooperModel {
            strips: self.strips.map_values(
                |m: StripModel| StripModel { opts: merge_existing(m.opts, opts), ..m },
            ),
            ..self
        }
    }

    /// The mode of strip `id`.
    pub open spec fn strip_mode(self, id: u8) -> Option<Seq<char>> {
        match index_of(self.strips, id) {
            Some(i) => Some(self.strips[i].mode),
            None => None,
        }
    }

    /// The brightness of strip `id`.
    pub open spec fn strip_brightness(self, id: u8) -> Option<u8> {
        match index_of(self.strips, id) {
            Some(i) => Some(self.strips[i].brightness),
            None => None,
        }
    }

    /// The delay of strip `id`.
    pub open spec fn strip_delay(self, id: u8) -> Option<u64> {
        match index_of(self.strips, id) {
            Some(i) => Some(self.strips[i].delay_bits),
            None => None,
        }
    }

    /// The options of strip `id`.
    pub open spec fn strip_opts(self, id: u8) -> Option<Map<Seq<char>, OptSpec>> {
        match index_of(self.strips, id) {
            Some(i) => Some(self.strips[i].opts),
            None => None,
        }
    }

    /// The model with strip `id` (when there is one) at brightness `v`.
    pub open spec fn with_strip_brightness(self, id: u8, v: u8) -> LooperModel {
        match index_of(self.strips, id) {
            Some(i) => self.with_strip(i, StripModel { brightness: v, ..self.strips[i] }),
            None => self,
        }
    }

    /// The model with strip `id` (when there is one) at delay `v`.
    pub open spec fn with_strip_delay(self, id: u8, v: u64) -> LooperModel {
        match index_of(self.strips, id) {
            Some(i) => self.with_strip(i, StripModel { delay_bits: v, ..self.strips[i] }),
            None => self,
        }
    }

    /// The model with strip `id` (when there is one) taking from `opts` the
    /// options it has.
    pub open spec fn with_strip_opts(self, id: u8, opts: Map<Seq<char>, OptSpec>) -> LooperModel {
        match index_of(self.strips, id) {
            Some(i) => self.with_strip(
                i,
                StripModel { opts: merge_existing(self.strips[i].opts, opts), ..self.strips[i] },
            ),
            None => self,
        }
    }

    /// The model after a loop control request: outside debug mode nothing
    /// changes; a number of iterations runs that many and then pauses;
    /// else "pause" pauses and "running" runs without limit.
    pub open spec fn after_control(self, iterations: Option<i64>, next_state: Option<Seq<char>>) -> LooperModel {
        if !self.debug_mode {
            self
        } else if iterations is Some {
            LooperModel { iterations_remaining: iterations->0, loop_state: running_text(), ..self }
        } else if next_state == Some("pause"@) {
            LooperModel { loop_state: paused_text(), ..self }
        } else if next_state == Some(running_text()) {
            LooperModel { loop_state: running_text(), iterations_remaining: -1i64, ..self }
        } else {
            self
        }
    }

    /// The model after one pass of the loop: in debug mode with iterations
    /// left, one fewer, pausing at none.
    pub open spec fn after_pass(self) -> LooperModel {
        if self.debug_mode && self.iterations_remaining > 0 {
            let left = self.iterations_remaining - 1;
            if left == 0 {
                LooperModel { iterations_remaining: 0, loop_state: paused_text(), ..self }
            } else {
                LooperModel { iterations_remaining: left as i64, ..self }
            }
        } else {
            self
        }
    }

    /// The model after `k` passes of the loop.
    pub open spec fn after_passes(self, k: nat) -> LooperModel
        decreases k,
    {
        if k == 0 {
            self
        } else {
            self.after_passes((k - 1) as nat).after_pass()
        }
    }
}

/// The text of an optional string.
pub open spec fn opt_text(s: Option<String>) -> Option<Seq<char>> {
    match s {
        Some(t) => Some(t@),
        None => None,
    }
}

impl LooperModel {
    /// The model with strip `id` (when there is one) at the given hostname
    /// and port, each kept where none is given.
    pub open spec fn configured(self, id: u8, hostname: Option<Seq<char>>, port: Option<u16>) -> LooperModel {
        match index_of(self.strips, id) {
            Some(i) => self.with_strip(
                i,
                StripModel {
                    hostname: if hostname is Some {
                        hostname->0
                    } else {
                        self.strips[i].hostname
                    },
                    port: if port is Some {
                        port->0
                    } else {
                        self.strips[i].port
                    },
                    ..self.strips[i]
                },
            ),
            None => self,
        }
    }
}

/// The result of a loop control request.
#[derive(Debug, Clone)]
pub struct LoopControlResult {
    pub state: String,
    pub iterations_remaining: i64,
    pub error: Option<String>,
}

/// The loop's state as the API reports it.
#[derive(Debug, Clone)]
pub struct LoopStateResponse {
    pub state: String,
    pub iterations_remaining: i64,
    pub debug_mode: bool,
}

/// The looper's state: the strips and the debug controls.
pub struct LooperState {
    pub strip_states: Vec<StripState>,
    pub debug_mode: bool,
    /// "running" or "paused".
    pub loop_state: String,
    /// Passes left before pausing; -1 means unlimited.
    pub iterations_remaining: i64,
}

impl View for LooperState {
    type V = LooperModel;

    open spec fn view(&self) -> LooperModel {
        LooperModel {
            strips: self.strip_states@.map_values(|s: StripState| s@),
            debug_mode: self.debug_mode,
            loop_state: self.loop_state@,
            iterations_remaining: self.iterations_remaining,
        }
    }
}

impl LooperState {
    /// Every strip is consistent and the loop is running or paused.
    pub open spec fn wf(&self) -> bool {
        &&& forall|i: int| 0 <= i < self.strip_states@.len() ==> (#[trigger] self.strip_states@[i]).wf()
        &&& (self.loop_state@ == running_text() || self.loop_state@ == paused_text())
    }

    /// The two strips of the installation, each running NightRider at the
    /// default delay, with the loop running without limit. `rainbow` gives a
    /// strip's rainbow palette from its LED count.
    pub fn new<F: Fn(usize) -> Vec<[u8; 3]>>(debug_mode: bool, rainbow: F) -> (res: Self)
        requires
            forall|n: usize| rainbow.requires((n,)),
        ensures
            res.wf(),
            res@.strips.len() == 2,
            res@.strips[0].id == 1,
            res@.strips[0].hostname == "esp32c6-00.lan"@,
            res@.strips[0].num_leds == 67,
            res@.strips[1].id == 2,
            res@.strips[1].hostname == "esp32c6-01.lan"@,
            res@.strips[1].num_leds == 83,
            forall|i: int|
                0 <= i < 2 ==> {
                    &&& (#[trigger] res.strip_states@[i]).mode matches Mode::NightRider(m) && m.fresh()
                    &&& res@.strips[i].port == crate::strip::DEFAULT_UDP_PORT
                    &&& res@.strips[i].brightness == 255
                    &&& res@.strips[i].delay_bits == DEFAULT_DELAY_BITS
                    &&& res.strip_states@[i].strip.outbox().len() == 0
                    &&& res.strip_states@[i].strip.next_seq() == 0
                    &&& rainbow.ensures((res@.strips[i].num_leds,), res.strip_states@[i].rainbow)
                    &&& res.strip_states@[i].strip.leds() == Seq::new(
                        res@.strips[i].num_leds as nat,
                        |j: int| (0u8, 0u8, 0u8),
                    )
                },
            res@.debug_mode == debug_mode,
            res@.loop_state == running_text(),
            res@.iterations_remaining == -1,
    {
        let a = Strip::new(1, "esp32c6-00.lan", 67);
        let b = Strip::new(2, "esp32c6-01.lan", 83);
        let pa = rainbow(67);
        let pb = rainbow(83);
        let sa = StripState::new(a, "NightRider", pa);
        let sb = StripState::new(b, "NightRider", pb);
        proof {
            crate::modes::lemma_mode_names_distinct();
        }
        let mut strip_states: Vec<StripState> = Vec::new();
        strip_states.push(sa);
        strip_states.push(sb);
        let res = LooperState {
            strip_states,
            debug_mode,
            loop_state: "running".to_owned(),
            iterations_remaining: -1,
        };
        proof {
            assert(res.strip_states@[0].mode matches Mode::NightRider(m) && m.fresh());
            assert(res.strip_states@[1].mode matches Mode::NightRider(m) && m.fresh());
            assert(res.strip_states@[0].strip.leds() == Seq::new(67nat, |j: int| (0u8, 0u8, 0u8)));
            assert(rainbow.ensures((67usize,), res.strip_states@[0].rainbow));
            assert(rainbow.ensures((83usize,), res.strip_states@[1].rainbow));
        }
        res
    }

    /// The place of the strip with id `strip_id`, if any.
    fn find_strip_state(&self, strip_id: u8) -> (res: Option<usize>)
        ensures
            res matches Some(i) ==> i < self.strip_states@.len() && index_of(self@.strips, strip_id) == Some(
                i as int,
            ),
            res is None ==> index_of(self@.strips, strip_id) is None,
    {
        let mut i: usize = 0;
        while i < self.strip_states.len()
            invariant
                i <= self.strip_states@.len(),
                index_of(self@.strips, strip_id) == index_from(self@.strips, strip_id, i as int),
            decreases self.strip_states@.len() - i,
        {
            proof {
                assert(self@.strips[i as int].id == self.strip_states@[i as int].strip.dev_id);
            }
            if self.strip_states[i].strip.dev_id == strip_id {
                return Some(i);
            }
            i = i + 1;
        }
        None
    }

    /// The name of the first strip's mode, or "Unknown".
    pub fn get_current_mode_name(&self) -> (res: String)
        ensures
            res@ == self@.current_mode(),
    {
        if self.strip_states.len() > 0 {
            self.strip_states[0].get_mode_name()
        } else {
            "Unknown".to_owned()
        }
    }

    /// The first strip's brightness, or 255.
    pub fn get_brightness(&self) -> (res: u8)
        requires
            self.wf(),
        ensures
            res == self@.brightness(),
    {
        if self.strip_states.len() > 0 {
            self.strip_states[0].get_brightness()
        } else {
            255
        }
    }

    /// The first strip's delay, or the default.
    pub fn get_delay(&self) -> (res: u64)
        ensures
            res == self@.delay_bits(),
    {
        if self.strip_states.len() > 0 {
            self.strip_states[0].delay_bits
        } else {
            DEFAULT_DELAY_BITS
        }
    }

    /// The first strip's options, or none.
    pub fn get_opts(&self) -> (res: OptMap)
        requires
            self.wf(),
        ensures
            res.wf(),
            res@ == self@.opts(),
    {
        if self.strip_states.len() > 0 {
            self.strip_states[0].get_opts()
        } else {
            OptMap::new()
        }
    }

    /// The mode of strip `strip_id`.
    pub fn get_strip_mode(&self, strip_id: u8) -> (res: Option<String>)
        ensures
            res matches Some(s) ==> self@.strip_mode(strip_id) == Some(s@),
            res is None ==> self@.strip_mode(strip_id) is None,
    {
        match self.find_strip_state(strip_id) {
            Some(idx) => Some(self.strip_states[idx].get_mode_name()),
            None => None,
        }
    }

    /// The brightness of strip `strip_id`.
    pub fn get_strip_brightness(&self, strip_id: u8) -> (res: Option<u8>)
        requires
            self.wf(),
        ensures
            res == self@.strip_brightness(strip_id),
    {
        match self.find_strip_state(strip_id) {
            Some(idx) => Some(self.strip_states[idx].get_brightness()),
            None => None,
        }
    }

    /// The delay of strip `strip_id`.
    pub fn get_strip_delay(&self, strip_id: u8) -> (res: Option<u64>)
        ensures
            res == self@.strip_delay(strip_id),
    {
        match self.find_strip_state(strip_id) {
            Some(idx) => Some(self.strip_states[idx].delay_bits),
            None => None,
        }
    }

    /// The options of strip `strip_id`.
    pub fn get_strip_opts(&self, strip_id: u8) -> (res: Option<OptMap>)
        requires
            self.wf(),
        ensures
            res matches Some(o) ==> o.wf() && self@.strip_opts(strip_id) == Some(o@),
            res is None ==> self@.strip_opts(strip_id) is None,
    {
        match self.find_strip_state(strip_id) {
            Some(idx) => Some(self.strip_states[idx].get_opts()),
            None => None,
        }
    }

    /// Every strip as the API lists it.
    pub fn get_strips(&self) -> (res: Vec<StripInfo>)
        requires
            self.wf(),
        ensures
            res@.len() == self@.strips.len(),
            forall|i: int| 0 <= i < res@.len() ==> (#[trigger] res@[i]).shows(self@.strips[i]),
    {
        let mut res: Vec<StripInfo> = Vec::new();
        let mut i: usize = 0;
        while i < self.strip_states.len()
            invariant
                self.wf(),
                i <= self.strip_states@.len(),
                res@.len() == i,
                forall|j: int| 0 <= j < i ==> (#[trigger] res@[j]).shows(self@.strips[j]),
            decreases self.strip_states@.len() - i,
        {
            res.push(self.strip_states[i].info());
            i = i + 1;
        }
        res
    }

    /// The loop's state.
    pub fn get_loop_state(&self) -> (res: LoopStateResponse)
        ensures
            res.state@ == self@.loop_state,
            res.iterations_remaining == self@.iterations_remaining,
            res.debug_mode == self@.debug_mode,
    {
        LoopStateResponse {
            state: self.loop_state.clone(),
            iterations_remaining: self.iterations_remaining,
            debug_mode: self.debug_mode,
        }
    }
}

impl LooperState {
    /// The strips other than `i` and the loop controls are as in `old`.
    pub open spec fn others_unchanged(&self, old: &LooperState, i: int) -> bool {
        &&& self.strip_states@.len() == old.strip_states@.len()
        &&& forall|j: int|
            0 <= j < self.strip_states@.len() && j != i ==> #[trigger] self.strip_states@[j]
                == old.strip_states@[j]
        &&& self.debug_mode == old.debug_mode
        &&& self.loop_state == old.loop_state
        &&& self.iterations_remaining == old.iterations_remaining
    }

    /// Sets every strip's brightness.
    pub fn set_brightness(&mut self, val: u8)
        requires
            old(self).wf(),
        ensures
            final(self).wf(),
            final(self)@ == old(self)@.with_brightness(val),
            final(self).strip_states@.len() == old(self).strip_states@.len(),
            final(self).loop_state == old(self).loop_state,
            forall|i: int|
                0 <= i < final(self).strip_states@.len() ==> {
                    let (a, b) = (#[trigger] final(self).strip_states@[i], old(self).strip_states@[i]);
                    &&& a.mode == b.mode
                    &&& a.rainbow == b.rainbow
                    &&& a.strip.frame() == b.strip.frame().update(2, val)
                    &&& a.strip.next_seq() == b.strip.next_seq()
                    &&& a.strip.outbox() == b.strip.outbox()
                },
    {
        let n = self.strip_states.len();
        let mut i: usize = 0;
        while i < n
            invariant
                n == old(self).strip_states@.len(),
                n == self.strip_states@.len(),
                i <= n,
                self.debug_mode == old(self).debug_mode,
                self.loop_state == old(self).loop_state,
                self.iterations_remaining == old(self).iterations_remaining,
                forall|j: int| i <= j < n ==> #[trigger] self.strip_states@[j] == old(self).strip_states@[j],
                forall|j: int| 0 <= j < n ==> (#[trigger] old(self).strip_states@[j]).wf(),
                forall|j: int|
                    0 <= j < i ==> {
                        let (a, b) = (#[trigger] self.strip_states@[j], old(self).strip_states@[j]);
                        &&& a.wf()
                        &&& a@ == (StripModel { brightness: val, ..b@ })
                        &&& a.mode == b.mode
                        &&& a.rainbow == b.rainbow
                        &&& a.strip.frame() == b.strip.frame().update(2, val)
                        &&& a.strip.next_seq() == b.strip.next_seq()
                        &&& a.strip.outbox() == b.strip.outbox()
                    },
            decreases n - i,
        {
            self.strip_states[i].set_brightness(val);
            i = i + 1;
        }
        proof {
            assert(self@.strips =~= old(self)@.with_brightness(val).strips);
        }
    }
}

impl LooperState {
    /// Sets every strip's delay.
    pub fn set_delay(&mut self, val: u64)
        requires
            old(self).wf(),
        ensures
            final(self).wf(),
            final(self)@ == old(self)@.with_delay(val),
            final(self).strip_states@.len() == old(self).strip_states@.len(),
            forall|i: int|
                0 <= i < final(self).strip_states@.len() ==> {
                    let (a, b) = (#[trigger] final(self).strip_states@[i], old(self).strip_states@[i]);
                    &&& a.mode == b.mode
                    &&& a.rainbow == b.rainbow
                    &&& a.strip == b.strip
                },
    {
        let n = self.strip_states.len();
        let mut i: usize = 0;
        while i < n
            invariant
                n == old(self).strip_states@.len(),
                n == self.strip_states@.len(),
                i <= n,
                self.debug_mode == old(self).debug_mode,
                self.loop_state == old(self).loop_state,
                self.iterations_remaining == old(self).iterations_remaining,
                forall|j: int| i <= j < n ==> #[trigger] self.strip_states@[j] == old(self).strip_states@[j],
                forall|j: int| 0 <= j < n ==> (#[trigger] old(self).strip_states@[j]).wf(),
                forall|j: int|
                    0 <= j < i ==> {
                        let (a, b) = (#[trigger] self.strip_states@[j], old(self).strip_states@[j]);
                        &&& a.wf()
                        &&& a@ == (StripModel { delay_bits: val, ..b@ })
                        &&& a.mode == b.mode
                        &&& a.rainbow == b.rainbow
                        &&& a.strip == b.strip
                    },
            decreases n - i,
        {
            self.strip_states[i].delay_bits = val;
            i = i + 1;
        }
        proof {
            assert(self@.strips =~= old(self)@.with_delay(val).strips);
        }
    }

    /// Gives every strip's mode the options of `opts` that it already has.
    pub fn set_opts(&mut self, opts: &OptMap)
        requires
            old(self).wf(),
            opts.wf(),
        ensures
            final(self).wf(),
            final(self)@ == old(self)@.with_opts(opts@),
            final(self).strip_states@.len() == old(self).strip_states@.len(),
            forall|i: int|
                0 <= i < final(self).strip_states@.len() ==> {
                    let (a, b) = (#[trigger] final(self).strip_states@[i], old(self).strip_states@[i]);
                    &&& a.mode.same_but_opts(&b.mode)
                    &&& a.rainbow == b.rainbow
                    &&& a.strip == b.strip
                },
    {
        let n = self.strip_states.len();
        let mut i: usize = 0;
        while i < n
            invariant
                opts.wf(),
                n == old(self).strip_states@.len(),
                n == self.strip_states@.len(),
                i <= n,
                self.debug_mode == old(self).debug_mode,
                self.loop_state == old(self).loop_state,
                self.iterations_remaining == old(self).iterations_remaining,
                forall|j: int| i <= j < n ==> #[trigger] self.strip_states@[j] == old(self).strip_states@[j],
                forall|j: int| 0 <= j < n ==> (#[trigger] old(self).strip_states@[j]).wf(),
                forall|j: int|
                    0 <= j < i ==> {
                        let (a, b) = (#[trigger] self.strip_states@[j], old(self).strip_states@[j]);
                        &&& a.wf()
                        &&& a@ == (StripModel { opts: merge_existing(b@.opts, opts@), ..b@ })
                        &&& a.mode.same_but_opts(&b.mode)
                        &&& a.rainbow == b.rainbow
                        &&& a.strip == b.strip
                    },
            decreases n - i,
        {
            let copy = opts.deep_clone();
            self.strip_states[i].set_opts(&copy);
            i = i + 1;
        }
        proof {
            assert(self@.strips =~= old(self)@.with_opts(opts@).strips);
        }
    }

    /// `self` is `old` with the mode called `name` loaded on every strip,
    /// with the delay that goes with the name.
    pub open spec fn modes_loaded(&self, old: &LooperState, name: Seq<char>) -> bool {
        &&& self.strip_states@.len() == old.strip_states@.len()
        &&& self.debug_mode == old.debug_mode
        &&& self.loop_state == old.loop_state
        &&& self.iterations_remaining == old.iterations_remaining
        &&& forall|i: int|
            0 <= i < self.strip_states@.len() ==> {
                let (a, b) = (#[trigger] self.strip_states@[i], old.strip_states@[i]);
                &&& a.mode.created(name, b.strip, b.rainbow@)
                &&& a.delay_bits == load_delay(name)
                &&& a.rainbow == b.rainbow
                &&& a.strip == b.strip
            }
    }

    /// Loads the mode called `mode_name` on every strip (NightRider for an
    /// unknown name), with the delay that goes with the name.
    pub fn set_mode(&mut self, mode_name: &str)
        requires
            old(self).wf(),
        ensures
            final(self).wf(),
            final(self).modes_loaded(old(self), mode_name@),
    {
        let n = self.strip_states.len();
        let mut i: usize = 0;
        while i < n
            invariant
                n == old(self).strip_states@.len(),
                n == self.strip_states@.len(),
                i <= n,
                self.debug_mode == old(self).debug_mode,
                self.loop_state == old(self).loop_state,
                self.iterations_remaining == old(self).iterations_remaining,
                forall|j: int| i <= j < n ==> #[trigger] self.strip_states@[j] == old(self).strip_states@[j],
                forall|j: int| 0 <= j < n ==> (#[trigger] old(self).strip_states@[j]).wf(),
                forall|j: int|
                    0 <= j < i ==> {
                        let (a, b) = (#[trigger] self.strip_states@[j], old(self).strip_states@[j]);
                        &&& a.wf()
                        &&& a.mode.created(mode_name@, b.strip, b.rainbow@)
                        &&& a.delay_bits == load_delay(mode_name@)
                        &&& a.rainbow == b.rainbow
                        &&& a.strip == b.strip
                    },
            decreases n - i,
        {
            self.strip_states[i].load_mode(mode_name);
            i = i + 1;
        }
    }

    /// Loads the mode called `mode_name` on strip `strip_id` (NightRider for
    /// an unknown name) with the delay that goes with the name, and returns
    /// the loaded mode's name; `None` when there is no such strip.
    pub fn set_strip_mode(&mut self, strip_id: u8, mode_name: &str) -> (res: Option<String>)
        requires
            old(self).wf(),
        ensures
            final(self).wf(),
            match index_of(old(self)@.strips, strip_id) {
                Some(i) => {
                    let (a, b) = (final(self).strip_states@[i], old(self).strip_states@[i]);
                    &&& res is Some
                    &&& res->0@ == a.mode.mode_name()
                    &&& final(self).others_unchanged(old(self), i)
                    &&& a.mode.created(mode_name@, b.strip, b.rainbow@)
                    &&& a.delay_bits == load_delay(mode_name@)
                    &&& a.rainbow == b.rainbow
                    &&& a.strip == b.strip
                },
                None => res is None && *final(self) == *old(self),
            },
    {
        match self.find_strip_state(strip_id) {
            Some(idx) => {
                self.strip_states[idx].load_mode(mode_name);
                Some(self.strip_states[idx].get_mode_name())
            },
            None => None,
        }
    }

    /// Sets the brightness of strip `strip_id` and returns it as read back;
    /// `None` when there is no such strip.
    pub fn set_strip_brightness(&mut self, strip_id: u8, val: u8) -> (res: Option<u8>)
        requires
            old(self).wf(),
        ensures
            final(self).wf(),
            final(self)@ == old(self)@.with_strip_brightness(strip_id, val),
            res == final(self)@.strip_brightness(strip_id),
            match index_of(old(self)@.strips, strip_id) {
                Some(i) => {
                    let (a, b) = (final(self).strip_states@[i], old(self).strip_states@[i]);
                    &&& final(self).others_unchanged(old(self), i)
                    &&& a.mode == b.mode
                    &&& a.rainbow == b.rainbow
                    &&& a.strip.frame() == b.strip.frame().update(2, val)
                    &&& a.strip.next_seq() == b.strip.next_seq()
                    &&& a.strip.outbox() == b.strip.outbox()
                },
                None => *final(self) == *old(self),
            },
    {
        match self.find_strip_state(strip_id) {
            Some(idx) => {
                self.strip_states[idx].set_brightness(val);
                proof {
                    assert(self@.strips =~= old(self)@.with_strip_brightness(strip_id, val).strips);
                    lemma_index_same_ids(old(self)@.strips, self@.strips, strip_id, 0);
                }
                Some(self.strip_states[idx].get_brightness())
            },
            None => None,
        }
    }
}

impl LooperState {
    /// Sets the delay of strip `strip_id` and returns it as read back;
    /// `None` when there is no such strip.
    pub fn set_strip_delay(&mut self, strip_id: u8, val: u64) -> (res: Option<u64>)
        requires
            old(self).wf(),
        ensures
            final(self).wf(),
            final(self)@ == old(self)@.with_strip_delay(strip_id, val),
            res == final(self)@.strip_delay(strip_id),
            match index_of(old(self)@.strips, strip_id) {
                Some(i) => {
                    let (a, b) = (final(self).strip_states@[i], old(self).strip_states@[i]);
                    &&& final(self).others_unchanged(old(self), i)
                    &&& a.mode == b.mode
                    &&& a.rainbow == b.rainbow
                    &&& a.strip == b.strip
                },
                None => *final(self) == *old(self),
            },
    {
        match self.find_strip_state(strip_id) {
            Some(idx) => {
                self.strip_states[idx].delay_bits = val;
                proof {
                    assert(self@.strips =~= old(self)@.with_strip_delay(strip_id, val).strips);
                    lemma_index_same_ids(old(self)@.strips, self@.strips, strip_id, 0);
                }
                Some(self.strip_states[idx].delay_bits)
            },
            None => None,
        }
    }

    /// Gives the mode of strip `strip_id` the options of `opts` that it
    /// already has, and returns a copy of its options; `None` when there is
    /// no such strip.
    pub fn set_strip_opts(&mut self, strip_id: u8, opts: &OptMap) -> (res: Option<OptMap>)
        requires
            old(self).wf(),
            opts.wf(),
        ensures
            final(self).wf(),
            final(self)@ == old(self)@.with_strip_opts(strip_id, opts@),
            res matches Some(o) ==> o.wf() && final(self)@.strip_opts(strip_id) == Some(o@),
            res is None ==> final(self)@.strip_opts(strip_id) is None,
            match index_of(old(self)@.strips, strip_id) {
                Some(i) => {
                    let (a, b) = (final(self).strip_states@[i], old(self).strip_states@[i]);
                    &&& final(self).others_unchanged(old(self), i)
                    &&& a.mode.same_but_opts(&b.mode)
                    &&& a.rainbow == b.rainbow
                    &&& a.strip == b.strip
                },
                None => *final(self) == *old(self),
            },
    {
        match self.find_strip_state(strip_id) {
            Some(idx) => {
                self.strip_states[idx].set_opts(opts);
                proof {
                    assert(self@.strips =~= old(self)@.with_strip_opts(strip_id, opts@).strips);
                    lemma_index_same_ids(old(self)@.strips, self@.strips, strip_id, 0);
                }
                Some(self.strip_states[idx].get_opts())
            },
            None => None,
        }
    }

    /// In debug mode, points strip `strip_id` at the given hostname and
    /// port (each kept where none is given) and returns the strip as the API
    /// lists it. Errors: "debug mode not enabled" outside debug mode, and
    /// "strip N not found" when there is no such strip; then nothing changes.
    pub fn configure_strip(&mut self, strip_id: u8, hostname: Option<String>, port: Option<u16>) -> (res:
        Result<StripInfo, String>)
        requires
            old(self).wf(),
        ensures
            final(self).wf(),
            !old(self).debug_mode ==> res is Err && res->Err_0@ == "debug mode not enabled"@
                && *final(self) == *old(self),
            old(self).debug_mode ==> match index_of(old(self)@.strips, strip_id) {
                Some(i) => {
                    let (a, b) = (final(self).strip_states@[i], old(self).strip_states@[i]);
                    &&& res is Ok
                    &&& final(self)@ == old(self)@.configured(strip_id, opt_text(hostname), port)
                    &&& res->Ok_0.shows(final(self)@.strips[i])
                    &&& final(self).others_unchanged(old(self), i)
                    &&& a.mode == b.mode
                    &&& a.rainbow == b.rainbow
                    &&& a.delay_bits == b.delay_bits
                    &&& a.strip.frame() == b.strip.frame()
                    &&& a.strip.next_seq() == b.strip.next_seq()
                    &&& a.strip.outbox() == b.strip.outbox()
                    &&& a.strip.dev_id == b.strip.dev_id
                    &&& a.strip.num_leds == b.strip.num_leds
                },
                None => {
                    &&& res is Err
                    &&& res->Err_0@ == "strip "@ + decimal(strip_id as nat) + " not found"@
                    &&& *final(self) == *old(self)
                },
            },
    {
        if !self.debug_mode {
            return Err("debug mode not enabled".to_owned());
        }
        match self.find_strip_state(strip_id) {
            Some(idx) => {
                let ghost h = opt_text(hostname);
                if let Some(h) = hostname {
                    self.strip_states[idx].strip.udp_ip = h;
                }
                if let Some(p) = port {
                    self.strip_states[idx].strip.udp_port = p;
                }
                proof {
                    assert(self@.strips =~= old(self)@.configured(strip_id, h, port).strips);
                }
                Ok(self.strip_states[idx].info())
            },
            None => {
                let mut msg = "strip ".to_owned();
                push_decimal(&mut msg, strip_id as u64);
                msg.append(" not found");
                Err(msg)
            },
        }
    }

    /// Runs a loop control request (see `LooperModel::after_control`) and
    /// reports the loop's state; outside debug mode it changes nothing and
    /// reports "debug mode not enabled".
    pub fn loop_control(&mut self, iterations: Option<i64>, next_state: Option<String>) -> (res:
        LoopControlResult)
        requires
            old(self).wf(),
        ensures
            final(self).wf(),
            final(self)@ == old(self)@.after_control(iterations, opt_text(next_state)),
            final(self).strip_states == old(self).strip_states,
            res.state@ == final(self)@.loop_state,
            res.iterations_remaining == final(self)@.iterations_remaining,
            !old(self).debug_mode ==> res.error is Some && res.error->0@ == "debug mode not enabled"@,
            old(self).debug_mode ==> res.error is None,
    {
        if !self.debug_mode {
            return LoopControlResult {
                state: self.loop_state.clone(),
                iterations_remaining: self.iterations_remaining,
                error: Some("debug mode not enabled".to_owned()),
            };
        }
        if let Some(iters) = iterations {
            self.iterations_remaining = iters;
            self.loop_state = "running".to_owned();
        } else if let Some(state) = next_state {
            if str_eq(state.as_str(), "pause") {
                self.loop_state = "paused".to_owned();
            } else if str_eq(state.as_str(), "running") {
                self.loop_state = "running".to_owned();
                self.iterations_remaining = -1;
            }
        }
        LoopControlResult {
            state: self.loop_state.clone(),
            iterations_remaining: self.iterations_remaining,
            error: None,
        }
    }

    /// Whether the loop should wait before its next pass: paused in debug mode.
    pub fn should_wait(&self) -> (res: bool)
        ensures
            res == (self@.debug_mode && self@.loop_state == paused_text()),
    {
        self.debug_mode && str_eq(self.loop_state.as_str(), "paused")
    }

    /// Whether the loop is running (not paused).
    pub fn is_running(&self) -> (res: bool)
        ensures
            res == (self@.loop_state == running_text()),
    {
        str_eq(self.loop_state.as_str(), "running")
    }

    /// Counts one pass of the loop (see `LooperModel::after_pass`); returns
    /// whether the loop has just paused.
    pub fn count_iteration(&mut self) -> (res: bool)
        requires
            old(self).wf(),
        ensures
            final(self).wf(),
            final(self)@ == old(self)@.after_pass(),
            final(self).strip_states == old(self).strip_states,
            res == (old(self)@.debug_mode && old(self)@.iterations_remaining == 1),
    {
        if self.debug_mode && self.iterations_remaining > 0 {
            self.iterations_remaining = self.iterations_remaining - 1;
            if self.iterations_remaining == 0 {
                self.loop_state = "paused".to_owned();
                return true;
            }
        }
        false
    }

    /// Whether strip `idx` can take its next frame (see `Mode::ready`).
    pub fn can_update_strip(&self, idx: usize) -> (res: bool)
        requires
            self.wf(),
        ensures
            res == (idx < self.strip_states@.len() && self.strip_states@[idx as int].mode.ready(
                &self.strip_states@[idx as int].strip,
            )),
    {
        idx < self.strip_states.len() && self.strip_states[idx].mode.can_update(&self.strip_states[idx].strip)
    }

    /// Draws the next frame of strip `idx` with its mode (see `Mode::update`).
    pub fn update_strip(&mut self, idx: usize, decay_table: &Vec<u8>)
        requires
            old(self).wf(),
            idx < old(self).strip_states@.len(),
            old(self).strip_states@[idx as int].mode.ready(&old(self).strip_states@[idx as int].strip),
            decay_table@.len() == 256,
        ensures
            final(self).wf(),
            final(self).others_unchanged(old(self), idx as int),
            ({
                let (a, b) = (final(self).strip_states@[idx as int], old(self).strip_states@[idx as int]);
                &&& b.mode.stepped(a.mode, b.strip, a.strip, decay_table@)
                &&& a.delay_bits == b.delay_bits
                &&& a.rainbow == b.rainbow
            }),
    {
        let st = &mut self.strip_states[idx];
        st.mode.update(&mut st.strip, decay_table);
    }

    /// Removes and returns the packets strip `idx` has queued, oldest first.
    pub fn take_packets(&mut self, idx: usize) -> (res: Vec<Vec<u8>>)
        requires
            old(self).wf(),
            idx < old(self).strip_states@.len(),
        ensures
            final(self).wf(),
            final(self).others_unchanged(old(self), idx as int),
            res@.map_values(|p: Vec<u8>| p@) == old(self).strip_states@[idx as int].strip.outbox(),
            ({
                let (a, b) = (final(self).strip_states@[idx as int], old(self).strip_states@[idx as int]);
                &&& a.strip.outbox().len() == 0
                &&& a@ == b@
                &&& a.mode == b.mode
                &&& a.rainbow == b.rainbow
                &&& a.strip.frame() == b.strip.frame()
                &&& a.strip.next_seq() == b.strip.next_seq()
            }),
    {
        self.strip_states[idx].strip.take_outgoing()
    }
}

// ---------------------------------------------------------------------------
// Laws

/// Setting a strip's brightness and reading it back gives the value set
/// (`None` for a strip that does not exist), and no other strip changes.
pub proof fn lemma_strip_brightness_read_after_write(m: LooperModel, id: u8, v: u8)
    ensures
        m.with_strip_brightness(id, v).strip_brightness(id) == if index_of(m.strips, id) is Some {
            Some(v)
        } else {
            None::<u8>
        },
        m.with_strip_brightness(id, v).strips.len() == m.strips.len(),
        forall|j: int|
            0 <= j < m.strips.len() && index_of(m.strips, id) != Some(j) ==> #[trigger] m.with_strip_brightness(
                id,
                v,
            ).strips[j] == m.strips[j],
{
    lemma_index_from(m.strips, id, 0);
    lemma_index_same_ids(m.strips, m.with_strip_brightness(id, v).strips, id, 0);
}

/// Setting a strip's delay and reading it back gives the value set (`None`
/// for a strip that does not exist), and no other strip changes.
pub proof fn lemma_strip_delay_read_after_write(m: LooperModel, id: u8, v: u64)
    ensures
        m.with_strip_delay(id, v).strip_delay(id) == if index_of(m.strips, id) is Some {
            Some(v)
        } else {
            None::<u64>
        },
        m.with_strip_delay(id, v).strips.len() == m.strips.len(),
        forall|j: int|
            0 <= j < m.strips.len() && index_of(m.strips, id) != Some(j) ==> #[trigger] m.with_strip_delay(
                id,
                v,
            ).strips[j] == m.strips[j],
{
    lemma_index_from(m.strips, id, 0);
    lemma_index_same_ids(m.strips, m.with_strip_delay(id, v).strips, id, 0);
}

/// Setting a strip's options and reading them back gives its former options
/// with those it shares with the request replaced (`None` for a strip that
/// does not exist), and no other strip changes.
pub proof fn lemma_strip_opts_read_after_write(m: LooperModel, id: u8, o: Map<Seq<char>, OptSpec>)
    ensures
        m.with_strip_opts(id, o).strip_opts(id) == match m.strip_opts(id) {
            Some(cur) => Some(merge_existing(cur, o)),
            None => None,
        },
        m.with_strip_opts(id, o).strips.len() == m.strips.len(),
        forall|j: int|
            0 <= j < m.strips.len() && index_of(m.strips, id) != Some(j) ==> #[trigger] m.with_strip_opts(
                id,
                o,
            ).strips[j] == m.strips[j],
{
    lemma_index_from(m.strips, id, 0);
    lemma_index_same_ids(m.strips, m.with_strip_opts(id, o).strips, id, 0);
}

/// Setting the brightness, delay or options of all strips sets them on
/// every strip, and reading them back (from the first strip) gives the value
/// set, when there is a strip.
pub proof fn lemma_global_read_after_write(m: LooperModel, b: u8, d: u64, o: Map<Seq<char>, OptSpec>)
    ensures
        forall|i: int|
            0 <= i < m.strips.len() ==> {
                &&& (#[trigger] m.with_brightness(b).strips[i]).brightness == b
                &&& m.with_delay(d).strips[i].delay_bits == d
                &&& m.with_opts(o).strips[i].opts == merge_existing(m.strips[i].opts, o)
            },
        m.strips.len() > 0 ==> m.with_brightness(b).brightness() == b,
        m.strips.len() > 0 ==> m.with_delay(d).delay_bits() == d,
        m.strips.len() > 0 ==> m.with_opts(o).opts() == merge_existing(m.opts(), o),
{
}

/// Outside debug mode, loop control requests and passes of the loop change
/// nothing.
pub proof fn lemma_no_debug_no_control(m: LooperModel, iterations: Option<i64>, next_state: Option<Seq<char>>, k: nat)
    requires
        !m.debug_mode,
    ensures
        m.after_control(iterations, next_state) == m,
        m.after_passes(k) == m,
    decreases k,
{
    if k > 0 {
        lemma_no_debug_no_control(m, iterations, next_state, (k - 1) as nat);
    }
}

/// In debug mode, asking for `n > 0` iterations runs the loop for exactly
/// `n` passes: after fewer it is still running with the rest left, after
/// `n` it is paused with none left.
pub proof fn lemma_run_iterations_then_pause(m: LooperModel, n: i64, next_state: Option<Seq<char>>, k: nat)
    requires
        m.debug_mode,
        n > 0,
        k <= n,
    ensures
        ({
            let after = m.after_control(Some(n), next_state).after_passes(k);
            &&& after.strips == m.strips
            &&& after.iterations_remaining == n - k
            &&& after.loop_state == if k < n {
                running_text()
            } else {
                paused_text()
            }
        }),
    decreases k,
{
    assert(running_text() != paused_text()) by {
        reveal_strlit("running");
        reveal_strlit("paused");
        assert(running_text().len() != paused_text().len());
    }
    let c = m.after_control(Some(n), next_state);
    assert(c.loop_state == running_text() && c.iterations_remaining == n && c.debug_mode);
    if k > 0 {
        lemma_run_iterations_then_pause(m, n, next_state, (k - 1) as nat);
        let prev = c.after_passes((k - 1) as nat);
        assert(prev.debug_mode) by {
            lemma_passes_keep_debug(c, (k - 1) as nat);
        }
        assert(c.after_passes(k) == prev.after_pass());
    }
}

/// Passes of the loop keep the debug flag.
proof fn lemma_passes_keep_debug(m: LooperModel, k: nat)
    ensures
        m.after_passes(k).debug_mode == m.debug_mode,
    decreases k,
{
    if k > 0 {
        lemma_passes_keep_debug(m, (k - 1) as nat);
    }
}

/// After a mode is loaded by name on every strip, every strip shows that
/// mode (NightRider for an unknown name) with the delay that goes with the
/// name, and so does the current mode when there is a strip.
pub proof fn lemma_set_mode_then_get(before: LooperState, after: LooperState, name: Seq<char>)
    requires
        after.modes_loaded(&before, name),
    ensures
        forall|i: int|
            0 <= i < after@.strips.len() ==> (#[trigger] after@.strips[i]).mode == crate::modes::resolved_name(name)
                && after@.strips[i].delay_bits == load_delay(name),
        after@.strips.len() > 0 ==> after@.current_mode() == crate::modes::resolved_name(name),
{
    assert forall|i: int| 0 <= i < after@.strips.len() implies (#[trigger] after@.strips[i]).mode
        == crate::modes::resolved_name(name) && after@.strips[i].delay_bits == load_delay(name) by {
        let b = before.strip_states@[i];
        crate::modes::lemma_created_name(after.strip_states@[i].mode, name, b.strip, b.rainbow@);
    }
    if after@.strips.len() > 0 {
        assert(after@.strips[0].mode == crate::modes::resolved_name(name));
    }
}

/// The global settings read back are those of the first strip: they agree
/// with the per-strip reads of the first strip's id, and setting another
/// strip's brightness, delay or options leaves them as they were, while
/// setting the first strip's changes them.
pub proof fn lemma_global_reads_follow_first_strip(m: LooperModel, id: u8, b: u8, d: u64, o: Map<Seq<char>, OptSpec>)
    requires
        m.strips.len() > 0,
    ensures
        m.strip_brightness(m.strips[0].id) == Some(m.brightness()),
        m.strip_delay(m.strips[0].id) == Some(m.delay_bits()),
        m.strip_opts(m.strips[0].id) == Some(m.opts()),
        m.strip_mode(m.strips[0].id) == Some(m.current_mode()),
        index_of(m.strips, id) != Some(0int) ==> {
            &&& m.with_strip_brightness(id, b).brightness() == m.brightness()
            &&& m.with_strip_delay(id, d).delay_bits() == m.delay_bits()
            &&& m.with_strip_opts(id, o).opts() == m.opts()
        },
        index_of(m.strips, id) == Some(0int) ==> {
            &&& m.with_strip_brightness(id, b).brightness() == b
            &&& m.with_strip_delay(id, d).delay_bits() == d
        },
{
    assert(index_of(m.strips, m.strips[0].id) == Some(0int));
    lemma_index_from(m.strips, id, 0);
}

/// Loading a mode by name gives the slow delay (0.25 s) exactly when the
/// mode loaded is one of the still modes Solid, White or Off, and the
/// default delay (0.025 s) for every other mode, an unknown name included.
pub proof fn lemma_loaded_delay_follows_mode(st: StripState, name: Seq<char>, strip: Strip, rainbow: Seq<[u8; 3]>)
    requires
        st.mode.created(name, strip, rainbow),
        st.delay_bits == load_delay(name),
    ensures
        st.delay_bits == SLOW_DELAY_BITS <==> (st.mode is Solid || st.mode is White || st.mode is Off),
        st.delay_bits == DEFAULT_DELAY_BITS <==> !(st.mode is Solid || st.mode is White || st.mode is Off),
{
    crate::modes::lemma_mode_names_distinct();
}

} // verus!
