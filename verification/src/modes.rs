//! Animation modes. Each mode keeps its own state and options and, on each
//! update, draws one frame (or more) into a strip and queues it.

use vstd::prelude::*;
use crate::colors::{rgb, BLACK, BLUE, GREEN, PURPLE, RED, YELLOW};
use crate::json::{spec_as_bool, spec_as_i64};
use crate::opts::{OptMap, OptSpec, OptValue, merge_existing, bool_opt_spec, color_opt_spec, float_opt_spec, int_opt_spec, is_finite_bits, parse_color, parse_color_spec};
use crate::strip::{Strip, encode_frame, frame_header};
use crate::text::str_eq;

verus! {

// ---------------------------------------------------------------------------
// Reading options

/// The color option `key`, or black when it is missing or names no color.
pub open spec fn color_opt(m: Map<Seq<char>, OptSpec>, key: Seq<char>) -> (u8, u8, u8) {
    if m.contains_key(key) && parse_color_spec(m[key].value) is Some {
        parse_color_spec(m[key].value)->0
    } else {
        (0, 0, 0)
    }
}

/// The boolean option `key`, or false when it is missing or not a boolean.
pub open spec fn bool_opt(m: Map<Seq<char>, OptSpec>, key: Seq<char>) -> bool {
    m.contains_key(key) && spec_as_bool(m[key].value) == Some(true)
}

/// The integer option `key`, or 0 when it is missing or not an `i64`.
pub open spec fn int_opt(m: Map<Seq<char>, OptSpec>, key: Seq<char>) -> i64 {
    if m.contains_key(key) && spec_as_i64(m[key].value) is Some {
        spec_as_i64(m[key].value)->0
    } else {
        0
    }
}

/// Reads a color option (black when missing or invalid).
pub fn get_color_opt(opts: &OptMap, key: &str) -> (res: [u8; 3])
    requires
        opts.wf(),
    ensures
        rgb(res) == color_opt(opts@, key@),
{
    match opts.get(key) {
        Some(v) => match parse_color(&v.value) {
            Some(c) => c,
            None => BLACK,
        },
        None => BLACK,
    }
}

/// Reads a boolean option (false when missing or invalid).
pub fn get_bool_opt(opts: &OptMap, key: &str) -> (res: bool)
    requires
        opts.wf(),
    ensures
        res == bool_opt(opts@, key@),
{
    match opts.get(key) {
        Some(v) => match v.value.as_bool() {
            Some(b) => b,
            None => false,
        },
        None => false,
    }
}

/// Reads an integer option (0 when missing or invalid).
pub fn get_int_opt(opts: &OptMap, key: &str) -> (res: i64)
    requires
        opts.wf(),
    ensures
        res == int_opt(opts@, key@),
{
    match opts.get(key) {
        Some(v) => match v.value.as_i64() {
            Some(i) => i,
            None => 0,
        },
        None => 0,
    }
}

// ---------------------------------------------------------------------------
// NightRider

/// A channel dimmed to 60% (the fraction dropped).
pub open spec fn fade60(v: u8) -> u8 {
    (v * 3 / 5) as u8
}

/// A color dimmed to 60% on each channel.
pub open spec fn fade_rgb(c: (u8, u8, u8)) -> (u8, u8, u8) {
    (fade60(c.0), fade60(c.1), fade60(c.2))
}

/// Dims a color to 60% on each channel, dropping the fraction.
pub fn fade_color(c: [u8; 3]) -> (res: [u8; 3])
    ensures
        rgb(res) == fade_rgb(rgb(c)),
{
    [
        ((c[0] as u16) * 3 / 5) as u8,
        ((c[1] as u16) * 3 / 5) as u8,
        ((c[2] as u16) * 3 / 5) as u8,
    ]
}

/// Whether NightRider draws its tail this frame: the tail color is not
/// black, the head is inside the strip but at neither end, and the place
/// behind the head is on the strip.
pub open spec fn tail_shown(c: int, d: int, n: int, tail: (u8, u8, u8)) -> bool {
    &&& 0 <= c < n
    &&& tail != (0u8, 0u8, 0u8)
    &&& c != 0
    &&& c != n - 1
    &&& 0 <= c - d < n
}

/// The NightRider frame: the head at `c` in `color`; the tail just behind it
/// (dimmed when it lies ahead in drawing order and fading is on); every
/// other LED dimmed when fading, else set to `fill`.
pub open spec fn nightrider_frame(
    old_leds: Seq<(u8, u8, u8)>,
    c: int,
    d: int,
    fade: bool,
    fill: (u8, u8, u8),
    color: (u8, u8, u8),
    tail: (u8, u8, u8),
) -> Seq<(u8, u8, u8)> {
    let n = old_leds.len() as int;
    Seq::new(
        old_leds.len(),
        |j: int|
            if j == c {
                color
            } else if tail_shown(c, d, n, tail) && j == c - d {
                if d == -1 && fade {
                    fade_rgb(tail)
                } else {
                    tail
                }
            } else if fade {
                fade_rgb(old_leds[j])
            } else {
                fill
            },
    )
}

/// The LEDs after NightRider has drawn the places before `x`.
spec fn nightrider_partial(
    old_leds: Seq<(u8, u8, u8)>,
    c: int,
    d: int,
    fade: bool,
    fill: (u8, u8, u8),
    color: (u8, u8, u8),
    tail: (u8, u8, u8),
    x: int,
) -> Seq<(u8, u8, u8)> {
    let n = old_leds.len() as int;
    Seq::new(
        old_leds.len(),
        |j: int|
            if j == c && c < x {
                color
            } else if tail_shown(c, d, n, tail) && c < x && j == c - d {
                if d == -1 && fade && j < x {
                    fade_rgb(tail)
                } else {
                    tail
                }
            } else if j < x {
                if fade {
                    fade_rgb(old_leds[j])
                } else {
                    fill
                }
            } else if fade {
                old_leds[j]
            } else {
                fill
            },
    )
}

/// The head position and direction after a NightRider frame: one step on,
/// turning back at either end.
pub open spec fn nightrider_step(c: int, d: int, n: int) -> (int, int) {
    let c1 = c + d;
    let (c2, d2) = if c1 >= n { (n - 1, -1int) } else { (c1, d) };
    if c2 < 0 { (1int, 1int) } else { (c2, d2) }
}

/// A light running back and forth with a tail, the rest of the strip fading out.
pub struct NightRider {
    pub opts: OptMap,
    pub counter: isize,
    pub direction: isize,
}

impl NightRider {
    /// The state that `new` makes.
    pub open spec fn fresh(&self) -> bool {
        &&& self.wf()
        &&& self.counter == 0
        &&& self.direction == 1
        &&& self.opts@ == Map::<Seq<char>, OptSpec>::empty()
            .insert("color"@, color_opt_spec(rgb(PURPLE)))
            .insert("tail_color"@, color_opt_spec(rgb(BLUE)))
            .insert("fade"@, bool_opt_spec(true))
            .insert("fill_color"@, color_opt_spec(rgb(BLACK)))
    }

    /// Purple with a blue tail over black, fading.
    pub fn new() -> (res: Self)
        ensures
            res.fresh(),
    {
        let mut opts = OptMap::new();
        opts.insert("color".to_owned(), OptValue::create_color(PURPLE));
        opts.insert("tail_color".to_owned(), OptValue::create_color(BLUE));
        opts.insert("fade".to_owned(), OptValue::create_bool(true));
        opts.insert("fill_color".to_owned(), OptValue::create_color(BLACK));
        NightRider { opts, counter: 0, direction: 1 }
    }

    /// The options are well formed, the head is at or past the start and
    /// can take a step, and the direction is one step up or down.
    pub open spec fn wf(&self) -> bool {
        &&& self.opts.wf()
        &&& 0 <= self.counter < isize::MAX
        &&& (self.direction == 1 || self.direction == -1)
    }

    /// What one `update` does: `next` is the mode after it, `before` and
    /// `after` the strip.
    pub open spec fn stepped(self, next: Self, before: Strip, after: Strip) -> bool {
        &&& next.wf()
        &&& next.opts == self.opts
        &&& (next.counter as int, next.direction as int) == nightrider_step(
            self.counter as int,
            self.direction as int,
            before.num_leds as int,
        )
        &&& after.leds_changed_and_sent(
            &before,
            nightrider_frame(
                before.leds(),
                self.counter as int,
                self.direction as int,
                bool_opt(self.opts@, "fade"@),
                color_opt(self.opts@, "fill_color"@),
                color_opt(self.opts@, "color"@),
                color_opt(self.opts@, "tail_color"@),
            ),
        )
    }

    /// Draws one frame and queues it, then moves the head.
    pub fn update(&mut self, strip: &mut Strip)
        requires
            old(self).wf(),
            old(strip).wf(),
        ensures
            (*old(self)).stepped(*final(self), *old(strip), *final(strip)),
    {
        let ghost l0 = old(strip).leds();
        let n = strip.num_leds;
        let fill_color = get_color_opt(&self.opts, "fill_color");
        let fade = get_bool_opt(&self.opts, "fade");
        let ghost c = self.counter as int;
        let ghost d = self.direction as int;

        if !fade {
            let mut i: usize = 0;
            proof {
                assert(strip.leds() =~= Seq::new(
                    n as nat,
                    |j: int| if j < 0 { rgb(fill_color) } else { l0[j] },
                ));
            }
            while i < n
                invariant
                    i <= n,
                    n == old(strip).num_leds,
                    l0 == old(strip).leds(),
                    strip.leds_changed(
                        old(strip),
                        Seq::new(n as nat, |j: int| if j < i { rgb(fill_color) } else { l0[j] }),
                    ),
                decreases n - i,
            {
                strip.set_led_rgb(i, fill_color);
                proof {
                    assert(strip.leds() =~= Seq::new(
                        n as nat,
                        |j: int| if j < i + 1 { rgb(fill_color) } else { l0[j] },
                    ));
                }
                i = i + 1;
            }
        }

        let color = get_color_opt(&self.opts, "color");
        let tail_color = get_color_opt(&self.opts, "tail_color");
        let tail_on = tail_color[0] != 0 || tail_color[1] != 0 || tail_color[2] != 0;
        let counter = self.counter;
        let direction = self.direction;
        let ghost before = strip.leds();
        let ghost part = |x: int| nightrider_partial(
            l0, c, d, fade, rgb(fill_color), rgb(color), rgb(tail_color), x);
        proof {
            assert(before =~= part(0));
        }

        let mut x: usize = 0;
        while x < n
            invariant
                x <= n,
                n == old(strip).num_leds,
                l0 == old(strip).leds(),
                l0.len() == n,
                c == counter,
                d == direction,
                0 <= counter < isize::MAX,
                direction == 1 || direction == -1,
                tail_on == (rgb(tail_color) != (0u8, 0u8, 0u8)),
                part == (|x: int| nightrider_partial(
                    l0, c, d, fade, rgb(fill_color), rgb(color), rgb(tail_color), x)),
                strip.leds_changed(old(strip), part(x as int)),
            decreases n - x,
        {
            if counter == x as isize {
                strip.set_led_rgb(x, color);
                if tail_on {
                    let tail_pos = x as isize - direction;
                    if counter != 0 && counter != (n as isize - 1) && tail_pos >= 0 && (tail_pos as usize) < n {
                        strip.set_led_rgb(tail_pos as usize, tail_color);
                    }
                }
                proof {
                    assert(strip.leds() =~= part(x + 1));
                }
            } else if fade {
                let ghost mid = strip.leds();
                let cur = strip.get_led(x);
                if let Some(v) = cur {
                    proof {
                        assert(rgb(v) == mid[x as int]);
                        assert(part(x + 1)[x as int] == fade_rgb(part(x as int)[x as int]));
                    }
                    strip.set_led_rgb(x, fade_color(v));
                }
                proof {
                    assert(strip.leds() =~= part(x + 1));
                }
            } else {
                proof {
                    assert(strip.leds() =~= part(x + 1));
                }
            }
            x = x + 1;
        }
        proof {
            assert(part(n as int) =~= nightrider_frame(
                l0, c, d, fade, rgb(fill_color), rgb(color), rgb(tail_color)));
        }

        let mut new_counter = counter + direction;
        let mut new_direction = direction;
        if new_counter >= n as isize {
            new_counter = n as isize - 1;
            new_direction = -1;
        }
        if new_counter < 0 {
            new_counter = 1;
            new_direction = 1;
        }
        self.counter = new_counter;
        self.direction = new_direction;

        strip.send();
    }
}

// ---------------------------------------------------------------------------
// Collider

/// The red level of a collision of strength `s` percent: full red scaled by
/// `s / 100`, the fraction dropped, at most 255.
pub open spec fn red_level(s: int) -> u8 {
    if s > 100 {
        255
    } else {
        (255 * s / 100) as u8
    }
}

/// The red level of a collision of strength `stren` percent (see `red_level`).
pub fn collision_red(stren: i32) -> (res: u8)
    requires
        stren >= 0,
    ensures
        res == red_level(stren as int),
{
    if stren > 100 {
        255
    } else {
        ((255 * stren) / 100) as u8
    }
}

/// A Collider runner after one step: on by its direction, held at the far
/// end (`n`) turning back, or bounced off the start.
pub open spec fn runner_step(c: int, d: int, n: int) -> (int, int) {
    let c1 = c + d;
    let (c2, d2) = if c1 >= n { (n, -1int) } else { (c1, d) };
    if c2 < 0 { (1int, 1int) } else { (c2, d2) }
}

/// The second Collider frame: black, the collision places in red at the
/// collision's strength, then runner A at `ca` and runner B at `cb` on top.
pub open spec fn collider_frame(
    n: nat,
    collision: Seq<usize>,
    stren: int,
    ca: int,
    cb: int,
    color_a: (u8, u8, u8),
    color_b: (u8, u8, u8),
) -> Seq<(u8, u8, u8)> {
    Seq::new(
        n,
        |j: int|
            if j == cb {
                color_b
            } else if j == ca {
                color_a
            } else if collision.contains(j as usize) {
                (red_level(stren), 0u8, 0u8)
            } else {
                (0u8, 0u8, 0u8)
            },
    )
}

/// Whether `j` is among the first `k` collision places.
spec fn in_prefix(coll: Seq<usize>, k: int, j: int) -> bool {
    exists|i: int| 0 <= i < k && coll[i] == j as usize
}

/// Two runners moving towards each other; where they meet, a red flash
/// that fades out.
pub struct Collider {
    pub opts: OptMap,
    pub counter_a: isize,
    pub direction_a: isize,
    pub counter_b: isize,
    pub direction_b: isize,
    pub collision: Vec<usize>,
    pub collision_stren: i32,
}

impl Collider {
    /// The state that `new` makes.
    pub open spec fn fresh(&self, strip: &Strip) -> bool {
        &&& self.wf()
        &&& self.counter_a == 0
        &&& self.direction_a == 1
        &&& self.counter_b == strip.num_leds
        &&& self.direction_b == -1
        &&& self.collision@.len() == 0
        &&& self.collision_stren == 100
        &&& self.opts@ == Map::<Seq<char>, OptSpec>::empty()
            .insert("color_a"@, color_opt_spec(rgb(PURPLE)))
            .insert("color_b"@, color_opt_spec(rgb(BLUE)))
            .insert("collision_decay"@, int_opt_spec(7))
    }

    /// Purple from the start and blue from the end of `strip`, flashes
    /// fading by 7 points a frame.
    pub fn new(strip: &Strip) -> (res: Self)
        requires
            strip.wf(),
        ensures
            res.fresh(strip),
    {
        let mut opts = OptMap::new();
        opts.insert("color_a".to_owned(), OptValue::create_color(PURPLE));
        opts.insert("color_b".to_owned(), OptValue::create_color(BLUE));
        opts.insert("collision_decay".to_owned(), OptValue::create_int(7));
        Collider {
            opts,
            counter_a: 0,
            direction_a: 1,
            counter_b: strip.num_leds as isize,
            direction_b: -1,
            collision: Vec::new(),
            collision_stren: 100,
        }
    }

    /// The options are well formed, both runners are at or past the start
    /// and can take a step, both directions are one step up or down, and
    /// the collision strength is not negative.
    pub open spec fn wf(&self) -> bool {
        &&& self.opts.wf()
        &&& 0 <= self.counter_a < isize::MAX
        &&& 0 <= self.counter_b < isize::MAX
        &&& (self.direction_a == 1 || self.direction_a == -1)
        &&& (self.direction_b == 1 || self.direction_b == -1)
        &&& self.collision_stren >= 0
    }

    /// The decay taken off the collision strength each frame.
    pub open spec fn decay(&self) -> i32 {
        int_opt(self.opts@, "collision_decay"@) as i32
    }

    /// Whether the next frame can be drawn on `strip`: the collision places
    /// are on the strip, and the collision strength can take this frame's
    /// decay within `i32`.
    pub open spec fn update_ok(&self, strip: &Strip) -> bool {
        &&& forall|i: int| 0 <= i < self.collision@.len() ==> #[trigger] self.collision@[i] < strip.num_leds
        &&& self.collision@.len() > 0 ==> i32::MIN <= self.collision_stren - self.decay() <= i32::MAX
    }

    /// Whether every collision place is on `strip`.
    fn collision_on_strip(&self, strip: &Strip) -> (res: bool)
        ensures
            res == forall|i: int| 0 <= i < self.collision@.len() ==> #[trigger] self.collision@[i] < strip.num_leds,
    {
        let mut k: usize = 0;
        while k < self.collision.len()
            invariant
                k <= self.collision@.len(),
                forall|j: int| 0 <= j < k ==> #[trigger] self.collision@[j] < strip.num_leds,
            decreases self.collision@.len() - k,
        {
            if self.collision[k] >= strip.num_leds {
                assert(!(self.collision@[k as int] < strip.num_leds));
                return false;
            }
            k = k + 1;
        }
        true
    }

    /// Draws runner `counter` (when on the strip) and returns its next place
    /// and direction.
    fn advance_runner(strip: &mut Strip, counter: isize, direction: isize, color: [u8; 3]) -> (res: (
        isize,
        isize,
    ))
        requires
            old(strip).wf(),
            0 <= counter < isize::MAX,
            direction == 1 || direction == -1,
        ensures
            (res.0 as int, res.1 as int) == runner_step(counter as int, direction as int, old(strip).num_leds as int),
            final(strip).leds_changed(
                old(strip),
                if counter < old(strip).num_leds {
                    old(strip).leds().update(counter as int, rgb(color))
                } else {
                    old(strip).leds()
                },
            ),
    {
        let n = strip.num_leds;
        let mut x: usize = 0;
        proof {
            assert(strip.leds() =~= old(strip).leds());
        }
        while x < n
            invariant
                x <= n,
                n == old(strip).num_leds,
                0 <= counter,
                strip.leds_changed(
                    old(strip),
                    if counter < x {
                        old(strip).leds().update(counter as int, rgb(color))
                    } else {
                        old(strip).leds()
                    },
                ),
            decreases n - x,
        {
            if counter == x as isize {
                strip.set_led_rgb(x, color);
            }
            x = x + 1;
        }

        let mut new_counter = counter + direction;
        let mut new_direction = direction;
        if new_counter >= n as isize {
            new_counter = n as isize;
            new_direction = -1;
        }
        if new_counter < 0 {
            new_counter = 1;
            new_direction = 1;
        }
        (new_counter, new_direction)
    }

    /// What one `update` does: `next` is the mode after it, `before` and
    /// `after` the strip.
    pub open spec fn stepped(self, next: Self, before: Strip, after: Strip) -> bool {
        &&& next.wf()
        &&& next.opts == self.opts
        &&& ({
            let n = before.num_leds as int;
            let (ca, da) = runner_step(self.counter_a as int, self.direction_a as int, n);
            let (cb, db) = runner_step(self.counter_b as int, self.direction_b as int, n);
            let s1 = self.collision_stren - self.decay();
            let (coll, stren) = if self.collision@.len() == 0 {
                (self.collision@, self.collision_stren as int)
            } else if s1 < 0 {
                (Seq::<usize>::empty(), 100int)
            } else {
                (self.collision@, s1)
            };
            &&& next.counter_a == ca
            &&& next.counter_b == cb
            &&& next.collision_stren == stren
            &&& if ca >= cb {
                &&& next.direction_a == -da
                &&& next.direction_b == -db
                &&& next.collision@ == seq![ca as usize, cb as usize]
            } else {
                &&& next.direction_a == da
                &&& next.direction_b == db
                &&& next.collision@ == coll
            }
        })
        &&& after.wf()
        &&& after.leds() == collider_frame(
            before.num_leds as nat,
            self.collision@,
            self.collision_stren as int,
            self.counter_a as int,
            self.counter_b as int,
            color_opt(self.opts@, "color_a"@),
            color_opt(self.opts@, "color_b"@),
        )
        &&& after.outbox() == before.outbox().push(
            encode_frame(
                frame_header(before.num_leds, before.dev_id, before.next_seq(), before.spec_brightness()),
                solid_frame(before.num_leds as nat, (0u8, 0u8, 0u8)),
            ),
        ).push(after.frame())
        &&& after.frame_seq() == (before.next_seq() + 1) % 256
        &&& after.next_seq() == (before.next_seq() + 2) % 256
        &&& after.spec_brightness() == before.spec_brightness()
        &&& after.dev_id == before.dev_id
        &&& after.udp_ip == before.udp_ip
        &&& after.udp_port == before.udp_port
        &&& after.num_leds == before.num_leds
    }

    /// Blacks the strip out and queues that frame; then draws the fading
    /// collision, both runners, queues the second frame, and moves the
    /// runners. When they meet or cross, both turn back and a new collision
    /// starts at their places.
    pub fn update(&mut self, strip: &mut Strip)
        requires
            old(self).wf(),
            old(self).update_ok(old(strip)),
            old(strip).wf(),
        ensures
            (*old(self)).stepped(*final(self), *old(strip), *final(strip)),
    {
        let n = strip.num_leds;
        strip.fill(BLACK);
        let ghost first = *strip;
        proof {
            first.lemma_frame_encoding();
            assert(first.leds() =~= solid_frame(n as nat, (0u8, 0u8, 0u8)));
        }

        let ghost coll0 = self.collision@;
        let ghost stren0 = self.collision_stren as int;
        if self.collision.len() > 0 {
            let level = collision_red(self.collision_stren);
            let color: [u8; 3] = [level, 0, 0];
            let mut k: usize = 0;
            proof {
                assert(strip.leds() =~= Seq::new(
                    n as nat,
                    |j: int| if in_prefix(coll0, 0, j) { rgb(color) } else { (0u8, 0u8, 0u8) },
                ));
            }
            while k < self.collision.len()
                invariant
                    k <= self.collision@.len(),
                    self.collision@ == coll0,
                    n == first.num_leds,
                    forall|j: int| 0 <= j < coll0.len() ==> #[trigger] coll0[j] < n,
                    strip.leds_changed(
                        &first,
                        Seq::new(
                            n as nat,
                            |j: int| if in_prefix(coll0, k as int, j) { rgb(color) } else { (0u8, 0u8, 0u8) },
                        ),
                    ),
                decreases self.collision@.len() - k,
            {
                let i = self.collision[k];
                strip.set_led_rgb(i, color);
                proof {
                    assert(strip.leds() =~= Seq::new(
                        n as nat,
                        |j: int| if in_prefix(coll0, k + 1, j) { rgb(color) } else { (0u8, 0u8, 0u8) },
                    )) by {
                        assert forall|j: int| 0 <= j < n implies
                            #[trigger] in_prefix(coll0, k + 1, j)
                                == (in_prefix(coll0, k as int, j) || coll0[k as int] == j as usize) by {
                            if in_prefix(coll0, k + 1, j) {
                                let w = choose|i: int| 0 <= i < k + 1 && coll0[i] == j as usize;
                                if w < k {
                                    assert(0 <= w < k && coll0[w] == j as usize);
                                }
                            }
                            if coll0[k as int] == j as usize {
                                assert(0 <= k < k + 1 && coll0[k as int] == j as usize);
                            }
                            if in_prefix(coll0, k as int, j) {
                                let w = choose|i: int| 0 <= i < k && coll0[i] == j as usize;
                                assert(0 <= w < k + 1 && coll0[w] == j as usize);
                            }
                        }
                    }
                }
                k = k + 1;
            }
            let decay = get_int_opt(&self.opts, "collision_decay") as i32;
            self.collision_stren = self.collision_stren - decay;
            if self.collision_stren < 0 {
                self.collision.clear();
                self.collision_stren = 100;
            }
            proof {
                assert(rgb(color) == (red_level(stren0), 0u8, 0u8));
                assert forall|j: int| 0 <= j < n implies
                    #[trigger] in_prefix(coll0, coll0.len() as int, j) == coll0.contains(j as usize) by {
                    if coll0.contains(j as usize) {
                        let w = choose|i: int| 0 <= i < coll0.len() && coll0[i] == j as usize;
                        assert(0 <= w < coll0.len() && coll0[w] == j as usize);
                    }
                }
            }
        } else {
            proof {
                assert(strip.leds() =~= Seq::new(
                    n as nat,
                    |j: int| if coll0.contains(j as usize) { (red_level(stren0), 0u8, 0u8) } else { (0u8, 0u8, 0u8) },
                ));
            }
        }
        let ghost mid = strip.leds();
        assert(mid =~= Seq::new(
            n as nat,
            |j: int| if coll0.contains(j as usize) { (red_level(stren0), 0u8, 0u8) } else { (0u8, 0u8, 0u8) },
        ));

        let color_a = get_color_opt(&self.opts, "color_a");
        let color_b = get_color_opt(&self.opts, "color_b");

        let (ca, da) = Self::advance_runner(strip, self.counter_a, self.direction_a, color_a);
        self.counter_a = ca;
        self.direction_a = da;

        let (cb, db) = Self::advance_runner(strip, self.counter_b, self.direction_b, color_b);
        self.counter_b = cb;
        self.direction_b = db;

        if self.counter_a >= self.counter_b {
            self.direction_a = self.direction_a * -1;
            self.direction_b = self.direction_b * -1;
            self.collision = vec![self.counter_a as usize, self.counter_b as usize];
        }

        proof {
            assert(strip.leds() =~= collider_frame(
                n as nat,
                coll0,
                stren0,
                old(self).counter_a as int,
                old(self).counter_b as int,
                rgb(color_a),
                rgb(color_b),
            ));
        }
        strip.send();
    }
}

// ---------------------------------------------------------------------------
// Palette chases: Christmas, MardiGras, ArrGeeBee

/// The palette position a chase starts its frame from: it moves on by one
/// first when palette length plus LED count is even.
pub open spec fn chase_start(len: nat, pool_idx: nat, num_leds: nat) -> nat {
    if (len + num_leds) % 2 == 0 {
        (pool_idx + 1) % len
    } else {
        pool_idx
    }
}

/// The frame a chase draws: LED `x` takes palette color `start + x`.
pub open spec fn chase_frame(palette: Seq<[u8; 3]>, start: nat, num_leds: nat) -> Seq<(u8, u8, u8)> {
    Seq::new(num_leds, |x: int| rgb(palette[(start + x) % (palette.len() as int)]))
}

/// Draws one chase frame and queues it; returns the next palette position.
fn chase_update(palette: &Vec<[u8; 3]>, pool_idx: usize, strip: &mut Strip) -> (res: usize)
    requires
        old(strip).wf(),
        0 < palette@.len() <= 3,
        pool_idx < palette@.len(),
    ensures
        res < palette@.len(),
        res == (chase_start(palette@.len(), pool_idx as nat, old(strip).num_leds as nat)
            + old(strip).num_leds) % (palette@.len() as int),
        final(strip).wf(),
        final(strip).leds() == chase_frame(
            palette@,
            chase_start(palette@.len(), pool_idx as nat, old(strip).num_leds as nat),
            old(strip).num_leds as nat,
        ),
        final(strip).frame_seq() == old(strip).next_seq(),
        final(strip).next_seq() == (old(strip).next_seq() + 1) % 256,
        final(strip).spec_brightness() == old(strip).spec_brightness(),
        final(strip).dev_id == old(strip).dev_id,
        final(strip).udp_ip == old(strip).udp_ip,
        final(strip).udp_port == old(strip).udp_port,
        final(strip).num_leds == old(strip).num_leds,
        final(strip).outbox() == old(strip).outbox().push(final(strip).frame()),
{
    let len = palette.len();
    let n = strip.num_leds;
    let mut idx = pool_idx;
    if (len + n) % 2 == 0 {
        idx = (idx + 1) % len;
    }
    let ghost start = idx as nat;
    let mut x: usize = 0;
    proof {
        vstd::arithmetic::div_mod::lemma_small_mod(idx as nat, len as nat);
        assert(strip.leds() =~= Seq::new(
            n as nat,
            |j: int| if j < 0 { rgb(palette@[(start + j) % (len as int)]) } else { old(strip).led(j) },
        ));
    }
    while x < n
        invariant
            len == palette@.len(),
            len > 0,
            n == old(strip).num_leds,
            x <= n,
            idx < len,
            idx == (start + x) % (len as int),
            strip.leds_changed(
                old(strip),
                Seq::new(
                    n as nat,
                    |j: int| if j < x { rgb(palette@[(start + j) % (len as int)]) } else { old(strip).led(j) },
                ),
            ),
        decreases n - x,
    {
        strip.set_led_rgb(x, palette[idx]);
        proof {
            assert(strip.leds() =~= Seq::new(
                n as nat,
                |j: int|
                    if j < x + 1 { rgb(palette@[(start + j) % (len as int)]) } else { old(strip).led(j) },
            ));
            vstd::arithmetic::div_mod::lemma_add_mod_noop(start + x, 1, len as int);
            vstd::arithmetic::div_mod::lemma_mod_twice(1, len as int);
            vstd::arithmetic::div_mod::lemma_small_mod(idx as nat, len as nat);
            assert(1int % (len as int) == (if len == 1 { 0int } else { 1int })) by {
                if len > 1 {
                    vstd::arithmetic::div_mod::lemma_small_mod(1, len as nat);
                }
            }
        }
        idx = (idx + 1) % len;
        x = x + 1;
    }
    proof {
        assert(strip.leds() =~= chase_frame(palette@, start, n as nat));
    }
    strip.send();
    idx
}

/// Red and green alternating along the strip, moving each frame.
pub struct Christmas {
    pub arr: Vec<[u8; 3]>,
    pub pool_idx: usize,
}

impl Christmas {
    /// The state that `new` makes.
    pub open spec fn fresh(&self) -> bool {
        &&& self.arr@.map_values(|c: [u8; 3]| rgb(c)) == seq![rgb(RED), rgb(GREEN)]
        &&& self.pool_idx == 0
        &&& self.wf()
    }

    /// A red and green chase starting at red.
    pub fn new() -> (res: Self)
        ensures
            res.fresh(),
    {
        let res = Christmas { arr: vec![RED, GREEN], pool_idx: 0 };
        assert(res.arr@.map_values(|c: [u8; 3]| rgb(c)) =~= seq![rgb(RED), rgb(GREEN)]);
        res
    }

    /// The palette position is within the palette.
    pub open spec fn wf(&self) -> bool {
        0 < self.arr@.len() <= 3 && self.pool_idx < self.arr@.len()
    }

    /// What one `update` does: `next` is the mode after it, `before` and
    /// `after` the strip.
    pub open spec fn stepped(self, next: Self, before: Strip, after: Strip) -> bool {
        &&& next.wf()
        &&& next.arr == self.arr
        &&& next.pool_idx == (chase_start(self.arr@.len(), self.pool_idx as nat, before.num_leds as nat)
            + before.num_leds) % (self.arr@.len() as int)
        &&& after.leds_changed_and_sent(
            &before,
            chase_frame(
                self.arr@,
                chase_start(self.arr@.len(), self.pool_idx as nat, before.num_leds as nat),
                before.num_leds as nat,
            ),
        )
    }

    /// Draws one frame and queues it.
    pub fn update(&mut self, strip: &mut Strip)
        requires
            old(self).wf(),
            old(strip).wf(),
        ensures
            (*old(self)).stepped(*final(self), *old(strip), *final(strip)),
    {
        self.pool_idx = chase_update(&self.arr, self.pool_idx, strip);
    }
}

/// Purple, green and yellow in turn along the strip, moving each frame.
pub struct MardiGras {
    pub arr: Vec<[u8; 3]>,
    pub pool_idx: usize,
}

impl MardiGras {
    /// The state that `new` makes.
    pub open spec fn fresh(&self) -> bool {
        &&& self.arr@.map_values(|c: [u8; 3]| rgb(c)) == seq![rgb(PURPLE), rgb(GREEN), rgb(YELLOW)]
        &&& self.pool_idx == 0
        &&& self.wf()
    }

    /// A purple, green and yellow chase starting at purple.
    pub fn new() -> (res: Self)
        ensures
            res.fresh(),
    {
        let res = MardiGras { arr: vec![PURPLE, GREEN, YELLOW], pool_idx: 0 };
        assert(res.arr@.map_values(|c: [u8; 3]| rgb(c)) =~= seq![rgb(PURPLE), rgb(GREEN), rgb(YELLOW)]);
        res
    }

    /// The palette position is within the palette.
    pub open spec fn wf(&self) -> bool {
        0 < self.arr@.len() <= 3 && self.pool_idx < self.arr@.len()
    }

    /// What one `update` does: `next` is the mode after it, `before` and
    /// `after` the strip.
    pub open spec fn stepped(self, next: Self, before: Strip, after: Strip) -> bool {
        &&& next.wf()
        &&& next.arr == self.arr
        &&& next.pool_idx == (chase_start(self.arr@.len(), self.pool_idx as nat, before.num_leds as nat)
            + before.num_leds) % (self.arr@.len() as int)
        &&& after.leds_changed_and_sent(
            &before,
            chase_frame(
                self.arr@,
                chase_start(self.arr@.len(), self.pool_idx as nat, before.num_leds as nat),
                before.num_leds as nat,
            ),
        )
    }

    /// Draws one frame and queues it.
    pub fn update(&mut self, strip: &mut Strip)
        requires
            old(self).wf(),
            old(strip).wf(),
        ensures
            (*old(self)).stepped(*final(self), *old(strip), *final(strip)),
    {
        self.pool_idx = chase_update(&self.arr, self.pool_idx, strip);
    }
}

/// Red, green and blue in turn along the strip, moving each frame.
pub struct ArrGeeBee {
    pub arr: Vec<[u8; 3]>,
    pub pool_idx: usize,
}

impl ArrGeeBee {
    /// The state that `new` makes.
    pub open spec fn fresh(&self) -> bool {
        &&& self.arr@.map_values(|c: [u8; 3]| rgb(c)) == seq![rgb(RED), rgb(GREEN), rgb(BLUE)]
        &&& self.pool_idx == 0
        &&& self.wf()
    }

    /// A red, green and blue chase starting at red.
    pub fn new() -> (res: Self)
        ensures
            res.fresh(),
    {
        let res = ArrGeeBee { arr: vec![RED, GREEN, BLUE], pool_idx: 0 };
        assert(res.arr@.map_values(|c: [u8; 3]| rgb(c)) =~= seq![rgb(RED), rgb(GREEN), rgb(BLUE)]);
        res
    }

    /// The palette position is within the palette.
    pub open spec fn wf(&self) -> bool {
        0 < self.arr@.len() <= 3 && self.pool_idx < self.arr@.len()
    }

    /// What one `update` does: `next` is the mode after it, `before` and
    /// `after` the strip.
    pub open spec fn stepped(self, next: Self, before: Strip, after: Strip) -> bool {
        &&& next.wf()
        &&& next.arr == self.arr
        &&& next.pool_idx == (chase_start(self.arr@.len(), self.pool_idx as nat, before.num_leds as nat)
            + before.num_leds) % (self.arr@.len() as int)
        &&& after.leds_changed_and_sent(
            &before,
            chase_frame(
                self.arr@,
                chase_start(self.arr@.len(), self.pool_idx as nat, before.num_leds as nat),
                before.num_leds as nat,
            ),
        )
    }

    /// Draws one frame and queues it.
    pub fn update(&mut self, strip: &mut Strip)
        requires
            old(self).wf(),
            old(strip).wf(),
        ensures
            (*old(self)).stepped(*final(self), *old(strip), *final(strip)),
    {
        self.pool_idx = chase_update(&self.arr, self.pool_idx, strip);
    }
}

// ---------------------------------------------------------------------------
// Whole-strip colors: Solid, White, Off

/// The frame with every LED set to `c`.
pub open spec fn solid_frame(n: nat, c: (u8, u8, u8)) -> Seq<(u8, u8, u8)> {
    Seq::new(n, |i: int| c)
}

/// One color on every LED, taken from the "color" option.
pub struct Solid {
    pub opts: OptMap,
}

impl Solid {
    /// The state that `new` makes.
    pub open spec fn fresh(&self) -> bool {
        &&& self.opts.wf()
        &&& self.opts@ == Map::<Seq<char>, OptSpec>::empty().insert("color"@, color_opt_spec(rgb(YELLOW)))
    }

    /// A yellow solid color.
    pub fn new() -> (res: Self)
        ensures
            res.fresh(),
    {
        let mut opts = OptMap::new();
        opts.insert("color".to_owned(), OptValue::create_color(YELLOW));
        Solid { opts }
    }

    /// What one `update` does: `next` is the mode after it, `before` and
    /// `after` the strip.
    pub open spec fn stepped(self, next: Self, before: Strip, after: Strip) -> bool {
        &&& next.opts == self.opts
        &&& after.leds_changed_and_sent(
            &before,
            solid_frame(before.num_leds as nat, color_opt(self.opts@, "color"@)),
        )
    }

    /// Fills the strip with the "color" option and queues the frame.
    pub fn update(&mut self, strip: &mut Strip)
        requires
            old(self).opts.wf(),
            old(strip).wf(),
        ensures
            (*old(self)).stepped(*final(self), *old(strip), *final(strip)),
    {
        let color = get_color_opt(&self.opts, "color");
        strip.fill(color);
    }
}

/// Every LED white.
pub struct White;

impl White {
    /// The white mode (it has no state).
    pub fn new() -> (res: Self) {
        White
    }

    /// What one `update` does: `next` is the mode after it, `before` and
    /// `after` the strip.
    pub open spec fn stepped(self, next: Self, before: Strip, after: Strip) -> bool {
        &&& after.leds_changed_and_sent(&before, solid_frame(before.num_leds as nat, (255u8, 255u8, 255u8)))
    }

    /// Fills the strip with white and queues the frame.
    pub fn update(&mut self, strip: &mut Strip)
        requires
            old(strip).wf(),
        ensures
            (*old(self)).stepped(*final(self), *old(strip), *final(strip)),
    {
        strip.fill([255, 255, 255]);
    }
}

/// Every LED off.
pub struct Off;

impl Off {
    /// The off mode (it has no state).
    pub fn new() -> (res: Self) {
        Off
    }

    /// What one `update` does: `next` is the mode after it, `before` and
    /// `after` the strip.
    pub open spec fn stepped(self, next: Self, before: Strip, after: Strip) -> bool {
        &&& after.leds_changed_and_sent(&before, solid_frame(before.num_leds as nat, (0u8, 0u8, 0u8)))
    }

    /// Fills the strip with black and queues the frame.
    pub fn update(&mut self, strip: &mut Strip)
        requires
            old(strip).wf(),
        ensures
            (*old(self)).stepped(*final(self), *old(strip), *final(strip)),
    {
        strip.fill(BLACK);
    }
}

// ---------------------------------------------------------------------------
// Sparkle

/// The lowest sparkle level: the "low" option modulo 256.
pub open spec fn sparkle_low(opts: Map<Seq<char>, OptSpec>) -> u8 {
    int_opt(opts, "low"@) as u8
}

/// The highest sparkle level: the "high" option modulo 256.
pub open spec fn sparkle_high(opts: Map<Seq<char>, OptSpec>) -> u8 {
    int_opt(opts, "high"@) as u8
}

/// Whether any channel sparkles.
pub open spec fn sparkle_any_on(opts: Map<Seq<char>, OptSpec>) -> bool {
    bool_opt(opts, "r_on"@) || bool_opt(opts, "g_on"@) || bool_opt(opts, "b_on"@)
}

/// Whether a sparkle color can be drawn: when a channel is on, the range
/// from low to high is not reversed and holds at most 255 levels.
pub open spec fn sparkle_range_ok(opts: Map<Seq<char>, OptSpec>) -> bool {
    sparkle_any_on(opts) ==> sparkle_low(opts) <= sparkle_high(opts) && sparkle_high(opts) - sparkle_low(opts) < 255
}

/// One sparkle channel from the bits `r` of the seed: a level from low to
/// high when the channel is on, else 0.
pub open spec fn sparkle_channel(opts: Map<Seq<char>, OptSpec>, on: bool, r: u64) -> u8 {
    if on {
        let m = sparkle_high(opts) - sparkle_low(opts) + 1;
        ((r % (m as u64)) + sparkle_low(opts)) as u8
    } else {
        0
    }
}

/// The sparkle color drawn from `seed`: red from its low bits, green from
/// the bits shifted by 8, blue from those shifted by 16.
pub open spec fn sparkle_color(opts: Map<Seq<char>, OptSpec>, seed: u64) -> (u8, u8, u8) {
    (
        sparkle_channel(opts, bool_opt(opts, "r_on"@), seed),
        sparkle_channel(opts, bool_opt(opts, "g_on"@), seed >> 8u64),
        sparkle_channel(opts, bool_opt(opts, "b_on"@), seed >> 16u64),
    )
}

/// Whether LED `x` sparkles for `seed` on a strip of `n` LEDs: one chance in
/// `3 n + 1`, the sum wrapping at 64 bits.
pub open spec fn sparkle_hits(seed: u64, x: int, n: int) -> bool {
    ((seed + x) % 0x1_0000_0000_0000_0000int) % (3 * n + 1) == 0
}

/// The Sparkle frame for the clock readings: LED `j` takes the sparkle
/// color of `color_seeds[j]` when `hit_seeds[j]` makes it sparkle, else its
/// color faded by `table`.
pub open spec fn sparkle_frame(
    opts: Map<Seq<char>, OptSpec>,
    leds: Seq<(u8, u8, u8)>,
    hit_seeds: Seq<u64>,
    color_seeds: Seq<u64>,
    table: Seq<u8>,
) -> Seq<(u8, u8, u8)> {
    Seq::new(
        leds.len(),
        |j: int|
            if sparkle_hits(hit_seeds[j], j, leds.len() as int) {
                sparkle_color(opts, color_seeds[j])
            } else {
                decayed(table, leds[j])
            },
    )
}

/// Sparkle's current color after the first `k` of `n` LEDs: that of the
/// last of them that sparkled, else `arr`.
pub open spec fn sparkle_last(
    opts: Map<Seq<char>, OptSpec>,
    hit_seeds: Seq<u64>,
    color_seeds: Seq<u64>,
    n: int,
    k: int,
    arr: (u8, u8, u8),
) -> (u8, u8, u8)
    decreases k,
{
    if k <= 0 {
        arr
    } else if sparkle_hits(hit_seeds[k - 1], k - 1, n) {
        sparkle_color(opts, color_seeds[k - 1])
    } else {
        sparkle_last(opts, hit_seeds, color_seeds, n, k - 1, arr)
    }
}

/// A color with each channel looked up in a 256-entry decay table.
pub open spec fn decayed(table: Seq<u8>, c: (u8, u8, u8)) -> (u8, u8, u8) {
    (table[c.0 as int], table[c.1 as int], table[c.2 as int])
}

/// Random colors flashing up on single LEDs, the rest fading out.
pub struct Sparkle {
    pub opts: OptMap,
    pub arr: [u8; 3],
}

impl Sparkle {
    /// The state that `new` makes.
    pub open spec fn fresh(&self) -> bool {
        &&& self.opts.wf()
        &&& rgb(self.arr) == (0u8, 0u8, 0u8)
        &&& self.opts@ == Map::<Seq<char>, OptSpec>::empty()
            .insert("low"@, int_opt_spec(0))
            .insert("high"@, int_opt_spec(255))
            .insert("r_on"@, bool_opt_spec(true))
            .insert("g_on"@, bool_opt_spec(false))
            .insert("b_on"@, bool_opt_spec(true))
            .insert("decay"@, float_opt_spec(0x3fed70a3d70a3d71))
    }

    /// Red and blue sparkles over the full range, fading by the factor 0.92
    /// (kept as the bit pattern of the binary64 number).
    pub fn new() -> (res: Self)
        ensures
            res.fresh(),
    {
        let mut opts = OptMap::new();
        opts.insert("low".to_owned(), OptValue::create_int(0));
        opts.insert("high".to_owned(), OptValue::create_int(255));
        opts.insert("r_on".to_owned(), OptValue::create_bool(true));
        opts.insert("g_on".to_owned(), OptValue::create_bool(false));
        opts.insert("b_on".to_owned(), OptValue::create_bool(true));
        assert(is_finite_bits(0x3fed70a3d70a3d71u64)) by (bit_vector);
        opts.insert("decay".to_owned(), OptValue::create_float(0x3fed70a3d70a3d71));
        Sparkle { opts, arr: [0, 0, 0] }
    }

    /// Draws the sparkle color for `seed`, keeps it as the current color and
    /// returns it.
    pub fn color_from_seed(&mut self, seed: u64) -> (res: [u8; 3])
        requires
            old(self).opts.wf(),
            sparkle_range_ok(old(self).opts@),
        ensures
            final(self).opts == old(self).opts,
            rgb(res) == sparkle_color(old(self).opts@, seed),
            final(self).arr == res,
    {
        let low = get_int_opt(&self.opts, "low") as u8;
        let high = get_int_opt(&self.opts, "high") as u8;

        if get_bool_opt(&self.opts, "r_on") {
            self.arr[0] = (seed % ((high - low + 1) as u64)) as u8 + low;
        } else {
            self.arr[0] = 0;
        }
        if get_bool_opt(&self.opts, "g_on") {
            self.arr[1] = ((seed >> 8) % ((high - low + 1) as u64)) as u8 + low;
        } else {
            self.arr[1] = 0;
        }
        if get_bool_opt(&self.opts, "b_on") {
            self.arr[2] = ((seed >> 16) % ((high - low + 1) as u64)) as u8 + low;
        } else {
            self.arr[2] = 0;
        }
        self.arr
    }

    /// Draws a sparkle color from the clock, keeps it and returns it.
    pub fn get_arr(&mut self) -> (res: [u8; 3])
        requires
            old(self).opts.wf(),
            sparkle_range_ok(old(self).opts@),
        ensures
            final(self).opts == old(self).opts,
            exists|seed: u64| rgb(res) == sparkle_color(old(self).opts@, seed),
            final(self).arr == res,
    {
        let seed = crate::clock::now_nanos();
        self.color_from_seed(seed)
    }

    /// Whether LED `x` sparkles this frame for `seed` on a strip of `n` LEDs.
    pub fn hits(seed: u64, x: usize, n: usize) -> (res: bool)
        requires
            n <= crate::strip::max_leds(),
        ensures
            res == sparkle_hits(seed, x as int, n as int),
    {
        let threshold = n * 3;
        seed.wrapping_add(x as u64) % (threshold as u64 + 1) == 0
    }

    /// What `update_with_seeds` does for the clock readings `hit_seeds`
    /// and `color_seeds` (one of each per LED): `next` is the mode after it,
    /// `before` and `after` the strip. Each LED sparkles with the color of its
    /// color reading when its hit reading hits, else fades by `table`; the
    /// current color becomes that of the last LED that sparkled.
    pub open spec fn sparkled(
        self,
        next: Self,
        before: Strip,
        after: Strip,
        table: Seq<u8>,
        hit_seeds: Seq<u64>,
        color_seeds: Seq<u64>,
    ) -> bool {
        &&& next.opts == self.opts
        &&& rgb(next.arr) == sparkle_last(
            self.opts@,
            hit_seeds,
            color_seeds,
            before.num_leds as int,
            before.num_leds as int,
            rgb(self.arr),
        )
        &&& after.leds_changed_and_sent(
            &before,
            sparkle_frame(self.opts@, before.leds(), hit_seeds, color_seeds, table),
        )
    }

    /// What one `update` does: what `update_with_seeds` does for some clock
    /// readings, one of each kind per LED.
    pub open spec fn stepped(self, next: Self, before: Strip, after: Strip, table: Seq<u8>) -> bool {
        exists|hit_seeds: Seq<u64>, color_seeds: Seq<u64>|
            {
                &&& hit_seeds.len() == before.num_leds
                &&& color_seeds.len() == before.num_leds
                &&& #[trigger] self.sparkled(next, before, after, table, hit_seeds, color_seeds)
            }
    }

    /// Draws one frame for the given clock readings: LED `x` takes the
    /// sparkle color of `color_seeds[x]` (see `color_from_seed`) when
    /// `hit_seeds[x]` makes it sparkle (see `hits`), otherwise it fades by
    /// the decay table (entry `v` is channel value `v` times the "decay"
    /// option, the fraction dropped). Then the frame is queued.
    pub fn update_with_seeds(
        &mut self,
        strip: &mut Strip,
        hit_seeds: &Vec<u64>,
        color_seeds: &Vec<u64>,
        decay_table: &Vec<u8>,
    )
        requires
            old(self).opts.wf(),
            sparkle_range_ok(old(self).opts@) || old(strip).num_leds == 0,
            old(strip).wf(),
            hit_seeds@.len() == old(strip).num_leds,
            color_seeds@.len() == old(strip).num_leds,
            decay_table@.len() == 256,
        ensures
            (*old(self)).sparkled(
                *final(self),
                *old(strip),
                *final(strip),
                decay_table@,
                hit_seeds@,
                color_seeds@,
            ),
    {
        let n = strip.num_leds;
        let ghost l0 = old(strip).leds();
        let ghost opts = old(self).opts@;
        let ghost frame = sparkle_frame(opts, l0, hit_seeds@, color_seeds@, decay_table@);
        let mut x: usize = 0;
        proof {
            assert(strip.leds() =~= Seq::new(n as nat, |j: int| if j < 0 { frame[j] } else { l0[j] }));
        }
        while x < n
            invariant
                x <= n,
                n == old(strip).num_leds,
                l0 == old(strip).leds(),
                l0.len() == n,
                opts == old(self).opts@,
                frame == sparkle_frame(opts, l0, hit_seeds@, color_seeds@, decay_table@),
                hit_seeds@.len() == n,
                color_seeds@.len() == n,
                decay_table@.len() == 256,
                self.opts == old(self).opts,
                self.opts.wf(),
                sparkle_range_ok(self.opts@) || n == 0,
                rgb(self.arr) == sparkle_last(
                    opts,
                    hit_seeds@,
                    color_seeds@,
                    n as int,
                    x as int,
                    rgb(old(self).arr),
                ),
                strip.leds_changed(
                    old(strip),
                    Seq::new(n as nat, |j: int| if j < x { frame[j] } else { l0[j] }),
                ),
            decreases n - x,
        {
            if Self::hits(hit_seeds[x], x, n) {
                let c = self.color_from_seed(color_seeds[x]);
                strip.set_led_rgb(x, c);
            } else {
                let cur = strip.get_led(x);
                if let Some(v) = cur {
                    proof {
                        assert(strip.leds()[x as int] == strip.led(x as int));
                        assert(rgb(v) == l0[x as int]);
                    }
                    strip.set_led_rgb(
                        x,
                        [decay_table[v[0] as usize], decay_table[v[1] as usize], decay_table[v[2] as usize]],
                    );
                }
            }
            proof {
                assert(strip.leds() =~= Seq::new(
                    n as nat,
                    |j: int| if j < x + 1 { frame[j] } else { l0[j] },
                ));
            }
            x = x + 1;
        }
        proof {
            assert(strip.leds() =~= frame);
        }
        strip.send();
    }

    /// Reads the clock twice for each LED (a reading that decides whether it
    /// sparkles, and one for its color) and draws the frame for those
    /// readings (see `update_with_seeds`).
    pub fn update(&mut self, strip: &mut Strip, decay_table: &Vec<u8>)
        requires
            old(self).opts.wf(),
            sparkle_range_ok(old(self).opts@) || old(strip).num_leds == 0,
            old(strip).wf(),
            decay_table@.len() == 256,
        ensures
            (*old(self)).stepped(*final(self), *old(strip), *final(strip), decay_table@),
    {
        let n = strip.num_leds;
        let mut hit_seeds: Vec<u64> = Vec::new();
        let mut color_seeds: Vec<u64> = Vec::new();
        let mut x: usize = 0;
        while x < n
            invariant
                x <= n,
                hit_seeds@.len() == x,
                color_seeds@.len() == x,
            decreases n - x,
        {
            hit_seeds.push(crate::clock::now_nanos());
            color_seeds.push(crate::clock::now_nanos());
            x = x + 1;
        }
        self.update_with_seeds(strip, &hit_seeds, &color_seeds, decay_table);
        proof {
            assert((*old(self)).sparkled(
                *self,
                *old(strip),
                *strip,
                decay_table@,
                hit_seeds@,
                color_seeds@,
            ));
        }
    }
}

// ---------------------------------------------------------------------------
// Breathe

/// One color on every LED while the strip's brightness climbs from "low"
/// to "high" and falls back, one step per frame.
pub struct Breathe {
    pub opts: OptMap,
    pub counter: i64,
    pub direction: i64,
}

/// The direction after a Breathe frame: down at or above `high`, up at or
/// below `low`, else unchanged.
pub open spec fn breathe_direction(counter: i64, direction: i64, low: i64, high: i64) -> i64 {
    if counter >= high {
        -1i64
    } else if counter <= low {
        1i64
    } else {
        direction
    }
}

impl Breathe {
    /// The state that `new` makes.
    pub open spec fn fresh(&self) -> bool {
        &&& self.wf()
        &&& self.counter == 0
        &&& self.direction == 1
        &&& self.opts@ == Map::<Seq<char>, OptSpec>::empty()
            .insert("r"@, int_opt_spec(255))
            .insert("g"@, int_opt_spec(0))
            .insert("b"@, int_opt_spec(255))
            .insert("low"@, int_opt_spec(0))
            .insert("high"@, int_opt_spec(255))
    }

    /// Magenta, breathing over the full brightness range.
    pub fn new() -> (res: Self)
        ensures
            res.fresh(),
    {
        let mut opts = OptMap::new();
        opts.insert("r".to_owned(), OptValue::create_int(255));
        opts.insert("g".to_owned(), OptValue::create_int(0));
        opts.insert("b".to_owned(), OptValue::create_int(255));
        opts.insert("low".to_owned(), OptValue::create_int(0));
        opts.insert("high".to_owned(), OptValue::create_int(255));
        Breathe { opts, counter: 0, direction: 1 }
    }

    /// The options are well formed and the direction is one step up or down.
    pub open spec fn wf(&self) -> bool {
        self.opts.wf() && (self.direction == 1 || self.direction == -1)
    }

    /// The color of the frame, each option kept modulo 256.
    pub open spec fn color(&self) -> (u8, u8, u8) {
        (
            int_opt(self.opts@, "r"@) as u8,
            int_opt(self.opts@, "g"@) as u8,
            int_opt(self.opts@, "b"@) as u8,
        )
    }

    /// Whether the next step of the counter stays within `i64`.
    pub open spec fn update_ok(&self) -> bool {
        let d = breathe_direction(
            self.counter,
            self.direction,
            int_opt(self.opts@, "low"@),
            int_opt(self.opts@, "high"@),
        );
        i64::MIN <= self.counter + d <= i64::MAX
    }

    /// What one `update` does: `next` is the mode after it, `before` and
    /// `after` the strip.
    pub open spec fn stepped(self, next: Self, before: Strip, after: Strip) -> bool {
        &&& next.wf()
        &&& next.opts == self.opts
        &&& next.direction == breathe_direction(
            self.counter,
            self.direction,
            int_opt(self.opts@, "low"@),
            int_opt(self.opts@, "high"@),
        )
        &&& next.counter == self.counter + next.direction
        &&& after.wf()
        &&& after.leds() == solid_frame(before.num_leds as nat, self.color())
        &&& after.spec_brightness() == self.counter as u8
        &&& after.frame_seq() == before.next_seq()
        &&& after.next_seq() == (before.next_seq() + 1) % 256
        &&& after.dev_id == before.dev_id
        &&& after.udp_ip == before.udp_ip
        &&& after.udp_port == before.udp_port
        &&& after.num_leds == before.num_leds
        &&& after.outbox() == before.outbox().push(after.frame())
    }

    /// Sets the strip's brightness to the counter (modulo 256), fills it
    /// with the color, queues the frame, and steps the counter.
    pub fn update(&mut self, strip: &mut Strip)
        requires
            old(self).wf(),
            old(self).update_ok(),
            old(strip).wf(),
        ensures
            (*old(self)).stepped(*final(self), *old(strip), *final(strip)),
    {
        let r = get_int_opt(&self.opts, "r") as u8;
        let g = get_int_opt(&self.opts, "g") as u8;
        let b = get_int_opt(&self.opts, "b") as u8;
        let low = get_int_opt(&self.opts, "low");
        let high = get_int_opt(&self.opts, "high");

        strip.set_brightness(self.counter as u8);
        strip.fill([r, g, b]);

        if self.counter >= high {
            self.direction = -1;
        } else if self.counter <= low {
            self.direction = 1;
        }
        self.counter = self.counter + self.direction;
    }
}

// ---------------------------------------------------------------------------
// RainbowCycle

/// A fixed palette, one color per LED, turning by one LED each frame.
pub struct RainbowCycle {
    pub colors: Vec<[u8; 3]>,
}

/// A palette turned by one place: the last color moves to the front.
pub open spec fn rotate_right(s: Seq<[u8; 3]>) -> Seq<[u8; 3]> {
    seq![s.last()] + s.drop_last()
}

impl RainbowCycle {
    /// A cycle over the given palette (one color per LED, as made by the
    /// strip's rainbow).
    pub fn new(colors: Vec<[u8; 3]>) -> (res: Self)
        ensures
            res.colors@ == colors@,
    {
        RainbowCycle { colors }
    }

    /// The palette covers the strip.
    pub open spec fn fits(&self, strip: &Strip) -> bool {
        self.colors@.len() > 0 && self.colors@.len() >= strip.num_leds
    }

    /// What one `update` does: `next` is the mode after it, `before` and
    /// `after` the strip.
    pub open spec fn stepped(self, next: Self, before: Strip, after: Strip) -> bool {
        &&& next.colors@ == rotate_right(self.colors@)
        &&& after.leds_changed_and_sent(
            &before,
            Seq::new(before.num_leds as nat, |x: int| rgb(self.colors@[x])),
        )
    }

    /// Shows the palette, queues the frame, and turns the palette.
    pub fn update(&mut self, strip: &mut Strip)
        requires
            old(strip).wf(),
            old(self).fits(old(strip)),
        ensures
            (*old(self)).stepped(*final(self), *old(strip), *final(strip)),
    {
        let n = strip.num_leds;
        let mut x: usize = 0;
        proof {
            assert(strip.leds() =~= Seq::new(
                n as nat,
                |j: int| if j < 0 { rgb(self.colors@[j]) } else { old(strip).led(j) },
            ));
        }
        while x < n
            invariant
                n == old(strip).num_leds,
                x <= n,
                self.colors@.len() >= n,
                self.colors == old(self).colors,
                strip.leds_changed(
                    old(strip),
                    Seq::new(n as nat, |j: int| if j < x { rgb(self.colors@[j]) } else { old(strip).led(j) }),
                ),
            decreases n - x,
        {
            strip.set_led_rgb(x, self.colors[x]);
            proof {
                assert(strip.leds() =~= Seq::new(
                    n as nat,
                    |j: int| if j < x + 1 { rgb(self.colors@[j]) } else { old(strip).led(j) },
                ));
            }
            x = x + 1;
        }
        proof {
            assert(strip.leds() =~= Seq::new(n as nat, |j: int| rgb(old(self).colors@[j])));
        }
        strip.send();
        let last = self.colors.pop().unwrap();
        self.colors.insert(0, last);
        proof {
            assert(self.colors@ =~= rotate_right(old(self).colors@));
        }
    }
}

// ---------------------------------------------------------------------------
// Any mode

/// One of the animation modes, with its state.
pub enum Mode {
    NightRider(NightRider),
    RainbowCycle(RainbowCycle),
    Collider(Collider),
    Christmas(Christmas),
    MardiGras(MardiGras),
    ArrGeeBee(ArrGeeBee),
    Sparkle(Sparkle),
    Breathe(Breathe),
    Solid(Solid),
    White(White),
    Off(Off),
}

/// The names of all modes, in the order they are offered.
pub open spec fn mode_names() -> Seq<Seq<char>> {
    seq![
        "NightRider"@,
        "RainbowCycle"@,
        "Collider"@,
        "Christmas"@,
        "MardiGras"@,
        "ArrGeeBee"@,
        "Sparkle"@,
        "Breathe"@,
        "Solid"@,
        "White"@,
        "Off"@,
    ]
}

impl Mode {
    /// The mode's name.
    pub open spec fn mode_name(&self) -> Seq<char> {
        match self {
            Mode::NightRider(_) => "NightRider"@,
            Mode::RainbowCycle(_) => "RainbowCycle"@,
            Mode::Collider(_) => "Collider"@,
            Mode::Christmas(_) => "Christmas"@,
            Mode::MardiGras(_) => "MardiGras"@,
            Mode::ArrGeeBee(_) => "ArrGeeBee"@,
            Mode::Sparkle(_) => "Sparkle"@,
            Mode::Breathe(_) => "Breathe"@,
            Mode::Solid(_) => "Solid"@,
            Mode::White(_) => "White"@,
            Mode::Off(_) => "Off"@,
        }
    }

    /// The mode's state is consistent.
    pub open spec fn wf(&self) -> bool {
        match self {
            Mode::NightRider(m) => m.wf(),
            Mode::RainbowCycle(_) => true,
            Mode::Collider(m) => m.wf(),
            Mode::Christmas(m) => m.wf(),
            Mode::MardiGras(m) => m.wf(),
            Mode::ArrGeeBee(m) => m.wf(),
            Mode::Sparkle(m) => m.opts.wf(),
            Mode::Breathe(m) => m.wf(),
            Mode::Solid(m) => m.opts.wf(),
            Mode::White(_) => true,
            Mode::Off(_) => true,
        }
    }

    /// Whether the next `update` on `strip` can run: the rainbow palette
    /// covers the strip, the Collider's and Breathe's counters stay in range,
    /// and Sparkle's level range is usable.
    pub open spec fn ready(&self, strip: &Strip) -> bool {
        match self {
            Mode::RainbowCycle(m) => m.fits(strip),
            Mode::Collider(m) => m.update_ok(strip),
            Mode::Sparkle(m) => sparkle_range_ok(m.opts@) || strip.num_leds == 0,
            Mode::Breathe(m) => m.update_ok(),
            _ => true,
        }
    }

    /// The mode's options (none for modes without options).
    pub open spec fn opts_view(&self) -> Map<Seq<char>, OptSpec> {
        match self {
            Mode::NightRider(m) => m.opts@,
            Mode::Collider(m) => m.opts@,
            Mode::Sparkle(m) => m.opts@,
            Mode::Breathe(m) => m.opts@,
            Mode::Solid(m) => m.opts@,
            _ => Map::empty(),
        }
    }

    /// `self` and `other` are the same mode with the same state, options aside.
    pub open spec fn same_but_opts(&self, other: &Mode) -> bool {
        match (self, other) {
            (Mode::NightRider(a), Mode::NightRider(b)) => a.counter == b.counter && a.direction
                == b.direction,
            (Mode::RainbowCycle(a), Mode::RainbowCycle(b)) => a.colors@ == b.colors@,
            (Mode::Collider(a), Mode::Collider(b)) => {
                &&& a.counter_a == b.counter_a
                &&& a.direction_a == b.direction_a
                &&& a.counter_b == b.counter_b
                &&& a.direction_b == b.direction_b
                &&& a.collision@ == b.collision@
                &&& a.collision_stren == b.collision_stren
            },
            (Mode::Christmas(a), Mode::Christmas(b)) => a.arr@ == b.arr@ && a.pool_idx == b.pool_idx,
            (Mode::MardiGras(a), Mode::MardiGras(b)) => a.arr@ == b.arr@ && a.pool_idx == b.pool_idx,
            (Mode::ArrGeeBee(a), Mode::ArrGeeBee(b)) => a.arr@ == b.arr@ && a.pool_idx == b.pool_idx,
            (Mode::Sparkle(a), Mode::Sparkle(b)) => a.arr == b.arr,
            (Mode::Breathe(a), Mode::Breathe(b)) => a.counter == b.counter && a.direction == b.direction,
            (Mode::Solid(_), Mode::Solid(_)) => true,
            (Mode::White(_), Mode::White(_)) => true,
            (Mode::Off(_), Mode::Off(_)) => true,
            _ => false,
        }
    }

    /// What one `update` does, by mode: `next` is the mode after it,
    /// `before` and `after` the strip, `table` the decay table.
    pub open spec fn stepped(self, next: Mode, before: Strip, after: Strip, table: Seq<u8>) -> bool {
        match (self, next) {
            (Mode::NightRider(a), Mode::NightRider(b)) => a.stepped(b, before, after),
            (Mode::RainbowCycle(a), Mode::RainbowCycle(b)) => a.stepped(b, before, after),
            (Mode::Collider(a), Mode::Collider(b)) => a.stepped(b, before, after),
            (Mode::Christmas(a), Mode::Christmas(b)) => a.stepped(b, before, after),
            (Mode::MardiGras(a), Mode::MardiGras(b)) => a.stepped(b, before, after),
            (Mode::ArrGeeBee(a), Mode::ArrGeeBee(b)) => a.stepped(b, before, after),
            (Mode::Sparkle(a), Mode::Sparkle(b)) => a.stepped(b, before, after, table),
            (Mode::Breathe(a), Mode::Breathe(b)) => a.stepped(b, before, after),
            (Mode::Solid(a), Mode::Solid(b)) => a.stepped(b, before, after),
            (Mode::White(a), Mode::White(b)) => a.stepped(b, before, after),
            (Mode::Off(a), Mode::Off(b)) => a.stepped(b, before, after),
            _ => false,
        }
    }

    /// The mode's name.
    pub fn name(&self) -> (res: &'static str)
        ensures
            res@ == self.mode_name(),
    {
        match self {
            Mode::NightRider(_) => "NightRider",
            Mode::RainbowCycle(_) => "RainbowCycle",
            Mode::Collider(_) => "Collider",
            Mode::Christmas(_) => "Christmas",
            Mode::MardiGras(_) => "MardiGras",
            Mode::ArrGeeBee(_) => "ArrGeeBee",
            Mode::Sparkle(_) => "Sparkle",
            Mode::Breathe(_) => "Breathe",
            Mode::Solid(_) => "Solid",
            Mode::White(_) => "White",
            Mode::Off(_) => "Off",
        }
    }

    /// Whether the next `update` on `strip` can run (see `ready`).
    pub fn can_update(&self, strip: &Strip) -> (res: bool)
        requires
            self.wf(),
        ensures
            res == self.ready(strip),
    {
        match self {
            Mode::RainbowCycle(m) => m.colors.len() > 0 && m.colors.len() >= strip.num_leds,
            Mode::Collider(m) => {
                if !m.collision_on_strip(strip) {
                    false
                } else if m.collision.len() > 0 {
                    let decay = get_int_opt(&m.opts, "collision_decay") as i32;
                    let s = m.collision_stren as i64 - decay as i64;
                    i32::MIN as i64 <= s && s <= i32::MAX as i64
                } else {
                    true
                }
            },
            Mode::Sparkle(m) => {
                let any = get_bool_opt(&m.opts, "r_on") || get_bool_opt(&m.opts, "g_on")
                    || get_bool_opt(&m.opts, "b_on");
                let low = get_int_opt(&m.opts, "low") as u8;
                let high = get_int_opt(&m.opts, "high") as u8;
                !any || (low <= high && high - low < 255) || strip.num_leds == 0
            },
            Mode::Breathe(m) => {
                let low = get_int_opt(&m.opts, "low");
                let high = get_int_opt(&m.opts, "high");
                let d: i64 = if m.counter >= high {
                    -1
                } else if m.counter <= low {
                    1
                } else {
                    m.direction
                };
                let c = m.counter as i128 + d as i128;
                i64::MIN as i128 <= c && c <= i64::MAX as i128
            },
            _ => true,
        }
    }

    /// A copy of the mode's options (empty for modes without options).
    pub fn get_opts(&self) -> (res: OptMap)
        requires
            self.wf(),
        ensures
            res.wf(),
            res@ == self.opts_view(),
    {
        match self {
            Mode::NightRider(m) => m.opts.deep_clone(),
            Mode::Collider(m) => m.opts.deep_clone(),
            Mode::Sparkle(m) => m.opts.deep_clone(),
            Mode::Breathe(m) => m.opts.deep_clone(),
            Mode::Solid(m) => m.opts.deep_clone(),
            _ => OptMap::new(),
        }
    }

    /// Takes from `opts` the value of every option the mode already has;
    /// other names are ignored, and modes without options ignore all.
    pub fn set_opts(&mut self, opts: &OptMap)
        requires
            old(self).wf(),
            opts.wf(),
        ensures
            final(self).wf(),
            final(self).same_but_opts(old(self)),
            final(self).opts_view() == merge_existing(old(self).opts_view(), opts@),
    {
        match self {
            Mode::NightRider(m) => m.opts.set_existing(opts),
            Mode::Collider(m) => m.opts.set_existing(opts),
            Mode::Sparkle(m) => m.opts.set_existing(opts),
            Mode::Breathe(m) => m.opts.set_existing(opts),
            Mode::Solid(m) => m.opts.set_existing(opts),
            _ => {},
        }
        proof {
            assert(merge_existing(Map::<Seq<char>, OptSpec>::empty(), opts@) =~= Map::<
                Seq<char>,
                OptSpec,
            >::empty());
        }
    }

    /// Draws the next frame on `strip` (see each mode's `update`); the decay
    /// table is used by Sparkle only.
    pub fn update(&mut self, strip: &mut Strip, decay_table: &Vec<u8>)
        requires
            old(self).wf(),
            old(self).ready(old(strip)),
            old(strip).wf(),
            decay_table@.len() == 256,
        ensures
            final(self).wf(),
            (*old(self)).stepped(*final(self), *old(strip), *final(strip), decay_table@),
    {
        match self {
            Mode::NightRider(m) => m.update(strip),
            Mode::RainbowCycle(m) => m.update(strip),
            Mode::Collider(m) => m.update(strip),
            Mode::Christmas(m) => m.update(strip),
            Mode::MardiGras(m) => m.update(strip),
            Mode::ArrGeeBee(m) => m.update(strip),
            Mode::Sparkle(m) => m.update(strip, decay_table),
            Mode::Breathe(m) => m.update(strip),
            Mode::Solid(m) => m.update(strip),
            Mode::White(m) => m.update(strip),
            Mode::Off(m) => m.update(strip),
        }
    }

    /// The mode that `create_mode` makes for `name`: the named mode, fresh;
    /// NightRider for a name of no mode.
    pub open spec fn created(self, name: Seq<char>, strip: Strip, rainbow: Seq<[u8; 3]>) -> bool {
        if name == "RainbowCycle"@ {
            self matches Mode::RainbowCycle(m) && m.colors@ == rainbow
        } else if name == "Collider"@ {
            self matches Mode::Collider(m) && m.fresh(&strip)
        } else if name == "Christmas"@ {
            self matches Mode::Christmas(m) && m.fresh()
        } else if name == "MardiGras"@ {
            self matches Mode::MardiGras(m) && m.fresh()
        } else if name == "ArrGeeBee"@ {
            self matches Mode::ArrGeeBee(m) && m.fresh()
        } else if name == "Sparkle"@ {
            self matches Mode::Sparkle(m) && m.fresh()
        } else if name == "Breathe"@ {
            self matches Mode::Breathe(m) && m.fresh()
        } else if name == "Solid"@ {
            self matches Mode::Solid(m) && m.fresh()
        } else if name == "White"@ {
            self is White
        } else if name == "Off"@ {
            self is Off
        } else {
            self matches Mode::NightRider(m) && m.fresh()
        }
    }
}

/// The mode names, told apart by length and first letter.
pub proof fn lemma_mode_names_distinct()
    ensures
        "NightRider"@.len() == 10 && "NightRider"@[0] == 'N',
        "RainbowCycle"@.len() == 12 && "RainbowCycle"@[0] == 'R',
        "Collider"@.len() == 8 && "Collider"@[0] == 'C',
        "Christmas"@.len() == 9 && "Christmas"@[0] == 'C',
        "MardiGras"@.len() == 9 && "MardiGras"@[0] == 'M',
        "ArrGeeBee"@.len() == 9 && "ArrGeeBee"@[0] == 'A',
        "Sparkle"@.len() == 7 && "Sparkle"@[0] == 'S',
        "Breathe"@.len() == 7 && "Breathe"@[0] == 'B',
        "Solid"@.len() == 5 && "Solid"@[0] == 'S',
        "White"@.len() == 5 && "White"@[0] == 'W',
        "Off"@.len() == 3 && "Off"@[0] == 'O',
{
    reveal_strlit("NightRider");
    reveal_strlit("RainbowCycle");
    reveal_strlit("Collider");
    reveal_strlit("Christmas");
    reveal_strlit("MardiGras");
    reveal_strlit("ArrGeeBee");
    reveal_strlit("Sparkle");
    reveal_strlit("Breathe");
    reveal_strlit("Solid");
    reveal_strlit("White");
    reveal_strlit("Off");
}

/// The name a mode gets when it is asked for by `name`: the name itself for
/// a mode that exists, else NightRider.
pub open spec fn resolved_name(name: Seq<char>) -> Seq<char> {
    if mode_names().contains(name) {
        name
    } else {
        "NightRider"@
    }
}

/// A mode created from a name carries the name asked for when that names a
/// mode, and NightRider's otherwise.
pub proof fn lemma_created_name(m: Mode, name: Seq<char>, strip: Strip, rainbow: Seq<[u8; 3]>)
    requires
        m.created(name, strip, rainbow),
    ensures
        m.mode_name() == resolved_name(name),
{
    lemma_mode_names_distinct();
    if mode_names().contains(name) {
        let i = choose|i: int| 0 <= i < mode_names().len() && mode_names()[i] == name;
        assert(0 <= i < 11);
    } else {
        assert(name != mode_names()[0]);
        assert(name != mode_names()[1]);
        assert(name != mode_names()[2]);
        assert(name != mode_names()[3]);
        assert(name != mode_names()[4]);
        assert(name != mode_names()[5]);
        assert(name != mode_names()[6]);
        assert(name != mode_names()[7]);
        assert(name != mode_names()[8]);
        assert(name != mode_names()[9]);
        assert(name != mode_names()[10]);
    }
}

/// Creates the mode called `name` for `strip`; an unknown name gives
/// NightRider. RainbowCycle takes `rainbow` as its palette.
pub fn create_mode(name: &str, strip: &Strip, rainbow: Vec<[u8; 3]>) -> (res: Mode)
    requires
        strip.wf(),
    ensures
        res.wf(),
        res.created(name@, *strip, rainbow@),
{
    if str_eq(name, "RainbowCycle") {
        Mode::RainbowCycle(RainbowCycle::new(rainbow))
    } else if str_eq(name, "Collider") {
        Mode::Collider(Collider::new(strip))
    } else if str_eq(name, "Christmas") {
        Mode::Christmas(Christmas::new())
    } else if str_eq(name, "MardiGras") {
        Mode::MardiGras(MardiGras::new())
    } else if str_eq(name, "ArrGeeBee") {
        Mode::ArrGeeBee(ArrGeeBee::new())
    } else if str_eq(name, "Sparkle") {
        Mode::Sparkle(Sparkle::new())
    } else if str_eq(name, "Breathe") {
        Mode::Breathe(Breathe::new())
    } else if str_eq(name, "Solid") {
        Mode::Solid(Solid::new())
    } else if str_eq(name, "White") {
        Mode::White(White::new())
    } else if str_eq(name, "Off") {
        Mode::Off(Off::new())
    } else {
        Mode::NightRider(NightRider::new())
    }
}

/// The names of all modes.
pub fn get_available_modes() -> (res: Vec<String>)
    ensures
        res@.map_values(|s: String| s@) == mode_names(),
{
    let mut res: Vec<String> = Vec::new();
    res.push("NightRider".to_owned());
    res.push("RainbowCycle".to_owned());
    res.push("Collider".to_owned());
    res.push("Christmas".to_owned());
    res.push("MardiGras".to_owned());
    res.push("ArrGeeBee".to_owned());
    res.push("Sparkle".to_owned());
    res.push("Breathe".to_owned());
    res.push("Solid".to_owned());
    res.push("White".to_owned());
    res.push("Off".to_owned());
    assert(res@.map_values(|s: String| s@) =~= mode_names());
    res
}

// ---------------------------------------------------------------------------
// Laws

/// NightRider's head stays on a strip of at least two LEDs once it is on it,
/// and keeps moving one place at a time.
pub proof fn lemma_nightrider_stays_on_strip(c: int, d: int, n: int)
    requires
        n >= 2,
        0 <= c < n,
        d == 1 || d == -1,
    ensures
        0 <= nightrider_step(c, d, n).0 < n,
        nightrider_step(c, d, n).1 == 1 || nightrider_step(c, d, n).1 == -1,
        nightrider_step(c, d, n).0 == c + nightrider_step(c, d, n).1 || (c == n - 1 && nightrider_step(
            c,
            d,
            n,
        ).0 == n - 1) || (c == 0 && nightrider_step(c, d, n).0 == 1),
{
}

/// A Collider runner stays between the start and one past the end of a
/// non-empty strip.
pub proof fn lemma_runner_stays_in_range(c: int, d: int, n: int)
    requires
        n >= 1,
        0 <= c <= n,
        d == 1 || d == -1,
    ensures
        0 <= runner_step(c, d, n).0 <= n,
        runner_step(c, d, n).1 == 1 || runner_step(c, d, n).1 == -1,
{
}

/// Every channel of a sparkle color that is on lies between the low and
/// high levels; a channel that is off is 0.
pub proof fn lemma_sparkle_levels(opts: Map<Seq<char>, OptSpec>, seed: u64)
    requires
        sparkle_range_ok(opts),
    ensures
        ({
            let c = sparkle_color(opts, seed);
            let (lo, hi) = (sparkle_low(opts), sparkle_high(opts));
            &&& bool_opt(opts, "r_on"@) ==> lo <= c.0 <= hi
            &&& bool_opt(opts, "g_on"@) ==> lo <= c.1 <= hi
            &&& bool_opt(opts, "b_on"@) ==> lo <= c.2 <= hi
            &&& !bool_opt(opts, "r_on"@) ==> c.0 == 0
            &&& !bool_opt(opts, "g_on"@) ==> c.1 == 0
            &&& !bool_opt(opts, "b_on"@) ==> c.2 == 0
        }),
{
    let (lo, hi) = (sparkle_low(opts), sparkle_high(opts));
    if sparkle_any_on(opts) {
        let m = (hi - lo + 1) as u64;
        assert(seed % m < m);
        assert((seed >> 8u64) % m < m);
        assert((seed >> 16u64) % m < m);
    }
}

/// Breathe's counter, once between its low and high bounds, stays within
/// one step of them.
pub proof fn lemma_breathe_bounded(c: i64, d: i64, low: i64, high: i64)
    requires
        low < high,
        low <= c <= high,
        d == 1 || d == -1,
    ensures
        low <= c + breathe_direction(c, d, low, high) <= high,
{
}

/// The head position and direction of a NightRider after `k` frames from
/// its start (head at 0, moving up).
pub open spec fn nightrider_run(n: int, k: nat) -> (int, int)
    decreases k,
{
    if k == 0 {
        (0, 1)
    } else {
        let (c, d) = nightrider_run(n, (k - 1) as nat);
        nightrider_step(c, d, n)
    }
}

/// Over any number of frames on a strip of at least two LEDs, NightRider's
/// head, starting at 0, stays on the strip, moves at most one place per
/// frame, turns back only at either end, and is drawn in the head color.
pub proof fn lemma_nightrider_bounce(n: int, k: nat)
    requires
        n >= 2,
    ensures
        ({
            let (c, d) = nightrider_run(n, k);
            let (c2, d2) = nightrider_run(n, k + 1);
            &&& 0 <= c < n
            &&& d == 1 || d == -1
            &&& (c2, d2) == nightrider_step(c, d, n)
            &&& -1 <= c2 - c <= 1
            &&& d2 != d ==> c == 0 || c == n - 1
            &&& forall|leds: Seq<(u8, u8, u8)>, fade: bool, fill: (u8, u8, u8), color: (u8, u8, u8), tail: (
                u8,
                u8,
                u8,
            )|
                leds.len() == n ==> (#[trigger] nightrider_frame(leds, c, d, fade, fill, color, tail))[c]
                    == color
        }),
    decreases k,
{
    if k > 0 {
        lemma_nightrider_bounce(n, (k - 1) as nat);
    }
    let (c, d) = nightrider_run(n, k);
    assert(nightrider_run(n, k + 1) == nightrider_step(c, d, n));
}

/// Christmas with its red and green palette: every frame holds only red
/// and green, neighbouring LEDs differ, and each LED changes color from one
/// frame to the next. (`a` draws the strip `s0` into `s1`, becoming `b`,
/// which draws it into `s2`.)
pub proof fn lemma_christmas_alternates(a: Christmas, b: Christmas, c: Christmas, s0: Strip, s1: Strip, s2: Strip)
    requires
        a.wf(),
        a.arr@.map_values(|x: [u8; 3]| rgb(x)) == seq![rgb(RED), rgb(GREEN)],
        a.stepped(b, s0, s1),
        b.stepped(c, s1, s2),
    ensures
        forall|x: int|
            0 <= x < s1.num_leds ==> #[trigger] s1.leds()[x] == rgb(RED) || s1.leds()[x] == rgb(GREEN),
        forall|x: int| 0 <= x < s1.num_leds - 1 ==> #[trigger] s1.leds()[x] != s1.leds()[x + 1],
        forall|x: int| 0 <= x < s1.num_leds ==> #[trigger] s2.leds()[x] != s1.leds()[x],
{
    let pal = a.arr@;
    let n = s0.num_leds as nat;
    assert(pal.len() == 2) by {
        assert(pal.map_values(|x: [u8; 3]| rgb(x)).len() == 2);
    }
    assert(rgb(pal[0]) == rgb(RED) && rgb(pal[1]) == rgb(GREEN)) by {
        assert(pal.map_values(|x: [u8; 3]| rgb(x))[0] == rgb(RED));
        assert(pal.map_values(|x: [u8; 3]| rgb(x))[1] == rgb(GREEN));
    }
    let st1 = chase_start(2, a.pool_idx as nat, n);
    let p1 = b.pool_idx as nat;
    let st2 = chase_start(2, p1, n);
    assert(p1 == (st1 + n) % 2);
    assert(st1 < 2);
    assert(st2 == (st1 + 1) % 2) by {
        if (2 + n) % 2 == 0 {
            assert(n % 2 == 0);
            assert((st1 + n) % 2 == st1) by {
                vstd::arithmetic::div_mod::lemma_add_mod_noop(st1 as int, n as int, 2);
            }
        } else {
            assert(n % 2 == 1);
            assert((st1 + n) % 2 == (st1 + 1) % 2) by {
                vstd::arithmetic::div_mod::lemma_add_mod_noop(st1 as int, n as int, 2);
            }
        }
    }
    assert(rgb(RED) != rgb(GREEN));
    assert forall|x: int| 0 <= x < n implies #[trigger] s2.leds()[x] != s1.leds()[x] by {
        assert(s1.leds()[x] == rgb(pal[(st1 + x) % 2]));
        assert(s2.leds()[x] == rgb(pal[(st2 + x) % 2]));
        vstd::arithmetic::div_mod::lemma_add_mod_noop(st1 as int, x, 2);
        vstd::arithmetic::div_mod::lemma_add_mod_noop(st2 as int, x, 2);
    }
    assert forall|x: int| 0 <= x < n - 1 implies #[trigger] s1.leds()[x] != s1.leds()[x + 1] by {
        assert(s1.leds()[x] == rgb(pal[(st1 + x) % 2]));
        assert(s1.leds()[x + 1] == rgb(pal[(st1 + x + 1) % 2]));
        vstd::arithmetic::div_mod::lemma_add_mod_noop(st1 as int + x, 1, 2);
    }
    assert forall|x: int| 0 <= x < n implies #[trigger] s1.leds()[x] == rgb(RED) || s1.leds()[x] == rgb(GREEN) by {
        assert(s1.leds()[x] == rgb(pal[(st1 + x) % 2]));
    }
}

/// Collider's flash fades by the "collision_decay" option each frame; once
/// the strength would fall below zero the flash is over and the strength is
/// back at 100, ready for the next meeting.
pub proof fn lemma_collider_flash_fades_and_resets(a: Collider, b: Collider, s0: Strip, s1: Strip)
    requires
        a.stepped(b, s0, s1),
        a.collision@.len() > 0,
    ensures
        a.collision_stren - (int_opt(a.opts@, "collision_decay"@) as i32) >= 0 ==> b.collision_stren
            == a.collision_stren - (int_opt(a.opts@, "collision_decay"@) as i32),
        a.collision_stren - (int_opt(a.opts@, "collision_decay"@) as i32) < 0 ==> b.collision_stren == 100,
{
}

/// A place of Collider's flash that no runner covers is drawn red at the
/// flash's strength: 255 times the strength percent, the fraction dropped,
/// with no green or blue.
pub proof fn lemma_collider_flash_drawn(a: Collider, b: Collider, s0: Strip, s1: Strip, p: int)
    requires
        a.stepped(b, s0, s1),
        0 <= p < s0.num_leds,
        a.collision@.contains(p as usize),
        p != a.counter_a,
        p != a.counter_b,
        0 <= a.collision_stren <= 100,
    ensures
        s1.leds()[p] == ((255 * a.collision_stren / 100) as u8, 0u8, 0u8),
{
}

/// Breathe fills the strip with the color of its "r", "g" and "b" options
/// (each modulo 256, red, green and blue in that order) and sets the strip's
/// brightness to its counter (modulo 256).
pub proof fn lemma_breathe_color(a: Breathe, b: Breathe, s0: Strip, s1: Strip)
    requires
        a.stepped(b, s0, s1),
    ensures
        forall|j: int|
            0 <= j < s0.num_leds ==> {
                &&& (#[trigger] s1.leds()[j]).0 == int_opt(a.opts@, "r"@) as u8
                &&& s1.leds()[j].1 == int_opt(a.opts@, "g"@) as u8
                &&& s1.leds()[j].2 == int_opt(a.opts@, "b"@) as u8
            },
        s1.spec_brightness() == a.counter as u8,
{
}

/// Sparkle's odds: for a given LED the clock readings that make it sparkle
/// recur every `3 n + 1` readings, a reading that makes it sparkle is
/// followed by one that does not (on a non-empty strip), and every LED has a
/// reading that makes it sparkle.
pub proof fn lemma_sparkle_odds(seed: u64, x: int, n: int)
    requires
        0 <= x < n,
        seed + x + 3 * n + 1 <= u64::MAX,
    ensures
        sparkle_hits(seed, x, n) == sparkle_hits((seed + 3 * n + 1) as u64, x, n),
        sparkle_hits(seed, x, n) ==> !sparkle_hits((seed + 1) as u64, x, n),
        sparkle_hits((3 * n + 1 - x) as u64, x, n),
{
    let m = 3 * n + 1;
    assert(m > 1);
    vstd::arithmetic::div_mod::lemma_mod_add_multiples_vanish((seed + x) as int, m);
    if (seed + x) % m == 0 {
        vstd::arithmetic::div_mod::lemma_add_mod_noop((seed + x) as int, 1, m);
        vstd::arithmetic::div_mod::lemma_small_mod(1, m as nat);
    }
    vstd::arithmetic::div_mod::lemma_mod_self_0(m);
    assert(((3 * n + 1 - x) as u64) + x == m);
}

} // verus!
