use homectrl::colors::{BLACK, BLUE, GREEN, PURPLE, RED, YELLOW};
use homectrl::json::{JsonNumber, JsonValue};
use homectrl::modes::{
    collision_red, create_mode, fade_color, get_available_modes, ArrGeeBee, Breathe, Christmas,
    Collider, MardiGras, Mode, NightRider, Off, RainbowCycle, Solid, Sparkle, White,
};
use homectrl::opts::{OptMap, OptValue};
use homectrl::strip::Strip;

fn leds(strip: &Strip) -> Vec<[u8; 3]> {
    (0..strip.num_leds).map(|i| strip.get_led(i).unwrap()).collect()
}

fn identity_table() -> Vec<u8> {
    (0..=255u8).collect()
}

#[test]
fn available_modes_in_order() {
    assert_eq!(
        get_available_modes(),
        vec![
            "NightRider", "RainbowCycle", "Collider", "Christmas", "MardiGras", "ArrGeeBee",
            "Sparkle", "Breathe", "Solid", "White", "Off"
        ]
    );
}

#[test]
fn every_available_mode_is_created_by_its_name() {
    let strip = Strip::new(1, "h", 5);
    for name in get_available_modes() {
        let m = create_mode(&name, &strip, vec![[1, 1, 1]; 5]);
        assert_eq!(m.name(), name);
    }
    let m = create_mode("NoSuchMode", &strip, vec![]);
    assert_eq!(m.name(), "NightRider");
}

#[test]
fn christmas_alternates() {
    let mut strip = Strip::new(1, "h", 4);
    let mut m = Christmas::new();
    // palette 2 + 4 LEDs is even: the start moves on first
    m.update(&mut strip);
    assert_eq!(leds(&strip), vec![GREEN, RED, GREEN, RED]);
    assert_eq!(m.pool_idx, 1);
    m.update(&mut strip);
    assert_eq!(leds(&strip), vec![RED, GREEN, RED, GREEN]);
    assert_eq!(strip.take_outgoing().len(), 2);
}

#[test]
fn mardi_gras_and_arr_gee_bee() {
    let mut strip = Strip::new(1, "h", 4);
    let mut m = MardiGras::new();
    // 3 + 4 is odd: the start stays
    m.update(&mut strip);
    assert_eq!(leds(&strip), vec![PURPLE, GREEN, YELLOW, PURPLE]);
    assert_eq!(m.pool_idx, 1);
    let mut a = ArrGeeBee::new();
    a.update(&mut strip);
    assert_eq!(leds(&strip), vec![RED, GREEN, [0, 0, 255], RED]);
}

#[test]
fn solid_white_off() {
    let mut strip = Strip::new(1, "h", 2);
    let mut s = Solid::new();
    s.update(&mut strip);
    assert_eq!(leds(&strip), vec![YELLOW, YELLOW]);
    White::new().update(&mut strip);
    assert_eq!(leds(&strip), vec![[255, 255, 255]; 2]);
    Off::new().update(&mut strip);
    assert_eq!(leds(&strip), vec![BLACK; 2]);
    assert_eq!(strip.take_outgoing().len(), 3);
}

#[test]
fn solid_takes_hex_color_option() {
    let mut strip = Strip::new(1, "h", 1);
    let mut s = Solid::new();
    let mut input = OptMap::new();
    input.insert(
        "color".to_string(),
        OptValue { value: JsonValue::String("#0a0B0c".to_string()), opt_type: "color".to_string() },
    );
    s.opts.set_existing(&input);
    s.update(&mut strip);
    assert_eq!(leds(&strip), vec![[10, 11, 12]]);
}

#[test]
fn nightrider_runs_with_fading_tail() {
    let mut strip = Strip::new(1, "h", 5);
    strip.fill([100, 100, 100]);
    let mut m = NightRider::new();
    m.update(&mut strip);
    // head at 0 in purple, the rest faded to 60%
    assert_eq!(leds(&strip), vec![PURPLE, [60; 3], [60; 3], [60; 3], [60; 3]]);
    assert_eq!((m.counter, m.direction), (1, 1));
    m.update(&mut strip);
    // head at 1, tail behind it at 0 in blue
    assert_eq!(leds(&strip), vec![BLUE, PURPLE, [36; 3], [36; 3], [36; 3]]);
    assert_eq!((m.counter, m.direction), (2, 1));
}

#[test]
fn nightrider_turns_at_the_end() {
    let mut strip = Strip::new(1, "h", 3);
    let mut m = NightRider::new();
    m.counter = 2;
    m.update(&mut strip);
    assert_eq!((m.counter, m.direction), (2, -1));
    m.update(&mut strip);
    assert_eq!(leds(&strip)[2], PURPLE);
    assert_eq!((m.counter, m.direction), (1, -1));
    m.update(&mut strip);
    // moving down, the tail is ahead in drawing order and gets faded
    assert_eq!(leds(&strip)[1], PURPLE);
    assert_eq!(leds(&strip)[2], [0, 0, 153]);
    assert_eq!((m.counter, m.direction), (0, -1));
}

#[test]
fn nightrider_without_fade_fills() {
    let mut strip = Strip::new(1, "h", 3);
    strip.fill([9, 9, 9]);
    let mut m = NightRider::new();
    let mut input = OptMap::new();
    input.insert("fade".to_string(), OptValue::create_bool(false));
    input.insert("fill_color".to_string(), OptValue::create_color([1, 2, 3]));
    m.opts.set_existing(&input);
    m.update(&mut strip);
    assert_eq!(leds(&strip), vec![PURPLE, [1, 2, 3], [1, 2, 3]]);
}

#[test]
fn fade_matches_float_scaling() {
    for v in 0..=255u8 {
        let expected = (v as f64 * 0.60).clamp(0.0, 255.0) as u8;
        assert_eq!(fade_color([v, v, v]), [expected; 3], "v={}", v);
    }
}

#[test]
fn collision_red_matches_float_scaling() {
    for s in 0..=1000i32 {
        let stren = s as f64 / 100.0;
        let expected = (RED[0] as f64 * stren) as u8;
        assert_eq!(collision_red(s), expected, "s={}", s);
    }
}

#[test]
fn collider_meets_and_flashes() {
    let mut strip = Strip::new(1, "h", 4);
    let mut m = Collider::new(&strip);
    assert_eq!((m.counter_b, m.direction_b), (4, -1));
    m.update(&mut strip);
    // a drawn at 0, b off the strip
    assert_eq!(leds(&strip), vec![PURPLE, BLACK, BLACK, BLACK]);
    assert_eq!((m.counter_a, m.counter_b), (1, 3));
    // two packets per frame: the black one, then the drawn one
    assert_eq!(strip.take_outgoing().len(), 2);
    m.update(&mut strip);
    assert_eq!(leds(&strip), vec![BLACK, PURPLE, BLACK, BLUE]);
    assert_eq!((m.counter_a, m.counter_b), (2, 2));
    // they met: both turn back and a collision starts
    assert_eq!((m.direction_a, m.direction_b), (-1, 1));
    assert_eq!(m.collision, vec![2, 2]);
    m.update(&mut strip);
    assert_eq!(leds(&strip), vec![BLACK, BLACK, BLUE, BLACK]);
    assert_eq!(m.collision_stren, 93);
    m.update(&mut strip);
    assert_eq!(leds(&strip)[2], [237, 0, 0]);
}

#[test]
fn sparkle_colors_from_seed() {
    let mut m = Sparkle::new();
    let mut input = OptMap::new();
    input.insert("low".to_string(), OptValue::create_int(10));
    input.insert("high".to_string(), OptValue::create_int(19));
    input.insert("g_on".to_string(), OptValue::create_bool(true));
    m.opts.set_existing(&input);
    let seed: u64 = 0x0003_0201;
    let c = m.color_from_seed(seed);
    assert_eq!(c, [(0x01 % 10) as u8 + 10, (0x0302 % 10) as u8 + 10, (0x03 % 10) as u8 + 10]);
    assert_eq!(m.arr, c);
    assert!(Sparkle::hits(12, 1, 4));
    assert!(!Sparkle::hits(12, 2, 4));
    assert!(Sparkle::hits(u64::MAX, 1, 0));
}

#[test]
fn sparkle_decays_or_sparkles() {
    let mut strip = Strip::new(1, "h", 3);
    strip.fill([200, 100, 50]);
    let mut m = Sparkle::new();
    let mut input = OptMap::new();
    input.insert("high".to_string(), OptValue::create_int(200));
    m.opts.set_existing(&input);
    let table: Vec<u8> = (0..=255u32).map(|v| (v / 2) as u8).collect();
    m.update(&mut strip, &table);
    for c in leds(&strip) {
        let decayed = c == [100, 50, 25];
        let sparkled = c[1] == 0 && c[0] <= 200 && c[2] <= 200;
        assert!(decayed || sparkled, "{:?}", c);
    }
}

#[test]
fn sparkle_default_range_cannot_update() {
    let strip = Strip::new(1, "h", 3);
    let m = Mode::Sparkle(Sparkle::new());
    assert!(!m.can_update(&strip));
    let empty = Strip::new(1, "h", 0);
    assert!(m.can_update(&empty));
}

#[test]
fn breathe_steps_brightness() {
    let mut strip = Strip::new(1, "h", 2);
    let mut m = Breathe::new();
    m.update(&mut strip);
    assert_eq!(strip.brightness(), 0);
    assert_eq!(leds(&strip), vec![PURPLE; 2]);
    assert_eq!((m.counter, m.direction), (1, 1));
    m.counter = 255;
    m.update(&mut strip);
    assert_eq!(strip.brightness(), 255);
    assert_eq!((m.counter, m.direction), (254, -1));
}

#[test]
fn rainbow_cycle_rotates() {
    let mut strip = Strip::new(1, "h", 3);
    let mut m = RainbowCycle::new(vec![[1, 0, 0], [2, 0, 0], [3, 0, 0]]);
    m.update(&mut strip);
    assert_eq!(leds(&strip), vec![[1, 0, 0], [2, 0, 0], [3, 0, 0]]);
    assert_eq!(m.colors, vec![[3, 0, 0], [1, 0, 0], [2, 0, 0]]);
    m.update(&mut strip);
    assert_eq!(leds(&strip), vec![[3, 0, 0], [1, 0, 0], [2, 0, 0]]);
}

#[test]
fn rainbow_cycle_on_empty_palette_cannot_update() {
    let strip = Strip::new(1, "h", 0);
    let m = Mode::RainbowCycle(RainbowCycle::new(vec![]));
    assert!(!m.can_update(&strip));
}

#[test]
fn mode_options_get_and_set() {
    let strip = Strip::new(1, "h", 3);
    let mut m = create_mode("Collider", &strip, vec![]);
    let opts = m.get_opts();
    assert_eq!(opts.len(), 3);
    assert_eq!(
        opts.get("collision_decay").unwrap().value,
        JsonValue::Number(JsonNumber::PosInt(7))
    );
    let mut input = OptMap::new();
    input.insert("collision_decay".to_string(), OptValue::create_int(-3));
    input.insert("unknown".to_string(), OptValue::create_int(1));
    m.set_opts(&input);
    let opts = m.get_opts();
    assert_eq!(opts.len(), 3);
    assert!(!opts.contains_key("unknown"));
    assert_eq!(
        opts.get("collision_decay").unwrap().value,
        JsonValue::Number(JsonNumber::NegInt(-3))
    );
    let mut w = create_mode("White", &strip, vec![]);
    w.set_opts(&input);
    assert_eq!(w.get_opts().len(), 0);
}

#[test]
fn mode_update_dispatches() {
    let mut strip = Strip::new(1, "h", 2);
    let mut m = create_mode("Off", &strip, vec![]);
    assert!(m.can_update(&strip));
    m.update(&mut strip, &identity_table());
    assert_eq!(leds(&strip), vec![BLACK; 2]);
    assert_eq!(strip.take_outgoing().len(), 1);
}

#[test]
fn collider_on_one_led_collides_past_the_end() {
    let mut strip = Strip::new(1, "h", 1);
    let mut m = Mode::Collider(Collider::new(&strip));
    assert!(m.can_update(&strip));
    m.update(&mut strip, &identity_table());
    // the runners met at places 1 and 0; place 1 is past the end
    assert!(!m.can_update(&strip));
}
