use homectrl::emu::app::StripState as EmuStrip;
use homectrl::emu::packet::{scale_channel, LEDPacket, SourceAddr};
use homectrl::colors::{GREEN, RED};
use homectrl::emu::udp_listener::{handle_datagram, PacketCounter, StripConfig};
use homectrl::json::JsonValue;
use homectrl::modes::{Breathe, Christmas, Collider, NightRider, Sparkle};
use homectrl::opts::{OptMap, OptValue};
use homectrl::server::{process_opts_for_response, process_opts_from_request};
use homectrl::strip::Strip;
use homectrl::text::{hex_color_string, parse_hex_color};

#[test]
fn emulator_shows_controller_strip() {
    let mut strip = Strip::new(2, "h", 5);
    for i in 0..5 {
        strip.set_led_rgb(i, [10 * i as u8, 255 - i as u8, 3]);
    }
    strip.set_brightness(77);
    let frame = strip.packet();
    let p = LEDPacket::from_bytes(&frame, SourceAddr::V4 { octets: [10, 0, 0, 1], port: 1 }).unwrap();
    let mut emu = EmuStrip::new(StripConfig { id: 2, num_leds: 5, port: 4210 });
    emu.update_from_packet(&p);
    for i in 0..5 {
        let c = strip.get_led(i).unwrap();
        assert_eq!(emu.led_colors[i], (scale_channel(c[0], 77), scale_channel(c[1], 77), scale_channel(c[2], 77)));
    }
}

#[test]
fn hex_text_names_its_color() {
    for v in 0..=255u8 {
        let c = [v, 255 - v, v / 3];
        assert_eq!(parse_hex_color(&hex_color_string(c)), Some(c));
    }
}

#[test]
fn plain_options_round_trip() {
    let mut m = OptMap::new();
    m.insert("i".to_string(), OptValue::create_int(-9));
    m.insert("b".to_string(), OptValue::create_bool(true));
    m.insert("f".to_string(), OptValue::create_float(0.92f64.to_bits()));
    let back = process_opts_from_request(process_opts_for_response(m));
    assert_eq!(back.get("i").unwrap(), &OptValue::create_int(-9));
    assert_eq!(back.get("b").unwrap(), &OptValue::create_bool(true));
    assert_eq!(back.get("f").unwrap(), &OptValue::create_float(0.92f64.to_bits()));
}

#[test]
fn nightrider_head_stays_on_strip() {
    for n in 2..8usize {
        let mut strip = Strip::new(1, "h", n);
        let mut m = NightRider::new();
        for _ in 0..40 {
            m.update(&mut strip);
            assert!(m.counter >= 0 && (m.counter as usize) < n);
            assert!(m.direction == 1 || m.direction == -1);
        }
    }
}

#[test]
fn collider_runners_stay_in_range() {
    for n in 2..8usize {
        let mut strip = Strip::new(1, "h", n);
        let mut m = Collider::new(&strip);
        for _ in 0..60 {
            m.update(&mut strip);
            assert!(m.counter_a >= 0 && m.counter_a as usize <= n);
            assert!(m.counter_b >= 0 && m.counter_b as usize <= n);
            assert!(m.collision_stren >= 0);
        }
    }
}

#[test]
fn sparkle_levels_stay_in_range() {
    let mut m = Sparkle::new();
    let mut input = OptMap::new();
    input.insert("low".to_string(), OptValue::create_int(40));
    input.insert("high".to_string(), OptValue::create_int(90));
    m.opts.set_existing(&input);
    for seed in (0..100_000u64).step_by(37) {
        let c = m.color_from_seed(seed.wrapping_mul(0x9e37_79b9_7f4a_7c15));
        assert!((40..=90).contains(&c[0]));
        assert_eq!(c[1], 0);
        assert!((40..=90).contains(&c[2]));
    }
}

#[test]
fn breathe_stays_between_bounds() {
    let mut strip = Strip::new(1, "h", 1);
    let mut m = Breathe::new();
    let mut input = OptMap::new();
    input.insert("low".to_string(), OptValue::create_int(10));
    input.insert("high".to_string(), OptValue::create_int(20));
    m.opts.set_existing(&input);
    m.counter = 10;
    for _ in 0..100 {
        m.update(&mut strip);
        assert!((10..=20).contains(&m.counter));
    }
    assert_eq!(m.opts.get("low").unwrap().value, JsonValue::Number(homectrl::json::JsonNumber::PosInt(10)));
}

#[test]
fn sparkle_with_readings_decides_per_led() {
    let mut strip = Strip::new(1, "h", 3);
    strip.fill([200, 100, 50]);
    strip.take_outgoing();
    let mut m = Sparkle::new();
    let mut input = OptMap::new();
    input.insert("low".to_string(), OptValue::create_int(10));
    input.insert("high".to_string(), OptValue::create_int(19));
    m.opts.set_existing(&input);
    let table: Vec<u8> = (0..=255u32).map(|v| (v / 2) as u8).collect();
    // one chance in 3 * 3 + 1 = 10: readings 10 (LED 0) and 8 (LED 2) hit
    let hits = vec![10u64, 5, 8];
    let colors = vec![0x0003_0201u64, 7, 0x0009_0807];
    m.update_with_seeds(&mut strip, &hits, &colors, &table);
    assert_eq!(strip.get_led(0), Some([11, 0, 13]));
    assert_eq!(strip.get_led(1), Some([100, 50, 25]));
    assert_eq!(strip.get_led(2), Some([19, 0, 19]));
    assert_eq!(m.arr, [19, 0, 19]);
    assert_eq!(strip.take_outgoing().len(), 1);
}

#[test]
fn packets_carry_their_count_despite_other_calls() {
    let mut strip = Strip::new(4, "h", 2);
    for k in 0..600u32 {
        if k % 3 == 0 {
            strip.set_led_rgb((k % 2) as usize, [k as u8, 1, 2]);
            strip.set_brightness(k as u8);
        }
        let p = strip.packet();
        assert_eq!(p[1], (k % 256) as u8);
        assert_eq!(&p[2..5], &[strip.brightness(), 2, 4]);
        assert_eq!(&p[5..8], &strip.get_led(0).unwrap());
        assert_eq!(&p[8..11], &strip.get_led(1).unwrap());
    }
}

#[test]
fn nightrider_head_moves_one_place_and_turns_at_ends() {
    for n in 2..7usize {
        let mut strip = Strip::new(1, "h", n);
        let mut m = NightRider::new();
        let (mut c, mut d) = (m.counter, m.direction);
        for _ in 0..50 {
            m.update(&mut strip);
            assert_eq!(strip.get_led(c as usize), Some([255, 0, 255]));
            assert!((m.counter - c).abs() <= 1);
            if m.direction != d {
                assert!(c == 0 || c as usize == n - 1);
            }
            c = m.counter;
            d = m.direction;
        }
    }
}

#[test]
fn christmas_alternates_every_frame() {
    for n in 1..8usize {
        let mut strip = Strip::new(1, "h", n);
        let mut m = Christmas::new();
        let mut prev: Option<Vec<[u8; 3]>> = None;
        for _ in 0..6 {
            m.update(&mut strip);
            let now: Vec<[u8; 3]> = (0..n).map(|i| strip.get_led(i).unwrap()).collect();
            for x in 0..n {
                assert!(now[x] == RED || now[x] == GREEN);
                if x + 1 < n {
                    assert_ne!(now[x], now[x + 1]);
                }
            }
            if let Some(p) = prev {
                for x in 0..n {
                    assert_ne!(now[x], p[x]);
                }
            }
            prev = Some(now);
        }
    }
}

#[test]
fn counts_follow_a_run_of_datagrams() {
    let mut c = PacketCounter::new();
    let addr = SourceAddr::V4 { octets: [127, 0, 0, 1], port: 4210 };
    let run: Vec<Vec<u8>> = vec![
        vec![1, 0, 255, 0, 1],
        vec![1, 0],
        vec![1, 0, 255, 1, 2, 1, 2, 3],
        vec![1, 0, 255, 2, 2, 1],
        vec![1, 0, 255, 0, 1],
        vec![1, 0, 255, 0, 2],
    ];
    for d in &run {
        handle_datagram(&mut c, d, addr, "x");
    }
    assert_eq!(c.get_packet_count(1), 2);
    assert_eq!(c.get_packet_count(2), 2);
    assert_eq!(c.get_packet_count(3), 0);
}
