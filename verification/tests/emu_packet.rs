use homectrl::emu::packet::{scale_channel, LEDPacket, PacketError, SourceAddr};
use homectrl::strip::Strip;

fn test_addr() -> SourceAddr {
    SourceAddr::V4 { octets: [127, 0, 0, 1], port: 4210 }
}

#[test]
fn test_parse_minimal_packet() {
    let data = vec![1, 0, 255, 0, 1]; // msg_type=1, seq=0, brightness=255, num_leds=0, device_id=1
    let packet = LEDPacket::from_bytes(&data, test_addr()).unwrap();

    assert_eq!(packet.msg_type, 1);
    assert_eq!(packet.sequence, 0);
    assert_eq!(packet.brightness, 255);
    assert_eq!(packet.num_leds, 0);
    assert_eq!(packet.device_id, 1);
    assert_eq!(packet.led_data.len(), 0);
}

#[test]
fn test_parse_single_led_packet() {
    let data = vec![
        1,   // msg_type
        42,  // sequence
        128, // brightness
        1,   // num_leds
        2,   // device_id
        255, // R
        0,   // G
        128, // B
    ];
    let packet = LEDPacket::from_bytes(&data, test_addr()).unwrap();

    assert_eq!(packet.msg_type, 1);
    assert_eq!(packet.sequence, 42);
    assert_eq!(packet.brightness, 128);
    assert_eq!(packet.num_leds, 1);
    assert_eq!(packet.device_id, 2);
    assert_eq!(packet.led_data.len(), 1);
    assert_eq!(packet.get_led(0), Some([255, 0, 128]));
}

#[test]
fn test_brightness_application() {
    let data = vec![
        1, 0, 128, 1, 1, // header with brightness 128/255
        255, 255, 255, // white LED at full brightness in data
    ];
    let packet = LEDPacket::from_bytes(&data, test_addr()).unwrap();
    let led_data = packet.get_led_data_with_brightness();

    // With brightness 128/255 ~ 0.5, white should become ~ (128, 128, 128)
    assert_eq!(led_data[0], (128, 128, 128));
}

#[test]
fn test_packet_too_short() {
    let data = vec![1, 0, 255]; // Missing required header bytes
    assert!(LEDPacket::from_bytes(&data, test_addr()).is_err());
}

#[test]
fn test_insufficient_led_data() {
    let data = vec![
        1,   // msg_type
        0,   // sequence
        255, // brightness
        2,   // num_leds = 2
        1,   // device_id
        255, 0, 128, // LED 0 data
             // Missing LED 1 data - should fail
    ];
    assert!(LEDPacket::from_bytes(&data, test_addr()).is_err());
}

#[test]
fn error_messages() {
    match LEDPacket::from_bytes(&[1, 0, 255], test_addr()) {
        Err(e) => {
            assert!(matches!(e, PacketError::TooShort { len: 3 }));
            assert_eq!(e.to_string(), "Packet too short: 3 bytes");
        }
        Ok(_) => panic!("expected an error"),
    }
    match LEDPacket::from_bytes(&[1, 0, 255, 2, 1, 255, 0, 128], test_addr()) {
        Err(e) => assert_eq!(e.to_string(), "Packet too short for 2 LEDs: expected 11 bytes, got 8"),
        Ok(_) => panic!("expected an error"),
    }
}

#[test]
fn extra_bytes_are_ignored() {
    let p = LEDPacket::from_bytes(&[1, 3, 9, 1, 4, 10, 20, 30, 99, 98], test_addr()).unwrap();
    assert_eq!(p.led_data, vec![[10, 20, 30]]);
    assert_eq!(p.get_led(1), None);
}

#[test]
fn lit_counts() {
    let p = LEDPacket::from_bytes(&[1, 0, 255, 3, 1, 0, 0, 0, 0, 1, 0, 5, 5, 5], test_addr()).unwrap();
    assert!(p.has_any_lit());
    assert_eq!(p.count_lit(), 2);
    let dark = LEDPacket::from_bytes(&[1, 0, 255, 2, 1, 0, 0, 0, 0, 0, 0], test_addr()).unwrap();
    assert!(!dark.has_any_lit());
    assert_eq!(dark.count_lit(), 0);
}

#[test]
fn brightness_matches_float_rounding_everywhere() {
    for b in 0..=255u8 {
        let factor = b as f32 / 255.0;
        for v in 0..=255u8 {
            let expected = (v as f32 * factor).round() as u8;
            assert_eq!(scale_channel(v, b), expected, "v={} b={}", v, b);
        }
    }
}

#[test]
fn strip_frame_decodes_to_strip_colors() {
    let mut strip = Strip::new(5, "h", 3);
    strip.set_led_rgb(0, [1, 2, 3]);
    strip.set_led_rgb(2, [7, 8, 9]);
    strip.set_brightness(200);
    let frame = strip.packet();
    let p = LEDPacket::from_bytes(&frame, test_addr()).unwrap();
    assert_eq!(p.device_id, 5);
    assert_eq!(p.brightness, 200);
    assert_eq!(p.sequence, 0);
    assert_eq!(p.led_data, vec![[1, 2, 3], [0, 0, 0], [7, 8, 9]]);
}
