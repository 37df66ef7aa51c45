use homectrl::strip::{Strip, MSG_TYPE_LED_DATA};

#[test]
fn test_strip_creation() {
    let strip = Strip::new(1, "127.0.0.1", 10);
    assert_eq!(strip.dev_id, 1);
    assert_eq!(strip.num_leds, 10);
    assert_eq!(strip.brightness(), 255);
}

#[test]
fn test_brightness_control() {
    let mut strip = Strip::new(1, "127.0.0.1", 10);
    strip.set_brightness(128);
    assert_eq!(strip.brightness(), 128);
}

#[test]
fn test_led_operations() {
    let mut strip = Strip::new(1, "127.0.0.1", 10);

    // Set and get LED
    strip.set_led(0, 255, 128, 64);
    assert_eq!(strip.get_led(0), Some([255, 128, 64]));

    // RGB array interface
    strip.set_led_rgb(1, [100, 200, 50]);
    assert_eq!(strip.get_led(1), Some([100, 200, 50]));

    // Out of bounds returns None
    assert_eq!(strip.get_led(100), None);
}

#[test]
fn test_packet_generation() {
    let mut strip = Strip::new(1, "127.0.0.1", 3);
    strip.set_led_rgb(0, [255, 0, 0]);

    let packet1 = strip.packet();
    let packet2 = strip.packet();

    // Sequence numbers should increment
    assert_eq!(packet1[1], 0);
    assert_eq!(packet2[1], 1);

    // Header should be consistent
    assert_eq!(packet1[0], MSG_TYPE_LED_DATA);
    assert_eq!(packet1[2], 255); // Brightness
    assert_eq!(packet1[3], 3); // LED count
    assert_eq!(packet1[4], 1); // Device ID
}

#[test]
fn new_strip_frame_layout() {
    let strip = Strip::new(7, "esp.lan", 4);
    assert_eq!(strip.buffer, vec![1, 0, 255, 4, 7, 0, 0, 0, 0, 0, 0, 0, 0, 0, 0, 0, 0]);
    assert_eq!(strip.udp_ip, "esp.lan");
    assert_eq!(strip.udp_port, 4210);
    assert!(strip.outgoing.is_empty());
}

#[test]
fn led_count_byte_wraps() {
    let strip = Strip::new(3, "h", 300);
    assert_eq!(strip.buffer[3], 44);
    assert_eq!(strip.buffer.len(), 5 + 900);
}

#[test]
fn sequence_wraps_after_255() {
    let mut strip = Strip::new(1, "h", 1);
    for _ in 0..255 {
        strip.packet();
    }
    assert_eq!(strip.packet()[1], 255);
    assert_eq!(strip.packet()[1], 0);
}

#[test]
fn fill_sets_all_and_queues_packet() {
    let mut strip = Strip::new(2, "h", 3);
    strip.fill([1, 2, 3]);
    for i in 0..3 {
        assert_eq!(strip.get_led(i), Some([1, 2, 3]));
    }
    let out = strip.take_outgoing();
    assert_eq!(out.len(), 1);
    assert_eq!(out[0], vec![1, 0, 255, 3, 2, 1, 2, 3, 1, 2, 3, 1, 2, 3]);
    assert!(strip.take_outgoing().is_empty());
}

#[test]
fn send_queues_in_order() {
    let mut strip = Strip::new(1, "h", 1);
    strip.set_led_rgb(0, [5, 6, 7]);
    strip.send();
    strip.set_brightness(10);
    strip.send();
    let out = strip.take_outgoing();
    assert_eq!(out, vec![vec![1, 0, 255, 1, 1, 5, 6, 7], vec![1, 1, 10, 1, 1, 5, 6, 7]]);
}
