use homectrl::emu::app::{LEDStripEmulator, StripState};
use homectrl::emu::packet::{LEDPacket, SourceAddr};
use homectrl::emu::types::{endpoint, strip_endpoint, StripConfig as ApiStripConfig};
use homectrl::emu::udp_listener::{
    create_default_strips, handle_datagram, PacketCounter, StripConfig, StripMessage,
};

fn addr() -> SourceAddr {
    SourceAddr::V4 { octets: [127, 0, 0, 1], port: 4210 }
}

#[test]
fn test_strip_config_default() {
    let config = StripConfig::default();
    assert_eq!(config.id, 1);
    assert_eq!(config.num_leds, 67);
    assert_eq!(config.port, 4210);
}

#[test]
fn test_create_default_strips() {
    let strips = create_default_strips();
    assert_eq!(strips.len(), 2);
    assert_eq!(strips[0].id, 1);
    assert_eq!(strips[0].num_leds, 67);
    assert_eq!(strips[1].id, 2);
    assert_eq!(strips[1].num_leds, 83);
}

#[test]
fn test_strip_config_serialization() {
    let config = ApiStripConfig {
        id: 1,
        hostname: "localhost".to_string(),
        port: 5000,
        num_leds: 60,
        mode: "RainbowCycle".to_string(),
        brightness: 128,
        delay_bits: 0.025f64.to_bits(),
    };
    assert_eq!(config.id, 1);
    assert_eq!(config.num_leds, 60);
}

#[test]
fn counter_counts_and_resets() {
    let mut c = PacketCounter::new();
    assert_eq!(c.get_packet_count(1), 0);
    c.record(1);
    c.record(1);
    c.record(2);
    assert_eq!(c.get_packet_count(1), 2);
    assert_eq!(c.get_packet_count(2), 1);
    assert_eq!(c.get_all_packet_counts().len(), 2);
    c.reset_packet_count(1);
    assert_eq!(c.get_packet_count(1), 0);
    assert_eq!(c.get_packet_count(2), 1);
    c.reset_all_packet_counts();
    assert_eq!(c.get_packet_count(2), 0);
    assert!(c.get_all_packet_counts().is_empty());
}

#[test]
fn datagram_becomes_message() {
    let mut c = PacketCounter::new();
    match handle_datagram(&mut c, &[1, 9, 255, 1, 2, 4, 5, 6], addr(), "127.0.0.1:4210") {
        StripMessage::PacketReceived(p) => {
            assert_eq!(p.device_id, 2);
            assert_eq!(p.led_data, vec![[4, 5, 6]]);
        }
        StripMessage::ListenerError(e) => panic!("unexpected error {}", e),
    }
    assert_eq!(c.get_packet_count(2), 1);
    match handle_datagram(&mut c, &[1, 9], addr(), "127.0.0.1:4210") {
        StripMessage::ListenerError(e) => {
            assert_eq!(e, "Parse error from 127.0.0.1:4210: Packet too short: 2 bytes")
        }
        StripMessage::PacketReceived(_) => panic!("expected an error"),
    }
    assert_eq!(c.get_packet_count(2), 1);
}

#[test]
fn emulator_strip_takes_packet() {
    let mut st = StripState::new(StripConfig { id: 1, num_leds: 3, port: 4210 });
    assert_eq!(st.led_colors, vec![(0, 0, 0); 3]);
    let p = LEDPacket::from_bytes(&[1, 7, 128, 2, 1, 255, 255, 255, 10, 0, 0], addr()).unwrap();
    st.update_from_packet(&p);
    assert_eq!(st.current_sequence, 7);
    assert_eq!(st.current_brightness, 128);
    assert_eq!(st.packet_count, 1);
    assert!(st.last_update.is_some());
    // dimmed, then padded with black
    assert_eq!(st.led_colors, vec![(128, 128, 128), (5, 0, 0), (0, 0, 0)]);
    // a longer packet is cut to the strip
    let p = LEDPacket::from_bytes(&[1, 8, 255, 4, 1, 1, 1, 1, 2, 2, 2, 3, 3, 3, 4, 4, 4], addr()).unwrap();
    st.update_from_packet(&p);
    assert_eq!(st.led_colors, vec![(1, 1, 1), (2, 2, 2), (3, 3, 3)]);
    assert_eq!(st.packet_count, 2);
}

#[test]
fn emulator_routes_packets_by_device() {
    let mut emu = LEDStripEmulator::new();
    emu.initialize();
    assert_eq!(emu.strips.len(), 2);
    assert_eq!(emu.strips[&1].led_colors.len(), 67);
    assert_eq!(emu.strips[&2].led_colors.len(), 83);
    let p = LEDPacket::from_bytes(&[1, 0, 255, 1, 2, 9, 9, 9], addr()).unwrap();
    assert_eq!(emu.handle_message(StripMessage::PacketReceived(p)), None);
    assert_eq!(emu.strips[&2].led_colors[0], (9, 9, 9));
    assert_eq!(emu.strips[&2].packet_count, 1);
    assert_eq!(emu.strips[&1].packet_count, 0);
    // unknown device: ignored
    let p = LEDPacket::from_bytes(&[1, 0, 255, 1, 9, 9, 9, 9], addr()).unwrap();
    emu.process_packet(&p);
    assert_eq!(emu.strips.len(), 2);
    assert_eq!(
        emu.handle_message(StripMessage::ListenerError("bad".to_string())),
        Some("bad".to_string())
    );
}

#[test]
fn api_addresses() {
    assert_eq!(endpoint("http://localhost:5000", "looper"), "http://localhost:5000/api/looper");
    assert_eq!(
        strip_endpoint("http://localhost:5000", 2, "mode"),
        "http://localhost:5000/api/strips/2/mode"
    );
    assert_eq!(strip_endpoint("http://x", -12, "delay"), "http://x/api/strips/-12/delay");
}
