use homectrl::looper::{LooperState, DEFAULT_DELAY_BITS, SLOW_DELAY_BITS};
use homectrl::opts::{OptMap, OptValue};

fn palette(n: usize) -> Vec<[u8; 3]> {
    vec![[1, 2, 3]; n]
}

fn state(debug: bool) -> LooperState {
    LooperState::new(debug, palette)
}

#[test]
fn delay_constants_are_the_documented_seconds() {
    assert_eq!(f64::from_bits(DEFAULT_DELAY_BITS), 0.025);
    assert_eq!(f64::from_bits(SLOW_DELAY_BITS), 0.25);
}

#[test]
fn new_looper_has_two_strips() {
    let s = state(false);
    let strips = s.get_strips();
    assert_eq!(strips.len(), 2);
    assert_eq!((strips[0].id, strips[0].hostname.as_str(), strips[0].num_leds), (1, "esp32c6-00.lan", 67));
    assert_eq!((strips[1].id, strips[1].hostname.as_str(), strips[1].num_leds), (2, "esp32c6-01.lan", 83));
    assert_eq!(strips[0].port, 4210);
    assert_eq!(strips[0].mode, "NightRider");
    assert_eq!(strips[0].brightness, 255);
    assert_eq!(strips[0].delay_bits, DEFAULT_DELAY_BITS);
    assert_eq!(s.get_current_mode_name(), "NightRider");
    let ls = s.get_loop_state();
    assert_eq!((ls.state.as_str(), ls.iterations_remaining, ls.debug_mode), ("running", -1, false));
}

#[test]
fn global_settings_read_back() {
    let mut s = state(false);
    s.set_brightness(42);
    assert_eq!(s.get_brightness(), 42);
    assert_eq!(s.get_strip_brightness(2), Some(42));
    s.set_delay(0.5f64.to_bits());
    assert_eq!(f64::from_bits(s.get_delay()), 0.5);
    s.set_mode("Solid");
    assert_eq!(s.get_current_mode_name(), "Solid");
    assert_eq!(s.get_strip_delay(1), Some(SLOW_DELAY_BITS));
    s.set_mode("Bogus");
    assert_eq!(s.get_current_mode_name(), "NightRider");
    assert_eq!(s.get_strip_delay(2), Some(DEFAULT_DELAY_BITS));
    let mut o = OptMap::new();
    o.insert("fade".to_string(), OptValue::create_bool(false));
    s.set_opts(&o);
    assert_eq!(s.get_opts().get("fade").unwrap().value.as_bool(), Some(false));
    assert_eq!(s.get_strip_opts(2).unwrap().get("fade").unwrap().value.as_bool(), Some(false));
}

#[test]
fn per_strip_settings_read_back() {
    let mut s = state(false);
    assert_eq!(s.set_strip_brightness(2, 7), Some(7));
    assert_eq!(s.get_strip_brightness(2), Some(7));
    assert_eq!(s.get_strip_brightness(1), Some(255));
    assert_eq!(s.set_strip_brightness(9, 7), None);
    assert_eq!(s.get_strip_brightness(9), None);
    assert_eq!(s.set_strip_mode(1, "White"), Some("White".to_string()));
    assert_eq!(s.get_strip_mode(1), Some("White".to_string()));
    assert_eq!(s.get_strip_mode(2), Some("NightRider".to_string()));
    assert_eq!(s.get_strip_delay(1), Some(SLOW_DELAY_BITS));
    assert_eq!(s.set_strip_mode(3, "White"), None);
    assert_eq!(s.set_strip_delay(2, 1), Some(1));
    assert_eq!(s.get_strip_delay(2), Some(1));
    let mut o = OptMap::new();
    o.insert("color".to_string(), OptValue::create_color([1, 1, 1]));
    let got = s.set_strip_opts(2, &o).unwrap();
    assert_eq!(got.len(), 4);
    assert!(s.set_strip_opts(5, &o).is_none());
}

#[test]
fn configure_needs_debug_mode() {
    let mut s = state(false);
    assert_eq!(s.configure_strip(1, Some("x".to_string()), None).unwrap_err(), "debug mode not enabled");
    let mut d = state(true);
    assert_eq!(d.configure_strip(7, None, None).unwrap_err(), "strip 7 not found");
    let info = d.configure_strip(2, Some("10.0.0.2".to_string()), Some(9999)).unwrap();
    assert_eq!((info.id, info.hostname.as_str(), info.port), (2, "10.0.0.2", 9999));
    let info = d.configure_strip(2, None, Some(1)).unwrap();
    assert_eq!((info.hostname.as_str(), info.port), ("10.0.0.2", 1));
}

#[test]
fn loop_control_outside_debug_reports_error() {
    let mut s = state(false);
    let r = s.loop_control(Some(3), None);
    assert_eq!(r.error, Some("debug mode not enabled".to_string()));
    assert_eq!((r.state.as_str(), r.iterations_remaining), ("running", -1));
    assert!(!s.count_iteration());
    assert!(!s.should_wait());
}

#[test]
fn loop_runs_n_iterations_then_pauses() {
    let mut s = state(true);
    let r = s.loop_control(Some(3), None);
    assert_eq!(r.error, None);
    assert_eq!((r.state.as_str(), r.iterations_remaining), ("running", 3));
    assert!(!s.count_iteration());
    assert!(!s.count_iteration());
    assert!(!s.should_wait());
    assert!(s.count_iteration());
    assert!(s.should_wait());
    assert!(!s.is_running());
    let ls = s.get_loop_state();
    assert_eq!((ls.state.as_str(), ls.iterations_remaining), ("paused", 0));
    let r = s.loop_control(None, Some("running".to_string()));
    assert_eq!((r.state.as_str(), r.iterations_remaining), ("running", -1));
    let r = s.loop_control(None, Some("pause".to_string()));
    assert_eq!(r.state, "paused");
    let r = s.loop_control(None, Some("other".to_string()));
    assert_eq!(r.state, "paused");
}

#[test]
fn strips_update_and_hand_out_packets() {
    let mut s = state(false);
    let table: Vec<u8> = (0..=255u8).collect();
    assert!(s.can_update_strip(0));
    assert!(!s.can_update_strip(2));
    s.update_strip(0, &table);
    let packets = s.take_packets(0);
    assert_eq!(packets.len(), 1);
    assert_eq!(packets[0].len(), 5 + 3 * 67);
    assert_eq!(&packets[0][..5], &[1, 0, 255, 67, 1]);
    assert_eq!(&packets[0][5..8], &[255, 0, 255]);
    assert!(s.take_packets(0).is_empty());
    assert!(s.take_packets(1).is_empty());
}

#[test]
fn rainbow_mode_uses_the_strip_palette() {
    let mut s = state(false);
    s.set_mode("RainbowCycle");
    let table: Vec<u8> = (0..=255u8).collect();
    s.update_strip(1, &table);
    let packets = s.take_packets(1);
    assert_eq!(&packets[0][5..8], &[1, 2, 3]);
}
