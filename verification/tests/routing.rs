use gamepad_tester::controls::{Axis, Button};
use gamepad_tester::mappings::{Mapping, RawMapping};
use gamepad_tester::messages::Message;
use gamepad_tester::routing::{
    code_fallback, device_display_name, parse_code_number, EventRouter, InputEvent,
};

fn pairs(v: &[(&str, &str)]) -> Vec<(String, String)> {
    v.iter().map(|(a, b)| (a.to_string(), b.to_string())).collect()
}

fn pad_mapping() -> Mapping {
    Mapping::from_raw(&RawMapping {
        matcher: "Pad".to_string(),
        axis_codes: pairs(&[("5", "RightZ")]),
        axis_names: pairs(&[("LeftZ", "DPadX")]),
        button_names: pairs(&[("C", "South"), ("North", "West")]),
        invert_axes: vec![("RightZ".to_string(), true), ("LeftStickY".to_string(), true)],
    })
}

#[test]
fn code_numbers_are_read_from_printed_codes() {
    assert_eq!(parse_code_number("EvCode(EvCode { kind: 3, code: 10 })"), Some(10));
    assert_eq!(parse_code_number("code: 0"), Some(0));
    assert_eq!(parse_code_number("code: 7 and code: 42x"), Some(42));
    assert_eq!(parse_code_number("code: 7 and code: x"), None);
    assert_eq!(parse_code_number("no marker 12"), None);
    assert_eq!(parse_code_number("code:12"), None);
    assert_eq!(parse_code_number("code: 2147483647"), Some(i32::MAX));
    assert_eq!(parse_code_number("code: 2147483648"), None);
    assert_eq!(parse_code_number("code: -1"), None);
    assert_eq!(parse_code_number(""), None);
}

#[test]
fn fallback_axes_for_bare_codes() {
    assert_eq!(code_fallback(9), Axis::RightStickX);
    assert_eq!(code_fallback(3), Axis::RightStickX);
    assert_eq!(code_fallback(10), Axis::RightStickY);
    assert_eq!(code_fallback(4), Axis::RightStickY);
    assert_eq!(code_fallback(16), Axis::DPadX);
    assert_eq!(code_fallback(17), Axis::DPadY);
    assert_eq!(code_fallback(0), Axis::Unknown);
}

#[test]
fn unnamed_devices_get_a_numbered_name() {
    assert_eq!(device_display_name(None, 7), "Gamepad #7");
    assert_eq!(device_display_name(None, 12), "Gamepad #12");
    assert_eq!(device_display_name(Some("Xbox".to_string()), 7), "Xbox");
}

#[test]
fn devices_without_mapping_pass_through() {
    let mut r = EventRouter::new(vec![pad_mapping()]);
    let m = r.handle_event(InputEvent::Connected(0, Some("Joystick".to_string())));
    assert!(matches!(m, Some(Message::GamepadConnected(0, ref n)) if n == "Joystick"));
    assert!(r.mapping_for(0).is_none());
    assert_eq!(r.route_button(0, Button::C), Button::C);
    let v = 0.5f32.to_bits();
    assert_eq!(r.route_axis(0, Axis::LeftZ, v, "code: 5"), (Axis::LeftZ, v));
    // an unknown axis still falls back on its code number
    assert_eq!(r.route_axis(0, Axis::Unknown, v, "EvCode { kind: 3, code: 16 }"), (Axis::DPadX, v));
    assert_eq!(r.route_axis(0, Axis::Unknown, v, "EvCode { kind: 3, code: 99 }"), (Axis::Unknown, v));
    assert_eq!(r.route_axis(0, Axis::Unknown, v, "garbled"), (Axis::Unknown, v));
}

#[test]
fn mapped_devices_are_remapped() {
    let mut r = EventRouter::new(vec![pad_mapping()]);
    r.handle_event(InputEvent::Connected(2, Some("Cheap Pad".to_string())));
    assert_eq!(r.mapping_for(2).unwrap().matcher(), "Pad");
    assert_eq!(r.route_button(2, Button::C), Button::South);
    assert_eq!(r.route_button(2, Button::North), Button::West);
    assert_eq!(r.route_button(2, Button::East), Button::East);
    let v = 0.5f32.to_bits();
    // by code number, then inverted because RightZ is inverted
    assert_eq!(r.route_axis(2, Axis::LeftStickX, v, "code: 5"), (Axis::RightZ, (-0.5f32).to_bits()));
    // by name when the code does not rename it
    assert_eq!(r.route_axis(2, Axis::LeftZ, v, "code: 1"), (Axis::DPadX, v));
    // inverted axis without renaming
    assert_eq!(r.route_axis(2, Axis::LeftStickY, v, "code: 1"), (Axis::LeftStickY, (-0.5f32).to_bits()));
    match r.handle_event(InputEvent::ButtonChanged(2, Button::C, 1.0f32.to_bits())) {
        Some(Message::ButtonChanged(2, Button::South, x)) => assert_eq!(f32::from_bits(x), 1.0),
        other => panic!("unexpected {:?}", other),
    }
    match r.handle_event(InputEvent::AxisChanged(2, Axis::RightStickX, v, "code: 5".to_string())) {
        Some(Message::AxisChanged(2, Axis::RightZ, x)) => assert_eq!(f32::from_bits(x), -0.5),
        other => panic!("unexpected {:?}", other),
    }
}

#[test]
fn disconnect_forgets_the_mapping() {
    let mut r = EventRouter::new(vec![pad_mapping()]);
    r.handle_event(InputEvent::Connected(2, Some("Pad".to_string())));
    let m = r.handle_event(InputEvent::Disconnected(2));
    assert!(matches!(m, Some(Message::GamepadDisconnected(2))));
    assert!(r.mapping_for(2).is_none());
    assert_eq!(r.route_button(2, Button::C), Button::C);
}

#[test]
fn reconnect_without_match_keeps_earlier_mapping() {
    let mut r = EventRouter::new(vec![pad_mapping()]);
    r.handle_event(InputEvent::Connected(2, Some("Pad".to_string())));
    let m = r.device_connected(2, "Other".to_string());
    assert!(matches!(m, Message::GamepadConnected(2, ref n) if n == "Other"));
    assert!(r.mapping_for(2).is_some());
}

#[test]
fn connected_without_name_uses_numbered_name() {
    let mut r = EventRouter::new(Vec::new());
    let m = r.handle_event(InputEvent::Connected(4, None));
    assert!(matches!(m, Some(Message::GamepadConnected(4, ref n)) if n == "Gamepad #4"));
    assert!(r.handle_event(InputEvent::Other).is_none());
    assert!(r.mappings().is_empty());
}

#[test]
fn disconnected_device_stays_unmapped_until_it_connects() {
    let mut r = EventRouter::new(vec![pad_mapping()]);
    r.handle_event(InputEvent::Connected(2, Some("Pad".to_string())));
    assert_eq!(r.route_button(2, Button::C), Button::South);
    assert!(matches!(r.handle_event(InputEvent::Disconnected(2)), Some(Message::GamepadDisconnected(2))));
    r.handle_event(InputEvent::Connected(3, Some("Another Pad".to_string())));
    r.handle_event(InputEvent::Disconnected(5));
    r.handle_event(InputEvent::Other);
    let v = 0.5f32.to_bits();
    r.handle_event(InputEvent::AxisChanged(2, Axis::LeftZ, v, "code: 5".to_string()));
    match r.handle_event(InputEvent::ButtonChanged(2, Button::C, v)) {
        Some(Message::ButtonChanged(2, Button::C, x)) => assert_eq!(x, v),
        other => panic!("unexpected {:?}", other),
    }
    match r.handle_event(InputEvent::AxisChanged(2, Axis::LeftZ, v, "code: 5".to_string())) {
        Some(Message::AxisChanged(2, Axis::LeftZ, x)) => assert_eq!(x, v),
        other => panic!("unexpected {:?}", other),
    }
    // device 3 kept its own mapping
    assert_eq!(r.route_button(3, Button::C), Button::South);
    r.handle_event(InputEvent::Connected(2, Some("Pad".to_string())));
    assert_eq!(r.route_button(2, Button::C), Button::South);
}
