use gamepad_tester::controls::{Axis, Button};
use gamepad_tester::mappings::{find_mapping, find_mapping_index, Mapping, RawMapping};

fn pairs(v: &[(&str, &str)]) -> Vec<(String, String)> {
    v.iter().map(|(a, b)| (a.to_string(), b.to_string())).collect()
}

fn raw(matcher: &str) -> RawMapping {
    RawMapping {
        matcher: matcher.to_string(),
        axis_codes: Vec::new(),
        axis_names: Vec::new(),
        button_names: Vec::new(),
        invert_axes: Vec::new(),
    }
}

#[test]
fn tables_take_the_valid_entries() {
    let mut r = raw("8BitDo");
    r.axis_codes = pairs(&[("3", "RightStickX"), ("x", "LeftZ"), ("4", "Nope"), ("-2", "DPadY")]);
    r.axis_names = pairs(&[("LeftZ", "RightZ"), ("Bad", "LeftZ"), ("DPadX", "Bad")]);
    r.button_names = pairs(&[("C", "South"), ("Z", "Unknown"), ("Mode", "Start")]);
    r.invert_axes = vec![("LeftStickY".to_string(), true), ("RightStickY".to_string(), false)];
    let m = Mapping::from_raw(&r);
    assert_eq!(m.matcher(), "8BitDo");
    assert_eq!(m.code_target(3), Some(Axis::RightStickX));
    assert_eq!(m.code_target(4), None);
    assert_eq!(m.code_target(-2), Some(Axis::DPadY));
    assert_eq!(m.code_target(0), None);
    assert_eq!(m.name_target(Axis::LeftZ), Some(Axis::RightZ));
    assert_eq!(m.name_target(Axis::DPadX), None);
    assert_eq!(m.button_target("C"), Some(Button::South));
    assert_eq!(m.button_target("Z"), None);
    assert_eq!(m.button_target("Mode"), Some(Button::Start));
    assert_eq!(m.button_target("South"), None);
    assert!(m.inverts("LeftStickY"));
    assert!(!m.inverts("RightStickY"));
    assert!(!m.inverts("LeftStickX"));
}

#[test]
fn later_entries_override_earlier_ones() {
    let mut r = raw("");
    r.axis_codes = pairs(&[("3", "LeftZ"), ("+3", "RightZ")]);
    let m = Mapping::from_raw(&r);
    assert_eq!(m.code_target(3), Some(Axis::RightZ));
}

#[test]
fn find_mapping_takes_the_first_match() {
    let ms = vec![
        Mapping::from_raw(&raw("Sony")),
        Mapping::from_raw(&raw("Xbox")),
        Mapping::from_raw(&raw("Wireless")),
    ];
    assert_eq!(find_mapping_index(&ms, "Xbox Wireless Controller"), Some(1));
    assert_eq!(find_mapping(&ms, "Xbox Wireless Controller").unwrap().matcher(), "Xbox");
    assert_eq!(find_mapping_index(&ms, "Generic Wireless Pad"), Some(2));
    assert_eq!(find_mapping_index(&ms, "Logitech F310"), None);
    assert!(find_mapping(&ms, "xbox").is_none());
}

#[test]
fn empty_matcher_applies_to_every_device() {
    let ms = vec![Mapping::from_raw(&raw(""))];
    assert_eq!(find_mapping_index(&ms, "anything"), Some(0));
    assert_eq!(find_mapping_index(&ms, ""), Some(0));
    let none: Vec<Mapping> = Vec::new();
    assert!(find_mapping(&none, "anything").is_none());
}
