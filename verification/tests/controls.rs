use gamepad_tester::controls::{clamp_to_unit, negate_sample, parse_axis, parse_button, Axis, Button};

const ALL_AXES: [Axis; 9] = [
    Axis::LeftStickX,
    Axis::LeftStickY,
    Axis::LeftZ,
    Axis::RightStickX,
    Axis::RightStickY,
    Axis::RightZ,
    Axis::DPadX,
    Axis::DPadY,
    Axis::Unknown,
];

const ALL_BUTTONS: [Button; 20] = [
    Button::South,
    Button::East,
    Button::North,
    Button::West,
    Button::C,
    Button::Z,
    Button::LeftTrigger,
    Button::LeftTrigger2,
    Button::RightTrigger,
    Button::RightTrigger2,
    Button::Select,
    Button::Start,
    Button::Mode,
    Button::LeftThumb,
    Button::RightThumb,
    Button::DPadUp,
    Button::DPadDown,
    Button::DPadLeft,
    Button::DPadRight,
    Button::Unknown,
];

#[test]
fn axis_names_match_debug_and_read_back() {
    for a in ALL_AXES {
        assert_eq!(a.name(), format!("{:?}", a));
        assert_eq!(parse_axis(a.name()), Some(a));
    }
}

#[test]
fn parse_axis_examples() {
    assert_eq!(parse_axis("LeftStickX"), Some(Axis::LeftStickX));
    assert_eq!(parse_axis("DPadY"), Some(Axis::DPadY));
    assert_eq!(parse_axis("Unknown"), Some(Axis::Unknown));
    assert_eq!(parse_axis("leftstickx"), None);
    assert_eq!(parse_axis("LeftStick"), None);
    assert_eq!(parse_axis(""), None);
    assert_eq!(parse_axis("LeftStickX "), None);
}

#[test]
fn button_names_match_debug() {
    for b in ALL_BUTTONS {
        assert_eq!(b.name(), format!("{:?}", b));
    }
}

#[test]
fn parse_button_reads_mappable_names_only() {
    for b in ALL_BUTTONS {
        let mappable = !matches!(
            b,
            Button::C | Button::Z | Button::LeftTrigger2 | Button::RightTrigger2 | Button::Unknown
        );
        if mappable {
            assert_eq!(parse_button(b.name()), Some(b));
        } else {
            assert_eq!(parse_button(b.name()), None);
        }
    }
    assert_eq!(parse_button("South"), Some(Button::South));
    assert_eq!(parse_button("DPadRight"), Some(Button::DPadRight));
    assert_eq!(parse_button("south"), None);
    assert_eq!(parse_button(""), None);
}

#[test]
fn slots_are_distinct_and_in_range() {
    let mut seen = [false; 20];
    for b in ALL_BUTTONS {
        assert!(b.slot() < 20);
        assert!(!seen[b.slot()]);
        seen[b.slot()] = true;
    }
    let mut seen = [false; 9];
    for a in ALL_AXES {
        assert!(a.slot() < 9);
        assert!(!seen[a.slot()]);
        seen[a.slot()] = true;
    }
}

#[test]
fn negation_flips_the_sign_and_undoes_itself() {
    for x in [0.25f32, -0.75, 1.0, 0.0, -1.0] {
        let n = negate_sample(x.to_bits());
        assert_eq!(f32::from_bits(n), -x);
        assert_eq!(negate_sample(n), x.to_bits());
    }
}

#[test]
fn clamp_to_unit_matches_f32_clamp() {
    let values = [
        0.0f32, -0.0, 0.05, 0.3, 1.0, 1.0000001, 2.5, -0.5, -1.0e-40, 1.0e-40, f32::INFINITY,
        f32::NEG_INFINITY, f32::MAX, f32::MIN, f32::MIN_POSITIVE, 0.99999994,
    ];
    for x in values {
        assert_eq!(clamp_to_unit(x.to_bits()), x.clamp(0.0, 1.0).to_bits(), "value {:?}", x);
    }
    for bits in [0x7FC0_0000u32, 0xFFC0_0000, 0x7F80_0001, 0xFF80_0001] {
        let x = f32::from_bits(bits);
        assert!(x.is_nan());
        assert_eq!(clamp_to_unit(bits), x.clamp(0.0, 1.0).to_bits());
    }
    let mut bits: u32 = 0x1234_5677;
    for _ in 0..10000 {
        bits = bits.wrapping_mul(1_664_525).wrapping_add(1_013_904_223);
        let x = f32::from_bits(bits);
        assert_eq!(clamp_to_unit(bits), x.clamp(0.0, 1.0).to_bits(), "bits {:#x}", bits);
    }
}
