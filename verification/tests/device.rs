use gamepad_tester::controls::{Axis, Button};
use gamepad_tester::device::{AxisCalibration, GamepadState, DEFAULT_DEADZONE};

#[test]
fn default_calibration_is_five_hundredths_and_zero() {
    let c = AxisCalibration::default();
    assert_eq!(f32::from_bits(c.deadzone), 0.05);
    assert_eq!(f32::from_bits(c.center), 0.0);
    assert_eq!(DEFAULT_DEADZONE, 0.05f32.to_bits());
}

#[test]
fn new_state_reads_zero_everywhere() {
    let st = GamepadState::new();
    assert_eq!(f32::from_bits(st.button_value(Button::South)), 0.0);
    assert_eq!(f32::from_bits(st.axis_value(Axis::LeftStickX)), 0.0);
    assert_eq!(st.calibration(Axis::LeftZ), AxisCalibration::default());
    let d = GamepadState::default();
    assert_eq!(d.button_value(Button::Unknown), 0);
}

#[test]
fn values_read_back_and_others_stay() {
    let mut st = GamepadState::new();
    st.update_button(Button::East, 0.75f32.to_bits());
    st.update_axis(Axis::RightStickY, (-0.5f32).to_bits());
    assert_eq!(f32::from_bits(st.button_value(Button::East)), 0.75);
    assert_eq!(st.button_value(Button::West), 0);
    assert_eq!(f32::from_bits(st.axis_value(Axis::RightStickY)), -0.5);
    assert_eq!(st.axis_value(Axis::RightStickX), 0);
    st.update_button(Button::East, 0.0f32.to_bits());
    assert_eq!(f32::from_bits(st.button_value(Button::East)), 0.0);
}

#[test]
fn recenter_takes_the_current_position() {
    let mut st = GamepadState::new();
    st.update_axis(Axis::LeftStickX, 0.125f32.to_bits());
    st.set_deadzone(Axis::LeftStickX, 0.2f32.to_bits());
    st.recenter_axis(Axis::LeftStickX);
    let c = st.calibration(Axis::LeftStickX);
    assert_eq!(f32::from_bits(c.center), 0.125);
    assert_eq!(f32::from_bits(c.deadzone), 0.2);
    // recentering an axis never reported uses 0.0
    st.recenter_axis(Axis::DPadX);
    assert_eq!(st.calibration(Axis::DPadX), AxisCalibration::default());
}

#[test]
fn set_deadzone_keeps_center() {
    let mut st = GamepadState::new();
    st.update_axis(Axis::RightZ, 0.5f32.to_bits());
    st.recenter_axis(Axis::RightZ);
    st.set_deadzone(Axis::RightZ, 0.3f32.to_bits());
    let c = st.calibration(Axis::RightZ);
    assert_eq!(f32::from_bits(c.deadzone), 0.3);
    assert_eq!(f32::from_bits(c.center), 0.5);
}

#[test]
fn resets_bring_back_the_default() {
    let mut st = GamepadState::new();
    st.set_deadzone(Axis::LeftStickX, 0.2f32.to_bits());
    st.set_deadzone(Axis::LeftStickY, 0.1f32.to_bits());
    st.reset_axis_calibration(Axis::LeftStickX);
    assert_eq!(st.calibration(Axis::LeftStickX), AxisCalibration::default());
    assert_eq!(f32::from_bits(st.calibration(Axis::LeftStickY).deadzone), 0.1);
    st.reset_all_calibration();
    assert_eq!(st.calibration(Axis::LeftStickY), AxisCalibration::default());
}

#[test]
fn set_deadzone_clamps_to_unit_range() {
    let mut st = GamepadState::new();
    st.set_deadzone(Axis::LeftStickX, 1.5f32.to_bits());
    assert_eq!(f32::from_bits(st.calibration(Axis::LeftStickX).deadzone), 1.0);
    st.set_deadzone(Axis::LeftStickX, (-0.25f32).to_bits());
    assert_eq!(f32::from_bits(st.calibration(Axis::LeftStickX).deadzone), 0.0);
    st.set_deadzone(Axis::LeftStickX, 0.125f32.to_bits());
    assert_eq!(f32::from_bits(st.calibration(Axis::LeftStickX).deadzone), 0.125);
}

#[test]
fn reset_undoes_a_sequence_of_calibrations() {
    let mut st = GamepadState::new();
    st.update_axis(Axis::RightStickX, 0.5f32.to_bits());
    st.update_axis(Axis::LeftStickY, 0.25f32.to_bits());
    st.set_deadzone(Axis::LeftStickY, 0.2f32.to_bits());
    let before = st;
    st.set_deadzone(Axis::RightStickX, 0.1f32.to_bits());
    st.recenter_axis(Axis::RightStickX);
    st.set_deadzone(Axis::RightStickX, 0.3f32.to_bits());
    st.recenter_axis(Axis::RightStickX);
    st.reset_axis_calibration(Axis::RightStickX);
    assert_eq!(st.calibration(Axis::RightStickX), AxisCalibration::default());
    assert_eq!(st.calibration(Axis::RightStickX), before.calibration(Axis::RightStickX));
    assert_eq!(st.calibration(Axis::LeftStickY), before.calibration(Axis::LeftStickY));
    assert_eq!(st.axis_value(Axis::RightStickX), before.axis_value(Axis::RightStickX));
}
