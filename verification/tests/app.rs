use gamepad_tester::app::{GamepadApp, Panel};
use gamepad_tester::controls::{Axis, Button};
use gamepad_tester::device::AxisCalibration;
use gamepad_tester::messages::{Message, ViewMode};

fn ids(app: &GamepadApp) -> Vec<usize> {
    app.devices().iter().map(|d| d.id).collect()
}

fn connect(app: &mut GamepadApp, id: usize, name: &str) {
    app.update(Message::GamepadConnected(id, name.to_string()));
}

#[test]
fn starts_empty() {
    let app = GamepadApp::new();
    assert!(app.devices().is_empty());
    assert_eq!(app.selected(), None);
    assert_eq!(app.view_mode(), ViewMode::Controller);
    assert_eq!(app.panel(), Panel::NoDevice);
    assert_eq!(app.title(), "Gamepad");
}

#[test]
fn first_connected_gamepad_is_selected() {
    let mut app = GamepadApp::new();
    connect(&mut app, 3, "Pad A");
    connect(&mut app, 5, "Pad B");
    assert_eq!(ids(&app), vec![3, 5]);
    assert_eq!(app.selected(), Some(3));
    assert_eq!(app.devices()[1].name, "Pad B");
    assert!(app.state(5).is_some());
    assert_eq!(app.panel(), Panel::Controller(3));
}

#[test]
fn duplicate_connect_is_ignored() {
    let mut app = GamepadApp::new();
    connect(&mut app, 1, "Pad");
    app.update(Message::ButtonChanged(1, Button::South, 1.0f32.to_bits()));
    connect(&mut app, 1, "Pad again");
    assert_eq!(ids(&app), vec![1]);
    assert_eq!(app.devices()[0].name, "Pad");
    assert_eq!(app.state(1).unwrap().button_value(Button::South), 1.0f32.to_bits());
}

#[test]
fn disconnecting_the_selected_gamepad_selects_the_first_remaining() {
    let mut app = GamepadApp::new();
    connect(&mut app, 1, "A");
    connect(&mut app, 2, "B");
    connect(&mut app, 3, "C");
    app.update(Message::SelectDevice(Some(2)));
    app.update(Message::GamepadDisconnected(2));
    assert_eq!(ids(&app), vec![1, 3]);
    assert_eq!(app.selected(), Some(1));
    assert!(app.state(2).is_none());
    app.update(Message::GamepadDisconnected(1));
    assert_eq!(app.selected(), Some(3));
    app.update(Message::GamepadDisconnected(3));
    assert_eq!(app.selected(), None);
    assert!(app.devices().is_empty());
}

#[test]
fn disconnecting_another_gamepad_keeps_the_selection() {
    let mut app = GamepadApp::new();
    connect(&mut app, 1, "A");
    connect(&mut app, 2, "B");
    app.update(Message::GamepadDisconnected(2));
    assert_eq!(app.selected(), Some(1));
    app.update(Message::GamepadDisconnected(9));
    assert_eq!(ids(&app), vec![1]);
}

#[test]
fn connect_then_disconnect_restores_the_list() {
    let mut app = GamepadApp::new();
    connect(&mut app, 1, "A");
    app.update(Message::GamepadDisconnected(1));
    assert!(app.devices().is_empty());
    assert_eq!(app.selected(), None);
    connect(&mut app, 4, "A");
    connect(&mut app, 7, "B");
    app.update(Message::GamepadDisconnected(7));
    assert_eq!(ids(&app), vec![4]);
    assert_eq!(app.selected(), Some(4));
}

#[test]
fn input_messages_reach_the_gamepad_state() {
    let mut app = GamepadApp::new();
    connect(&mut app, 1, "A");
    app.update(Message::AxisChanged(1, Axis::LeftZ, 0.5f32.to_bits()));
    app.update(Message::RecenterAxis(1, Axis::LeftZ));
    app.update(Message::SetDeadzone(1, Axis::LeftZ, 0.25f32.to_bits()));
    let c = app.state(1).unwrap().calibration(Axis::LeftZ);
    assert_eq!(f32::from_bits(c.center), 0.5);
    assert_eq!(f32::from_bits(c.deadzone), 0.25);
    app.update(Message::ResetAxisCalibration(1, Axis::LeftZ));
    assert_eq!(app.state(1).unwrap().calibration(Axis::LeftZ), AxisCalibration::default());
    app.update(Message::SetDeadzone(1, Axis::DPadX, 0.1f32.to_bits()));
    app.update(Message::ResetAllCalibration(1));
    assert_eq!(app.state(1).unwrap().calibration(Axis::DPadX), AxisCalibration::default());
}

#[test]
fn messages_for_unknown_gamepads_are_ignored() {
    let mut app = GamepadApp::new();
    connect(&mut app, 1, "A");
    app.update(Message::ButtonChanged(2, Button::South, 1.0f32.to_bits()));
    app.update(Message::AxisChanged(2, Axis::LeftZ, 1.0f32.to_bits()));
    app.update(Message::ResetAllCalibration(2));
    assert!(app.state(2).is_none());
    assert_eq!(app.state(1).unwrap().button_value(Button::South), 0);
}

#[test]
fn panel_follows_selection_and_view_mode() {
    let mut app = GamepadApp::new();
    connect(&mut app, 1, "A");
    app.update(Message::SetViewMode(ViewMode::Calibration));
    assert_eq!(app.panel(), Panel::Calibration(1));
    app.update(Message::SelectDevice(Some(8)));
    assert_eq!(app.panel(), Panel::NoState(8));
    app.update(Message::SelectDevice(None));
    assert_eq!(app.panel(), Panel::NoDevice);
    // a connection while nothing is selected selects the new gamepad
    connect(&mut app, 2, "B");
    assert_eq!(app.selected(), Some(2));
}

#[test]
fn set_deadzone_message_is_clamped() {
    let mut app = GamepadApp::new();
    connect(&mut app, 1, "A");
    app.update(Message::SetDeadzone(1, Axis::LeftZ, 3.0f32.to_bits()));
    assert_eq!(f32::from_bits(app.state(1).unwrap().calibration(Axis::LeftZ).deadzone), 1.0);
}
