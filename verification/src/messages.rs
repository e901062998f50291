//! The messages that drive the application state.
use vstd::prelude::*;
use crate::controls::{Axis, Button};

verus! {

/// Which panel the content area shows for the selected gamepad.
#[derive(Clone, Copy, Debug, PartialEq, Eq, Structural)]
pub enum ViewMode {
    Controller,
    Calibration,
}

/// Everything that can change the application state.  Gamepads are
/// identified by their backend index; values are `f32` bit patterns.
#[derive(Clone, Debug)]
pub enum Message {
    /// A gamepad was connected (id, name)
    GamepadConnected(usize, String),
    /// A gamepad was disconnected
    GamepadDisconnected(usize),
    /// User selected a device from the sidebar (None = deselect)
    SelectDevice(Option<usize>),
    /// A button value changed on a gamepad
    ButtonChanged(usize, Button, u32),
    /// An axis value changed on a gamepad
    AxisChanged(usize, Axis, u32),
    /// Switch between controller view and calibration view
    SetViewMode(ViewMode),
    /// Set dead zone for a specific axis
    SetDeadzone(usize, Axis, u32),
    /// Record current axis position as center / zero point
    RecenterAxis(usize, Axis),
    /// Reset calibration for one axis
    ResetAxisCalibration(usize, Axis),
    /// Reset all calibration data for a gamepad
    ResetAllCalibration(usize),
}

} // verus!
