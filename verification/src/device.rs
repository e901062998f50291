//! The live input state of one gamepad: button and axis values and the
//! per-axis calibration.
use vstd::prelude::*;
use crate::controls::{
    Axis, Button, button_slot, axis_slot, lemma_button_slot, lemma_axis_slot, ZERO_SAMPLE,
    clamped_to_unit, clamp_to_unit,
};

verus! {

/// The bit pattern of the default dead zone, `0.05`.
pub const DEFAULT_DEADZONE: u32 = 0x3D4C_CCCD;

/// Per-axis calibration data (both values are `f32` bit patterns).
#[derive(Clone, Copy, Debug, PartialEq, Eq, Structural)]
pub struct AxisCalibration {
    /// Dead-zone radius: axis values within `[-deadzone, +deadzone]` are
    /// clamped to zero.
    pub deadzone: u32,
    /// Center offset: subtracted from the raw value before applying the
    /// dead zone.
    pub center: u32,
}

/// The calibration an axis has until it is calibrated: dead zone `0.05`,
/// center `0.0`.
pub open spec fn default_calibration() -> AxisCalibration {
    AxisCalibration { deadzone: DEFAULT_DEADZONE, center: ZERO_SAMPLE }
}

impl Default for AxisCalibration {
    fn default() -> (r: Self)
        ensures
            r == default_calibration(),
    {
        AxisCalibration { deadzone: DEFAULT_DEADZONE, center: ZERO_SAMPLE }
    }
}

/// Metadata about a connected gamepad device.
#[derive(Clone, Debug)]
pub struct DeviceInfo {
    pub id: usize,
    pub name: String,
}

/// The abstract input state of a gamepad: the last value reported for
/// each button and axis, and the calibration set for each axis.
pub struct GamepadStateView {
    pub buttons: Map<Button, u32>,
    pub axes: Map<Axis, u32>,
    pub calibrations: Map<Axis, AxisCalibration>,
}

impl GamepadStateView {
    /// Nothing reported, nothing calibrated.
    pub open spec fn empty() -> Self {
        GamepadStateView { buttons: Map::empty(), axes: Map::empty(), calibrations: Map::empty() }
    }

    /// The last value reported for a button, `0.0` if none was.
    pub open spec fn button_value(self, b: Button) -> u32 {
        if self.buttons.contains_key(b) {
            self.buttons[b]
        } else {
            ZERO_SAMPLE
        }
    }

    /// The last raw value reported for an axis, `0.0` if none was.
    pub open spec fn axis_value(self, a: Axis) -> u32 {
        if self.axes.contains_key(a) {
            self.axes[a]
        } else {
            ZERO_SAMPLE
        }
    }

    /// The calibration of an axis, the default one if none was set.
    pub open spec fn calibration(self, a: Axis) -> AxisCalibration {
        if self.calibrations.contains_key(a) {
            self.calibrations[a]
        } else {
            default_calibration()
        }
    }

    /// The state after a button reports `v`.
    pub open spec fn with_button(self, b: Button, v: u32) -> Self {
        GamepadStateView { buttons: self.buttons.insert(b, v), ..self }
    }

    /// The state after an axis reports `v`.
    pub open spec fn with_axis(self, a: Axis, v: u32) -> Self {
        GamepadStateView { axes: self.axes.insert(a, v), ..self }
    }

    /// The state after the dead zone of an axis is set to `dz` clamped to
    /// `0.0..=1.0`; its center stays.
    pub open spec fn with_deadzone(self, a: Axis, dz: u32) -> Self {
        GamepadStateView {
            calibrations: self.calibrations.insert(
                a,
                AxisCalibration { deadzone: clamped_to_unit(dz), center: self.calibration(a).center },
            ),
            ..self
        }
    }

    /// The state after the current position of an axis becomes its
    /// center; its dead zone stays.
    pub open spec fn recentered(self, a: Axis) -> Self {
        GamepadStateView {
            calibrations: self.calibrations.insert(
                a,
                AxisCalibration { deadzone: self.calibration(a).deadzone, center: self.axis_value(a) },
            ),
            ..self
        }
    }

    /// The state after the calibration of one axis is reset.
    pub open spec fn without_calibration(self, a: Axis) -> Self {
        GamepadStateView { calibrations: self.calibrations.remove(a), ..self }
    }

    /// The state after all calibration is reset.
    pub open spec fn without_calibrations(self) -> Self {
        GamepadStateView { calibrations: Map::empty(), ..self }
    }
}

/// What a button reports is what is read back for it; the other buttons
/// keep their values.
pub proof fn lemma_button_read_back(st: GamepadStateView, b: Button, v: u32, other: Button)
    ensures
        st.with_button(b, v).button_value(b) == v,
        other != b ==> st.with_button(b, v).button_value(other) == st.button_value(other),
{
}

/// What an axis reports is what is read back for it; the other axes keep
/// their values and every calibration stays.
pub proof fn lemma_axis_read_back(st: GamepadStateView, a: Axis, v: u32, other: Axis)
    ensures
        st.with_axis(a, v).axis_value(a) == v,
        other != a ==> st.with_axis(a, v).axis_value(other) == st.axis_value(other),
        st.with_axis(a, v).calibrations == st.calibrations,
{
}

/// Recentering an axis makes its current position its center and keeps
/// its dead zone; the other axes' calibration stays.
pub proof fn lemma_recenter(st: GamepadStateView, a: Axis, other: Axis)
    ensures
        st.recentered(a).calibration(a).center == st.axis_value(a),
        st.recentered(a).calibration(a).deadzone == st.calibration(a).deadzone,
        other != a ==> st.recentered(a).calibration(other) == st.calibration(other),
{
}

/// Setting a dead zone keeps the center; resetting an axis brings back
/// the default calibration, and resetting all does so for every axis.
pub proof fn lemma_calibration_reset(st: GamepadStateView, a: Axis, dz: u32, other: Axis)
    ensures
        st.with_deadzone(a, dz).calibration(a) == (AxisCalibration {
            deadzone: clamped_to_unit(dz),
            center: st.calibration(a).center,
        }),
        st.with_deadzone(a, dz).without_calibration(a).calibration(a) == default_calibration(),
        st.without_calibration(a).calibration(a) == default_calibration(),
        other != a ==> st.without_calibration(a).calibration(other) == st.calibration(other),
        st.without_calibrations().calibration(other) == default_calibration(),
{
}

/// A calibration call on one axis: `set_deadzone` with a value, or
/// `recenter_axis`.
pub enum CalibrationStep {
    SetDeadzone(u32),
    Recenter,
}

/// The state after a sequence of calibration calls on axis `a`.
pub open spec fn after_calibration_steps(st: GamepadStateView, a: Axis, steps: Seq<CalibrationStep>) -> GamepadStateView
    decreases steps.len(),
{
    if steps.len() == 0 {
        st
    } else {
        let before = after_calibration_steps(st, a, steps.drop_last());
        match steps.last() {
            CalibrationStep::SetDeadzone(dz) => before.with_deadzone(a, dz),
            CalibrationStep::Recenter => before.recentered(a),
        }
    }
}

/// Resetting an axis undoes any sequence of `set_deadzone` and
/// `recenter_axis` calls on it: the state is as if they had not been made
/// and the axis reset; the buttons, the axis values and the other axes'
/// calibration are those from before.  Where the axis had no calibration
/// of its own, the state is the one from before.
pub proof fn lemma_reset_undoes_calibration(st: GamepadStateView, a: Axis, steps: Seq<CalibrationStep>)
    ensures
        after_calibration_steps(st, a, steps).without_calibration(a) == st.without_calibration(a),
        !st.calibrations.contains_key(a) ==> after_calibration_steps(st, a, steps).without_calibration(a) == st,
        after_calibration_steps(st, a, steps).without_calibration(a).calibration(a) == default_calibration(),
    decreases steps.len(),
{
    let r = after_calibration_steps(st, a, steps);
    if steps.len() > 0 {
        lemma_reset_undoes_calibration(st, a, steps.drop_last());
        let before = after_calibration_steps(st, a, steps.drop_last());
        assert(r.buttons == before.buttons && r.axes == before.axes);
        assert(r.calibrations.remove(a) =~= before.calibrations.remove(a));
    }
    if !st.calibrations.contains_key(a) {
        assert(st.calibrations.remove(a) =~= st.calibrations);
    }
}

/// The live input state of a single gamepad.
#[derive(Clone, Copy, Debug)]
pub struct GamepadState {
    buttons: [Option<u32>; 20],
    axes: [Option<u32>; 9],
    calibrations: [Option<AxisCalibration>; 9],
}

impl View for GamepadState {
    type V = GamepadStateView;

    closed spec fn view(&self) -> GamepadStateView {
        GamepadStateView {
            buttons: Map::new(
                |b: Button| self.buttons@[button_slot(b)] is Some,
                |b: Button| self.buttons@[button_slot(b)]->0,
            ),
            axes: Map::new(
                |a: Axis| self.axes@[axis_slot(a)] is Some,
                |a: Axis| self.axes@[axis_slot(a)]->0,
            ),
            calibrations: Map::new(
                |a: Axis| self.calibrations@[axis_slot(a)] is Some,
                |a: Axis| self.calibrations@[axis_slot(a)]->0,
            ),
        }
    }
}

impl GamepadState {
    /// A state with nothing reported and nothing calibrated.
    pub fn new() -> (r: Self)
        ensures
            r@ == GamepadStateView::empty(),
    {
        let r = GamepadState { buttons: [None; 20], axes: [None; 9], calibrations: [None; 9] };
        proof {
            assert forall|b: Button| !(#[trigger] r@.buttons.contains_key(b)) by {
                lemma_button_slot(b, b);
            }
            assert forall|a: Axis| !(#[trigger] r@.axes.contains_key(a)) by {
                lemma_axis_slot(a, a);
            }
            assert forall|a: Axis| !(#[trigger] r@.calibrations.contains_key(a)) by {
                lemma_axis_slot(a, a);
            }
            assert(r@.buttons =~= Map::empty());
            assert(r@.axes =~= Map::empty());
            assert(r@.calibrations =~= Map::empty());
        }
        r
    }

    /// The last value reported for a button, `0.0` if none was.
    pub fn button_value(&self, button: Button) -> (r: u32)
        ensures
            r == self@.button_value(button),
    {
        proof {
            lemma_button_slot(button, button);
        }
        match self.buttons[button.slot()] {
            Some(v) => v,
            None => ZERO_SAMPLE,
        }
    }

    /// Returns the raw (uncalibrated) axis value, defaulting to `0.0`.
    pub fn axis_value(&self, axis: Axis) -> (r: u32)
        ensures
            r == self@.axis_value(axis),
    {
        proof {
            lemma_axis_slot(axis, axis);
        }
        match self.axes[axis.slot()] {
            Some(v) => v,
            None => ZERO_SAMPLE,
        }
    }

    /// The calibration of an axis, the default one if none was set.
    pub fn calibration(&self, axis: Axis) -> (r: AxisCalibration)
        ensures
            r == self@.calibration(axis),
    {
        proof {
            lemma_axis_slot(axis, axis);
        }
        match self.calibrations[axis.slot()] {
            Some(c) => c,
            None => AxisCalibration::default(),
        }
    }

    /// Records the value a button reports.
    pub fn update_button(&mut self, button: Button, value: u32)
        ensures
            final(self)@ == old(self)@.with_button(button, value),
    {
        proof {
            lemma_button_slot(button, button);
        }
        let ghost before = self@;
        self.buttons.set(button.slot(), Some(value));
        proof {
            assert forall|b: Button| #[trigger] self@.buttons.contains_key(b) == before.with_button(
                button,
                value,
            ).buttons.contains_key(b) by {
                lemma_button_slot(b, button);
            }
            assert forall|b: Button| #[trigger] self@.buttons.contains_key(b) implies self@.buttons[b]
                == before.with_button(button, value).buttons[b] by {
                lemma_button_slot(b, button);
            }
            assert(self@.buttons =~= before.with_button(button, value).buttons);
            assert(self@.axes =~= before.axes);
            assert(self@.calibrations =~= before.calibrations);
        }
    }
    /// Records the value an axis reports.
    pub fn update_axis(&mut self, axis: Axis, value: u32)
        ensures
            final(self)@ == old(self)@.with_axis(axis, value),
    {
        proof {
            lemma_axis_slot(axis, axis);
        }
        let ghost before = self@;
        self.axes.set(axis.slot(), Some(value));
        proof {
            let want = before.with_axis(axis, value);
            assert forall|a: Axis| #[trigger] self@.axes.contains_key(a) == want.axes.contains_key(a)
                by {
                lemma_axis_slot(a, axis);
            }
            assert forall|a: Axis| #[trigger] self@.axes.contains_key(a) implies self@.axes[a]
                == want.axes[a] by {
                lemma_axis_slot(a, axis);
            }
            assert(self@.axes =~= want.axes);
            assert(self@.buttons =~= before.buttons);
            assert(self@.calibrations =~= before.calibrations);
        }
    }

    /// Stores a calibration for one axis.
    fn put_calibration(&mut self, axis: Axis, cal: Option<AxisCalibration>)
        ensures
            final(self)@.buttons == old(self)@.buttons,
            final(self)@.axes == old(self)@.axes,
            final(self)@.calibrations == (match cal {
                Some(c) => old(self)@.calibrations.insert(axis, c),
                None => old(self)@.calibrations.remove(axis),
            }),
    {
        proof {
            lemma_axis_slot(axis, axis);
        }
        let ghost before = self@;
        self.calibrations.set(axis.slot(), cal);
        proof {
            let want = match cal {
                Some(c) => before.calibrations.insert(axis, c),
                None => before.calibrations.remove(axis),
            };
            assert forall|a: Axis| #[trigger] self@.calibrations.contains_key(a) == want.contains_key(a)
                by {
                lemma_axis_slot(a, axis);
            }
            assert forall|a: Axis| #[trigger] self@.calibrations.contains_key(a) implies
                self@.calibrations[a] == want[a] by {
                lemma_axis_slot(a, axis);
            }
            assert(self@.calibrations =~= want);
            assert(self@.buttons =~= before.buttons);
            assert(self@.axes =~= before.axes);
        }
    }

    /// Sets the dead zone of one axis (clamped to `0.0..=1.0`); its center
    /// stays.
    pub fn set_deadzone(&mut self, axis: Axis, deadzone: u32)
        ensures
            final(self)@ == old(self)@.with_deadzone(axis, deadzone),
    {
        let cal = self.calibration(axis);
        let deadzone = clamp_to_unit(deadzone);
        self.put_calibration(axis, Some(AxisCalibration { deadzone, center: cal.center }));
    }

    /// Records the current axis position as the zero/center point.
    pub fn recenter_axis(&mut self, axis: Axis)
        ensures
            final(self)@ == old(self)@.recentered(axis),
    {
        let raw = self.axis_value(axis);
        let cal = self.calibration(axis);
        self.put_calibration(axis, Some(AxisCalibration { deadzone: cal.deadzone, center: raw }));
    }

    /// Resets the calibration of one axis to the default.
    pub fn reset_axis_calibration(&mut self, axis: Axis)
        ensures
            final(self)@ == old(self)@.without_calibration(axis),
    {
        self.put_calibration(axis, None);
    }

    /// Resets the calibration of every axis to the default.
    pub fn reset_all_calibration(&mut self)
        ensures
            final(self)@ == old(self)@.without_calibrations(),
    {
        let ghost before = self@;
        self.calibrations = [None; 9];
        proof {
            assert forall|a: Axis| !(#[trigger] self@.calibrations.contains_key(a)) by {
                lemma_axis_slot(a, a);
            }
            assert(self@.calibrations =~= Map::empty());
            assert(self@.buttons =~= before.buttons);
            assert(self@.axes =~= before.axes);
        }
    }
}

impl Default for GamepadState {
    fn default() -> (r: Self)
        ensures
            r@ == GamepadStateView::empty(),
    {
        GamepadState::new()
    }
}

} // verus!
