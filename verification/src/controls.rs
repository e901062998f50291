//! The controls a gamepad reports: buttons, axes, and their textual names.
use vstd::prelude::*;
use crate::text::text_eq;

verus! {

/// A gamepad button, as the input backend reports it.
#[derive(Clone, Copy, Debug, PartialEq, Eq, Structural, Hash)]
pub enum Button {
    South,
    East,
    North,
    West,
    C,
    Z,
    LeftTrigger,
    LeftTrigger2,
    RightTrigger,
    RightTrigger2,
    Select,
    Start,
    Mode,
    LeftThumb,
    RightThumb,
    DPadUp,
    DPadDown,
    DPadLeft,
    DPadRight,
    Unknown,
}

/// A gamepad axis, as the input backend reports it.
#[derive(Clone, Copy, Debug, PartialEq, Eq, Structural, Hash)]
pub enum Axis {
    LeftStickX,
    LeftStickY,
    LeftZ,
    RightStickX,
    RightStickY,
    RightZ,
    DPadX,
    DPadY,
    Unknown,
}

/// Number of distinct buttons.
pub const BUTTON_COUNT: usize = 20;

/// Number of distinct axes.
pub const AXIS_COUNT: usize = 9;

/// Position of a button in a per-button table.
pub open spec fn button_slot(b: Button) -> int {
    match b {
        Button::South => 0,
        Button::East => 1,
        Button::North => 2,
        Button::West => 3,
        Button::C => 4,
        Button::Z => 5,
        Button::LeftTrigger => 6,
        Button::LeftTrigger2 => 7,
        Button::RightTrigger => 8,
        Button::RightTrigger2 => 9,
        Button::Select => 10,
        Button::Start => 11,
        Button::Mode => 12,
        Button::LeftThumb => 13,
        Button::RightThumb => 14,
        Button::DPadUp => 15,
        Button::DPadDown => 16,
        Button::DPadLeft => 17,
        Button::DPadRight => 18,
        Button::Unknown => 19,
    }
}

/// Position of an axis in a per-axis table.
pub open spec fn axis_slot(a: Axis) -> int {
    match a {
        Axis::LeftStickX => 0,
        Axis::LeftStickY => 1,
        Axis::LeftZ => 2,
        Axis::RightStickX => 3,
        Axis::RightStickY => 4,
        Axis::RightZ => 5,
        Axis::DPadX => 6,
        Axis::DPadY => 7,
        Axis::Unknown => 8,
    }
}

/// Distinct buttons occupy distinct slots, all below `BUTTON_COUNT`.
pub proof fn lemma_button_slot(a: Button, b: Button)
    ensures
        0 <= button_slot(a) < BUTTON_COUNT,
        button_slot(a) == button_slot(b) <==> a == b,
{
}

/// Distinct axes occupy distinct slots, all below `AXIS_COUNT`.
pub proof fn lemma_axis_slot(a: Axis, b: Axis)
    ensures
        0 <= axis_slot(a) < AXIS_COUNT,
        axis_slot(a) == axis_slot(b) <==> a == b,
{
}

impl Button {
    /// The slot of this button in a per-button table.
    pub fn slot(self) -> (r: usize)
        ensures
            r == button_slot(self),
    {
        match self {
            Button::South => 0,
            Button::East => 1,
            Button::North => 2,
            Button::West => 3,
            Button::C => 4,
            Button::Z => 5,
            Button::LeftTrigger => 6,
            Button::LeftTrigger2 => 7,
            Button::RightTrigger => 8,
            Button::RightTrigger2 => 9,
            Button::Select => 10,
            Button::Start => 11,
            Button::Mode => 12,
            Button::LeftThumb => 13,
            Button::RightThumb => 14,
            Button::DPadUp => 15,
            Button::DPadDown => 16,
            Button::DPadLeft => 17,
            Button::DPadRight => 18,
            Button::Unknown => 19,
        }
    }
}

impl Axis {
    /// The slot of this axis in a per-axis table.
    pub fn slot(self) -> (r: usize)
        ensures
            r == axis_slot(self),
    {
        match self {
            Axis::LeftStickX => 0,
            Axis::LeftStickY => 1,
            Axis::LeftZ => 2,
            Axis::RightStickX => 3,
            Axis::RightStickY => 4,
            Axis::RightZ => 5,
            Axis::DPadX => 6,
            Axis::DPadY => 7,
            Axis::Unknown => 8,
        }
    }
}

/// The name of an axis, as its `Debug` form prints it.
pub open spec fn axis_name(a: Axis) -> Seq<char> {
    match a {
        Axis::LeftStickX => "LeftStickX"@,
        Axis::LeftStickY => "LeftStickY"@,
        Axis::LeftZ => "LeftZ"@,
        Axis::RightStickX => "RightStickX"@,
        Axis::RightStickY => "RightStickY"@,
        Axis::RightZ => "RightZ"@,
        Axis::DPadX => "DPadX"@,
        Axis::DPadY => "DPadY"@,
        Axis::Unknown => "Unknown"@,
    }
}

/// The name of a button, as its `Debug` form prints it.
pub open spec fn button_name(b: Button) -> Seq<char> {
    match b {
        Button::South => "South"@,
        Button::East => "East"@,
        Button::North => "North"@,
        Button::West => "West"@,
        Button::C => "C"@,
        Button::Z => "Z"@,
        Button::LeftTrigger => "LeftTrigger"@,
        Button::LeftTrigger2 => "LeftTrigger2"@,
        Button::RightTrigger => "RightTrigger"@,
        Button::RightTrigger2 => "RightTrigger2"@,
        Button::Select => "Select"@,
        Button::Start => "Start"@,
        Button::Mode => "Mode"@,
        Button::LeftThumb => "LeftThumb"@,
        Button::RightThumb => "RightThumb"@,
        Button::DPadUp => "DPadUp"@,
        Button::DPadDown => "DPadDown"@,
        Button::DPadLeft => "DPadLeft"@,
        Button::DPadRight => "DPadRight"@,
        Button::Unknown => "Unknown"@,
    }
}

/// The axis that a mapping file names: every axis is named as its
/// `Debug` form prints it, `Unknown` included.
pub open spec fn spec_parse_axis(s: Seq<char>) -> Option<Axis> {
    if exists|a: Axis| axis_name(a) == s {
        Some(choose|a: Axis| axis_name(a) == s)
    } else {
        None
    }
}

/// The buttons that a mapping file may name as a target: all but `C`,
/// `Z`, `LeftTrigger2`, `RightTrigger2` and `Unknown`.
pub open spec fn mappable_button(b: Button) -> bool {
    !(b is C || b is Z || b is LeftTrigger2 || b is RightTrigger2 || b is Unknown)
}

/// The button that a mapping file names, among the mappable ones.
pub open spec fn spec_parse_button(s: Seq<char>) -> Option<Button> {
    if exists|b: Button| mappable_button(b) && button_name(b) == s {
        Some(choose|b: Button| mappable_button(b) && button_name(b) == s)
    } else {
        None
    }
}

/// No two axes share a name.
pub proof fn lemma_axis_names_distinct()
    ensures
        forall|a: Axis, b: Axis| axis_name(a) == axis_name(b) ==> a == b,
{
    reveal_strlit("LeftStickX");
    reveal_strlit("LeftStickY");
    reveal_strlit("LeftZ");
    reveal_strlit("RightStickX");
    reveal_strlit("RightStickY");
    reveal_strlit("RightZ");
    reveal_strlit("DPadX");
    reveal_strlit("DPadY");
    reveal_strlit("Unknown");
    assert("LeftStickX"@.len() == 10);
    assert("LeftStickY"@.len() == 10);
    assert("LeftZ"@.len() == 5);
    assert("RightStickX"@.len() == 11);
    assert("RightStickY"@.len() == 11);
    assert("RightZ"@.len() == 6);
    assert("DPadX"@.len() == 5);
    assert("DPadY"@.len() == 5);
    assert("Unknown"@.len() == 7);
    assert("LeftStickX"@[9] != "LeftStickY"@[9]);
    assert("RightStickX"@[10] != "RightStickY"@[10]);
    assert("LeftZ"@[0] != "DPadX"@[0]);
    assert("LeftZ"@[0] != "DPadY"@[0]);
    assert("DPadX"@[4] != "DPadY"@[4]);
}

/// No two buttons share a name.
pub proof fn lemma_button_names_distinct()
    ensures
        forall|a: Button, b: Button| button_name(a) == button_name(b) ==> a == b,
{
    reveal_strlit("South");
    reveal_strlit("East");
    reveal_strlit("North");
    reveal_strlit("West");
    reveal_strlit("C");
    reveal_strlit("Z");
    reveal_strlit("LeftTrigger");
    reveal_strlit("LeftTrigger2");
    reveal_strlit("RightTrigger");
    reveal_strlit("RightTrigger2");
    reveal_strlit("Select");
    reveal_strlit("Start");
    reveal_strlit("Mode");
    reveal_strlit("LeftThumb");
    reveal_strlit("RightThumb");
    reveal_strlit("DPadUp");
    reveal_strlit("DPadDown");
    reveal_strlit("DPadLeft");
    reveal_strlit("DPadRight");
    reveal_strlit("Unknown");
    assert("South"@.len() == 5);
    assert("East"@.len() == 4);
    assert("North"@.len() == 5);
    assert("West"@.len() == 4);
    assert("C"@.len() == 1);
    assert("Z"@.len() == 1);
    assert("LeftTrigger"@.len() == 11);
    assert("LeftTrigger2"@.len() == 12);
    assert("RightTrigger"@.len() == 12);
    assert("RightTrigger2"@.len() == 13);
    assert("Select"@.len() == 6);
    assert("Start"@.len() == 5);
    assert("Mode"@.len() == 4);
    assert("LeftThumb"@.len() == 9);
    assert("RightThumb"@.len() == 10);
    assert("DPadUp"@.len() == 6);
    assert("DPadDown"@.len() == 8);
    assert("DPadLeft"@.len() == 8);
    assert("DPadRight"@.len() == 9);
    assert("Unknown"@.len() == 7);
    assert("C"@[0] != "Z"@[0]);
    assert("East"@[0] != "West"@[0]);
    assert("East"@[0] != "Mode"@[0]);
    assert("West"@[0] != "Mode"@[0]);
    assert("South"@[0] != "North"@[0]);
    assert("Start"@[0] != "North"@[0]);
    assert("South"@[1] != "Start"@[1]);
    assert("Select"@[0] != "DPadUp"@[0]);
    assert("DPadDown"@[4] != "DPadLeft"@[4]);
    assert("LeftThumb"@[0] != "DPadRight"@[0]);
    assert("LeftTrigger2"@[0] != "RightTrigger"@[0]);
}

/// Reading back an axis's name gives the axis.
pub proof fn lemma_parse_axis_name(a: Axis)
    ensures
        spec_parse_axis(axis_name(a)) == Some(a),
{
    lemma_axis_names_distinct();
}

/// Reading back a mappable button's name gives the button; the other
/// buttons' names are not accepted.
pub proof fn lemma_parse_button_name(b: Button)
    ensures
        mappable_button(b) ==> spec_parse_button(button_name(b)) == Some(b),
        !mappable_button(b) ==> spec_parse_button(button_name(b)) is None,
{
    lemma_button_names_distinct();
}

impl Axis {
    /// The axis's name, as its `Debug` form prints it.
    pub fn name(self) -> (r: &'static str)
        ensures
            r@ == axis_name(self),
    {
        match self {
            Axis::LeftStickX => "LeftStickX",
            Axis::LeftStickY => "LeftStickY",
            Axis::LeftZ => "LeftZ",
            Axis::RightStickX => "RightStickX",
            Axis::RightStickY => "RightStickY",
            Axis::RightZ => "RightZ",
            Axis::DPadX => "DPadX",
            Axis::DPadY => "DPadY",
            Axis::Unknown => "Unknown",
        }
    }
}

impl Button {
    /// The button's name, as its `Debug` form prints it.
    pub fn name(self) -> (r: &'static str)
        ensures
            r@ == button_name(self),
    {
        match self {
            Button::South => "South",
            Button::East => "East",
            Button::North => "North",
            Button::West => "West",
            Button::C => "C",
            Button::Z => "Z",
            Button::LeftTrigger => "LeftTrigger",
            Button::LeftTrigger2 => "LeftTrigger2",
            Button::RightTrigger => "RightTrigger",
            Button::RightTrigger2 => "RightTrigger2",
            Button::Select => "Select",
            Button::Start => "Start",
            Button::Mode => "Mode",
            Button::LeftThumb => "LeftThumb",
            Button::RightThumb => "RightThumb",
            Button::DPadUp => "DPadUp",
            Button::DPadDown => "DPadDown",
            Button::DPadLeft => "DPadLeft",
            Button::DPadRight => "DPadRight",
            Button::Unknown => "Unknown",
        }
    }
}

/// A name denotes the axis it names.
proof fn lemma_parse_axis_is(s: Seq<char>, a: Axis)
    requires
        axis_name(a) == s,
    ensures
        spec_parse_axis(s) == Some(a),
{
    lemma_axis_names_distinct();
}

/// A name denotes the mappable button it names.
proof fn lemma_parse_button_is(s: Seq<char>, b: Button)
    requires
        button_name(b) == s,
        mappable_button(b),
    ensures
        spec_parse_button(s) == Some(b),
{
    lemma_button_names_distinct();
}

/// The axis that a mapping file names, or `None` for an unknown name.
pub fn parse_axis(s: &str) -> (r: Option<Axis>)
    ensures
        r == spec_parse_axis(s@),
{
    if text_eq(s, Axis::LeftStickX.name()) {
        proof {
            lemma_parse_axis_is(s@, Axis::LeftStickX);
        }
        Some(Axis::LeftStickX)
    } else if text_eq(s, Axis::LeftStickY.name()) {
        proof {
            lemma_parse_axis_is(s@, Axis::LeftStickY);
        }
        Some(Axis::LeftStickY)
    } else if text_eq(s, Axis::RightStickX.name()) {
        proof {
            lemma_parse_axis_is(s@, Axis::RightStickX);
        }
        Some(Axis::RightStickX)
    } else if text_eq(s, Axis::RightStickY.name()) {
        proof {
            lemma_parse_axis_is(s@, Axis::RightStickY);
        }
        Some(Axis::RightStickY)
    } else if text_eq(s, Axis::LeftZ.name()) {
        proof {
            lemma_parse_axis_is(s@, Axis::LeftZ);
        }
        Some(Axis::LeftZ)
    } else if text_eq(s, Axis::RightZ.name()) {
        proof {
            lemma_parse_axis_is(s@, Axis::RightZ);
        }
        Some(Axis::RightZ)
    } else if text_eq(s, Axis::DPadX.name()) {
        proof {
            lemma_parse_axis_is(s@, Axis::DPadX);
        }
        Some(Axis::DPadX)
    } else if text_eq(s, Axis::DPadY.name()) {
        proof {
            lemma_parse_axis_is(s@, Axis::DPadY);
        }
        Some(Axis::DPadY)
    } else if text_eq(s, Axis::Unknown.name()) {
        proof {
            lemma_parse_axis_is(s@, Axis::Unknown);
        }
        Some(Axis::Unknown)
    } else {
        None
    }
}

/// The button that a mapping file names, or `None` for a name that is
/// unknown or not mappable.
pub fn parse_button(s: &str) -> (r: Option<Button>)
    ensures
        r == spec_parse_button(s@),
{
    if text_eq(s, Button::South.name()) {
        proof {
            lemma_parse_button_is(s@, Button::South);
        }
        Some(Button::South)
    } else if text_eq(s, Button::East.name()) {
        proof {
            lemma_parse_button_is(s@, Button::East);
        }
        Some(Button::East)
    } else if text_eq(s, Button::West.name()) {
        proof {
            lemma_parse_button_is(s@, Button::West);
        }
        Some(Button::West)
    } else if text_eq(s, Button::North.name()) {
        proof {
            lemma_parse_button_is(s@, Button::North);
        }
        Some(Button::North)
    } else if text_eq(s, Button::LeftTrigger.name()) {
        proof {
            lemma_parse_button_is(s@, Button::LeftTrigger);
        }
        Some(Button::LeftTrigger)
    } else if text_eq(s, Button::RightTrigger.name()) {
        proof {
            lemma_parse_button_is(s@, Button::RightTrigger);
        }
        Some(Button::RightTrigger)
    } else if text_eq(s, Button::LeftThumb.name()) {
        proof {
            lemma_parse_button_is(s@, Button::LeftThumb);
        }
        Some(Button::LeftThumb)
    } else if text_eq(s, Button::RightThumb.name()) {
        proof {
            lemma_parse_button_is(s@, Button::RightThumb);
        }
        Some(Button::RightThumb)
    } else if text_eq(s, Button::Select.name()) {
        proof {
            lemma_parse_button_is(s@, Button::Select);
        }
        Some(Button::Select)
    } else if text_eq(s, Button::Start.name()) {
        proof {
            lemma_parse_button_is(s@, Button::Start);
        }
        Some(Button::Start)
    } else if text_eq(s, Button::Mode.name()) {
        proof {
            lemma_parse_button_is(s@, Button::Mode);
        }
        Some(Button::Mode)
    } else if text_eq(s, Button::DPadUp.name()) {
        proof {
            lemma_parse_button_is(s@, Button::DPadUp);
        }
        Some(Button::DPadUp)
    } else if text_eq(s, Button::DPadDown.name()) {
        proof {
            lemma_parse_button_is(s@, Button::DPadDown);
        }
        Some(Button::DPadDown)
    } else if text_eq(s, Button::DPadLeft.name()) {
        proof {
            lemma_parse_button_is(s@, Button::DPadLeft);
        }
        Some(Button::DPadLeft)
    } else if text_eq(s, Button::DPadRight.name()) {
        proof {
            lemma_parse_button_is(s@, Button::DPadRight);
        }
        Some(Button::DPadRight)
    } else {
        None
    }
}

/// Input values (button pressure, axis position, calibration settings)
/// are `f32` samples, held here as their IEEE-754 bit patterns
/// (`f32::to_bits`).  The bit pattern of `0.0`:
pub const ZERO_SAMPLE: u32 = 0;

/// The sign bit of a sample's bit pattern.
pub const SIGN_BIT: u32 = 0x8000_0000;

/// The bit pattern of a sample's negation: the same pattern with the
/// sign bit flipped (IEEE-754 negation).
pub open spec fn negated(v: u32) -> u32 {
    v ^ SIGN_BIT
}

/// Negates a sample given by its bit pattern.
pub fn negate_sample(v: u32) -> (r: u32)
    ensures
        r == negated(v),
{
    v ^ SIGN_BIT
}

/// Negating twice gives the sample back.
pub proof fn lemma_negate_twice(v: u32)
    ensures
        negated(negated(v)) == v,
{
    assert((v ^ 0x8000_0000u32) ^ 0x8000_0000u32 == v) by (bit_vector);
}

/// The bit pattern of `1.0`.
pub const ONE_SAMPLE: u32 = 0x3F80_0000;

/// The bit pattern of negative zero.
pub const NEGATIVE_ZERO_SAMPLE: u32 = 0x8000_0000;

/// The sample is a NaN: all exponent bits set and a non-zero fraction,
/// with either sign.
pub open spec fn is_nan_sample(v: u32) -> bool {
    if v >= SIGN_BIT {
        v - SIGN_BIT > 0x7F80_0000
    } else {
        v > 0x7F80_0000
    }
}

/// What `f32::clamp(x, 0.0, 1.0)` gives, on bit patterns: a NaN stays as
/// it is; a value below `0.0` (a negative one other than `-0.0`) becomes
/// `0.0`; a value above `1.0` becomes `1.0`; the rest (`-0.0` included)
/// stays.  Positive samples are ordered as their bit patterns are.
pub open spec fn clamped_to_unit(v: u32) -> u32 {
    if is_nan_sample(v) {
        v
    } else if v >= SIGN_BIT {
        if v == NEGATIVE_ZERO_SAMPLE {
            v
        } else {
            ZERO_SAMPLE
        }
    } else if v > ONE_SAMPLE {
        ONE_SAMPLE
    } else {
        v
    }
}

/// Clamps a sample to `0.0..=1.0` as `f32::clamp(x, 0.0, 1.0)` does.
pub fn clamp_to_unit(v: u32) -> (r: u32)
    ensures
        r == clamped_to_unit(v),
{
    let magnitude = if v >= SIGN_BIT {
        v - SIGN_BIT
    } else {
        v
    };
    if magnitude > 0x7F80_0000 {
        v
    } else if v >= SIGN_BIT {
        if v == NEGATIVE_ZERO_SAMPLE {
            v
        } else {
            ZERO_SAMPLE
        }
    } else if v > ONE_SAMPLE {
        ONE_SAMPLE
    } else {
        v
    }
}

/// Clamping keeps a number within `0.0..=1.0` (`-0.0` included), leaves one
/// already there as it is, takes one above `1.0` to `1.0` and a negative
/// one to `0.0`; a NaN passes through; clamping twice is clamping once.
pub proof fn lemma_clamp_to_unit(v: u32)
    ensures
        clamped_to_unit(clamped_to_unit(v)) == clamped_to_unit(v),
        is_nan_sample(v) ==> clamped_to_unit(v) == v,
        !is_nan_sample(v) ==> clamped_to_unit(v) <= ONE_SAMPLE || clamped_to_unit(v)
            == NEGATIVE_ZERO_SAMPLE,
        !is_nan_sample(v) && (v <= ONE_SAMPLE || v == NEGATIVE_ZERO_SAMPLE) ==> clamped_to_unit(v) == v,
        !is_nan_sample(v) && ONE_SAMPLE < v < SIGN_BIT ==> clamped_to_unit(v) == ONE_SAMPLE,
        !is_nan_sample(v) && v > NEGATIVE_ZERO_SAMPLE ==> clamped_to_unit(v) == ZERO_SAMPLE,
{
}

} // verus!
