//! The colors of the controller drawing, for dark and light themes.
use vstd::prelude::*;

verus! {

/// An opaque color given by its 8-bit red, green and blue channels.
#[derive(Clone, Copy, Debug, PartialEq, Eq, Structural)]
pub struct Rgb {
    pub r: u8,
    pub g: u8,
    pub b: u8,
}

/// All semantic colors used by the controller canvas.
#[derive(Clone, Copy, Debug, PartialEq, Eq, Structural)]
pub struct ControllerPalette {
    /// Main controller body background.
    pub body: Rgb,
    /// Overall background used for app columns / panels.
    pub background: Rgb,
    /// Hand-grip extensions below the body.
    pub grip: Rgb,
    /// Shoulder bumper (LB / RB) at rest.
    pub bumper: Rgb,
    /// Generic idle element (D-pad, center buttons) at rest.
    pub idle: Rgb,
    /// Recessed well/track background (stick wells, trigger bar track).
    pub track: Rgb,
    /// Labels drawn on canvas elements.
    pub label: Rgb,
    /// Analog-stick dot and ring while the stick is at rest.
    pub stick_dot: Rgb,
    /// Highlight applied to every element that is currently pressed / active.
    pub accent: Rgb,
    /// South button - A (Xbox) / Cross (PlayStation).
    pub face_a: Rgb,
    /// East button - B (Xbox) / Circle (PlayStation).
    pub face_b: Rgb,
    /// West button - X (Xbox) / Square (PlayStation).
    pub face_x: Rgb,
    /// North button - Y (Xbox) / Triangle (PlayStation).
    pub face_y: Rgb,
}

/// The palette for dark themes: a darker cool purplish-grey scale.
pub open spec fn dark_palette() -> ControllerPalette {
    ControllerPalette {
        body: Rgb { r: 28, g: 28, b: 36 },
        background: Rgb { r: 28, g: 28, b: 28 },
        grip: Rgb { r: 18, g: 18, b: 28 },
        bumper: Rgb { r: 42, g: 42, b: 55 },
        idle: Rgb { r: 48, g: 48, b: 60 },
        track: Rgb { r: 15, g: 15, b: 25 },
        label: Rgb { r: 200, g: 200, b: 225 },
        stick_dot: Rgb { r: 90, g: 90, b: 118 },
        accent: Rgb { r: 80, g: 160, b: 255 },
        face_a: Rgb { r: 0, g: 165, b: 75 },
        face_b: Rgb { r: 200, g: 30, b: 30 },
        face_x: Rgb { r: 30, g: 100, b: 220 },
        face_y: Rgb { r: 210, g: 170, b: 0 },
    }
}

/// The palette for light themes: a soft lavender-grey scale.
pub open spec fn light_palette() -> ControllerPalette {
    ControllerPalette {
        body: Rgb { r: 200, g: 200, b: 215 },
        background: Rgb { r: 245, g: 245, b: 250 },
        grip: Rgb { r: 183, g: 183, b: 203 },
        bumper: Rgb { r: 173, g: 173, b: 195 },
        idle: Rgb { r: 153, g: 153, b: 175 },
        track: Rgb { r: 155, g: 155, b: 180 },
        label: Rgb { r: 45, g: 45, b: 68 },
        stick_dot: Rgb { r: 100, g: 100, b: 132 },
        accent: Rgb { r: 80, g: 160, b: 255 },
        face_a: Rgb { r: 0, g: 165, b: 75 },
        face_b: Rgb { r: 200, g: 30, b: 30 },
        face_x: Rgb { r: 30, g: 100, b: 220 },
        face_y: Rgb { r: 210, g: 170, b: 0 },
    }
}

/// The accent and the face-button colors are the same in both palettes.
pub proof fn lemma_identity_colors_shared()
    ensures
        dark_palette().accent == light_palette().accent,
        dark_palette().face_a == light_palette().face_a,
        dark_palette().face_b == light_palette().face_b,
        dark_palette().face_x == light_palette().face_x,
        dark_palette().face_y == light_palette().face_y,
{
}

/// The colours of each palette, field by field.
pub proof fn lemma_palette_colors()
    ensures
        dark_palette().body == (Rgb { r: 28, g: 28, b: 36 }),
        dark_palette().background == (Rgb { r: 28, g: 28, b: 28 }),
        dark_palette().grip == (Rgb { r: 18, g: 18, b: 28 }),
        dark_palette().bumper == (Rgb { r: 42, g: 42, b: 55 }),
        dark_palette().idle == (Rgb { r: 48, g: 48, b: 60 }),
        dark_palette().track == (Rgb { r: 15, g: 15, b: 25 }),
        dark_palette().label == (Rgb { r: 200, g: 200, b: 225 }),
        dark_palette().stick_dot == (Rgb { r: 90, g: 90, b: 118 }),
        dark_palette().accent == (Rgb { r: 80, g: 160, b: 255 }),
        dark_palette().face_a == (Rgb { r: 0, g: 165, b: 75 }),
        dark_palette().face_b == (Rgb { r: 200, g: 30, b: 30 }),
        dark_palette().face_x == (Rgb { r: 30, g: 100, b: 220 }),
        dark_palette().face_y == (Rgb { r: 210, g: 170, b: 0 }),
        light_palette().body == (Rgb { r: 200, g: 200, b: 215 }),
        light_palette().background == (Rgb { r: 245, g: 245, b: 250 }),
        light_palette().grip == (Rgb { r: 183, g: 183, b: 203 }),
        light_palette().bumper == (Rgb { r: 173, g: 173, b: 195 }),
        light_palette().idle == (Rgb { r: 153, g: 153, b: 175 }),
        light_palette().track == (Rgb { r: 155, g: 155, b: 180 }),
        light_palette().label == (Rgb { r: 45, g: 45, b: 68 }),
        light_palette().stick_dot == (Rgb { r: 100, g: 100, b: 132 }),
        light_palette().accent == (Rgb { r: 80, g: 160, b: 255 }),
        light_palette().face_a == (Rgb { r: 0, g: 165, b: 75 }),
        light_palette().face_b == (Rgb { r: 200, g: 30, b: 30 }),
        light_palette().face_x == (Rgb { r: 30, g: 100, b: 220 }),
        light_palette().face_y == (Rgb { r: 210, g: 170, b: 0 }),
{
}

/// A dark theme gets the dark palette, with light labels and a dark body;
/// a light theme the light palette, with dark labels and a light body.
/// Only a light desktop preference gives the light theme.
pub proof fn lemma_theme_choice()
    ensures
        ControllerPalette::from_theme(true).label == (Rgb { r: 200, g: 200, b: 225 }),
        ControllerPalette::from_theme(true).body == (Rgb { r: 28, g: 28, b: 36 }),
        ControllerPalette::from_theme(false).label == (Rgb { r: 45, g: 45, b: 68 }),
        ControllerPalette::from_theme(false).body == (Rgb { r: 200, g: 200, b: 215 }),
        system_theme(SystemMode::Light) == ThemeKind::Light,
        system_theme(SystemMode::Dark) == ThemeKind::Dark,
        system_theme(SystemMode::Default) == ThemeKind::Dark,
{
}

/// Labels stand out from the body they are drawn on: on the dark palette
/// every channel of the label is brighter than the body's by at least
/// 100, on the light palette darker by at least 100; likewise the pressed
/// accent's blue channel exceeds the body's.
pub proof fn lemma_labels_contrast()
    ensures
        dark_palette().label.r >= dark_palette().body.r + 100,
        dark_palette().label.g >= dark_palette().body.g + 100,
        dark_palette().label.b >= dark_palette().body.b + 100,
        light_palette().label.r + 100 <= light_palette().body.r,
        light_palette().label.g + 100 <= light_palette().body.g,
        light_palette().label.b + 100 <= light_palette().body.b,
        dark_palette().accent.b > dark_palette().body.b,
        light_palette().accent.b > light_palette().body.b,
{
}

impl ControllerPalette {
    /// The palette for the active theme, dark or light.
    #[verifier::allow_in_spec]
    pub fn from_theme(is_dark: bool) -> (r: Self)
        ensures
            r == (if is_dark {
                dark_palette()
            } else {
                light_palette()
            }),
        returns
            (if is_dark {
                dark_palette()
            } else {
                light_palette()
            }),
    {
        if is_dark {
            Self::dark()
        } else {
            Self::light()
        }
    }

    fn dark() -> (r: Self)
        ensures
            r == dark_palette(),
    {
        ControllerPalette {
            body: Rgb { r: 28, g: 28, b: 36 },
            background: Rgb { r: 28, g: 28, b: 28 },
            grip: Rgb { r: 18, g: 18, b: 28 },
            bumper: Rgb { r: 42, g: 42, b: 55 },
            idle: Rgb { r: 48, g: 48, b: 60 },
            track: Rgb { r: 15, g: 15, b: 25 },
            label: Rgb { r: 200, g: 200, b: 225 },
            stick_dot: Rgb { r: 90, g: 90, b: 118 },
            accent: Rgb { r: 80, g: 160, b: 255 },
            face_a: Rgb { r: 0, g: 165, b: 75 },
            face_b: Rgb { r: 200, g: 30, b: 30 },
            face_x: Rgb { r: 30, g: 100, b: 220 },
            face_y: Rgb { r: 210, g: 170, b: 0 },
        }
    }

    fn light() -> (r: Self)
        ensures
            r == light_palette(),
    {
        ControllerPalette {
            body: Rgb { r: 200, g: 200, b: 215 },
            background: Rgb { r: 245, g: 245, b: 250 },
            grip: Rgb { r: 183, g: 183, b: 203 },
            bumper: Rgb { r: 173, g: 173, b: 195 },
            idle: Rgb { r: 153, g: 153, b: 175 },
            track: Rgb { r: 155, g: 155, b: 180 },
            label: Rgb { r: 45, g: 45, b: 68 },
            stick_dot: Rgb { r: 100, g: 100, b: 132 },
            accent: Rgb { r: 80, g: 160, b: 255 },
            face_a: Rgb { r: 0, g: 165, b: 75 },
            face_b: Rgb { r: 200, g: 30, b: 30 },
            face_x: Rgb { r: 30, g: 100, b: 220 },
            face_y: Rgb { r: 210, g: 170, b: 0 },
        }
    }
}

/// The color preference that the desktop reports.
#[derive(Clone, Copy, Debug, PartialEq, Eq, Structural)]
pub enum SystemMode {
    Dark,
    Light,
    /// No preference.
    Default,
}

/// The application theme.
#[derive(Clone, Copy, Debug, PartialEq, Eq, Structural)]
pub enum ThemeKind {
    Light,
    Dark,
}

/// The theme matching the desktop's preference: light only where light
/// is asked for.
#[verifier::allow_in_spec]
pub fn system_theme(mode: SystemMode) -> (r: ThemeKind)
    ensures
        r == (if mode is Light {
            ThemeKind::Light
        } else {
            ThemeKind::Dark
        }),
    returns
        (if mode is Light {
            ThemeKind::Light
        } else {
            ThemeKind::Dark
        }),
{
    match mode {
        SystemMode::Light => ThemeKind::Light,
        SystemMode::Dark | SystemMode::Default => ThemeKind::Dark,
    }
}

} // verus!
