use gamepad_tester::palette::{system_theme, ControllerPalette, Rgb, SystemMode, ThemeKind};

#[test]
fn palettes_by_theme() {
    let dark = ControllerPalette::from_theme(true);
    let light = ControllerPalette::from_theme(false);
    assert_eq!(dark.body, Rgb { r: 28, g: 28, b: 36 });
    assert_eq!(light.body, Rgb { r: 200, g: 200, b: 215 });
    assert_eq!(dark.background, Rgb { r: 28, g: 28, b: 28 });
    assert_eq!(light.background, Rgb { r: 245, g: 245, b: 250 });
    assert_eq!(light.label, Rgb { r: 45, g: 45, b: 68 });
}

#[test]
fn identity_colors_are_shared() {
    let dark = ControllerPalette::from_theme(true);
    let light = ControllerPalette::from_theme(false);
    assert_eq!(dark.accent, light.accent);
    assert_eq!(dark.accent, Rgb { r: 80, g: 160, b: 255 });
    assert_eq!(dark.face_a, light.face_a);
    assert_eq!(dark.face_b, light.face_b);
    assert_eq!(dark.face_x, light.face_x);
    assert_eq!(dark.face_y, light.face_y);
}

#[test]
fn system_theme_is_light_only_when_asked() {
    assert_eq!(system_theme(SystemMode::Light), ThemeKind::Light);
    assert_eq!(system_theme(SystemMode::Dark), ThemeKind::Dark);
    assert_eq!(system_theme(SystemMode::Default), ThemeKind::Dark);
}
