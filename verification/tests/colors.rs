use rustercam::cli::{
    detect_platform, ColorMode, Platform, Ramp, Resolution, HUD_LINES, RAMP_LONG, RAMP_SHORT,
};
use rustercam::color::{
    dequantize_color, effective_rgb, push_true_color, quantize_color, rgb_to_ansi,
};
use rustercam::luma::luma;
use rustercam::text::{decimal_string, push_decimal, push_repeated};

#[test]
fn numerals_are_decimal() {
    assert_eq!(decimal_string(0), "0");
    assert_eq!(decimal_string(9), "9");
    assert_eq!(decimal_string(10), "10");
    assert_eq!(decimal_string(907), "907");
    assert_eq!(decimal_string(u64::MAX), u64::MAX.to_string());
    let mut out = String::from("n=");
    push_decimal(&mut out, 1280);
    push_repeated(&mut out, '.', 3);
    assert_eq!(out, "n=1280...");
}

#[test]
fn luma_is_that_of_single_precision() {
    for r in (0..=255u32).step_by(5) {
        for g in 0..=255u32 {
            for b in (0..=255u32).step_by(3) {
                let float = 0.299 * r as f32 + 0.587 * g as f32 + 0.114 * b as f32;
                let expected = (float as usize).min(255) as u8;
                assert_eq!(luma(r as u8, g as u8, b as u8), expected);
            }
        }
    }
}

#[test]
fn luma_of_known_colours() {
    assert_eq!(luma(0, 0, 0), 0);
    assert_eq!(luma(255, 255, 255), 255);
    assert_eq!(luma(255, 0, 0), 76);
    assert_eq!(luma(0, 255, 0), 149);
    assert_eq!(luma(0, 0, 255), 29);
    assert_eq!(luma(37, 37, 37), 36);
    assert_eq!(luma(100, 100, 100), 100);
}

#[test]
fn palette_levels_are_those_of_single_precision() {
    for v in 0..=255u8 {
        let level = ((v as f32 * 5.0 / 255.0).round() as u8).min(5);
        assert_eq!(quantize_color(v, 0, 0), 16 + 36 * level);
        assert_eq!(quantize_color(0, v, 0), 16 + 6 * level);
        assert_eq!(quantize_color(0, 0, v), 16 + level);
    }
}

#[test]
fn palette_colours_come_back() {
    for index in 16..232u8 {
        let (r, g, b) = dequantize_color(index);
        assert_eq!(quantize_color(r, g, b), index);
    }
    assert_eq!(dequantize_color(16), (0, 0, 0));
    assert_eq!(dequantize_color(231), (255, 255, 255));
    assert_eq!(dequantize_color(196), (255, 0, 0));
    assert_eq!(dequantize_color(3), (0, 0, 0));
}

#[test]
fn palette_colours_are_near() {
    for v in 0..=255u8 {
        let (r, _, _) = dequantize_color(quantize_color(v, 0, 0));
        assert!((r as i32 - v as i32).abs() <= 25);
    }
}

#[test]
fn codes_of_every_mode() {
    assert_eq!(rgb_to_ansi(1, 20, 255, ColorMode::TrueColor), "\x1b[38;2;1;20;255m");
    assert_eq!(rgb_to_ansi(255, 0, 0, ColorMode::Ansi256), "\x1b[38;5;196m");
    assert_eq!(rgb_to_ansi(255, 255, 255, ColorMode::Ansi16), "\x1b[97m");
    assert_eq!(rgb_to_ansi(0, 0, 0, ColorMode::Ansi16), "\x1b[30m");
    assert_eq!(rgb_to_ansi(200, 10, 10, ColorMode::Ansi16), "\x1b[31m");
    assert_eq!(rgb_to_ansi(0, 0, 0, ColorMode::Gray), "\x1b[38;5;232m");
    assert_eq!(rgb_to_ansi(255, 255, 255, ColorMode::Gray), "\x1b[38;5;255m");
    assert_eq!(rgb_to_ansi(9, 9, 9, ColorMode::Green), "\x1b[38;2;0;255;0m");
    assert_eq!(rgb_to_ansi(0, 0, 0, ColorMode::GreenGray), "\x1b[38;2;0;20;0m");
    assert_eq!(rgb_to_ansi(9, 9, 9, ColorMode::Red), "\x1b[38;2;255;0;0m");
    assert_eq!(rgb_to_ansi(255, 255, 255, ColorMode::RedGray), "\x1b[38;2;255;0;0m");
    assert_eq!(rgb_to_ansi(9, 9, 9, ColorMode::Off), "");
    let mut out = String::new();
    push_true_color(&mut out, (7, 8, 9));
    assert_eq!(out, "\x1b[38;2;7;8;9m");
}

#[test]
fn shown_colours_of_every_mode() {
    assert_eq!(effective_rgb(1, 20, 255, ColorMode::TrueColor), (1, 20, 255));
    assert_eq!(effective_rgb(254, 1, 100, ColorMode::Ansi256), (255, 0, 102));
    assert_eq!(effective_rgb(86, 85, 200, ColorMode::Ansi16), (255, 0, 255));
    assert_eq!(effective_rgb(255, 255, 255, ColorMode::Gray), (255, 255, 255));
    assert_eq!(effective_rgb(9, 9, 9, ColorMode::Green), (0, 255, 0));
    assert_eq!(effective_rgb(0, 0, 0, ColorMode::GreenGray), (0, 20, 0));
    assert_eq!(effective_rgb(9, 9, 9, ColorMode::Red), (255, 0, 0));
    assert_eq!(effective_rgb(100, 100, 100, ColorMode::RedGray), (100, 0, 0));
    assert_eq!(effective_rgb(4, 5, 6, ColorMode::Off), (4, 5, 6));
}

#[test]
fn modes_cycle_through_all() {
    let mut mode = ColorMode::TrueColor;
    let mut labels: Vec<&str> = Vec::new();
    for _ in 0..9 {
        labels.push(mode.label());
        assert_eq!(mode.is_color(), mode != ColorMode::Off);
        mode = mode.cycle();
    }
    assert_eq!(mode, ColorMode::TrueColor);
    assert_eq!(
        labels,
        vec!["24bit", "256c", "16c", "Gray", "Green", "GrnGr", "Red", "RedGr", "Off"]
    );
}

#[test]
fn choices_of_the_command_line() {
    assert_eq!(Resolution::Low.size(), (320, 240));
    assert_eq!(Resolution::Medium.size(), (640, 480));
    assert_eq!(Resolution::High.size(), (1280, 720));
    assert_eq!(Ramp::Long.text(), RAMP_LONG);
    assert_eq!(Ramp::Short.text(), RAMP_SHORT);
    assert_eq!(RAMP_LONG.chars().count(), 69);
    assert_eq!(HUD_LINES, 3);
    assert_eq!(Platform::Termux.name(), "Termux");
}

#[test]
fn platforms_are_told_apart() {
    assert_eq!(detect_platform(true, true, true), Platform::Macos);
    assert_eq!(detect_platform(false, true, false), Platform::Termux);
    assert_eq!(detect_platform(false, false, true), Platform::Termux);
    assert_eq!(detect_platform(false, false, false), Platform::Linux);
}
