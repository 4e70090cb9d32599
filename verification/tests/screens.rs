use rustercam::cli::{ColorMode, Platform};
use rustercam::decoder::TcamDecoder;
use rustercam::encoder::TcamEncoder;
use rustercam::format::TcamError;
use rustercam::frame::RenderFrame;
use rustercam::playback::{playback_text, wait_nanos, PlayStep, Playback};
use rustercam::recording::RecordingConfig;
use rustercam::ui::{
    brightness_filled, draw_overlay, draw_screen, help_text, preset_label, settings_text,
    split_lines, terminal_canvas_size, truncate, FrameCounter, HudState,
};

fn hud() -> HudState {
    HudState {
        recording: false,
        preset: "max".to_string(),
        color_mode_label: "24bit".to_string(),
        contrast: "1.0".to_string(),
        contrast_filled: 3,
        brightness: -5,
        camera_status: "Front (1/2)".to_string(),
        invert: false,
        rotation_degrees: 90,
    }
}

#[test]
fn canvas_leaves_room_for_status_lines() {
    assert_eq!(terminal_canvas_size(None), (80, 21));
    assert_eq!(terminal_canvas_size(Some((100, 40))), (100, 37));
    assert_eq!(terminal_canvas_size(Some((0, 0))), (1, 1));
    assert_eq!(terminal_canvas_size(Some((5, 3))), (5, 1));
    assert_eq!(terminal_canvas_size(Some((5, 4))), (5, 1));
}

#[test]
fn texts_split_into_lines() {
    assert_eq!(split_lines(""), vec![""]);
    assert_eq!(split_lines("a\nbc\n"), vec!["a", "bc", ""]);
    for text in ["", "\n", "x", "a\n\nb"] {
        assert_eq!(split_lines(text).join("\n"), text);
    }
}

#[test]
fn brightness_bar_is_that_of_single_precision() {
    for b in i16::MIN..=i16::MAX {
        let ratio = ((b as f32 - -100.0) / (100.0 - -100.0)).clamp(0.0, 1.0);
        assert_eq!(brightness_filled(b), (ratio * 12.0).floor() as usize);
    }
}

#[test]
fn screen_with_a_picture() {
    let screen =
        draw_screen(Some((6, 6)), "ab\ncd", 2, 2, " 29.9", "nokhwa", &hud());
    let expected = "\x1b[H  ab\x1b[K\n  cd\x1b[K\n      \x1b[K\n\
        \x1b[7m RUSTERCAM | nokhwa |  29.9 fps | 2(W) x 2(H) | 24bit (max) \x1b[0m\x1b[K\n\
        \u{20}↑/↓ Contrast ███░░░░░░░░░ 1.0  │  ←/→ Bright   █████░░░░░░░   -5  │  Cam Front (1/2)\x1b[K\n\
        \u{20}1 invert:off  2 rot:90  3 rec  4 capture  5 preset  c camera  s settings  h help  q quit\x1b[K";
    assert_eq!(screen, expected);
}

#[test]
fn screen_tells_of_recording() {
    let state = HudState { recording: true, invert: true, brightness: 100, ..hud() };
    let screen = draw_screen(Some((2, 9)), "x", 4, 1, "30.0", "ffmpeg", &state);
    assert!(screen.starts_with("\x1b[Hx\x1b[K\n  \x1b[K\n"));
    assert!(screen.contains("(max)  \x1b[31mREC\x1b[0m \x1b[0m"));
    assert!(screen.contains("invert:on"));
    assert!(screen.contains("████████████ +100  │"));
}

#[test]
fn signs_and_widths_of_brightness() {
    for (brightness, shown) in [(0i16, "  +0"), (5, "  +5"), (-100, "-100"), (i16::MIN, "-32768")] {
        let state = HudState { brightness, ..hud() };
        let screen = draw_screen(None, "", 1, 1, "", "", &state);
        assert!(screen.contains(&format!(" {shown}  │  Cam ")));
        assert_eq!(shown, format!("{brightness:+4}"));
    }
}

#[test]
fn pages_cover_the_terminal() {
    let lines = vec!["ab".to_string(), "cdef↑g".to_string()];
    assert_eq!(
        draw_overlay(Some((5, 3)), &lines),
        "\x1b[H\x1b[7mab   \x1b[0m\x1b[K\n\x1b[7mcdef↑\x1b[0m\x1b[K\n\x1b[7m     \x1b[0m\x1b[K\n"
    );
    assert_eq!(draw_overlay(None, &lines).matches('\n').count(), 24);
    assert_eq!(truncate("↑↓x", 2), "↑↓");
    assert_eq!(truncate("ab", 5), "ab");
}

#[test]
fn pages_of_help_and_settings() {
    let help = help_text(Platform::Linux);
    assert_eq!(help.len(), 18);
    assert_eq!(help[1], "  RUSTERCAM - KEYBOARD CONTROLS");
    assert_eq!(help[17], "  Platform: Linux");
    let mut config = RecordingConfig::v1_defaults();
    config.color_mode = ColorMode::Gray;
    config.zlib_max = true;
    let settings = settings_text(&config);
    assert_eq!(settings.len(), 13);
    assert_eq!(settings[3], "  Preset: custom");
    assert_eq!(settings[4], "  Color: Gray");
    assert_eq!(settings[5], "  Skip identical: false");
    assert_eq!(settings[10], "  Zlib max: true");
    assert_eq!(preset_label(&RecordingConfig::v1_defaults()), "raw");
}

#[test]
fn played_pictures() {
    let frame = RenderFrame { chars: vec!["ab".to_string(), "c".to_string()], colors: None };
    assert_eq!(
        playback_text(&frame, 7, 2, 2, 30),
        "\x1b[Hab\x1b[K\nc\x1b[K\n\x1b[7m RUSTERCAM PLAYBACK | frame 7 | 2x2 | 30 fps | q quit \x1b[0m\x1b[K\n"
    );
    let frame = RenderFrame { chars: vec!["ab".to_string()], colors: Some(vec![vec![(1, 2, 3)]]) };
    assert!(playback_text(&frame, 0, 2, 1, 30).starts_with(
        "\x1b[H\x1b[38;2;1;2;3ma\x1b[38;2;255;255;255mb\x1b[0m\x1b[K\n\x1b[7m"
    ));
}

#[test]
fn waits_until_a_picture_is_due() {
    assert_eq!(wait_nanos(5, 0), 5_000_000);
    assert_eq!(wait_nanos(5, 4_999_999), 1);
    assert_eq!(wait_nanos(5, 5_000_000), 0);
    assert_eq!(wait_nanos(5, u128::MAX), 0);
    assert_eq!(wait_nanos(u32::MAX, 0), 4_294_967_295_000_000);
}

#[test]
fn playback_goes_step_by_step() {
    let mut encoder =
        TcamEncoder::create(1, 1, 30, " @", false, RecordingConfig::v1_defaults());
    let frame = RenderFrame { chars: vec!["@".to_string()], colors: None };
    assert_eq!(encoder.write_frame(&frame, 250), Ok(()));
    let mut bytes = encoder.take_written();
    bytes.push(0);
    let decoder = match TcamDecoder::open(bytes) {
        Ok(decoder) => decoder,
        Err(e) => panic!("{e:?}"),
    };
    let mut playback = Playback::new(decoder);
    assert!(matches!(playback.turn(Some('q')), Ok(PlayStep::Quit)));
    assert!(matches!(playback.turn(Some('Q')), Ok(PlayStep::Quit)));
    match playback.turn(Some('x')) {
        Ok(PlayStep::Show(text, time)) => {
            assert_eq!(time, 250);
            assert_eq!(text, playback_text(&frame, 0, 1, 1, 30));
        }
        _ => panic!("nothing shown"),
    }
    assert_eq!(playback.frame_num, 1);
    assert_eq!(playback.turn(None).err(), Some(TcamError::UnexpectedEnd));
    assert!(matches!(playback.turn(None), Ok(PlayStep::Idle)));
    assert_eq!(playback.frame_num, 1);
}

#[test]
fn playback_stops_at_what_cannot_be_shown() {
    let mut bytes = b"TCAM".to_vec();
    bytes.extend([2, 0, 0, 1, 0, 30, 16, 0, 1, b'@']);
    bytes.extend([1, 0, 0, 0, 0]);
    let payload = [1u8, 0, 0, 0, 0, 0, b'x'];
    let mut encoder =
        flate2::write::ZlibEncoder::new(Vec::new(), flate2::Compression::new(9));
    std::io::Write::write_all(&mut encoder, &payload).unwrap();
    let stream = encoder.finish().unwrap();
    bytes.extend((stream.len() as u32).to_le_bytes());
    bytes.extend(stream);
    let decoder = match TcamDecoder::open(bytes) {
        Ok(decoder) => decoder,
        Err(e) => panic!("{e:?}"),
    };
    let mut playback = Playback::new(decoder);
    assert!(matches!(playback.turn(None), Ok(PlayStep::Unshowable)));
}

#[test]
fn frames_are_counted_for_half_a_second() {
    let mut counter = FrameCounter::new();
    assert_eq!(counter.count(0), None);
    assert_eq!(counter.count(499), None);
    assert_eq!(counter.count(500), Some(3));
    assert_eq!(counter.frames, 0);
    assert_eq!(counter.count(900), Some(1));
}
