use rustercam::app::{Action, App, Key};
use rustercam::cli::{Args, Platform, Ramp, Resolution, RAMP_LONG, RAMP_SHORT};
use rustercam::decoder::TcamDecoder;
use rustercam::frame::Frame;

fn args() -> Args {
    Args {
        no_color: true,
        resolution: Resolution::Medium,
        brightness: 0,
        ramp: Ramp::Short,
        invert: false,
        flip: false,
        camera: None,
        rotate: None,
        platform: Platform::Auto,
        record: false,
    }
}

fn cameras() -> Vec<(Option<u32>, String)> {
    vec![(Some(2), "Back".to_string()), (Some(0), "Front".to_string())]
}

fn started() -> App {
    App::new(&args(), Platform::Linux, &cameras())
}

fn tone() -> Vec<u8> {
    (0..=255).collect()
}

fn press(app: &mut App, keys: &str) {
    for c in keys.chars() {
        let _ = app.press(Key::Char(c), 123456);
    }
}

fn picture() -> Frame {
    Frame { data: vec![0, 0, 0, 255, 255, 255], width: 2, height: 1 }
}

#[test]
fn starts_with_what_the_platform_has() {
    let app = started();
    assert_eq!(app.platform(), Platform::Linux);
    assert_eq!(app.camera(), 0);
    assert_eq!(app.capture_format(), (30, 640, 480));
    assert_eq!(app.rotation_degrees(), 0);
    assert_eq!(app.camera_status(), "Front (1/2)");
    assert!(!app.is_recording());
    assert!(app.recording_file().is_none());
    let termux = App::new(&args(), Platform::Termux, &Vec::new());
    assert_eq!(termux.camera(), 1);
    assert_eq!(termux.camera_status(), "Camera 1 (1/1)");
    assert_eq!(termux.hud(String::new(), 0).rotation_degrees, 270);
    let given = Args { platform: Platform::Macos, camera: Some(5), ..args() };
    let mac = App::new(&given, Platform::Termux, &cameras());
    assert_eq!(mac.platform(), Platform::Macos);
    assert_eq!(mac.camera_status(), "Camera 5 (3/3)");
}

#[test]
fn ramps_turn_round() {
    let mut app = started();
    assert_eq!(app.current_ramp(), RAMP_SHORT);
    press(&mut app, "1");
    assert_eq!(app.current_ramp(), RAMP_SHORT.chars().rev().collect::<String>());
    app.render(&picture(), 2, 1, &tone());
    assert_eq!(app.ascii(), "@ ");
    press(&mut app, "1");
    app.render(&picture(), 2, 1, &tone());
    assert_eq!(app.ascii(), " @");
    let long = Args { ramp: Ramp::Long, ..args() };
    assert_eq!(App::new(&long, Platform::Linux, &Vec::new()).current_ramp(), RAMP_LONG);
}

#[test]
fn keys_ask_for_what_is_outside() {
    let mut app = started();
    assert!(matches!(app.press(Key::Char('q'), 0), Action::Quit));
    assert!(matches!(app.press(Key::Char('Q'), 0), Action::Quit));
    assert!(matches!(app.press(Key::Up, 0), Action::RaiseContrast));
    assert!(matches!(app.press(Key::Down, 0), Action::LowerContrast));
    assert!(matches!(app.press(Key::Other, 0), Action::Nothing));
    assert!(matches!(app.press(Key::Char('z'), 0), Action::Nothing));
    assert!(matches!(app.press(Key::Char('4'), 0), Action::Nothing));
    assert!(matches!(app.press(Key::Char('H'), 0), Action::Nothing));
}

#[test]
fn brightness_moves_within_its_limits() {
    let mut app = started();
    for _ in 0..30 {
        let _ = app.press(Key::Right, 0);
    }
    assert_eq!(app.brightness(), 100);
    for _ in 0..50 {
        let _ = app.press(Key::Left, 0);
    }
    assert_eq!(app.brightness(), -100);
    let bright = Args { brightness: 98, ..args() };
    let mut app = App::new(&bright, Platform::Linux, &Vec::new());
    let _ = app.press(Key::Right, 0);
    assert_eq!(app.brightness(), 100);
    let _ = app.press(Key::Left, 0);
    assert_eq!(app.brightness(), 95);
}

#[test]
fn rotation_goes_round() {
    let mut app = started();
    press(&mut app, "2");
    assert_eq!(app.rotation_degrees(), 90);
    assert_eq!(app.orient(picture()).data, vec![255, 255, 255, 0, 0, 0]);
    press(&mut app, "2");
    assert_eq!(app.rotation_degrees(), 180);
    press(&mut app, "2");
    assert_eq!(app.rotation_degrees(), 270);
    assert_eq!(app.hud(String::new(), 0).rotation_degrees, 270);
    press(&mut app, "2");
    assert_eq!(app.rotation_degrees(), 0);
    assert_eq!(app.orient(picture()).data, picture().data);
}

#[test]
fn frames_are_mirrored_on_request() {
    let mut app = started();
    press(&mut app, "f");
    assert_eq!(app.orient(picture()).data, vec![255, 255, 255, 0, 0, 0]);
    press(&mut app, "F");
    assert_eq!(app.orient(picture()).data, picture().data);
    let flipped = Args { flip: true, rotate: Some(2), ..args() };
    let app = App::new(&flipped, Platform::Linux, &Vec::new());
    assert_eq!(app.orient(picture()).data, picture().data);
}

#[test]
fn pages_open_and_close() {
    let mut app = started();
    assert!(app.page().is_none());
    press(&mut app, "s");
    assert_eq!(app.page().map(|lines| lines[1].clone()), Some("  RUSTERCAM - SETTINGS".to_string()));
    press(&mut app, "h");
    assert_eq!(
        app.page().map(|lines| lines[1].clone()),
        Some("  RUSTERCAM - KEYBOARD CONTROLS".to_string())
    );
    press(&mut app, "hs");
    assert!(app.page().is_none());
}

#[test]
fn colour_modes_change_in_the_settings() {
    let mut app = started();
    assert_eq!(app.hud(String::new(), 0).color_mode_label, "Off");
    press(&mut app, "7");
    assert_eq!(app.hud(String::new(), 0).color_mode_label, "Off");
    press(&mut app, "s7");
    assert_eq!(app.hud(String::new(), 0).color_mode_label, "24bit");
}

#[test]
fn presets_are_gone_through() {
    let mut app = started();
    let mut seen: Vec<String> = Vec::new();
    for _ in 0..9 {
        press(&mut app, "5");
        seen.push(app.hud(String::new(), 0).preset);
    }
    assert_eq!(
        seen,
        vec!["max", "greyscale", "ascii", "green", "green_gray", "red", "red_gray", "raw", "max"]
    );
}

#[test]
fn cameras_are_gone_through() {
    let mut app = started();
    assert_eq!(app.next_camera_id(), Some(2));
    assert!(matches!(app.press(Key::Char('c'), 0), Action::StartCamera(2)));
    app.camera_started(2);
    assert_eq!(app.camera_status(), "Back (2/2)");
    assert!(matches!(app.press(Key::Char('C'), 0), Action::StartCamera(0)));
    app.camera_started(0);
    assert_eq!(app.camera(), 0);
    app.camera_started(1);
    assert_eq!(app.camera_status(), "Camera 1 (2/3)");
    let mut alone = App::new(&args(), Platform::Linux, &Vec::new());
    assert!(alone.next_camera_id().is_none());
    assert!(matches!(alone.press(Key::Char('c'), 0), Action::Nothing));
}

#[test]
fn captures_hold_the_picture() {
    let mut app = started();
    app.render(&picture(), 2, 1, &tone());
    match app.press(Key::Char('4'), 123456) {
        Action::SaveCapture(name, svg) => {
            assert_eq!(name, "capture_123456.svg");
            assert!(svg.contains("> @</text>"));
        }
        _ => panic!("nothing saved"),
    }
    match app.press(Key::Char('H'), 654321) {
        Action::SaveCapture(name, html) => {
            assert_eq!(name, "capture_654321.html");
            assert!(html.contains("<pre> @</pre>"));
        }
        _ => panic!("nothing saved"),
    }
}

#[test]
fn recordings_are_turned_on_and_off() {
    let mut app = started();
    assert!(!app.begin_recording(2, 1));
    assert!(matches!(app.press(Key::Char('3'), 123456), Action::MakeRecordings));
    assert_eq!(app.recording_file(), Some("recording_123456.tcam"));
    assert!(!app.is_recording());
    app.render(&picture(), 2, 1, &tone());
    assert!(app.begin_recording(2, 1));
    assert!(!app.begin_recording(2, 1));
    assert!(app.is_recording());
    let mut bytes: Vec<u8> = Vec::new();
    for time in [0u128, 40, 80] {
        match app.record_frame(time) {
            Ok(Some(more)) => bytes.extend(more),
            _ => panic!("nothing recorded"),
        }
    }
    match app.press(Key::Char('3'), 0) {
        Action::CloseRecording(rest) => bytes.extend(rest),
        _ => panic!("not closed"),
    }
    assert!(!app.is_recording());
    assert!(app.recording_file().is_none());
    assert!(matches!(app.record_frame(0), Ok(None)));
    let mut decoder = match TcamDecoder::open(bytes) {
        Ok(decoder) => decoder,
        Err(e) => panic!("{e:?}"),
    };
    for time in [0u32, 40, 80] {
        match decoder.read_sound_frame() {
            Some(Ok(Some((frame, at)))) => {
                assert_eq!(frame.chars, vec![" @".to_string()]);
                assert_eq!(at, time);
            }
            _ => panic!("nothing read"),
        }
    }
}

#[test]
fn keys_change_only_their_own() {
    let keys = [
        Key::Char('h'),
        Key::Char('2'),
        Key::Right,
        Key::Char('5'),
        Key::Char('1'),
        Key::Char('3'),
        Key::Left,
        Key::Char('5'),
        Key::Char('s'),
        Key::Char('7'),
        Key::Char('f'),
        Key::Up,
        Key::Char('x'),
    ];
    let mut app = started();
    for (i, key) in keys.iter().cycle().take(200).enumerate() {
        let (rotation, brightness, ramp) = (app.rotation(), app.brightness(), app.current_ramp());
        assert!(!matches!(app.press(*key, 123456), Action::Quit));
        assert_eq!(app.rotation() != rotation, *key == Key::Char('2'), "{i}");
        assert_eq!(app.brightness() != brightness, *key == Key::Right || *key == Key::Left);
        assert_eq!(app.current_ramp() != ramp, *key == Key::Char('1'));
        assert!(app.rotation() <= 3 && app.brightness().abs() <= 100);
    }
}

#[test]
fn frames_that_can_be_rendered() {
    let app = started();
    assert!(app.can_render(&picture(), 2, 1, &tone()));
    assert!(!app.can_render(&picture(), 2, 1, &tone()[1..]));
    let short = Frame { data: vec![0; 3], width: 2, height: 1 };
    assert!(!app.can_render(&short, 2, 1, &tone()));
    assert!(app.can_render(&short, 1, 1, &tone()));
    let empty = Frame { data: Vec::new(), width: 0, height: 0 };
    assert!(!app.can_render(&empty, 1, 1, &tone()));
    assert!(app.can_render(&empty, 0, 0, &tone()));
    let huge = Frame { data: vec![0; 12], width: usize::MAX, height: usize::MAX };
    assert!(!app.can_render(&huge, 3, 3, &tone()));
    assert!(app.can_render(&huge, 1, 1, &tone()));
}

#[test]
fn recordings_go_to_the_given_file() {
    let given = Args { record: true, ..args() };
    let mut app = App::new(&given, Platform::Linux, &Vec::new());
    assert!(app.recording_file().is_none());
    assert!(app.begin_recording(4, 2));
    assert!(app.hud("1.0".to_string(), 3).recording);
}

#[test]
fn new_files_get_random_numbers() {
    let mut app = started();
    assert!(matches!(app.handle_key(Key::Char('3')), Action::MakeRecordings));
    let name = app.recording_file().unwrap_or("").to_string();
    let number: u32 = name["recording_".len()..name.len() - ".tcam".len()].parse().unwrap();
    assert!((100_000..=999_999).contains(&number));
}
