use rustercam::capture::{
    camera_name, decode_args, decoded_frame, ensure_camera_device, fallback_failure, ffmpeg_args,
    frame_bytes, name_is_blank, photo_args, photo_taken, query_camera_devices, CameraDevice,
    Capture, CaptureError,
};
use rustercam::cli::Platform;
use rustercam::names::{draw_number, html_name, photo_name, recording_name, svg_name};

fn listed(devices: &[CameraDevice]) -> Vec<(u32, &str)> {
    devices.iter().map(|device| (device.id, device.name.as_str())).collect()
}

fn device(id: u32, name: &str) -> CameraDevice {
    CameraDevice { id, name: name.to_string() }
}

#[test]
fn blanks_are_those_of_unicode() {
    for c in '\0'..=char::MAX {
        assert_eq!(name_is_blank(&c.to_string()), c.is_whitespace());
    }
    assert!(name_is_blank(""));
    assert!(name_is_blank(" \t\u{3000}"));
    assert!(!name_is_blank(" a "));
}

#[test]
fn cameras_are_listed_in_order_and_once() {
    let found = vec![
        (Some(4), "Late".to_string()),
        (Some(1), "Front".to_string()),
        (None, "Network".to_string()),
        (Some(4), "Later".to_string()),
        (Some(2), " \t".to_string()),
    ];
    let devices = query_camera_devices(3, &found);
    assert_eq!(
        listed(&devices),
        vec![(1, "Front"), (2, "Camera 2"), (3, "Camera 3"), (4, "Late")]
    );
    let devices = query_camera_devices(4, &found);
    assert_eq!(listed(&devices), vec![(1, "Front"), (2, "Camera 2"), (4, "Late")]);
}

#[test]
fn default_camera_is_listed_alone() {
    assert_eq!(listed(&query_camera_devices(7, &Vec::new())), vec![(7, "Camera 7")]);
}

#[test]
fn cameras_are_added_where_missing() {
    let mut devices = vec![device(5, "b"), device(2, "a"), device(5, "c")];
    ensure_camera_device(&mut devices, 2);
    assert_eq!(listed(&devices), vec![(5, "b"), (2, "a"), (5, "c")]);
    ensure_camera_device(&mut devices, 3);
    assert_eq!(listed(&devices), vec![(2, "a"), (3, "Camera 3"), (5, "b"), (5, "c")]);
    let copy = devices.clone();
    ensure_camera_device(&mut devices, 3);
    assert_eq!(listed(&devices), listed(&copy));
    assert_eq!(camera_name(0), "Camera 0");
}

#[test]
fn cameras_of_a_number_keep_their_order() {
    let mut devices = vec![
        device(9, "a"),
        device(1, "b"),
        device(9, "c"),
        device(1, "d"),
        device(9, "e"),
    ];
    ensure_camera_device(&mut devices, 4);
    assert_eq!(
        listed(&devices),
        vec![(1, "b"), (1, "d"), (4, "Camera 4"), (9, "a"), (9, "c"), (9, "e")]
    );
}

#[test]
fn backends_and_their_labels() {
    assert_eq!(Capture::start(Platform::Termux), Capture::Termux);
    assert_eq!(Capture::start(Platform::Macos), Capture::Native);
    assert_eq!(Capture::start(Platform::Linux), Capture::Native);
    assert_eq!(Capture::Native.fallback(), Some(Capture::Ffmpeg));
    assert_eq!(Capture::Ffmpeg.fallback(), None);
    assert_eq!(Capture::Termux.fallback(), None);
    assert_eq!(Capture::Native.backend_label(), "nokhwa");
    assert_eq!(Capture::Ffmpeg.backend_label(), "ffmpeg");
    assert_eq!(Capture::Termux.backend_label(), "termux");
    assert_eq!(
        fallback_failure("no device"),
        "native camera backend failed first: no device; ffmpeg fallback also failed"
    );
}

#[test]
fn arguments_of_ffmpeg() {
    let tail = "-vf hflip -f rawvideo -pix_fmt rgb24 -an pipe:1";
    assert_eq!(
        ffmpeg_args(Platform::Linux, 2, 30, 640, 480).join(" "),
        format!(
            "-hide_banner -loglevel error -f v4l2 -framerate 30 -video_size 640x480 -i /dev/video2 {tail}"
        )
    );
    assert_eq!(
        ffmpeg_args(Platform::Macos, 0, 30, 320, 240).join(" "),
        format!(
            "-hide_banner -loglevel error -f avfoundation -framerate 30 -video_size 320x240 -pixel_format yuyv422 -i 0 {tail}"
        )
    );
    assert_eq!(
        ffmpeg_args(Platform::Termux, 2, 30, 640, 480),
        ffmpeg_args(Platform::Auto, 2, 30, 640, 480)
    );
    assert_eq!(
        decode_args("/tmp/p.jpg", 640).join(" "),
        "-hide_banner -loglevel error -i /tmp/p.jpg -vf scale=640:-2,hflip -f rawvideo -pix_fmt rgb24 -frames:v 1 pipe:1"
    );
    assert_eq!(photo_args(1), vec!["-c".to_string(), "1".to_string()]);
    assert_eq!(frame_bytes(640, 480), 921_600);
}

#[test]
fn photos_become_frames() {
    assert_eq!(photo_taken(true), Ok(()));
    assert_eq!(photo_taken(false), Err(CaptureError::PhotoFailed));
    match decoded_frame(true, vec![7; 12], 2) {
        Ok(frame) => assert_eq!((frame.width, frame.height, frame.data.len()), (2, 2, 12)),
        Err(e) => panic!("{e:?}"),
    }
    assert_eq!(decoded_frame(false, vec![7; 12], 2).err(), Some(CaptureError::DecodeFailed));
    assert_eq!(decoded_frame(true, Vec::new(), 2).err(), Some(CaptureError::DecodeFailed));
    assert_eq!(decoded_frame(true, vec![7; 13], 2).err(), Some(CaptureError::BadLength));
    assert_eq!(decoded_frame(false, vec![7; 12], 0).err(), Some(CaptureError::DecodeFailed));
    assert_eq!(decoded_frame(true, Vec::new(), 0).err(), Some(CaptureError::DecodeFailed));
    assert_eq!(CaptureError::PhotoFailed.message(), "termux-camera-photo failed");
    assert_eq!(
        CaptureError::DecodeFailed.message(),
        "ffmpeg failed to decode Termux camera frame"
    );
    assert_eq!(
        CaptureError::BadLength.message(),
        "decoded Termux frame has unexpected byte length"
    );
}

#[test]
fn files_have_numbered_names() {
    assert_eq!(recording_name(123456), "recording_123456.tcam");
    assert_eq!(html_name(100000), "capture_100000.html");
    assert_eq!(svg_name(999999), "capture_999999.svg");
    assert_eq!(photo_name(42, 123456), "rustercam_42_123456.jpg");
}

#[test]
fn numbers_are_drawn_from_their_range() {
    let numbers: Vec<u32> = (0..100).map(|_| draw_number()).collect();
    assert!(numbers.iter().all(|n| (100_000..=999_999).contains(n)));
    assert!(numbers.iter().any(|n| *n != numbers[0]));
}
