use std::io::{Read, Write};

use flate2::read::ZlibDecoder;
use flate2::write::ZlibEncoder;
use flate2::Compression;
use rustercam::cli::ColorMode;
use rustercam::color::{dequantize_color, quantize_color};
use rustercam::decoder::{read_header, TcamDecoder};
use rustercam::encoder::TcamEncoder;
use rustercam::format::{TcamError, TCAM_DELTA, TCAM_KEYFRAME, TCAM_SKIP};
use rustercam::frame::RenderFrame;
use rustercam::recording::{preset_at, same_config, RecordingConfig, PRESET_COUNT};
use rustercam::render::build_lut;
use rustercam::rle::{rle_decode, rle_encode};

const RAMP: &str = " .:-=+*#%@";

type Rows = Vec<Vec<(u8, u8, u8)>>;

fn frame(rows: &[&str], colors: Option<Rows>) -> RenderFrame {
    RenderFrame { chars: rows.iter().map(|row| row.to_string()).collect(), colors }
}

fn plain() -> RecordingConfig {
    RecordingConfig::v1_defaults()
}

fn zlib(data: &[u8]) -> Vec<u8> {
    let mut encoder = ZlibEncoder::new(Vec::new(), Compression::new(6));
    encoder.write_all(data).unwrap();
    encoder.finish().unwrap()
}

fn unzlib(stream: &[u8]) -> Vec<u8> {
    let mut data = Vec::new();
    ZlibDecoder::new(stream).read_to_end(&mut data).unwrap();
    data
}

/// A recording's header, two cells by one, without colours and with plain
/// settings.
fn small_header() -> Vec<u8> {
    let mut bytes = b"TCAM".to_vec();
    bytes.extend([2, 2, 0, 1, 0, 30, 0, 0, 2, b' ', b'@']);
    bytes
}

fn record(kind: u8, time: u32, payload: &[u8]) -> Vec<u8> {
    let mut bytes = vec![kind];
    bytes.extend(time.to_le_bytes());
    bytes.extend((payload.len() as u32).to_le_bytes());
    bytes.extend(payload);
    bytes
}

/// A keyframe's payload: text and colours, each after its length.
fn keyframe(text: &[u8], colors: &[u8]) -> Vec<u8> {
    let mut bytes = (text.len() as u32).to_le_bytes().to_vec();
    bytes.extend(text);
    bytes.extend((colors.len() as u32).to_le_bytes());
    bytes.extend(colors);
    bytes
}

fn opened(bytes: Vec<u8>) -> TcamDecoder {
    match TcamDecoder::open(bytes) {
        Ok(decoder) => decoder,
        Err(e) => panic!("{e:?}"),
    }
}

fn shown(decoder: &mut TcamDecoder) -> (RenderFrame, u32) {
    match decoder.read_sound_frame() {
        Some(Ok(Some(next))) => next,
        Some(Ok(None)) => panic!("no frame"),
        Some(Err(e)) => panic!("{e:?}"),
        None => panic!("not sound"),
    }
}

fn failure(decoder: &mut TcamDecoder) -> TcamError {
    match decoder.read_sound_frame() {
        Some(Err(e)) => e,
        _ => panic!("no failure"),
    }
}

#[test]
fn runs_are_counted() {
    assert_eq!(rle_encode(b""), b"");
    assert_eq!(rle_encode(b"aaab"), vec![3, b'a', 1, b'b']);
    let long = vec![7u8; 300];
    assert_eq!(rle_encode(&long), vec![255, 7, 45, 7]);
    assert_eq!(rle_decode(&[2, 5, 1, 6, 9]), vec![5, 5, 6]);
    assert_eq!(rle_decode(&rle_encode(&long)), long);
    assert!(rle_encode(b"hello world").len() <= 22);
}

#[test]
fn flag_words_keep_settings() {
    let full = RecordingConfig::default();
    assert_eq!(full.flags(true), 127);
    assert_eq!(full.flags(false), 126);
    assert_eq!(plain().flags(true), 1);
    for word in 0..128u16 {
        let config = RecordingConfig::from_flags(word);
        assert_eq!(config.flags(word % 2 == 1), word);
        assert_eq!(config.color_mode, ColorMode::TrueColor);
    }
    assert!(RecordingConfig::from_flags(32).delta_timestamps);
    assert!(!RecordingConfig::from_flags(32).zlib_max);
}

#[test]
fn presets_are_known_by_name() {
    let names: Vec<&str> = (0..PRESET_COUNT).map(preset_at).collect();
    assert_eq!(
        names,
        vec!["raw", "max", "greyscale", "ascii", "green", "green_gray", "red", "red_gray"]
    );
    for name in names {
        let mut config = RecordingConfig::default();
        config.apply_preset(name);
        assert_eq!(config.preset_name(), Some(name));
    }
    let mut config = RecordingConfig::default();
    config.apply_preset("no such preset");
    assert!(same_config(&config, &RecordingConfig::default()));
    config.zlib_max = false;
    assert_eq!(config.preset_name(), None);
}

#[test]
fn header_is_written_and_read() {
    let mut encoder = TcamEncoder::create(2, 1, 30, " @", false, plain());
    assert_eq!(encoder.take_written(), small_header());
    assert!(encoder.take_written().is_empty());
    let mut bytes = TcamEncoder::create(80, 24, 25, RAMP, true, RecordingConfig::default())
        .take_written();
    bytes.push(99);
    let header = match read_header(&bytes) {
        Ok(header) => header,
        Err(e) => panic!("{e:?}"),
    };
    assert_eq!((header.width, header.height, header.fps), (80, 24, 25));
    assert!(header.color && header.config.zlib_max && header.config.flat_indices);
    assert_eq!(header.ramp, RAMP);
    assert_eq!(header.size, bytes.len() - 1);
}

#[test]
fn old_header_has_plain_settings() {
    let mut bytes = b"TCAM".to_vec();
    bytes.extend([1, 3, 1, 4, 0, 12, 1, 1, b'#']);
    let header = match read_header(&bytes) {
        Ok(header) => header,
        Err(e) => panic!("{e:?}"),
    };
    assert_eq!((header.width, header.height, header.fps), (259, 4, 12));
    assert!(header.color);
    assert!(same_config(&header.config, &plain()));
    assert_eq!(header.ramp, "#");
    assert_eq!(header.size, 13);
}

#[test]
fn headers_that_cannot_be_read() {
    assert_eq!(read_header(b"TCA").err(), Some(TcamError::UnexpectedEnd));
    assert_eq!(read_header(b"TCAN").err(), Some(TcamError::NotTcam));
    assert_eq!(read_header(b"TCAM").err(), Some(TcamError::UnexpectedEnd));
    assert_eq!(read_header(b"TCAM\x03").err(), Some(TcamError::UnsupportedVersion(3)));
    assert_eq!(read_header(b"TCAM\x02\x01").err(), Some(TcamError::UnexpectedEnd));
    let whole = small_header();
    assert_eq!(
        read_header(&whole[..whole.len() - 1]).err(),
        Some(TcamError::UnexpectedEnd)
    );
    let mut bad = small_header();
    let last = bad.len() - 1;
    bad[last] = 0xff;
    assert_eq!(read_header(&bad).err(), Some(TcamError::BadRamp(1, Some(1))));
    assert_eq!(TcamDecoder::open(bad).err(), Some(TcamError::BadRamp(1, Some(1))));
}

#[test]
fn keyframe_bytes_are_laid_out() {
    let config = RecordingConfig { skip_identical: false, ..plain() };
    let encoder = TcamEncoder::create(2, 1, 30, " @", true, config);
    let colors = vec![vec![(1, 2, 3), (4, 5, 6)]];
    let payload = encoder.encode_keyframe(&frame(&["aa"], Some(colors)));
    assert_eq!(payload, keyframe(&[2, b'a'], &[1, 2, 3, 4, 5, 6]));
}

#[test]
fn delta_needs_a_frame_before() {
    let encoder = TcamEncoder::create(2, 1, 30, " @", false, plain());
    assert_eq!(
        encoder.encode_delta(&frame(&["ab"], None)),
        Err(TcamError::MissingPrevious)
    );
}

#[test]
fn delta_bytes_are_laid_out() {
    let mut encoder = TcamEncoder::create(2, 2, 30, " @", false, plain());
    assert_eq!(encoder.write_frame(&frame(&["ab", "cd"], None), 0), Ok(()));
    let payload = encoder.encode_delta(&frame(&["ab", "cx"], None));
    assert_eq!(payload, Ok(Some(vec![1, 0, 0, 0, 1, 0, 1, 0, b'x'])));
    let flat = RecordingConfig { flat_indices: true, ..plain() };
    let mut encoder = TcamEncoder::create(2, 2, 30, " @", false, flat);
    assert_eq!(encoder.write_frame(&frame(&["ab", "cd"], None), 0), Ok(()));
    let payload = encoder.encode_delta(&frame(&["ab", "cx"], None));
    assert_eq!(payload, Ok(Some(vec![1, 0, 0, 0, 3, 0, b'x'])));
}

#[test]
fn records_hold_zlib_streams() {
    let mut encoder = TcamEncoder::create(2, 1, 30, " @", false, plain());
    let _ = encoder.take_written();
    assert_eq!(encoder.write_frame(&frame(&["ab"], None), 70_000), Ok(()));
    let bytes = encoder.take_written();
    assert_eq!(bytes[0], TCAM_KEYFRAME);
    assert_eq!(bytes[1..5], 70_000u32.to_le_bytes());
    let size = u32::from_le_bytes([bytes[5], bytes[6], bytes[7], bytes[8]]) as usize;
    assert_eq!(bytes.len(), 9 + size);
    assert_ne!(bytes[9..], keyframe(&[1, b'a', 1, b'b'], &[])[..]);
    assert_eq!(unzlib(&bytes[9..]), keyframe(&[1, b'a', 1, b'b'], &[]));
    assert_eq!(encoder.frame_count(), 1);
}

#[test]
fn identical_frames_are_skipped() {
    let mut encoder =
        TcamEncoder::create(2, 1, 30, " @", false, RecordingConfig::default());
    let _ = encoder.take_written();
    assert_eq!(encoder.write_frame(&frame(&["ab"], None), 0), Ok(()));
    let _ = encoder.take_written();
    assert_eq!(encoder.write_frame(&frame(&["ab"], None), 40), Ok(()));
    assert_eq!(encoder.take_written(), vec![TCAM_SKIP, 40, 0, 0, 0, 0, 0]);
    assert_eq!(encoder.write_frame(&frame(&["ab"], None), 200_000), Ok(()));
    assert_eq!(encoder.take_written(), vec![TCAM_SKIP, 255, 255, 0, 0, 0, 0]);
    let mut encoder = TcamEncoder::create(2, 1, 30, " @", false, plain());
    assert_eq!(encoder.write_frame(&frame(&["ab"], None), 0), Ok(()));
    let _ = encoder.take_written();
    assert_eq!(encoder.write_frame(&frame(&["ab"], None), 40), Ok(()));
    let bytes = encoder.take_written();
    assert_eq!(bytes[0], TCAM_DELTA);
    assert_eq!(unzlib(&bytes[9..]), vec![0, 0, 0, 0]);
}

#[test]
fn every_thirtieth_frame_is_a_keyframe() {
    let mut encoder = TcamEncoder::create(1, 1, 30, " @", false, plain());
    for i in 0..61u32 {
        let _ = encoder.take_written();
        let text = if i % 2 == 0 { "a" } else { "b" };
        assert_eq!(encoder.write_frame(&frame(&[text], None), i as u128), Ok(()));
        let kind = encoder.take_written()[0];
        assert_eq!(kind == TCAM_KEYFRAME, i % 30 == 0);
    }
}

#[test]
fn taken_bytes_add_up_to_the_recording() {
    let config = RecordingConfig::default();
    let mut whole = TcamEncoder::create(2, 1, 30, RAMP, false, config);
    let mut taken = TcamEncoder::create(2, 1, 30, RAMP, false, config);
    let mut bytes = taken.take_written();
    for (text, time) in [(" @", 0u128), ("@@", 40), ("@@", 80), ("..", 70000)] {
        let picture = frame(&[text], None);
        assert!(whole.write_frame(&picture, time).is_ok());
        match taken.write_and_take(&picture, time) {
            Ok(more) => bytes.extend(more),
            Err(e) => panic!("{e:?}"),
        }
    }
    assert_eq!(bytes, whole.take_written());
    assert!(taken.take_written().is_empty());
}

#[test]
fn times_are_capped() {
    let mut encoder = TcamEncoder::create(1, 1, 30, " @", false, plain());
    let _ = encoder.take_written();
    assert_eq!(encoder.write_frame(&frame(&["a"], None), 1u128 << 40), Ok(()));
    assert_eq!(encoder.take_written()[1..5], [255, 255, 255, 255]);
}

#[test]
fn colourless_recording_plays_back() {
    let texts = [["ab", "cd"], ["ab", "xd"], ["ab", "xd"], ["  ", "@@"]];
    for config in [plain(), RecordingConfig::default()] {
        let mut encoder = TcamEncoder::create(2, 2, 24, RAMP, false, config);
        for (i, text) in texts.iter().enumerate() {
            assert_eq!(encoder.write_frame(&frame(text, None), 50 * i as u128), Ok(()));
        }
        let mut decoder = opened(encoder.take_written());
        assert_eq!((decoder.width(), decoder.height(), decoder.fps()), (2, 2, 24));
        for (i, text) in texts.iter().enumerate() {
            let (picture, time) = shown(&mut decoder);
            assert_eq!(picture.chars, text.to_vec());
            assert!(picture.colors.is_none());
            assert_eq!(time, 50 * i as u32);
        }
        assert!(matches!(decoder.read_sound_frame(), Some(Ok(None))));
    }
}

#[test]
fn coloured_recording_plays_back() {
    let first: Rows = vec![vec![(10, 20, 30), (200, 100, 0)], vec![(0, 0, 0), (255, 255, 255)]];
    let second: Rows = vec![vec![(10, 20, 30), (90, 100, 0)], vec![(1, 0, 0), (255, 0, 255)]];
    let pictures =
        [frame(&["ab", "cd"], Some(first.clone())), frame(&["ab", "ce"], Some(second.clone()))];
    for word in 0..128u16 {
        let config = RecordingConfig::from_flags(word);
        let lut = build_lut(RAMP);
        let mut encoder = TcamEncoder::create(2, 2, 24, RAMP, true, config);
        for (i, picture) in pictures.iter().enumerate() {
            assert_eq!(encoder.write_frame(picture, 1000 * i as u128), Ok(()));
        }
        let mut decoder = opened(encoder.take_written());
        for (i, picture) in pictures.iter().enumerate() {
            let (seen, time) = shown(&mut decoder);
            let stored: Rows = match &picture.colors {
                Some(rows) => rows
                    .iter()
                    .map(|row| {
                        row.iter()
                            .map(|c| {
                                if config.quantize_colors {
                                    dequantize_color(quantize_color(c.0, c.1, c.2))
                                } else {
                                    *c
                                }
                            })
                            .collect()
                    })
                    .collect(),
                None => panic!("no colours"),
            };
            let texts: Vec<String> = if config.derive_chars {
                stored
                    .iter()
                    .map(|row| {
                        row.iter()
                            .map(|c| lut[rustercam::luma::luma(c.0, c.1, c.2) as usize])
                            .collect()
                    })
                    .collect()
            } else {
                picture.chars.clone()
            };
            assert_eq!(seen.colors, Some(stored));
            assert_eq!(seen.chars, texts);
            assert_eq!(time, 1000 * i as u32);
        }
        assert!(matches!(decoder.read_sound_frame(), Some(Ok(None))));
    }
}

#[test]
fn a_growing_recording_is_read_on() {
    let mut decoder = opened(small_header());
    assert!(matches!(decoder.read_sound_frame(), Some(Ok(None))));
    decoder.extend(&record(TCAM_KEYFRAME, 5, &zlib(&keyframe(&[2, b'x'], &[]))));
    let (picture, time) = shown(&mut decoder);
    assert_eq!((picture.chars, time), (vec!["xx".to_string()], 5));
    decoder.extend(&record(TCAM_SKIP, 9, &[]));
    let (picture, time) = shown(&mut decoder);
    assert_eq!((picture.chars, time), (vec!["xx".to_string()], 9));
}

#[test]
fn short_text_is_filled_with_blanks() {
    let mut bytes = small_header();
    bytes.extend(record(TCAM_KEYFRAME, 0, &zlib(&keyframe(&[1, b'x'], &[]))));
    let (picture, _) = shown(&mut opened(bytes));
    assert_eq!(picture.chars, vec!["x ".to_string()]);
}

#[test]
fn text_that_is_not_utf8_is_replaced() {
    let mut bytes = small_header();
    bytes.extend(record(TCAM_KEYFRAME, 0, &zlib(&keyframe(&[1, b'x', 1, 0xff], &[]))));
    let (picture, _) = shown(&mut opened(bytes));
    assert_eq!(picture.chars, vec!["x\u{fffd}".to_string()]);
}

#[test]
fn records_that_break_off() {
    let whole = record(TCAM_KEYFRAME, 0, &zlib(&keyframe(&[2, b'x'], &[])));
    for cut in 1..whole.len() {
        let mut bytes = small_header();
        bytes.extend(&whole[..cut]);
        let mut decoder = opened(bytes);
        assert_eq!(failure(&mut decoder), TcamError::UnexpectedEnd);
        assert!(matches!(decoder.read_sound_frame(), Some(Ok(None))));
    }
}

#[test]
fn payloads_that_are_no_streams() {
    let mut bytes = small_header();
    bytes.extend(record(TCAM_KEYFRAME, 0, b"nonsense"));
    assert_eq!(failure(&mut opened(bytes)), TcamError::BadStream);
}

#[test]
fn payloads_that_end_early() {
    let mut bytes = small_header();
    bytes.extend(record(TCAM_KEYFRAME, 0, &zlib(&[1, 2])));
    assert_eq!(failure(&mut opened(bytes)), TcamError::UnexpectedEnd);
    let mut bytes = small_header();
    bytes.extend(record(TCAM_DELTA, 0, &zlib(&[1, 0, 0, 0, 9])));
    assert_eq!(failure(&mut opened(bytes)), TcamError::UnexpectedEnd);
}

#[test]
fn unknown_kinds_change_nothing() {
    let mut bytes = small_header();
    bytes.extend(record(TCAM_KEYFRAME, 0, &zlib(&keyframe(&[2, b'x'], &[]))));
    bytes.extend(record(77, 8, &zlib(b"anything")));
    let mut decoder = opened(bytes);
    let _ = shown(&mut decoder);
    let (picture, time) = shown(&mut decoder);
    assert_eq!((picture.chars, time), (vec!["xx".to_string()], 8));
}

#[test]
fn records_that_cannot_be_shown_are_left() {
    let mut bytes = b"TCAM".to_vec();
    bytes.extend([2, 1, 0, 1, 0, 30, 5, 0, 2, b' ', b'@']);
    bytes.extend(record(TCAM_KEYFRAME, 0, &zlib(&keyframe(&[1, b'x'], &[250]))));
    let mut decoder = opened(bytes);
    assert!(decoder.read_sound_frame().is_none());
    assert!(decoder.read_sound_frame().is_none());
}

#[test]
fn characters_are_derived_from_brightness() {
    let decoder = opened(small_header());
    assert_eq!(decoder.derive_char(0, 0, 0), ' ');
    assert_eq!(decoder.derive_char(255, 255, 255), '@');
}

#[test]
fn errors_have_messages() {
    assert_eq!(TcamError::NotTcam.message(), "not a .tcam file");
    assert_eq!(TcamError::UnsupportedVersion(9).message(), "unsupported .tcam version 9");
    assert_eq!(TcamError::MissingPrevious.message(), "missing previous chars");
    assert_eq!(TcamError::UnexpectedEnd.message(), "failed to fill whole buffer");
    assert_eq!(TcamError::BadStream.message(), "corrupt deflate stream");
    assert_eq!(TcamError::BrokenStream.message(), "incomplete deflate stream");
    assert_eq!(TcamError::CannotCompress.message(), "corrupt deflate stream");
    assert_eq!(TcamError::CannotFinish.message(), "deflate compression error");
}

#[test]
fn ramps_that_are_not_utf8_are_told_of() {
    let ramps: [&[u8]; 7] =
        [b"\xff", b"a\xff", b"ab\xe2\x82", b"\xc3", b"\xe2\x28\xa1", b"\xed\xa0\x80", b"x\xf0\x9f\x98y"];
    for ramp in ramps {
        let mut bytes = b"TCAM".to_vec();
        bytes.extend([2, 2, 0, 1, 0, 30, 0, 0, ramp.len() as u8]);
        bytes.extend(ramp);
        let told = match read_header(&bytes) {
            Ok(_) => panic!("a ramp was read"),
            Err(e) => e.message(),
        };
        let expected = String::from_utf8(ramp.to_vec()).unwrap_err().to_string();
        assert_eq!(told, expected);
    }
}

#[test]
fn failures_of_streams_are_those_of_the_decoder() {
    let whole = zlib(&keyframe(&[2, b'x'], &[]));
    let mut streams: Vec<Vec<u8>> = (0..whole.len()).map(|n| whole[..n].to_vec()).collect();
    streams.push(b"nonsense".to_vec());
    let mut altered = whole.clone();
    let last = altered.len() - 1;
    altered[last] ^= 1;
    streams.push(altered);
    for stream in streams {
        let expected = match ZlibDecoder::new(&stream[..]).read_to_end(&mut Vec::new()) {
            Ok(_) => panic!("a stream was read"),
            Err(e) => e.to_string(),
        };
        let mut bytes = small_header();
        bytes.extend(record(TCAM_KEYFRAME, 0, &stream));
        assert_eq!(failure(&mut opened(bytes)).message(), expected);
    }
}
