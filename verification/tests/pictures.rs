use rustercam::cli::{ColorMode, RAMP_LONG};
use rustercam::export::{ansi_to_html, html_page, render_frame_to_svg};
use rustercam::frame::{Frame, RenderFrame};
use rustercam::render::{build_lut, flip_frame_horizontal, render_frame, rotate_frame};
use rustercam::ui::split_lines;

fn pixels(width: usize, height: usize) -> Frame {
    let data = (0..width * height * 3).map(|i| i as u8).collect();
    Frame { data, width, height }
}

fn same_tone() -> Vec<u8> {
    (0..=255).collect()
}

#[test]
fn table_of_a_ramp() {
    let lut = build_lut(" .:-=+*#%@");
    assert_eq!(lut.len(), 256);
    assert_eq!(lut[0], ' ');
    assert_eq!(lut[255], '@');
    assert_eq!(lut[28], ' ');
    assert_eq!(lut[29], '.');
    assert_eq!(build_lut("#"), vec!['#'; 256]);
}

#[test]
fn frames_turn() {
    let frame = pixels(2, 1);
    let right = rotate_frame(&frame, 1);
    assert_eq!((right.width, right.height), (1, 2));
    assert_eq!(right.data, vec![3, 4, 5, 0, 1, 2]);
    let half = rotate_frame(&frame, 2);
    assert_eq!((half.width, half.height), (2, 1));
    assert_eq!(half.data, vec![3, 4, 5, 0, 1, 2]);
    let left = rotate_frame(&frame, 3);
    assert_eq!((left.width, left.height), (1, 2));
    assert_eq!(left.data, vec![0, 1, 2, 3, 4, 5]);
    assert_eq!(rotate_frame(&frame, 0).data, frame.data);
}

#[test]
fn turns_add_up() {
    let frame = pixels(3, 2);
    let quarter = rotate_frame(&frame, 1);
    assert_eq!(rotate_frame(&quarter, 1).data, rotate_frame(&frame, 2).data);
    assert_eq!(rotate_frame(&quarter, 3).data, frame.data);
    assert_eq!(rotate_frame(&rotate_frame(&frame, 2), 2).data, frame.data);
}

#[test]
fn bytes_after_the_pixels_are_cleared() {
    let mut frame = pixels(1, 1);
    frame.data.push(9);
    assert_eq!(rotate_frame(&frame, 2).data, vec![0, 1, 2, 0]);
}

#[test]
fn frames_are_mirrored() {
    let frame = pixels(3, 2);
    let mirrored = flip_frame_horizontal(&frame);
    assert_eq!(mirrored.data[..9], [6, 7, 8, 3, 4, 5, 0, 1, 2]);
    assert_eq!(mirrored.data[9..], [15, 16, 17, 12, 13, 14, 9, 10, 11]);
    assert_eq!(flip_frame_horizontal(&mirrored).data, frame.data);
}

#[test]
fn frames_are_rendered() {
    let frame = Frame { data: vec![0, 0, 0, 255, 255, 255], width: 2, height: 1 };
    let lut = build_lut(" @");
    let (picture, text) = render_frame(&frame, 2, 2, &lut, &same_tone(), ColorMode::Off);
    assert_eq!(picture.chars, vec![" @".to_string(), " @".to_string()]);
    assert!(picture.colors.is_none());
    assert_eq!(text, " @\n @");
    let (picture, text) = render_frame(&frame, 2, 1, &lut, &same_tone(), ColorMode::Red);
    assert_eq!(picture.colors, Some(vec![vec![(255, 0, 0), (255, 0, 0)]]));
    assert_eq!(text, "\x1b[38;2;255;0;0m \x1b[38;2;255;0;0m@\x1b[0m");
    let dark = vec![0u8; 256];
    let (picture, _) = render_frame(&frame, 2, 1, &lut, &dark, ColorMode::Off);
    assert_eq!(picture.chars, vec!["  ".to_string()]);
}

#[test]
fn cells_sample_the_whole_frame() {
    let data: Vec<u8> = (0..5u8).flat_map(|v| [v * 60, v * 60, v * 60]).collect();
    let frame = Frame { data, width: 5, height: 1 };
    let lut = build_lut("01234");
    let (picture, _) = render_frame(&frame, 3, 1, &lut, &same_tone(), ColorMode::TrueColor);
    assert_eq!(
        picture.colors,
        Some(vec![vec![(0, 0, 0), (120, 120, 120), (240, 240, 240)]])
    );
    let (picture, _) = render_frame(&frame, 1, 1, &lut, &same_tone(), ColorMode::Off);
    assert_eq!(picture.chars, vec!["0".to_string()]);
}

#[test]
fn html_leaves_codes_out() {
    assert_eq!(ansi_to_html(""), "");
    assert_eq!(ansi_to_html("a\x1b[38;2;1;2;3mb\x1b[0m\nc"), "ab\nc");
    assert_eq!(ansi_to_html("<&>\"'"), "&lt;&amp;&gt;&quot;'");
    assert_eq!(ansi_to_html("x\x1b never ends"), "x");
    assert_eq!(ansi_to_html("\x1b\x1bmy"), "y");
    assert!(html_page("<").starts_with("<!doctype html><html><head><meta charset=\"utf-8\">"));
    assert!(html_page("<").ends_with("<body><pre>&lt;</pre></body></html>"));
}

#[test]
fn html_shows_rendered_characters() {
    let frame = pixels(4, 4);
    let lut = build_lut("<&>@");
    for mode in [ColorMode::TrueColor, ColorMode::Ansi16, ColorMode::Gray, ColorMode::Off] {
        let (picture, text) = render_frame(&frame, 4, 3, &lut, &same_tone(), mode);
        let lines: Vec<String> = picture.chars;
        assert_eq!(ansi_to_html(&text), ansi_to_html(&lines.join("\n")));
    }
}

#[test]
fn svg_without_colours() {
    let frame = RenderFrame { chars: vec!["a'".to_string(), "".to_string()], colors: None };
    let svg = render_frame_to_svg(&frame);
    assert!(svg.starts_with(
        "<svg xmlns=\"http://www.w3.org/2000/svg\" width=\"16\" height=\"24\" viewBox=\"0 0 16 24\">\n"
    ));
    assert!(svg.contains("<rect width=\"100%\" height=\"100%\" fill=\"#101014\"/>\n"));
    assert!(svg.ends_with(
        "<text x=\"0\" y=\"10\" fill=\"rgb(220,220,220)\">a&apos;</text>\n</svg>\n"
    ));
}

#[test]
fn svg_keeps_runs_of_a_colour() {
    let red = (255, 0, 0);
    let frame = RenderFrame {
        chars: vec!["x".to_string(), "aabcd".to_string()],
        colors: Some(vec![vec![(1, 2, 3)], vec![red, red, (0, 0, 9), red]]),
    };
    let svg = render_frame_to_svg(&frame);
    let expected = "<text x=\"0\" y=\"10\" fill=\"rgb(1,2,3)\">x</text>\n\
        <text x=\"0\" y=\"22\" fill=\"rgb(255,0,0)\">aa</text>\n\
        <text x=\"16\" y=\"22\" fill=\"rgb(0,0,9)\">b</text>\n\
        <text x=\"24\" y=\"22\" fill=\"rgb(255,0,0)\">c</text>\n\
        <text x=\"32\" y=\"22\" fill=\"rgb(220,220,220)\">d</text>\n</svg>\n";
    assert!(svg.ends_with(expected));
    assert!(svg.contains("width=\"40\" height=\"24\""));
}

#[test]
fn svg_of_nothing() {
    let svg = render_frame_to_svg(&RenderFrame { chars: Vec::new(), colors: None });
    assert!(svg.contains("viewBox=\"0 0 0 0\""));
    assert!(!svg.contains("<text"));
}

#[test]
fn markup_is_safe_and_keeps_the_text() {
    let texts = ["", "a", "&", "&amp;", "&amp", "amp;", "<b>", "\"'", "x\ny"];
    for a in texts {
        let html = ansi_to_html(a);
        assert!(!html.contains('<') && !html.contains('>') && !html.contains('"'));
        for b in texts {
            assert_eq!(ansi_to_html(b) == html, a == b);
        }
    }
}

#[test]
fn brighter_levels_take_later_characters() {
    let ramp: Vec<char> = RAMP_LONG.chars().collect();
    assert!(RAMP_LONG.is_ascii());
    let places: Vec<usize> = build_lut(RAMP_LONG)
        .iter()
        .map(|c| ramp.iter().position(|r| r == c).unwrap())
        .collect();
    assert!(places.windows(2).all(|pair| pair[0] <= pair[1]));
}

#[test]
fn rendered_text_has_a_line_per_row() {
    let frame = pixels(5, 5);
    let lut = build_lut(RAMP_LONG);
    for rows in 1..8 {
        for mode in [ColorMode::TrueColor, ColorMode::Ansi256, ColorMode::Off] {
            let (picture, text) = render_frame(&frame, 4, rows, &lut, &same_tone(), mode);
            assert_eq!(split_lines(&text).len(), rows);
            assert_eq!(picture.chars.len(), rows);
        }
    }
}
