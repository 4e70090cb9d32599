//! Settings, presets, modes, ramps and the names of files.
use vstd::prelude::*;

use crate::capture::{fallback_failure, is_blank, name_is_blank, CaptureError};
use crate::cli::{detect_platform, ColorMode, Platform, Ramp, Resolution};
use crate::format::{Format, TcamError};
use crate::frame::Picture;
use crate::laws::numerals::{
    all_digits, lemma_heads_alike, lemma_numeral_stands_for_number, lemma_numerals_differ, value_of,
};
use crate::laws::shades::{lemma_luma_sum, lemma_palette_shows_nearest, thousandths};
use crate::names::{draw_number, html_name, photo_name, recording_name, svg_name};
use crate::recording::{preset, preset_at, same_config, RecordingConfig, PRESET_COUNT};
use crate::roundtrip::played;
use crate::text::decimal;

verus! {

/// The savings of the presets: `raw` has none, and every other skips frames,
/// numbers cells, stores times as distances and compresses tightly; `max` alone
/// stores palette colours; and all but `raw` and `greyscale` derive characters.
pub proof fn lemma_presets_save(name: Seq<char>, config: RecordingConfig)
    requires
        preset(name) == Some(config),
    ensures
        config.skip_identical <==> name != "raw"@,
        config.flat_indices <==> name != "raw"@,
        config.delta_timestamps <==> name != "raw"@,
        config.zlib_max <==> name != "raw"@,
        config.quantize_colors <==> name == "max"@,
        config.derive_chars <==> name != "raw"@ && name != "greyscale"@,
{
    lemma_preset_names_differ();
}

/// The colour modes of the presets: each has its own.
pub proof fn lemma_presets_color(name: Seq<char>, config: RecordingConfig)
    requires
        preset(name) == Some(config),
    ensures
        name == "raw"@ <==> config.color_mode == ColorMode::TrueColor,
        name == "max"@ <==> config.color_mode == ColorMode::Ansi256,
        name == "greyscale"@ <==> config.color_mode == ColorMode::Gray,
        name == "ascii"@ <==> config.color_mode == ColorMode::Off,
        name == "green"@ <==> config.color_mode == ColorMode::Green,
        name == "green_gray"@ <==> config.color_mode == ColorMode::GreenGray,
        name == "red"@ <==> config.color_mode == ColorMode::Red,
        name == "red_gray"@ <==> config.color_mode == ColorMode::RedGray,
        config.color_mode != ColorMode::Ansi16,
{
    lemma_preset_names_differ();
}

proof fn lemma_preset_names_differ()
    ensures
        "raw"@ != "max"@,
        "raw"@ != "greyscale"@,
        "raw"@ != "ascii"@,
        "raw"@ != "green"@,
        "raw"@ != "green_gray"@,
        "raw"@ != "red"@,
        "raw"@ != "red_gray"@,
        "max"@ != "greyscale"@,
        "max"@ != "ascii"@,
        "max"@ != "green"@,
        "max"@ != "green_gray"@,
        "max"@ != "red"@,
        "max"@ != "red_gray"@,
        "greyscale"@ != "ascii"@,
        "greyscale"@ != "green"@,
        "greyscale"@ != "green_gray"@,
        "greyscale"@ != "red"@,
        "greyscale"@ != "red_gray"@,
        "ascii"@ != "green"@,
        "ascii"@ != "green_gray"@,
        "ascii"@ != "red"@,
        "ascii"@ != "red_gray"@,
        "green"@ != "green_gray"@,
        "green"@ != "red"@,
        "green"@ != "red_gray"@,
        "green_gray"@ != "red"@,
        "green_gray"@ != "red_gray"@,
        "red"@ != "red_gray"@,
{
    reveal_strlit("raw");
    reveal_strlit("max");
    reveal_strlit("greyscale");
    reveal_strlit("ascii");
    reveal_strlit("green");
    reveal_strlit("green_gray");
    reveal_strlit("red");
    reveal_strlit("red_gray");
    assert("raw"@[1] == 'a' && "red"@[1] == 'e' && "raw"@.len() == 3 && "max"@.len() == 3);
    assert("raw"@[0] == 'r' && "max"@[0] == 'm');
    assert("greyscale"@.len() == 9 && "ascii"@.len() == 5 && "green"@.len() == 5);
    assert("ascii"@[0] == 'a' && "green"@[0] == 'g');
    assert("green_gray"@.len() == 10 && "red"@.len() == 3 && "red_gray"@.len() == 8);
    assert("red"@[0] == 'r');
}

/// The presets in the order in which they are cycled through.
pub proof fn lemma_presets_in_order(i: usize, r: &'static str)
    requires
        i < 8,
        call_ensures(preset_at, (i,), r),
    ensures
        PRESET_COUNT == 8,
        i == 0 <==> r@ == "raw"@,
        i == 1 <==> r@ == "max"@,
        i == 2 <==> r@ == "greyscale"@,
        i == 3 <==> r@ == "ascii"@,
        i == 4 <==> r@ == "green"@,
        i == 5 <==> r@ == "green_gray"@,
        i == 6 <==> r@ == "red"@,
        i == 7 <==> r@ == "red_gray"@,
        preset(r@) is Some,
{
    lemma_preset_names_differ();
}

/// Settings are known by the name of their preset exactly where they are one,
/// in every setting.
pub proof fn lemma_preset_is_recognised(
    config: RecordingConfig,
    r: Option<&'static str>,
    name: Seq<char>,
)
    requires
        call_ensures(RecordingConfig::preset_name, (&config,), r),
    ensures
        preset(name) == Some(config) ==> (r matches Some(found) && found@ == name),
        r matches Some(found) ==> preset(found@) == Some(config),
{
    if preset(name) == Some(config) {
        if let Some(found) = r {
            crate::recording::lemma_preset_determines_name(found@, name);
        }
    }
}

/// Settings agree where all of them agree.
pub proof fn lemma_same_settings(a: RecordingConfig, b: RecordingConfig, r: bool)
    requires
        call_ensures(same_config, (&a, &b), r),
    ensures
        r <==> a.skip_identical == b.skip_identical && a.quantize_colors == b.quantize_colors
            && a.derive_chars == b.derive_chars && a.flat_indices == b.flat_indices
            && a.delta_timestamps == b.delta_timestamps && a.zlib_max == b.zlib_max && a.color_mode
            == b.color_mode,
{
}

/// Settings start with every saving on, in true colour; those of old recordings
/// with none.
pub proof fn lemma_default_settings(full: RecordingConfig, plain: RecordingConfig)
    requires
        call_ensures(<RecordingConfig as Default>::default, (), full),
        call_ensures(RecordingConfig::v1_defaults, (), plain),
    ensures
        full.skip_identical && full.quantize_colors && full.derive_chars && full.flat_indices
            && full.delta_timestamps && full.zlib_max,
        full.color_mode == ColorMode::TrueColor,
        !plain.skip_identical && !plain.quantize_colors && !plain.derive_chars
            && !plain.flat_indices && !plain.delta_timestamps && !plain.zlib_max,
        plain.color_mode == ColorMode::TrueColor,
{
}

/// The modes follow each other from true colour over fewer colours, grey, green
/// and red to none, and from there to true colour.
pub proof fn lemma_modes_follow(mode: ColorMode, r: ColorMode)
    requires
        call_ensures(ColorMode::cycle, (mode,), r),
    ensures
        mode == ColorMode::TrueColor <==> r == ColorMode::Ansi256,
        mode == ColorMode::Ansi256 <==> r == ColorMode::Ansi16,
        mode == ColorMode::Ansi16 <==> r == ColorMode::Gray,
        mode == ColorMode::Gray <==> r == ColorMode::Green,
        mode == ColorMode::Green <==> r == ColorMode::GreenGray,
        mode == ColorMode::GreenGray <==> r == ColorMode::Red,
        mode == ColorMode::Red <==> r == ColorMode::RedGray,
        mode == ColorMode::RedGray <==> r == ColorMode::Off,
        mode == ColorMode::Off <==> r == ColorMode::TrueColor,
{
}

/// All modes have colours but the one without.
pub proof fn lemma_modes_color(mode: ColorMode, r: bool)
    requires
        call_ensures(ColorMode::is_color, (mode,), r),
    ensures
        r <==> mode != ColorMode::Off,
{
}

/// Each mode is known by its own name.
pub proof fn lemma_modes_have_names(mode: ColorMode, r: &'static str)
    requires
        call_ensures(ColorMode::label, (mode,), r),
    ensures
        mode == ColorMode::TrueColor ==> r@ == "24bit"@,
        mode == ColorMode::Ansi256 ==> r@ == "256c"@,
        mode == ColorMode::Ansi16 ==> r@ == "16c"@,
        mode == ColorMode::Gray ==> r@ == "Gray"@,
        mode == ColorMode::Green ==> r@ == "Green"@,
        mode == ColorMode::GreenGray ==> r@ == "GrnGr"@,
        mode == ColorMode::Red ==> r@ == "Red"@,
        mode == ColorMode::RedGray ==> r@ == "RedGr"@,
        mode == ColorMode::Off ==> r@ == "Off"@,
{
}

/// Resolutions grow: 320 by 240, twice that, and 1280 by 720.
pub proof fn lemma_resolutions(low: (usize, usize), medium: (usize, usize), high: (usize, usize))
    requires
        call_ensures(Resolution::size, (Resolution::Low,), low),
        call_ensures(Resolution::size, (Resolution::Medium,), medium),
        call_ensures(Resolution::size, (Resolution::High,), high),
    ensures
        low == (320usize, 240usize),
        medium.0 == 2 * low.0 && medium.1 == 2 * low.1,
        high.0 == 2 * medium.0 && 2 * high.1 == 3 * medium.1,
{
}

/// The ramps go from the darkest character, a blank, to the brightest: the short
/// one over ten characters, the long one over sixty-nine.
pub proof fn lemma_ramps_go_from_dark_to_bright(short: &'static str, long: &'static str)
    requires
        call_ensures(Ramp::text, (Ramp::Short,), short),
        call_ensures(Ramp::text, (Ramp::Long,), long),
    ensures
        short@ == seq![' ', '.', ':', '-', '=', '+', '*', '#', '%', '@'],
        long@.len() == 69,
        long@[0] == ' ',
        long@[1] == '.',
        long@[67] == '@',
        long@[68] == '$',
{
    reveal_strlit(
        " .'`^\",:;Il!i><~+_-?][}{1)(|/tfjrxnuvczXYUJCLQ0OZmwqpdbkhao*#MW&8%B@$",
    );
    reveal_strlit(" .:-=+*#%@");
    assert(short@ =~= seq![' ', '.', ':', '-', '=', '+', '*', '#', '%', '@']);
}

/// The platform is macOS where the program was built for it, else Termux where
/// either of its marks is found, else Linux.
pub proof fn lemma_platform_is_detected(
    macos: bool,
    version: bool,
    directory: bool,
    r: Platform,
)
    requires
        call_ensures(detect_platform, (macos, version, directory), r),
    ensures
        r == Platform::Macos <==> macos,
        r == Platform::Termux <==> !macos && (version || directory),
        r == Platform::Linux <==> !macos && !version && !directory,
{
}

/// Whether a text is a numeral between two others.
pub open spec fn is_numbered(text: Seq<char>, before: Seq<char>, n: int, after: Seq<char>) -> bool {
    exists|digits: Seq<char>|
        all_digits(digits) && digits.len() > 0 && value_of(digits) == n && #[trigger] (before + digits
            + after) == text
}

/// Files are named by what they hold and by their number.
pub proof fn lemma_files_are_named(number: u32, recording: String, html: String, svg: String)
    requires
        call_ensures(recording_name, (number,), recording),
        call_ensures(html_name, (number,), html),
        call_ensures(svg_name, (number,), svg),
    ensures
        is_numbered(recording@, "recording_"@, number as int, ".tcam"@),
        is_numbered(html@, "capture_"@, number as int, ".html"@),
        is_numbered(svg@, "capture_"@, number as int, ".svg"@),
{
    lemma_numeral_stands_for_number(number as nat);
    let d = decimal(number as nat);
    assert("recording_"@ + d + ".tcam"@ == recording@);
    assert("capture_"@ + d + ".html"@ == html@);
    assert("capture_"@ + d + ".svg"@ == svg@);
}

/// A photo is named by the process and by its number.
pub proof fn lemma_photos_are_named(process: u32, number: u32, r: String)
    requires
        call_ensures(photo_name, (process, number), r),
    ensures
        r@ == "rustercam_"@ + decimal(process as nat) + "_"@ + decimal(number as nat) + ".jpg"@,
{
}

/// Recordings of different numbers have different names.
pub proof fn lemma_names_differ(a: u32, b: u32, r: String, q: String)
    requires
        call_ensures(recording_name, (a,), r),
        call_ensures(recording_name, (b,), q),
        r@ == q@,
    ensures
        a == b,
{
    let x = decimal(a as nat);
    let y = decimal(b as nat);
    let end = ".tcam"@;
    assert(r@.len() == "recording_"@.len() + x.len() + end.len());
    assert("recording_"@ + x + end =~= "recording_"@ + (x + end));
    assert("recording_"@ + y + end =~= "recording_"@ + (y + end));
    lemma_heads_alike("recording_"@, x + end, "recording_"@, y + end);
    lemma_heads_alike(x, end, y, end);
    lemma_numerals_differ(a as nat, b as nat);
}

/// What playback shows of a picture whose colours are stored by palette: in each
/// channel the multiple of 51 nearest to what was recorded; whose colours are
/// stored as they are, those.
pub proof fn lemma_played_colors_are_near(
    format: Format,
    lut: Seq<char>,
    picture: Picture,
    x: int,
    y: int,
)
    requires
        format.color,
        picture.colors matches Some(rows) && 0 <= y < rows.len() && 0 <= x < rows[y].len(),
    ensures
        ({
            let c = picture.colors->0[y][x];
            let shown = played(format, lut, picture);
            let p = shown.colors->0[y][x];
            &&& shown.colors is Some
            &&& shown.colors->0.len() == picture.colors->0.len()
            &&& shown.colors->0[y].len() == picture.colors->0[y].len()
            &&& !format.config.quantize_colors ==> p == c
            &&& format.config.quantize_colors ==> p.0 % 51 == 0 && p.1 % 51 == 0 && p.2 % 51 == 0
                && -25 <= p.0 - c.0 <= 25 && -25 <= p.1 - c.1 <= 25 && -25 <= p.2 - c.2 <= 25
            &&& !format.config.derive_chars ==> shown.chars == picture.chars
            &&& format.config.derive_chars ==> exists|k: int|
                0 <= k <= 255 && #[trigger] (1000 * k) <= thousandths(p) <= 1000 * k + 1000
                    && shown.chars[y][x] == lut[k]
        }),
{
    let c = picture.colors->0[y][x];
    lemma_palette_shows_nearest(c);
    let shown = played(format, lut, picture);
    let p = shown.colors->0[y][x];
    lemma_luma_sum(p);
    let k = crate::luma::luma_of(p.0, p.1, p.2) as int;
    assert(1000 * k <= thousandths(p) <= 1000 * k + 1000);
    if format.config.derive_chars {
        assert(shown.chars[y][x] == lut[k]);
    }
}

/// Without colours, playback shows the characters as they were and no colours.
pub proof fn lemma_played_without_colors(format: Format, lut: Seq<char>, picture: Picture)
    requires
        !format.color || picture.colors is None,
    ensures
        played(format, lut, picture).chars == picture.chars,
        played(format, lut, picture).colors is None,
{
}

/// What is said of a recording that cannot be read: each error has its own
/// message, with its figures in it.
pub proof fn lemma_errors_are_told(version: u8, at: usize, size: usize, a: String, b: String, c: String)
    requires
        call_ensures(TcamError::message, (TcamError::UnsupportedVersion(version),), a),
        call_ensures(TcamError::message, (TcamError::BadRamp(at, Some(size)),), b),
        call_ensures(TcamError::message, (TcamError::BadRamp(at, None),), c),
    ensures
        is_numbered(a@, "unsupported .tcam version "@, version as int, Seq::empty()),
        is_numbered(
            b@,
            "invalid utf-8 sequence of "@ + decimal(size as nat) + " bytes from index "@,
            at as int,
            Seq::empty(),
        ),
        is_numbered(c@, "incomplete utf-8 byte sequence from index "@, at as int, Seq::empty()),
{
    lemma_numeral_stands_for_number(version as nat);
    lemma_numeral_stands_for_number(at as nat);
    let none = Seq::<char>::empty();
    let v = decimal(version as nat);
    let i = decimal(at as nat);
    assert("unsupported .tcam version "@ + v + none =~= a@);
    assert("invalid utf-8 sequence of "@ + decimal(size as nat) + " bytes from index "@ + i + none
        =~= b@);
    assert("incomplete utf-8 byte sequence from index "@ + i + none =~= c@);
}

/// File names have numbers of six digits.
pub proof fn lemma_numbers_have_six_digits(r: u32)
    requires
        call_ensures(draw_number, (), r),
    ensures
        100000 <= r <= 999999,
{
}

/// What is said where a recording cannot be written or read.
pub proof fn lemma_errors_are_worded(e: TcamError, r: String)
    requires
        call_ensures(TcamError::message, (e,), r),
    ensures
        e == TcamError::NotTcam ==> r@ == "not a .tcam file"@,
        e == TcamError::UnexpectedEnd ==> r@ == "failed to fill whole buffer"@,
        e == TcamError::BadStream || e == TcamError::CannotCompress ==> r@
            == "corrupt deflate stream"@,
        e == TcamError::BrokenStream ==> r@ == "incomplete deflate stream"@,
        e == TcamError::CannotFinish ==> r@ == "deflate compression error"@,
        e == TcamError::MissingPrevious ==> r@ == "missing previous chars"@,
{
}

/// What is said where a camera gives no frame, or does not start.
pub proof fn lemma_camera_errors_are_worded(
    e: CaptureError,
    r: &'static str,
    native: &str,
    both: String,
)
    requires
        call_ensures(CaptureError::message, (e,), r),
        call_ensures(fallback_failure, (native,), both),
    ensures
        e == CaptureError::PhotoFailed ==> r@ == "termux-camera-photo failed"@,
        e == CaptureError::DecodeFailed ==> r@ == "ffmpeg failed to decode Termux camera frame"@,
        e == CaptureError::BadLength ==> r@ == "decoded Termux frame has unexpected byte length"@,
        both@ == "native camera backend failed first: "@ + native@
            + "; ffmpeg fallback also failed"@,
{
}

/// A name is blank where it has nothing but blanks, breaks and other white
/// space; a letter, a digit or a mark makes it a name.
pub proof fn lemma_blank_names(name: &str, r: bool, i: int)
    requires
        call_ensures(name_is_blank, (name,), r),
    ensures
        (forall|k: int|
            0 <= k < name@.len() ==> #[trigger] name@[k] == ' ' || name@[k] == '\t' || name@[k] == '\n'
                || name@[k] == '\r' || name@[k] == '\u{a0}' || name@[k] == '\u{3000}') ==> r,
        0 <= i < name@.len() && ('!' <= name@[i] <= '~' || '\u{a1}' <= name@[i] <= '\u{167f}'
            || name@[i] > '\u{3000}') ==> !r,
{
    if 0 <= i < name@.len() && ('!' <= name@[i] <= '~' || '\u{a1}' <= name@[i] <= '\u{167f}'
        || name@[i] > '\u{3000}') {
        assert(!is_blank(name@[i]));
    }
}

/// Each platform is known by its own name.
pub proof fn lemma_platforms_have_names(platform: Platform, r: &'static str)
    requires
        call_ensures(Platform::name, (platform,), r),
    ensures
        platform == Platform::Auto ==> r@ == "Auto"@,
        platform == Platform::Macos ==> r@ == "Macos"@,
        platform == Platform::Linux ==> r@ == "Linux"@,
        platform == Platform::Termux ==> r@ == "Termux"@,
{
}

} // verus!
