//! What the terminal shows: the picture with its status lines, and the pages
//! that cover it.
use vstd::prelude::*;

use crate::cli::{Platform, HUD_LINES};
use crate::color::ansi_code;
use crate::export::{joined, lemma_ansi_code_is_code};
use crate::frame::text_rows;
use crate::recording::{lemma_preset_determines_name, preset, RecordingConfig};
use crate::render::{letters_of, Scene};
use crate::text::{decimal, push_decimal, push_repeated, repeated};

verus! {

/// The number of cells of a bar.
pub const BAR_WIDTH: usize = 12;

/// What the status lines show. Figures that are not whole numbers come as
/// text.
pub struct HudState {
    pub recording: bool,
    pub preset: String,
    pub color_mode_label: String,
    /// The contrast as text.
    pub contrast: String,
    /// The filled cells of the contrast bar.
    pub contrast_filled: usize,
    pub brightness: i16,
    pub camera_status: String,
    pub invert: bool,
    pub rotation_degrees: u16,
}

/// The columns and rows for the picture in a terminal of a size; at least one
/// of each, and as many rows less than the terminal as the status lines take.
pub open spec fn canvas_of(size: Option<(u16, u16)>) -> (u16, u16) {
    match size {
        Some((w, h)) => (
            if w >= 1 {
                w
            } else {
                1
            },
            if h >= HUD_LINES + 1 {
                (h - HUD_LINES) as u16
            } else {
                1
            },
        ),
        None => (80, 21),
    }
}

/// The columns and rows for the picture in a terminal of a size, where that is
/// known.
pub fn terminal_canvas_size(size: Option<(u16, u16)>) -> (r: (u16, u16))
    ensures
        r == canvas_of(size),
        r.0 >= 1,
        r.1 >= 1,
{
    match size {
        Some((w, h)) => {
            let cols: u16 = if w >= 1 {
                w
            } else {
                1
            };
            let rows: u16 = if h >= HUD_LINES + 1 {
                h - HUD_LINES
            } else {
                1
            };
            (cols, rows)
        },
        None => (80, 21),
    }
}

/// How long frames are counted, in milliseconds, before their rate is shown.
pub const RATE_WINDOW_MS: u128 = 500;

/// What is handed over once one frame more has been counted, a time after the
/// count was started, and what is left of the count.
pub open spec fn counted(frames: usize, elapsed_ms: u128) -> (Option<usize>, usize) {
    if elapsed_ms >= RATE_WINDOW_MS {
        (Some((frames + 1) as usize), 0)
    } else {
        (None, (frames + 1) as usize)
    }
}

/// Counts frames for the rate that the status line shows.
pub struct FrameCounter {
    pub frames: usize,
}

impl FrameCounter {
    /// Starts to count.
    pub fn new() -> (r: Self)
        ensures
            r.frames == 0,
    {
        FrameCounter { frames: 0 }
    }

    /// Counts a frame, a time after the count was started; hands over the
    /// count and starts anew where the time is long enough.
    pub fn count(&mut self, elapsed_ms: u128) -> (r: Option<usize>)
        requires
            old(self).frames < usize::MAX,
        ensures
            (r, final(self).frames) == counted(old(self).frames, elapsed_ms),
    {
        self.frames += 1;
        if elapsed_ms >= RATE_WINDOW_MS {
            let counted: usize = self.frames;
            self.frames = 0;
            Some(counted)
        } else {
            None
        }
    }
}

/// The lines of a text: what stands between its line breaks.
pub open spec fn lines_of(text: Seq<char>) -> Seq<Seq<char>>
    decreases text.len(),
{
    if text.len() == 0 {
        seq![Seq::empty()]
    } else {
        let before = lines_of(text.drop_last());
        if text.last() == '\n' {
            before.push(Seq::empty())
        } else {
            before.drop_last().push(before.last().push(text.last()))
        }
    }
}

proof fn lemma_some_line(text: Seq<char>)
    ensures
        lines_of(text).len() >= 1,
    decreases text.len(),
{
    if text.len() > 0 {
        lemma_some_line(text.drop_last());
    }
}

/// Splits a text into its lines.
pub fn split_lines(text: &str) -> (r: Vec<String>)
    ensures
        text_rows(r@) == lines_of(text@),
        r@.len() >= 1,
{
    let letters = letters_of(text);
    let mut lines: Vec<String> = Vec::new();
    let mut line = String::new();
    let mut i: usize = 0;
    assert(text@.take(0) =~= Seq::<char>::empty());
    assert(text_rows(lines@).push(line@) =~= lines_of(text@.take(0)));
    while i < letters.len()
        invariant
            i <= letters.len(),
            letters@ == text@,
            text_rows(lines@).push(line@) == lines_of(text@.take(i as int)),
        decreases letters.len() - i,
    {
        let c: char = letters[i];
        proof {
            assert(text@.take(i + 1).drop_last() =~= text@.take(i as int));
            assert(text_rows(lines@).push(line@).drop_last() =~= text_rows(lines@));
        }
        if c == '\n' {
            let ghost before = text_rows(lines@).push(line@);
            lines.push(line);
            line = String::new();
            assert(text_rows(lines@) =~= before);
            assert(line@ =~= Seq::<char>::empty());
        } else {
            line.push(c);
        }
        i += 1;
    }
    assert(text@.take(i as int) =~= text@);
    let ghost all = text_rows(lines@).push(line@);
    lines.push(line);
    assert(text_rows(lines@) =~= all);
    lines
}

/// The first `n` lines on the screen, each after `pad` blanks.
pub open spec fn shown_lines(lines: Seq<Seq<char>>, pad: nat, n: nat) -> Seq<char>
    decreases n,
{
    if n == 0 {
        Seq::empty()
    } else {
        shown_lines(lines, pad, (n - 1) as nat) + repeated(' ', pad) + lines[n - 1] + "\x1b[K\n"@
    }
}

/// `n` blank lines on the screen.
pub open spec fn blank_lines(cols: nat, n: nat) -> Seq<char>
    decreases n,
{
    if n == 0 {
        Seq::empty()
    } else {
        blank_lines(cols, (n - 1) as nat) + repeated(' ', cols) + "\x1b[K\n"@
    }
}

/// A bar with some of its cells filled.
pub open spec fn bar(filled: usize, width: usize) -> Seq<char> {
    repeated('█', filled as nat) + repeated(
        '░',
        if filled < width {
            (width - filled) as nat
        } else {
            0
        },
    )
}

/// Appends a bar with some of its cells filled.
fn make_bar(out: &mut String, filled: usize, width: usize)
    ensures
        final(out)@ == old(out)@ + bar(filled, width),
{
    push_repeated(out, '█', filled);
    let empty: usize = if filled < width {
        width - filled
    } else {
        0
    };
    push_repeated(out, '░', empty);
    assert(out@ =~= old(out)@ + bar(filled, width));
}

/// The filled cells of the brightness bar: the part of the way from -100 to
/// 100.
pub open spec fn brightness_cells(brightness: i16) -> int {
    if brightness <= -100 {
        0
    } else if brightness >= 100 {
        BAR_WIDTH as int
    } else {
        (brightness + 100) * BAR_WIDTH / 200
    }
}

/// The filled cells of the brightness bar.
pub fn brightness_filled(brightness: i16) -> (r: usize)
    ensures
        r == brightness_cells(brightness),
        r <= BAR_WIDTH,
{
    if brightness <= -100 {
        0
    } else if brightness >= 100 {
        BAR_WIDTH
    } else {
        let part: usize = (brightness + 100) as usize;
        part * BAR_WIDTH / 200
    }
}

/// A number with its sign.
pub open spec fn signed(n: i16) -> Seq<char> {
    if n < 0 {
        "-"@ + decimal((-n) as nat)
    } else {
        "+"@ + decimal(n as nat)
    }
}

/// A text with blanks before it, up to a width.
pub open spec fn right_aligned(text: Seq<char>, width: nat) -> Seq<char> {
    repeated(
        ' ',
        if text.len() < width {
            (width - text.len()) as nat
        } else {
            0
        },
    ) + text
}

/// Appends a number with its sign, with blanks before it up to four
/// characters.
fn push_signed(out: &mut String, n: i16)
    ensures
        final(out)@ == old(out)@ + right_aligned(signed(n), 4),
{
    let mut number = String::new();
    if n < 0 {
        number.append("-");
        assert(number@ =~= "-"@);
        push_decimal(&mut number, (-(n as i64)) as u64);
    } else {
        number.append("+");
        assert(number@ =~= "+"@);
        push_decimal(&mut number, n as u64);
    }
    let size: usize = number.as_str().unicode_len();
    let fill: usize = if size < 4 {
        4 - size
    } else {
        0
    };
    push_repeated(out, ' ', fill);
    out.append(number.as_str());
    assert(out@ =~= old(out)@ + right_aligned(signed(n), 4));
}

/// The line with the program's name and what it does.
pub open spec fn status_line(
    render_cols: u16,
    render_rows: u16,
    fps: Seq<char>,
    backend: Seq<char>,
    hud: HudState,
) -> Seq<char> {
    "\x1b[7m RUSTERCAM | "@ + backend + " | "@ + fps + " fps | "@ + decimal(render_cols as nat)
        + "(W) x "@ + decimal(render_rows as nat) + "(H) | "@ + hud.color_mode_label@ + " ("@
        + hud.preset@ + ")"@ + (if hud.recording {
        "  \x1b[31mREC\x1b[0m"@
    } else {
        ""@
    }) + " \x1b[0m\x1b[K\n"@
}

/// The line with the contrast, the brightness and the camera.
pub open spec fn levels_line(hud: HudState) -> Seq<char> {
    " ↑/↓ Contrast "@ + bar(hud.contrast_filled, BAR_WIDTH) + " "@ + hud.contrast@
        + "  │  ←/→ Bright   "@ + bar(brightness_cells(hud.brightness) as usize, BAR_WIDTH) + " "@
        + right_aligned(signed(hud.brightness), 4) + "  │  Cam "@ + hud.camera_status@ + "\x1b[K\n"@
}

/// The line with the keys.
pub open spec fn keys_line(hud: HudState) -> Seq<char> {
    " 1 invert:"@ + (if hud.invert {
        "on"@
    } else {
        "off"@
    }) + "  2 rot:"@ + decimal(hud.rotation_degrees as nat)
        + "  3 rec  4 capture  5 preset  c camera  s settings  h help  q quit\x1b[K"@
}

/// The screen with a picture: its lines in the middle of the columns, blank
/// lines below them, and the status lines.
pub open spec fn screen_of(
    canvas: (u16, u16),
    ascii: Seq<char>,
    render_cols: u16,
    render_rows: u16,
    fps: Seq<char>,
    backend: Seq<char>,
    hud: HudState,
) -> Seq<char> {
    let lines = lines_of(ascii);
    let pad = if canvas.0 > render_cols {
        (canvas.0 - render_cols) / 2
    } else {
        0
    };
    let below = if lines.len() < canvas.1 {
        (canvas.1 - lines.len()) as nat
    } else {
        0
    };
    "\x1b[H"@ + shown_lines(lines, pad as nat, lines.len()) + blank_lines(canvas.0 as nat, below)
        + status_line(render_cols, render_rows, fps, backend, hud) + levels_line(hud) + keys_line(hud)
}

fn push_status_line(
    out: &mut String,
    render_cols: u16,
    render_rows: u16,
    fps: &str,
    backend: &str,
    hud: &HudState,
)
    ensures
        final(out)@ == old(out)@ + status_line(render_cols, render_rows, fps@, backend@, *hud),
{
    let mut line = String::new();
    line.append("\x1b[7m RUSTERCAM | ");
    assert(line@ =~= "\x1b[7m RUSTERCAM | "@);
    line.append(backend);
    line.append(" | ");
    line.append(fps);
    line.append(" fps | ");
    push_decimal(&mut line, render_cols as u64);
    line.append("(W) x ");
    push_decimal(&mut line, render_rows as u64);
    line.append("(H) | ");
    line.append(hud.color_mode_label.as_str());
    line.append(" (");
    line.append(hud.preset.as_str());
    line.append(")");
    if hud.recording {
        line.append("  \x1b[31mREC\x1b[0m");
    } else {
        line.append("");
    }
    line.append(" \x1b[0m\x1b[K\n");
    out.append(line.as_str());
}

fn push_levels_line(out: &mut String, hud: &HudState)
    ensures
        final(out)@ == old(out)@ + levels_line(*hud),
{
    let mut line = String::new();
    line.append(" ↑/↓ Contrast ");
    assert(line@ =~= " ↑/↓ Contrast "@);
    make_bar(&mut line, hud.contrast_filled, BAR_WIDTH);
    line.append(" ");
    line.append(hud.contrast.as_str());
    line.append("  │  ←/→ Bright   ");
    make_bar(&mut line, brightness_filled(hud.brightness), BAR_WIDTH);
    line.append(" ");
    push_signed(&mut line, hud.brightness);
    line.append("  │  Cam ");
    line.append(hud.camera_status.as_str());
    line.append("\x1b[K\n");
    out.append(line.as_str());
}

fn push_keys_line(out: &mut String, hud: &HudState)
    ensures
        final(out)@ == old(out)@ + keys_line(*hud),
{
    let mut line = String::new();
    line.append(" 1 invert:");
    assert(line@ =~= " 1 invert:"@);
    line.append(
        if hud.invert {
            "on"
        } else {
            "off"
        },
    );
    line.append("  2 rot:");
    push_decimal(&mut line, hud.rotation_degrees as u64);
    line.append("  3 rec  4 capture  5 preset  c camera  s settings  h help  q quit\x1b[K");
    out.append(line.as_str());
}

/// The screen with a picture, for a terminal of a size, where that is known.
pub fn draw_screen(
    size: Option<(u16, u16)>,
    ascii: &str,
    render_cols: u16,
    render_rows: u16,
    fps: &str,
    backend: &str,
    hud: &HudState,
) -> (r: String)
    requires
        lines_of(ascii@).len() <= u16::MAX,
    ensures
        r@ == screen_of(
            canvas_of(size),
            ascii@,
            render_cols,
            render_rows,
            fps@,
            backend@,
            *hud,
        ),
{
    let (cols, rows): (u16, u16) = terminal_canvas_size(size);
    let pad: u16 = if cols > render_cols {
        (cols - render_cols) / 2
    } else {
        0
    };
    let lines = split_lines(ascii);
    let mut out = String::new();
    out.append("\x1b[H");
    assert(out@ =~= "\x1b[H"@);
    let ghost head = out@;
    let mut y: usize = 0;
    assert(out@ =~= head + shown_lines(lines_of(ascii@), pad as nat, 0));
    while y < lines.len()
        invariant
            y <= lines.len(),
            text_rows(lines@) == lines_of(ascii@),
            out@ == head + shown_lines(lines_of(ascii@), pad as nat, y as nat),
        decreases lines.len() - y,
    {
        push_repeated(&mut out, ' ', pad as usize);
        assert(lines@[y as int]@ == text_rows(lines@)[y as int]);
        out.append(lines[y].as_str());
        out.append("\x1b[K\n");
        y += 1;
        assert(out@ =~= head + shown_lines(lines_of(ascii@), pad as nat, y as nat));
    }
    let below: u16 = if lines.len() < rows as usize {
        rows - lines.len() as u16
    } else {
        0
    };
    let ghost above = out@;
    let mut k: u16 = 0;
    assert(out@ =~= above + blank_lines(cols as nat, 0));
    while k < below
        invariant
            k <= below,
            out@ == above + blank_lines(cols as nat, k as nat),
        decreases below - k,
    {
        push_repeated(&mut out, ' ', cols as usize);
        out.append("\x1b[K\n");
        k += 1;
        assert(out@ =~= above + blank_lines(cols as nat, k as nat));
    }
    push_status_line(&mut out, render_cols, render_rows, fps, backend, hud);
    push_levels_line(&mut out, hud);
    push_keys_line(&mut out, hud);
    out
}

/// A text cut to a number of characters.
pub open spec fn cut_to(text: Seq<char>, max: nat) -> Seq<char> {
    if text.len() > max {
        text.take(max as int)
    } else {
        text
    }
}

/// A text with blanks after it, up to a width.
pub open spec fn left_aligned(text: Seq<char>, width: nat) -> Seq<char> {
    text + repeated(
        ' ',
        if text.len() < width {
            (width - text.len()) as nat
        } else {
            0
        },
    )
}

/// Cuts a text to a number of characters.
pub fn truncate(s: &str, max: usize) -> (r: String)
    ensures
        r@ == cut_to(s@, max as nat),
{
    let letters = letters_of(s);
    let n: usize = if letters.len() > max {
        max
    } else {
        letters.len()
    };
    let mut out = String::new();
    let mut i: usize = 0;
    assert(out@ =~= s@.take(0));
    while i < n
        invariant
            i <= n,
            n <= letters.len(),
            letters@ == s@,
            out@ == s@.take(i as int),
        decreases n - i,
    {
        out.push(letters[i]);
        i += 1;
        assert(out@ =~= s@.take(i as int));
    }
    assert(s@.take(s@.len() as int) =~= s@);
    out
}

/// The line of a page with a number; an empty one after the last.
pub open spec fn page_line(lines: Seq<Seq<char>>, y: int) -> Seq<char> {
    if y < lines.len() {
        lines[y]
    } else {
        ""@
    }
}

/// The first `n` lines of a page that covers the screen.
pub open spec fn page_lines(lines: Seq<Seq<char>>, cols: nat, n: nat) -> Seq<char>
    decreases n,
{
    if n == 0 {
        Seq::empty()
    } else {
        page_lines(lines, cols, (n - 1) as nat) + "\x1b[7m"@ + left_aligned(
            cut_to(page_line(lines, n - 1), cols),
            cols,
        ) + "\x1b[0m\x1b[K\n"@
    }
}

/// The size of a page in a terminal of a size.
pub open spec fn page_size(size: Option<(u16, u16)>) -> (u16, u16) {
    match size {
        Some(known) => known,
        None => (80, 24),
    }
}

/// The screen with a page: each of its lines as wide as the terminal, and as
/// many as the terminal has rows.
pub open spec fn overlay_of(size: Option<(u16, u16)>, lines: Seq<Seq<char>>) -> Seq<char> {
    let (cols, rows) = page_size(size);
    "\x1b[H"@ + page_lines(lines, cols as nat, rows as nat)
}

/// The screen with a page, for a terminal of a size, where that is known.
pub fn draw_overlay(size: Option<(u16, u16)>, lines: &Vec<String>) -> (r: String)
    ensures
        r@ == overlay_of(size, text_rows(lines@)),
{
    let (cols, rows): (u16, u16) = match size {
        Some(known) => known,
        None => (80, 24),
    };
    let ghost texts = text_rows(lines@);
    let mut out = String::new();
    out.append("\x1b[H");
    assert(out@ =~= "\x1b[H"@ + page_lines(texts, cols as nat, 0));
    let mut y: u16 = 0;
    while y < rows
        invariant
            y <= rows,
            texts == text_rows(lines@),
            out@ == "\x1b[H"@ + page_lines(texts, cols as nat, y as nat),
        decreases rows - y,
    {
        let text = if (y as usize) < lines.len() {
            truncate(lines[y as usize].as_str(), cols as usize)
        } else {
            truncate("", cols as usize)
        };
        let size: usize = text.as_str().unicode_len();
        let fill: usize = if size < cols as usize {
            cols as usize - size
        } else {
            0
        };
        assert(text@ == cut_to(page_line(texts, y as int), cols as nat));
        out.append("\x1b[7m");
        out.append(text.as_str());
        push_repeated(&mut out, ' ', fill);
        out.append("\x1b[0m\x1b[K\n");
        y += 1;
        assert(out@ =~= "\x1b[H"@ + page_lines(texts, cols as nat, y as nat));
    }
    out
}

/// The page of keys.
pub open spec fn help_lines(platform: Platform) -> Seq<Seq<char>> {
    seq![
        ""@,
        "  RUSTERCAM - KEYBOARD CONTROLS"@,
        "  --------------------------------"@,
        ""@,
        "  1         Toggle invert"@,
        "  2         Cycle rotation"@,
        "  3         Start / stop recording"@,
        "  4         Capture screenshot"@,
        "  Shift-H   Capture HTML screenshot"@,
        "  5         Cycle preset"@,
        "  c         Cycle camera device"@,
        "  Up/Down   Contrast"@,
        "  Left/Right Brightness"@,
        "  s         Settings"@,
        "  h         Close help"@,
        "  q         Quit"@,
        ""@,
        "  Platform: "@ + platform.title(),
    ]
}

/// A line made of two texts.
fn pair_line(label: &str, value: &str) -> (r: String)
    ensures
        r@ == label@ + value@,
{
    let mut out = String::new();
    out.append(label);
    out.append(value);
    assert(out@ =~= label@ + value@);
    out
}

/// Adds a line to a page.
fn push_line(lines: &mut Vec<String>, line: &str)
    ensures
        text_rows(final(lines)@) == text_rows(old(lines)@).push(line@),
{
    lines.push(pair_line("", line));
    proof {
        reveal_strlit("");
        assert(""@ + line@ =~= line@);
        assert(text_rows(lines@) =~= text_rows(old(lines)@).push(line@));
    }
}

/// Adds a line made of two texts to a page.
fn push_pair(lines: &mut Vec<String>, label: &str, value: &str)
    ensures
        text_rows(final(lines)@) == text_rows(old(lines)@).push(label@ + value@),
{
    lines.push(pair_line(label, value));
    assert(text_rows(lines@) =~= text_rows(old(lines)@).push(label@ + value@));
}

/// The page of keys.
pub fn help_text(platform: Platform) -> (r: Vec<String>)
    ensures
        text_rows(r@) == help_lines(platform),
{
    let mut lines: Vec<String> = Vec::new();
    assert(text_rows(lines@) =~= Seq::empty());
    push_line(&mut lines, "");
    push_line(&mut lines, "  RUSTERCAM - KEYBOARD CONTROLS");
    push_line(&mut lines, "  --------------------------------");
    push_line(&mut lines, "");
    push_line(&mut lines, "  1         Toggle invert");
    push_line(&mut lines, "  2         Cycle rotation");
    push_line(&mut lines, "  3         Start / stop recording");
    push_line(&mut lines, "  4         Capture screenshot");
    push_line(&mut lines, "  Shift-H   Capture HTML screenshot");
    push_line(&mut lines, "  5         Cycle preset");
    push_line(&mut lines, "  c         Cycle camera device");
    push_line(&mut lines, "  Up/Down   Contrast");
    push_line(&mut lines, "  Left/Right Brightness");
    push_line(&mut lines, "  s         Settings");
    push_line(&mut lines, "  h         Close help");
    push_line(&mut lines, "  q         Quit");
    push_line(&mut lines, "");
    push_pair(&mut lines, "  Platform: ", platform.name());
    assert(text_rows(lines@) =~= help_lines(platform));
    lines
}

/// A truth value in words.
pub open spec fn truth(b: bool) -> Seq<char> {
    if b {
        "true"@
    } else {
        "false"@
    }
}

fn truth_word(b: bool) -> (r: &'static str)
    ensures
        r@ == truth(b),
{
    if b {
        "true"
    } else {
        "false"
    }
}

/// The name of the preset that settings are, or `custom`.
pub open spec fn preset_words(cfg: RecordingConfig) -> Seq<char> {
    if exists|name: Seq<char>| #[trigger] preset(name) == Some(cfg) {
        choose|name: Seq<char>| #[trigger] preset(name) == Some(cfg)
    } else {
        "custom"@
    }
}

/// The name of the preset that settings are, or `custom`.
pub fn preset_label(cfg: &RecordingConfig) -> (r: &'static str)
    ensures
        r@ == preset_words(*cfg),
{
    match cfg.preset_name() {
        Some(name) => {
            proof {
                let chosen = choose|n: Seq<char>| #[trigger] preset(n) == Some(*cfg);
                lemma_preset_determines_name(name@, chosen);
            }
            name
        },
        None => "custom",
    }
}

/// The page of settings.
pub open spec fn settings_lines(cfg: RecordingConfig) -> Seq<Seq<char>> {
    seq![
        ""@,
        "  RUSTERCAM - SETTINGS"@,
        "  ---------------------"@,
        "  Preset: "@ + preset_words(cfg),
        "  Color: "@ + cfg.color_mode.title(),
        "  Skip identical: "@ + truth(cfg.skip_identical),
        "  Quantize colors: "@ + truth(cfg.quantize_colors),
        "  Derive chars: "@ + truth(cfg.derive_chars),
        "  Flat indices: "@ + truth(cfg.flat_indices),
        "  Delta timestamps: "@ + truth(cfg.delta_timestamps),
        "  Zlib max: "@ + truth(cfg.zlib_max),
        ""@,
        "  7 cycles color mode; s closes"@,
    ]
}

/// The page of settings.
pub fn settings_text(cfg: &RecordingConfig) -> (r: Vec<String>)
    ensures
        text_rows(r@) == settings_lines(*cfg),
{
    let mut lines: Vec<String> = Vec::new();
    assert(text_rows(lines@) =~= Seq::empty());
    push_line(&mut lines, "");
    push_line(&mut lines, "  RUSTERCAM - SETTINGS");
    push_line(&mut lines, "  ---------------------");
    push_pair(&mut lines, "  Preset: ", preset_label(cfg));
    push_pair(&mut lines, "  Color: ", cfg.color_mode.label());
    push_pair(&mut lines, "  Skip identical: ", truth_word(cfg.skip_identical));
    push_pair(&mut lines, "  Quantize colors: ", truth_word(cfg.quantize_colors));
    push_pair(&mut lines, "  Derive chars: ", truth_word(cfg.derive_chars));
    push_pair(&mut lines, "  Flat indices: ", truth_word(cfg.flat_indices));
    push_pair(&mut lines, "  Delta timestamps: ", truth_word(cfg.delta_timestamps));
    push_pair(&mut lines, "  Zlib max: ", truth_word(cfg.zlib_max));
    push_line(&mut lines, "");
    push_line(&mut lines, "  7 cycles color mode; s closes");
    assert(text_rows(lines@) =~= settings_lines(*cfg));
    lines
}

/// The lines of a text, joined, are the text.
pub proof fn lemma_lines_join(text: Seq<char>)
    ensures
        joined(lines_of(text), lines_of(text).len()) == text,
    decreases text.len(),
{
    let lines = lines_of(text);
    if text.len() == 0 {
        assert(joined(lines, 0) == Seq::<char>::empty());
        assert(joined(lines, 1) =~= text);
    } else {
        let before = lines_of(text.drop_last());
        let n = before.len();
        lemma_some_line(text.drop_last());
        lemma_lines_join(text.drop_last());
        let c = text.last();
        let m = (n - 1) as nat;
        assert(text =~= text.drop_last().push(c));
        if c == '\n' {
            lemma_joined_prefix(before, lines, m);
            assert(joined(lines, n) =~= joined(before, m) + before[n - 1] + seq!['\n']);
            assert(joined(before, n) =~= joined(before, m) + before[n - 1]);
            assert(joined(lines, n + 1) =~= joined(lines, n));
        } else {
            lemma_joined_prefix(before, lines, m);
            assert(joined(before, n) =~= joined(before, m) + before[n - 1]);
            assert(joined(lines, n) =~= joined(before, m) + before[n - 1].push(c));
        }
    }
}

/// Lines before the last ones of two lists are joined alike where they are
/// alike.
proof fn lemma_joined_prefix(a: Seq<Seq<char>>, b: Seq<Seq<char>>, n: nat)
    requires
        n < a.len(),
        n < b.len(),
        forall|i: int| 0 <= i < n ==> #[trigger] a[i] == b[i],
    ensures
        joined(a, n) == joined(b, n),
    decreases n,
{
    if n > 0 {
        lemma_joined_prefix(a, b, (n - 1) as nat);
        assert(a[n - 1] == b[n - 1]);
    }
}

/// The number of lines of two texts together.
proof fn lemma_lines_of_parts(a: Seq<char>, b: Seq<char>)
    ensures
        lines_of(a + b).len() == lines_of(a).len() + lines_of(b).len() - 1,
    decreases b.len(),
{
    if b.len() == 0 {
        assert(a + b =~= a);
    } else {
        lemma_lines_of_parts(a, b.drop_last());
        lemma_some_line(b.drop_last());
        lemma_some_line(a);
        assert((a + b).drop_last() =~= a + b.drop_last());
    }
}

/// A text without line breaks is one line.
proof fn lemma_one_line(text: Seq<char>)
    requires
        forall|i: int| 0 <= i < text.len() ==> #[trigger] text[i] != '\n',
    ensures
        lines_of(text).len() == 1,
    decreases text.len(),
{
    if text.len() > 0 {
        assert(text[text.len() - 1] != '\n');
        assert forall|i: int| 0 <= i < text.drop_last().len() implies #[trigger] text.drop_last()[i]
            != '\n' by {
            assert(text[i] != '\n');
        }
        lemma_one_line(text.drop_last());
    }
}

proof fn lemma_row_is_one_line(scene: Scene, y: int, n: nat)
    requires
        n <= scene.cols,
        forall|x: int| 0 <= x < scene.cols ==> #[trigger] scene.glyph(x, y) != '\n',
    ensures
        lines_of(scene.row_text(y, n)).len() == 1,
    decreases n,
{
    if n > 0 {
        let x = n - 1;
        let c = scene.color(x, y);
        let glyph = scene.glyph(x, y);
        let before = scene.row_text(y, x as nat);
        let code = ansi_code(c.0, c.1, c.2, scene.mode);
        lemma_row_is_one_line(scene, y, x as nat);
        if scene.mode.colours() {
            lemma_ansi_code_is_code(c, scene.mode);
        }
        lemma_one_line(code);
        lemma_one_line(seq![glyph]);
        lemma_lines_of_parts(before, code);
        lemma_lines_of_parts(before + code, seq![glyph]);
        assert(scene.row_text(y, n) =~= before + code + seq![glyph]);
    }
}

/// The text of a rendered frame has a line for each row.
pub proof fn lemma_rendered_has_a_line_per_row(scene: Scene, n: nat)
    requires
        0 < n <= scene.rows,
        scene.cols >= 0,
        forall|x: int, y: int|
            0 <= x < scene.cols && 0 <= y < scene.rows ==> #[trigger] scene.glyph(x, y) != '\n',
    ensures
        lines_of(scene.text(n)).len() == (if n < scene.rows {
            n + 1
        } else {
            n
        }),
    decreases n,
{
    let y = n - 1;
    let before = scene.text(y as nat);
    let row = scene.row_text(y, scene.cols as nat);
    let end = scene.row_end(y);
    if y > 0 {
        lemma_rendered_has_a_line_per_row(scene, y as nat);
    }
    lemma_row_is_one_line(scene, y, scene.cols as nat);
    let reset = if scene.mode.colours() {
        "\x1b[0m"@
    } else {
        Seq::empty()
    };
    let feed = if n < scene.rows {
        seq!['\n']
    } else {
        Seq::empty()
    };
    reveal_strlit("\x1b[0m");
    lemma_one_line(reset);
    assert(lines_of(feed).len() == (if n < scene.rows {
        2int
    } else {
        1int
    })) by {
        if n < scene.rows {
            assert(feed.drop_last() =~= Seq::<char>::empty());
            lemma_one_line(feed.drop_last());
        } else {
            lemma_one_line(feed);
        }
    }
    lemma_lines_of_parts(before, row);
    lemma_lines_of_parts(reset, feed);
    lemma_lines_of_parts(before + row, end);
}

/// In a terminal with room for them, the picture's rows and the status lines
/// are as many as the terminal has rows.
pub proof fn lemma_canvas_leaves_room(w: u16, h: u16)
    requires
        w >= 1,
        h > HUD_LINES,
    ensures
        canvas_of(Some((w, h))).0 == w,
        canvas_of(Some((w, h))).1 + HUD_LINES == h,
{
}

/// Every line of a page is as wide as the terminal.
pub proof fn lemma_page_line_fills(text: Seq<char>, cols: nat)
    ensures
        left_aligned(cut_to(text, cols), cols).len() == cols,
{
}

} // verus!
