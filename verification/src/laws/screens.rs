//! What stands on which line of the screen.
use vstd::prelude::*;

use crate::cli::Platform;
use crate::frame::text_rows;
use crate::laws::cells::{
    count_of, lemma_count_none, lemma_count_of_parts, lemma_count_one, lemma_line_between, line_is,
    line_is_at,
};
use crate::laws::numerals::{all_digits, lemma_numeral_stands_for_number, value_of};
use crate::recording::{preset, RecordingConfig};
use crate::text::{decimal, repeated};
use crate::ui::{
    bar, blank_lines, brightness_filled, counted, draw_overlay, draw_screen, help_text, keys_line,
    left_aligned, levels_line, lines_of, page_lines, right_aligned, settings_text, shown_lines,
    signed, split_lines, status_line, terminal_canvas_size, truncate, FrameCounter, HudState,
};

verus! {

/// A text has one line more than it has line breaks.
proof fn lemma_lines_count(text: Seq<char>)
    ensures
        lines_of(text).len() == count_of(text, '\n') + 1,
        text.len() == 0 || text.last() == '\n' ==> lines_of(text).last().len() == 0,
    decreases text.len(),
{
    if text.len() > 0 {
        lemma_lines_count(text.drop_last());
    }
}

/// A text without line breaks behind another goes on with its last line.
proof fn lemma_line_goes_on(a: Seq<char>, line: Seq<char>)
    requires
        count_of(line, '\n') == 0,
    ensures
        lines_of(a + line) == lines_of(a).drop_last().push(lines_of(a).last() + line),
    decreases line.len(),
{
    lemma_lines_count(a);
    if line.len() == 0 {
        assert(a + line =~= a);
        assert(lines_of(a).last() + line =~= lines_of(a).last());
        assert(lines_of(a).drop_last().push(lines_of(a).last()) =~= lines_of(a));
    } else {
        let before = line.drop_last();
        lemma_line_goes_on(a, before);
        assert((a + line).drop_last() =~= a + before);
        assert((a + line).last() == line.last());
        let last = lines_of(a).last();
        assert((last + before).push(line.last()) =~= last + line);
        assert(lines_of(a + line) =~= lines_of(a).drop_last().push(last + line));
    }
}

/// Lines that have ended do not change as a text goes on.
proof fn lemma_lines_stay(a: Seq<char>, b: Seq<char>, i: int)
    requires
        0 <= i < lines_of(a).len(),
        i < lines_of(a).len() - 1 || b.len() == 0 || b[0] == '\n',
    ensures
        i < lines_of(a + b).len(),
        lines_of(a + b)[i] == lines_of(a)[i],
    decreases b.len(),
{
    lemma_lines_count(a);
    if b.len() == 0 {
        assert(a + b =~= a);
    } else {
        let before = b.drop_last();
        assert((a + b).drop_last() =~= a + before);
        assert((a + b).last() == b.last());
        if before.len() > 0 {
            assert(before[0] == b[0]);
        }
        lemma_lines_stay(a, before, i);
        lemma_lines_count(a + before);
        lemma_count_of_parts(a, before, '\n');
        if b.last() != '\n' && i == lines_of(a).len() - 1 {
            assert(before.len() > 0);
            assert(before =~= seq!['\n'] + before.skip(1));
            lemma_count_one('\n', '\n');
            lemma_count_of_parts(seq!['\n'], before.skip(1), '\n');
        }
    }
}

/// The line of a number in a text is that of its lines.
proof fn lemma_line_is_of_lines(text: Seq<char>, number: int, line: Seq<char>)
    requires
        line_is(text, number, line),
    ensures
        0 <= number < lines_of(text).len(),
        lines_of(text)[number] == line,
{
    let at = choose|at: int| #[trigger] line_is_at(text, at, number, line);
    let a = text.take(at);
    let b = text.skip(at + line.len());
    assert(text.subrange(at, at + line.len()) == line);
    assert(text =~= a + line + b);
    assert(a.len() > 0 ==> a.last() == text[at - 1]);
    lemma_lines_count(a);
    lemma_line_goes_on(a, line);
    assert(lines_of(a).last() + line =~= line);
    assert(b.len() > 0 ==> b[0] == text[at + line.len()]);
    lemma_lines_stay(a + line, b, number);
}

/// A text is split at its line breaks, and nowhere else: a line of the text is
/// the part of that number, and there are as many parts as lines.
pub proof fn lemma_text_is_split_at_breaks(text: &str, r: Vec<String>, number: int, line: Seq<char>)
    requires
        call_ensures(split_lines, (text,), r),
        line_is(text@, number, line),
    ensures
        r@.len() == count_of(text@, '\n') + 1,
        0 <= number < r@.len(),
        r@[number]@ == line,
{
    lemma_lines_count(text@);
    lemma_line_is_of_lines(text@, number, line);
    assert(text_rows(r@)[number] == r@[number]@);
}

proof fn lemma_shown_lines(lines: Seq<Seq<char>>, pad: nat, n: nat)
    requires
        n <= lines.len(),
        forall|i: int| 0 <= i < lines.len() ==> count_of(#[trigger] lines[i], '\n') == 0,
    ensures
        count_of(shown_lines(lines, pad, n), '\n') == n,
        n > 0 ==> shown_lines(lines, pad, n).len() > 0 && shown_lines(lines, pad, n).last() == '\n',
    decreases n,
{
    if n > 0 {
        let k = (n - 1) as nat;
        lemma_shown_lines(lines, pad, k);
        let before = shown_lines(lines, pad, k);
        let blanks = repeated(' ', pad);
        lemma_count_none(blanks, '\n');
        lemma_clear();
        assert(count_of(lines[k as int], '\n') == 0);
        lemma_count_of_parts(before, blanks, '\n');
        lemma_count_of_parts(before + blanks, lines[k as int], '\n');
        lemma_count_of_parts(before + blanks + lines[k as int], "\x1b[K\n"@, '\n');
        assert(shown_lines(lines, pad, n).last() == "\x1b[K\n"@.last());
    }
}

proof fn lemma_clear()
    ensures
        "\x1b[K\n"@ == seq!['\x1b', '[', 'K', '\n'],
        count_of("\x1b[K\n"@, '\n') == 1,
{
    reveal_strlit("\x1b[K\n");
    assert("\x1b[K\n"@ =~= seq!['\x1b', '[', 'K', '\n']);
    reveal_with_fuel(count_of, 6);
}

proof fn lemma_shown_line(lines: Seq<Seq<char>>, pad: nat, y: int, n: nat) -> (after: Seq<char>)
    requires
        0 <= y < n,
    ensures
        shown_lines(lines, pad, n) == shown_lines(lines, pad, y as nat) + (repeated(' ', pad)
            + lines[y] + "\x1b[K\n"@) + after,
    decreases n,
{
    if y == n - 1 {
        let none = Seq::<char>::empty();
        assert(shown_lines(lines, pad, n) =~= shown_lines(lines, pad, y as nat) + (repeated(' ', pad)
            + lines[y] + "\x1b[K\n"@) + none);
        none
    } else {
        let rest = lemma_shown_line(lines, pad, y, (n - 1) as nat);
        let after = rest + (repeated(' ', pad) + lines[n - 1] + "\x1b[K\n"@);
        assert(shown_lines(lines, pad, n) =~= shown_lines(lines, pad, y as nat) + (repeated(' ', pad)
            + lines[y] + "\x1b[K\n"@) + after);
        after
    }
}

proof fn lemma_no_breaks_in_lines(text: Seq<char>)
    ensures
        forall|i: int| 0 <= i < lines_of(text).len() ==> count_of(#[trigger] lines_of(text)[i], '\n')
            == 0,
    decreases text.len(),
{
    let lines = lines_of(text);
    if text.len() == 0 {
        assert(count_of(Seq::<char>::empty(), '\n') == 0);
    } else {
        let before = lines_of(text.drop_last());
        lemma_no_breaks_in_lines(text.drop_last());
        lemma_lines_count(text.drop_last());
        assert forall|i: int| 0 <= i < lines.len() implies count_of(#[trigger] lines[i], '\n')
            == 0 by {
            if text.last() == '\n' {
                if i == lines.len() - 1 {
                    assert(count_of(Seq::<char>::empty(), '\n') == 0);
                } else {
                    assert(count_of(before[i], '\n') == 0);
                }
            } else if i == lines.len() - 1 {
                let line = before.last();
                assert(count_of(before[before.len() - 1], '\n') == 0);
                assert(line.push(text.last()).drop_last() =~= line);
            } else {
                assert(count_of(before[i], '\n') == 0);
            }
        }
    }
}

/// How many blanks stand before a picture: half of the columns that it leaves,
/// and none where it leaves none.
pub open spec fn is_margin(pad: int, cols: int, render_cols: int) -> bool {
    if cols <= render_cols {
        pad == 0
    } else {
        cols - render_cols - 1 <= 2 * pad <= cols - render_cols
    }
}

/// A line behind what leads to the top and the lines above it.
proof fn lemma_line_placed(
    top: Seq<char>,
    above: Seq<char>,
    body: Seq<char>,
    behind: Seq<char>,
    y: int,
)
    requires
        count_of(top, '\n') == 0,
        count_of(above, '\n') == y,
        y > 0 ==> above.len() > 0 && above.last() == '\n',
        y == 0 ==> above.len() == 0,
        count_of(body, '\n') == 0,
        behind.len() > 0,
        behind[0] == '\n',
    ensures
        y > 0 ==> line_is(top + above + body + behind, y, body),
        y == 0 ==> line_is(top + above + body + behind, y, top + body),
{
    if y > 0 {
        lemma_count_of_parts(top, above, '\n');
        lemma_line_between(top + above, body, behind);
    } else {
        let none = Seq::<char>::empty();
        lemma_count_none(none, '\n');
        lemma_count_of_parts(top, body, '\n');
        lemma_line_between(none, top + body, behind);
        assert(none + (top + body) + behind =~= top + above + body + behind);
    }
}

/// A screen is what leads to the top, the shown lines, and the rest.
proof fn lemma_screen_parts(
    top: Seq<char>,
    above: Seq<char>,
    body: Seq<char>,
    after: Seq<char>,
    rest: Seq<char>,
)
    ensures
        top + (above + body.push('\n') + after) + rest == top + above + body + (seq!['\n'] + after
            + rest),
{
    assert(top + (above + body.push('\n') + after) + rest =~= top + above + body + (seq!['\n']
        + after + rest));
}

/// Each line of the picture stands on the line of the screen with its number,
/// in the middle of the columns, with the rest of the line cleared; the first
/// behind the escape sequence that leads to the top.
#[verifier::rlimit(40)]
pub proof fn lemma_screen_shows_lines(
    size: Option<(u16, u16)>,
    ascii: &str,
    render_cols: u16,
    render_rows: u16,
    fps: &str,
    backend: &str,
    hud: HudState,
    r: String,
    y: int,
    line: Seq<char>,
    canvas: (u16, u16),
    pad: int,
)
    requires
        call_ensures(draw_screen, (size, ascii, render_cols, render_rows, fps, backend, &hud), r),
        call_ensures(terminal_canvas_size, (size,), canvas),
        line_is(ascii@, y, line),
        is_margin(pad, canvas.0 as int, render_cols as int),
    ensures
        y > 0 ==> line_is(r@, y, repeated(' ', pad as nat) + line + seq!['\x1b', '[', 'K']),
        y == 0 ==> line_is(
            r@,
            y,
            seq!['\x1b', '[', 'H'] + repeated(' ', pad as nat) + line + seq!['\x1b', '[', 'K'],
        ),
{
    let lines = lines_of(ascii@);
    let n = lines.len();
    let blanks = repeated(' ', pad as nat);
    let clear = seq!['\x1b', '[', 'K'];
    let top = seq!['\x1b', '[', 'H'];
    let above = shown_lines(lines, pad as nat, y as nat);
    let body = blanks + line + clear;
    lemma_line_is_of_lines(ascii@, y, line);
    lemma_no_breaks_in_lines(ascii@);
    assert(count_of(lines[y], '\n') == 0);
    lemma_shown_lines(lines, pad as nat, y as nat);
    let after = lemma_shown_line(lines, pad as nat, y, n);
    lemma_clear();
    assert("\x1b[H"@ =~= top) by {
        reveal_strlit("\x1b[H");
    }
    assert(blanks + line + "\x1b[K\n"@ =~= body.push('\n'));
    assert(count_of(body, '\n') == 0) by {
        lemma_count_none(clear, '\n');
        lemma_count_none(blanks, '\n');
        lemma_count_of_parts(blanks, line, '\n');
        lemma_count_of_parts(blanks + line, clear, '\n');
    }
    lemma_count_none(top, '\n');
    let rest = lemma_screen_rest(
        size,
        ascii,
        render_cols,
        render_rows,
        fps,
        backend,
        hud,
        r,
        canvas,
        pad,
    );
    let behind = seq!['\n'] + after + rest;
    lemma_screen_parts(top, above, body, after, rest);
    lemma_line_placed(top, above, body, behind, y);
    assert(top + body =~= top + blanks + line + clear);
}

proof fn lemma_screen_rest(
    size: Option<(u16, u16)>,
    ascii: &str,
    render_cols: u16,
    render_rows: u16,
    fps: &str,
    backend: &str,
    hud: HudState,
    r: String,
    canvas: (u16, u16),
    pad: int,
) -> (rest: Seq<char>)
    requires
        call_ensures(draw_screen, (size, ascii, render_cols, render_rows, fps, backend, &hud), r),
        call_ensures(terminal_canvas_size, (size,), canvas),
        is_margin(pad, canvas.0 as int, render_cols as int),
    ensures
        r@ == "\x1b[H"@ + shown_lines(lines_of(ascii@), pad as nat, lines_of(ascii@).len()) + rest,
{
    let n = lines_of(ascii@).len();
    let below = if n < canvas.1 {
        (canvas.1 - n) as nat
    } else {
        0
    };
    let rest = blank_lines(canvas.0 as nat, below) + status_line(
        render_cols,
        render_rows,
        fps@,
        backend@,
        hud,
    ) + levels_line(hud) + keys_line(hud);
    assert(r@ =~= "\x1b[H"@ + shown_lines(lines_of(ascii@), pad as nat, n) + rest);
    rest
}

/// The picture has the columns of the terminal and all its rows but three, and
/// at least one of each; 80 and 21 where the size is not known.
pub proof fn lemma_canvas_is_terminal_less_three(size: Option<(u16, u16)>, r: (u16, u16))
    requires
        call_ensures(terminal_canvas_size, (size,), r),
    ensures
        size is None ==> r == (80u16, 21u16),
        size matches Some((w, h)) ==> (w > 0 ==> r.0 == w) && (h > 3 ==> r.1 == h - 3) && (w == 0
            ==> r.0 == 1) && (h <= 3 ==> r.1 == 1),
{
}

/// The filled cells of the brightness bar are the part of its twelve that the
/// brightness is of the way from -100 to 100, cut to whole cells.
pub proof fn lemma_brightness_fills_bar(brightness: i16, r: usize)
    requires
        call_ensures(brightness_filled, (brightness,), r),
    ensures
        brightness <= -100 ==> r == 0,
        brightness >= 100 ==> r == 12,
        -100 <= brightness <= 100 ==> 200 * r <= 12 * (brightness + 100) < 200 * r + 200,
{
}

/// A bar has the cells that are filled first, then those that are not, and as
/// many together as it is wide.
pub proof fn lemma_bar_has_cells(filled: usize, width: usize)
    requires
        filled <= width,
    ensures
        bar(filled, width).len() == width,
        forall|i: int| 0 <= i < filled ==> #[trigger] bar(filled, width)[i] == '█',
        forall|i: int| filled <= i < width ==> #[trigger] bar(filled, width)[i] == '░',
{
}

/// A signed number is its sign and the numeral of its size.
pub proof fn lemma_signed_number(n: i16)
    ensures
        n < 0 ==> signed(n)[0] == '-',
        n >= 0 ==> signed(n)[0] == '+',
        all_digits(signed(n).skip(1)),
        n < 0 ==> value_of(signed(n).skip(1)) == -n,
        n >= 0 ==> value_of(signed(n).skip(1)) == n,
{
    reveal_strlit("-");
    reveal_strlit("+");
    let size = if n < 0 {
        (-n) as nat
    } else {
        n as nat
    };
    lemma_numeral_stands_for_number(size);
    assert(signed(n).skip(1) =~= decimal(size));
}

/// A number is filled with blanks from the left, up to a width; a longer one
/// stays as it is.
pub proof fn lemma_right_aligned(text: Seq<char>, width: nat)
    ensures
        text.len() >= width ==> right_aligned(text, width) == text,
        text.len() < width ==> right_aligned(text, width).len() == width && right_aligned(
            text,
            width,
        ).skip(width - text.len()) == text && forall|i: int|
            0 <= i < width - text.len() ==> #[trigger] right_aligned(text, width)[i] == ' ',
{
    if text.len() >= width {
        assert(right_aligned(text, width) =~= text);
    } else {
        assert(right_aligned(text, width).skip(width - text.len()) =~= text);
    }
}

/// The status line tells what reads the camera, the rate, the size of the
/// picture, the colour mode and the preset, and that a recording runs, exactly
/// where one does.
pub proof fn lemma_status_line_tells(
    cols: u16,
    rows: u16,
    fps: Seq<char>,
    backend: Seq<char>,
    hud: HudState,
)
    ensures
        ({
            let before = "\x1b[7m RUSTERCAM | "@ + backend + " | "@ + fps + " fps | "@ + decimal(
                cols as nat,
            ) + "(W) x "@ + decimal(rows as nat) + "(H) | "@ + hud.color_mode_label@ + " ("@
                + hud.preset@ + ")"@;
            let line = status_line(cols, rows, fps, backend, hud);
            &&& hud.recording ==> line == before + "  \x1b[31mREC\x1b[0m"@ + " \x1b[0m\x1b[K\n"@
            &&& !hud.recording ==> line == before + " \x1b[0m\x1b[K\n"@
        }),
{
    reveal_strlit("");
    let before = "\x1b[7m RUSTERCAM | "@ + backend + " | "@ + fps + " fps | "@ + decimal(
        cols as nat,
    ) + "(W) x "@ + decimal(rows as nat) + "(H) | "@ + hud.color_mode_label@ + " ("@ + hud.preset@
        + ")"@;
    assert(before + ""@ =~= before);
}

/// The line of levels shows the bar and the figure of the contrast, the bar and
/// the signed figure of the brightness, and the camera.
pub proof fn lemma_levels_line_tells(hud: HudState, filled: usize)
    requires
        call_ensures(brightness_filled, (hud.brightness,), filled),
    ensures
        levels_line(hud) == " ↑/↓ Contrast "@ + bar(hud.contrast_filled, 12) + " "@ + hud.contrast@
            + "  │  ←/→ Bright   "@ + bar(filled, 12) + " "@ + right_aligned(
            signed(hud.brightness),
            4,
        ) + "  │  Cam "@ + hud.camera_status@ + "\x1b[K\n"@,
{
}

/// The line of keys tells whether the picture is inverted and by how many
/// degrees it is turned.
pub proof fn lemma_keys_line_tells(hud: HudState)
    ensures
        ({
            let behind = "  2 rot:"@ + decimal(hud.rotation_degrees as nat)
                + "  3 rec  4 capture  5 preset  c camera  s settings  h help  q quit\x1b[K"@;
            &&& hud.invert ==> keys_line(hud) == " 1 invert:on"@ + behind
            &&& !hud.invert ==> keys_line(hud) == " 1 invert:off"@ + behind
        }),
{
    reveal_strlit(" 1 invert:on");
    reveal_strlit(" 1 invert:off");
    reveal_strlit(" 1 invert:");
    reveal_strlit("on");
    reveal_strlit("off");
    let behind = "  2 rot:"@ + decimal(hud.rotation_degrees as nat)
        + "  3 rec  4 capture  5 preset  c camera  s settings  h help  q quit\x1b[K"@;
    assert(" 1 invert:"@ + "on"@ =~= " 1 invert:on"@);
    assert(" 1 invert:"@ + "off"@ =~= " 1 invert:off"@);
    if hud.invert {
        assert(keys_line(hud) =~= " 1 invert:on"@ + behind);
    } else {
        assert(keys_line(hud) =~= " 1 invert:off"@ + behind);
    }
}

/// The blank lines below a picture.
proof fn lemma_blank_lines(cols: nat, n: nat)
    ensures
        count_of(blank_lines(cols, n), '\n') == n,
        n > 0 ==> blank_lines(cols, n).len() > 0 && blank_lines(cols, n).last() == '\n',
    decreases n,
{
    if n > 0 {
        let k = (n - 1) as nat;
        lemma_blank_lines(cols, k);
        lemma_clear();
        let blanks = repeated(' ', cols);
        lemma_count_none(blanks, '\n');
        lemma_count_of_parts(blank_lines(cols, k), blanks, '\n');
        lemma_count_of_parts(blank_lines(cols, k) + blanks, "\x1b[K\n"@, '\n');
        assert(blank_lines(cols, n).last() == "\x1b[K\n"@.last());
    }
}

/// The status lines stand below the picture: after as many lines as the picture
/// has, filled up to the rows of the canvas; they end the screen, and come in
/// their order.
#[verifier::rlimit(40)]
pub proof fn lemma_status_lines_stand_below(
    size: Option<(u16, u16)>,
    ascii: &str,
    render_cols: u16,
    render_rows: u16,
    fps: &str,
    backend: &str,
    hud: HudState,
    r: String,
    canvas: (u16, u16),
) -> (above: Seq<char>)
    requires
        call_ensures(draw_screen, (size, ascii, render_cols, render_rows, fps, backend, &hud), r),
        call_ensures(terminal_canvas_size, (size,), canvas),
    ensures
        r@ == above + status_line(render_cols, render_rows, fps@, backend@, hud) + levels_line(hud)
            + keys_line(hud),
        above.last() == '\n',
        ({
            let lines = count_of(ascii@, '\n') + 1;
            count_of(above, '\n') == (if lines < canvas.1 {
                canvas.1 as int
            } else {
                lines as int
            })
        }),
{
    let lines = lines_of(ascii@);
    let n = lines.len();
    lemma_lines_count(ascii@);
    lemma_no_breaks_in_lines(ascii@);
    let pad = if canvas.0 > render_cols {
        ((canvas.0 - render_cols) / 2) as nat
    } else {
        0
    };
    let below = if n < canvas.1 {
        (canvas.1 - n) as nat
    } else {
        0
    };
    reveal_strlit("\x1b[H");
    let head = "\x1b[H"@;
    lemma_count_none(head, '\n');
    lemma_shown_lines(lines, pad, n);
    lemma_blank_lines(canvas.0 as nat, below);
    let shown = shown_lines(lines, pad, n);
    let blank = blank_lines(canvas.0 as nat, below);
    lemma_count_of_parts(head, shown, '\n');
    lemma_count_of_parts(head + shown, blank, '\n');
    let above = head + shown + blank;
    assert(above.last() == '\n') by {
        if below > 0 {
            assert(above.last() == blank.last());
        } else {
            assert(blank.len() == 0);
            assert(above.last() == shown.last());
        }
    }
    above
}

/// A cut text is the beginning of the text, as long as it may be.
pub proof fn lemma_text_is_cut(s: &str, max: usize, r: String)
    requires
        call_ensures(truncate, (s, max), r),
    ensures
        s@.len() <= max ==> r@ == s@,
        s@.len() > max ==> r@.len() == max && forall|i: int|
            0 <= i < max ==> #[trigger] r@[i] == s@[i],
{
}

proof fn lemma_reverse_marks()
    ensures
        "\x1b[7m"@ == seq!['\x1b', '[', '7', 'm'],
        "\x1b[0m\x1b[K\n"@ == seq!['\x1b', '[', '0', 'm', '\x1b', '[', 'K', '\n'],
        count_of("\x1b[0m\x1b[K\n"@, '\n') == 1,
        count_of("\x1b[7m"@, '\n') == 0,
{
    reveal_strlit("\x1b[7m");
    reveal_strlit("\x1b[0m\x1b[K\n");
    assert("\x1b[7m"@ =~= seq!['\x1b', '[', '7', 'm']);
    assert("\x1b[0m\x1b[K\n"@ =~= seq!['\x1b', '[', '0', 'm', '\x1b', '[', 'K', '\n']);
    reveal_with_fuel(count_of, 9);
}

/// What a page shows on the line of a number: the text of that line, cut to the
/// columns or filled with blanks up to them; blanks only, after the last.
pub open spec fn page_text(lines: Seq<Seq<char>>, cols: int, y: int) -> Seq<char> {
    Seq::new(
        cols as nat,
        |x: int|
            if y < lines.len() && x < lines[y].len() {
                lines[y][x]
            } else {
                ' '
            },
    )
}

proof fn lemma_page_text(lines: Seq<Seq<char>>, cols: nat, y: int)
    requires
        0 <= y,
    ensures
        left_aligned(crate::ui::cut_to(crate::ui::page_line(lines, y), cols), cols) == page_text(
            lines,
            cols as int,
            y,
        ),
{
    reveal_strlit("");
    assert(left_aligned(crate::ui::cut_to(crate::ui::page_line(lines, y), cols), cols)
        =~= page_text(lines, cols as int, y));
}

proof fn lemma_page_count(lines: Seq<Seq<char>>, cols: nat, n: nat)
    requires
        forall|y: int, x: int|
            0 <= y < lines.len() && 0 <= x < lines[y].len() ==> #[trigger] lines[y][x] != '\n',
    ensures
        count_of(page_lines(lines, cols, n), '\n') == n,
        n > 0 ==> page_lines(lines, cols, n).len() > 0 && page_lines(lines, cols, n).last() == '\n',
    decreases n,
{
    if n > 0 {
        let k = (n - 1) as nat;
        lemma_page_count(lines, cols, k);
        lemma_page_text(lines, cols, k as int);
        lemma_reverse_marks();
        let text = page_text(lines, cols as int, k as int);
        lemma_count_none(text, '\n');
        let before = page_lines(lines, cols, k);
        lemma_count_of_parts(before, "\x1b[7m"@, '\n');
        lemma_count_of_parts(before + "\x1b[7m"@, text, '\n');
        lemma_count_of_parts(before + "\x1b[7m"@ + text, "\x1b[0m\x1b[K\n"@, '\n');
        assert(page_lines(lines, cols, n).last() == "\x1b[0m\x1b[K\n"@.last());
    }
}

proof fn lemma_page_within(lines: Seq<Seq<char>>, cols: nat, y: int, n: nat) -> (after: Seq<char>)
    requires
        0 <= y < n,
    ensures
        page_lines(lines, cols, n) == page_lines(lines, cols, y as nat) + ("\x1b[7m"@ + page_text(
            lines,
            cols as int,
            y,
        ) + "\x1b[0m\x1b[K\n"@) + after,
    decreases n,
{
    let this = "\x1b[7m"@ + page_text(lines, cols as int, y) + "\x1b[0m\x1b[K\n"@;
    if y == n - 1 {
        let none = Seq::<char>::empty();
        lemma_page_text(lines, cols, y);
        assert(page_lines(lines, cols, n) =~= page_lines(lines, cols, y as nat) + this + none);
        none
    } else {
        let rest = lemma_page_within(lines, cols, y, (n - 1) as nat);
        lemma_page_text(lines, cols, n - 1);
        let after = rest + ("\x1b[7m"@ + page_text(lines, cols as int, n - 1)
            + "\x1b[0m\x1b[K\n"@);
        assert(page_lines(lines, cols, n) =~= page_lines(lines, cols, y as nat) + this + after);
        after
    }
}

/// A page covers the whole terminal: on each of its rows stands the line of the
/// page with its number, in reverse, cut to the columns or filled up to them;
/// rows after the last line are blank. The first is behind the escape sequence
/// that leads to the top.
#[verifier::rlimit(40)]
pub proof fn lemma_page_covers_terminal(
    cols: u16,
    rows: u16,
    lines: Vec<String>,
    r: String,
    y: int,
)
    requires
        call_ensures(draw_overlay, (Some((cols, rows)), &lines), r),
        forall|y: int, x: int|
            0 <= y < lines@.len() && 0 <= x < lines@[y]@.len() ==> #[trigger] lines@[y]@[x] != '\n',
        0 <= y < rows,
    ensures
        ({
            let line = seq!['\x1b', '[', '7', 'm'] + page_text(
                text_rows(lines@),
                cols as int,
                y,
            ) + seq!['\x1b', '[', '0', 'm', '\x1b', '[', 'K'];
            &&& y > 0 ==> line_is(r@, y, line)
            &&& y == 0 ==> line_is(r@, y, seq!['\x1b', '[', 'H'] + line)
        }),
        count_of(r@, '\n') == rows,
{
    let texts = text_rows(lines@);
    assert forall|y: int, x: int| 0 <= y < texts.len() && 0 <= x < texts[y].len() implies
        #[trigger] texts[y][x] != '\n' by {
        assert(lines@[y]@[x] != '\n');
    }
    lemma_page_count(texts, cols as nat, y as nat);
    lemma_page_count(texts, cols as nat, rows as nat);
    let after = lemma_page_within(texts, cols as nat, y, rows as nat);
    lemma_reverse_marks();
    reveal_strlit("\x1b[H");
    let top = seq!['\x1b', '[', 'H'];
    assert("\x1b[H"@ =~= top);
    let text = page_text(texts, cols as int, y);
    let on = seq!['\x1b', '[', '7', 'm'];
    let off = seq!['\x1b', '[', '0', 'm', '\x1b', '[', 'K'];
    let line = on + text + off;
    let above = page_lines(texts, cols as nat, y as nat);
    lemma_count_none(top, '\n');
    lemma_count_none(on, '\n');
    lemma_count_none(off, '\n');
    lemma_count_none(text, '\n');
    lemma_count_of_parts(on, text, '\n');
    lemma_count_of_parts(on + text, off, '\n');
    lemma_count_of_parts(top, page_lines(texts, cols as nat, rows as nat), '\n');
    let behind = seq!['\n'] + after;
    if y > 0 {
        lemma_count_of_parts(top, above, '\n');
        lemma_line_between(top + above, line, behind);
        assert(r@ =~= top + above + line + behind);
    } else {
        let none = Seq::<char>::empty();
        lemma_count_none(none, '\n');
        lemma_count_of_parts(top, line, '\n');
        lemma_line_between(none, top + line, behind);
        assert(r@ =~= none + (top + line) + behind);
    }
}

/// Where the size of the terminal is not known, a page is drawn as for 80
/// columns and 24 rows.
pub proof fn lemma_page_without_size(lines: Vec<String>, r: String, q: String)
    requires
        call_ensures(draw_overlay, (None::<(u16, u16)>, &lines), r),
        call_ensures(draw_overlay, (Some((80u16, 24u16)), &lines), q),
    ensures
        r@ == q@,
{
}

/// Frames are counted for half a second: every frame is counted once, and the
/// count is handed over, and starts anew, with the first frame after that.
pub proof fn lemma_frames_are_counted(frames: usize, elapsed_ms: u128)
    requires
        frames < usize::MAX,
    ensures
        elapsed_ms < 500 ==> counted(frames, elapsed_ms).0 is None && counted(frames, elapsed_ms).1
            == frames + 1,
        elapsed_ms >= 500 ==> (counted(frames, elapsed_ms).0 matches Some(n) && n == frames + 1)
            && counted(frames, elapsed_ms).1 == 0,
{
}

/// The page of settings tells each setting on its own line.
pub proof fn lemma_settings_page_tells(cfg: RecordingConfig, r: Vec<String>)
    requires
        call_ensures(settings_text, (&cfg,), r),
    ensures
        r@.len() == 13,
        cfg.skip_identical ==> r@[5]@ == "  Skip identical: true"@,
        !cfg.skip_identical ==> r@[5]@ == "  Skip identical: false"@,
        cfg.quantize_colors ==> r@[6]@ == "  Quantize colors: true"@,
        !cfg.quantize_colors ==> r@[6]@ == "  Quantize colors: false"@,
        cfg.derive_chars ==> r@[7]@ == "  Derive chars: true"@,
        !cfg.derive_chars ==> r@[7]@ == "  Derive chars: false"@,
        cfg.flat_indices ==> r@[8]@ == "  Flat indices: true"@,
        !cfg.flat_indices ==> r@[8]@ == "  Flat indices: false"@,
        cfg.delta_timestamps ==> r@[9]@ == "  Delta timestamps: true"@,
        !cfg.delta_timestamps ==> r@[9]@ == "  Delta timestamps: false"@,
        cfg.zlib_max ==> r@[10]@ == "  Zlib max: true"@,
        !cfg.zlib_max ==> r@[10]@ == "  Zlib max: false"@,
        r@[4]@ == "  Color: "@ + cfg.color_mode.title(),
        r@[12]@ == "  7 cycles color mode; s closes"@,
{
    let t = text_rows(r@);
    assert(t.len() == 13);
    assert forall|i: int| 0 <= i < 13 implies #[trigger] t[i] == r@[i]@ by {}
    assert(t[4] == r@[4]@ && t[5] == r@[5]@ && t[6] == r@[6]@ && t[7] == r@[7]@ && t[8] == r@[8]@
        && t[9] == r@[9]@ && t[10] == r@[10]@ && t[12] == r@[12]@);
    reveal_strlit("true");
    reveal_strlit("false");
    lemma_setting_words();
}

proof fn lemma_setting_words()
    ensures
        "  Skip identical: "@ + "true"@ == "  Skip identical: true"@,
        "  Skip identical: "@ + "false"@ == "  Skip identical: false"@,
        "  Quantize colors: "@ + "true"@ == "  Quantize colors: true"@,
        "  Quantize colors: "@ + "false"@ == "  Quantize colors: false"@,
        "  Derive chars: "@ + "true"@ == "  Derive chars: true"@,
        "  Derive chars: "@ + "false"@ == "  Derive chars: false"@,
        "  Flat indices: "@ + "true"@ == "  Flat indices: true"@,
        "  Flat indices: "@ + "false"@ == "  Flat indices: false"@,
        "  Delta timestamps: "@ + "true"@ == "  Delta timestamps: true"@,
        "  Delta timestamps: "@ + "false"@ == "  Delta timestamps: false"@,
        "  Zlib max: "@ + "true"@ == "  Zlib max: true"@,
        "  Zlib max: "@ + "false"@ == "  Zlib max: false"@,
{
    reveal_strlit("true");
    reveal_strlit("false");
    reveal_strlit("  Skip identical: ");
    reveal_strlit("  Skip identical: true");
    reveal_strlit("  Skip identical: false");
    assert("  Skip identical: "@ + "true"@ =~= "  Skip identical: true"@);
    assert("  Skip identical: "@ + "false"@ =~= "  Skip identical: false"@);
    reveal_strlit("  Quantize colors: ");
    reveal_strlit("  Quantize colors: true");
    reveal_strlit("  Quantize colors: false");
    assert("  Quantize colors: "@ + "true"@ =~= "  Quantize colors: true"@);
    assert("  Quantize colors: "@ + "false"@ =~= "  Quantize colors: false"@);
    reveal_strlit("  Derive chars: ");
    reveal_strlit("  Derive chars: true");
    reveal_strlit("  Derive chars: false");
    assert("  Derive chars: "@ + "true"@ =~= "  Derive chars: true"@);
    assert("  Derive chars: "@ + "false"@ =~= "  Derive chars: false"@);
    reveal_strlit("  Flat indices: ");
    reveal_strlit("  Flat indices: true");
    reveal_strlit("  Flat indices: false");
    assert("  Flat indices: "@ + "true"@ =~= "  Flat indices: true"@);
    assert("  Flat indices: "@ + "false"@ =~= "  Flat indices: false"@);
    reveal_strlit("  Delta timestamps: ");
    reveal_strlit("  Delta timestamps: true");
    reveal_strlit("  Delta timestamps: false");
    assert("  Delta timestamps: "@ + "true"@ =~= "  Delta timestamps: true"@);
    assert("  Delta timestamps: "@ + "false"@ =~= "  Delta timestamps: false"@);
    reveal_strlit("  Zlib max: ");
    reveal_strlit("  Zlib max: true");
    reveal_strlit("  Zlib max: false");
    assert("  Zlib max: "@ + "true"@ =~= "  Zlib max: true"@);
    assert("  Zlib max: "@ + "false"@ =~= "  Zlib max: false"@);
}

/// The page of keys has a line for each key, and the platform on its last line;
/// that is all that differs between platforms.
pub proof fn lemma_help_page_tells(a: Platform, b: Platform, r: Vec<String>, q: Vec<String>)
    requires
        call_ensures(help_text, (a,), r),
        call_ensures(help_text, (b,), q),
    ensures
        r@.len() == 18,
        q@.len() == 18,
        forall|i: int| 0 <= i < 17 ==> #[trigger] r@[i]@ == q@[i]@,
        r@[17]@ == "  Platform: "@ + a.title(),
{
    let t = text_rows(r@);
    let u = text_rows(q@);
    assert(t.len() == 18 && u.len() == 18);
    assert(t[17] == r@[17]@);
    assert forall|i: int| 0 <= i < 17 implies #[trigger] r@[i]@ == q@[i]@ by {
        assert(t[i] == r@[i]@);
        assert(u[i] == q@[i]@);
    }
}

proof fn lemma_blank_within(cols: nat, k: int, n: nat) -> (after: Seq<char>)
    requires
        0 <= k < n,
    ensures
        blank_lines(cols, n) == blank_lines(cols, k as nat) + (repeated(' ', cols) + "\x1b[K\n"@)
            + after,
    decreases n,
{
    let this = repeated(' ', cols) + "\x1b[K\n"@;
    if k == n - 1 {
        let none = Seq::<char>::empty();
        assert(blank_lines(cols, n) =~= blank_lines(cols, k as nat) + this + none);
        none
    } else {
        let rest = lemma_blank_within(cols, k, (n - 1) as nat);
        let after = rest + this;
        assert(blank_lines(cols, n) =~= blank_lines(cols, k as nat) + this + after);
        after
    }
}

/// The lines between the picture and the status lines are blank, as wide as the
/// canvas.
#[verifier::rlimit(40)]
pub proof fn lemma_lines_below_are_blank(
    size: Option<(u16, u16)>,
    ascii: &str,
    render_cols: u16,
    render_rows: u16,
    fps: &str,
    backend: &str,
    hud: HudState,
    r: String,
    canvas: (u16, u16),
    y: int,
)
    requires
        call_ensures(draw_screen, (size, ascii, render_cols, render_rows, fps, backend, &hud), r),
        call_ensures(terminal_canvas_size, (size,), canvas),
        count_of(ascii@, '\n') + 1 <= y < canvas.1,
    ensures
        line_is(r@, y, repeated(' ', canvas.0 as nat) + seq!['\x1b', '[', 'K']),
{
    let lines = lines_of(ascii@);
    let n = lines.len();
    lemma_lines_count(ascii@);
    lemma_no_breaks_in_lines(ascii@);
    let pad = if canvas.0 > render_cols {
        (canvas.0 - render_cols) / 2
    } else {
        0
    };
    let below = (canvas.1 - n) as nat;
    let k = y - n;
    let cols = canvas.0 as nat;
    lemma_shown_lines(lines, pad as nat, n);
    lemma_blank_lines(cols, k as nat);
    lemma_clear();
    let after = lemma_blank_within(cols, k, below);
    let shown = shown_lines(lines, pad as nat, n);
    let top = "\x1b[H"@;
    assert(count_of(top, '\n') == 0) by {
        reveal_strlit("\x1b[H");
        lemma_count_none(top, '\n');
    }
    let above = top + shown + blank_lines(cols, k as nat);
    lemma_count_of_parts(top, shown, '\n');
    lemma_count_of_parts(top + shown, blank_lines(cols, k as nat), '\n');
    assert(above.last() == '\n') by {
        if k > 0 {
            assert(above.last() == blank_lines(cols, k as nat).last());
        } else {
            assert(above.last() == shown.last());
        }
    }
    let blanks = repeated(' ', cols);
    let clear = seq!['\x1b', '[', 'K'];
    lemma_count_none(blanks, '\n');
    lemma_count_none(clear, '\n');
    lemma_count_of_parts(blanks, clear, '\n');
    let tail = lemma_screen_tail(
        size,
        ascii,
        render_cols,
        render_rows,
        fps,
        backend,
        hud,
        r,
        canvas,
        pad as nat,
        below,
    );
    let behind = seq!['\n'] + after + tail;
    lemma_line_between(above, blanks + clear, behind);
    lemma_blank_parts(top, shown, blank_lines(cols, k as nat), blanks + clear, after, tail);
    assert(blanks + "\x1b[K\n"@ =~= (blanks + clear).push('\n'));
}

proof fn lemma_blank_parts(
    top: Seq<char>,
    shown: Seq<char>,
    above: Seq<char>,
    line: Seq<char>,
    after: Seq<char>,
    tail: Seq<char>,
)
    ensures
        top + shown + (above + line.push('\n') + after) + tail == top + shown + above + line + (
        seq!['\n'] + after + tail),
{
    assert(top + shown + (above + line.push('\n') + after) + tail =~= top + shown + above + line + (
    seq!['\n'] + after + tail));
}

proof fn lemma_screen_tail(
    size: Option<(u16, u16)>,
    ascii: &str,
    render_cols: u16,
    render_rows: u16,
    fps: &str,
    backend: &str,
    hud: HudState,
    r: String,
    canvas: (u16, u16),
    pad: nat,
    below: nat,
) -> (tail: Seq<char>)
    requires
        call_ensures(draw_screen, (size, ascii, render_cols, render_rows, fps, backend, &hud), r),
        call_ensures(terminal_canvas_size, (size,), canvas),
        is_margin(pad as int, canvas.0 as int, render_cols as int),
        below == canvas.1 - lines_of(ascii@).len(),
    ensures
        r@ == "\x1b[H"@ + shown_lines(lines_of(ascii@), pad, lines_of(ascii@).len()) + blank_lines(
            canvas.0 as nat,
            below,
        ) + tail,
{
    let tail = status_line(render_cols, render_rows, fps@, backend@, hud) + levels_line(hud)
        + keys_line(hud);
    assert(r@ =~= "\x1b[H"@ + shown_lines(lines_of(ascii@), pad, lines_of(ascii@).len())
        + blank_lines(canvas.0 as nat, below) + tail);
    tail
}

/// The page of settings tells the preset that the settings are, or that they are
/// the user's own.
pub proof fn lemma_settings_page_tells_preset(cfg: RecordingConfig, r: Vec<String>, name: Seq<char>)
    requires
        call_ensures(settings_text, (&cfg,), r),
    ensures
        preset(name) == Some(cfg) ==> r@[3]@ == "  Preset: "@ + name,
        (forall|other: Seq<char>| #[trigger] preset(other) != Some(cfg)) ==> r@[3]@
            == "  Preset: "@ + "custom"@,
{
    let t = text_rows(r@);
    assert(t.len() == 13);
    assert(t[3] == r@[3]@);
    if preset(name) == Some(cfg) {
        let chosen = choose|n: Seq<char>| #[trigger] preset(n) == Some(cfg);
        crate::recording::lemma_preset_determines_name(name, chosen);
    }
}

/// The page of keys names every key and what it does.
pub proof fn lemma_help_page_names_keys(platform: Platform, r: Vec<String>)
    requires
        call_ensures(help_text, (platform,), r),
    ensures
        r@.len() == 18,
        r@[1]@ == "  RUSTERCAM - KEYBOARD CONTROLS"@,
        r@[4]@ == "  1         Toggle invert"@,
        r@[5]@ == "  2         Cycle rotation"@,
        r@[6]@ == "  3         Start / stop recording"@,
        r@[7]@ == "  4         Capture screenshot"@,
        r@[8]@ == "  Shift-H   Capture HTML screenshot"@,
        r@[9]@ == "  5         Cycle preset"@,
        r@[10]@ == "  c         Cycle camera device"@,
        r@[11]@ == "  Up/Down   Contrast"@,
        r@[12]@ == "  Left/Right Brightness"@,
        r@[13]@ == "  s         Settings"@,
        r@[14]@ == "  h         Close help"@,
        r@[15]@ == "  q         Quit"@,
{
    let t = text_rows(r@);
    assert(t.len() == 18);
    assert(t[1] == r@[1]@ && t[4] == r@[4]@ && t[5] == r@[5]@ && t[6] == r@[6]@ && t[7] == r@[7]@
        && t[8] == r@[8]@ && t[9] == r@[9]@ && t[10] == r@[10]@ && t[11] == r@[11]@ && t[12]
        == r@[12]@ && t[13] == r@[13]@ && t[14] == r@[14]@ && t[15] == r@[15]@);
}

/// A count of frames starts with none.
pub proof fn lemma_count_starts_with_none(r: FrameCounter)
    requires
        call_ensures(FrameCounter::new, (), r),
    ensures
        r.frames == 0,
{
}

} // verus!
