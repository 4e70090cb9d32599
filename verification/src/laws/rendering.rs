//! What a rendered frame shows of the camera's pixels.
use vstd::arithmetic::div_mod::lemma_fundamental_div_mod_converse;
use vstd::prelude::*;

use crate::cli::ColorMode;
use crate::color::{ansi_code, effective_rgb, rgb_to_ansi};
use crate::export::ESCAPE;
use crate::frame::{Frame, RenderFrame, Rgb};
use crate::laws::cells::{
    cells_text, count_of, lemma_cell_stands, lemma_count_none, lemma_count_of_parts,
    lemma_count_one, lemma_line_between, lemma_stands_within, line_is, stands,
};
use crate::laws::shades::{lemma_luma_sum, lemma_mode_code_has_one_escape, thousandths};
use crate::laws::turning::channel;
use crate::luma::luma_of;
use crate::render::{build_lut, lemma_sample_in_range, render_frame, sample_of, scene_of, Scene};

verus! {

/// Whether a pixel is the one that a cell shows: `cells` cells are spread evenly
/// over `size` pixels, the first on the first and the last on the last, and each
/// shows the pixel that it lies on or the one before it.
pub open spec fn samples(cell: int, cells: int, size: int, pixel: int) -> bool {
    if cells == 1 {
        pixel == 0
    } else {
        pixel * (cells - 1) <= cell * (size - 1) < (pixel + 1) * (cells - 1)
    }
}

/// The adjusted colour of a pixel.
pub open spec fn toned(frame: Frame, tone: Seq<u8>, px: int, py: int) -> Rgb {
    (
        tone[channel(frame, px, py, 0) as int],
        tone[channel(frame, px, py, 1) as int],
        tone[channel(frame, px, py, 2) as int],
    )
}

proof fn lemma_sample(cell: int, cells: int, size: int, pixel: int)
    requires
        0 <= cell < cells,
        size >= 1,
        samples(cell, cells, size, pixel),
    ensures
        sample_of(cell, cells, size) == pixel,
        0 <= pixel < size,
{
    lemma_sample_in_range(cell, cells, size);
    if cells >= 2 {
        let d = cells - 1;
        let n = cell * (size - 1);
        assert((pixel + 1) * d == pixel * d + d) by (nonlinear_arith);
        lemma_fundamental_div_mod_converse(n, d, pixel, n - pixel * d);
    }
}

/// For every cell there is one pixel that it shows, and it is one of the
/// frame's; the first cell shows the first pixel, and of two cells or more the
/// last shows the last.
pub proof fn lemma_every_cell_has_a_pixel(cell: int, cells: int, size: int)
    requires
        0 <= cell < cells,
        size >= 1,
    ensures
        exists|pixel: int| 0 <= pixel < size && #[trigger] samples(cell, cells, size, pixel),
        samples(0, cells, size, 0),
        cells >= 2 ==> samples(cells - 1, cells, size, size - 1),
{
    let d = cells - 1;
    if cells == 1 {
        assert(samples(cell, cells, size, 0));
    } else {
        lemma_sample_in_range(cell, cells, size);
        let n = cell * (size - 1);
        let p = n / d;
        vstd::arithmetic::div_mod::lemma_fundamental_div_mod(n, d);
        vstd::arithmetic::div_mod::lemma_mod_bound(n, d);
        assert((p + 1) * d == d * p + d) by (nonlinear_arith);
        assert(p * d == d * p) by (nonlinear_arith);
        assert(samples(cell, cells, size, p));
        assert((size - 1) * d == d * (size - 1)) by (nonlinear_arith);
        assert(((size - 1) + 1) * d == d * (size - 1) + d) by (nonlinear_arith);
        assert(0 * (size - 1) == 0 && 0 * d == 0 && (0 + 1) * d == d) by (nonlinear_arith);
    }
}

/// A rendered picture has the rows and columns that were asked for, and colours
/// for all of them in every mode but the one without colours.
pub proof fn lemma_rendered_picture_has_size(
    frame: Frame,
    cols: usize,
    rows: usize,
    lut: &[char],
    tone: &[u8],
    mode: ColorMode,
    r: (RenderFrame, String),
)
    requires
        call_ensures(render_frame, (&frame, cols, rows, lut, tone, mode), r),
    ensures
        r.0@.chars.len() == rows,
        forall|y: int| 0 <= y < rows ==> (#[trigger] r.0@.chars[y]).len() == cols,
        r.0@.colors is Some <==> mode != ColorMode::Off,
        r.0@.colors matches Some(colors) ==> colors.len() == rows && forall|y: int|
            0 <= y < rows ==> (#[trigger] colors[y]).len() == cols,
{
}

/// What a cell shows of its pixel: a character of the table by the pixel's
/// brightness, which is the weighted sum of its adjusted red, green and blue;
/// and the colour that the mode shows for them.
pub proof fn lemma_cell_shows_its_pixel(
    frame: Frame,
    cols: usize,
    rows: usize,
    lut: &[char],
    tone: &[u8],
    mode: ColorMode,
    r: (RenderFrame, String),
    x: int,
    y: int,
    px: int,
    py: int,
    shade: Rgb,
)
    requires
        call_ensures(render_frame, (&frame, cols, rows, lut, tone, mode), r),
        frame.width >= 1,
        frame.height >= 1,
        0 <= x < cols,
        0 <= y < rows,
        samples(x, cols as int, frame.width as int, px),
        samples(y, rows as int, frame.height as int, py),
        ({
            let c = toned(frame, tone@, px, py);
            call_ensures(effective_rgb, (c.0, c.1, c.2, mode), shade)
        }),
    ensures
        exists|k: int|
            0 <= k <= 255 && #[trigger] (1000 * k) <= thousandths(toned(frame, tone@, px, py))
                <= 1000 * k + 1000 && r.0@.chars[y][x] == lut@[k],
        mode != ColorMode::Off ==> r.0@.colors->0[y][x] == shade,
{
    lemma_sample(x, cols as int, frame.width as int, px);
    lemma_sample(y, rows as int, frame.height as int, py);
    let c = toned(frame, tone@, px, py);
    let scene = scene_of(frame, cols, rows, lut@, tone@, mode);
    assert(scene.color(x, y) == c);
    lemma_luma_sum(c);
    let k = luma_of(c.0, c.1, c.2) as int;
    assert(r.0@.chars[y] == scene.glyphs(y));
    assert(r.0@.chars[y][x] == lut@[k]);
    assert(1000 * k <= thousandths(c) <= 1000 * k + 1000);
    if mode != ColorMode::Off {
        assert(r.0@.colors->0[y] == scene.shades(y));
    }
}

/// In true colour, with a tone table that changes nothing, a cell has the colour
/// of its pixel: the first byte is red, the second green and the third blue.
pub proof fn lemma_true_color_shows_pixels(
    frame: Frame,
    cols: usize,
    rows: usize,
    lut: &[char],
    tone: &[u8],
    r: (RenderFrame, String),
    x: int,
    y: int,
    px: int,
    py: int,
)
    requires
        call_ensures(render_frame, (&frame, cols, rows, lut, tone, ColorMode::TrueColor), r),
        forall|v: int| 0 <= v < 256 ==> #[trigger] tone@[v] == v,
        frame.width >= 1,
        frame.height >= 1,
        0 <= x < cols,
        0 <= y < rows,
        samples(x, cols as int, frame.width as int, px),
        samples(y, rows as int, frame.height as int, py),
    ensures
        r.0@.colors->0[y][x] == (
            frame.data@[3 * (py * frame.width + px)],
            frame.data@[3 * (py * frame.width + px) + 1],
            frame.data@[3 * (py * frame.width + px) + 2],
        ),
{
    lemma_sample(x, cols as int, frame.width as int, px);
    lemma_sample(y, rows as int, frame.height as int, py);
    let scene = scene_of(frame, cols, rows, lut@, tone@, ColorMode::TrueColor);
    assert(r.0@.colors->0[y] == scene.shades(y));
}

/// A frame of one colour renders, in true colour and with a tone table that
/// changes nothing, to a picture of that colour and of one character.
pub proof fn lemma_plain_frame_renders_plain(
    frame: Frame,
    cols: usize,
    rows: usize,
    lut: &[char],
    tone: &[u8],
    r: (RenderFrame, String),
    c: Rgb,
)
    requires
        call_ensures(render_frame, (&frame, cols, rows, lut, tone, ColorMode::TrueColor), r),
        forall|v: int| 0 <= v < 256 ==> #[trigger] tone@[v] == v,
        frame.width >= 1,
        frame.height >= 1,
        forall|px: int, py: int|
            0 <= px < frame.width && 0 <= py < frame.height ==> #[trigger] channel(frame, px, py, 0)
                == c.0 && channel(frame, px, py, 1) == c.1 && channel(frame, px, py, 2) == c.2,
    ensures
        forall|x: int, y: int|
            0 <= x < cols && 0 <= y < rows ==> #[trigger] r.0@.colors->0[y][x] == c,
        exists|k: int|
            0 <= k <= 255 && #[trigger] (1000 * k) <= thousandths(c) <= 1000 * k + 1000 && forall|
                x: int,
                y: int,
            |
                0 <= x < cols && 0 <= y < rows ==> #[trigger] r.0@.chars[y][x] == lut@[k],
{
    let scene = scene_of(frame, cols, rows, lut@, tone@, ColorMode::TrueColor);
    let k = luma_of(c.0, c.1, c.2) as int;
    lemma_luma_sum(c);
    assert forall|x: int, y: int| 0 <= x < cols && 0 <= y < rows implies scene.color(x, y) == c by {
        lemma_sample_in_range(x, cols as int, frame.width as int);
        lemma_sample_in_range(y, rows as int, frame.height as int);
        let px = sample_of(x, cols as int, frame.width as int);
        let py = sample_of(y, rows as int, frame.height as int);
        assert(channel(frame, px, py, 0) == c.0);
    }
    assert forall|x: int, y: int| 0 <= x < cols && 0 <= y < rows implies
        #[trigger] r.0@.colors->0[y][x] == c by {
        assert(r.0@.colors->0[y] == scene.shades(y));
        assert(scene.color(x, y) == c);
    }
    assert forall|x: int, y: int| 0 <= x < cols && 0 <= y < rows implies
        #[trigger] r.0@.chars[y][x] == lut@[k] by {
        assert(r.0@.chars[y] == scene.glyphs(y));
        assert(scene.color(x, y) == c);
    }
    assert(1000 * k <= thousandths(c) <= 1000 * k + 1000);
}

/// Whether no character of a table breaks a line or starts an escape sequence.
pub open spec fn plain_table(lut: Seq<char>) -> bool {
    lut.len() == 256 && forall|i: int|
        0 <= i < 256 ==> #[trigger] lut[i] != ESCAPE && lut[i] != '\n'
}

spec fn row_codes(scene: Scene, y: int) -> Seq<Seq<char>> {
    Seq::new(
        scene.cols as nat,
        |x: int|
            {
                let c = scene.color(x, y);
                ansi_code(c.0, c.1, c.2, scene.mode)
            },
    )
}

proof fn lemma_row_is_cells(scene: Scene, y: int, n: nat)
    requires
        n <= scene.cols,
    ensures
        scene.row_text(y, n) == cells_text(row_codes(scene, y), scene.glyphs(y), n),
    decreases n,
{
    if n > 0 {
        lemma_row_is_cells(scene, y, (n - 1) as nat);
    }
}

proof fn lemma_glyphs_are_plain(scene: Scene, y: int)
    requires
        plain_table(scene.lut),
    ensures
        forall|x: int|
            0 <= x < scene.cols ==> #[trigger] scene.glyphs(y)[x] != ESCAPE && scene.glyphs(y)[x]
                != '\n',
{
    assert forall|x: int| 0 <= x < scene.cols implies #[trigger] scene.glyphs(y)[x] != ESCAPE
        && scene.glyphs(y)[x] != '\n' by {
        lemma_luma_sum(scene.color(x, y));
        assert(scene.glyphs(y)[x] == scene.lut[scene.level(x, y)]);
    }
}

/// What a row of coloured text counts for, and where its cells stand.
#[verifier::rlimit(40)]
proof fn lemma_colored_row(scene: Scene, y: int)
    requires
        plain_table(scene.lut),
        scene.mode != ColorMode::Off,
        scene.cols >= 0,
    ensures
        count_of(scene.row_text(y, scene.cols as nat), ESCAPE) == scene.cols,
        count_of(scene.row_text(y, scene.cols as nat), '\n') == 0,
        count_of(scene.row_end(y), ESCAPE) == 1,
        count_of(scene.row_end(y), '\n') == (if y + 1 < scene.rows {
            1nat
        } else {
            0nat
        }),
        forall|x: int|
            0 <= x < scene.cols ==> stands(
                scene.row_text(y, scene.cols as nat),
                x,
                0,
                #[trigger] row_codes(scene, y)[x],
                scene.glyphs(y)[x],
            ),
{
    let n = scene.cols as nat;
    let codes = row_codes(scene, y);
    lemma_row_is_cells(scene, y, n);
    lemma_glyphs_are_plain(scene, y);
    assert forall|x: int| 0 <= x < n implies crate::laws::numerals::one_escape(
        #[trigger] codes[x],
    ) by {
        lemma_mode_code_has_one_escape(scene.color(x, y), scene.mode);
    }
    lemma_cell_stands(codes, scene.glyphs(y), n, 0);
    assert forall|x: int| 0 <= x < n implies stands(
        scene.row_text(y, n),
        x,
        0,
        #[trigger] codes[x],
        scene.glyphs(y)[x],
    ) by {
        lemma_cell_stands(codes, scene.glyphs(y), n, x);
    }
    reveal_strlit("\x1b[0m");
    let feed = if y + 1 < scene.rows {
        seq!['\n']
    } else {
        Seq::empty()
    };
    assert(count_of("\x1b[0m"@, ESCAPE) == 1 && count_of("\x1b[0m"@, '\n') == 0) by {
        reveal_with_fuel(count_of, 6);
    }
    lemma_count_one('\n', '\n');
    lemma_count_one('\n', ESCAPE);
    lemma_count_of_parts("\x1b[0m"@, feed, ESCAPE);
    lemma_count_of_parts("\x1b[0m"@, feed, '\n');
}

proof fn lemma_colored_rows(scene: Scene, n: nat)
    requires
        plain_table(scene.lut),
        scene.mode != ColorMode::Off,
        scene.cols >= 0,
        n <= scene.rows,
    ensures
        count_of(scene.text(n), ESCAPE) == n * (scene.cols + 1),
        count_of(scene.text(n), '\n') == (if n < scene.rows || n == 0 {
            n as int
        } else {
            n - 1
        }),
    decreases n,
{
    if n == 0 {
        assert(0 * (scene.cols + 1) == 0);
    } else {
        let y = n - 1;
        let before = scene.text(y as nat);
        let row = scene.row_text(y, scene.cols as nat);
        lemma_colored_rows(scene, y as nat);
        lemma_colored_row(scene, y);
        lemma_count_of_parts(before, row, ESCAPE);
        lemma_count_of_parts(before, row, '\n');
        lemma_count_of_parts(before + row, scene.row_end(y), ESCAPE);
        lemma_count_of_parts(before + row, scene.row_end(y), '\n');
        assert(n * (scene.cols + 1) == y * (scene.cols + 1) + (scene.cols + 1)) by (nonlinear_arith)
            requires
                n == y + 1,
        ;
    }
}

proof fn lemma_row_within(scene: Scene, y: int, n: nat) -> (after: Seq<char>)
    requires
        0 <= y < n,
    ensures
        scene.text(n) == scene.text(y as nat) + scene.row_text(y, scene.cols as nat)
            + scene.row_end(y) + after,
        n == y + 1 ==> after.len() == 0,
    decreases n,
{
    let row = scene.row_text(y, scene.cols as nat);
    if y == n - 1 {
        let after = Seq::<char>::empty();
        assert(scene.text(n) =~= scene.text(y as nat) + row + scene.row_end(y) + after);
        after
    } else {
        let rest = lemma_row_within(scene, y, (n - 1) as nat);
        let after = rest + scene.row_text(n - 1, scene.cols as nat) + scene.row_end(n - 1);
        assert(scene.text(n) =~= scene.text(y as nat) + row + scene.row_end(y) + after);
        after
    }
}

/// Three parts of a text and a fourth, joined from either side.
proof fn lemma_parts(a: Seq<char>, b: Seq<char>, c: Seq<char>, d: Seq<char>)
    ensures
        a + b + c + d == a + b + (c + d),
{
    assert(a + b + c + d =~= a + b + (c + d));
}

proof fn lemma_text_colors_cells(scene: Scene, x: int, y: int)
    requires
        plain_table(scene.lut),
        scene.mode != ColorMode::Off,
        0 <= x < scene.cols,
        0 <= y < scene.rows,
    ensures
        stands(
            scene.text(scene.rows as nat),
            y * (scene.cols + 1) + x,
            y,
            row_codes(scene, y)[x],
            scene.glyphs(y)[x],
        ),
{
    let rows = scene.rows as nat;
    let before = scene.text(y as nat);
    let row = scene.row_text(y, scene.cols as nat);
    let end = scene.row_end(y);
    let code = row_codes(scene, y)[x];
    let glyph = scene.glyphs(y)[x];
    assert(count_of(before, ESCAPE) == y * (scene.cols + 1) && count_of(before, '\n') == y) by {
        lemma_colored_rows(scene, y as nat);
    }
    assert(stands(row, x, 0, code, glyph)) by {
        lemma_colored_row(scene, y);
    }
    let after = lemma_row_within(scene, y, rows);
    lemma_parts(before, row, end, after);
    lemma_stands_within(before, row, end + after, x, 0, code, glyph);
}

proof fn lemma_text_resets_colors(scene: Scene)
    requires
        scene.mode != ColorMode::Off,
        scene.rows >= 1,
    ensures
        ({
            let text = scene.text(scene.rows as nat);
            text.skip(text.len() - 4) == seq!['\x1b', '[', '0', 'm']
        }),
{
    let text = scene.text(scene.rows as nat);
    reveal_strlit("\x1b[0m");
    assert(text.skip(text.len() - 4) =~= seq!['\x1b', '[', '0', 'm']);
}

/// In the terminal text of a coloured picture, every character of the picture
/// stands on its own line, right behind the escape sequence that the mode has
/// for its pixel: after the line breaks and the escape sequences of the rows
/// above (one for each cell and one at the end) and of the cells to its left.
/// The text ends with the escape sequence that resets colours.
#[verifier::rlimit(40)]
pub proof fn lemma_terminal_text_colors_cells(
    frame: Frame,
    cols: usize,
    rows: usize,
    lut: &[char],
    tone: &[u8],
    mode: ColorMode,
    r: (RenderFrame, String),
    x: int,
    y: int,
    px: int,
    py: int,
    code: String,
)
    requires
        call_ensures(render_frame, (&frame, cols, rows, lut, tone, mode), r),
        mode != ColorMode::Off,
        plain_table(lut@),
        frame.width >= 1,
        frame.height >= 1,
        0 <= x < cols,
        0 <= y < rows,
        samples(x, cols as int, frame.width as int, px),
        samples(y, rows as int, frame.height as int, py),
        ({
            let c = toned(frame, tone@, px, py);
            call_ensures(rgb_to_ansi, (c.0, c.1, c.2, mode), code)
        }),
    ensures
        stands(r.1@, y * (cols + 1) + x, y, code@, r.0@.chars[y][x]),
        count_of(r.1@, ESCAPE) == rows * (cols + 1),
        count_of(r.1@, '\n') == rows - 1,
        r.1@.skip(r.1@.len() - 4) == seq!['\x1b', '[', '0', 'm'],
{
    let scene = scene_of(frame, cols, rows, lut@, tone@, mode);
    lemma_sample(x, cols as int, frame.width as int, px);
    lemma_sample(y, rows as int, frame.height as int, py);
    let c = toned(frame, tone@, px, py);
    assert(scene.color(x, y) == c);
    lemma_colored_rows(scene, rows as nat);
    lemma_text_colors_cells(scene, x, y);
    lemma_text_resets_colors(scene);
    assert(row_codes(scene, y)[x] == code@);
    assert(r.0@.chars[y] == scene.glyphs(y));
}

proof fn lemma_plain_row(scene: Scene, y: int, n: nat)
    requires
        scene.mode == ColorMode::Off,
        n <= scene.cols,
    ensures
        scene.row_text(y, n) == scene.glyphs(y).take(n as int),
    decreases n,
{
    if n > 0 {
        lemma_plain_row(scene, y, (n - 1) as nat);
        assert(scene.row_text(y, n) =~= scene.glyphs(y).take(n as int));
    } else {
        assert(scene.row_text(y, n) =~= scene.glyphs(y).take(0));
    }
}

proof fn lemma_plain_rows(scene: Scene, n: nat)
    requires
        plain_table(scene.lut),
        scene.mode == ColorMode::Off,
        scene.cols >= 0,
        n < scene.rows,
    ensures
        count_of(scene.text(n), '\n') == n,
        n > 0 ==> scene.text(n).len() > 0 && scene.text(n).last() == '\n',
    decreases n,
{
    if n > 0 {
        let y = n - 1;
        let before = scene.text(y as nat);
        let row = scene.row_text(y, scene.cols as nat);
        lemma_plain_rows(scene, y as nat);
        lemma_plain_row(scene, y, scene.cols as nat);
        lemma_glyphs_are_plain(scene, y);
        lemma_count_none(row, '\n');
        assert(scene.row_end(y) =~= seq!['\n']);
        lemma_count_one('\n', '\n');
        lemma_count_of_parts(before, row, '\n');
        lemma_count_of_parts(before + row, scene.row_end(y), '\n');
        assert(scene.text(n).last() == '\n');
    }
}

/// The terminal text of a picture without colours is its rows, line by line, and
/// nothing else.
#[verifier::rlimit(40)]
pub proof fn lemma_plain_terminal_text_is_rows(
    frame: Frame,
    cols: usize,
    rows: usize,
    lut: &[char],
    tone: &[u8],
    r: (RenderFrame, String),
    y: int,
)
    requires
        call_ensures(render_frame, (&frame, cols, rows, lut, tone, ColorMode::Off), r),
        plain_table(lut@),
        0 <= y < rows,
    ensures
        line_is(r.1@, y, r.0@.chars[y]),
        count_of(r.1@, '\n') == rows - 1,
        count_of(r.1@, ESCAPE) == 0,
{
    let scene = scene_of(frame, cols, rows, lut@, tone@, ColorMode::Off);
    lemma_plain_rows(scene, y as nat);
    lemma_plain_row(scene, y, scene.cols as nat);
    lemma_glyphs_are_plain(scene, y);
    let row = scene.row_text(y, scene.cols as nat);
    assert(row =~= r.0@.chars[y]);
    lemma_count_none(row, '\n');
    let after = lemma_row_within(scene, y, rows as nat);
    let rest = scene.row_end(y) + after;
    lemma_line_between(scene.text(y as nat), row, rest);
    assert(r.1@ =~= scene.text(y as nat) + row + rest);
    let last = rows - 1;
    lemma_plain_rows(scene, last as nat);
    lemma_plain_row(scene, last, scene.cols as nat);
    lemma_glyphs_are_plain(scene, last);
    let end = scene.row_text(last, scene.cols as nat);
    lemma_count_none(end, '\n');
    lemma_count_of_parts(scene.text(last as nat), end, '\n');
    assert(scene.row_end(last) =~= Seq::<char>::empty());
    assert(r.1@ =~= scene.text(last as nat) + end);
    lemma_plain_text_has_no_escapes(scene, rows as nat);
}

proof fn lemma_plain_text_has_no_escapes(scene: Scene, n: nat)
    requires
        plain_table(scene.lut),
        scene.mode == ColorMode::Off,
        scene.cols >= 0,
    ensures
        count_of(scene.text(n), ESCAPE) == 0,
    decreases n,
{
    if n > 0 {
        let y = n - 1;
        let before = scene.text(y as nat);
        let row = scene.row_text(y, scene.cols as nat);
        lemma_plain_text_has_no_escapes(scene, y as nat);
        lemma_plain_row(scene, y, scene.cols as nat);
        lemma_glyphs_are_plain(scene, y);
        lemma_count_none(row, ESCAPE);
        lemma_count_none(scene.row_end(y), ESCAPE);
        lemma_count_of_parts(before, row, ESCAPE);
        lemma_count_of_parts(before + row, scene.row_end(y), ESCAPE);
    }
}

/// The lookup table of a ramp has 256 entries, and spreads the ramp evenly over
/// them: the character of a level is the one at the part of the way that the
/// level is of 255, or the one before it.
pub proof fn lemma_table_spreads_ramp(ramp: &str, lut: Vec<char>, level: int, k: int)
    requires
        ramp@.len() > 0,
        call_ensures(build_lut, (ramp,), lut),
        0 <= level <= 255,
        255 * k <= level * (ramp@.len() - 1) < 255 * k + 255,
    ensures
        lut@.len() == 256,
        0 <= k < ramp@.len(),
        lut@[level] == ramp@[k],
{
    let n = ramp@.len() - 1;
    assert(0 <= level * n <= 255 * n) by (nonlinear_arith)
        requires
            0 <= level <= 255,
            n >= 0,
    ;
    lemma_fundamental_div_mod_converse(level * n, 255, k, level * n - 255 * k);
}

#[verifier::rlimit(40)]
proof fn lemma_breaks_follow_resets(scene: Scene, n: nat)
    requires
        plain_table(scene.lut),
        scene.mode != ColorMode::Off,
        scene.cols >= 0,
    ensures
        forall|p: int|
            0 <= p < scene.text(n).len() && #[trigger] scene.text(n)[p] == '\n' ==> p >= 4
                && scene.text(n)[p - 4] == '\x1b' && scene.text(n)[p - 3] == '[' && scene.text(n)[p
                - 2] == '0' && scene.text(n)[p - 1] == 'm',
    decreases n,
{
    if n > 0 {
        let y = n - 1;
        let before = scene.text(y as nat);
        let row = scene.row_text(y, scene.cols as nat);
        let end = scene.row_end(y);
        let all = scene.text(n);
        lemma_breaks_follow_resets(scene, y as nat);
        lemma_colored_row(scene, y);
        reveal_strlit("\x1b[0m");
        assert forall|p: int| 0 <= p < all.len() && #[trigger] all[p] == '\n' implies p >= 4 && all[p
            - 4] == '\x1b' && all[p - 3] == '[' && all[p - 2] == '0' && all[p - 1] == 'm' by {
            let a = before.len() as int;
            let b = a + row.len();
            if p < a {
                assert(before[p] == '\n');
            } else if p < b {
                lemma_absent(row, '\n', p - a);
            } else {
                assert(all[p] == end[p - b]);
                assert(all[b] == '\x1b' && all[b + 1] == '[' && all[b + 2] == '0' && all[b + 3]
                    == 'm');
            }
        }
    }
}

proof fn lemma_absent(text: Seq<char>, c: char, i: int)
    requires
        count_of(text, c) == 0,
        0 <= i < text.len(),
    ensures
        text[i] != c,
    decreases text.len(),
{
    if i < text.len() - 1 {
        lemma_absent(text.drop_last(), c, i);
    }
}

/// Colours do not run on into the next line: every line break in the terminal
/// text of a coloured picture stands right behind the escape sequence that
/// resets them.
pub proof fn lemma_lines_reset_colors(
    frame: Frame,
    cols: usize,
    rows: usize,
    lut: &[char],
    tone: &[u8],
    mode: ColorMode,
    r: (RenderFrame, String),
    p: int,
)
    requires
        call_ensures(render_frame, (&frame, cols, rows, lut, tone, mode), r),
        mode != ColorMode::Off,
        plain_table(lut@),
        0 <= p < r.1@.len(),
        r.1@[p] == '\n',
    ensures
        p >= 4,
        r.1@.subrange(p - 4, p) == seq!['\x1b', '[', '0', 'm'],
{
    let scene = scene_of(frame, cols, rows, lut@, tone@, mode);
    lemma_breaks_follow_resets(scene, rows as nat);
    assert(scene.text(rows as nat)[p] == '\n');
    assert(r.1@.subrange(p - 4, p) =~= seq!['\x1b', '[', '0', 'm']);
}

} // verus!
