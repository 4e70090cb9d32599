//! What a still picture shows: where each character stands in an SVG, in which
//! colour, and which characters a page of HTML keeps.
use vstd::prelude::*;

use crate::cli::ColorMode;
use crate::export::{
    ansi_to_html, entity, escaped, html_page, ink, joined, lemma_entity_letters,
    lemma_escaped_parts, lemma_longest, lemma_read_on, lemma_rows_show_glyphs,
    lemma_runs_are_longest, longest, render_frame_to_svg, run_end, svg_of, svg_row, svg_rows,
    svg_run, svg_runs, within_code, without_codes, ESCAPE,
};
use crate::frame::{Frame, Picture, RenderFrame, Rgb};
use crate::laws::cells::{
    count_of, lemma_count_none, lemma_count_of_parts, lemma_count_one, lemma_line_between, line_is,
};
use crate::laws::rendering::plain_table;
use crate::laws::shades::lemma_luma_sum;
use crate::render::{render_frame, scene_of};
use crate::text::decimal;

verus! {

/// The colour of a cell of a picture: its own, or a light grey where the picture
/// has none for it.
pub open spec fn cell_shade(picture: Picture, x: int, y: int) -> Rgb {
    match picture.colors {
        Some(rows) if y < rows.len() && x < rows[y].len() => rows[y][x],
        _ => (220, 220, 220),
    }
}

/// The text element at a place and in a colour.
pub open spec fn element(left: nat, height: nat, c: Rgb, text: Seq<char>) -> Seq<char> {
    "<text x=\""@ + decimal(left) + "\" y=\""@ + decimal(height) + "\" fill=\"rgb("@ + decimal(
        c.0 as nat,
    ) + ","@ + decimal(c.1 as nat) + ","@ + decimal(c.2 as nat) + ")\">"@ + escaped(text, true)
        + "</text>\n"@
}

/// Whether a text stands within another.
pub open spec fn holds_text(text: Seq<char>, part: Seq<char>) -> bool {
    exists|at: int|
        0 <= at && at + part.len() <= text.len() && #[trigger] text.subrange(at, at + part.len())
            == part
}

proof fn lemma_holds_within(before: Seq<char>, part: Seq<char>, after: Seq<char>)
    ensures
        holds_text(before + part + after, part),
{
    let at = before.len() as int;
    assert((before + part + after).subrange(at, at + part.len()) =~= part);
}

proof fn lemma_holds_more(before: Seq<char>, text: Seq<char>, after: Seq<char>, part: Seq<char>)
    requires
        holds_text(text, part),
    ensures
        holds_text(before + text + after, part),
{
    let at = choose|at: int|
        0 <= at && at + part.len() <= text.len() && #[trigger] text.subrange(at, at + part.len())
            == part;
    let p = before.len() + at;
    assert((before + text + after).subrange(p, p + part.len()) =~= text.subrange(
        at,
        at + part.len(),
    ));
}

/// Whether the cells from `s` up to `e` of a row are one run of one colour: as
/// many neighbours as have that colour.
pub open spec fn one_run(picture: Picture, y: int, s: int, e: int) -> bool {
    let row = picture.chars[y];
    &&& 0 <= s < e <= row.len()
    &&& forall|i: int|
        s <= i < e ==> #[trigger] cell_shade(picture, i, y) == cell_shade(picture, s, y)
    &&& e < row.len() ==> cell_shade(picture, e, y) != cell_shade(picture, s, y)
}

proof fn lemma_runs_hold_cell(picture: Picture, y: int, from: int, x: int) -> (run: (int, int))
    requires
        picture.colors is Some,
        0 <= y < picture.chars.len(),
        0 <= from <= x < picture.chars[y].len(),
    ensures
        from <= run.0 <= x < run.1,
        one_run(picture, y, run.0, run.1),
        holds_text(
            svg_runs(picture.colors->0, y, picture.chars[y], from),
            element(
                8 * run.0 as nat,
                (12 * y + 10) as nat,
                cell_shade(picture, x, y),
                picture.chars[y].subrange(run.0, run.1),
            ),
        ),
    decreases picture.chars[y].len() - from,
{
    let colors = picture.colors->0;
    let row = picture.chars[y];
    let end = run_end(colors, y, from, row.len() as int);
    lemma_runs_are_longest(colors, y, from, row.len() as int);
    let head = svg_run(from, y, ink(colors, from, y), row.subrange(from, end));
    let rest = svg_runs(colors, y, row, end);
    assert(svg_runs(colors, y, row, from) == head + rest);
    let none = Seq::<char>::empty();
    if x < end {
        assert forall|i: int| from <= i < end implies #[trigger] cell_shade(picture, i, y)
            == cell_shade(picture, from, y) by {
            assert(ink(colors, i, y) == ink(colors, from, y));
        }
        assert(cell_shade(picture, x, y) == cell_shade(picture, from, y));
        lemma_holds_within(none, head, rest);
        assert(none + head + rest =~= head + rest);
        assert(head == element(
            (8 * from) as nat,
            (12 * y + 10) as nat,
            cell_shade(picture, from, y),
            row.subrange(from, end),
        ));
        (from, end)
    } else {
        let run = lemma_runs_hold_cell(picture, y, end, x);
        let part = element(
            8 * run.0 as nat,
            (12 * y + 10) as nat,
            cell_shade(picture, x, y),
            row.subrange(run.0, run.1),
        );
        lemma_holds_more(head, rest, none, part);
        assert(head + rest + none =~= head + rest);
        run
    }
}

proof fn lemma_row_in_svg(picture: Picture, y: int, n: nat, part: Seq<char>)
    requires
        0 <= y < n,
        holds_text(svg_row(picture, y), part),
    ensures
        holds_text(svg_rows(picture, n), part),
    decreases n,
{
    let none = Seq::<char>::empty();
    if y == n - 1 {
        lemma_holds_more(svg_rows(picture, y as nat), svg_row(picture, y), none, part);
        assert(svg_rows(picture, y as nat) + svg_row(picture, y) + none =~= svg_rows(picture, n));
    } else {
        lemma_row_in_svg(picture, y, (n - 1) as nat, part);
        lemma_holds_more(none, svg_rows(picture, (n - 1) as nat), svg_row(picture, n - 1), part);
        assert(none + svg_rows(picture, (n - 1) as nat) + svg_row(picture, n - 1) =~= svg_rows(
            picture,
            n,
        ));
    }
}

/// Every character of a coloured picture stands in its SVG in its own place and
/// colour: in a text of neighbours of that colour, all of them, which is eight
/// for each column before it from the left, and at the height 12 for each row
/// above it and 10.
pub proof fn lemma_svg_shows_colored_cell(frame: RenderFrame, r: String, x: int, y: int)
    requires
        call_ensures(render_frame_to_svg, (&frame,), r),
        frame@.colors is Some,
        0 <= y < frame@.chars.len(),
        0 <= x < frame@.chars[y].len(),
    ensures
        exists|s: int, e: int|
            s <= x < e && #[trigger] one_run(frame@, y, s, e) && holds_text(
                r@,
                element(
                    (8 * s) as nat,
                    (12 * y + 10) as nat,
                    cell_shade(frame@, x, y),
                    frame@.chars[y].subrange(s, e),
                ),
            ),
{
    let picture = frame@;
    let n = picture.chars.len();
    let (s, e) = lemma_runs_hold_cell(picture, y, 0, x);
    let part = element(
        (8 * s) as nat,
        (12 * y + 10) as nat,
        cell_shade(picture, x, y),
        picture.chars[y].subrange(s, e),
    );
    lemma_row_in_svg(picture, y, n, part);
    lemma_svg_holds_rows(picture, part);
    assert(one_run(frame@, y, s, e));
}

proof fn lemma_svg_holds_rows(picture: Picture, part: Seq<char>)
    requires
        holds_text(svg_rows(picture, picture.chars.len()), part),
    ensures
        holds_text(svg_of(picture), part),
{
    let rows = svg_rows(picture, picture.chars.len());
    let end = "</svg>\n"@;
    let head = crate::export::svg_head(
        longest(picture.chars, picture.chars.len()) * 8,
        picture.chars.len() * 12,
    );
    lemma_holds_more(head, rows, end, part);
}

/// Every row of a picture without colours stands in its SVG as one text, in
/// light grey, from the left edge, and at the height 12 for each row above it
/// and 10: two rows never stand at one height.
pub proof fn lemma_svg_shows_plain_row(frame: RenderFrame, r: String, y: int)
    requires
        call_ensures(render_frame_to_svg, (&frame,), r),
        frame@.colors is None,
        0 <= y < frame@.chars.len(),
        frame@.chars[y].len() > 0,
    ensures
        holds_text(
            r@,
            element(0, (12 * y + 10) as nat, (220, 220, 220), frame@.chars[y]),
        ),
{
    let picture = frame@;
    let part = element(0, (12 * y + 10) as nat, (220, 220, 220), picture.chars[y]);
    let none = Seq::<char>::empty();
    lemma_holds_within(none, svg_row(picture, y), none);
    assert(none + svg_row(picture, y) + none =~= part);
    assert(svg_row(picture, y) =~= part);
    lemma_row_in_svg(picture, y, picture.chars.len(), part);
    lemma_svg_holds_rows(picture, part);
}

proof fn lemma_plain_run(colors: Seq<Seq<Rgb>>, y: int, row: Seq<char>)
    requires
        forall|x: int| 0 <= x < row.len() ==> #[trigger] ink(colors, x, y) == (220u8, 220u8, 220u8),
    ensures
        svg_runs(colors, y, row, 0) == svg_run(0, y, (220, 220, 220), row),
{
    let n = row.len() as int;
    if n > 0 {
        let end = run_end(colors, y, 0, n);
        lemma_runs_are_longest(colors, y, 0, n);
        if end < n {
            assert(ink(colors, end, y) == (220u8, 220u8, 220u8));
        }
        assert(ink(colors, 0, y) == (220u8, 220u8, 220u8));
        assert(row.subrange(0, n) =~= row);
        assert(svg_runs(colors, y, row, n) =~= Seq::<char>::empty());
        assert(svg_runs(colors, y, row, 0) =~= svg_run(0, y, (220, 220, 220), row));
    } else {
        assert(svg_runs(colors, y, row, 0) =~= svg_run(0, y, (220, 220, 220), row));
    }
}

proof fn lemma_plain_rows(plain: Picture, grey: Picture, n: nat)
    requires
        plain.chars == grey.chars,
        plain.colors is None,
        grey.colors is Some,
        n <= plain.chars.len(),
        forall|x: int, y: int|
            0 <= y < plain.chars.len() && 0 <= x < plain.chars[y].len() ==> #[trigger] cell_shade(
                grey,
                x,
                y,
            ) == (220u8, 220u8, 220u8),
    ensures
        svg_rows(plain, n) == svg_rows(grey, n),
    decreases n,
{
    if n > 0 {
        let y = n - 1;
        lemma_plain_rows(plain, grey, y as nat);
        assert forall|x: int| 0 <= x < plain.chars[y].len() implies #[trigger] ink(
            grey.colors->0,
            x,
            y,
        ) == (220u8, 220u8, 220u8) by {
            assert(cell_shade(grey, x, y) == (220u8, 220u8, 220u8));
        }
        lemma_plain_run(grey.colors->0, y, plain.chars[y]);
    }
}

/// A picture without colours has the SVG of one whose cells are all light grey,
/// or have no colour of their own.
pub proof fn lemma_plain_svg_is_grey(plain: RenderFrame, grey: RenderFrame, r: String, q: String)
    requires
        call_ensures(render_frame_to_svg, (&plain,), r),
        call_ensures(render_frame_to_svg, (&grey,), q),
        plain@.chars == grey@.chars,
        plain@.colors is None,
        grey@.colors is Some,
        forall|x: int, y: int|
            0 <= y < plain@.chars.len() && 0 <= x < plain@.chars[y].len() ==> #[trigger] cell_shade(
                grey@,
                x,
                y,
            ) == (220u8, 220u8, 220u8),
    ensures
        r@ == q@,
{
    lemma_plain_rows(plain@, grey@, plain@.chars.len());
}

proof fn lemma_longest_is_a_row(rows: Seq<Seq<char>>, n: nat)
    requires
        n <= rows.len(),
    ensures
        n == 0 ==> longest(rows, n) == 0,
        n > 0 ==> exists|y: int| 0 <= y < n && (#[trigger] rows[y]).len() == longest(rows, n),
    decreases n,
{
    if n > 0 {
        let k = (n - 1) as nat;
        lemma_longest_is_a_row(rows, k);
        if rows[n - 1].len() > longest(rows, k) {
            assert(rows[n - 1].len() == longest(rows, n));
        } else if k > 0 {
            let y = choose|y: int| 0 <= y < k && (#[trigger] rows[y]).len() == longest(rows, k);
            assert(rows[y].len() == longest(rows, n));
        } else {
            assert(rows[n - 1].len() == longest(rows, n));
        }
    }
}

/// An SVG is eight for each column wide, as many as its longest row has, and
/// twelve for each row high; it begins with that size, and every row fits.
#[verifier::rlimit(40)]
pub proof fn lemma_svg_has_size_of_picture(frame: RenderFrame, r: String, columns: nat)
    requires
        call_ensures(render_frame_to_svg, (&frame,), r),
        forall|y: int| 0 <= y < frame@.chars.len() ==> (#[trigger] frame@.chars[y]).len() <= columns,
        frame@.chars.len() == 0 ==> columns == 0,
        frame@.chars.len() > 0 ==> exists|y: int|
            0 <= y < frame@.chars.len() && (#[trigger] frame@.chars[y]).len() == columns,
    ensures
        ({
            let head = "<svg xmlns=\"http://www.w3.org/2000/svg\" width=\""@ + decimal(8 * columns)
                + "\" height=\""@ + decimal(12 * frame@.chars.len()) + "\" viewBox=\"0 0 "@
                + decimal(8 * columns) + " "@ + decimal(12 * frame@.chars.len())
                + "\">\n<rect width=\"100%\" height=\"100%\" fill=\"#101014\"/>\n<style>text{font-family:Menlo,Monaco,'Courier New',monospace;font-size:12px;white-space:pre}</style>\n"@;
            &&& head.len() <= r@.len()
            &&& r@.take(head.len() as int) == head
        }),
        "</svg>\n"@.len() <= r@.len(),
        r@.skip(r@.len() - "</svg>\n"@.len()) == "</svg>\n"@,
{
    let rows = frame@.chars;
    let n = rows.len();
    lemma_longest_is_a_row(rows, n);
    if n > 0 {
        let a = choose|y: int| 0 <= y < n && (#[trigger] rows[y]).len() == longest(rows, n);
        let b = choose|y: int| 0 <= y < n && (#[trigger] rows[y]).len() == columns;
        assert(rows[a].len() <= columns);
        lemma_longest(rows, n, b);
    }
    assert(longest(rows, n) == columns);
    let front = "<svg xmlns=\"http://www.w3.org/2000/svg\" width=\""@ + decimal(8 * columns)
        + "\" height=\""@ + decimal(12 * n) + "\" viewBox=\"0 0 "@ + decimal(8 * columns) + " "@
        + decimal(12 * n);
    let tail = "\">\n<rect width=\"100%\" height=\"100%\" fill=\"#101014\"/>\n<style>text{font-family:Menlo,Monaco,'Courier New',monospace;font-size:12px;white-space:pre}</style>\n"@;
    assert(columns * 8 == 8 * columns && n * 12 == 12 * n);
    assert(r@ =~= front + tail + svg_rows(frame@, n) + "</svg>\n"@);
    let head = front + tail;
    assert(r@.take(head.len() as int) =~= head);
    assert(r@.skip(r@.len() - "</svg>\n"@.len()) =~= "</svg>\n"@);
}

/// How many runs of one colour start among the first `n` cells of a row.
pub open spec fn run_starts(picture: Picture, y: int, n: nat) -> nat
    decreases n,
{
    if n == 0 {
        0
    } else {
        run_starts(picture, y, (n - 1) as nat) + (if n == 1 || cell_shade(picture, n - 1, y)
            != cell_shade(picture, n - 2, y) {
            1nat
        } else {
            0nat
        })
    }
}

/// How many runs of one colour the first `n` rows of a picture have.
pub open spec fn run_count(picture: Picture, n: nat) -> nat
    decreases n,
{
    if n == 0 {
        0
    } else {
        run_count(picture, (n - 1) as nat) + run_starts(picture, n - 1, picture.chars[n - 1].len())
    }
}

proof fn lemma_numeral_has_no_mark(n: nat)
    ensures
        count_of(decimal(n), '<') == 0,
{
    crate::laws::numerals::lemma_numeral_stands_for_number(n);
    assert forall|i: int| 0 <= i < decimal(n).len() implies #[trigger] decimal(n)[i] != '<' by {
        assert('0' <= decimal(n)[i] <= '9');
    }
    lemma_count_none(decimal(n), '<');
}

#[verifier::rlimit(40)]
proof fn lemma_element_marks(left: nat, height: nat, c: Rgb, text: Seq<char>)
    ensures
        count_of(element(left, height, c, text), '<') == 2,
{
    reveal_strlit("<text x=\"");
    reveal_strlit("\" y=\"");
    reveal_strlit("\" fill=\"rgb(");
    reveal_strlit(",");
    reveal_strlit(")\">");
    reveal_strlit("</text>\n");
    assert(count_of("<text x=\""@, '<') == 1) by {
        let t = "<text x=\""@;
        assert(t =~= seq!['<'] + t.skip(1));
        lemma_count_none(t.skip(1), '<');
        lemma_count_one('<', '<');
        lemma_count_of_parts(seq!['<'], t.skip(1), '<');
    }
    assert(count_of("</text>\n"@, '<') == 1) by {
        let t = "</text>\n"@;
        assert(t =~= seq!['<'] + t.skip(1));
        lemma_count_none(t.skip(1), '<');
        lemma_count_one('<', '<');
        lemma_count_of_parts(seq!['<'], t.skip(1), '<');
    }
    lemma_count_none("\" y=\""@, '<');
    lemma_count_none("\" fill=\"rgb("@, '<');
    lemma_count_none(","@, '<');
    lemma_count_none(")\">"@, '<');
    lemma_numeral_has_no_mark(left);
    lemma_numeral_has_no_mark(height);
    lemma_numeral_has_no_mark(c.0 as nat);
    lemma_numeral_has_no_mark(c.1 as nat);
    lemma_numeral_has_no_mark(c.2 as nat);
    crate::export::lemma_escaped_is_safe(text, true);
    lemma_count_none(escaped(text, true), '<');
    let p1 = "<text x=\""@;
    let p2 = p1 + decimal(left);
    let p3 = p2 + "\" y=\""@;
    let p4 = p3 + decimal(height);
    let p5 = p4 + "\" fill=\"rgb("@;
    let p6 = p5 + decimal(c.0 as nat);
    let p7 = p6 + ","@;
    let p8 = p7 + decimal(c.1 as nat);
    let p9 = p8 + ","@;
    let p10 = p9 + decimal(c.2 as nat);
    let p11 = p10 + ")\">"@;
    let p12 = p11 + escaped(text, true);
    lemma_count_of_parts(p1, decimal(left), '<');
    lemma_count_of_parts(p2, "\" y=\""@, '<');
    lemma_count_of_parts(p3, decimal(height), '<');
    lemma_count_of_parts(p4, "\" fill=\"rgb("@, '<');
    lemma_count_of_parts(p5, decimal(c.0 as nat), '<');
    lemma_count_of_parts(p6, ","@, '<');
    lemma_count_of_parts(p7, decimal(c.1 as nat), '<');
    lemma_count_of_parts(p8, ","@, '<');
    lemma_count_of_parts(p9, decimal(c.2 as nat), '<');
    lemma_count_of_parts(p10, ")\">"@, '<');
    lemma_count_of_parts(p11, escaped(text, true), '<');
    lemma_count_of_parts(p12, "</text>\n"@, '<');
}

/// No run starts within a run.
proof fn lemma_starts_in_run(picture: Picture, y: int, s: int, e: int)
    requires
        0 <= s < e,
        forall|i: int|
            s <= i < e ==> #[trigger] cell_shade(picture, i, y) == cell_shade(picture, s, y),
    ensures
        run_starts(picture, y, e as nat) == run_starts(picture, y, (s + 1) as nat),
    decreases e - s,
{
    if e > s + 1 {
        lemma_starts_in_run(picture, y, s, e - 1);
        assert(cell_shade(picture, e - 1, y) == cell_shade(picture, s, y));
        assert(cell_shade(picture, e - 2, y) == cell_shade(picture, s, y));
    }
}

proof fn lemma_runs_marks(picture: Picture, y: int, from: int)
    requires
        picture.colors is Some,
        0 <= y < picture.chars.len(),
        0 <= from <= picture.chars[y].len(),
        0 < from < picture.chars[y].len() ==> cell_shade(picture, from, y) != cell_shade(
            picture,
            from - 1,
            y,
        ),
    ensures
        count_of(svg_runs(picture.colors->0, y, picture.chars[y], from), '<') == 2 * (run_starts(
            picture,
            y,
            picture.chars[y].len(),
        ) - run_starts(picture, y, from as nat)),
    decreases picture.chars[y].len() - from,
{
    let colors = picture.colors->0;
    let row = picture.chars[y];
    if from < row.len() {
        let end = run_end(colors, y, from, row.len() as int);
        lemma_runs_are_longest(colors, y, from, row.len() as int);
        let head = svg_run(from, y, ink(colors, from, y), row.subrange(from, end));
        let rest = svg_runs(colors, y, row, end);
        assert forall|i: int| from <= i < end implies #[trigger] cell_shade(picture, i, y)
            == cell_shade(picture, from, y) by {
            assert(ink(colors, i, y) == ink(colors, from, y));
        }
        if end < row.len() {
            assert(cell_shade(picture, end, y) != cell_shade(picture, from, y));
            assert(cell_shade(picture, end - 1, y) == cell_shade(picture, from, y));
        }
        lemma_starts_in_run(picture, y, from, end);
        lemma_runs_marks(picture, y, end);
        assert(head == element(
            (8 * from) as nat,
            (12 * y + 10) as nat,
            ink(colors, from, y),
            row.subrange(from, end),
        ));
        lemma_element_marks(
            (8 * from) as nat,
            (12 * y + 10) as nat,
            ink(colors, from, y),
            row.subrange(from, end),
        );
        lemma_count_of_parts(head, rest, '<');
    }
}

proof fn lemma_row_marks(picture: Picture, y: int)
    requires
        0 <= y < picture.chars.len(),
    ensures
        count_of(svg_row(picture, y), '<') == 2 * run_starts(picture, y, picture.chars[y].len()),
{
    let row = picture.chars[y];
    if picture.colors is Some {
        lemma_runs_marks(picture, y, 0);
    } else if row.len() > 0 {
        lemma_starts_in_run(picture, y, 0, row.len() as int);
        assert(run_starts(picture, y, 0) == 0);
        assert(run_starts(picture, y, 1) == 1);
        assert(svg_row(picture, y) == element(0, (12 * y + 10) as nat, (220, 220, 220), row));
        lemma_element_marks(0, (12 * y + 10) as nat, (220, 220, 220), row);
    }
}

proof fn lemma_rows_marks(picture: Picture, n: nat)
    requires
        n <= picture.chars.len(),
    ensures
        count_of(svg_rows(picture, n), '<') == 2 * run_count(picture, n),
    decreases n,
{
    if n > 0 {
        lemma_rows_marks(picture, (n - 1) as nat);
        lemma_row_marks(picture, n - 1);
        lemma_count_of_parts(svg_rows(picture, (n - 1) as nat), svg_row(picture, n - 1), '<');
    }
}

#[verifier::rlimit(40)]
proof fn lemma_head_marks(w: nat, h: nat)
    ensures
        count_of(crate::export::svg_head(w, h), '<') == 4,
        count_of("</svg>\n"@, '<') == 1,
{
    let a = "<svg xmlns=\"http://www.w3.org/2000/svg\" width=\""@;
    let b = "\" height=\""@;
    let c = "\" viewBox=\"0 0 "@;
    let d = " "@;
    let e = "\">\n<rect width=\"100%\" height=\"100%\" fill=\"#101014\"/>\n<style>text{font-family:Menlo,Monaco,'Courier New',monospace;font-size:12px;white-space:pre}</style>\n"@;
    reveal_strlit("<svg xmlns=\"http://www.w3.org/2000/svg\" width=\"");
    reveal_strlit("\" height=\"");
    reveal_strlit("\" viewBox=\"0 0 ");
    reveal_strlit(" ");
    reveal_strlit("</svg>\n");
    reveal_strlit(
        "\">\n<rect width=\"100%\" height=\"100%\" fill=\"#101014\"/>\n<style>text{font-family:Menlo,Monaco,'Courier New',monospace;font-size:12px;white-space:pre}</style>\n",
    );
    lemma_count_one('<', '<');
    assert(count_of(a, '<') == 1) by {
        assert(a =~= seq!['<'] + a.skip(1));
        lemma_count_none(a.skip(1), '<');
        lemma_count_of_parts(seq!['<'], a.skip(1), '<');
    }
    assert(count_of("</svg>\n"@, '<') == 1) by {
        let t = "</svg>\n"@;
        assert(t =~= seq!['<'] + t.skip(1));
        lemma_count_none(t.skip(1), '<');
        lemma_count_of_parts(seq!['<'], t.skip(1), '<');
    }
    lemma_count_none(b, '<');
    lemma_count_none(c, '<');
    lemma_count_none(d, '<');
    lemma_numeral_has_no_mark(w);
    lemma_numeral_has_no_mark(h);
    lemma_style_marks(e);
    let p1 = a + decimal(w);
    let p2 = p1 + b;
    let p3 = p2 + decimal(h);
    let p4 = p3 + c;
    let p5 = p4 + decimal(w);
    let p6 = p5 + d;
    let p7 = p6 + decimal(h);
    lemma_count_of_parts(a, decimal(w), '<');
    lemma_count_of_parts(p1, b, '<');
    lemma_count_of_parts(p2, decimal(h), '<');
    lemma_count_of_parts(p3, c, '<');
    lemma_count_of_parts(p4, decimal(w), '<');
    lemma_count_of_parts(p5, d, '<');
    lemma_count_of_parts(p6, decimal(h), '<');
    lemma_count_of_parts(p7, e, '<');
}

proof fn lemma_style_marks(e: Seq<char>)
    requires
        e
            == "\">\n<rect width=\"100%\" height=\"100%\" fill=\"#101014\"/>\n<style>text{font-family:Menlo,Monaco,'Courier New',monospace;font-size:12px;white-space:pre}</style>\n"@,
    ensures
        count_of(e, '<') == 3,
{
    reveal_strlit(
        "\">\n<rect width=\"100%\" height=\"100%\" fill=\"#101014\"/>\n<style>text{font-family:Menlo,Monaco,'Courier New',monospace;font-size:12px;white-space:pre}</style>\n",
    );
    let one = seq!['<'];
    lemma_count_one('<', '<');
    let a = e.take(3);
    let b = e.subrange(4, 53);
    let c = e.subrange(54, e.len() - 9);
    let d = e.skip(e.len() - 8);
    assert(e =~= a + one + b + one + c + one + d);
    lemma_count_none(a, '<');
    lemma_count_none(b, '<');
    lemma_count_none(c, '<');
    lemma_count_none(d, '<');
    lemma_count_of_parts(a, one, '<');
    lemma_count_of_parts(a + one, b, '<');
    lemma_count_of_parts(a + one + b, one, '<');
    lemma_count_of_parts(a + one + b + one, c, '<');
    lemma_count_of_parts(a + one + b + one + c, one, '<');
    lemma_count_of_parts(a + one + b + one + c + one, d, '<');
}

/// Nothing is drawn but the picture: beside the five marks of its frame, an SVG
/// has the two of a text for each run of one colour in each row, and no more.
pub proof fn lemma_svg_holds_nothing_else(frame: RenderFrame, r: String)
    requires
        call_ensures(render_frame_to_svg, (&frame,), r),
    ensures
        count_of(r@, '<') == 5 + 2 * run_count(frame@, frame@.chars.len()),
{
    let picture = frame@;
    let n = picture.chars.len();
    let w = longest(picture.chars, n) * 8;
    let head = crate::export::svg_head(w, n * 12);
    lemma_head_marks(w, n * 12);
    lemma_rows_marks(picture, n);
    lemma_count_of_parts(head, svg_rows(picture, n), '<');
    lemma_count_of_parts(head + svg_rows(picture, n), "</svg>\n"@, '<');
}

/// Whether a text is one escape sequence: it starts with an escape character,
/// and its only `m` ends it.
pub open spec fn is_escape(code: Seq<char>) -> bool {
    &&& code.len() >= 2
    &&& code[0] == '\x1b'
    &&& code.last() == 'm'
    &&& forall|i: int| 0 < i < code.len() - 1 ==> #[trigger] code[i] != 'm'
}

proof fn lemma_plain_shows_itself(text: Seq<char>, n: nat)
    requires
        n <= text.len(),
        forall|i: int| 0 <= i < text.len() ==> #[trigger] text[i] != '\x1b',
    ensures
        !within_code(text, n),
        without_codes(text, n) == text.take(n as int),
    decreases n,
{
    if n > 0 {
        lemma_plain_shows_itself(text, (n - 1) as nat);
        assert(text[n - 1] != '\x1b');
        assert(text.take(n as int) =~= text.take(n - 1).push(text[n - 1]));
    } else {
        assert(text.take(0) =~= Seq::<char>::empty());
    }
}

proof fn lemma_escape_is_hidden(code: Seq<char>, n: nat)
    requires
        is_escape(code),
        0 < n <= code.len(),
    ensures
        within_code(code, n) == (n < code.len()),
        without_codes(code, n) == Seq::<char>::empty(),
    decreases n,
{
    if n > 1 {
        lemma_escape_is_hidden(code, (n - 1) as nat);
        assert(n < code.len() ==> code[n - 1] != 'm');
    } else {
        assert(!within_code(code, 0));
        assert(without_codes(code, 0) == Seq::<char>::empty());
    }
}

/// An escape sequence in a text is left out of its HTML: the HTML is that of the
/// text without it.
pub proof fn lemma_html_leaves_out_escapes(
    a: &str,
    code: Seq<char>,
    b: &str,
    with: &str,
    without: &str,
    r: String,
    q: String,
)
    requires
        forall|i: int| 0 <= i < a@.len() ==> #[trigger] a@[i] != '\x1b',
        is_escape(code),
        with@ == a@ + code + b@,
        without@ == a@ + b@,
        call_ensures(ansi_to_html, (with,), r),
        call_ensures(ansi_to_html, (without,), q),
    ensures
        r@ == q@,
{
    lemma_plain_shows_itself(a@, a@.len());
    lemma_escape_is_hidden(code, code.len());
    lemma_read_on(a@, code);
    lemma_read_on(a@ + code, b@);
    lemma_read_on(a@, b@);
    let shown = without_codes(a@, a@.len());
    assert(shown + Seq::<char>::empty() =~= shown);
}

/// What is no escape sequence is kept, character by character, with `&`, `<`,
/// `>` and `"` written as entities and nothing else changed.
pub proof fn lemma_html_keeps_characters(
    a: &str,
    c: char,
    more: &str,
    r: String,
    q: String,
)
    requires
        forall|i: int| 0 <= i < a@.len() ==> #[trigger] a@[i] != '\x1b',
        c != '\x1b',
        more@ == a@.push(c),
        call_ensures(ansi_to_html, (a,), r),
        call_ensures(ansi_to_html, (more,), q),
    ensures
        a@.len() == 0 ==> r@.len() == 0,
        c == '&' ==> q@ == r@ + seq!['&', 'a', 'm', 'p', ';'],
        c == '<' ==> q@ == r@ + seq!['&', 'l', 't', ';'],
        c == '>' ==> q@ == r@ + seq!['&', 'g', 't', ';'],
        c == '"' ==> q@ == r@ + seq!['&', 'q', 'u', 'o', 't', ';'],
        c != '&' && c != '<' && c != '>' && c != '"' ==> q@ == r@.push(c),
{
    lemma_plain_shows_itself(a@, a@.len());
    lemma_plain_shows_itself(more@, more@.len());
    assert(a@.take(a@.len() as int) =~= a@);
    assert(more@.take(more@.len() as int) =~= more@);
    assert(more@.drop_last() =~= a@);
    lemma_entity_letters(c, false);
    assert(q@ == r@ + entity(c, false));
    if c != '&' && c != '<' && c != '>' && c != '"' {
        assert(r@ + seq![c] =~= r@.push(c));
    }
}

/// A page shows the HTML of its text between the tags that keep its blanks and
/// lines.
#[verifier::rlimit(40)]
pub proof fn lemma_page_holds_html(text: &str, r: String, body: String)
    requires
        call_ensures(html_page, (text,), r),
        call_ensures(ansi_to_html, (text,), body),
    ensures
        holds_text(r@, "<body><pre>"@ + body@ + "</pre></body></html>"@),
        r@
            == "<!doctype html><html><head><meta charset=\"utf-8\"><title>rustercam capture</title><style>body{background:#101014;margin:0;padding:20px}pre{font:10px/1 monospace;color:#ddd}</style></head><body><pre>"@
            + body@ + "</pre></body></html>"@,
{
    let start = "<!doctype html><html><head><meta charset=\"utf-8\"><title>rustercam capture</title><style>body{background:#101014;margin:0;padding:20px}pre{font:10px/1 monospace;color:#ddd}</style></head><body><pre>"@;
    let cut = start.len() - 11;
    lemma_page_start();
    lemma_three_parts(start.take(cut), start.skip(cut), body@, "</pre></body></html>"@);
    lemma_holds_within(
        start.take(cut),
        "<body><pre>"@ + body@ + "</pre></body></html>"@,
        Seq::empty(),
    );
    assert(start =~= start.take(cut) + start.skip(cut));
}

proof fn lemma_three_parts(a: Seq<char>, b: Seq<char>, c: Seq<char>, d: Seq<char>)
    ensures
        a + b + c + d == a + (b + c + d) + Seq::<char>::empty(),
{
    assert(a + b + c + d =~= a + (b + c + d) + Seq::<char>::empty());
}

proof fn lemma_page_start()
    ensures
        ({
            let start = "<!doctype html><html><head><meta charset=\"utf-8\"><title>rustercam capture</title><style>body{background:#101014;margin:0;padding:20px}pre{font:10px/1 monospace;color:#ddd}</style></head><body><pre>"@;
            start.len() >= 11 && start.skip(start.len() - 11) == "<body><pre>"@
        }),
{
    reveal_strlit(
        "<!doctype html><html><head><meta charset=\"utf-8\"><title>rustercam capture</title><style>body{background:#101014;margin:0;padding:20px}pre{font:10px/1 monospace;color:#ddd}</style></head><body><pre>",
    );
    reveal_strlit("<body><pre>");
    let start = "<!doctype html><html><head><meta charset=\"utf-8\"><title>rustercam capture</title><style>body{background:#101014;margin:0;padding:20px}pre{font:10px/1 monospace;color:#ddd}</style></head><body><pre>"@;
    assert(start.skip(start.len() - 11) =~= "<body><pre>"@);
}

proof fn lemma_escaped_breaks(text: Seq<char>)
    ensures
        count_of(escaped(text, false), '\n') == count_of(text, '\n'),
    decreases text.len(),
{
    if text.len() > 0 {
        let last = text.last();
        lemma_escaped_breaks(text.drop_last());
        lemma_entity_letters(last, false);
        lemma_count_of_parts(escaped(text.drop_last(), false), entity(last, false), '\n');
        if last == '\n' {
            lemma_count_one('\n', '\n');
        } else {
            lemma_count_none(entity(last, false), '\n');
        }
    }
}

proof fn lemma_joined_row(lines: Seq<Seq<char>>, y: int, n: nat) -> (after: Seq<char>)
    requires
        0 <= y < n <= lines.len(),
    ensures
        joined(lines, n) == joined(lines, y as nat) + lines[y] + after,
        after.len() == 0 || after[0] == '\n',
        n < lines.len() ==> after.len() > 0,
    decreases n,
{
    if y == n - 1 {
        let after = if n < lines.len() {
            seq!['\n']
        } else {
            Seq::empty()
        };
        after
    } else {
        let rest = lemma_joined_row(lines, y, (n - 1) as nat);
        let feed = if n < lines.len() {
            seq!['\n']
        } else {
            Seq::empty()
        };
        let after = rest + (lines[n - 1] + feed);
        assert(joined(lines, n) =~= joined(lines, y as nat) + lines[y] + after);
        after
    }
}

proof fn lemma_joined_breaks(lines: Seq<Seq<char>>, n: nat)
    requires
        n < lines.len(),
        forall|y: int| 0 <= y < lines.len() ==> count_of(#[trigger] lines[y], '\n') == 0,
    ensures
        count_of(joined(lines, n), '\n') == n,
        n > 0 ==> joined(lines, n).len() > 0 && joined(lines, n).last() == '\n',
    decreases n,
{
    if n > 0 {
        let k = (n - 1) as nat;
        lemma_joined_breaks(lines, k);
        let feed = seq!['\n'];
        lemma_count_one('\n', '\n');
        assert(count_of(lines[n - 1], '\n') == 0);
        lemma_count_of_parts(joined(lines, k), lines[n - 1], '\n');
        lemma_count_of_parts(joined(lines, k) + lines[n - 1], feed, '\n');
        assert(joined(lines, n).last() == '\n');
    }
}

/// The HTML of a rendered frame has a line for each row of the picture, whatever
/// the colours, and each holds the row's characters, written as in markup.
#[verifier::rlimit(40)]
pub proof fn lemma_html_shows_rows(
    frame: Frame,
    cols: usize,
    rows: usize,
    lut: &[char],
    tone: &[u8],
    mode: ColorMode,
    r: (RenderFrame, String),
    text: &str,
    html: String,
    y: int,
)
    requires
        call_ensures(render_frame, (&frame, cols, rows, lut, tone, mode), r),
        text@ == r.1@,
        call_ensures(ansi_to_html, (text,), html),
        plain_table(lut@),
        0 <= y < rows,
    ensures
        line_is(html@, y, escaped(r.0@.chars[y], false)),
        count_of(html@, '\n') == rows - 1,
{
    let scene = scene_of(frame, cols, rows, lut@, tone@, mode);
    let lines = r.0@.chars;
    assert forall|x: int, y: int| 0 <= x < scene.cols && 0 <= y < scene.rows implies
        #[trigger] scene.glyph(x, y) != ESCAPE && scene.glyph(x, y) != '\n' by {
        lemma_luma_sum(scene.color(x, y));
        assert(scene.glyph(x, y) == scene.lut[scene.level(x, y)]);
    }
    lemma_rows_show_glyphs(scene, rows as nat);
    assert(html@ == escaped(joined(lines, rows as nat), false));
    assert forall|y: int| 0 <= y < lines.len() implies count_of(#[trigger] lines[y], '\n') == 0 by {
        assert forall|x: int| 0 <= x < lines[y].len() implies #[trigger] lines[y][x] != '\n' by {
            assert(lines[y][x] == scene.glyph(x, y));
        }
        lemma_count_none(lines[y], '\n');
    }
    let before = joined(lines, y as nat);
    let after = lemma_joined_row(lines, y, rows as nat);
    lemma_joined_breaks(lines, y as nat);
    lemma_escaped_parts(before, lines[y], false);
    lemma_escaped_parts(before + lines[y], after, false);
    lemma_escaped_breaks(before);
    assert(count_of(lines[y], '\n') == 0);
    lemma_escaped_breaks(lines[y]);
    lemma_escaped_edges(before);
    lemma_escaped_edges(after);
    lemma_line_between(
        escaped(before, false),
        escaped(lines[y], false),
        escaped(after, false),
    );
    let last = rows - 1;
    lemma_joined_breaks(lines, last as nat);
    lemma_escaped_breaks(joined(lines, rows as nat));
    assert(count_of(lines[last], '\n') == 0);
    lemma_count_of_parts(joined(lines, last as nat), lines[last], '\n');
    assert(joined(lines, rows as nat) =~= joined(lines, last as nat) + lines[last]);
}

/// Where a text begins or ends with a line break, so does its markup.
proof fn lemma_escaped_edges(text: Seq<char>)
    ensures
        text.len() == 0 ==> escaped(text, false).len() == 0,
        text.len() > 0 && text.last() == '\n' ==> escaped(text, false).len() > 0 && escaped(
            text,
            false,
        ).last() == '\n',
        text.len() > 0 && text[0] == '\n' ==> escaped(text, false).len() > 0 && escaped(
            text,
            false,
        )[0] == '\n',
    decreases text.len(),
{
    if text.len() > 1 {
        lemma_escaped_edges(text.drop_last());
    } else if text.len() == 1 {
        assert(escaped(text.drop_last(), false) =~= Seq::<char>::empty());
        assert(text[0] == text.last());
        assert(escaped(text, false) =~= entity(text[0], false));
    }
}

/// A character stands in an SVG as itself, or as its entity where it is `&`, `<`,
/// `>`, `"` or an apostrophe; and a text is written character by character.
pub proof fn lemma_svg_text_is_escaped(text: Seq<char>, c: char)
    ensures
        escaped(Seq::<char>::empty(), true).len() == 0,
        c == '&' ==> escaped(text.push(c), true) == escaped(text, true)
            + seq!['&', 'a', 'm', 'p', ';'],
        c == '<' ==> escaped(text.push(c), true) == escaped(text, true) + seq!['&', 'l', 't', ';'],
        c == '>' ==> escaped(text.push(c), true) == escaped(text, true) + seq!['&', 'g', 't', ';'],
        c == '"' ==> escaped(text.push(c), true) == escaped(text, true)
            + seq!['&', 'q', 'u', 'o', 't', ';'],
        c == '\'' ==> escaped(text.push(c), true) == escaped(text, true)
            + seq!['&', 'a', 'p', 'o', 's', ';'],
        c != '&' && c != '<' && c != '>' && c != '"' && c != '\'' ==> escaped(text.push(c), true)
            == escaped(text, true).push(c),
{
    assert(text.push(c).drop_last() =~= text);
    lemma_entity_letters(c, true);
    assert(escaped(text.push(c), true) == escaped(text, true) + entity(c, true));
    if c != '&' && c != '<' && c != '>' && c != '"' && c != '\'' {
        assert(escaped(text, true) + seq![c] =~= escaped(text, true).push(c));
    }
}

} // verus!
