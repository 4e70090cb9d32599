//! Still pictures of the terminal: HTML of its text and SVG of its cells.
use vstd::prelude::*;

use crate::cli::ColorMode;
use crate::color::{ansi_code, table_code, true_color_code};
use crate::frame::{color_grid, color_rows, text_rows, Picture, RenderFrame, Rgb};
use crate::render::{letters_of, Scene};
use crate::text::{decimal, push_decimal};

verus! {

/// The character that escape sequences start with.
pub const ESCAPE: char = '\x1b';

/// The width of a cell in an SVG picture.
pub const CELL_WIDTH: usize = 8;

/// The height of a cell in an SVG picture.
pub const CELL_HEIGHT: usize = 12;

/// How far below the top of its cell text stands in an SVG picture.
pub const BASELINE: usize = 10;

/// The colour of text that has none of its own.
pub const PLAIN: Rgb = (220, 220, 220);

/// Whether the first `n` characters of a text end within an escape sequence:
/// one that has started and not yet come to its `m`.
pub open spec fn within_code(text: Seq<char>, n: nat) -> bool
    decreases n,
{
    if n == 0 {
        false
    } else if within_code(text, (n - 1) as nat) {
        text[n - 1] != 'm'
    } else {
        text[n - 1] == ESCAPE
    }
}

/// The first `n` characters of a text without its escape sequences.
pub open spec fn without_codes(text: Seq<char>, n: nat) -> Seq<char>
    decreases n,
{
    if n == 0 {
        Seq::empty()
    } else {
        let before = without_codes(text, (n - 1) as nat);
        if within_code(text, (n - 1) as nat) || text[n - 1] == ESCAPE {
            before
        } else {
            before.push(text[n - 1])
        }
    }
}

/// What a character is written as in markup, where `apostrophes` are escaped
/// too or not.
pub open spec fn entity(c: char, apostrophes: bool) -> Seq<char> {
    if c == '&' {
        "&amp;"@
    } else if c == '<' {
        "&lt;"@
    } else if c == '>' {
        "&gt;"@
    } else if c == '"' {
        "&quot;"@
    } else if c == '\'' && apostrophes {
        "&apos;"@
    } else {
        seq![c]
    }
}

/// A text as it is written in markup.
pub open spec fn escaped(text: Seq<char>, apostrophes: bool) -> Seq<char>
    decreases text.len(),
{
    if text.len() == 0 {
        Seq::empty()
    } else {
        escaped(text.drop_last(), apostrophes) + entity(text.last(), apostrophes)
    }
}

/// Appends a character as it is written in markup.
fn push_entity(out: &mut String, c: char, apostrophes: bool)
    ensures
        final(out)@ == old(out)@ + entity(c, apostrophes),
{
    if c == '&' {
        out.append("&amp;");
    } else if c == '<' {
        out.append("&lt;");
    } else if c == '>' {
        out.append("&gt;");
    } else if c == '"' {
        out.append("&quot;");
    } else if c == '\'' && apostrophes {
        out.append("&apos;");
    } else {
        out.push(c);
        assert(out@ =~= old(out)@ + seq![c]);
    }
}

/// The HTML of a terminal text: its characters without the escape sequences.
pub fn ansi_to_html(input: &str) -> (r: String)
    ensures
        r@ == escaped(without_codes(input@, input@.len()), false),
{
    let mut out = String::new();
    let chars = letters_of(input);
    let mut within: bool = false;
    let mut i: usize = 0;
    assert(out@ =~= Seq::<char>::empty());
    while i < chars.len()
        invariant
            i <= chars.len(),
            chars@ == input@,
            within == within_code(input@, i as nat),
            out@ == escaped(without_codes(input@, i as nat), false),
        decreases chars.len() - i,
    {
        let ch: char = chars[i];
        if within {
            within = ch != 'm';
        } else if ch == ESCAPE {
            within = true;
        } else {
            push_entity(&mut out, ch, false);
            proof {
                let before = without_codes(input@, i as nat);
                assert(before.push(ch).drop_last() =~= before);
            }
        }
        i += 1;
    }
    out
}

/// A text as it is written in XML.
fn escape_xml(input: &[char]) -> (r: String)
    ensures
        r@ == escaped(input@, true),
{
    let mut out = String::new();
    let mut i: usize = 0;
    assert(out@ =~= Seq::<char>::empty());
    assert(input@.take(0) =~= Seq::<char>::empty());
    while i < input.len()
        invariant
            i <= input.len(),
            out@ == escaped(input@.take(i as int), true),
        decreases input.len() - i,
    {
        push_entity(&mut out, input[i], true);
        i += 1;
        proof {
            assert(input@.take(i as int).drop_last() =~= input@.take(i - 1));
        }
    }
    assert(input@.take(i as int) =~= input@);
    out
}

/// The page that shows the HTML of a terminal text.
pub open spec fn page_of(body: Seq<char>) -> Seq<char> {
    "<!doctype html><html><head><meta charset=\"utf-8\"><title>rustercam capture</title><style>body{background:#101014;margin:0;padding:20px}pre{font:10px/1 monospace;color:#ddd}</style></head><body><pre>"@
        + body + "</pre></body></html>"@
}

/// The page that shows a terminal text.
pub fn html_page(text: &str) -> (r: String)
    ensures
        r@ == page_of(escaped(without_codes(text@, text@.len()), false)),
{
    let mut out = String::new();
    let body = ansi_to_html(text);
    out.append("<!doctype html><html><head><meta charset=\"utf-8\"><title>rustercam capture</title><style>body{background:#101014;margin:0;padding:20px}pre{font:10px/1 monospace;color:#ddd}</style></head><body><pre>");
    out.append(body.as_str());
    out.append("</pre></body></html>");
    assert(out@ =~= page_of(body@));
    out
}

/// One run of text in an SVG picture; nothing where there is no text.
pub open spec fn svg_run(x: int, y: int, color: Rgb, text: Seq<char>) -> Seq<char> {
    if text.len() == 0 {
        Seq::empty()
    } else {
        "<text x=\""@ + decimal((x * CELL_WIDTH) as nat) + "\" y=\""@ + decimal(
            (y * CELL_HEIGHT + BASELINE) as nat,
        ) + "\" fill=\"rgb("@ + decimal(color.0 as nat) + ","@ + decimal(color.1 as nat) + ","@
            + decimal(color.2 as nat) + ")\">"@ + escaped(text, true) + "</text>\n"@
    }
}

/// The colour of a cell in an SVG picture.
pub open spec fn ink(colors: Seq<Seq<Rgb>>, x: int, y: int) -> Rgb {
    if y < colors.len() && x < colors[y].len() {
        colors[y][x]
    } else {
        PLAIN
    }
}

/// Where the run of one colour that starts at `x` ends.
pub open spec fn run_end(colors: Seq<Seq<Rgb>>, y: int, x: int, width: int) -> int
    decreases width - x,
{
    if x + 1 < width && ink(colors, x + 1, y) == ink(colors, x, y) {
        run_end(colors, y, x + 1, width)
    } else {
        x + 1
    }
}

/// A run is of one colour throughout, and as long as that colour lasts.
pub proof fn lemma_runs_are_longest(colors: Seq<Seq<Rgb>>, y: int, x: int, width: int)
    requires
        x < width,
    ensures
        x < run_end(colors, y, x, width) <= width,
        forall|i: int|
            x <= i < run_end(colors, y, x, width) ==> #[trigger] ink(colors, i, y) == ink(
                colors,
                x,
                y,
            ),
        run_end(colors, y, x, width) < width ==> ink(colors, run_end(colors, y, x, width), y)
            != ink(colors, x, y),
    decreases width - x,
{
    if x + 1 < width && ink(colors, x + 1, y) == ink(colors, x, y) {
        lemma_runs_are_longest(colors, y, x + 1, width);
    }
}

/// A run ends where the colour changes or the row ends.
proof fn lemma_run_ends_at(colors: Seq<Seq<Rgb>>, y: int, x: int, end: int, width: int)
    requires
        x < end <= width,
        forall|i: int| x <= i < end ==> #[trigger] ink(colors, i, y) == ink(colors, x, y),
        end == width || ink(colors, end, y) != ink(colors, x, y),
    ensures
        run_end(colors, y, x, width) == end,
    decreases end - x,
{
    if x + 1 < end {
        assert(ink(colors, x + 1, y) == ink(colors, x, y));
        lemma_run_ends_at(colors, y, x + 1, end, width);
    }
}

/// The runs of a row from column `x` on, each as long as its colour lasts.
pub open spec fn svg_runs(colors: Seq<Seq<Rgb>>, y: int, row: Seq<char>, x: int) -> Seq<char>
    decreases row.len() - x,
{
    if x < row.len() {
        let end = run_end(colors, y, x, row.len() as int);
        proof {
            lemma_runs_are_longest(colors, y, x, row.len() as int);
        }
        svg_run(x, y, ink(colors, x, y), row.subrange(x, end)) + svg_runs(colors, y, row, end)
    } else {
        Seq::empty()
    }
}

/// One row of an SVG picture.
pub open spec fn svg_row(picture: Picture, y: int) -> Seq<char> {
    match picture.colors {
        Some(colors) => svg_runs(colors, y, picture.chars[y], 0),
        None => svg_run(0, y, PLAIN, picture.chars[y]),
    }
}

/// The first `n` rows of an SVG picture.
pub open spec fn svg_rows(picture: Picture, n: nat) -> Seq<char>
    decreases n,
{
    if n == 0 {
        Seq::empty()
    } else {
        svg_rows(picture, (n - 1) as nat) + svg_row(picture, n - 1)
    }
}

/// The number of characters in the longest of the first `n` rows.
pub open spec fn longest(rows: Seq<Seq<char>>, n: nat) -> nat
    decreases n,
{
    if n == 0 {
        0
    } else {
        let before = longest(rows, (n - 1) as nat);
        if rows[n - 1].len() > before {
            rows[n - 1].len()
        } else {
            before
        }
    }
}

/// How an SVG picture of a size begins.
pub open spec fn svg_head(width: nat, height: nat) -> Seq<char> {
    "<svg xmlns=\"http://www.w3.org/2000/svg\" width=\""@ + decimal(width) + "\" height=\""@
        + decimal(height) + "\" viewBox=\"0 0 "@ + decimal(width) + " "@ + decimal(height)
        + "\">\n<rect width=\"100%\" height=\"100%\" fill=\"#101014\"/>\n<style>text{font-family:Menlo,Monaco,'Courier New',monospace;font-size:12px;white-space:pre}</style>\n"@
}

/// The SVG of a picture.
pub open spec fn svg_of(picture: Picture) -> Seq<char> {
    svg_head(
        longest(picture.chars, picture.chars.len()) * CELL_WIDTH as nat,
        picture.chars.len() * CELL_HEIGHT as nat,
    ) + svg_rows(picture, picture.chars.len()) + "</svg>\n"@
}

/// The longest row is as long as one of them.
pub proof fn lemma_longest(rows: Seq<Seq<char>>, n: nat, i: int)
    requires
        0 <= i < n <= rows.len(),
    ensures
        rows[i].len() <= longest(rows, n),
    decreases n,
{
    if i < n - 1 {
        lemma_longest(rows, (n - 1) as nat, i);
    }
}

/// The colour of a cell in an SVG picture.
fn ink_at(colors: &Vec<Vec<Rgb>>, x: usize, y: usize) -> (r: Rgb)
    ensures
        r == ink(color_rows(colors@), x as int, y as int),
{
    if y < colors.len() && x < colors[y].len() {
        colors[y][x]
    } else {
        PLAIN
    }
}

/// Appends one run of text to an SVG picture.
fn push_svg_text_run(svg: &mut String, x: usize, y: usize, color: Rgb, text: &[char])
    requires
        x * CELL_WIDTH <= usize::MAX,
        y * CELL_HEIGHT + BASELINE <= usize::MAX,
    ensures
        final(svg)@ == old(svg)@ + svg_run(x as int, y as int, color, text@),
{
    if text.len() == 0 {
        assert(svg@ =~= old(svg)@ + Seq::empty());
        return;
    }
    let mut run = String::new();
    run.append("<text x=\"");
    assert(run@ =~= "<text x=\""@);
    push_decimal(&mut run, (x * CELL_WIDTH) as u64);
    run.append("\" y=\"");
    push_decimal(&mut run, (y * CELL_HEIGHT + BASELINE) as u64);
    run.append("\" fill=\"rgb(");
    push_decimal(&mut run, color.0 as u64);
    run.append(",");
    push_decimal(&mut run, color.1 as u64);
    run.append(",");
    push_decimal(&mut run, color.2 as u64);
    run.append(")\">");
    let body = escape_xml(text);
    run.append(body.as_str());
    run.append("</text>\n");
    svg.append(run.as_str());
}

/// Appends the runs of a coloured row to an SVG picture.
fn push_svg_runs(svg: &mut String, colors: &Vec<Vec<Rgb>>, y: usize, row: &[char])
    requires
        row@.len() * CELL_WIDTH <= usize::MAX,
        y * CELL_HEIGHT + BASELINE <= usize::MAX,
    ensures
        final(svg)@ == old(svg)@ + svg_runs(
            color_rows(colors@),
            y as int,
            row@,
            0,
        ),
{
    let ghost grid = color_rows(colors@);
    let n: usize = row.len();
    let mut start: usize = 0;
    while start < n
        invariant
            start <= n,
            n == row@.len(),
            n * CELL_WIDTH <= usize::MAX,
            y * CELL_HEIGHT + BASELINE <= usize::MAX,
            grid == color_rows(colors@),
            old(svg)@ + svg_runs(grid, y as int, row@, 0) == svg@ + svg_runs(
                grid,
                y as int,
                row@,
                start as int,
            ),
        decreases n - start,
    {
        let color = ink_at(colors, start, y);
        let mut stop: usize = start + 1;
        while stop < n && same_color(ink_at(colors, stop, y), color)
            invariant
                start < stop <= n,
                n == row@.len(),
                grid == color_rows(colors@),
                color == ink(grid, start as int, y as int),
                forall|i: int|
                    start <= i < stop ==> #[trigger] ink(grid, i, y as int) == ink(
                        grid,
                        start as int,
                        y as int,
                    ),
            ensures
                stop == n || ink(grid, stop as int, y as int) != color,
            decreases n - stop,
        {
            stop += 1;
        }
        proof {
            lemma_run_ends_at(grid, y as int, start as int, stop as int, n as int);
        }
        let ghost before = svg@;
        push_svg_text_run(
            svg,
            start,
            y,
            color,
            vstd::slice::slice_subrange(row, start, stop),
        );
        proof {
            assert(before + svg_runs(grid, y as int, row@, start as int) =~= svg@ + svg_runs(
                grid,
                y as int,
                row@,
                stop as int,
            ));
        }
        start = stop;
    }
    assert(svg@ + svg_runs(grid, y as int, row@, start as int) =~= svg@);
}

/// Whether two colours are the same.
fn same_color(a: Rgb, b: Rgb) -> (r: bool)
    ensures
        r == (a == b),
{
    a.0 == b.0 && a.1 == b.1 && a.2 == b.2
}

/// The number of characters in the longest row.
fn longest_row(rows: &Vec<String>) -> (r: usize)
    ensures
        r == longest(text_rows(rows@), rows@.len()),
{
    let mut most: usize = 0;
    let mut i: usize = 0;
    while i < rows.len()
        invariant
            i <= rows.len(),
            most == longest(text_rows(rows@), i as nat),
        decreases rows.len() - i,
    {
        let n: usize = rows[i].as_str().unicode_len();
        if n > most {
            most = n;
        }
        i += 1;
    }
    most
}

/// The SVG of a frame: every character in its cell, runs of one colour
/// together.
pub fn render_frame_to_svg(frame: &RenderFrame) -> (r: String)
    requires
        longest(frame@.chars, frame@.chars.len()) * CELL_WIDTH <= usize::MAX,
        frame@.chars.len() * CELL_HEIGHT <= usize::MAX,
    ensures
        r@ == svg_of(frame@),
{
    let width: usize = longest_row(&frame.chars) * CELL_WIDTH;
    let height: usize = frame.chars.len() * CELL_HEIGHT;
    let mut svg = String::new();
    svg.append("<svg xmlns=\"http://www.w3.org/2000/svg\" width=\"");
    push_decimal(&mut svg, width as u64);
    svg.append("\" height=\"");
    push_decimal(&mut svg, height as u64);
    svg.append("\" viewBox=\"0 0 ");
    push_decimal(&mut svg, width as u64);
    svg.append(" ");
    push_decimal(&mut svg, height as u64);
    svg.append("\">\n<rect width=\"100%\" height=\"100%\" fill=\"#101014\"/>\n<style>text{font-family:Menlo,Monaco,'Courier New',monospace;font-size:12px;white-space:pre}</style>\n");
    let ghost head = svg_head(width as nat, height as nat);
    assert(svg@ =~= head + svg_rows(frame@, 0));
    let mut y: usize = 0;
    while y < frame.chars.len()
        invariant
            y <= frame.chars.len(),
            svg@ == head + svg_rows(frame@, y as nat),
            frame@.chars == text_rows(frame.chars@),
            frame@.colors == color_grid(frame.colors),
            longest(frame@.chars, frame@.chars.len()) * CELL_WIDTH <= usize::MAX,
            frame@.chars.len() * CELL_HEIGHT <= usize::MAX,
        decreases frame.chars.len() - y,
    {
        let row = letters_of(frame.chars[y].as_str());
        proof {
            lemma_longest(frame@.chars, frame@.chars.len(), y as int);
            assert(row@ == frame@.chars[y as int]);
        }
        let ghost before = svg@;
        match &frame.colors {
            Some(colors) => {
                push_svg_runs(&mut svg, colors, y, row.as_slice());
            },
            None => {
                push_svg_text_run(&mut svg, 0, y, PLAIN, row.as_slice());
            },
        }
        assert(svg@ == before + svg_row(frame@, y as int));
        assert(svg@ =~= head + svg_rows(frame@, (y + 1) as nat));
        y += 1;
    }
    svg.append("</svg>\n");
    svg
}

/// The markup of two texts is the markup of both together.
pub proof fn lemma_escaped_parts(a: Seq<char>, b: Seq<char>, apostrophes: bool)
    ensures
        escaped(a + b, apostrophes) == escaped(a, apostrophes) + escaped(b, apostrophes),
    decreases b.len(),
{
    if b.len() == 0 {
        assert(a + b =~= a);
        assert(escaped(a, apostrophes) + escaped(b, apostrophes) =~= escaped(a, apostrophes));
    } else {
        lemma_escaped_parts(a, b.drop_last(), apostrophes);
        assert((a + b).drop_last() =~= a + b.drop_last());
        assert(escaped(a + b, apostrophes) =~= escaped(a, apostrophes) + escaped(b, apostrophes));
    }
}

/// What the entities are, letter by letter.
pub proof fn lemma_entity_letters(c: char, apostrophes: bool)
    ensures
        c == '&' ==> entity(c, apostrophes) =~= seq!['&', 'a', 'm', 'p', ';'],
        c == '<' ==> entity(c, apostrophes) =~= seq!['&', 'l', 't', ';'],
        c == '>' ==> entity(c, apostrophes) =~= seq!['&', 'g', 't', ';'],
        c == '"' ==> entity(c, apostrophes) =~= seq!['&', 'q', 'u', 'o', 't', ';'],
        c == '\'' && apostrophes ==> entity(c, apostrophes) =~= seq!['&', 'a', 'p', 'o', 's', ';'],
{
    reveal_strlit("&amp;");
    reveal_strlit("&lt;");
    reveal_strlit("&gt;");
    reveal_strlit("&quot;");
    reveal_strlit("&apos;");
}

/// Markup holds no character that would end text or a quoted value.
pub proof fn lemma_escaped_is_safe(text: Seq<char>, apostrophes: bool)
    ensures
        forall|i: int|
            0 <= i < escaped(text, apostrophes).len() ==> {
                &&& #[trigger] escaped(text, apostrophes)[i] != '<'
                &&& escaped(text, apostrophes)[i] != '>'
                &&& escaped(text, apostrophes)[i] != '"'
                &&& apostrophes ==> escaped(text, apostrophes)[i] != '\''
            },
    decreases text.len(),
{
    if text.len() > 0 {
        lemma_escaped_is_safe(text.drop_last(), apostrophes);
        lemma_entity_letters(text.last(), apostrophes);
        let before = escaped(text.drop_last(), apostrophes);
        let last = entity(text.last(), apostrophes);
        let whole = escaped(text, apostrophes);
        assert forall|i: int| 0 <= i < whole.len() implies {
            &&& #[trigger] whole[i] != '<'
            &&& whole[i] != '>'
            &&& whole[i] != '"'
            &&& apostrophes ==> whole[i] != '\''
        } by {
            if i < before.len() {
                assert(whole[i] == before[i]);
            } else {
                assert(whole[i] == last[i - before.len()]);
            }
        }
    }
}

/// Markup keeps the text: different texts have different markup.
pub proof fn lemma_escaped_keeps_text(a: Seq<char>, b: Seq<char>, apostrophes: bool)
    requires
        escaped(a, apostrophes) == escaped(b, apostrophes),
    ensures
        a == b,
    decreases a.len(),
{
    if a.len() > 0 {
        lemma_first_entity(a, apostrophes);
    }
    if b.len() > 0 {
        lemma_first_entity(b, apostrophes);
    }
    if a.len() > 0 && b.len() > 0 {
        let ea = entity(a[0], apostrophes);
        let eb = entity(b[0], apostrophes);
        let ra = escaped(a.drop_first(), apostrophes);
        let rb = escaped(b.drop_first(), apostrophes);
        lemma_entity_letters(a[0], apostrophes);
        lemma_entity_letters(b[0], apostrophes);
        let whole = escaped(a, apostrophes);
        assert(whole[0] == ea[0] && whole[0] == eb[0]);
        if whole[0] == '&' {
            assert(whole[1] == ea[1] && whole[1] == eb[1]);
            assert(whole[2] == ea[2] && whole[2] == eb[2]);
        }
        assert(a[0] == b[0]);
        assert(ra =~= whole.skip(ea.len() as int));
        assert(rb =~= whole.skip(eb.len() as int));
        lemma_escaped_keeps_text(a.drop_first(), b.drop_first(), apostrophes);
        assert(a =~= seq![a[0]] + a.drop_first());
        assert(b =~= seq![b[0]] + b.drop_first());
    } else {
        assert(a.len() == 0 ==> escaped(a, apostrophes).len() == 0);
        assert(b.len() == 0 ==> escaped(b, apostrophes).len() == 0);
        assert(a.len() > 0 ==> escaped(a, apostrophes).len() > 0);
        assert(b.len() > 0 ==> escaped(b, apostrophes).len() > 0);
        assert(a =~= b);
    }
}

/// The markup of a text starts with that of its first character.
proof fn lemma_first_entity(text: Seq<char>, apostrophes: bool)
    requires
        text.len() > 0,
    ensures
        escaped(text, apostrophes) == entity(text[0], apostrophes) + escaped(
            text.drop_first(),
            apostrophes,
        ),
        entity(text[0], apostrophes).len() > 0,
{
    let head = seq![text[0]];
    assert(text =~= head + text.drop_first());
    lemma_escaped_parts(head, text.drop_first(), apostrophes);
    assert(head.drop_last() =~= Seq::empty());
    assert(escaped(head.drop_last(), apostrophes) =~= Seq::empty());
    assert(escaped(head, apostrophes) =~= entity(text[0], apostrophes));
    lemma_entity_letters(text[0], apostrophes);
}

/// Where one text ends outside of escape sequences, another after it is read
/// as if it stood alone.
proof fn lemma_codes_parts(a: Seq<char>, b: Seq<char>, n: nat)
    requires
        !within_code(a, a.len()),
        n <= b.len(),
    ensures
        within_code(a + b, a.len() + n) == within_code(b, n),
        without_codes(a + b, a.len() + n) == without_codes(a, a.len()) + without_codes(b, n),
    decreases n,
{
    if n == 0 {
        lemma_codes_of_prefix(a, a + b, a.len());
        assert(without_codes(a, a.len()) + without_codes(b, 0) =~= without_codes(a, a.len()));
    } else {
        lemma_codes_parts(a, b, (n - 1) as nat);
        let last = b[n - 1];
        assert((a + b)[a.len() + n - 1] == last);
        assert(without_codes(a + b, a.len() + n) =~= without_codes(a, a.len()) + without_codes(
            b,
            n,
        ));
    }
}

/// What is read of the first characters depends on them alone.
proof fn lemma_codes_of_prefix(a: Seq<char>, b: Seq<char>, n: nat)
    requires
        n <= a.len(),
        n <= b.len(),
        forall|i: int| 0 <= i < n ==> #[trigger] a[i] == b[i],
    ensures
        within_code(a, n) == within_code(b, n),
        without_codes(a, n) == without_codes(b, n),
    decreases n,
{
    if n > 0 {
        lemma_codes_of_prefix(a, b, (n - 1) as nat);
        assert(a[n - 1] == b[n - 1]);
    }
}

/// Whether a text is one escape sequence, on one line.
pub open spec fn is_code(text: Seq<char>) -> bool {
    &&& text.len() >= 2
    &&& text[0] == ESCAPE
    &&& text.last() == 'm'
    &&& forall|i: int|
        0 < i < text.len() - 1 ==> #[trigger] text[i] != 'm' && text[i] != '\n'
}

/// An escape sequence shows nothing and ends.
proof fn lemma_code_shows_nothing(text: Seq<char>, n: nat)
    requires
        is_code(text),
        0 < n <= text.len(),
    ensures
        within_code(text, n) == (n < text.len()),
        without_codes(text, n) == Seq::<char>::empty(),
    decreases n,
{
    if n > 1 {
        lemma_code_shows_nothing(text, (n - 1) as nat);
        assert(n < text.len() ==> text[n - 1] != 'm');
    } else {
        assert(!within_code(text, 0));
        assert(without_codes(text, 0) == Seq::<char>::empty());
    }
}

/// A numeral holds digits only.
proof fn lemma_decimal_is_digits(n: nat)
    ensures
        decimal(n).len() > 0,
        forall|i: int| 0 <= i < decimal(n).len() ==> '0' <= #[trigger] decimal(n)[i] <= '9',
    decreases n,
{
    if n >= 10 {
        lemma_decimal_is_digits(n / 10);
    }
}

proof fn lemma_true_color_is_code(c: Rgb)
    ensures
        is_code(true_color_code(c)),
{
    reveal_strlit("\x1b[38;2;");
    reveal_strlit(";");
    reveal_strlit("m");
    lemma_decimal_is_digits(c.0 as nat);
    lemma_decimal_is_digits(c.1 as nat);
    lemma_decimal_is_digits(c.2 as nat);
    let code = true_color_code(c);
    let a = decimal(c.0 as nat);
    let b = decimal(c.1 as nat);
    let d = decimal(c.2 as nat);
    assert forall|i: int| 0 < i < code.len() - 1 implies #[trigger] code[i] != 'm'
        && code[i] != '\n' by {
        if i < 7 {
            assert(code[i] == "\x1b[38;2;"@[i]);
        } else if i < 7 + a.len() {
            assert(code[i] == a[i - 7]);
        } else if i == 7 + a.len() {
            assert(code[i] == ';');
        } else if i < 8 + a.len() + b.len() {
            assert(code[i] == b[i - 8 - a.len()]);
        } else if i == 8 + a.len() + b.len() {
            assert(code[i] == ';');
        } else {
            assert(code[i] == d[i - 9 - a.len() - b.len()]);
        }
    }
}

proof fn lemma_table_is_code(index: nat)
    ensures
        is_code(table_code(index)),
{
    reveal_strlit("\x1b[38;5;");
    reveal_strlit("m");
    lemma_decimal_is_digits(index);
    let code = table_code(index);
    assert forall|i: int| 0 < i < code.len() - 1 implies #[trigger] code[i] != 'm'
        && code[i] != '\n' by {
        if i < 7 {
            assert(code[i] == "\x1b[38;5;"@[i]);
        } else {
            assert(code[i] == decimal(index)[i - 7]);
        }
    }
}

/// The escape sequence of a colour is one, in every mode that has colours.
pub proof fn lemma_ansi_code_is_code(c: Rgb, mode: ColorMode)
    requires
        mode.colours(),
    ensures
        is_code(ansi_code(c.0, c.1, c.2, mode)),
{
    let code = ansi_code(c.0, c.1, c.2, mode);
    let y = crate::luma::luma_of(c.0, c.1, c.2);
    match mode {
        ColorMode::TrueColor => lemma_true_color_is_code(c),
        ColorMode::Ansi256 => lemma_table_is_code(crate::color::palette_index(c) as nat),
        ColorMode::Ansi16 => {
            let number = decimal(crate::color::ansi16_code(c.0, c.1, c.2) as nat);
            reveal_strlit("\x1b[");
            reveal_strlit("m");
            lemma_decimal_is_digits(crate::color::ansi16_code(c.0, c.1, c.2) as nat);
            assert forall|i: int| 0 < i < code.len() - 1 implies #[trigger] code[i] != 'm'
        && code[i] != '\n' by {
                if i >= 2 {
                    assert(code[i] == number[i - 2]);
                }
            }
        },
        ColorMode::Gray => lemma_table_is_code(232 + crate::color::gray_level(y)),
        ColorMode::Green => lemma_true_color_is_code((0, 255, 0)),
        ColorMode::GreenGray => lemma_true_color_is_code((0, crate::color::visible(y), 0)),
        ColorMode::Red => lemma_true_color_is_code((255, 0, 0)),
        ColorMode::RedGray => lemma_true_color_is_code((crate::color::visible(y), 0, 0)),
        ColorMode::Off => {},
    }
}

/// The first `n` of some lines of text, with a line break between each and the
/// next.
pub open spec fn joined(lines: Seq<Seq<char>>, n: nat) -> Seq<char>
    decreases n,
{
    if n == 0 {
        Seq::empty()
    } else {
        joined(lines, (n - 1) as nat) + lines[n - 1] + (if n < lines.len() {
            seq!['\n']
        } else {
            Seq::empty()
        })
    }
}

/// Reading on after a text that ends outside of escape sequences.
pub proof fn lemma_read_on(a: Seq<char>, b: Seq<char>)
    requires
        !within_code(a, a.len()),
    ensures
        within_code(a + b, (a + b).len()) == within_code(b, b.len()),
        without_codes(a + b, (a + b).len()) == without_codes(a, a.len()) + without_codes(
            b,
            b.len(),
        ),
{
    lemma_codes_parts(a, b, b.len());
}

/// An escape sequence, or nothing, shows nothing.
proof fn lemma_code_or_nothing(code: Seq<char>)
    requires
        code.len() == 0 || is_code(code),
    ensures
        !within_code(code, code.len()),
        without_codes(code, code.len()) == Seq::<char>::empty(),
{
    if code.len() > 0 {
        lemma_code_shows_nothing(code, code.len());
    }
}

/// A single character shows itself, unless it starts an escape sequence.
proof fn lemma_one_shows_itself(c: char)
    requires
        c != ESCAPE,
    ensures
        !within_code(seq![c], 1),
        without_codes(seq![c], 1) == seq![c],
{
    assert(!within_code(seq![c], 0));
    assert(without_codes(seq![c], 0) == Seq::<char>::empty());
    assert(without_codes(seq![c], 1) =~= seq![c]);
}

/// The terminal text of a row shows its characters.
proof fn lemma_row_shows_glyphs(scene: Scene, y: int, n: nat)
    requires
        n <= scene.cols,
        forall|x: int| 0 <= x < scene.cols ==> #[trigger] scene.glyph(x, y) != ESCAPE,
    ensures
        !within_code(scene.row_text(y, n), scene.row_text(y, n).len()),
        without_codes(scene.row_text(y, n), scene.row_text(y, n).len()) == scene.glyphs(y).take(
            n as int,
        ),
    decreases n,
{
    if n == 0 {
        assert(scene.glyphs(y).take(0) =~= Seq::<char>::empty());
    } else {
        let x = n - 1;
        let c = scene.color(x, y);
        let glyph = scene.glyph(x, y);
        lemma_row_shows_glyphs(scene, y, x as nat);
        let before = scene.row_text(y, x as nat);
        let code = ansi_code(c.0, c.1, c.2, scene.mode);
        if scene.mode.colours() {
            lemma_ansi_code_is_code(c, scene.mode);
        }
        lemma_code_or_nothing(code);
        lemma_one_shows_itself(glyph);
        lemma_read_on(before, code);
        lemma_read_on(before + code, seq![glyph]);
        assert(scene.row_text(y, n) =~= before + code + seq![glyph]);
        assert(scene.glyphs(y).take(n as int) =~= scene.glyphs(y).take(x) + Seq::<char>::empty()
            + seq![glyph]);
    }
}

/// The terminal text of rows shows their characters, line by line.
pub proof fn lemma_rows_show_glyphs(scene: Scene, n: nat)
    requires
        n <= scene.rows,
        scene.cols >= 0,
        forall|x: int, y: int|
            0 <= x < scene.cols && 0 <= y < scene.rows ==> #[trigger] scene.glyph(x, y) != ESCAPE,
    ensures
        !within_code(scene.text(n), scene.text(n).len()),
        without_codes(scene.text(n), scene.text(n).len()) == joined(scene.picture().chars, n),
    decreases n,
{
    if n > 0 {
        let y = n - 1;
        lemma_rows_show_glyphs(scene, y as nat);
        lemma_row_shows_glyphs(scene, y, scene.cols as nat);
        let before = scene.text(y as nat);
        let row = scene.row_text(y, scene.cols as nat);
        let reset = if scene.mode.colours() {
            "\x1b[0m"@
        } else {
            Seq::empty()
        };
        let lines = scene.picture().chars;
        let feed = if n < lines.len() {
            seq!['\n']
        } else {
            Seq::empty()
        };
        reveal_strlit("\x1b[0m");
        lemma_code_or_nothing(reset);
        if n < lines.len() {
            lemma_one_shows_itself('\n');
        } else {
            assert(!within_code(feed, 0));
        }
        lemma_read_on(before, row);
        lemma_read_on(before + row, reset);
        lemma_read_on(before + row + reset, feed);
        assert(scene.text(n) =~= before + row + reset + feed);
        assert(scene.glyphs(y).take(scene.cols as int) =~= lines[y]);
        assert(joined(lines, n) =~= joined(lines, y as nat) + lines[y] + Seq::<char>::empty()
            + feed);
    }
}

/// The HTML of a rendered frame is the markup of its characters, line by line,
/// whatever the colours: no escape sequence shows, and no character is lost.
pub proof fn lemma_html_shows_picture(scene: Scene)
    requires
        scene.cols >= 0,
        scene.rows >= 0,
        forall|x: int, y: int|
            0 <= x < scene.cols && 0 <= y < scene.rows ==> #[trigger] scene.glyph(x, y) != ESCAPE,
    ensures
        escaped(
            without_codes(scene.text(scene.rows as nat), scene.text(scene.rows as nat).len()),
            false,
        ) == escaped(joined(scene.picture().chars, scene.rows as nat), false),
{
    lemma_rows_show_glyphs(scene, scene.rows as nat);
}

} // verus!
