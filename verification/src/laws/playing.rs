//! What the terminal shows of a recording.
use vstd::prelude::*;

use crate::color::true_color_code;
use crate::decoder::{next_is_sound, read_next, Player, TcamDecoder};
use crate::export::ESCAPE;
use crate::format::TcamError;
use crate::frame::{Picture, RenderFrame, Rgb};
use crate::laws::cells::{
    cells_text, count_of, lemma_cell_stands, lemma_cells_tell_all, lemma_count_none,
    lemma_count_of_parts, lemma_line_between, lemma_stands_within, line_is, stands,
};
use crate::laws::numerals::{
    lemma_color_code_has_one_escape, lemma_color_code_tells_color, lemma_digits_end_alike,
    lemma_heads_alike, lemma_numeral_stands_for_number, one_escape,
};
use crate::playback::{
    colored_cells, next_turn, playback_line, playback_screen, playback_text, screen_row,
    screen_rows, wait_nanos, Playback, Turn,
};
use crate::text::decimal;

verus! {

/// Whether a picture has a colour for each of its characters, and for nothing
/// else.
pub open spec fn colored(picture: Picture) -> bool {
    picture.colors matches Some(colors) && colors.len() == picture.chars.len() && forall|y: int|
        0 <= y < picture.chars.len() ==> (#[trigger] colors[y]).len() == picture.chars[y].len()
}

/// Whether every row of a picture has `w` characters that show: neither line
/// breaks nor escape characters.
pub open spec fn printable(picture: Picture, w: int) -> bool {
    forall|y: int|
        0 <= y < picture.chars.len() ==> (#[trigger] picture.chars[y]).len() == w && forall|x: int|
            0 <= x < w ==> #[trigger] picture.chars[y][x] != ESCAPE && picture.chars[y][x] != '\n'
}

/// The colour that a cell of a coloured picture is played in: its own, or white
/// where the picture has none for it.
pub open spec fn played_shade(picture: Picture, x: int, y: int) -> Rgb {
    match picture.colors {
        Some(rows) if y < rows.len() && x < rows[y].len() => rows[y][x],
        _ => (255, 255, 255),
    }
}

/// The escape sequences of a row.
spec fn codes_of(picture: Picture, y: int) -> Seq<Seq<char>> {
    Seq::new(picture.chars[y].len(), |x: int| true_color_code(played_shade(picture, x, y)))
}

proof fn lemma_row_is_cells(picture: Picture, y: int, n: nat)
    requires
        picture.colors is Some,
        0 <= y < picture.chars.len(),
        n <= picture.chars[y].len(),
    ensures
        colored_cells(picture.colors->0, y, picture.chars[y], n) == cells_text(
            codes_of(picture, y),
            picture.chars[y],
            n,
        ),
    decreases n,
{
    if n > 0 {
        lemma_row_is_cells(picture, y, (n - 1) as nat);
        assert(codes_of(picture, y)[n - 1] == true_color_code(played_shade(picture, n - 1, y)));
    }
}

proof fn lemma_codes(picture: Picture, y: int)
    ensures
        forall|x: int|
            0 <= x < picture.chars[y].len() ==> one_escape(#[trigger] codes_of(picture, y)[x]),
{
    assert forall|x: int| 0 <= x < picture.chars[y].len() implies one_escape(
        #[trigger] codes_of(picture, y)[x],
    ) by {
        lemma_color_code_has_one_escape(played_shade(picture, x, y));
    }
}

/// What ends a coloured row.
proof fn lemma_row_end()
    ensures
        count_of("\x1b[0m\x1b[K\n"@, ESCAPE) == 2,
        count_of("\x1b[0m\x1b[K\n"@, '\n') == 1,
        count_of("\x1b[H"@, ESCAPE) == 1,
        count_of("\x1b[H"@, '\n') == 0,
{
    reveal_strlit("\x1b[0m\x1b[K\n");
    reveal_strlit("\x1b[H");
    reveal_with_fuel(count_of, 9);
}

proof fn lemma_rows_count(picture: Picture, w: int, n: nat)
    requires
        picture.colors is Some,
        printable(picture, w),
        n <= picture.chars.len(),
    ensures
        count_of(screen_rows(picture, n), ESCAPE) == n * (w + 2),
        count_of(screen_rows(picture, n), '\n') == n,
    decreases n,
{
    if n > 0 {
        let y = n - 1;
        lemma_rows_count(picture, w, y as nat);
        lemma_row_count(picture, w, y);
        lemma_count_of_parts(screen_rows(picture, y as nat), screen_row(picture, y), ESCAPE);
        lemma_count_of_parts(screen_rows(picture, y as nat), screen_row(picture, y), '\n');
        assert(n * (w + 2) == y * (w + 2) + (w + 2)) by (nonlinear_arith)
            requires
                n == y + 1,
        ;
    } else {
        assert(0 * (w + 2) == 0);
    }
}

proof fn lemma_row_count(picture: Picture, w: int, y: int)
    requires
        picture.colors is Some,
        printable(picture, w),
        0 <= y < picture.chars.len(),
    ensures
        count_of(screen_row(picture, y), ESCAPE) == w + 2,
        count_of(screen_row(picture, y), '\n') == 1,
        forall|x: int|
            0 <= x < w ==> stands(
                screen_row(picture, y),
                x,
                0,
                #[trigger] codes_of(picture, y)[x],
                picture.chars[y][x],
            ),
{
    let row = picture.chars[y];
    assert(row.len() == w);
    let codes = codes_of(picture, y);
    lemma_codes(picture, y);
    lemma_row_is_cells(picture, y, row.len());
    lemma_row_end();
    let cells = cells_text(codes, row, row.len());
    let end = "\x1b[0m\x1b[K\n"@;
    lemma_cell_stands(codes, row, row.len(), 0);
    lemma_count_of_parts(cells, end, ESCAPE);
    lemma_count_of_parts(cells, end, '\n');
    assert forall|x: int| 0 <= x < w implies stands(
        screen_row(picture, y),
        x,
        0,
        #[trigger] codes[x],
        picture.chars[y][x],
    ) by {
        lemma_cell_stands(codes, row, row.len(), x);
        let none = Seq::<char>::empty();
        lemma_stands_within(none, cells, end, x, 0, codes[x], row[x]);
        lemma_count_none(none, ESCAPE);
        assert(none + cells + end =~= screen_row(picture, y));
    }
}

/// The rows of a screen, from one row on, are the row and those after it.
proof fn lemma_row_within(picture: Picture, y: int, n: nat) -> (after: Seq<char>)
    requires
        0 <= y < n <= picture.chars.len(),
    ensures
        screen_rows(picture, n) == screen_rows(picture, y as nat) + screen_row(picture, y) + after,
    decreases n,
{
    if y == n - 1 {
        assert(screen_rows(picture, n) =~= screen_rows(picture, y as nat) + screen_row(picture, y)
            + Seq::<char>::empty());
        Seq::empty()
    } else {
        let rest = lemma_row_within(picture, y, (n - 1) as nat);
        let after = rest + screen_row(picture, n - 1);
        assert(screen_rows(picture, n) =~= screen_rows(picture, y as nat) + screen_row(picture, y)
            + after);
        after
    }
}

/// Every character of a coloured picture stands on its own line of the played
/// screen, right behind the escape sequence of its own colour, or of white where
/// it has none: after as many line breaks as there are rows above, and after the
/// escape sequences of those rows (one for each cell and two at the end), of the
/// cells to its left, and the one that the screen begins with.
#[verifier::rlimit(40)]
pub proof fn lemma_played_cell_has_its_shade(
    frame: RenderFrame,
    number: usize,
    width: usize,
    height: usize,
    fps: u8,
    r: String,
    w: int,
    x: int,
    y: int,
)
    requires
        frame@.colors is Some,
        printable(frame@, w),
        call_ensures(playback_text, (&frame, number, width, height, fps), r),
        0 <= x < w,
        0 <= y < frame@.chars.len(),
    ensures
        stands(
            r@,
            1 + y * (w + 2) + x,
            y,
            true_color_code(played_shade(frame@, x, y)),
            frame@.chars[y][x],
        ),
{
    let picture = frame@;
    let n = picture.chars.len();
    let code = true_color_code(played_shade(picture, x, y));
    assert(picture.chars[y].len() == w);
    lemma_rows_count(picture, w, y as nat);
    lemma_row_count(picture, w, y);
    assert(codes_of(picture, y)[x] == code);
    let after = lemma_row_within(picture, y, n);
    let line = playback_line(number as nat, width as nat, height as nat, fps as nat);
    let head = "\x1b[H"@;
    let above = screen_rows(picture, y as nat);
    lemma_row_end();
    lemma_count_of_parts(head, above, ESCAPE);
    lemma_count_of_parts(head, above, '\n');
    lemma_stands_within(
        head + above,
        screen_row(picture, y),
        after + line,
        x,
        0,
        code,
        picture.chars[y][x],
    );
    assert(r@ =~= head + above + screen_row(picture, y) + (after + line));
}

/// In a picture that has a colour for each of its characters, every character is
/// played in the colour in its own column and row.
pub proof fn lemma_played_cell_has_its_color(
    frame: RenderFrame,
    number: usize,
    width: usize,
    height: usize,
    fps: u8,
    r: String,
    w: int,
    x: int,
    y: int,
)
    requires
        colored(frame@),
        printable(frame@, w),
        call_ensures(playback_text, (&frame, number, width, height, fps), r),
        0 <= x < w,
        0 <= y < frame@.chars.len(),
    ensures
        stands(
            r@,
            1 + y * (w + 2) + x,
            y,
            true_color_code(frame@.colors->0[y][x]),
            frame@.chars[y][x],
        ),
{
    assert(frame@.chars[y].len() == w);
    assert(frame@.colors->0[y].len() == w);
    lemma_played_cell_has_its_shade(frame, number, width, height, fps, r, w, x, y);
}

/// Whether two pictures have as many rows of as many characters.
pub open spec fn same_shape(a: Picture, b: Picture) -> bool {
    a.chars.len() == b.chars.len() && forall|y: int|
        0 <= y < a.chars.len() ==> (#[trigger] a.chars[y]).len() == b.chars[y].len()
}

#[verifier::rlimit(40)]
proof fn lemma_rows_tell_all(a: Picture, b: Picture, n: nat, s: Seq<char>, t: Seq<char>)
    requires
        colored(a),
        colored(b),
        same_shape(a, b),
        n <= a.chars.len(),
        s + screen_rows(a, n) == t + screen_rows(b, n),
    ensures
        forall|y: int| 0 <= y < n ==> #[trigger] a.chars[y] == b.chars[y],
        forall|y: int| 0 <= y < n ==> #[trigger] a.colors->0[y] == b.colors->0[y],
        s == t,
    decreases n,
{
    if n == 0 {
        assert(s + screen_rows(a, n) =~= s);
        assert(t + screen_rows(b, n) =~= t);
    } else {
        let y = n - 1;
        let s1 = s + screen_rows(a, y as nat);
        let t1 = t + screen_rows(b, y as nat);
        let ca = codes_of(a, y);
        let cb = codes_of(b, y);
        let w = a.chars[y].len();
        assert(a.colors->0[y].len() == w && b.colors->0[y].len() == w && b.chars[y].len() == w);
        lemma_codes(a, y);
        lemma_codes(b, y);
        lemma_row_is_cells(a, y, w);
        lemma_row_is_cells(b, y, w);
        let end = "\x1b[0m\x1b[K\n"@;
        let whole_a = s + screen_rows(a, n);
        let whole_b = t + screen_rows(b, n);
        assert(whole_a =~= s1 + cells_text(ca, a.chars[y], w) + end);
        assert(whole_b =~= t1 + cells_text(cb, b.chars[y], w) + end);
        let cut = whole_a.len() - end.len();
        assert(whole_a.take(cut) =~= s1 + cells_text(ca, a.chars[y], w));
        assert(whole_b.take(cut) =~= t1 + cells_text(cb, b.chars[y], w));
        lemma_cells_tell_all(ca, a.chars[y], cb, b.chars[y], s1, t1, w);
        assert forall|x: int| 0 <= x < w implies #[trigger] a.colors->0[y][x] == b.colors->0[y][x] by {
            assert(ca[x] == cb[x]);
            let none = Seq::<char>::empty();
            lemma_color_code_tells_color(a.colors->0[y][x], none, b.colors->0[y][x], none);
        }
        assert(a.colors->0[y] =~= b.colors->0[y]);
        assert(a.chars[y] =~= b.chars[y]);
        lemma_rows_tell_all(a, b, y as nat, s, t);
    }
}

/// A played screen tells the picture: two pictures of one shape that differ in
/// any character or in any colour have different screens.
pub proof fn lemma_played_screen_tells_picture(
    a: RenderFrame,
    b: RenderFrame,
    number: usize,
    width: usize,
    height: usize,
    fps: u8,
    r: String,
    q: String,
)
    requires
        colored(a@),
        colored(b@),
        same_shape(a@, b@),
        call_ensures(playback_text, (&a, number, width, height, fps), r),
        call_ensures(playback_text, (&b, number, width, height, fps), q),
        r@ == q@,
    ensures
        a@ == b@,
{
    let n = a@.chars.len();
    let line = playback_line(number as nat, width as nat, height as nat, fps as nat);
    let head = "\x1b[H"@;
    let cut = r@.len() - line.len();
    assert(r@.take(cut) =~= head + screen_rows(a@, n));
    assert(q@.take(cut) =~= head + screen_rows(b@, n));
    lemma_rows_tell_all(a@, b@, n, head, head);
    assert(a@.chars =~= b@.chars);
    assert(a@.colors->0 =~= b@.colors->0);
}

proof fn lemma_plain_rows_count(picture: Picture, w: int, n: nat)
    requires
        picture.colors is None,
        printable(picture, w),
        n <= picture.chars.len(),
    ensures
        count_of(screen_rows(picture, n), '\n') == n,
        n > 0 ==> screen_rows(picture, n).len() > 0 && screen_rows(picture, n).last() == '\n',
    decreases n,
{
    if n > 0 {
        let y = n - 1;
        lemma_plain_rows_count(picture, w, y as nat);
        reveal_strlit("\x1b[K\n");
        let row = picture.chars[y];
        assert(row.len() == w);
        lemma_count_none(row, '\n');
        assert(count_of("\x1b[K\n"@, '\n') == 1) by {
            reveal_with_fuel(count_of, 6);
        }
        lemma_count_of_parts(row, "\x1b[K\n"@, '\n');
        lemma_count_of_parts(screen_rows(picture, y as nat), screen_row(picture, y), '\n');
        assert(screen_rows(picture, n).last() == '\n');
    }
}

/// A picture without colours is played row by row: the line of each row is its
/// characters, with the rest of the line cleared, and the first one behind the
/// escape sequence that leads to the top of the screen.
#[verifier::rlimit(40)]
pub proof fn lemma_plain_row_is_played(
    frame: RenderFrame,
    number: usize,
    width: usize,
    height: usize,
    fps: u8,
    r: String,
    w: int,
    y: int,
)
    requires
        frame@.colors is None,
        printable(frame@, w),
        call_ensures(playback_text, (&frame, number, width, height, fps), r),
        0 <= y < frame@.chars.len(),
    ensures
        y > 0 ==> line_is(r@, y, frame@.chars[y] + seq!['\x1b', '[', 'K']),
        y == 0 ==> line_is(r@, 0, seq!['\x1b', '[', 'H'] + frame@.chars[0] + seq!['\x1b', '[', 'K']),
{
    let picture = frame@;
    let n = picture.chars.len();
    let row = picture.chars[y];
    let head = "\x1b[H"@;
    let line = playback_line(number as nat, width as nat, height as nat, fps as nat);
    let above = screen_rows(picture, y as nat);
    let after = lemma_row_within(picture, y, n);
    lemma_row_end();
    lemma_plain_rows_count(picture, w, y as nat);
    assert(row.len() == w);
    lemma_count_none(row, '\n');
    let clear = seq!['\x1b', '[', 'K'];
    reveal_strlit("\x1b[K\n");
    reveal_strlit("\x1b[H");
    lemma_count_none(clear, '\n');
    lemma_count_of_parts(row, clear, '\n');
    lemma_count_of_parts(head, above, '\n');
    let rest = seq!['\n'] + after + line;
    if y > 0 {
        lemma_line_between(head + above, row + clear, rest);
        assert(r@ =~= head + above + (row + clear) + rest);
    } else {
        let start = seq!['\x1b', '[', 'H'];
        lemma_count_none(start, '\n');
        lemma_count_of_parts(start, row, '\n');
        lemma_count_of_parts(start + row, clear, '\n');
        let none = Seq::<char>::empty();
        lemma_count_none(none, '\n');
        lemma_line_between(none, start + row + clear, rest);
        assert(r@ =~= none + (start + row + clear) + rest);
    }
}

/// The screen ends with the line that tells the number of the picture, the size
/// and the speed of the recording: screens of one picture that tell other
/// figures differ.
pub proof fn lemma_played_screen_tells_figures(
    frame: RenderFrame,
    n1: usize,
    w1: usize,
    h1: usize,
    f1: u8,
    r: String,
    n2: usize,
    w2: usize,
    h2: usize,
    f2: u8,
    q: String,
)
    requires
        call_ensures(playback_text, (&frame, n1, w1, h1, f1), r),
        call_ensures(playback_text, (&frame, n2, w2, h2, f2), q),
    ensures
        r@ == q@ ==> n1 == n2 && w1 == w2 && h1 == h2 && f1 == f2,
        ({
            let line = "\x1b[7m RUSTERCAM PLAYBACK | frame "@ + decimal(n1 as nat) + " | "@
                + decimal(w1 as nat) + "x"@ + decimal(h1 as nat) + " | "@ + decimal(f1 as nat)
                + " fps | q quit \x1b[0m\x1b[K\n"@;
            r@.len() >= line.len() && r@.skip(r@.len() - line.len()) == line
        }),
{
    let above = "\x1b[H"@ + screen_rows(frame@, frame@.chars.len());
    let a = playback_line(n1 as nat, w1 as nat, h1 as nat, f1 as nat);
    let b = playback_line(n2 as nat, w2 as nat, h2 as nat, f2 as nat);
    assert(r@ =~= above + a);
    assert(q@ =~= above + b);
    assert(r@.skip(r@.len() - a.len()) =~= a);
    if r@ == q@ {
        lemma_heads_alike(above, a, above, b);
        lemma_line_tells_figures(
            n1 as nat,
            w1 as nat,
            h1 as nat,
            f1 as nat,
            n2 as nat,
            w2 as nat,
            h2 as nat,
            f2 as nat,
        );
    }
}

/// Nine parts of a text, joined from either side.
proof fn lemma_nine_parts(
    a: Seq<char>,
    b: Seq<char>,
    c: Seq<char>,
    d: Seq<char>,
    e: Seq<char>,
    f: Seq<char>,
    g: Seq<char>,
    h: Seq<char>,
    i: Seq<char>,
)
    ensures
        a + b + c + d + e + f + g + h + i == a + (b + (c + (d + (e + (f + (g + (h + i))))))),
{
    let right = h + i;
    assert(a + b + c + d + e + f + g + h + i =~= a + b + c + d + e + f + g + right);
    let r2 = f + (g + right);
    assert(a + b + c + d + e + f + g + right =~= a + b + c + d + e + r2);
    let r3 = d + (e + r2);
    assert(a + b + c + d + e + r2 =~= a + b + c + r3);
    assert(a + b + c + r3 =~= a + (b + (c + r3)));
}

#[verifier::rlimit(40)]
proof fn lemma_line_tells_figures(
    n1: nat,
    w1: nat,
    h1: nat,
    f1: nat,
    n2: nat,
    w2: nat,
    h2: nat,
    f2: nat,
)
    requires
        playback_line(n1, w1, h1, f1) == playback_line(n2, w2, h2, f2),
    ensures
        n1 == n2 && w1 == w2 && h1 == h2 && f1 == f2,
{
    let head = "\x1b[7m RUSTERCAM PLAYBACK | frame "@;
    let tail = " fps | q quit \x1b[0m\x1b[K\n"@;
    reveal_strlit(" | ");
    reveal_strlit("x");
    assert(tail.len() > 0 && tail[0] == ' ') by {
        reveal_strlit(" fps | q quit \x1b[0m\x1b[K\n");
    }
    lemma_numeral_stands_for_number(n1);
    lemma_numeral_stands_for_number(n2);
    lemma_numeral_stands_for_number(w1);
    lemma_numeral_stands_for_number(w2);
    lemma_numeral_stands_for_number(h1);
    lemma_numeral_stands_for_number(h2);
    lemma_numeral_stands_for_number(f1);
    lemma_numeral_stands_for_number(f2);
    let a3 = decimal(f1) + tail;
    let b3 = decimal(f2) + tail;
    let a2 = decimal(h1) + (" | "@ + a3);
    let b2 = decimal(h2) + (" | "@ + b3);
    let a1 = decimal(w1) + ("x"@ + a2);
    let b1 = decimal(w2) + ("x"@ + b2);
    let a0 = decimal(n1) + (" | "@ + a1);
    let b0 = decimal(n2) + (" | "@ + b1);
    lemma_nine_parts(
        head,
        decimal(n1),
        " | "@,
        decimal(w1),
        "x"@,
        decimal(h1),
        " | "@,
        decimal(f1),
        tail,
    );
    lemma_nine_parts(
        head,
        decimal(n2),
        " | "@,
        decimal(w2),
        "x"@,
        decimal(h2),
        " | "@,
        decimal(f2),
        tail,
    );
    lemma_heads_alike(head, a0, head, b0);
    lemma_digits_end_alike(decimal(n1), " | "@ + a1, decimal(n2), " | "@ + b1);
    lemma_heads_alike(" | "@, a1, " | "@, b1);
    lemma_digits_end_alike(decimal(w1), "x"@ + a2, decimal(w2), "x"@ + b2);
    lemma_heads_alike("x"@, a2, "x"@, b2);
    lemma_digits_end_alike(decimal(h1), " | "@ + a3, decimal(h2), " | "@ + b3);
    lemma_heads_alike(" | "@, a3, " | "@, b3);
    lemma_digits_end_alike(decimal(f1), tail, decimal(f2), tail);
}

/// A picture is waited for until its time and no longer: where its time has not
/// come, the wait ends when it comes, and else there is none.
pub proof fn lemma_wait_ends_at_time(timestamp_ms: u32, elapsed_nanos: u128, r: u64)
    requires
        call_ensures(wait_nanos, (timestamp_ms, elapsed_nanos), r),
    ensures
        elapsed_nanos + r >= 1_000_000 * timestamp_ms,
        r > 0 ==> elapsed_nanos + r == 1_000_000 * timestamp_ms,
{
}

/// A playback ends by the keys `q` and `Q` and by nothing else, and then reads
/// nothing. Pictures are numbered from the first on, each as it is shown; a
/// recording that has come to its end is waited on, and nothing is counted.
pub proof fn lemma_turns_show_pictures(player: Player, number: nat, key: Option<char>)
    ensures
        ({
            let (after, count, turn) = next_turn(player, number, key);
            let read = read_next(player);
            &&& turn is Quit <==> key == Some('q') || key == Some('Q')
            &&& turn is Quit || turn is Unshowable ==> after == player
            &&& !(turn is Show) ==> count == number
            &&& turn is Show ==> count == number + 1
            &&& !(turn is Quit) && !(turn is Unshowable) ==> after == read.0
            &&& turn is Unshowable ==> !next_is_sound(player)
            &&& turn is Idle ==> read.1 == Ok::<Option<(Picture, u32)>, TcamError>(None)
            &&& turn matches Turn::Failed(e) ==> read.1 == Err::<Option<(Picture, u32)>, TcamError>(e)
            &&& turn matches Turn::Show(text, time) ==> (read.1 matches Ok(Some((picture, at)))
                && at == time && text == playback_screen(
                picture,
                number,
                player.format.width as nat,
                player.format.height as nat,
                player.fps as nat,
            ))
        }),
{
}

/// A playback starts with the first picture.
pub proof fn lemma_playback_starts(decoder: TcamDecoder, r: Playback)
    requires
        call_ensures(Playback::new, (decoder,), r),
    ensures
        r.frame_num == 0,
        r.decoder@ == decoder@,
{
}

} // verus!
