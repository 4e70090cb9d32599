//! What is read of a delta is what was written.
use vstd::prelude::*;
use vstd::utf8::is_ascii_chars;

use crate::color::{lemma_palette_is_near, palette_index, PALETTE_END};
use crate::encoder::{lemma_entries_size, lemma_entry_size};
use crate::format::{
    after_delta, after_entries, after_entry, cell_byte, cell_changed, cell_color, cell_count,
    cell_entry, cell_name, cells_of, change_count, change_entries, cut16, cut32, cut8,
    delta_payload, delta_sound, entries_sound, entry_byte, entry_cell, entry_color, glyph_of,
    picture_of, Cells, Format, TcamError,
};
use crate::frame::Picture;
use crate::luma::{lemma_luma_is_a_byte, luma_of};
use crate::render::{lemma_cell_in_grid, lemma_cell_of};
use crate::roundtrip::{
    carries, fills, lemma_le32_at, lemma_number_of_cell, names_cells, played, played_color,
};
use crate::wire::{le16, le16_at, le32, lemma_ascii_text, lossy_text};

verus! {

/// The cells of a picture on the way from one to another: the first `k` are
/// those of the second.
pub open spec fn blended(format: Format, from: Picture, to: Picture, k: int) -> Cells {
    Cells {
        chars: Seq::new(
            format.height as nat,
            |y: int|
                Seq::new(
                    format.width as nat,
                    |x: int|
                        if y * format.width + x < k {
                            to.chars[y][x] as u8
                        } else {
                            from.chars[y][x] as u8
                        },
                ),
        ),
        colors: if format.color {
            Some(
                Seq::new(
                    format.height as nat,
                    |y: int|
                        Seq::new(
                            format.width as nat,
                            |x: int|
                                if y * format.width + x < k {
                                    to.colors->0[y][x]
                                } else {
                                    from.colors->0[y][x]
                                },
                        ),
                ),
            )
        } else {
            None
        },
    }
}

/// Whether a picture is one that playback shows: a full grid of ASCII text,
/// with colours where they are recorded.
spec fn plays(format: Format, picture: Picture) -> bool {
    &&& fills(picture.chars, format.width, format.height)
    &&& forall|y: int|
        0 <= y < format.height ==> is_ascii_chars(#[trigger] picture.chars[y])
    &&& if format.color {
        picture.colors matches Some(rows) && fills(rows, format.width, format.height)
    } else {
        picture.colors is None
    }
}

proof fn lemma_played_plays(format: Format, lut: Seq<char>, picture: Picture)
    requires
        carries(format, picture),
        names_cells(format, lut),
    ensures
        plays(format, played(format, lut, picture)),
{
    let p = played(format, lut, picture);
    if format.derives() {
        let colors = p.colors->0;
        assert forall|y: int| 0 <= y < format.height implies is_ascii_chars(
            #[trigger] p.chars[y],
        ) by {
            assert forall|x: int| 0 <= x < p.chars[y].len() implies '\0'
                <= #[trigger] p.chars[y][x] <= '\u{7f}' by {
                let c = colors[y][x];
                lemma_luma_is_a_byte(c.0, c.1, c.2);
                assert(p.chars[y][x] == lut[luma_of(c.0, c.1, c.2) as int]);
            }
        }
    }
}

/// Grids of the same size are equal where their cells are.
proof fn lemma_equal_rows<T>(a: Seq<Seq<T>>, b: Seq<Seq<T>>, w: int, h: int)
    requires
        fills(a, w, h),
        fills(b, w, h),
        forall|x: int, y: int| 0 <= x < w && 0 <= y < h ==> #[trigger] a[y][x] == b[y][x],
    ensures
        a == b,
{
    assert forall|y: int| 0 <= y < h implies #[trigger] a[y] == b[y] by {
        assert(a[y] =~= b[y]);
    }
    assert(a =~= b);
}

/// The cells of a picture of ASCII text are its characters as bytes.
proof fn lemma_cells_of_ascii(format: Format, picture: Picture)
    requires
        plays(format, picture),
    ensures
        fills(cells_of(picture).chars, format.width, format.height),
        forall|x: int, y: int|
            0 <= x < format.width && 0 <= y < format.height ==> #[trigger] cells_of(
                picture,
            ).chars[y][x] == picture.chars[y][x] as u8,
        picture_of(cells_of(picture)) == picture,
{
    let chars = cells_of(picture).chars;
    assert forall|y: int| 0 <= y < format.height implies (#[trigger] chars[y]).len() == format.width
        && lossy_text(chars[y]) == picture.chars[y] && forall|x: int|
        0 <= x < format.width ==> #[trigger] chars[y][x] == picture.chars[y][x] as u8 by {
        lemma_ascii_text(picture.chars[y]);
    }
    assert(picture_of(cells_of(picture)).chars =~= picture.chars);
}

/// The cells of a shown picture are its characters as bytes.
proof fn lemma_cells_of_played(format: Format, from: Picture, to: Picture)
    requires
        format.width > 0,
        format.height > 0,
        plays(format, from),
        plays(format, to),
    ensures
        cells_of(from) == blended(format, from, to, 0),
        cells_of(to) == blended(format, from, to, format.width * format.height),
        picture_of(cells_of(to)) == to,
        picture_of(cells_of(from)) == from,
{
    let w = format.width;
    let h = format.height;
    let first = blended(format, from, to, 0);
    let last = blended(format, from, to, w * h);
    lemma_cells_of_ascii(format, from);
    lemma_cells_of_ascii(format, to);
    assert forall|x: int, y: int| 0 <= x < w && 0 <= y < h implies #[trigger] cells_of(
        from,
    ).chars[y][x] == first.chars[y][x] by {
        lemma_cell_in_grid(x, y, w, h);
    }
    lemma_equal_rows(cells_of(from).chars, first.chars, w, h);
    assert forall|x: int, y: int| 0 <= x < w && 0 <= y < h implies #[trigger] cells_of(
        to,
    ).chars[y][x] == last.chars[y][x] by {
        lemma_cell_in_grid(x, y, w, h);
    }
    lemma_equal_rows(cells_of(to).chars, last.chars, w, h);
    if format.color {
        assert forall|x: int, y: int| 0 <= x < w && 0 <= y < h implies #[trigger] from.colors->0[y][x]
            == first.colors->0[y][x] by {
            lemma_cell_in_grid(x, y, w, h);
        }
        lemma_equal_rows(from.colors->0, first.colors->0, w, h);
        assert forall|x: int, y: int| 0 <= x < w && 0 <= y < h implies #[trigger] to.colors->0[y][x]
            == last.colors->0[y][x] by {
            lemma_cell_in_grid(x, y, w, h);
        }
        lemma_equal_rows(to.colors->0, last.colors->0, w, h);
    }
}

/// One entry more is read after the others.
proof fn lemma_entries_then_one(
    format: Format,
    lut: Seq<char>,
    cells: Cells,
    bytes: Seq<u8>,
    entry: Seq<u8>,
    n: nat,
)
    requires
        bytes.len() == n * format.entry_size(),
        entry.len() == format.entry_size(),
    ensures
        after_entries(format, lut, cells, bytes, n) is Some,
        after_entries(format, lut, cells, bytes + entry, n + 1) == Some(
            after_entry(format, lut, after_entries(format, lut, cells, bytes, n)->0, entry),
        ),
    decreases n,
{
    let size = format.entry_size();
    if n == 0 {
        assert(0 * size == 0);
        assert(bytes + entry =~= entry);
        assert(entry.take(size) =~= entry);
        assert(after_entries(format, lut, cells, entry, 1) == after_entries(
            format,
            lut,
            after_entry(format, lut, cells, entry),
            entry.skip(size),
            0,
        ));
    } else {
        let m = (n - 1) as nat;
        assert(n * size == m * size + size && m * size >= 0) by (nonlinear_arith)
            requires
                n == m + 1,
                size > 0,
        ;
        let next = after_entry(format, lut, cells, bytes.take(size));
        lemma_entries_then_one(format, lut, next, bytes.skip(size), entry, m);
        assert((bytes + entry).take(size) =~= bytes.take(size));
        assert((bytes + entry).skip(size) =~= bytes.skip(size) + entry);
    }
}

/// One sound entry more keeps entries sound.
proof fn lemma_sound_then_one(format: Format, bytes: Seq<u8>, entry: Seq<u8>, n: nat)
    requires
        format.width > 0,
        bytes.len() == n * format.entry_size(),
        entry.len() == format.entry_size(),
        entries_sound(format, bytes, n),
        format.color && format.config.quantize_colors ==> entry[format.entry_size() - 1]
            < PALETTE_END,
    ensures
        entries_sound(format, bytes + entry, n + 1),
    decreases n,
{
    let size = format.entry_size();
    if n == 0 {
        assert(0 * size == 0);
        assert(bytes + entry =~= entry);
        assert(entries_sound(format, entry.skip(size), 0));
    } else {
        let m = (n - 1) as nat;
        assert(n * size == m * size + size && m * size >= 0) by (nonlinear_arith)
            requires
                n == m + 1,
                size > 0,
        ;
        lemma_sound_then_one(format, bytes.skip(size), entry, m);
        assert((bytes + entry).skip(size) =~= bytes.skip(size) + entry);
        assert((bytes + entry)[size - 1] == bytes[size - 1]);
    }
}

/// The entry of a cell names the cell.
proof fn lemma_entry_names_cell(
    format: Format,
    lut: Seq<char>,
    picture: Picture,
    x: int,
    y: int,
)
    requires
        names_cells(format, lut),
        0 <= x < format.width,
        0 <= y < format.height,
    ensures
        entry_cell(format, cell_entry(format, picture, x, y)) == (x, y),
{
    let entry = cell_entry(format, picture, x, y);
    let name = cell_name(format, x, y);
    lemma_cell_in_grid(x, y, format.width, format.height);
    lemma_cell_of(x, y, format.width);
    if format.config.flat_indices {
        assert(entry[0] == name[0] && entry[1] == name[1]);
        assert(le16_at(entry, 0) == y * format.width + x);
    } else {
        assert(entry[0] == name[0] && entry[1] == name[1] && entry[2] == name[2] && entry[3]
            == name[3]);
        assert(le16_at(entry, 0) == x);
        assert(name[2] == le16(cut16(y))[0] && name[3] == le16(cut16(y))[1]);
        assert(le16_at(entry, 2) == y);
    }
}

/// The entry of a cell holds its byte and its colour in their places.
proof fn lemma_entry_holds(format: Format, picture: Picture, x: int, y: int)
    ensures
        ({
            let entry = cell_entry(format, picture, x, y);
            let at = format.name_size() + format.glyph_size();
            let stored = format.stored_color(cell_color(picture.colors, x, y));
            &&& entry.len() == format.entry_size()
            &&& !format.derives() ==> entry[format.name_size()] == cell_byte(picture.chars, x, y)
            &&& format.color ==> entry[at] == stored[0]
            &&& format.color && !format.config.quantize_colors ==> entry[at + 1] == stored[1]
                && entry[at + 2] == stored[2]
        }),
{
    let entry = cell_entry(format, picture, x, y);
    let name = cell_name(format, x, y);
    assert(name.len() == format.name_size());
}

/// The colour and the byte of a cell's entry are those that playback shows.
proof fn lemma_entry_says(format: Format, lut: Seq<char>, picture: Picture, x: int, y: int)
    requires
        carries(format, picture),
        names_cells(format, lut),
        0 <= x < format.width,
        0 <= y < format.height,
    ensures
        ({
            let entry = cell_entry(format, picture, x, y);
            &&& format.color ==> entry_color(format, entry) == played(
                format,
                lut,
                picture,
            ).colors->0[y][x]
            &&& entry_byte(format, lut, entry) == played(format, lut, picture).chars[y][x] as u8
            &&& format.color && format.config.quantize_colors ==> entry[format.entry_size() - 1]
                < PALETTE_END
        }),
{
    let entry = cell_entry(format, picture, x, y);
    lemma_entry_holds(format, picture, x, y);
    if format.color {
        lemma_palette_is_near(picture.colors->0[y][x]);
    }
    let shown = played(format, lut, picture);
    let glyph = shown.chars[y][x];
    if format.derives() {
        assert(glyph == glyph_of(lut, entry_color(format, entry)));
        assert(cut8(glyph as int) == glyph as u8) by {
            lemma_played_plays(format, lut, picture);
            assert(is_ascii_chars(shown.chars[y]));
            assert('\0' <= glyph <= '\u{7f}');
        }
    } else {
        lemma_ascii_text(picture.chars[y]);
        assert(entry[format.name_size()] == cell_byte(picture.chars, x, y));
    }
}

/// A cell that is not stored shows the same before and after.
proof fn lemma_unchanged_shows_same(
    format: Format,
    lut: Seq<char>,
    before: Picture,
    after: Picture,
    x: int,
    y: int,
)
    requires
        carries(format, before),
        carries(format, after),
        0 <= x < format.width,
        0 <= y < format.height,
        !cell_changed(format, before, after, x, y),
    ensures
        format.color ==> played(format, lut, before).colors->0[y][x] == played(
            format,
            lut,
            after,
        ).colors->0[y][x],
        played(format, lut, before).chars[y][x] as u8 == played(format, lut, after).chars[y][x] as u8,
{
    if format.color {
        let a = before.colors->0[y][x];
        let b = after.colors->0[y][x];
        assert(format.stored_color(a) == format.stored_color(b));
        if format.config.quantize_colors {
            assert(format.stored_color(a)[0] == palette_index(a));
            assert(format.stored_color(b)[0] == palette_index(b));
        } else {
            assert(format.stored_color(a)[0] == a.0 && format.stored_color(a)[1] == a.1
                && format.stored_color(a)[2] == a.2);
            assert(format.stored_color(b)[0] == b.0 && format.stored_color(b)[1] == b.1
                && format.stored_color(b)[2] == b.2);
        }
        assert(played_color(format, a) == played_color(format, b));
    }
    if !format.derives() {
        lemma_ascii_text(before.chars[y]);
        lemma_ascii_text(after.chars[y]);
    }
}

/// Setting the next cell takes a blend one cell further.
proof fn lemma_blend_step(
    format: Format,
    lut: Seq<char>,
    from: Picture,
    to: Picture,
    entry: Seq<u8>,
    k: int,
)
    requires
        format.width > 0,
        0 <= k < format.width * format.height,
        entry_cell(format, entry) == (k % format.width, k / format.width),
        format.color ==> entry_color(format, entry) == to.colors->0[k / format.width][k
            % format.width],
        entry_byte(format, lut, entry) == to.chars[k / format.width][k % format.width] as u8,
    ensures
        after_entry(format, lut, blended(format, from, to, k), entry) == blended(
            format,
            from,
            to,
            k + 1,
        ),
{
    let w = format.width;
    let h = format.height;
    let x = k % w;
    let y = k / w;
    lemma_number_of_cell(k, w, h);
    let done = after_entry(format, lut, blended(format, from, to, k), entry);
    let goal = blended(format, from, to, k + 1);
    assert forall|i: int, j: int| 0 <= i < w && 0 <= j < h implies #[trigger] done.chars[j][i]
        == goal.chars[j][i] by {
        lemma_cell_of(i, j, w);
    }
    lemma_equal_rows(done.chars, goal.chars, w, h);
    if format.color {
        assert forall|i: int, j: int| 0 <= i < w && 0 <= j < h implies
            #[trigger] done.colors->0[j][i] == goal.colors->0[j][i] by {
            lemma_cell_of(i, j, w);
        }
        lemma_equal_rows(done.colors->0, goal.colors->0, w, h);
    }
}

/// A blend goes one cell further by itself where the cell shows the same.
proof fn lemma_blend_stays(format: Format, from: Picture, to: Picture, k: int)
    requires
        format.width > 0,
        0 <= k < format.width * format.height,
        format.color ==> from.colors->0[k / format.width][k % format.width]
            == to.colors->0[k / format.width][k % format.width],
        from.chars[k / format.width][k % format.width] as u8 == to.chars[k / format.width][k
            % format.width] as u8,
    ensures
        blended(format, from, to, k) == blended(format, from, to, k + 1),
{
    let w = format.width;
    let h = format.height;
    lemma_number_of_cell(k, w, h);
    let done = blended(format, from, to, k);
    let goal = blended(format, from, to, k + 1);
    assert forall|i: int, j: int| 0 <= i < w && 0 <= j < h implies #[trigger] done.chars[j][i]
        == goal.chars[j][i] by {
        lemma_cell_of(i, j, w);
    }
    lemma_equal_rows(done.chars, goal.chars, w, h);
    if format.color {
        assert forall|i: int, j: int| 0 <= i < w && 0 <= j < h implies
            #[trigger] done.colors->0[j][i] == goal.colors->0[j][i] by {
            lemma_cell_of(i, j, w);
        }
        lemma_equal_rows(done.colors->0, goal.colors->0, w, h);
    }
}

/// The entries of the first `n` cells take those cells from one picture to the
/// next.
proof fn lemma_entries_blend(
    format: Format,
    lut: Seq<char>,
    before: Picture,
    after: Picture,
    n: nat,
)
    requires
        carries(format, before),
        carries(format, after),
        names_cells(format, lut),
        n <= format.width * format.height,
    ensures
        after_entries(
            format,
            lut,
            cells_of(played(format, lut, before)),
            change_entries(format, before, after, n),
            change_count(format, before, after, n),
        ) == Some(
            blended(format, played(format, lut, before), played(format, lut, after), n as int),
        ),
        entries_sound(
            format,
            change_entries(format, before, after, n),
            change_count(format, before, after, n),
        ),
        change_count(format, before, after, n) <= n,
    decreases n,
{
    let from = played(format, lut, before);
    let to = played(format, lut, after);
    if n == 0 {
        lemma_played_plays(format, lut, before);
        lemma_played_plays(format, lut, after);
        lemma_cells_of_played(format, from, to);
    } else {
        let k = (n - 1) as nat;
        let x = k as int % format.width;
        let y = k as int / format.width;
        lemma_entries_blend(format, lut, before, after, k);
        lemma_number_of_cell(k as int, format.width, format.height);
        lemma_entries_size(format, before, after, k);
        let entries = change_entries(format, before, after, k);
        let count = change_count(format, before, after, k);
        if cell_changed(format, before, after, x, y) {
            let entry = cell_entry(format, after, x, y);
            lemma_entry_size(format, after, x, y);
            lemma_entry_names_cell(format, lut, after, x, y);
            lemma_entry_says(format, lut, after, x, y);
            lemma_entries_then_one(format, lut, cells_of(from), entries, entry, count);
            lemma_sound_then_one(format, entries, entry, count);
            lemma_blend_step(format, lut, from, to, entry, k as int);
            assert(change_entries(format, before, after, n) == entries + entry);
        } else {
            lemma_unchanged_shows_same(format, lut, before, after, x, y);
            lemma_blend_stays(format, from, to, k as int);
            assert(change_entries(format, before, after, n) =~= entries);
        }
    }
}

/// A delta takes playback from the picture before to the one after; where
/// there is none, both show the same.
pub proof fn lemma_delta_plays_back(
    format: Format,
    lut: Seq<char>,
    before: Picture,
    after: Picture,
)
    requires
        carries(format, before),
        carries(format, after),
        names_cells(format, lut),
    ensures
        match delta_payload(format, before, after) {
            Some(data) => delta_sound(format, data) && after_delta(
                format,
                lut,
                played(format, lut, before),
                data,
            ) == (played(format, lut, after), Ok::<(), TcamError>(())),
            None => played(format, lut, before) == played(format, lut, after),
        },
{
    let from = played(format, lut, before);
    let to = played(format, lut, after);
    let n = cell_count(format);
    let count = change_count(format, before, after, n);
    let entries = change_entries(format, before, after, n);
    assert(0 <= format.width * format.height <= 65535 * 65535) by (nonlinear_arith)
        requires
            0 <= format.width <= 65535,
            0 <= format.height <= 65535,
    ;
    lemma_entries_blend(format, lut, before, after, n);
    lemma_played_plays(format, lut, before);
    lemma_played_plays(format, lut, after);
    lemma_cells_of_played(format, from, to);
    match delta_payload(format, before, after) {
        Some(data) => {
            assert(data.subrange(0, 4) =~= le32(cut32(count as int)));
            lemma_le32_at(data, 0, cut32(count as int));
            assert(data.skip(4) =~= entries);
        },
        None => {
            assert(after_entries(format, lut, cells_of(from), entries, 0) == Some(cells_of(from)));
        },
    }
}

} // verus!
