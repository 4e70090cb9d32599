//! What is read of a keyframe is what was written.
use vstd::prelude::*;
use vstd::utf8::{encode_utf8, is_ascii_chars};

use crate::color::{lemma_palette_is_near, palette_index, PALETTE_END};
use crate::format::{
    after_keyframe, cell_count, color_bytes, color_in, colors_in_palette, colors_of, colors_part,
    colors_size, cut32, derived_rows, filled, flat_row, keyframe_colors, keyframe_payload,
    keyframe_sound, keyframe_text, row_color_bytes, rows_of, rows_start_within, text_bytes,
    text_part, text_size, with_length, Format, TcamError,
};
use crate::frame::{Picture, Rgb};
use crate::render::lemma_cell_in_grid;
use crate::rle::{lemma_rle_round_trip, lemma_rle_size, rle_expand};
use crate::roundtrip::{
    carries, fills, keyframe_fits, lemma_le32_at, lemma_number_of_cell, played, played_color,
    played_colors,
};
use crate::wire::{le32, le32_at, lemma_ascii_text};

verus! {

/// The bytes of equally long ASCII rows lie where their numbers say.
pub proof fn lemma_text_bytes(rows: Seq<Seq<char>>, w: int, n: nat)
    requires
        0 <= w,
        n <= rows.len(),
        forall|y: int| 0 <= y < n ==> (#[trigger] rows[y]).len() == w && is_ascii_chars(rows[y]),
    ensures
        text_bytes(rows, n).len() == n * w,
        forall|y: int|
            0 <= y < n ==> text_bytes(rows, n).subrange(y * w, y * w + w) == encode_utf8(
                #[trigger] rows[y],
            ),
    decreases n,
{
    if n > 0 {
        let k = (n - 1) as nat;
        lemma_text_bytes(rows, w, k);
        let before = text_bytes(rows, k);
        let last = encode_utf8(rows[k as int]);
        lemma_ascii_text(rows[k as int]);
        assert((k + 1) * w == k * w + w) by (nonlinear_arith);
        let all = text_bytes(rows, n);
        assert(all == before + last);
        assert forall|y: int| 0 <= y < n implies all.subrange(y * w, y * w + w) == encode_utf8(
            #[trigger] rows[y],
        ) by {
            if y < k {
                assert(0 <= y * w && y * w + w <= k * w) by (nonlinear_arith)
                    requires
                        0 <= y < k,
                        0 <= w,
                ;
                assert(all.subrange(y * w, y * w + w) =~= before.subrange(y * w, y * w + w));
            } else {
                assert(all.subrange(y * w, y * w + w) =~= last);
            }
        }
    } else {
        assert(0 * w == 0);
    }
}

/// The stored colours of a row lie one after the other.
proof fn lemma_row_color_bytes(format: Format, row: Seq<Rgb>, n: nat)
    requires
        n <= row.len(),
    ensures
        row_color_bytes(format, row, n).len() == n * format.color_size(),
        forall|x: int|
            0 <= x < n ==> row_color_bytes(format, row, n).subrange(
                x * format.color_size(),
                x * format.color_size() + format.color_size(),
            ) == format.stored_color(#[trigger] row[x]),
    decreases n,
{
    let s = format.color_size();
    if n > 0 {
        let k = (n - 1) as nat;
        lemma_row_color_bytes(format, row, k);
        let before = row_color_bytes(format, row, k);
        let all = row_color_bytes(format, row, n);
        assert((k + 1) * s == k * s + s) by (nonlinear_arith);
        assert forall|x: int| 0 <= x < n implies all.subrange(x * s, x * s + s)
            == format.stored_color(#[trigger] row[x]) by {
            if x < k {
                assert(0 <= x * s && x * s + s <= k * s) by (nonlinear_arith)
                    requires
                        0 <= x < k,
                        0 < s,
                ;
                assert(all.subrange(x * s, x * s + s) =~= before.subrange(x * s, x * s + s));
            } else {
                assert(all.subrange(x * s, x * s + s) =~= format.stored_color(row[x]));
            }
        }
    } else {
        assert(0 * s == 0);
    }
}

/// The stored colours of rows lie one after the other.
pub proof fn lemma_color_bytes(format: Format, rows: Seq<Seq<Rgb>>, w: int, n: nat)
    requires
        0 <= w,
        n <= rows.len(),
        forall|y: int| 0 <= y < n ==> (#[trigger] rows[y]).len() == w,
    ensures
        color_bytes(format, rows, n).len() == n * w * format.color_size(),
        forall|x: int, y: int|
            0 <= x < w && 0 <= y < n ==> color_bytes(format, rows, n).subrange(
                (y * w + x) * format.color_size(),
                (y * w + x) * format.color_size() + format.color_size(),
            ) == format.stored_color(#[trigger] rows[y][x]),
    decreases n,
{
    let s = format.color_size();
    if n > 0 {
        let k = (n - 1) as nat;
        lemma_color_bytes(format, rows, w, k);
        lemma_row_color_bytes(format, rows[k as int], w as nat);
        let before = color_bytes(format, rows, k);
        let last = row_color_bytes(format, rows[k as int], w as nat);
        let all = color_bytes(format, rows, n);
        assert(all == before + last);
        assert((k + 1) * w * s == k * w * s + w * s) by (nonlinear_arith);
        assert forall|x: int, y: int| 0 <= x < w && 0 <= y < n implies all.subrange(
            (y * w + x) * s,
            (y * w + x) * s + s,
        ) == format.stored_color(#[trigger] rows[y][x]) by {
            if y < k {
                assert(0 <= (y * w + x) * s && (y * w + x) * s + s <= k * w * s)
                    by (nonlinear_arith)
                    requires
                        0 <= x < w,
                        0 <= y < k,
                        0 < s,
                ;
                assert(all.subrange((y * w + x) * s, (y * w + x) * s + s) =~= before.subrange(
                    (y * w + x) * s,
                    (y * w + x) * s + s,
                ));
            } else {
                assert((k * w + x) * s == k * w * s + x * s) by (nonlinear_arith);
                assert(0 <= x * s && x * s + s <= w * s) by (nonlinear_arith)
                    requires
                        0 <= x < w,
                        0 < s,
                ;
                assert(all.subrange((y * w + x) * s, (y * w + x) * s + s) =~= last.subrange(
                    x * s,
                    x * s + s,
                ));
            }
        }
    } else {
        assert(0 * w * s == 0) by (nonlinear_arith);
    }
}

/// Stored colours are read back as playback shows them, and are in the
/// palette where they are palette indices.
proof fn lemma_colors_read_back(format: Format, rows: Seq<Seq<Rgb>>)
    requires
        format.width > 0,
        format.height > 0,
        fills(rows, format.width, format.height),
    ensures
        colors_of(format, color_bytes(format, rows, rows.len())) == played_colors(format, rows),
        colors_in_palette(format, color_bytes(format, rows, rows.len())),
        color_bytes(format, rows, rows.len()).len() > 0,
{
    let w = format.width;
    let h = format.height;
    let s = format.color_size();
    let bytes = color_bytes(format, rows, rows.len());
    lemma_color_bytes(format, rows, w, rows.len());
    assert(h * w * s > 0) by (nonlinear_arith)
        requires
            w > 0,
            h > 0,
            s > 0,
    ;
    assert forall|x: int, y: int| 0 <= x < w && 0 <= y < h implies color_in(
        format,
        bytes,
        y * w + x,
    ) == played_color(format, #[trigger] rows[y][x]) && (format.config.quantize_colors
        ==> bytes[y * w + x] == palette_index(rows[y][x])) by {
        let k = y * w + x;
        let c = rows[y][x];
        lemma_cell_in_grid(x, y, w, h);
        assert(w * h == h * w) by (nonlinear_arith);
        assert(k * s + s <= h * w * s) by (nonlinear_arith)
            requires
                k + 1 <= h * w,
                s > 0,
        ;
        let part = bytes.subrange(k * s, k * s + s);
        assert(part == format.stored_color(c));
        if format.config.quantize_colors {
            assert(k * s == k);
            assert(part[0] == bytes[k]);
            assert(format.stored_color(c)[0] == palette_index(c));
        } else {
            assert(k * s == 3 * k);
            assert(part[0] == bytes[3 * k] && part[1] == bytes[3 * k + 1] && part[2] == bytes[3 * k
                + 2]);
            assert(format.stored_color(c)[0] == c.0 && format.stored_color(c)[1] == c.1
                && format.stored_color(c)[2] == c.2);
        }
    }
    let read = colors_of(format, bytes);
    let goal = played_colors(format, rows);
    assert forall|y: int| 0 <= y < h implies #[trigger] read[y] == goal[y] by {
        assert forall|x: int| 0 <= x < w implies #[trigger] read[y][x] == goal[y][x] by {
            assert(rows[y][x] == rows[y][x]);
        }
        assert(rows[y].len() == w);
        assert(read[y] =~= goal[y]);
    }
    assert(read =~= goal);
    if format.config.quantize_colors {
        assert forall|k: int| 0 <= k < cell_count(format) && k < bytes.len() implies
            #[trigger] bytes[k] < PALETTE_END by {
            let x = k % w;
            let y = k / w;
            lemma_number_of_cell(k, w, h);
            assert(rows[y][x] == rows[y][x]);
            lemma_palette_is_near(rows[y][x]);
        }
    }
}

/// The text of a keyframe is read back as it was.
proof fn lemma_text_reads_back(format: Format, rows: Seq<Seq<char>>)
    requires
        format.width > 0,
        format.height > 0,
        fills(rows, format.width, format.height),
        forall|y: int| 0 <= y < format.height ==> is_ascii_chars(#[trigger] rows[y]),
    ensures
        rows_of(format, text_bytes(rows, rows.len())) == rows,
        rows_start_within(format, text_bytes(rows, rows.len())),
        text_bytes(rows, rows.len()).len() > 0,
{
    let w = format.width;
    let h = format.height;
    let flat = text_bytes(rows, rows.len());
    lemma_text_bytes(rows, w, rows.len());
    assert(h * w > 0 && (h - 1) * w <= h * w) by (nonlinear_arith)
        requires
            w > 0,
            h > 0,
    ;
    let read = rows_of(format, flat);
    assert forall|y: int| 0 <= y < h implies #[trigger] read[y] == rows[y] by {
        assert(0 <= y * w && y * w + w <= h * w) by (nonlinear_arith)
            requires
                0 <= y < h,
                0 < w,
        ;
        lemma_ascii_text(rows[y]);
        assert(flat_row(flat, w, y) == flat.subrange(y * w, y * w + w));
        assert(filled(rows[y], w) =~= rows[y]);
    }
    assert(read =~= rows);
}

/// The length before some bytes is read as their length.
proof fn lemma_length_first(bytes: Seq<u8>)
    requires
        bytes.len() <= u32::MAX,
    ensures
        with_length(bytes).len() == 4 + bytes.len(),
        le32_at(with_length(bytes), 0) == bytes.len(),
        with_length(bytes).skip(4) == bytes,
{
    let size = cut32(bytes.len() as int);
    assert(size == bytes.len());
    assert(with_length(bytes).subrange(0, 4) =~= le32(size));
    lemma_le32_at(with_length(bytes), 0, size);
    assert(with_length(bytes).skip(4) =~= bytes);
}

/// Two parts, each after its length, are read as they are.
proof fn lemma_two_parts(a: Seq<u8>, b: Seq<u8>)
    requires
        a.len() >= 4,
        b.len() >= 4,
        le32_at(a, 0) == a.len() - 4,
        le32_at(b, 0) == b.len() - 4,
    ensures
        text_size(a + b) == a.len() - 4,
        text_part(a + b) == a.skip(4),
        colors_size(a + b) == b.len() - 4,
        colors_part(a + b) == b.skip(4),
{
    let s = a + b;
    let n = a.len() as int;
    assert(s[0] == a[0] && s[1] == a[1] && s[2] == a[2] && s[3] == a[3]);
    assert(s[n] == b[0] && s[n + 1] == b[1] && s[n + 2] == b[2] && s[n + 3] == b[3]);
    assert(text_part(s) =~= a.skip(4));
    assert(colors_part(s) =~= b.skip(4));
}

/// A keyframe's payload falls into its parts.
pub proof fn lemma_keyframe_parts(text: Seq<u8>, colors: Seq<u8>)
    requires
        text.len() <= u32::MAX,
        colors.len() <= u32::MAX,
    ensures
        (with_length(text) + with_length(colors)).len() == 8 + text.len() + colors.len(),
        text_size(with_length(text) + with_length(colors)) == text.len(),
        text_part(with_length(text) + with_length(colors)) == text,
        colors_size(with_length(text) + with_length(colors)) == colors.len(),
        colors_part(with_length(text) + with_length(colors)) == colors,
{
    lemma_length_first(text);
    lemma_length_first(colors);
    lemma_two_parts(with_length(text), with_length(colors));
}

/// What a keyframe of given parts shows.
spec fn parts_shown(
    format: Format,
    lut: Seq<char>,
    current: Picture,
    text: Seq<u8>,
    colors: Seq<u8>,
) -> Picture {
    let chars = if text.len() > 0 {
        rows_of(format, rle_expand(text))
    } else {
        current.chars
    };
    if colors.len() > 0 && format.color {
        Picture {
            chars: if format.derives() && text.len() == 0 {
                derived_rows(lut, colors_of(format, colors))
            } else {
                chars
            },
            colors: Some(colors_of(format, colors)),
        }
    } else {
        Picture { chars, colors: None }
    }
}

proof fn lemma_parts_shown(
    format: Format,
    lut: Seq<char>,
    current: Picture,
    text: Seq<u8>,
    colors: Seq<u8>,
)
    requires
        text.len() <= u32::MAX,
        colors.len() <= u32::MAX,
        text.len() > 0 ==> rows_start_within(format, rle_expand(text)),
        colors.len() > 0 && format.color ==> colors_in_palette(format, colors),
    ensures
        keyframe_sound(format, with_length(text) + with_length(colors)),
        after_keyframe(format, lut, current, with_length(text) + with_length(colors)).0
            == parts_shown(format, lut, current, text, colors),
        after_keyframe(format, lut, current, with_length(text) + with_length(colors)).1 is Ok,
{
    lemma_keyframe_parts(text, colors);
}

/// The text of a keyframe that stores its text.
proof fn lemma_keyframe_text(format: Format, picture: Picture)
    requires
        carries(format, picture),
        keyframe_fits(format, picture),
        !format.derives(),
    ensures
        keyframe_text(format, picture).len() > 0,
        rows_of(format, rle_expand(keyframe_text(format, picture))) == picture.chars,
        rows_start_within(format, rle_expand(keyframe_text(format, picture))),
{
    let flat = text_bytes(picture.chars, picture.chars.len());
    lemma_text_reads_back(format, picture.chars);
    lemma_rle_round_trip(flat);
    lemma_rle_size(flat);
}

/// A keyframe plays back as the picture that it was made of, whatever was
/// shown before.
pub proof fn lemma_keyframe_plays_back(
    format: Format,
    lut: Seq<char>,
    current: Picture,
    picture: Picture,
)
    requires
        carries(format, picture),
        keyframe_fits(format, picture),
    ensures
        keyframe_sound(format, keyframe_payload(format, picture)),
        after_keyframe(format, lut, current, keyframe_payload(format, picture)) == (
            played(format, lut, picture),
            Ok::<(), TcamError>(()),
        ),
{
    let text = keyframe_text(format, picture);
    let colors = keyframe_colors(format, picture);
    if !format.derives() {
        lemma_keyframe_text(format, picture);
    }
    if format.color {
        lemma_colors_read_back(format, picture.colors->0);
    }
    lemma_parts_shown(format, lut, current, text, colors);
    assert(parts_shown(format, lut, current, text, colors) == played(format, lut, picture));
}

/// The parts of a keyframe are short enough for their lengths to be written
/// wherever three bytes for each cell are.
pub proof fn lemma_keyframe_fits(format: Format, picture: Picture)
    requires
        carries(format, picture),
        3 * (format.width * format.height) <= u32::MAX,
    ensures
        keyframe_fits(format, picture),
{
    let w = format.width;
    let h = format.height;
    assert(h * w == w * h && 0 <= w * h) by (nonlinear_arith)
        requires
            0 < w,
            0 < h,
    ;
    if !format.derives() {
        let flat = text_bytes(picture.chars, picture.chars.len());
        lemma_text_bytes(picture.chars, w, picture.chars.len());
        lemma_rle_size(flat);
    }
    if format.color {
        let rows = picture.colors->0;
        lemma_color_bytes(format, rows, w, rows.len());
        assert(h * w * format.color_size() <= 3 * (h * w)) by (nonlinear_arith)
            requires
                0 <= h * w,
                format.color_size() <= 3,
        ;
    }
}

} // verus!
