//! What is read of a recording is what was written: what playback shows of a
//! picture, and which pictures a recording carries whole.
use vstd::prelude::*;
use vstd::utf8::is_ascii_chars;

use crate::color::{palette_color, palette_index};
use crate::format::{derived_rows, keyframe_colors, keyframe_text, Format};
use crate::frame::{Picture, Rgb};
use crate::luma::lemma_luma_is_a_byte;
use crate::render::{lemma_ramp_table_ends, ramp_table, Scene, LEVELS};
use crate::wire::{le32, le32_at};

pub mod delta;
pub mod header;
pub mod keyframe;
pub mod replay;

verus! {

/// The colour that playback shows for a stored colour.
pub open spec fn played_color(format: Format, c: Rgb) -> Rgb {
    if format.config.quantize_colors {
        palette_color(palette_index(c))
    } else {
        c
    }
}

/// The colours that playback shows.
pub open spec fn played_colors(format: Format, rows: Seq<Seq<Rgb>>) -> Seq<Seq<Rgb>> {
    Seq::new(
        rows.len(),
        |y: int| Seq::new(rows[y].len(), |x: int| played_color(format, rows[y][x])),
    )
}

/// The picture that playback shows for a recorded one: colours as far as they
/// are stored, characters as they were or, where they are derived, those of
/// the colours.
pub open spec fn played(format: Format, lut: Seq<char>, picture: Picture) -> Picture {
    match picture.colors {
        Some(rows) if format.color => Picture {
            chars: if format.derives() {
                derived_rows(lut, played_colors(format, rows))
            } else {
                picture.chars
            },
            colors: Some(played_colors(format, rows)),
        },
        _ => Picture { chars: picture.chars, colors: None },
    }
}

/// Whether rows fill a grid.
pub open spec fn fills<T>(rows: Seq<Seq<T>>, w: int, h: int) -> bool {
    &&& rows.len() == h
    &&& forall|y: int| 0 <= y < h ==> (#[trigger] rows[y]).len() == w
}

/// Whether a recording of a shape carries a picture whole: the picture has
/// cells, its text is ASCII and fills them, unless it is derived, and so do
/// its colours, if they are recorded.
pub open spec fn carries(format: Format, picture: Picture) -> bool {
    &&& format.width > 0
    &&& format.height > 0
    &&& !format.derives() ==> fills(picture.chars, format.width, format.height) && forall|y: int|
        0 <= y < format.height ==> is_ascii_chars(#[trigger] picture.chars[y])
    &&& format.color ==> (picture.colors matches Some(rows) && fills(
        rows,
        format.width,
        format.height,
    ))
}

/// Whether every cell of a shape has a name of its own, and derived characters
/// are ASCII.
pub open spec fn names_cells(format: Format, lut: Seq<char>) -> bool {
    &&& format.width <= 65535
    &&& format.height <= 65535
    &&& format.config.flat_indices ==> format.width * format.height <= 65536
    &&& format.derives() ==> lut.len() == LEVELS && is_ascii_chars(lut)
}

/// Whether the parts of a keyframe are short enough for their lengths to be
/// written.
pub open spec fn keyframe_fits(format: Format, picture: Picture) -> bool {
    &&& keyframe_text(format, picture).len() <= u32::MAX
    &&& keyframe_colors(format, picture).len() <= u32::MAX
}

/// Where four bytes are those of a number, they are read as the number.
pub proof fn lemma_le32_at(s: Seq<u8>, i: int, n: u32)
    requires
        0 <= i,
        i + 4 <= s.len(),
        s.subrange(i, i + 4) == le32(n),
    ensures
        le32_at(s, i) == n,
{
    let part = s.subrange(i, i + 4);
    assert(s[i] == part[0] && s[i + 1] == part[1] && s[i + 2] == part[2] && s[i + 3] == part[3]);
}

/// Every number below the number of cells is the number of one.
pub proof fn lemma_number_of_cell(k: int, w: int, h: int)
    requires
        w > 0,
        0 <= k < w * h,
    ensures
        0 <= k % w < w,
        0 <= k / w < h,
        k / w * w + k % w == k,
{
    vstd::arithmetic::div_mod::lemma_fundamental_div_mod(k, w);
    let x = k % w;
    let y = k / w;
    assert(w * y == y * w) by (nonlinear_arith);
    assert(0 <= y < h) by (nonlinear_arith)
        requires
            w > 0,
            0 <= x < w,
            k == w * y + x,
            0 <= k < w * h,
    ;
}

/// A rendered picture is carried by a recording of its size: its text comes
/// from an ASCII lookup table, and it has colours where the recording has.
pub proof fn lemma_rendered_picture_is_carried(scene: Scene, format: Format)
    requires
        scene.cols > 0,
        scene.rows > 0,
        scene.fits(),
        is_ascii_chars(scene.lut),
        format.width == scene.cols,
        format.height == scene.rows,
        format.color ==> scene.mode.colours(),
    ensures
        carries(format, scene.picture()),
{
    let picture = scene.picture();
    assert forall|y: int| 0 <= y < format.height implies is_ascii_chars(
        #[trigger] picture.chars[y],
    ) by {
        assert forall|x: int| 0 <= x < picture.chars[y].len() implies '\0'
            <= #[trigger] picture.chars[y][x] <= '\u{7f}' by {
            assert(scene.offset(x, y) + 2 < scene.data.len());
            let c = scene.color(x, y);
            lemma_luma_is_a_byte(c.0, c.1, c.2);
            assert(picture.chars[y][x] == scene.lut[scene.level(x, y)]);
        }
    }
}

/// The lookup table of an ASCII ramp is ASCII.
pub proof fn lemma_ramp_table_is_ascii(ramp: Seq<char>)
    requires
        ramp.len() > 0,
        is_ascii_chars(ramp),
    ensures
        is_ascii_chars(ramp_table(ramp)),
        ramp_table(ramp).len() == LEVELS,
{
    lemma_ramp_table_ends(ramp);
    let table = ramp_table(ramp);
    assert forall|i: int| 0 <= i < table.len() implies '\0' <= #[trigger] table[i] <= '\u{7f}' by {
        assert(ramp.contains(table[i]));
        let j = choose|j: int| 0 <= j < ramp.len() && ramp[j] == table[i];
        assert('\0' <= ramp[j] <= '\u{7f}');
    }
}

} // verus!
