//! Where things stand in the bytes of a recording, and how they are read.
use vstd::prelude::*;
use vstd::utf8::{decode_utf8, encode_utf8, is_ascii_chars, valid_utf8};

use crate::cli::ColorMode;
use crate::color::palette_index;
use crate::decoder::{
    extended, heading_of, next_is_sound, next_record, read_header, read_next, Player, TcamDecoder,
    TcamHeader,
};
use crate::encoder::{frame_stream, next_payload, Tape, TcamEncoder};
use crate::format::{
    after_delta, after_entries, after_entry, after_keyframe, after_payload, cell_byte, cell_changed,
    cell_color, cell_count, cell_entry, change_count, color_bytes, filled, flat_row,
    keyframe_colors, keyframe_text, rows_of, text_bytes, with_length, Cells, Format, TcamError,
};
use crate::frame::{Picture, RenderFrame, Rgb};
use crate::laws::recorded::{lemma_four_bytes, lemma_two_bytes, number_of};
use crate::laws::shades::{lemma_luma_sum, thousandths};
use crate::recording::RecordingConfig;
use crate::rle::{rle_decode, rle_encode, rle_expand, rle_of};
use crate::roundtrip::fills;
use crate::roundtrip::keyframe::{lemma_color_bytes, lemma_keyframe_parts, lemma_text_bytes};
use crate::wire::{lemma_ascii_text, lossy_text, valid_up_to, zlib_deflated, zlib_inflated};

verus! {

/// The flag word has one bit for each setting: from the lowest, colours, skipped
/// frames, palette colours, derived characters, numbered cells, time distances
/// and tight streams.
pub proof fn lemma_flag_bits(config: RecordingConfig, color: bool, flags: u16)
    requires
        call_ensures(RecordingConfig::flags, (&config, color), flags),
    ensures
        flags < 128,
        flags % 2 == 1 <==> color,
        flags / 2 % 2 == 1 <==> config.skip_identical,
        flags / 4 % 2 == 1 <==> config.quantize_colors,
        flags / 8 % 2 == 1 <==> config.derive_chars,
        flags / 16 % 2 == 1 <==> config.flat_indices,
        flags / 32 % 2 == 1 <==> config.delta_timestamps,
        flags / 64 % 2 == 1 <==> config.zlib_max,
{
}

/// Settings are read from the same bits.
pub proof fn lemma_settings_of_flags(flags: u16, config: RecordingConfig)
    requires
        call_ensures(RecordingConfig::from_flags, (flags,), config),
    ensures
        config.skip_identical <==> flags / 2 % 2 == 1,
        config.quantize_colors <==> flags / 4 % 2 == 1,
        config.derive_chars <==> flags / 8 % 2 == 1,
        config.flat_indices <==> flags / 16 % 2 == 1,
        config.delta_timestamps <==> flags / 32 % 2 == 1,
        config.zlib_max <==> flags / 64 % 2 == 1,
        config.color_mode == ColorMode::TrueColor,
{
}

/// A recording starts with `TCAM` and its version, 2; then come its columns and
/// rows in two bytes each, the frames in a second, the flag word in two bytes,
/// and the ramp after the number of its bytes.
pub proof fn lemma_header_layout(
    width: usize,
    height: usize,
    fps: u8,
    ramp: &str,
    color: bool,
    config: RecordingConfig,
    flags: u16,
    r: TcamEncoder,
)
    requires
        call_ensures(TcamEncoder::create, (width, height, fps, ramp, color, config), r),
        call_ensures(RecordingConfig::flags, (&config, color), flags),
    ensures
        ({
            let b = r@.written;
            &&& b.len() == 13 + encode_utf8(ramp@).len()
            &&& b.take(5) == seq![84u8, 67, 65, 77, 2]
            &&& number_of(b.subrange(5, 7)) == width as int % 65536
            &&& number_of(b.subrange(7, 9)) == height as int % 65536
            &&& b[9] == fps
            &&& number_of(b.subrange(10, 12)) == flags
            &&& b[12] == encode_utf8(ramp@).len() % 256
            &&& b.skip(13) == encode_utf8(ramp@)
        }),
        r@.count == 0,
        r@.previous is None,
        r@.clock == 0,
        r@.format.width == width,
        r@.format.height == height,
        r@.format.color == color,
        r@.format.config.skip_identical == config.skip_identical,
        r@.format.config.quantize_colors == config.quantize_colors,
        r@.format.config.derive_chars == config.derive_chars,
        r@.format.config.flat_indices == config.flat_indices,
        r@.format.config.delta_timestamps == config.delta_timestamps,
        r@.tight == config.zlib_max,
{
    let b = r@.written;
    lemma_flag_bits(config, color, flags);
    assert(b.take(5) =~= seq![84u8, 67, 65, 77, 2]);
    lemma_two_bytes(b, 5);
    lemma_two_bytes(b, 7);
    lemma_two_bytes(b, 10);
    assert(b.skip(13) =~= encode_utf8(ramp@));
}

/// What a header of the present version says: columns, rows and frames in a
/// second as they stand there, the lowest flag for colours, and the ramp.
pub proof fn lemma_header_is_read(data: &[u8], r: Result<TcamHeader, TcamError>)
    requires
        call_ensures(read_header, (data,), r),
        data@.len() >= 13,
        data@.take(5) == seq![84u8, 67, 65, 77, 2],
        data@.len() >= 13 + data@[12],
        valid_utf8(data@.subrange(13, 13 + data@[12])),
    ensures
        r matches Ok(h) && {
            let flags = number_of(data@.subrange(10, 12));
            &&& h.width == number_of(data@.subrange(5, 7))
            &&& h.height == number_of(data@.subrange(7, 9))
            &&& h.fps == data@[9]
            &&& h.color <==> flags % 2 == 1
            &&& h.config.skip_identical <==> flags / 2 % 2 == 1
            &&& h.config.quantize_colors <==> flags / 4 % 2 == 1
            &&& h.config.derive_chars <==> flags / 8 % 2 == 1
            &&& h.config.flat_indices <==> flags / 16 % 2 == 1
            &&& h.config.delta_timestamps <==> flags / 32 % 2 == 1
            &&& h.config.zlib_max <==> flags / 64 % 2 == 1
            &&& h.ramp@ == decode_utf8(data@.subrange(13, 13 + data@[12]))
            &&& h.size == 13 + data@[12]
        },
{
    let d = data@;
    assert(d.take(5)[0] == d[0] && d.take(5)[1] == d[1] && d.take(5)[2] == d[2] && d.take(5)[3]
        == d[3] && d.take(5)[4] == d[4]);
    assert(d.take(4) =~= seq![84u8, 67, 65, 77]);
    lemma_two_bytes(d, 5);
    lemma_two_bytes(d, 7);
    lemma_two_bytes(d, 10);
}

/// What a header of the first version says: the same, but with one byte of flags
/// of which the lowest is for colours, and plain settings.
pub proof fn lemma_old_header_is_read(data: &[u8], r: Result<TcamHeader, TcamError>)
    requires
        call_ensures(read_header, (data,), r),
        data@.len() >= 12,
        data@.take(5) == seq![84u8, 67, 65, 77, 1],
        data@.len() >= 12 + data@[11],
        valid_utf8(data@.subrange(12, 12 + data@[11])),
    ensures
        r matches Ok(h) && {
            &&& h.width == number_of(data@.subrange(5, 7))
            &&& h.height == number_of(data@.subrange(7, 9))
            &&& h.fps == data@[9]
            &&& h.color <==> data@[10] % 2 == 1
            &&& !h.config.skip_identical
            &&& !h.config.quantize_colors
            &&& !h.config.derive_chars
            &&& !h.config.flat_indices
            &&& !h.config.delta_timestamps
            &&& h.ramp@ == decode_utf8(data@.subrange(12, 12 + data@[11]))
            &&& h.size == 12 + data@[11]
        },
{
    let d = data@;
    assert(d.take(5)[0] == d[0] && d.take(5)[1] == d[1] && d.take(5)[2] == d[2] && d.take(5)[3]
        == d[3] && d.take(5)[4] == d[4]);
    assert(d.take(4) =~= seq![84u8, 67, 65, 77]);
    lemma_two_bytes(d, 5);
    lemma_two_bytes(d, 7);
}

/// Bytes that do not start with `TCAM`, or not with a version 1 or 2 after it,
/// are no recording.
pub proof fn lemma_other_bytes_are_refused(data: &[u8], r: Result<TcamHeader, TcamError>)
    requires
        call_ensures(read_header, (data,), r),
    ensures
        data@.len() < 4 ==> (r matches Err(e) && e == TcamError::UnexpectedEnd),
        data@.len() >= 4 && data@.take(4) != seq![84u8, 67, 65, 77] ==> (r matches Err(e) && e
            == TcamError::NotTcam),
        data@.len() >= 5 && data@.take(4) == seq![84u8, 67, 65, 77] && data@[4] != 1 && data@[4]
            != 2 ==> (r matches Err(e) && e == TcamError::UnsupportedVersion(data@[4])),
        r is Ok ==> data@.len() >= 12 && data@.take(4) == seq![84u8, 67, 65, 77] && (data@[4] == 1
            || data@[4] == 2),
        data@.len() >= 5 && data@.take(4) == seq![84u8, 67, 65, 77] && data@[4] == 2 && (data@.len()
            < 13 || data@.len() < 13 + data@[12]) ==> (r matches Err(e) && e
            == TcamError::UnexpectedEnd),
        data@.len() >= 5 && data@.take(4) == seq![84u8, 67, 65, 77] && data@[4] == 1 && (data@.len()
            < 12 || data@.len() < 12 + data@[11]) ==> (r matches Err(e) && e
            == TcamError::UnexpectedEnd),
{
}

/// A ramp that is not UTF-8 is refused, with the number of its first bytes that
/// are: so many are UTF-8, and no more.
pub proof fn lemma_bad_ramp_is_refused(data: &[u8], r: Result<TcamHeader, TcamError>)
    requires
        call_ensures(read_header, (data,), r),
        data@.len() >= 13,
        data@.take(5) == seq![84u8, 67, 65, 77, 2],
        data@.len() >= 13 + data@[12],
        !valid_utf8(data@.subrange(13, 13 + data@[12])),
    ensures
        r matches Err(TcamError::BadRamp(at, _)) && {
            let ramp = data@.subrange(13, 13 + data@[12]);
            &&& at < ramp.len()
            &&& at == 0 || valid_utf8(ramp.take(at as int))
            &&& forall|m: int| at < m <= ramp.len() ==> !valid_utf8(#[trigger] ramp.take(m))
        },
{
    let d = data@;
    assert(d.take(5)[0] == d[0] && d.take(5)[1] == d[1] && d.take(5)[2] == d[2] && d.take(5)[3]
        == d[3] && d.take(5)[4] == d[4]);
    assert(d.take(4) =~= seq![84u8, 67, 65, 77]);
    let ramp = d.subrange(13, 13 + d[12]);
    assert(ramp.take(ramp.len() as int) =~= ramp);
    lemma_valid_up_to(ramp, ramp.len());
}

proof fn lemma_valid_up_to(bytes: Seq<u8>, n: nat)
    requires
        n <= bytes.len(),
    ensures
        valid_up_to(bytes, n) <= n,
        valid_up_to(bytes, n) == 0 || valid_utf8(bytes.take(valid_up_to(bytes, n) as int)),
        forall|m: int|
            valid_up_to(bytes, n) < m <= n ==> !valid_utf8(#[trigger] bytes.take(m)),
    decreases n,
{
    if n > 0 && !valid_utf8(bytes.take(n as int)) {
        lemma_valid_up_to(bytes, (n - 1) as nat);
    }
}

/// An opened recording has shown nothing, stands at time 0 behind its header,
/// and gives its characters from its ramp.
pub proof fn lemma_opened_recording_starts(data: Vec<u8>, r: Result<TcamDecoder, TcamError>)
    requires
        call_ensures(TcamDecoder::open, (data,), r),
    ensures
        r matches Ok(d) ==> heading_of(data@) matches Ok(h) && {
            &&& d@.format.width == h.width
            &&& d@.format.height == h.height
            &&& d@.format.color == h.color
            &&& d@.format.config == h.config
            &&& d@.fps == h.fps
            &&& d@.current.chars.len() == 0
            &&& d@.current.colors is None
            &&& d@.clock == 0
            &&& d@.rest == data@.skip(h.size)
        },
        r is Ok <==> heading_of(data@) is Ok,
{
}

/// A block of text has the character of each cell at the place of its number.
proof fn lemma_text_block(rows: Seq<Seq<char>>, w: int, h: int, x: int, y: int)
    requires
        0 <= x < w,
        0 <= y < h,
        fills(rows, w, h),
        forall|i: int| 0 <= i < h ==> is_ascii_chars(#[trigger] rows[i]),
    ensures
        ({
            let flat = rle_expand(rle_of(text_bytes(rows, h as nat)));
            &&& flat.len() == h * w
            &&& flat[y * w + x] == rows[y][x] as u8
        }),
{
    let flat = text_bytes(rows, h as nat);
    lemma_text_bytes(rows, w, h as nat);
    crate::rle::lemma_rle_round_trip(flat);
    lemma_ascii_text(rows[y]);
    crate::render::lemma_cell_in_grid(x, y, w, h);
    assert(w * h == h * w) by (nonlinear_arith);
    assert(flat.subrange(y * w, y * w + w) == encode_utf8(rows[y]));
    assert(flat[y * w + x] == flat.subrange(y * w, y * w + w)[x]);
}

/// A block of colours has the colour of each cell at the place of its number.
proof fn lemma_color_block(format: Format, rows: Seq<Seq<Rgb>>, w: int, h: int, x: int, y: int)
    requires
        0 <= x < w,
        0 <= y < h,
        fills(rows, w, h),
    ensures
        ({
            let block = color_bytes(format, rows, h as nat);
            let k = y * w + x;
            let c = rows[y][x];
            &&& format.config.quantize_colors ==> block.len() == h * w && k < h * w && block[k]
                == palette_index(c)
            &&& !format.config.quantize_colors ==> block.len() == h * w * 3 && 3 * k + 3 <= h * w * 3
                && block.subrange(3 * k, 3 * k + 3) == seq![c.0, c.1, c.2]
        }),
{
    let block = color_bytes(format, rows, h as nat);
    let k = y * w + x;
    let c = rows[y][x];
    let s = format.color_size();
    lemma_color_bytes(format, rows, w, h as nat);
    crate::render::lemma_cell_in_grid(x, y, w, h);
    assert(w * h == h * w) by (nonlinear_arith);
    assert(block.subrange(k * s, k * s + s) == format.stored_color(c));
    if format.config.quantize_colors {
        assert(h * w * 1 == h * w && k * 1 == k);
        assert(block[k] == block.subrange(k, k + 1)[0]);
    } else {
        assert(3 * k + 3 <= h * w * 3);
        assert(k * 3 == 3 * k);
    }
}

/// The payload of a keyframe is its two blocks, each after its length.
proof fn lemma_two_blocks(text: Seq<u8>, colors: Seq<u8>, all: Seq<u8>)
    requires
        text.len() <= u32::MAX,
        colors.len() <= u32::MAX,
        all == with_length(text) + with_length(colors),
    ensures
        ({
            let t = text.len() as int;
            &&& number_of(all.subrange(0, 4)) == t
            &&& number_of(all.subrange(4 + t, 8 + t)) == colors.len()
            &&& all.len() == 8 + t + colors.len()
            &&& all.subrange(4, 4 + t) == text
            &&& all.skip(8 + t) == colors
        }),
{
    let t = text.len() as int;
    lemma_keyframe_parts(text, colors);
    lemma_four_bytes(all, 0);
    lemma_four_bytes(all, 4 + t);
    assert(all.subrange(4, 4 + t) =~= text);
    assert(all.skip(8 + t) =~= colors);
}

/// What a keyframe stores of the text of a picture that fills its size: the rows
/// one after the other, in runs, so that the character in column `x` and row `y`
/// stands at the place of its cell's number; or no text, where it is derived.
#[verifier::rlimit(40)]
pub proof fn lemma_keyframe_stores_text(
    encoder: TcamEncoder,
    frame: RenderFrame,
    r: Vec<u8>,
    x: int,
    y: int,
)
    requires
        call_ensures(TcamEncoder::encode_keyframe, (&encoder, &frame), r),
        0 <= x < encoder@.format.width,
        0 <= y < encoder@.format.height,
        fills(frame@.chars, encoder@.format.width, encoder@.format.height),
        forall|i: int|
            0 <= i < encoder@.format.height ==> is_ascii_chars(#[trigger] frame@.chars[i]),
        keyframe_text(encoder@.format, frame@).len() <= u32::MAX,
        keyframe_colors(encoder@.format, frame@).len() <= u32::MAX,
    ensures
        ({
            let w = encoder@.format.width;
            let t = number_of(r@.subrange(0, 4));
            let flat = rle_expand(r@.subrange(4, 4 + t));
            let derived = encoder@.format.config.derive_chars && encoder@.format.color;
            &&& derived ==> t == 0
            &&& !derived ==> flat.len() == encoder@.format.height * w && flat[y * w + x]
                == frame@.chars[y][x] as u8
        }),
{
    let format = encoder@.format;
    lemma_two_blocks(keyframe_text(format, frame@), keyframe_colors(format, frame@), r@);
    lemma_text_block(frame@.chars, format.width, format.height, x, y);
}

/// What a keyframe stores of the colours of a picture that fills its size, after
/// its text: the colour in column `x` and row `y` at the place of its cell's
/// number, in three bytes or as a palette index; or none, in a recording without
/// colours.
#[verifier::rlimit(40)]
pub proof fn lemma_keyframe_stores_colors(
    encoder: TcamEncoder,
    frame: RenderFrame,
    r: Vec<u8>,
    x: int,
    y: int,
)
    requires
        call_ensures(TcamEncoder::encode_keyframe, (&encoder, &frame), r),
        0 <= x < encoder@.format.width,
        0 <= y < encoder@.format.height,
        encoder@.format.color ==> (frame@.colors matches Some(rows) && fills(
            rows,
            encoder@.format.width,
            encoder@.format.height,
        )),
        keyframe_text(encoder@.format, frame@).len() <= u32::MAX,
        keyframe_colors(encoder@.format, frame@).len() <= u32::MAX,
    ensures
        ({
            let format = encoder@.format;
            let t = number_of(r@.subrange(0, 4));
            let n = number_of(r@.subrange(4 + t, 8 + t));
            let block = r@.skip(8 + t);
            let k = y * format.width + x;
            &&& block.len() == n
            &&& !format.color ==> n == 0
            &&& format.color && !format.config.quantize_colors ==> n == format.height * format.width
                * 3 && block.subrange(3 * k, 3 * k + 3) == seq![
                frame@.colors->0[y][x].0,
                frame@.colors->0[y][x].1,
                frame@.colors->0[y][x].2,
            ]
            &&& format.color && format.config.quantize_colors ==> n == format.height * format.width
                && block[k] == palette_index(frame@.colors->0[y][x])
        }),
{
    let format = encoder@.format;
    lemma_two_blocks(keyframe_text(format, frame@), keyframe_colors(format, frame@), r@);
    if format.color {
        lemma_color_block(format, frame@.colors->0, format.width, format.height, x, y);
    }
}

/// The bytes of a changed cell: its number, or its column and row, in two bytes
/// each; its character, unless that is derived; and its colour, if there are
/// colours, in three bytes or as a palette index.
pub proof fn lemma_entry_layout(format: Format, picture: Picture, x: int, y: int)
    requires
        0 <= x <= 65535,
        0 <= y <= 65535,
        0 <= y * format.width + x <= 65535 || !format.config.flat_indices,
    ensures
        ({
            let e = cell_entry(format, picture, x, y);
            let derived = format.config.derive_chars && format.color;
            let c = cell_color(picture.colors, x, y);
            let i = if format.config.flat_indices {
                2int
            } else {
                4int
            };
            let j = if derived {
                i
            } else {
                i + 1
            };
            &&& format.config.flat_indices ==> number_of(e.subrange(0, 2)) == y * format.width + x
            &&& !format.config.flat_indices ==> number_of(e.subrange(0, 2)) == x && number_of(
                e.subrange(2, 4),
            ) == y
            &&& !derived ==> e[i] == cell_byte(picture.chars, x, y)
            &&& !format.color ==> e.len() == j
            &&& format.color && format.config.quantize_colors ==> e.len() == j + 1 && e[j]
                == palette_index(c)
            &&& format.color && !format.config.quantize_colors ==> e.len() == j + 3 && e[j] == c.0
                && e[j + 1] == c.1 && e[j + 2] == c.2
        }),
{
    let e = cell_entry(format, picture, x, y);
    lemma_two_bytes(e, 0);
    if !format.config.flat_indices {
        lemma_two_bytes(e, 2);
    }
}

/// What a cell of a picture is when frames are compared: its character, or a
/// blank where there is none, and its colour, or black.
pub proof fn lemma_compared_cells(picture: Picture, x: int, y: int)
    requires
        0 <= x,
        0 <= y,
    ensures
        y < picture.chars.len() && is_ascii_chars(picture.chars[y]) && x < picture.chars[y].len()
            ==> cell_byte(picture.chars, x, y) == picture.chars[y][x] as u8,
        y < picture.chars.len() && is_ascii_chars(picture.chars[y]) && x >= picture.chars[y].len()
            ==> cell_byte(picture.chars, x, y) == 32,
        y >= picture.chars.len() ==> cell_byte(picture.chars, x, y) == 32,
        picture.colors matches Some(rows) && y < rows.len() && x < rows[y].len() ==> cell_color(
            picture.colors,
            x,
            y,
        ) == picture.colors->0[y][x],
        picture.colors is None ==> cell_color(picture.colors, x, y) == (0u8, 0u8, 0u8),
{
    if y < picture.chars.len() && is_ascii_chars(picture.chars[y]) {
        lemma_ascii_text(picture.chars[y]);
    }
}

proof fn lemma_no_change(format: Format, before: Picture, after: Picture, n: nat)
    ensures
        change_count(format, before, after, n) == 0 <==> forall|k: int|
            0 <= k < n ==> !cell_changed(
                format,
                before,
                after,
                #[trigger] (k % format.width),
                k / format.width,
            ),
    decreases n,
{
    if n > 0 {
        let k = n - 1;
        lemma_no_change(format, before, after, k as nat);
        if change_count(format, before, after, n) == 0 {
            assert forall|j: int| 0 <= j < n implies !cell_changed(
                format,
                before,
                after,
                #[trigger] (j % format.width),
                j / format.width,
            ) by {
                if j == k {
                }
            }
        } else {
            if change_count(format, before, after, k as nat) == 0 {
                assert(cell_changed(format, before, after, k % format.width, k / format.width));
            }
        }
    }
}

/// A frame is stored as a skip exactly where such frames are skipped, a frame is
/// stored before it, it is no thirtieth, and no cell has changed: neither a
/// character that is stored nor, where there are colours, a colour as it is
/// stored.
#[verifier::rlimit(40)]
pub proof fn lemma_skips_are_unchanged_frames(
    encoder: TcamEncoder,
    frame: RenderFrame,
    before: Picture,
    r: Option<(u8, Vec<u8>)>,
)
    requires
        call_ensures(TcamEncoder::frame_payload, (&encoder, &frame), r),
        encoder@.previous == Some(before),
        encoder@.count % 30 != 0,
        encoder@.format.width > 0,
        encoder@.format.height >= 0,
    ensures
        r is None <==> encoder@.format.config.skip_identical && forall|x: int, y: int|
            0 <= x < encoder@.format.width && 0 <= y < encoder@.format.height
                ==> !#[trigger] cell_changed(encoder@.format, before, frame@, x, y),
        r matches Some((kind, data)) ==> kind == 1,
{
    let format = encoder@.format;
    let w = format.width;
    let h = format.height;
    let n = (w * h) as nat;
    assert(w * h >= 0) by (nonlinear_arith)
        requires
            w > 0,
            h >= 0,
    ;
    lemma_no_change(format, before, frame@, n);
    if change_count(format, before, frame@, n) == 0 {
        assert forall|x: int, y: int| 0 <= x < w && 0 <= y < h implies !#[trigger] cell_changed(
            format,
            before,
            frame@,
            x,
            y,
        ) by {
            crate::render::lemma_cell_in_grid(x, y, w, h);
            crate::render::lemma_cell_of(x, y, w);
            let k = y * w + x;
            assert(!cell_changed(format, before, frame@, k % w, k / w));
        }
    } else {
        let k = choose|k: int|
            0 <= k < n && cell_changed(format, before, frame@, #[trigger] (k % w), k / w);
        assert(0 <= k < n && cell_changed(format, before, frame@, k % w, k / w));
        vstd::arithmetic::div_mod::lemma_fundamental_div_mod(k, w);
        vstd::arithmetic::div_mod::lemma_mod_bound(k, w);
        assert(0 <= k / w < h) by (nonlinear_arith)
            requires
                w > 0,
                0 <= k < w * h,
                k == w * (k / w) + k % w,
                0 <= k % w < w,
        ;
    }
}

/// When a cell counts as changed.
pub proof fn lemma_changed_cells(format: Format, before: Picture, after: Picture, x: int, y: int)
    ensures
        !format.color ==> (cell_changed(format, before, after, x, y) <==> cell_byte(
            before.chars,
            x,
            y,
        ) != cell_byte(after.chars, x, y)),
        format.color && !format.config.derive_chars && cell_byte(before.chars, x, y) != cell_byte(
            after.chars,
            x,
            y,
        ) ==> cell_changed(format, before, after, x, y),
        format.color && !format.config.quantize_colors && cell_color(before.colors, x, y)
            != cell_color(after.colors, x, y) ==> cell_changed(format, before, after, x, y),
        format.color && cell_color(before.colors, x, y) == cell_color(after.colors, x, y) && (
        format.config.derive_chars || cell_byte(before.chars, x, y) == cell_byte(after.chars, x, y))
            ==> !cell_changed(format, before, after, x, y),
{
    let a = cell_color(before.colors, x, y);
    let b = cell_color(after.colors, x, y);
    if !format.config.quantize_colors && format.stored_color(a) == format.stored_color(b) {
        assert(format.stored_color(a)[0] == format.stored_color(b)[0]);
        assert(format.stored_color(a)[1] == format.stored_color(b)[1]);
        assert(format.stored_color(a)[2] == format.stored_color(b)[2]);
    }
}

/// The first frame, every thirtieth, and one with none stored before it, is a
/// keyframe.
pub proof fn lemma_keyframes(encoder: TcamEncoder, frame: RenderFrame, r: Option<(u8, Vec<u8>)>, key: Vec<u8>)
    requires
        call_ensures(TcamEncoder::frame_payload, (&encoder, &frame), r),
        call_ensures(TcamEncoder::encode_keyframe, (&encoder, &frame), key),
        encoder@.count % 30 == 0 || encoder@.previous is None,
    ensures
        r matches Some((kind, data)) && kind == 0 && data@ == key@,
{
}

/// The next record of a recording: its kind, its time, which is as it stands
/// there or the sum of the distances so far, and its payload.
pub proof fn lemma_next_record_is_read(player: Player)
    requires
        player.rest.len() >= 9,
    ensures
        ({
            let i = if player.format.config.delta_timestamps {
                3int
            } else {
                5int
            };
            let size = number_of(player.rest.subrange(i, i + 4));
            let time = if player.format.config.delta_timestamps {
                let sum = player.clock + number_of(player.rest.subrange(1, 3));
                if sum <= 0xffff_ffff {
                    sum
                } else {
                    0xffff_ffff
                }
            } else {
                number_of(player.rest.subrange(1, 5))
            };
            &&& player.rest.len() >= i + 4 + size ==> (next_record(player).1 matches Ok(
                Some((kind, at, payload)),
            ) && kind == player.rest[0] && at == time && payload == player.rest.subrange(
                i + 4,
                i + 4 + size,
            ) && next_record(player).0.rest == player.rest.skip(i + 4 + size))
            &&& player.rest.len() < i + 4 + size ==> (next_record(player).1 matches Err(e) && e
                == TcamError::UnexpectedEnd)
            &&& next_record(player).0.current == player.current
            &&& player.format.config.delta_timestamps && player.rest.len() >= i + 4 ==> next_record(
                player,
            ).0.clock == time
        }),
{
    lemma_two_bytes(player.rest, 1);
    lemma_four_bytes(player.rest, 1);
    lemma_four_bytes(player.rest, 3);
    lemma_four_bytes(player.rest, 5);
}

/// What a keyframe with colours shows: the colour of each cell stands at the
/// place of its number, red, green and blue; cells beyond its end are black.
pub proof fn lemma_keyframe_shows_colors(
    format: Format,
    lut: Seq<char>,
    current: Picture,
    data: Seq<u8>,
    x: int,
    y: int,
)
    requires
        data.len() >= 8,
        format.color,
        !format.config.quantize_colors,
        0 <= x < format.width,
        0 <= y < format.height,
        ({
            let t = number_of(data.subrange(0, 4));
            &&& data.len() >= 8 + t
            &&& number_of(data.subrange(4 + t, 8 + t)) > 0
            &&& data.len() >= 8 + t + number_of(data.subrange(4 + t, 8 + t))
        }),
    ensures
        ({
            let t = number_of(data.subrange(0, 4));
            let n = number_of(data.subrange(4 + t, 8 + t));
            let k = 3 * (y * format.width + x);
            let shown = after_keyframe(format, lut, current, data);
            &&& shown.1 is Ok
            &&& shown.0.colors matches Some(rows) && rows.len() == format.height && rows[y].len()
                == format.width && (k + 2 < n ==> rows[y][x] == (
                data[8 + t + k],
                data[8 + t + k + 1],
                data[8 + t + k + 2],
            )) && (k >= n ==> rows[y][x] == (0u8, 0u8, 0u8))
        }),
{
    lemma_four_bytes(data, 0);
    let t = number_of(data.subrange(0, 4));
    lemma_four_bytes(data, 4 + t);
    crate::render::lemma_cell_in_grid(x, y, format.width, format.height);
}

/// Where characters are derived, a keyframe without text shows, for each cell,
/// the character of the table by the brightness of its colour.
pub proof fn lemma_keyframe_derives_characters(
    format: Format,
    lut: Seq<char>,
    current: Picture,
    data: Seq<u8>,
    x: int,
    y: int,
)
    requires
        after_keyframe(format, lut, current, data).1 is Ok,
        after_keyframe(format, lut, current, data).0.colors is Some,
        data.len() >= 4,
        number_of(data.subrange(0, 4)) == 0,
        format.color,
        format.config.derive_chars,
        0 <= x < format.width,
        0 <= y < format.height,
    ensures
        ({
            let shown = after_keyframe(format, lut, current, data).0;
            exists|k: int|
                0 <= k <= 255 && #[trigger] (1000 * k) <= thousandths(shown.colors->0[y][x]) <= 1000
                    * k + 1000 && shown.chars[y][x] == lut[k]
        }),
{
    lemma_four_bytes(data, 0);
    let shown = after_keyframe(format, lut, current, data).0;
    let c = shown.colors->0[y][x];
    lemma_luma_sum(c);
    let k = crate::luma::luma_of(c.0, c.1, c.2) as int;
    assert(1000 * k <= thousandths(c) <= 1000 * k + 1000);
    assert(shown.chars[y][x] == lut[k]);
}

/// An entry of a delta sets the cell that it names, to the character and the
/// colour that stand in it, and leaves every other cell as it was.
#[verifier::rlimit(40)]
pub proof fn lemma_entry_sets_its_cell(
    format: Format,
    lut: Seq<char>,
    cells: Cells,
    entry: Seq<u8>,
    x: int,
    y: int,
)
    requires
        format.width > 0,
        !(format.config.derive_chars && format.color),
        entry.len() == (if format.config.flat_indices {
            2int
        } else {
            4
        }) + 1 + (if !format.color {
            0int
        } else if format.config.quantize_colors {
            1
        } else {
            3
        }),
        0 <= y < cells.chars.len(),
        0 <= x < cells.chars[y].len(),
    ensures
        ({
            let after = after_entry(format, lut, cells, entry);
            let i = if format.config.flat_indices {
                2int
            } else {
                4int
            };
            let named = if format.config.flat_indices {
                x < format.width && number_of(entry.subrange(0, 2)) == y * format.width + x
            } else {
                number_of(entry.subrange(0, 2)) == x && number_of(entry.subrange(2, 4)) == y
            };
            &&& after.chars.len() == cells.chars.len()
            &&& after.chars[y].len() == cells.chars[y].len()
            &&& named ==> after.chars[y][x] == entry[i]
            &&& !named ==> after.chars[y][x] == cells.chars[y][x]
            &&& format.color && !format.config.quantize_colors && cells.colors is Some && y
                < cells.colors->0.len() && x < cells.colors->0[y].len() ==> after.colors is Some && (
            named ==> after.colors->0[y][x] == (entry[i + 1], entry[i + 2], entry[i + 3])) && (!named
                ==> after.colors->0[y][x] == cells.colors->0[y][x])
            &&& !format.color ==> after.colors == cells.colors
        }),
{
    lemma_two_bytes(entry, 0);
    if !format.config.flat_indices {
        lemma_two_bytes(entry, 2);
    } else {
        let n = number_of(entry.subrange(0, 2));
        let w = format.width;
        vstd::arithmetic::div_mod::lemma_fundamental_div_mod(n, w);
        vstd::arithmetic::div_mod::lemma_mod_bound(n, w);
        assert(w * (n / w) == (n / w) * w) by (nonlinear_arith);
        if x < w && n == y * w + x {
            crate::render::lemma_cell_of(x, y, w);
        }
    }
}

/// Records of kinds that are not known leave the picture as it is.
pub proof fn lemma_unknown_kinds_show_nothing(
    format: Format,
    lut: Seq<char>,
    current: Picture,
    kind: u8,
    data: Seq<u8>,
)
    requires
        kind >= 2,
    ensures
        after_payload(format, lut, current, kind, data).0 == current,
        after_payload(format, lut, current, kind, data).1 is Ok,
{
}

/// Runs are written as a count and a value, from 1 to 255 of the same byte, and
/// no run could be longer; read, each stands for that many bytes.
pub proof fn lemma_runs_are_counted(data: &[u8], r: Vec<u8>, back: Vec<u8>, runs: &[u8])
    requires
        call_ensures(rle_encode, (data,), r),
        runs@ == r@,
        call_ensures(rle_decode, (runs,), back),
    ensures
        back@ == data@,
        data@.len() == 0 ==> r@.len() == 0,
        data@.len() > 0 ==> {
            let n = r@[0] as int;
            &&& 1 <= n <= data@.len()
            &&& r@[1] == data@[0]
            &&& forall|i: int| 0 <= i < n ==> #[trigger] data@[i] == data@[0]
            &&& n < 255 && n < data@.len() ==> data@[n] != data@[0]
            &&& r@.skip(2) == rle_of(data@.skip(n))
        },
{
    crate::rle::lemma_rle_round_trip(data@);
    if data@.len() > 0 {
        crate::rle::lemma_run(data@, 255);
        let n = crate::rle::run_length(data@, 255) as int;
        assert(r@.skip(2) =~= rle_of(data@.skip(n)));
    }
}

/// What pairs of count and value stand for, one pair after the other.
pub proof fn lemma_runs_are_expanded(count: u8, value: u8, rest: &[u8], all: &[u8], r: Vec<u8>, q: Vec<u8>)
    requires
        all@ == seq![count, value] + rest@,
        call_ensures(rle_decode, (all,), r),
        call_ensures(rle_decode, (rest,), q),
    ensures
        r@.len() == count + q@.len(),
        forall|i: int| 0 <= i < count ==> #[trigger] r@[i] == value,
        r@.skip(count as int) == q@,
{
    assert(all@.skip(2) =~= rest@);
    assert(r@.skip(count as int) =~= q@);
}

/// A delta needs a frame before it; where there is one, its payload is the number
/// of changed cells in four bytes and then their entries, each as long as the
/// next.
pub proof fn lemma_delta_counts_changes(
    encoder: TcamEncoder,
    frame: RenderFrame,
    r: Result<Option<Vec<u8>>, TcamError>,
)
    requires
        call_ensures(TcamEncoder::encode_delta, (&encoder, &frame), r),
        0 <= encoder@.format.width * encoder@.format.height <= 0xffff_ffff,
    ensures
        encoder@.previous is None ==> (r matches Err(e) && e == TcamError::MissingPrevious),
        encoder@.previous is Some ==> r is Ok,
        encoder@.previous is Some && (r matches Ok(Some(_))) ==> {
            let format = encoder@.format;
            let data = r->Ok_0->0@;
            let n = change_count(format, encoder@.previous->0, frame@, cell_count(format));
            let size = (if format.config.flat_indices {
                2int
            } else {
                4
            }) + (if format.config.derive_chars && format.color {
                0int
            } else {
                1
            }) + (if !format.color {
                0int
            } else if format.config.quantize_colors {
                1
            } else {
                3
            });
            &&& number_of(data.subrange(0, 4)) == n
            &&& data.len() == 4 + n * size
        },
{
    let format = encoder@.format;
    if encoder@.previous is Some && (r matches Ok(Some(_))) {
        let before = encoder@.previous->0;
        let data = r->Ok_0->0@;
        let n = change_count(format, before, frame@, cell_count(format));
        lemma_no_more_changes(format, before, frame@, cell_count(format));
        crate::encoder::lemma_entries_size(format, before, frame@, cell_count(format));
        lemma_four_bytes(data, 0);
    }
}

proof fn lemma_no_more_changes(format: Format, before: Picture, after: Picture, n: nat)
    ensures
        change_count(format, before, after, n) <= n,
    decreases n,
{
    if n > 0 {
        lemma_no_more_changes(format, before, after, (n - 1) as nat);
    }
}

/// Payloads are compressed at the tightest of the nine levels where the settings
/// say so, and at the sixth else.
pub proof fn lemma_streams_have_levels(tape: Tape, picture: Picture, kind: u8, data: Seq<u8>)
    requires
        next_payload(tape, picture) == Some((kind, data)),
    ensures
        tape.tight ==> frame_stream(tape, picture) == zlib_deflated(data, 9),
        !tape.tight ==> frame_stream(tape, picture) == zlib_deflated(data, 6),
{
}

/// A skip shows the picture again, at its own time, whatever it carries.
pub proof fn lemma_skip_repeats_picture(player: Player, time: u32, payload: Seq<u8>)
    requires
        next_record(player).1 == Ok::<Option<(u8, u32, Seq<u8>)>, TcamError>(
            Some((2u8, time, payload)),
        ),
    ensures
        read_next(player).1 == Ok::<Option<(Picture, u32)>, TcamError>(
            Some((player.current, time)),
        ),
        read_next(player).0.current == player.current,
        next_is_sound(player),
{
}

/// A record with a payload shows the picture that the payload makes of the one
/// before, at its time; a payload that is no stream is an error and leaves the
/// picture.
pub proof fn lemma_record_shows_payload(player: Player, kind: u8, time: u32, payload: Seq<u8>)
    requires
        next_record(player).1 == Ok::<Option<(u8, u32, Seq<u8>)>, TcamError>(
            Some((kind, time, payload)),
        ),
        kind != 2,
    ensures
        ({
            let read = read_next(player);
            &&& zlib_inflated(payload) matches Err(broken) ==> read.0.current == player.current && (
            read.1 matches Err(e) && (e == TcamError::BrokenStream <==> broken) && (e
                == TcamError::BadStream <==> !broken))
            &&& zlib_inflated(payload) matches Ok(data) ==> {
                let shown = after_payload(player.format, player.lut, player.current, kind, data);
                &&& read.0.current == shown.0
                &&& shown.1 is Ok ==> read.1 == Ok::<Option<(Picture, u32)>, TcamError>(
                    Some((shown.0, time)),
                )
                &&& shown.1 matches Err(e) ==> (read.1 matches Err(e2) && e2 == e)
            }
        }),
{
}

/// Where no bytes are left there is nothing to read, and reading changes
/// nothing.
pub proof fn lemma_end_is_read(player: Player)
    requires
        player.rest.len() == 0,
    ensures
        read_next(player) == (player, Ok::<Option<(Picture, u32)>, TcamError>(None)),
        next_is_sound(player),
{
}

/// A record that is there is read the same when more bytes come behind it, and
/// they are left for later.
pub proof fn lemma_more_bytes_come_later(player: Player, more: Seq<u8>)
    requires
        next_record(player).1 is Ok,
        player.rest.len() > 0,
    ensures
        next_record(extended(player, more)).1 == next_record(player).1,
        next_record(extended(player, more)).0.rest == next_record(player).0.rest + more,
        next_record(extended(player, more)).0.clock == next_record(player).0.clock,
        extended(player, more).current == player.current,
        extended(player, more).format == player.format,
        extended(player, more).lut == player.lut,
{
    let i = if player.format.config.delta_timestamps {
        3int
    } else {
        5int
    };
    let longer = extended(player, more);
    assert(player.rest.len() >= i + 4);
    assert forall|k: int| 0 <= k < player.rest.len() implies #[trigger] longer.rest[k]
        == player.rest[k] by {}
    let size = crate::wire::le32_at(player.rest, i) as int;
    assert(crate::wire::le32_at(longer.rest, i) == size);
    assert(longer.rest.subrange(i + 4, i + 4 + size) =~= player.rest.subrange(i + 4, i + 4 + size));
    assert(longer.rest.skip(i + 4 + size) =~= player.rest.skip(i + 4 + size) + more);
}

/// What a keyframe with ASCII text shows: the character of each cell stands at
/// the place of its number in the text, after its runs have been read; cells
/// beyond its end are blank.
#[verifier::rlimit(40)]
pub proof fn lemma_keyframe_shows_text(
    format: Format,
    lut: Seq<char>,
    current: Picture,
    data: Seq<u8>,
    x: int,
    y: int,
)
    requires
        data.len() >= 8,
        ({
            let t = number_of(data.subrange(0, 4));
            &&& t > 0
            &&& data.len() >= 4 + t
        }),
        0 <= x < format.width,
        0 <= y < format.height,
        forall|i: int|
            0 <= i < rle_expand(data.subrange(4, 4 + number_of(data.subrange(0, 4)))).len()
                ==> #[trigger] rle_expand(
                data.subrange(4, 4 + number_of(data.subrange(0, 4))),
            )[i] < 128,
        y * format.width <= rle_expand(
            data.subrange(4, 4 + number_of(data.subrange(0, 4))),
        ).len(),
    ensures
        ({
            let flat = rle_expand(data.subrange(4, 4 + number_of(data.subrange(0, 4))));
            let shown = after_keyframe(format, lut, current, data).0;
            let k = y * format.width + x;
            &&& shown.chars.len() == format.height
            &&& shown.chars[y].len() == format.width
            &&& k < flat.len() ==> shown.chars[y][x] == flat[k] as char
            &&& k >= flat.len() ==> shown.chars[y][x] == ' '
        }),
{
    lemma_four_bytes(data, 0);
    let t = number_of(data.subrange(0, 4));
    let flat = rle_expand(data.subrange(4, 4 + t));
    let w = format.width;
    let row = flat_row(flat, w, y);
    assert(0 <= y * w) by (nonlinear_arith)
        requires
            0 <= y,
            0 < w,
    ;
    assert forall|i: int| 0 <= i < row.len() implies #[trigger] row[i] < 128 by {
        assert(row[i] == flat[y * w + i]);
    }
    lemma_ascii_bytes(row);
    let shown = after_keyframe(format, lut, current, data).0;
    assert(shown.chars == rows_of(format, flat));
    assert(shown.chars[y] == filled(lossy_text(row), w));
}

/// ASCII bytes are the characters of the same numbers.
proof fn lemma_ascii_bytes(bytes: Seq<u8>)
    requires
        forall|i: int| 0 <= i < bytes.len() ==> #[trigger] bytes[i] < 128,
    ensures
        valid_utf8(bytes),
        lossy_text(bytes).len() == bytes.len(),
        encode_utf8(lossy_text(bytes)).len() == bytes.len(),
        forall|i: int| 0 <= i < bytes.len() ==> #[trigger] lossy_text(bytes)[i] == bytes[i] as char,
{
    let chars = Seq::new(bytes.len(), |i: int| bytes[i] as char);
    assert forall|i: int| 0 <= i < chars.len() implies 0 <= #[trigger] chars[i] as int
        && chars[i] as int <= 127 by {
        assert(bytes[i] < 128);
    }
    assert(is_ascii_chars(chars));
    lemma_ascii_text(chars);
    vstd::utf8::encode_utf8_valid_utf8(chars);
    assert forall|i: int| 0 <= i < bytes.len() implies #[trigger] encode_utf8(chars)[i]
        == bytes[i] by {
        assert(encode_utf8(chars)[i] == chars[i] as u8);
        assert(bytes[i] < 128);
    }
    assert(encode_utf8(chars) =~= bytes);
}

/// What a keyframe with palette colours shows: at the place of each cell's number
/// stands its palette index, 16 and the levels of red, green and blue, each 51
/// for a step; cells beyond its end are black.
#[verifier::rlimit(40)]
pub proof fn lemma_keyframe_shows_palette_colors(
    format: Format,
    lut: Seq<char>,
    current: Picture,
    data: Seq<u8>,
    x: int,
    y: int,
    i: int,
    j: int,
    l: int,
)
    requires
        data.len() >= 8,
        format.color,
        format.config.quantize_colors,
        0 <= x < format.width,
        0 <= y < format.height,
        0 <= i < 6,
        0 <= j < 6,
        0 <= l < 6,
        ({
            let t = number_of(data.subrange(0, 4));
            &&& data.len() >= 8 + t
            &&& number_of(data.subrange(4 + t, 8 + t)) > 0
            &&& data.len() >= 8 + t + number_of(data.subrange(4 + t, 8 + t))
        }),
    ensures
        ({
            let t = number_of(data.subrange(0, 4));
            let n = number_of(data.subrange(4 + t, 8 + t));
            let k = y * format.width + x;
            let shown = after_keyframe(format, lut, current, data);
            &&& shown.1 is Ok
            &&& shown.0.colors is Some
            &&& k < n && data[8 + t + k] == 16 + 36 * i + 6 * j + l ==> {
                let c = shown.0.colors->0[y][x];
                c.0 == 51 * i && c.1 == 51 * j && c.2 == 51 * l
            }
            &&& k >= n ==> shown.0.colors->0[y][x] == (0u8, 0u8, 0u8)
        }),
{
    lemma_four_bytes(data, 0);
    let t = number_of(data.subrange(0, 4));
    lemma_four_bytes(data, 4 + t);
    let n = number_of(data.subrange(4 + t, 8 + t));
    let k = y * format.width + x;
    crate::render::lemma_cell_in_grid(x, y, format.width, format.height);
    let m = 36 * i + 6 * j + l;
    crate::laws::shades::lemma_levels(i, j, l, m);
    let part = crate::format::colors_part(data);
    assert(k < n ==> part[k] == data[8 + t + k]);
    let shown = after_keyframe(format, lut, current, data);
    assert(shown.0.colors->0[y][x] == crate::format::color_in(format, part, k));
}

/// The character of a colour is the one of the table by its brightness.
pub proof fn lemma_character_of_color(decoder: TcamDecoder, r: u8, g: u8, b: u8, c: char)
    requires
        call_ensures(TcamDecoder::derive_char, (&decoder, r, g, b), c),
    ensures
        exists|k: int|
            0 <= k <= 255 && #[trigger] (1000 * k) <= thousandths((r, g, b)) <= 1000 * k + 1000 && c
                == decoder@.lut[k],
{
    lemma_luma_sum((r, g, b));
    let k = crate::luma::luma_of(r, g, b) as int;
    assert(1000 * k <= thousandths((r, g, b)) <= 1000 * k + 1000);
}

/// A recording tells its columns, rows and speed.
pub proof fn lemma_recording_tells_size(decoder: TcamDecoder, w: usize, h: usize, f: u8)
    requires
        call_ensures(TcamDecoder::width, (&decoder,), w),
        call_ensures(TcamDecoder::height, (&decoder,), h),
        call_ensures(TcamDecoder::fps, (&decoder,), f),
    ensures
        w == decoder@.format.width,
        h == decoder@.format.height,
        f == decoder@.fps,
{
}

/// What can be shown: records without text, or with enough of it for the last row
/// to start, and without palette colours, or with indices below 232 only; and
/// every record of an unknown kind.
pub proof fn lemma_sound_payloads(decoder: TcamDecoder, kind: u8, data: &[u8], r: bool)
    requires
        call_ensures(TcamDecoder::payload_is_sound, (&decoder, kind, data), r),
    ensures
        kind >= 2 ==> r,
        kind == 0 && data@.len() < 4 ==> r,
        kind == 0 && data@.len() >= 4 && number_of(data@.subrange(0, 4)) == 0
            && !decoder@.format.config.quantize_colors ==> r,
        kind == 1 && decoder@.format.width > 0 && !decoder@.format.config.quantize_colors ==> r,
        kind == 0 && data@.len() >= 8 && !decoder@.format.config.quantize_colors && data@.len() >= 4
            + number_of(data@.subrange(0, 4)) && decoder@.format.height > 0 && (
        decoder@.format.height - 1) * decoder@.format.width <= rle_expand(
            data@.subrange(4, 4 + number_of(data@.subrange(0, 4))),
        ).len() ==> r,
{
    if data@.len() >= 4 {
        lemma_four_bytes(data@, 0);
    }
    if kind == 1 && decoder@.format.width > 0 && !decoder@.format.config.quantize_colors {
        if data@.len() >= 4 {
            lemma_entries_are_sound(
                decoder@.format,
                data@.skip(4),
                crate::wire::le32_at(data@, 0) as nat,
            );
        }
    }
}

proof fn lemma_entries_are_sound(format: Format, bytes: Seq<u8>, n: nat)
    requires
        format.width > 0,
        !format.config.quantize_colors,
    ensures
        crate::format::entries_sound(format, bytes, n),
    decreases n,
{
    if n > 0 && bytes.len() >= format.entry_size() {
        lemma_entries_are_sound(format, bytes.skip(format.entry_size()), (n - 1) as nat);
    }
}

/// A keyframe without colours stores none, also in a recording that has colours.
pub proof fn lemma_keyframe_stores_no_colors(encoder: TcamEncoder, frame: RenderFrame, r: Vec<u8>)
    requires
        call_ensures(TcamEncoder::encode_keyframe, (&encoder, &frame), r),
        frame@.colors is None || !encoder@.format.color,
        keyframe_text(encoder@.format, frame@).len() <= u32::MAX,
    ensures
        ({
            let t = number_of(r@.subrange(0, 4));
            &&& r@.len() == 8 + t
            &&& number_of(r@.subrange(4 + t, 8 + t)) == 0
        }),
{
    let format = encoder@.format;
    lemma_two_blocks(keyframe_text(format, frame@), keyframe_colors(format, frame@), r@);
}

/// The number of frames so far is told.
pub proof fn lemma_frames_are_told(encoder: TcamEncoder, r: usize)
    requires
        call_ensures(TcamEncoder::frame_count, (&encoder,), r),
    ensures
        r == encoder@.count,
{
}

/// A keyframe is read exactly where it is as long as its two lengths say; one
/// that is not is an error.
pub proof fn lemma_short_keyframes_are_errors(
    format: Format,
    lut: Seq<char>,
    current: Picture,
    data: Seq<u8>,
)
    ensures
        ({
            let r = after_keyframe(format, lut, current, data).1;
            let t = number_of(data.subrange(0, 4));
            let n = number_of(data.subrange(4 + t, 8 + t));
            &&& r matches Err(e) ==> e == TcamError::UnexpectedEnd
            &&& data.len() < 4 ==> r is Err
            &&& data.len() >= 4 && data.len() < 8 + t ==> r is Err
            &&& data.len() >= 4 && data.len() >= 8 + t && !format.color ==> r is Ok
            &&& data.len() >= 4 && data.len() >= 8 + t && format.color ==> (r is Ok <==> data.len()
                >= 8 + t + n || n == 0)
        }),
{
    if data.len() >= 4 {
        lemma_four_bytes(data, 0);
        let t = number_of(data.subrange(0, 4));
        if data.len() >= 8 + t {
            lemma_four_bytes(data, 4 + t);
        }
    }
}

proof fn lemma_entries_reach(format: Format, lut: Seq<char>, cells: Cells, bytes: Seq<u8>, n: nat)
    ensures
        after_entries(format, lut, cells, bytes, n) is Some <==> bytes.len() >= n
            * format.entry_size(),
    decreases n,
{
    let size = format.entry_size();
    if n == 0 {
        assert(0 * size == 0);
    } else {
        assert(n * size == size + (n - 1) * size) by (nonlinear_arith);
        assert((n - 1) * size >= 0) by (nonlinear_arith)
            requires
                n >= 1,
                size >= 0,
        ;
        if bytes.len() >= size {
            lemma_entries_reach(
                format,
                lut,
                after_entry(format, lut, cells, bytes.take(size)),
                bytes.skip(size),
                (n - 1) as nat,
            );
        }
    }
}

/// A delta is read exactly where it holds as many entries as it says; one that
/// does not is an error and leaves the picture.
pub proof fn lemma_short_deltas_are_errors(
    format: Format,
    lut: Seq<char>,
    current: Picture,
    data: Seq<u8>,
)
    ensures
        ({
            let r = after_delta(format, lut, current, data);
            let n = number_of(data.subrange(0, 4));
            &&& r.1 matches Err(e) ==> e == TcamError::UnexpectedEnd && r.0 == current
            &&& data.len() < 4 ==> r.1 is Err
            &&& data.len() >= 4 ==> (r.1 is Ok <==> data.len() - 4 >= n * format.entry_size())
        }),
{
    if data.len() >= 4 {
        lemma_four_bytes(data, 0);
        lemma_entries_reach(
            format,
            lut,
            crate::format::cells_of(current),
            data.skip(4),
            crate::wire::le32_at(data, 0) as nat,
        );
    }
}

} // verus!
