//! The `.tcam` recording format: its header, its records, and what the
//! payloads of keyframes and deltas hold.
//!
//! A recording is a header and then records. A record is a kind, a time, the
//! length of its payload and the payload, a zlib stream. A keyframe's payload
//! holds a whole picture, a delta's the cells that changed since the record
//! before it; a skip has no payload and repeats the picture.
use vstd::prelude::*;
use vstd::utf8::encode_utf8;

use crate::cli::ColorMode;
use crate::color::{palette_color, palette_index, PALETTE_END};
use crate::frame::{Picture, Rgb};
use crate::luma::luma_of;
use crate::recording::RecordingConfig;
use crate::rle::{rle_expand, rle_of};
use crate::text::{decimal, push_decimal, repeated};
use crate::wire::{le16, le16_at, le32, le32_at, lossy_text};

verus! {

/// The version of recordings that are written.
pub const TCAM_VERSION: u8 = 2;

/// The version of older recordings, which have fewer settings.
pub const TCAM_OLD_VERSION: u8 = 1;

/// A keyframe stands at every multiple of this number of frames.
pub const TCAM_KEYFRAME_INTERVAL: usize = 30;

/// The kind of a keyframe record.
pub const TCAM_KEYFRAME: u8 = 0;

/// The kind of a delta record.
pub const TCAM_DELTA: u8 = 1;

/// The kind of a skip record.
pub const TCAM_SKIP: u8 = 2;

/// Why a recording cannot be written or read.
#[derive(Clone, Copy, Debug, PartialEq, Eq, Structural)]
pub enum TcamError {
    /// The bytes do not start with the mark of the format.
    NotTcam,
    /// The format version is not known.
    UnsupportedVersion(u8),
    /// The bytes end before what they announce.
    UnexpectedEnd,
    /// The ramp is not UTF-8: how many of its bytes are, and how many after
    /// them are not, unless the ramp ends too early.
    BadRamp(usize, Option<usize>),
    /// The payload is not a zlib stream.
    BadStream,
    /// The payload is a zlib stream that breaks off.
    BrokenStream,
    /// A payload could not be compressed.
    CannotCompress,
    /// The stream of a compressed payload could not be finished.
    CannotFinish,
    /// A delta needs a frame before it.
    MissingPrevious,
}

impl TcamError {
    /// The message of the error.
    pub open spec fn words(self) -> Seq<char> {
        match self {
            TcamError::NotTcam => "not a .tcam file"@,
            TcamError::UnsupportedVersion(version) => "unsupported .tcam version "@ + decimal(
                version as nat,
            ),
            TcamError::UnexpectedEnd => "failed to fill whole buffer"@,
            TcamError::BadRamp(at, Some(size)) => "invalid utf-8 sequence of "@ + decimal(
                size as nat,
            ) + " bytes from index "@ + decimal(at as nat),
            TcamError::BadRamp(at, None) => "incomplete utf-8 byte sequence from index "@ + decimal(
                at as nat,
            ),
            TcamError::BadStream => "corrupt deflate stream"@,
            TcamError::BrokenStream => "incomplete deflate stream"@,
            TcamError::CannotCompress => "corrupt deflate stream"@,
            TcamError::CannotFinish => "deflate compression error"@,
            TcamError::MissingPrevious => "missing previous chars"@,
        }
    }

    /// The message of the error.
    pub fn message(self) -> (r: String)
        ensures
            r@ == self.words(),
    {
        let mut out = String::new();
        match self {
            TcamError::NotTcam => out.append("not a .tcam file"),
            TcamError::UnsupportedVersion(version) => {
                out.append("unsupported .tcam version ");
                push_decimal(&mut out, version as u64);
            },
            TcamError::UnexpectedEnd => out.append("failed to fill whole buffer"),
            TcamError::BadRamp(at, Some(size)) => {
                out.append("invalid utf-8 sequence of ");
                push_decimal(&mut out, size as u64);
                out.append(" bytes from index ");
                push_decimal(&mut out, at as u64);
            },
            TcamError::BadRamp(at, None) => {
                out.append("incomplete utf-8 byte sequence from index ");
                push_decimal(&mut out, at as u64);
            },
            TcamError::BadStream => out.append("corrupt deflate stream"),
            TcamError::BrokenStream => out.append("incomplete deflate stream"),
            TcamError::CannotCompress => out.append("corrupt deflate stream"),
            TcamError::CannotFinish => out.append("deflate compression error"),
            TcamError::MissingPrevious => out.append("missing previous chars"),
        }
        assert(out@ =~= self.words());
        out
    }
}

/// Why a payload cannot be read, where its stream fails by breaking off or
/// otherwise.
pub open spec fn stream_failure(breaks_off: bool) -> TcamError {
    if breaks_off {
        TcamError::BrokenStream
    } else {
        TcamError::BadStream
    }
}

/// Why a payload cannot be written, where its stream fails when it is finished
/// or before.
pub open spec fn compress_failure(finishing: bool) -> TcamError {
    if finishing {
        TcamError::CannotFinish
    } else {
        TcamError::CannotCompress
    }
}

/// The four bytes that a recording starts with.
pub open spec fn magic() -> Seq<u8> {
    seq![84u8, 67, 65, 77]
}

/// The shape of a recording: what both its writer and its reader go by.
pub struct Format {
    /// Columns of characters.
    pub width: int,
    /// Rows of characters.
    pub height: int,
    /// Whether the pictures have colours.
    pub color: bool,
    /// What the recording leaves out or packs tighter.
    pub config: RecordingConfig,
}

/// The settings as a recording keeps them: all but the colour mode.
pub open spec fn played_config(config: RecordingConfig) -> RecordingConfig {
    RecordingConfig { color_mode: ColorMode::TrueColor, ..config }
}

impl Format {
    /// Characters are not stored but derived from the colours.
    pub open spec fn derives(self) -> bool {
        self.config.derive_chars && self.color
    }

    /// The number of bytes that a stored colour takes.
    pub open spec fn color_size(self) -> int {
        if self.config.quantize_colors {
            1
        } else {
            3
        }
    }

    /// The number of bytes that name a cell.
    pub open spec fn name_size(self) -> int {
        if self.config.flat_indices {
            2
        } else {
            4
        }
    }

    /// The number of bytes that the character of a changed cell takes.
    pub open spec fn glyph_size(self) -> int {
        if self.derives() {
            0
        } else {
            1
        }
    }

    /// The number of bytes of a changed cell.
    pub open spec fn entry_size(self) -> int {
        self.name_size() + self.glyph_size() + (if self.color {
            self.color_size()
        } else {
            0
        })
    }

    /// The number of bytes of a record's time.
    pub open spec fn time_size(self) -> int {
        if self.config.delta_timestamps {
            2
        } else {
            4
        }
    }

    /// The bytes that a colour is stored as.
    pub open spec fn stored_color(self, c: Rgb) -> Seq<u8> {
        if self.config.quantize_colors {
            seq![palette_index(c)]
        } else {
            seq![c.0, c.1, c.2]
        }
    }
}

/// A number's low sixteen bits.
pub open spec fn cut16(n: int) -> u16 {
    (n % 65536) as u16
}

/// A number's low 32 bits.
pub open spec fn cut32(n: int) -> u32 {
    (n % 0x1_0000_0000) as u32
}

/// A number's low eight bits.
pub open spec fn cut8(n: int) -> u8 {
    (n % 256) as u8
}

/// The header of a recording.
pub open spec fn header_bytes(
    width: int,
    height: int,
    fps: u8,
    flags: u16,
    ramp: Seq<u8>,
) -> Seq<u8> {
    magic() + seq![TCAM_VERSION] + le16(cut16(width)) + le16(cut16(height)) + seq![fps] + le16(
        flags,
    ) + seq![cut8(ramp.len() as int)] + ramp
}

/// The bytes of the first `n` rows of text, one after the other.
pub open spec fn text_bytes(rows: Seq<Seq<char>>, n: nat) -> Seq<u8>
    decreases n,
{
    if n == 0 {
        Seq::empty()
    } else {
        text_bytes(rows, (n - 1) as nat) + encode_utf8(rows[n - 1])
    }
}

/// The stored colours of the first `n` cells of a row.
pub open spec fn row_color_bytes(format: Format, row: Seq<Rgb>, n: nat) -> Seq<u8>
    decreases n,
{
    if n == 0 {
        Seq::empty()
    } else {
        row_color_bytes(format, row, (n - 1) as nat) + format.stored_color(row[n - 1])
    }
}

/// The stored colours of the first `n` rows.
pub open spec fn color_bytes(format: Format, rows: Seq<Seq<Rgb>>, n: nat) -> Seq<u8>
    decreases n,
{
    if n == 0 {
        Seq::empty()
    } else {
        color_bytes(format, rows, (n - 1) as nat) + row_color_bytes(
            format,
            rows[n - 1],
            rows[n - 1].len(),
        )
    }
}

/// Bytes after their length.
pub open spec fn with_length(bytes: Seq<u8>) -> Seq<u8> {
    le32(cut32(bytes.len() as int)) + bytes
}

/// The text part of a keyframe: nothing where characters are derived, else the
/// run-length coding of all rows.
pub open spec fn keyframe_text(format: Format, picture: Picture) -> Seq<u8> {
    if format.derives() {
        Seq::empty()
    } else {
        rle_of(text_bytes(picture.chars, picture.chars.len()))
    }
}

/// The colour part of a keyframe.
pub open spec fn keyframe_colors(format: Format, picture: Picture) -> Seq<u8> {
    match picture.colors {
        Some(rows) if format.color => color_bytes(format, rows, rows.len()),
        _ => Seq::empty(),
    }
}

/// The payload of a keyframe: its text, then its colours, each after its
/// length.
pub open spec fn keyframe_payload(format: Format, picture: Picture) -> Seq<u8> {
    with_length(keyframe_text(format, picture)) + with_length(keyframe_colors(format, picture))
}

/// The byte that a cell of text shows; a blank where the row or the text ends
/// before it.
pub open spec fn cell_byte(rows: Seq<Seq<char>>, x: int, y: int) -> u8 {
    if y < rows.len() && x < encode_utf8(rows[y]).len() {
        encode_utf8(rows[y])[x]
    } else {
        32
    }
}

/// The colour of a cell; black where there is none.
pub open spec fn cell_color(colors: Option<Seq<Seq<Rgb>>>, x: int, y: int) -> Rgb {
    match colors {
        Some(rows) if y < rows.len() && x < rows[y].len() => rows[y][x],
        _ => (0, 0, 0),
    }
}

/// Whether a cell must be stored to get from one picture to the next.
pub open spec fn cell_changed(format: Format, before: Picture, after: Picture, x: int, y: int) -> bool {
    ||| !format.derives() && cell_byte(before.chars, x, y) != cell_byte(after.chars, x, y)
    ||| format.color && format.stored_color(cell_color(before.colors, x, y))
        != format.stored_color(cell_color(after.colors, x, y))
}

/// The bytes that name a cell.
pub open spec fn cell_name(format: Format, x: int, y: int) -> Seq<u8> {
    if format.config.flat_indices {
        le16(cut16(y * format.width + x))
    } else {
        le16(cut16(x)) + le16(cut16(y))
    }
}

/// The bytes of a changed cell: its name, its character unless that is
/// derived, its colour if there are colours.
pub open spec fn cell_entry(format: Format, picture: Picture, x: int, y: int) -> Seq<u8> {
    cell_name(format, x, y) + (if format.derives() {
        Seq::empty()
    } else {
        seq![cell_byte(picture.chars, x, y)]
    }) + (if format.color {
        format.stored_color(cell_color(picture.colors, x, y))
    } else {
        Seq::empty()
    })
}

/// The number of changed cells among the first `n`, counted row by row.
pub open spec fn change_count(format: Format, before: Picture, after: Picture, n: nat) -> nat
    decreases n,
{
    if n == 0 {
        0
    } else {
        let k = n - 1;
        change_count(format, before, after, k as nat) + (if cell_changed(
            format,
            before,
            after,
            k % format.width,
            k / format.width,
        ) {
            1nat
        } else {
            0nat
        })
    }
}

/// The entries of the changed cells among the first `n`, row by row.
pub open spec fn change_entries(format: Format, before: Picture, after: Picture, n: nat) -> Seq<u8>
    decreases n,
{
    if n == 0 {
        Seq::empty()
    } else {
        let k = n - 1;
        let x = k % format.width;
        let y = k / format.width;
        change_entries(format, before, after, k as nat) + (if cell_changed(
            format,
            before,
            after,
            x,
            y,
        ) {
            cell_entry(format, after, x, y)
        } else {
            Seq::empty()
        })
    }
}

/// The number of cells of a picture.
pub open spec fn cell_count(format: Format) -> nat {
    (format.width * format.height) as nat
}

/// The payload of a delta: the number of changed cells, then their entries.
/// None where nothing changed and such frames are skipped.
pub open spec fn delta_payload(format: Format, before: Picture, after: Picture) -> Option<Seq<u8>> {
    let count = change_count(format, before, after, cell_count(format));
    if format.config.skip_identical && count == 0 {
        None
    } else {
        Some(
            le32(cut32(count as int)) + change_entries(format, before, after, cell_count(format)),
        )
    }
}

/// The character that a lookup table gives a colour.
pub open spec fn glyph_of(lut: Seq<char>, c: Rgb) -> char {
    lut[luma_of(c.0, c.1, c.2) as int]
}

/// The bytes of one row of a block of text.
pub open spec fn flat_row(flat: Seq<u8>, width: int, y: int) -> Seq<u8> {
    let start = y * width;
    let end = if start + width < flat.len() {
        start + width
    } else {
        flat.len() as int
    };
    flat.subrange(start, end)
}

/// Text filled with blanks to at least `width` bytes.
pub open spec fn filled(chars: Seq<char>, width: int) -> Seq<char> {
    let size = encode_utf8(chars).len();
    chars + repeated(
        ' ',
        if size < width {
            (width - size) as nat
        } else {
            0
        },
    )
}

/// The rows of text in a block of bytes.
pub open spec fn rows_of(format: Format, flat: Seq<u8>) -> Seq<Seq<char>> {
    Seq::new(
        format.height as nat,
        |y: int| filled(lossy_text(flat_row(flat, format.width, y)), format.width),
    )
}

/// A byte of a sequence, or `other` beyond its end.
pub open spec fn byte_or(bytes: Seq<u8>, i: int, other: u8) -> u8 {
    if i < bytes.len() {
        bytes[i]
    } else {
        other
    }
}

/// The colour of the `k`th cell in a block of stored colours; black beyond its
/// end.
pub open spec fn color_in(format: Format, bytes: Seq<u8>, k: int) -> Rgb {
    if format.config.quantize_colors {
        palette_color(byte_or(bytes, k, 16))
    } else {
        (
            byte_or(bytes, 3 * k, 0),
            byte_or(bytes, 3 * k + 1, 0),
            byte_or(bytes, 3 * k + 2, 0),
        )
    }
}

/// The rows of colours in a block of stored colours.
pub open spec fn colors_of(format: Format, bytes: Seq<u8>) -> Seq<Seq<Rgb>> {
    Seq::new(
        format.height as nat,
        |y: int|
            Seq::new(
                format.width as nat,
                |x: int| color_in(format, bytes, y * format.width + x),
            ),
    )
}

/// The characters that a lookup table gives rows of colours.
pub open spec fn derived_rows(lut: Seq<char>, colors: Seq<Seq<Rgb>>) -> Seq<Seq<char>> {
    Seq::new(
        colors.len(),
        |y: int| Seq::new(colors[y].len(), |x: int| glyph_of(lut, colors[y][x])),
    )
}

/// The length of a keyframe's text part.
pub open spec fn text_size(data: Seq<u8>) -> int {
    le32_at(data, 0) as int
}

/// The text part of a keyframe.
pub open spec fn text_part(data: Seq<u8>) -> Seq<u8> {
    data.subrange(4, 4 + text_size(data))
}

/// The length of a keyframe's colour part.
pub open spec fn colors_size(data: Seq<u8>) -> int {
    le32_at(data, 4 + text_size(data)) as int
}

/// The colour part of a keyframe.
pub open spec fn colors_part(data: Seq<u8>) -> Seq<u8> {
    let at = 8 + text_size(data);
    data.subrange(at, at + colors_size(data))
}

/// The picture after the text part of a keyframe has been read.
pub open spec fn after_text(format: Format, current: Picture, data: Seq<u8>) -> Picture {
    if text_size(data) > 0 {
        Picture { chars: rows_of(format, rle_expand(text_part(data))), ..current }
    } else {
        current
    }
}

/// The picture after a keyframe, or the error that its payload ends in with
/// the picture that is left.
pub open spec fn after_keyframe(
    format: Format,
    lut: Seq<char>,
    current: Picture,
    data: Seq<u8>,
) -> (Picture, Result<(), TcamError>) {
    if data.len() < 4 || data.len() < 4 + text_size(data) {
        (current, Err(TcamError::UnexpectedEnd))
    } else {
        let texted = after_text(format, current, data);
        if data.len() < 8 + text_size(data) {
            (texted, Err(TcamError::UnexpectedEnd))
        } else if colors_size(data) > 0 && format.color {
            if data.len() < 8 + text_size(data) + colors_size(data) {
                (texted, Err(TcamError::UnexpectedEnd))
            } else {
                let colors = colors_of(format, colors_part(data));
                (
                    Picture {
                        chars: if format.derives() && text_size(data) == 0 {
                            derived_rows(lut, colors)
                        } else {
                            texted.chars
                        },
                        colors: Some(colors),
                    },
                    Ok(()),
                )
            }
        } else {
            (Picture { chars: texted.chars, colors: None }, Ok(()))
        }
    }
}

/// Whether a block of text holds enough bytes for every row to start within.
pub open spec fn rows_start_within(format: Format, flat: Seq<u8>) -> bool {
    format.height > 0 ==> (format.height - 1) * format.width <= flat.len()
}

/// Whether the stored colours of the picture's cells are in the palette, where
/// colours are stored by palette index.
pub open spec fn colors_in_palette(format: Format, bytes: Seq<u8>) -> bool {
    format.config.quantize_colors ==> forall|k: int|
        0 <= k < cell_count(format) && k < bytes.len() ==> #[trigger] bytes[k] < PALETTE_END
}

/// Whether a keyframe can be shown: its text reaches into every row, and its
/// colours are in the palette, as far as they are read.
pub open spec fn keyframe_sound(format: Format, data: Seq<u8>) -> bool {
    data.len() >= 4 && data.len() >= 4 + text_size(data) ==> {
        &&& text_size(data) > 0 ==> rows_start_within(format, rle_expand(text_part(data)))
        &&& data.len() >= 8 + text_size(data) && colors_size(data) > 0 && format.color
            && data.len() >= 8 + text_size(data) + colors_size(data) ==> colors_in_palette(
            format,
            colors_part(data),
        )
    }
}

/// A picture while its cells are changed: text as bytes.
#[verifier::ext_equal]
pub struct Cells {
    pub chars: Seq<Seq<u8>>,
    pub colors: Option<Seq<Seq<Rgb>>>,
}

/// The cells of a picture.
pub open spec fn cells_of(picture: Picture) -> Cells {
    Cells {
        chars: Seq::new(picture.chars.len(), |y: int| encode_utf8(picture.chars[y])),
        colors: picture.colors,
    }
}

/// The picture that cells make up.
pub open spec fn picture_of(cells: Cells) -> Picture {
    Picture {
        chars: Seq::new(cells.chars.len(), |y: int| lossy_text(cells.chars[y])),
        colors: cells.colors,
    }
}

/// Rows with one item replaced; no change where there is no such item.
pub open spec fn with_item<T>(rows: Seq<Seq<T>>, x: int, y: int, item: T) -> Seq<Seq<T>> {
    if y < rows.len() && x < rows[y].len() {
        rows.update(y, rows[y].update(x, item))
    } else {
        rows
    }
}

/// The column and row that an entry names.
pub open spec fn entry_cell(format: Format, entry: Seq<u8>) -> (int, int) {
    if format.config.flat_indices {
        (le16_at(entry, 0) as int % format.width, le16_at(entry, 0) as int / format.width)
    } else {
        (le16_at(entry, 0) as int, le16_at(entry, 2) as int)
    }
}

/// The colour that an entry holds.
pub open spec fn entry_color(format: Format, entry: Seq<u8>) -> Rgb {
    let at = format.name_size() + format.glyph_size();
    if format.config.quantize_colors {
        palette_color(entry[at])
    } else {
        (entry[at], entry[at + 1], entry[at + 2])
    }
}

/// The byte of text that an entry sets: the one that it holds, or the one
/// derived from its colour.
pub open spec fn entry_byte(format: Format, lut: Seq<char>, entry: Seq<u8>) -> u8 {
    if format.derives() {
        cut8(glyph_of(lut, entry_color(format, entry)) as int)
    } else {
        entry[format.name_size()]
    }
}

/// The cells after an entry.
pub open spec fn after_entry(format: Format, lut: Seq<char>, cells: Cells, entry: Seq<u8>) -> Cells {
    let cell = entry_cell(format, entry);
    Cells {
        chars: with_item(cells.chars, cell.0, cell.1, entry_byte(format, lut, entry)),
        colors: match cells.colors {
            Some(rows) if format.color => Some(
                with_item(rows, cell.0, cell.1, entry_color(format, entry)),
            ),
            _ => cells.colors,
        },
    }
}

/// The cells after `n` entries, if the bytes hold that many.
pub open spec fn after_entries(
    format: Format,
    lut: Seq<char>,
    cells: Cells,
    bytes: Seq<u8>,
    n: nat,
) -> Option<Cells>
    decreases n,
{
    if n == 0 {
        Some(cells)
    } else if bytes.len() < format.entry_size() {
        None
    } else {
        after_entries(
            format,
            lut,
            after_entry(format, lut, cells, bytes.take(format.entry_size())),
            bytes.skip(format.entry_size()),
            (n - 1) as nat,
        )
    }
}

/// The picture after a delta, or the error where its payload ends too early;
/// the picture is then unchanged.
pub open spec fn after_delta(
    format: Format,
    lut: Seq<char>,
    current: Picture,
    data: Seq<u8>,
) -> (Picture, Result<(), TcamError>) {
    if data.len() < 4 {
        (current, Err(TcamError::UnexpectedEnd))
    } else {
        match after_entries(format, lut, cells_of(current), data.skip(4), le32_at(data, 0) as nat) {
            Some(cells) => (picture_of(cells), Ok(())),
            None => (current, Err(TcamError::UnexpectedEnd)),
        }
    }
}

/// Whether `n` entries can be shown: a numbered cell needs a column to stand
/// in, and a stored colour must be in the palette, as far as they are read.
pub open spec fn entries_sound(format: Format, bytes: Seq<u8>, n: nat) -> bool
    decreases n,
{
    if n == 0 {
        true
    } else if format.config.flat_indices && format.width == 0 {
        bytes.len() < 2
    } else if bytes.len() < format.entry_size() {
        true
    } else {
        &&& format.color && format.config.quantize_colors ==> bytes[format.entry_size() - 1]
            < PALETTE_END
        &&& entries_sound(format, bytes.skip(format.entry_size()), (n - 1) as nat)
    }
}

/// Whether a delta can be shown.
pub open spec fn delta_sound(format: Format, data: Seq<u8>) -> bool {
    data.len() >= 4 ==> entries_sound(format, data.skip(4), le32_at(data, 0) as nat)
}

/// Whether the payload of a record of a kind can be shown.
pub open spec fn payload_sound(format: Format, kind: u8, data: Seq<u8>) -> bool {
    if kind == TCAM_KEYFRAME {
        keyframe_sound(format, data)
    } else if kind == TCAM_DELTA {
        delta_sound(format, data)
    } else {
        true
    }
}

/// The picture after the payload of a record of a kind; a kind that is not
/// known changes nothing.
pub open spec fn after_payload(
    format: Format,
    lut: Seq<char>,
    current: Picture,
    kind: u8,
    data: Seq<u8>,
) -> (Picture, Result<(), TcamError>) {
    if kind == TCAM_KEYFRAME {
        after_keyframe(format, lut, current, data)
    } else if kind == TCAM_DELTA {
        after_delta(format, lut, current, data)
    } else {
        (current, Ok(()))
    }
}

} // verus!
