//! Reading recordings.
use vstd::prelude::*;
use vstd::utf8::{decode_utf8, encode_utf8, valid_utf8};

use crate::color::{dequantize_color, PALETTE_END};
use crate::format::{
    after_delta, after_entries, after_entry, after_keyframe, after_payload, after_text, byte_or,
    cell_count, cells_of, color_in, colors_in_palette, colors_of, delta_sound, derived_rows,
    entries_sound, entry_byte, entry_cell, entry_color, filled, flat_row, glyph_of, keyframe_sound,
    magic, payload_sound, picture_of, played_config, rows_of, rows_start_within, stream_failure,
    with_item, Cells, Format, TcamError, TCAM_DELTA, TCAM_KEYFRAME, TCAM_OLD_VERSION, TCAM_SKIP,
    TCAM_VERSION,
};
use crate::frame::{
    blank_picture, color_grid, color_rows, copy_grid, item_rows, text_rows, Picture, RenderFrame,
    Rgb,
};
use crate::luma::luma;
use crate::recording::{config_of_flags, flag_set, plain_config, RecordingConfig};
use crate::render::{build_lut, lemma_cell_in_grid, ramp_table, LEVELS};
use crate::rle::rle_decode;
use crate::text::push_repeated;
use crate::wire::{
    inflate, le16_at, le32_at, lossy_text, push_bytes, read_u16_at, read_u32_at, text_exact,
    text_lossy, utf8_flaw, valid_up_to, zlib_inflated,
};

verus! {

/// What the header of a recording says.
pub struct Heading {
    pub width: usize,
    pub height: usize,
    pub fps: u8,
    pub color: bool,
    pub config: RecordingConfig,
    pub ramp: Seq<char>,
    /// The number of bytes that the header takes.
    pub size: int,
}

/// The number of bytes before the ramp, in a recording of a version.
pub open spec fn fixed_size(version: u8) -> int {
    if version == TCAM_OLD_VERSION {
        11
    } else {
        12
    }
}

/// The bytes of the ramp in a header of a version.
pub open spec fn ramp_bytes(data: Seq<u8>, version: u8) -> Seq<u8> {
    let at = fixed_size(version) + 1;
    data.subrange(at, at + data[at - 1])
}

/// Whether a recording starts with a header whose ramp has no characters.
pub open spec fn ramp_is_empty(data: Seq<u8>) -> bool {
    &&& data.len() > 4
    &&& data.take(4) == magic()
    &&& data[4] == TCAM_OLD_VERSION || data[4] == TCAM_VERSION
    &&& data.len() > fixed_size(data[4])
    &&& data[fixed_size(data[4])] == 0
}

/// The header that a recording starts with, or why it has none.
pub open spec fn heading_of(data: Seq<u8>) -> Result<Heading, TcamError> {
    if data.len() < 4 {
        Err(TcamError::UnexpectedEnd)
    } else if data.take(4) != magic() {
        Err(TcamError::NotTcam)
    } else if data.len() < 5 {
        Err(TcamError::UnexpectedEnd)
    } else {
        let version = data[4];
        let fixed = fixed_size(version);
        if version != TCAM_OLD_VERSION && version != TCAM_VERSION {
            Err(TcamError::UnsupportedVersion(version))
        } else if data.len() < fixed + 1 || data.len() < fixed + 1 + data[fixed] {
            Err(TcamError::UnexpectedEnd)
        } else if !valid_utf8(ramp_bytes(data, version)) {
            let bytes = ramp_bytes(data, version);
            Err(TcamError::BadRamp(valid_up_to(bytes, bytes.len()) as usize, utf8_flaw(bytes)))
        } else {
            let flags = if version == TCAM_OLD_VERSION {
                data[10] as u16
            } else {
                le16_at(data, 10)
            };
            Ok(
                Heading {
                    width: le16_at(data, 5) as usize,
                    height: le16_at(data, 7) as usize,
                    fps: data[9],
                    color: flag_set(flags, 1),
                    config: if version == TCAM_OLD_VERSION {
                        plain_config()
                    } else {
                        config_of_flags(flags)
                    },
                    ramp: decode_utf8(ramp_bytes(data, version)),
                    size: fixed + 1 + data[fixed],
                },
            )
        }
    }
}

/// The header of a recording.
pub struct TcamHeader {
    pub width: usize,
    pub height: usize,
    pub fps: u8,
    pub color: bool,
    pub config: RecordingConfig,
    pub ramp: String,
    /// The number of bytes that the header takes.
    pub size: usize,
}

impl View for TcamHeader {
    type V = Heading;

    open spec fn view(&self) -> Heading {
        Heading {
            width: self.width,
            height: self.height,
            fps: self.fps,
            color: self.color,
            config: self.config,
            ramp: self.ramp@,
            size: self.size as int,
        }
    }
}

/// Reads the header of a recording.
pub fn read_header(data: &[u8]) -> (r: Result<TcamHeader, TcamError>)
    ensures
        match r {
            Ok(header) => heading_of(data@) == Ok::<Heading, TcamError>(header@),
            Err(e) => heading_of(data@) == Err::<Heading, TcamError>(e),
        },
{
    if data.len() < 4 {
        return Err(TcamError::UnexpectedEnd);
    }
    proof {
        let head = data@.take(4);
        assert(head == magic() <==> head =~= magic());
        assert(head[0] == data@[0] && head[1] == data@[1] && head[2] == data@[2] && head[3]
            == data@[3]);
        assert(magic()[0] == 84 && magic()[1] == 67 && magic()[2] == 65 && magic()[3] == 77);
    }
    if data[0] != 84 || data[1] != 67 || data[2] != 65 || data[3] != 77 {
        return Err(TcamError::NotTcam);
    }
    if data.len() < 5 {
        return Err(TcamError::UnexpectedEnd);
    }
    let version: u8 = data[4];
    if version != TCAM_OLD_VERSION && version != TCAM_VERSION {
        return Err(TcamError::UnsupportedVersion(version));
    }
    let fixed: usize = if version == TCAM_OLD_VERSION {
        11
    } else {
        12
    };
    if data.len() < fixed + 1 {
        return Err(TcamError::UnexpectedEnd);
    }
    let ramp_len: usize = data[fixed] as usize;
    if data.len() < fixed + 1 + ramp_len {
        return Err(TcamError::UnexpectedEnd);
    }
    let width: u16 = match read_u16_at(data, 5) {
        Some(n) => n,
        None => {
            return Err(TcamError::UnexpectedEnd);
        },
    };
    let height: u16 = match read_u16_at(data, 7) {
        Some(n) => n,
        None => {
            return Err(TcamError::UnexpectedEnd);
        },
    };
    let (flags, config): (u16, RecordingConfig) = if version == TCAM_OLD_VERSION {
        (data[10] as u16, RecordingConfig::v1_defaults())
    } else {
        match read_u16_at(data, 10) {
            Some(n) => (n, RecordingConfig::from_flags(n)),
            None => {
                return Err(TcamError::UnexpectedEnd);
            },
        }
    };
    let bytes = vstd::slice::slice_to_vec(
        vstd::slice::slice_subrange(data, fixed + 1, fixed + 1 + ramp_len),
    );
    match text_exact(bytes) {
        Ok(ramp) => Ok(
            TcamHeader {
                width: width as usize,
                height: height as usize,
                fps: data[9],
                color: flags % 2 == 1,
                config,
                ramp,
                size: fixed + 1 + ramp_len,
            },
        ),
        Err((at, size)) => Err(TcamError::BadRamp(at, size)),
    }
}

/// A recording while it is played.
pub struct Player {
    /// Its shape.
    pub format: Format,
    /// The frames in a second that it was recorded at.
    pub fps: u8,
    /// The character of each brightness.
    pub lut: Seq<char>,
    /// The picture last shown.
    pub current: Picture,
    /// The sum of the time distances so far.
    pub clock: u32,
    /// The bytes that have not been read yet.
    pub rest: Seq<u8>,
}

/// A recording that has just been opened.
pub open spec fn opened(heading: Heading, data: Seq<u8>) -> Player {
    Player {
        format: Format {
            width: heading.width as int,
            height: heading.height as int,
            color: heading.color,
            config: heading.config,
        },
        fps: heading.fps,
        lut: ramp_table(heading.ramp),
        current: blank_picture(),
        clock: 0,
        rest: data.skip(heading.size),
    }
}

/// The sum of two times as far as 32 bits reach.
pub open spec fn capped_sum(a: u32, b: u32) -> u32 {
    if a + b > u32::MAX {
        u32::MAX
    } else {
        (a + b) as u32
    }
}

/// The time of the record that the unread bytes start with.
pub open spec fn record_time(player: Player) -> u32 {
    if player.format.config.delta_timestamps {
        capped_sum(player.clock, le16_at(player.rest, 1) as u32)
    } else {
        le32_at(player.rest, 1)
    }
}

/// The sum of time distances once the record's time has been read.
pub open spec fn next_clock(player: Player) -> u32 {
    if player.format.config.delta_timestamps {
        record_time(player)
    } else {
        player.clock
    }
}

/// Where the payload of the next record starts.
pub open spec fn payload_start(format: Format) -> int {
    5 + format.time_size()
}

/// The length of the payload of the next record.
pub open spec fn payload_size(player: Player) -> int {
    le32_at(player.rest, 1 + player.format.time_size()) as int
}

/// The next record: its kind, time and payload, if there is one, and what is
/// left after it. Bytes that end within a record are an error and are used up.
pub open spec fn next_record(player: Player) -> (
    Player,
    Result<Option<(u8, u32, Seq<u8>)>, TcamError>,
) {
    let start = payload_start(player.format);
    if player.rest.len() == 0 {
        (player, Ok(None))
    } else if player.rest.len() < 1 + player.format.time_size() {
        (Player { rest: Seq::empty(), ..player }, Err(TcamError::UnexpectedEnd))
    } else if player.rest.len() < start || player.rest.len() < start + payload_size(player) {
        (
            Player { rest: Seq::empty(), clock: next_clock(player), ..player },
            Err(TcamError::UnexpectedEnd),
        )
    } else {
        let end = start + payload_size(player);
        (
            Player { rest: player.rest.skip(end), clock: next_clock(player), ..player },
            Ok(Some((player.rest[0], record_time(player), player.rest.subrange(start, end)))),
        )
    }
}

/// The next picture and its time, if there is one, and what is left after it.
pub open spec fn read_next(player: Player) -> (Player, Result<Option<(Picture, u32)>, TcamError>) {
    let step = next_record(player);
    match step.1 {
        Err(e) => (step.0, Err(e)),
        Ok(None) => (step.0, Ok(None)),
        Ok(Some((kind, time, payload))) => if kind == TCAM_SKIP {
            (step.0, Ok(Some((player.current, time))))
        } else {
            match zlib_inflated(payload) {
                Err(breaks_off) => (step.0, Err(stream_failure(breaks_off))),
                Ok(data) => {
                    let shown = after_payload(player.format, player.lut, player.current, kind, data);
                    (
                        Player { current: shown.0, ..step.0 },
                        match shown.1 {
                            Ok(_) => Ok(Some((shown.0, time))),
                            Err(e) => Err(e),
                        },
                    )
                },
            }
        },
    }
}

/// Whether the next record, if it has a payload that can be read, can be
/// shown.
pub open spec fn next_is_sound(player: Player) -> bool {
    match next_record(player).1 {
        Ok(Some((kind, _, payload))) => if kind == TCAM_SKIP {
            true
        } else {
            match zlib_inflated(payload) {
                Ok(data) => payload_sound(player.format, kind, data),
                Err(_) => true,
            }
        },
        _ => true,
    }
}

/// A playback once further bytes of the recording have been handed in.
pub open spec fn extended(player: Player, more: Seq<u8>) -> Player {
    Player { rest: player.rest + more, ..player }
}

/// A record of a recording.
pub struct TcamRecord {
    pub kind: u8,
    pub timestamp_ms: u32,
    pub payload: Vec<u8>,
}

/// What a record holds.
pub open spec fn record_parts(r: Result<Option<TcamRecord>, TcamError>) -> Result<
    Option<(u8, u32, Seq<u8>)>,
    TcamError,
> {
    match r {
        Ok(Some(record)) => Ok(Some((record.kind, record.timestamp_ms, record.payload@))),
        Ok(None) => Ok(None),
        Err(e) => Err(e),
    }
}

/// What a read shows.
pub open spec fn shown_parts(r: Result<Option<(RenderFrame, u32)>, TcamError>) -> Result<
    Option<(Picture, u32)>,
    TcamError,
> {
    match r {
        Ok(Some((frame, time))) => Ok(Some((frame@, time))),
        Ok(None) => Ok(None),
        Err(e) => Err(e),
    }
}

/// How unread bytes begin.
enum Split {
    /// There are none.
    Nothing,
    /// With a record that breaks off; the sum of time distances after it.
    Broken(u32),
    /// With a whole record: its kind and time, the sum of time distances after
    /// it, and where its payload starts and ends.
    Whole(u8, u32, u32, usize, usize),
}

/// Tells how unread bytes begin.
fn split_record(rest: &[u8], stamps: bool, clock: u32) -> (r: Split)
    ensures
        forall|player: Player|
            player.rest == rest@ && player.clock == clock && player.format.config.delta_timestamps
                == stamps ==> match r {
                Split::Nothing => #[trigger] next_record(player) == (
                    player,
                    Ok::<Option<(u8, u32, Seq<u8>)>, TcamError>(None),
                ),
                Split::Broken(after) => next_record(player) == (
                    Player { rest: Seq::empty(), clock: after, ..player },
                    Err::<Option<(u8, u32, Seq<u8>)>, TcamError>(TcamError::UnexpectedEnd),
                ),
                Split::Whole(kind, time, after, start, stop) => start <= stop <= rest@.len()
                    && next_record(player) == (
                    Player { rest: rest@.skip(stop as int), clock: after, ..player },
                    Ok::<Option<(u8, u32, Seq<u8>)>, TcamError>(
                        Some((kind, time, rest@.subrange(start as int, stop as int))),
                    ),
                ),
            },
{
    if rest.len() == 0 {
        return Split::Nothing;
    }
    let kind: u8 = rest[0];
    let (time, after, at): (u32, u32, usize) = if stamps {
        match read_u16_at(rest, 1) {
            Some(delta) => {
                let sum: u32 = clock.saturating_add(delta as u32);
                (sum, sum, 3)
            },
            None => {
                return Split::Broken(clock);
            },
        }
    } else {
        match read_u32_at(rest, 1) {
            Some(time) => (time, clock, 5),
            None => {
                return Split::Broken(clock);
            },
        }
    };
    let size: usize = match read_u32_at(rest, at) {
        Some(n) => n as usize,
        None => {
            return Split::Broken(after);
        },
    };
    let start: usize = at + 4;
    if rest.len() - start < size {
        return Split::Broken(after);
    }
    Split::Whole(kind, time, after, start, start + size)
}

/// Reads recordings: bytes are handed in, pictures and their times come out.
pub struct TcamDecoder {
    data: Vec<u8>,
    pos: usize,
    width: usize,
    height: usize,
    fps: u8,
    color: bool,
    config: RecordingConfig,
    lut: Vec<char>,
    current: RenderFrame,
    accumulated_ms: u32,
}

impl View for TcamDecoder {
    type V = Player;

    closed spec fn view(&self) -> Player {
        Player {
            format: Format {
                width: self.width as int,
                height: self.height as int,
                color: self.color,
                config: played_config(self.config),
            },
            fps: self.fps,
            lut: self.lut@,
            current: self.current@,
            clock: self.accumulated_ms,
            rest: self.data@.skip(self.pos as int),
        }
    }
}

/// Characters take at least a byte each.
proof fn lemma_utf8_not_shorter(chars: Seq<char>)
    ensures
        chars.len() <= encode_utf8(chars).len(),
    decreases chars.len(),
{
    if chars.len() > 0 {
        lemma_utf8_not_shorter(chars.drop_first());
    }
}

impl TcamDecoder {
    /// The reading position lies within the data, the table is full, and the
    /// size is one that a header can hold.
    pub closed spec fn wf(&self) -> bool {
        &&& self.pos <= self.data@.len()
        &&& self.lut@.len() == LEVELS
        &&& self.width <= 65535
        &&& self.height <= 65535
    }

    /// Opens a recording: reads its header.
    pub fn open(data: Vec<u8>) -> (r: Result<Self, TcamError>)
        requires
            !ramp_is_empty(data@),
        ensures
            match heading_of(data@) {
                Err(e) => r matches Err(e2) && e2 == e,
                Ok(heading) => r matches Ok(decoder) && decoder.wf() && decoder@ == opened(
                    heading,
                    data@,
                ),
            },
    {
        let header = match read_header(data.as_slice()) {
            Ok(header) => header,
            Err(e) => {
                return Err(e);
            },
        };
        proof {
            let bytes = ramp_bytes(data@, data@[4]);
            vstd::utf8::decode_utf8_encode_utf8(bytes);
            lemma_utf8_not_shorter(header.ramp@);
        }
        let lut = build_lut(header.ramp.as_str());
        Ok(
            TcamDecoder {
                data,
                pos: header.size,
                width: header.width,
                height: header.height,
                fps: header.fps,
                color: header.color,
                config: header.config,
                lut,
                current: RenderFrame::default(),
                accumulated_ms: 0,
            },
        )
    }

    /// The columns of characters.
    pub fn width(&self) -> (r: usize)
        ensures
            r == self@.format.width,
    {
        self.width
    }

    /// The rows of characters.
    pub fn height(&self) -> (r: usize)
        ensures
            r == self@.format.height,
    {
        self.height
    }

    /// The frames in a second that it was recorded at.
    pub fn fps(&self) -> (r: u8)
        ensures
            r == self@.fps,
    {
        self.fps
    }

    /// Hands in further bytes of the recording.
    pub fn extend(&mut self, more: &[u8])
        requires
            old(self).wf(),
        ensures
            final(self).wf(),
            final(self)@ == extended(old(self)@, more@),
    {
        push_bytes(&mut self.data, more);
        assert(self@.rest =~= old(self)@.rest + more@);
    }

    /// The character of a colour.
    pub fn derive_char(&self, r: u8, g: u8, b: u8) -> (c: char)
        requires
            self.wf(),
        ensures
            c == glyph_of(self@.lut, (r, g, b)),
    {
        self.lut[luma(r, g, b) as usize]
    }

    /// Reads the next record, if there is one.
    pub fn read_record(&mut self) -> (r: Result<Option<TcamRecord>, TcamError>)
        requires
            old(self).wf(),
        ensures
            final(self).wf(),
            (final(self)@, record_parts(r)) == next_record(old(self)@),
    {
        let ghost player = self@;
        let end: usize = self.data.len();
        let rest = vstd::slice::slice_subrange(self.data.as_slice(), self.pos, end);
        assert(rest@ =~= player.rest);
        let ghost expected = next_record(player);
        match split_record(rest, self.config.delta_timestamps, self.accumulated_ms) {
            Split::Nothing => Ok(None),
            Split::Broken(clock) => {
                self.pos = end;
                self.accumulated_ms = clock;
                assert(self@.rest =~= Seq::empty());
                Err(TcamError::UnexpectedEnd)
            },
            Split::Whole(kind, timestamp_ms, clock, start, stop) => {
                let payload = vstd::slice::slice_to_vec(
                    vstd::slice::slice_subrange(rest, start, stop),
                );
                self.pos = self.pos + stop;
                self.accumulated_ms = clock;
                assert(self@.rest =~= player.rest.skip(stop as int));
                Ok(Some(TcamRecord { kind, timestamp_ms, payload }))
            },
        }
    }

    /// The rows of text in a block of bytes.
    fn read_rows(&self, flat: &[u8]) -> (r: Vec<String>)
        requires
            self.wf(),
            rows_start_within(self@.format, flat@),
        ensures
            text_rows(r@) == rows_of(self@.format, flat@),
    {
        let ghost goal = rows_of(self@.format, flat@);
        let mut chars: Vec<String> = Vec::new();
        let mut y: usize = 0;
        while y < self.height
            invariant
                self.wf(),
                rows_start_within(self@.format, flat@),
                goal == rows_of(self@.format, flat@),
                y <= self.height,
                chars.len() == y,
                forall|i: int| 0 <= i < y ==> #[trigger] chars@[i]@ == goal[i],
            decreases self.height - y,
        {
            proof {
                assert(0 <= y * self.width && y * self.width <= (self.height - 1) * self.width
                    && y * self.width + self.width <= 65535 * 65535) by (nonlinear_arith)
                    requires
                        0 <= y < self.height <= 65535,
                        0 <= self.width <= 65535,
                ;
            }
            let start: usize = y * self.width;
            let end: usize = if start + self.width < flat.len() {
                start + self.width
            } else {
                flat.len()
            };
            let mut row = text_lossy(vstd::slice::slice_subrange(flat, start, end));
            let size: usize = row.as_str().as_bytes().len();
            let ghost plain = row@;
            assert(plain == lossy_text(flat_row(flat@, self.width as int, y as int)));
            if size < self.width {
                push_repeated(&mut row, ' ', self.width - size);
            }
            assert(row@ =~= filled(plain, self.width as int));
            chars.push(row);
            y += 1;
        }
        assert(text_rows(chars@) =~= goal);
        chars
    }

    /// The colour of the `k`th cell in a block of stored colours.
    fn read_color(&self, bytes: &[u8], k: u64) -> (c: Rgb)
        requires
            self.wf(),
            k <= 65535 * 65535,
            self.config.quantize_colors ==> k < bytes@.len() ==> bytes@[k as int] < PALETTE_END,
        ensures
            c == color_in(self@.format, bytes@, k as int),
    {
        if self.config.quantize_colors {
            dequantize_color(byte_or_else(bytes, k, 16))
        } else {
            (
                byte_or_else(bytes, 3 * k, 0),
                byte_or_else(bytes, 3 * k + 1, 0),
                byte_or_else(bytes, 3 * k + 2, 0),
            )
        }
    }

    /// The rows of colours in a block of stored colours.
    fn read_colors(&self, bytes: &[u8]) -> (r: Vec<Vec<Rgb>>)
        requires
            self.wf(),
            colors_in_palette(self@.format, bytes@),
        ensures
            color_rows(r@) == colors_of(self@.format, bytes@),
    {
        let ghost goal = colors_of(self@.format, bytes@);
        let mut colors: Vec<Vec<Rgb>> = Vec::new();
        let mut y: usize = 0;
        while y < self.height
            invariant
                self.wf(),
                colors_in_palette(self@.format, bytes@),
                goal == colors_of(self@.format, bytes@),
                y <= self.height,
                colors.len() == y,
                forall|i: int| 0 <= i < y ==> #[trigger] colors@[i]@ == goal[i],
            decreases self.height - y,
        {
            let mut row: Vec<Rgb> = Vec::new();
            let mut x: usize = 0;
            while x < self.width
                invariant
                    self.wf(),
                    colors_in_palette(self@.format, bytes@),
                    goal == colors_of(self@.format, bytes@),
                    y < self.height,
                    x <= self.width,
                    row@ == goal[y as int].take(x as int),
                decreases self.width - x,
            {
                proof {
                    lemma_cell_in_grid(x as int, y as int, self.width as int, self.height as int);
                    assert(self.width * self.height <= 65535 * 65535) by (nonlinear_arith)
                        requires
                            0 <= self.height <= 65535,
                            0 <= self.width <= 65535,
                    ;
                    assert(0 <= y * self.width) by (nonlinear_arith);
                }
                let k: u64 = y as u64 * self.width as u64 + x as u64;
                let c = self.read_color(bytes, k);
                row.push(c);
                proof {
                    assert(goal[y as int][x as int] == c);
                    assert(goal[y as int].take(x + 1) =~= goal[y as int].take(x as int).push(c));
                }
                x += 1;
            }
            assert(goal[y as int].take(self.width as int) =~= goal[y as int]);
            colors.push(row);
            y += 1;
        }
        assert(color_rows(colors@) =~= goal);
        colors
    }

    /// The characters of rows of colours.
    fn derive_rows(&self, colors: &Vec<Vec<Rgb>>) -> (r: Vec<String>)
        requires
            self.wf(),
        ensures
            text_rows(r@) == derived_rows(self@.lut, color_rows(colors@)),
    {
        let ghost goal = derived_rows(self@.lut, color_rows(colors@));
        let mut chars: Vec<String> = Vec::new();
        let mut y: usize = 0;
        while y < colors.len()
            invariant
                self.wf(),
                goal == derived_rows(self@.lut, color_rows(colors@)),
                y <= colors.len(),
                chars.len() == y,
                forall|i: int| 0 <= i < y ==> #[trigger] chars@[i]@ == goal[i],
            decreases colors.len() - y,
        {
            let row = &colors[y];
            let mut text = String::new();
            let mut x: usize = 0;
            while x < row.len()
                invariant
                    self.wf(),
                    goal == derived_rows(self@.lut, color_rows(colors@)),
                    y < colors.len(),
                    row@ == colors@[y as int]@,
                    x <= row.len(),
                    text@ == goal[y as int].take(x as int),
                decreases row.len() - x,
            {
                let (r, g, b) = row[x];
                let c = self.derive_char(r, g, b);
                text.push(c);
                proof {
                    assert(goal[y as int][x as int] == c);
                    assert(goal[y as int].take(x + 1) =~= goal[y as int].take(x as int).push(c));
                }
                x += 1;
            }
            assert(goal[y as int].take(row@.len() as int) =~= goal[y as int]);
            chars.push(text);
            y += 1;
        }
        assert(text_rows(chars@) =~= goal);
        chars
    }

    /// Shows the payload of a keyframe.
    pub fn decode_keyframe(&mut self, data: &[u8]) -> (r: Result<(), TcamError>)
        requires
            old(self).wf(),
            keyframe_sound(old(self)@.format, data@),
        ensures
            final(self).wf(),
            final(self)@ == (Player {
                current: after_keyframe(
                    old(self)@.format,
                    old(self)@.lut,
                    old(self)@.current,
                    data@,
                ).0,
                ..old(self)@
            }),
            r == after_keyframe(old(self)@.format, old(self)@.lut, old(self)@.current, data@).1,
    {
        let derive: bool = self.config.derive_chars && self.color;
        let rle_len: usize = match read_u32_at(data, 0) {
            Some(n) => n as usize,
            None => {
                return Err(TcamError::UnexpectedEnd);
            },
        };
        if data.len() - 4 < rle_len {
            return Err(TcamError::UnexpectedEnd);
        }
        if rle_len > 0 {
            let part = vstd::slice::slice_subrange(data, 4, 4 + rle_len);
            let flat = rle_decode(part);
            let chars = self.read_rows(flat.as_slice());
            self.current.chars = chars;
        }
        assert(self@.current =~= after_text(old(self)@.format, old(self)@.current, data@));
        let at: usize = 4 + rle_len;
        let color_len: usize = match read_u32_at(data, at) {
            Some(n) => n as usize,
            None => {
                return Err(TcamError::UnexpectedEnd);
            },
        };
        let at: usize = at + 4;
        if color_len > 0 && self.color {
            if data.len() - at < color_len {
                return Err(TcamError::UnexpectedEnd);
            }
            let part = vstd::slice::slice_subrange(data, at, at + color_len);
            let colors = self.read_colors(part);
            if derive && rle_len == 0 {
                let chars = self.derive_rows(&colors);
                self.current.chars = chars;
            }
            self.current.colors = Some(colors);
        } else {
            self.current.colors = None;
        }
        Ok(())
    }

    /// The bytes of the rows of the picture last shown.
    fn current_bytes(&self) -> (r: Vec<Vec<u8>>)
        ensures
            item_rows(r@) == cells_of(self@.current).chars,
    {
        let ghost goal = cells_of(self@.current).chars;
        let mut rows: Vec<Vec<u8>> = Vec::new();
        let mut y: usize = 0;
        while y < self.current.chars.len()
            invariant
                goal == cells_of(self@.current).chars,
                y <= self.current.chars.len(),
                rows.len() == y,
                forall|i: int| 0 <= i < y ==> #[trigger] rows@[i]@ == goal[i],
            decreases self.current.chars.len() - y,
        {
            let row = vstd::slice::slice_to_vec(self.current.chars[y].as_str().as_bytes());
            rows.push(row);
            y += 1;
        }
        assert(item_rows(rows@) =~= goal);
        rows
    }

    /// The size of a changed cell.
    fn entry_size(&self) -> (r: usize)
        ensures
            r == self@.format.entry_size(),
            2 <= r <= 8,
    {
        let name: usize = if self.config.flat_indices {
            2
        } else {
            4
        };
        let glyph: usize = if self.config.derive_chars && self.color {
            0
        } else {
            1
        };
        let color: usize = if !self.color {
            0
        } else if self.config.quantize_colors {
            1
        } else {
            3
        };
        name + glyph + color
    }

    /// Changes a cell as an entry says.
    fn apply_entry(
        &self,
        chars: &mut Vec<Vec<u8>>,
        colors: &mut Option<Vec<Vec<Rgb>>>,
        entry: &[u8],
    )
        requires
            self.wf(),
            entry@.len() == self@.format.entry_size(),
            self.config.flat_indices ==> self.width > 0,
            self.color && self.config.quantize_colors ==> entry@[entry@.len() - 1] < PALETTE_END,
        ensures
            (Cells { chars: item_rows(final(chars)@), colors: color_grid(*final(colors)) })
                == after_entry(
                self@.format,
                self@.lut,
                Cells { chars: item_rows(old(chars)@), colors: color_grid(*old(colors)) },
                entry@,
            ),
    {
        let ghost format = self@.format;
        let ghost start = Cells { chars: item_rows(chars@), colors: color_grid(*colors) };
        let derive: bool = self.config.derive_chars && self.color;
        let first: usize = match read_u16_at(entry, 0) {
            Some(n) => n as usize,
            None => 0,
        };
        let (x, y, at): (usize, usize, usize) = if self.config.flat_indices {
            (first % self.width, first / self.width, 2)
        } else {
            let second: usize = match read_u16_at(entry, 2) {
                Some(n) => n as usize,
                None => 0,
            };
            (first, second, 4)
        };
        assert((x as int, y as int) == entry_cell(format, entry@));
        let mut ch: u8 = 0;
        let mut next: usize = at;
        if !derive {
            ch = entry[at];
            next = at + 1;
        }
        if self.color {
            let c: Rgb = if self.config.quantize_colors {
                dequantize_color(entry[next])
            } else {
                (entry[next], entry[next + 1], entry[next + 2])
            };
            assert(c == entry_color(format, entry@));
            match colors {
                Some(grid) => {
                    set_item(grid, x, y, c);
                },
                None => {},
            }
            if derive {
                ch = (self.derive_char(c.0, c.1, c.2) as u32 % 256) as u8;
            }
        }
        assert(ch == entry_byte(format, self@.lut, entry@));
        set_item(chars, x, y, ch);
    }

    /// Shows the payload of a delta.
    pub fn decode_delta(&mut self, data: &[u8]) -> (r: Result<(), TcamError>)
        requires
            old(self).wf(),
            delta_sound(old(self)@.format, data@),
        ensures
            final(self).wf(),
            final(self)@ == (Player {
                current: after_delta(
                    old(self)@.format,
                    old(self)@.lut,
                    old(self)@.current,
                    data@,
                ).0,
                ..old(self)@
            }),
            r == after_delta(old(self)@.format, old(self)@.lut, old(self)@.current, data@).1,
    {
        let changes: u32 = match read_u32_at(data, 0) {
            Some(n) => n,
            None => {
                return Err(TcamError::UnexpectedEnd);
            },
        };
        let ghost format = self@.format;
        let ghost lut = self@.lut;
        let ghost result = after_entries(
            format,
            lut,
            cells_of(self@.current),
            data@.skip(4),
            changes as nat,
        );
        let size: usize = self.entry_size();
        let mut chars = self.current_bytes();
        let mut colors = copy_grid(&self.current.colors);
        let mut pos: usize = 4;
        let mut left: u32 = changes;
        assert((Cells { chars: item_rows(chars@), colors: color_grid(colors) }) =~= cells_of(
            self@.current,
        ));
        while left > 0
            invariant
                self.wf(),
                *self == *old(self),
                format == self@.format,
                lut == self@.lut,
                size == format.entry_size(),
                2 <= size <= 8,
                4 <= pos <= data@.len(),
                entries_sound(format, data@.skip(pos as int), left as nat),
                data@.len() >= 4,
                changes == le32_at(data@, 0),
                result == after_entries(
                    format,
                    lut,
                    cells_of(self@.current),
                    data@.skip(4),
                    changes as nat,
                ),
                result == after_entries(
                    format,
                    lut,
                    Cells { chars: item_rows(chars@), colors: color_grid(colors) },
                    data@.skip(pos as int),
                    left as nat,
                ),
            decreases left,
        {
            if data.len() - pos < size {
                return Err(TcamError::UnexpectedEnd);
            }
            let entry = vstd::slice::slice_subrange(data, pos, pos + size);
            proof {
                let rest = data@.skip(pos as int);
                assert(entry@ =~= rest.take(size as int));
                assert(rest.skip(size as int) =~= data@.skip(pos + size));
                assert(rest[size - 1] == entry@[size - 1]);
            }
            self.apply_entry(&mut chars, &mut colors, entry);
            pos += size;
            left -= 1;
        }
        let ghost cells = Cells { chars: item_rows(chars@), colors: color_grid(colors) };
        let mut rows: Vec<String> = Vec::new();
        let mut y: usize = 0;
        while y < chars.len()
            invariant
                cells.chars == item_rows(chars@),
                y <= chars.len(),
                rows.len() == y,
                forall|i: int|
                    0 <= i < y ==> #[trigger] rows@[i]@ == picture_of(cells).chars[i],
            decreases chars.len() - y,
        {
            rows.push(text_lossy(chars[y].as_slice()));
            y += 1;
        }
        self.current.chars = rows;
        self.current.colors = colors;
        assert(self@.current =~= picture_of(cells));
        Ok(())
    }

    /// Tells whether a keyframe can be shown.
    fn keyframe_is_sound(&self, data: &[u8]) -> (r: bool)
        requires
            self.wf(),
        ensures
            r == keyframe_sound(self@.format, data@),
    {
        let rle_len: usize = match read_u32_at(data, 0) {
            Some(n) => n as usize,
            None => {
                return true;
            },
        };
        if data.len() - 4 < rle_len {
            return true;
        }
        if rle_len > 0 && self.height > 0 {
            let flat = rle_decode(vstd::slice::slice_subrange(data, 4, 4 + rle_len));
            proof {
                assert(0 <= (self.height - 1) * self.width <= 65535 * 65535) by (nonlinear_arith)
                    requires
                        0 < self.height <= 65535,
                        0 <= self.width <= 65535,
                ;
            }
            if (self.height - 1) * self.width > flat.len() {
                return false;
            }
        }
        let at: usize = 4 + rle_len;
        let color_len: usize = match read_u32_at(data, at) {
            Some(n) => n as usize,
            None => {
                return true;
            },
        };
        let at: usize = at + 4;
        if color_len > 0 && self.color && color_len <= data.len() - at {
            return self.colors_are_in_palette(
                vstd::slice::slice_subrange(data, at, at + color_len),
            );
        }
        true
    }

    /// Tells whether the stored colours of the picture's cells are in the
    /// palette.
    fn colors_are_in_palette(&self, bytes: &[u8]) -> (r: bool)
        requires
            self.wf(),
        ensures
            r == colors_in_palette(self@.format, bytes@),
    {
        if !self.config.quantize_colors {
            return true;
        }
        proof {
            assert(self.width * self.height <= 65535 * 65535) by (nonlinear_arith)
                requires
                    0 <= self.height <= 65535,
                    0 <= self.width <= 65535,
            ;
        }
        let cells: usize = self.width * self.height;
        let mut k: usize = 0;
        while k < cells && k < bytes.len()
            invariant
                self.config.quantize_colors,
                cells == cell_count(self@.format),
                k <= bytes.len(),
                forall|j: int| 0 <= j < k && j < cells ==> #[trigger] bytes@[j] < PALETTE_END,
            decreases bytes.len() - k,
        {
            if bytes[k] >= PALETTE_END {
                return false;
            }
            k += 1;
        }
        true
    }

    /// Tells whether a delta can be shown.
    fn delta_is_sound(&self, data: &[u8]) -> (r: bool)
        requires
            self.wf(),
        ensures
            r == delta_sound(self@.format, data@),
    {
        let changes: u32 = match read_u32_at(data, 0) {
            Some(n) => n,
            None => {
                return true;
            },
        };
        let ghost format = self@.format;
        let size: usize = self.entry_size();
        let mut pos: usize = 4;
        let mut left: u32 = changes;
        while left > 0
            invariant
                self.wf(),
                format == self@.format,
                size == format.entry_size(),
                2 <= size <= 8,
                4 <= pos <= data@.len(),
                entries_sound(format, data@.skip(pos as int), left as nat) == delta_sound(
                    format,
                    data@,
                ),
            decreases left,
        {
            if self.config.flat_indices && self.width == 0 {
                return data.len() - pos < 2;
            }
            if data.len() - pos < size {
                return true;
            }
            proof {
                let rest = data@.skip(pos as int);
                assert(rest.skip(size as int) =~= data@.skip(pos + size));
                assert(rest[size - 1] == data@[pos + size - 1]);
            }
            if self.color && self.config.quantize_colors && data[pos + size - 1] >= PALETTE_END {
                return false;
            }
            pos += size;
            left -= 1;
        }
        true
    }

    /// Tells whether the payload of a record of a kind can be shown.
    pub fn payload_is_sound(&self, kind: u8, data: &[u8]) -> (r: bool)
        requires
            self.wf(),
        ensures
            r == payload_sound(self@.format, kind, data@),
    {
        if kind == TCAM_KEYFRAME {
            self.keyframe_is_sound(data)
        } else if kind == TCAM_DELTA {
            self.delta_is_sound(data)
        } else {
            true
        }
    }

    /// Shows the payload of a record of a kind.
    pub fn show_payload(&mut self, kind: u8, data: &[u8]) -> (r: Result<(), TcamError>)
        requires
            old(self).wf(),
            payload_sound(old(self)@.format, kind, data@),
        ensures
            final(self).wf(),
            final(self)@ == (Player {
                current: after_payload(
                    old(self)@.format,
                    old(self)@.lut,
                    old(self)@.current,
                    kind,
                    data@,
                ).0,
                ..old(self)@
            }),
            r == after_payload(
                old(self)@.format,
                old(self)@.lut,
                old(self)@.current,
                kind,
                data@,
            ).1,
    {
        if kind == TCAM_KEYFRAME {
            self.decode_keyframe(data)
        } else if kind == TCAM_DELTA {
            self.decode_delta(data)
        } else {
            Ok(())
        }
    }

    /// Reads the next frame and its time, if there is one.
    pub fn read_frame(&mut self) -> (r: Result<Option<(RenderFrame, u32)>, TcamError>)
        requires
            old(self).wf(),
            next_is_sound(old(self)@),
        ensures
            final(self).wf(),
            (final(self)@, shown_parts(r)) == read_next(old(self)@),
    {
        let record = match self.read_record() {
            Ok(Some(record)) => record,
            Ok(None) => {
                return Ok(None);
            },
            Err(e) => {
                return Err(e);
            },
        };
        if record.kind == TCAM_SKIP {
            return Ok(Some((self.current.clone(), record.timestamp_ms)));
        }
        let data = match inflate(record.payload.as_slice()) {
            Ok(data) => data,
            Err(breaks_off) => {
                return Err(
                    if breaks_off {
                        TcamError::BrokenStream
                    } else {
                        TcamError::BadStream
                    },
                );
            },
        };
        match self.show_payload(record.kind, data.as_slice()) {
            Ok(_) => Ok(Some((self.current.clone(), record.timestamp_ms))),
            Err(e) => Err(e),
        }
    }

    /// Tells whether the next record can be shown.
    fn next_frame_is_sound(&self) -> (r: bool)
        requires
            self.wf(),
        ensures
            r == next_is_sound(self@),
    {
        let ghost player = self@;
        let rest = vstd::slice::slice_subrange(self.data.as_slice(), self.pos, self.data.len());
        assert(rest@ =~= player.rest);
        match split_record(rest, self.config.delta_timestamps, self.accumulated_ms) {
            Split::Whole(kind, _, _, start, stop) => {
                if kind == TCAM_SKIP {
                    return true;
                }
                match inflate(vstd::slice::slice_subrange(rest, start, stop)) {
                    Ok(data) => self.payload_is_sound(kind, data.as_slice()),
                    Err(_) => true,
                }
            },
            _ => true,
        }
    }

    /// Reads the next frame and its time, if there is one; none is read where
    /// the next record cannot be shown.
    pub fn read_sound_frame(&mut self) -> (r: Option<
        Result<Option<(RenderFrame, u32)>, TcamError>,
    >)
        requires
            old(self).wf(),
        ensures
            final(self).wf(),
            match r {
                Some(shown) => next_is_sound(old(self)@) && (final(self)@, shown_parts(shown))
                    == read_next(old(self)@),
                None => !next_is_sound(old(self)@) && final(self)@ == old(self)@,
            },
    {
        if self.next_frame_is_sound() {
            Some(self.read_frame())
        } else {
            None
        }
    }
}

/// Replaces an item of rows, where there is such an item.
fn set_item<T>(rows: &mut Vec<Vec<T>>, x: usize, y: usize, item: T)
    ensures
        item_rows(final(rows)@) == with_item(item_rows(old(rows)@), x as int, y as int, item),
{
    let ghost before = rows@;
    if y < rows.len() && x < rows[y].len() {
        rows[y][x] = item;
        assert(rows@.len() == before.len());
        assert(rows@[y as int]@ =~= before[y as int]@.update(x as int, item));
        assert(forall|k: int| 0 <= k < before.len() && k != y ==> #[trigger] rows@[k] == before[k]);
    }
    assert(item_rows(rows@) =~= with_item(item_rows(before), x as int, y as int, item));
}

/// A byte of a slice, or `other` beyond its end.
fn byte_or_else(bytes: &[u8], i: u64, other: u8) -> (r: u8)
    ensures
        r == byte_or(bytes@, i as int, other),
{
    if i < bytes.len() as u64 {
        bytes[i as usize]
    } else {
        other
    }
}

} // verus!
