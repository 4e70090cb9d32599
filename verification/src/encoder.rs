//! Writing recordings.
use vstd::prelude::*;
use vstd::utf8::encode_utf8;

use crate::color::{palette_index, quantize_color};
use crate::format::{
    cell_byte, cell_color, cell_count, cell_entry, cell_name, change_count, change_entries,
    color_bytes, compress_failure, cut32, delta_payload, header_bytes, keyframe_colors,
    keyframe_payload, keyframe_text, played_config, row_color_bytes, text_bytes, with_length,
    Format, TcamError, TCAM_DELTA, TCAM_KEYFRAME, TCAM_KEYFRAME_INTERVAL, TCAM_SKIP, TCAM_VERSION,
};
use crate::frame::{color_grid, color_rows, text_rows, Picture, RenderFrame, Rgb};
use crate::recording::RecordingConfig;
use crate::render::lemma_cell_of;
use crate::rle::rle_encode;
use crate::wire::{
    deflate, le16, le32, low16, low32, push_bytes, write_u16_le, write_u32_le, zlib_deflated,
    zlib_inflated,
};

verus! {

/// A recording while it is written.
pub struct Tape {
    /// Its shape.
    pub format: Format,
    /// Whether payloads are compressed as tightly as can be.
    pub tight: bool,
    /// The number of frames so far.
    pub count: nat,
    /// The last frame that was stored with a payload.
    pub previous: Option<Picture>,
    /// The time of the last record.
    pub clock: u32,
    /// The bytes that have been written and not yet taken.
    pub written: Seq<u8>,
}

/// The bytes of a record's time: the distance to the record before, as far as
/// sixteen bits reach, or the time itself.
pub open spec fn time_bytes(format: Format, clock: u32, now: u32) -> Seq<u8> {
    if format.config.delta_timestamps {
        let distance = if now > clock {
            now - clock
        } else {
            0
        };
        le16(
            if distance > 65535 {
                65535
            } else {
                distance as u16
            },
        )
    } else {
        le32(now)
    }
}

/// The bytes of a record before its payload.
pub open spec fn record_head(format: Format, clock: u32, kind: u8, now: u32, size: u32) -> Seq<u8> {
    seq![kind] + time_bytes(format, clock, now) + le32(size)
}

/// The zlib level of a recording.
pub open spec fn zlib_level(tight: bool) -> u32 {
    if tight {
        9
    } else {
        6
    }
}

/// What the next frame is stored as: the kind and the payload of its record,
/// or nothing where it is skipped. Every thirtieth frame is a keyframe, and so
/// is one that has none before it.
pub open spec fn next_payload(tape: Tape, picture: Picture) -> Option<(u8, Seq<u8>)> {
    match tape.previous {
        Some(before) if tape.count % TCAM_KEYFRAME_INTERVAL as nat != 0 => {
            match delta_payload(tape.format, before, picture) {
                Some(data) => Some((TCAM_DELTA, data)),
                None => None,
            }
        },
        _ => Some((TCAM_KEYFRAME, keyframe_payload(tape.format, picture))),
    }
}

/// A frame is a keyframe exactly where none is stored before it or its number
/// is a multiple of the interval.
pub proof fn lemma_keyframes_come_regularly(tape: Tape, picture: Picture)
    ensures
        (next_payload(tape, picture) matches Some((kind, _)) && kind == TCAM_KEYFRAME) <==> (
        tape.previous is None || tape.count % TCAM_KEYFRAME_INTERVAL as nat == 0),
{
}

/// The recording after a skipped frame.
pub open spec fn after_skip(tape: Tape, now: u32) -> Tape {
    Tape {
        count: tape.count + 1,
        clock: now,
        written: tape.written + record_head(tape.format, tape.clock, TCAM_SKIP, now, 0),
        ..tape
    }
}

/// The recording after a frame whose payload has been compressed to `stream`.
pub open spec fn after_record(
    tape: Tape,
    picture: Picture,
    kind: u8,
    now: u32,
    stream: Seq<u8>,
) -> Tape {
    Tape {
        count: tape.count + 1,
        previous: Some(picture),
        clock: now,
        written: tape.written + record_head(
            tape.format,
            tape.clock,
            kind,
            now,
            cut32(stream.len() as int),
        ) + stream,
        ..tape
    }
}

/// The recording after a frame; `stream` is its compressed payload, if it has
/// one.
pub open spec fn after_frame(tape: Tape, picture: Picture, now: u32, stream: Seq<u8>) -> Tape {
    match next_payload(tape, picture) {
        Some((kind, _)) => after_record(tape, picture, kind, now, stream),
        None => after_skip(tape, now),
    }
}

/// The compressed payload of the next frame, which is empty where the frame is
/// skipped; where compressing fails, whether it does so only at the end.
pub open spec fn frame_stream(tape: Tape, picture: Picture) -> Result<Seq<u8>, bool> {
    match next_payload(tape, picture) {
        Some((_, data)) => zlib_deflated(data, zlib_level(tape.tight)),
        None => Ok(Seq::empty()),
    }
}

/// Whether the compressed payload of the next frame is read back as the
/// payload.
pub open spec fn payload_reads_back(tape: Tape, picture: Picture) -> bool {
    next_payload(tape, picture) matches Some((_, data)) ==> zlib_inflated(
        frame_stream(tape, picture)->Ok_0,
    ) == Ok::<Seq<u8>, bool>(data)
}

/// The recording after a frame, with its payload compressed, or why it cannot
/// be compressed.
pub open spec fn written_frame(tape: Tape, picture: Picture, now: u32) -> Result<Tape, TcamError> {
    match frame_stream(tape, picture) {
        Ok(stream) => Ok(after_frame(tape, picture, now, stream)),
        Err(finishing) => Err(compress_failure(finishing)),
    }
}

/// Taking bytes while a recording is written loses nothing: what the next frame
/// adds is the same whether or not what came before has been taken, so the bytes
/// that are taken, one after the other, are the recording.
pub proof fn lemma_taken_bytes_add_up(tape: Tape, picture: Picture, now: u32)
    ensures
        ({
            let taken = Tape { written: Seq::empty(), ..tape };
            &&& written_frame(tape, picture, now) == (match written_frame(taken, picture, now) {
                Ok(after) => Ok::<Tape, TcamError>(
                    Tape { written: tape.written + after.written, ..after },
                ),
                Err(e) => Err::<Tape, TcamError>(e),
            })
            &&& payload_reads_back(tape, picture) == payload_reads_back(taken, picture)
        }),
{
    let taken = Tape { written: Seq::empty(), ..tape };
    assert(next_payload(tape, picture) == next_payload(taken, picture));
    match (written_frame(tape, picture, now), written_frame(taken, picture, now)) {
        (Ok(whole), Ok(after)) => {
            assert(whole.written =~= tape.written + after.written);
        },
        _ => {},
    }
}

/// A recording that has just been started: its header is written.
pub open spec fn started(
    width: int,
    height: int,
    fps: u8,
    ramp: Seq<char>,
    color: bool,
    config: RecordingConfig,
) -> Tape {
    Tape {
        format: Format { width, height, color, config: played_config(config) },
        tight: config.zlib_max,
        count: 0,
        previous: None,
        clock: 0,
        written: header_bytes(
            width,
            height,
            fps,
            config.flag_word(color) as u16,
            encode_utf8(ramp),
        ),
    }
}

/// A count of milliseconds as far as 32 bits reach.
pub open spec fn capped_time(elapsed_ms: u128) -> u32 {
    if elapsed_ms > u32::MAX {
        u32::MAX
    } else {
        elapsed_ms as u32
    }
}

/// The recording after a frame is stored, an elapsed time after its start, or why
/// the frame cannot be compressed.
pub open spec fn stored_frame(tape: Tape, picture: Picture, elapsed_ms: u128) -> Result<
    Tape,
    TcamError,
> {
    written_frame(tape, picture, capped_time(elapsed_ms))
}

/// The byte that a cell of text shows.
fn byte_at(rows: &Vec<String>, x: usize, y: usize) -> (r: u8)
    ensures
        r == cell_byte(text_rows(rows@), x as int, y as int),
{
    if y < rows.len() {
        let bytes = rows[y].as_str().as_bytes();
        if x < bytes.len() {
            return bytes[x];
        }
    }
    32
}

/// The colour of a cell.
fn color_at(grid: &Option<Vec<Vec<Rgb>>>, x: usize, y: usize) -> (r: Rgb)
    ensures
        r == cell_color(color_grid(*grid), x as int, y as int),
{
    match grid {
        Some(rows) => {
            if y < rows.len() && x < rows[y].len() {
                rows[y][x]
            } else {
                (0, 0, 0)
            }
        },
        None => (0, 0, 0),
    }
}

/// Writes recordings: bytes collect here until they are taken.
pub struct TcamEncoder {
    pending: Vec<u8>,
    width: usize,
    height: usize,
    color: bool,
    config: RecordingConfig,
    frame_count: usize,
    previous: Option<RenderFrame>,
    prev_timestamp_ms: u32,
}

impl View for TcamEncoder {
    type V = Tape;

    closed spec fn view(&self) -> Tape {
        Tape {
            format: Format {
                width: self.width as int,
                height: self.height as int,
                color: self.color,
                config: played_config(self.config),
            },
            tight: self.config.zlib_max,
            count: self.frame_count as nat,
            previous: match self.previous {
                Some(frame) => Some(frame@),
                None => None,
            },
            clock: self.prev_timestamp_ms,
            written: self.pending@,
        }
    }
}

impl TcamEncoder {
    /// Starts a recording: its header is written.
    pub fn create(
        width: usize,
        height: usize,
        fps: u8,
        ramp: &str,
        color: bool,
        config: RecordingConfig,
    ) -> (r: Self)
        ensures
            r@ == started(width as int, height as int, fps, ramp@, color, config),
    {
        let mut pending: Vec<u8> = Vec::new();
        pending.push(84);
        pending.push(67);
        pending.push(65);
        pending.push(77);
        pending.push(TCAM_VERSION);
        write_u16_le(&mut pending, low16(width as u128));
        write_u16_le(&mut pending, low16(height as u128));
        pending.push(fps);
        write_u16_le(&mut pending, config.flags(color));
        let bytes = ramp.as_bytes();
        pending.push((bytes.len() % 256) as u8);
        push_bytes(&mut pending, bytes);
        assert(pending@ =~= header_bytes(
            width as int,
            height as int,
            fps,
            config.flag_word(color) as u16,
            encode_utf8(ramp@),
        ));
        TcamEncoder {
            pending,
            width,
            height,
            color,
            config,
            frame_count: 0,
            previous: None,
            prev_timestamp_ms: 0,
        }
    }

    /// The number of frames so far.
    pub fn frame_count(&self) -> (r: usize)
        ensures
            r as nat == self@.count,
    {
        self.frame_count
    }

    /// Takes the bytes that have been written since the last call.
    pub fn take_written(&mut self) -> (r: Vec<u8>)
        ensures
            r@ == old(self)@.written,
            final(self)@ == (Tape { written: Seq::empty(), ..old(self)@ }),
    {
        let mut taken: Vec<u8> = Vec::new();
        std::mem::swap(&mut taken, &mut self.pending);
        taken
    }

    /// Stores a frame at a time, and takes the bytes written.
    pub fn write_and_take(&mut self, frame: &RenderFrame, elapsed_ms: u128) -> (r: Result<
        Vec<u8>,
        TcamError,
    >)
        requires
            old(self)@.count < usize::MAX,
        ensures
            match stored_frame(old(self)@, frame@, elapsed_ms) {
                Ok(tape) => {
                    &&& r matches Ok(bytes) && bytes@ == tape.written
                    &&& final(self)@ == (Tape { written: Seq::empty(), ..tape })
                },
                Err(e) => r == Err::<Vec<u8>, TcamError>(e) && final(self)@ == old(self)@,
            },
            r is Ok ==> payload_reads_back(old(self)@, frame@),
    {
        match self.write_frame(frame, elapsed_ms) {
            Ok(()) => Ok(self.take_written()),
            Err(e) => Err(e),
        }
    }

    /// Stores a frame at a time: as a keyframe, as a delta, or as a skip where
    /// nothing changed.
    pub fn write_frame(&mut self, frame: &RenderFrame, elapsed_ms: u128) -> (r: Result<(), TcamError>)
        requires
            old(self)@.count < usize::MAX,
        ensures
            match stored_frame(old(self)@, frame@, elapsed_ms) {
                Ok(tape) => r is Ok && final(self)@ == tape,
                Err(e) => r == Err::<(), TcamError>(e) && final(self)@ == old(self)@,
            },
            r is Ok ==> payload_reads_back(old(self)@, frame@),
    {
        let timestamp_ms: u32 = if elapsed_ms > u32::MAX as u128 {
            u32::MAX
        } else {
            elapsed_ms as u32
        };
        match self.frame_payload(frame) {
            None => {
                self.write_skip(timestamp_ms);
                self.frame_count += 1;
                Ok(())
            },
            Some((kind, data)) => {
                let level: u32 = if self.config.zlib_max {
                    9
                } else {
                    6
                };
                match deflate(data.as_slice(), level) {
                    Ok(stream) => {
                        self.write_record(frame, kind, timestamp_ms, stream.as_slice());
                        Ok(())
                    },
                    Err(finishing) => Err(
                        if finishing {
                            TcamError::CannotFinish
                        } else {
                            TcamError::CannotCompress
                        },
                    ),
                }
            },
        }
    }

    /// What the next frame is stored as, or nothing where it is skipped.
    pub fn frame_payload(&self, frame: &RenderFrame) -> (r: Option<(u8, Vec<u8>)>)
        ensures
            match r {
                Some((kind, data)) => next_payload(self@, frame@) == Some((kind, data@)),
                None => next_payload(self@, frame@) is None,
            },
    {
        let keyframe: bool = self.frame_count % TCAM_KEYFRAME_INTERVAL == 0
            || self.previous.is_none();
        if keyframe {
            return Some((TCAM_KEYFRAME, self.encode_keyframe(frame)));
        }
        match self.encode_delta(frame) {
            Ok(Some(data)) => Some((TCAM_DELTA, data)),
            _ => None,
        }
    }

    /// Writes the record of a frame whose payload has been compressed to
    /// `stream`, and remembers the frame.
    pub fn write_record(&mut self, frame: &RenderFrame, kind: u8, timestamp_ms: u32, stream: &[u8])
        requires
            old(self)@.count < usize::MAX,
        ensures
            final(self)@ == after_record(old(self)@, frame@, kind, timestamp_ms, stream@),
    {
        self.write_frame_header(kind, timestamp_ms, low32(stream.len()));
        push_bytes(&mut self.pending, stream);
        self.previous = Some(frame.clone());
        self.prev_timestamp_ms = timestamp_ms;
        self.frame_count += 1;
        assert(self@.written =~= after_record(old(self)@, frame@, kind, timestamp_ms, stream@).written);
    }

    /// Writes the head of a record.
    pub fn write_frame_header(&mut self, frame_type: u8, timestamp_ms: u32, data_len: u32)
        ensures
            final(self)@ == (Tape {
                written: old(self)@.written + record_head(
                    old(self)@.format,
                    old(self)@.clock,
                    frame_type,
                    timestamp_ms,
                    data_len,
                ),
                ..old(self)@
            }),
    {
        self.pending.push(frame_type);
        if self.config.delta_timestamps {
            let distance: u32 = timestamp_ms.saturating_sub(self.prev_timestamp_ms);
            let delta: u16 = if distance > 65535 {
                65535
            } else {
                distance as u16
            };
            write_u16_le(&mut self.pending, delta);
        } else {
            write_u32_le(&mut self.pending, timestamp_ms);
        }
        write_u32_le(&mut self.pending, data_len);
        assert(self@.written =~= old(self)@.written + record_head(
            old(self)@.format,
            old(self)@.clock,
            frame_type,
            timestamp_ms,
            data_len,
        ));
    }

    /// Writes the record of a frame that repeats the one before.
    pub fn write_skip(&mut self, timestamp_ms: u32)
        ensures
            final(self)@ == (Tape {
                clock: timestamp_ms,
                written: old(self)@.written + record_head(
                    old(self)@.format,
                    old(self)@.clock,
                    TCAM_SKIP,
                    timestamp_ms,
                    0,
                ),
                ..old(self)@
            }),
    {
        self.write_frame_header(TCAM_SKIP, timestamp_ms, 0);
        self.prev_timestamp_ms = timestamp_ms;
    }

    /// Appends a colour as it is stored.
    fn push_color(&self, out: &mut Vec<u8>, c: Rgb)
        ensures
            final(out)@ == old(out)@ + self@.format.stored_color(c),
    {
        if self.config.quantize_colors {
            out.push(quantize_color(c.0, c.1, c.2));
        } else {
            out.push(c.0);
            out.push(c.1);
            out.push(c.2);
        }
        assert(out@ =~= old(out)@ + self@.format.stored_color(c));
    }

    /// Whether two colours are stored differently.
    fn stored_differently(&self, a: Rgb, b: Rgb) -> (r: bool)
        ensures
            r == (self@.format.stored_color(a) != self@.format.stored_color(b)),
    {
        proof {
            let sa = self@.format.stored_color(a);
            let sb = self@.format.stored_color(b);
            if self.config.quantize_colors {
                assert(sa[0] == palette_index(a) && sb[0] == palette_index(b));
            } else {
                assert(sa[0] == a.0 && sa[1] == a.1 && sa[2] == a.2);
                assert(sb[0] == b.0 && sb[1] == b.1 && sb[2] == b.2);
            }
        }
        if self.config.quantize_colors {
            quantize_color(a.0, a.1, a.2) != quantize_color(b.0, b.1, b.2)
        } else {
            a.0 != b.0 || a.1 != b.1 || a.2 != b.2
        }
    }

    /// The payload of a keyframe.
    pub fn encode_keyframe(&self, frame: &RenderFrame) -> (r: Vec<u8>)
        ensures
            r@ == keyframe_payload(self@.format, frame@),
    {
        let derive: bool = self.config.derive_chars && self.color;
        let mut out: Vec<u8> = Vec::new();
        if derive {
            write_u32_le(&mut out, 0);
        } else {
            let flat = self.flat_text(frame);
            let rle = rle_encode(flat.as_slice());
            write_u32_le(&mut out, low32(rle.len()));
            push_bytes(&mut out, rle.as_slice());
        }
        assert(out@ =~= with_length(keyframe_text(self@.format, frame@)));
        let ghost before = out@;
        if self.color {
            match &frame.colors {
                Some(colors) => {
                    let data = self.flat_colors(colors);
                    write_u32_le(&mut out, low32(data.len()));
                    push_bytes(&mut out, data.as_slice());
                },
                None => {
                    write_u32_le(&mut out, 0);
                },
            }
        } else {
            write_u32_le(&mut out, 0);
        }
        assert(out@ =~= before + with_length(keyframe_colors(self@.format, frame@)));
        out
    }

    /// The bytes of all rows of text.
    fn flat_text(&self, frame: &RenderFrame) -> (r: Vec<u8>)
        ensures
            r@ == text_bytes(frame@.chars, frame@.chars.len()),
    {
        let mut flat: Vec<u8> = Vec::new();
        let mut y: usize = 0;
        while y < frame.chars.len()
            invariant
                y <= frame.chars.len(),
                flat@ == text_bytes(frame@.chars, y as nat),
            decreases frame.chars.len() - y,
        {
            push_bytes(&mut flat, frame.chars[y].as_str().as_bytes());
            y += 1;
        }
        flat
    }

    /// The stored colours of all rows.
    fn flat_colors(&self, rows: &Vec<Vec<Rgb>>) -> (r: Vec<u8>)
        ensures
            r@ == color_bytes(self@.format, color_rows(rows@), rows@.len()),
    {
        let mut data: Vec<u8> = Vec::new();
        let mut y: usize = 0;
        let ghost all = color_rows(rows@);
        while y < rows.len()
            invariant
                y <= rows.len(),
                all == color_rows(rows@),
                data@ == color_bytes(self@.format, all, y as nat),
            decreases rows.len() - y,
        {
            let row = &rows[y];
            let ghost before = data@;
            let mut x: usize = 0;
            assert(data@ =~= before + row_color_bytes(self@.format, row@, 0));
            while x < row.len()
                invariant
                    x <= row.len(),
                    data@ == before + row_color_bytes(self@.format, row@, x as nat),
                decreases row.len() - x,
            {
                self.push_color(&mut data, row[x]);
                x += 1;
                assert(data@ =~= before + row_color_bytes(self@.format, row@, x as nat));
            }
            y += 1;
        }
        data
    }

    /// Appends the name of a cell.
    fn push_name(&self, out: &mut Vec<u8>, x: usize, y: usize)
        ensures
            final(out)@ == old(out)@ + cell_name(self@.format, x as int, y as int),
    {
        if self.config.flat_indices {
            proof {
                assert(0 <= y * self.width <= 0xffff_ffff_ffff_ffff * 0xffff_ffff_ffff_ffff)
                    by (nonlinear_arith)
                    requires
                        0 <= y <= 0xffff_ffff_ffff_ffff,
                        0 <= self.width <= 0xffff_ffff_ffff_ffff,
                ;
            }
            write_u16_le(out, low16(y as u128 * self.width as u128 + x as u128));
        } else {
            write_u16_le(out, low16(x as u128));
            write_u16_le(out, low16(y as u128));
        }
        assert(out@ =~= old(out)@ + cell_name(self@.format, x as int, y as int));
    }

    /// The payload of a delta to the last stored frame, or nothing where
    /// nothing changed and such frames are skipped.
    pub fn encode_delta(&self, frame: &RenderFrame) -> (r: Result<Option<Vec<u8>>, TcamError>)
        ensures
            match self@.previous {
                None => r == Err::<Option<Vec<u8>>, TcamError>(TcamError::MissingPrevious),
                Some(before) => match r {
                    Ok(Some(data)) => delta_payload(self@.format, before, frame@) == Some(data@),
                    Ok(None) => delta_payload(self@.format, before, frame@) is None,
                    Err(_) => false,
                },
            },
    {
        let previous = match &self.previous {
            Some(previous) => previous,
            None => {
                return Err(TcamError::MissingPrevious);
            },
        };
        let ghost format = self@.format;
        let ghost before = previous@;
        let ghost after = frame@;
        let derive: bool = self.config.derive_chars && self.color;
        let mut changes: Vec<u8> = Vec::new();
        let mut y: usize = 0;
        assert(0 * self.width == 0);
        while y < self.height
            invariant
                y <= self.height,
                format == self@.format,
                before == previous@,
                after == frame@,
                derive == format.derives(),
                changes@ == change_entries(format, before, after, (y * self.width) as nat),
            decreases self.height - y,
        {
            let mut x: usize = 0;
            while x < self.width
                invariant
                    x <= self.width,
                    y < self.height,
                    format == self@.format,
                    before == previous@,
                    after == frame@,
                    derive == format.derives(),
                    0 <= y * self.width,
                    changes@ == change_entries(format, before, after, (y * self.width + x) as nat),
                decreases self.width - x,
            {
                let ch: u8 = byte_at(&frame.chars, x, y);
                let prev_ch: u8 = byte_at(&previous.chars, x, y);
                let ch_changed: bool = !derive && ch != prev_ch;
                let cur_color = color_at(&frame.colors, x, y);
                let prev_color = color_at(&previous.colors, x, y);
                let color_changed: bool = self.color && self.stored_differently(
                    prev_color,
                    cur_color,
                );
                let ghost start = changes@;
                proof {
                    lemma_cell_of(x as int, y as int, self.width as int);
                }
                if ch_changed || color_changed {
                    self.push_name(&mut changes, x, y);
                    if !derive {
                        changes.push(ch);
                    }
                    if self.color {
                        self.push_color(&mut changes, cur_color);
                    }
                    assert(changes@ =~= start + cell_entry(format, after, x as int, y as int));
                } else {
                    assert(changes@ =~= start + Seq::<u8>::empty());
                }
                x += 1;
            }
            proof {
                assert((y + 1) * self.width == y * self.width + self.width) by (nonlinear_arith);
            }
            y += 1;
        }
        proof {
            assert(self.height * self.width == self.width * self.height) by (nonlinear_arith);
            lemma_entries_size(format, before, after, cell_count(format));
        }
        let ghost count = change_count(format, before, after, cell_count(format));
        let entry_size: usize = (if self.config.flat_indices {
            2usize
        } else {
            4usize
        }) + (if derive {
            0usize
        } else {
            1usize
        }) + (if self.color {
            if self.config.quantize_colors {
                1usize
            } else {
                3usize
            }
        } else {
            0usize
        });
        proof {
            assert(entry_size == format.entry_size());
            vstd::arithmetic::div_mod::lemma_div_by_multiple(count as int, entry_size as int);
            assert(changes@.len() == count * entry_size);
            assert(count > 0 <==> count * entry_size > 0) by (nonlinear_arith)
                requires
                    entry_size > 0,
            ;
        }
        if self.config.skip_identical && changes.is_empty() {
            return Ok(None);
        }
        let mut out: Vec<u8> = Vec::new();
        write_u32_le(&mut out, low32(changes.len() / entry_size));
        push_bytes(&mut out, changes.as_slice());
        assert(out@ =~= le32(cut32(count as int)) + changes@);
        Ok(Some(out))
    }
}

/// The entry of a changed cell has the size that the format gives.
pub proof fn lemma_entry_size(format: Format, picture: Picture, x: int, y: int)
    ensures
        cell_entry(format, picture, x, y).len() == format.entry_size(),
{
}

/// The entries of changed cells take as many bytes as there are of them.
pub proof fn lemma_entries_size(format: Format, before: Picture, after: Picture, n: nat)
    ensures
        change_entries(format, before, after, n).len() == change_count(format, before, after, n)
            * format.entry_size(),
    decreases n,
{
    if n > 0 {
        let k = (n - 1) as nat;
        lemma_entries_size(format, before, after, k);
        let x = k as int % format.width;
        let y = k as int / format.width;
        lemma_entry_size(format, after, x, y);
        let c = change_count(format, before, after, k);
        assert((c + 1) * format.entry_size() == c * format.entry_size() + format.entry_size())
            by (nonlinear_arith);
    } else {
        assert(0 * format.entry_size() == 0);
    }
}

} // verus!
