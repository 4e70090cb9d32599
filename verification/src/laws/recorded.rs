//! What stands in a recording: its header, the time and the kind of each frame,
//! and the cells that are stored.
use vstd::prelude::*;
use vstd::utf8::encode_utf8;

use crate::decoder::opened;
use crate::encoder::{
    capped_time, frame_stream, next_payload, record_head, started, stored_frame, written_frame,
    Tape,
};
use crate::format::{Format, TcamError};
use crate::frame::Picture;
use crate::recording::RecordingConfig;
use crate::roundtrip::header::{headed, heading_for};
use crate::roundtrip::replay::{
    fills_size, gives_back, lemma_plain_recording_gives_back, lemma_written_frames_play_back,
    plays_back, stream_holds, writable, written_frames,
};

verus! {

/// The number that bytes stand for, least significant first.
pub open spec fn number_of(bytes: Seq<u8>) -> int
    decreases bytes.len(),
{
    if bytes.len() == 0 {
        0
    } else {
        bytes[0] + 256 * number_of(bytes.skip(1))
    }
}

/// The number that two bytes stand for.
pub proof fn lemma_two_bytes(s: Seq<u8>, i: int)
    requires
        0 <= i,
        i + 2 <= s.len(),
    ensures
        number_of(s.subrange(i, i + 2)) == s[i] + 256 * s[i + 1],
{
    let t = s.subrange(i, i + 2);
    assert(number_of(t.skip(1).skip(1)) == 0);
    assert(t.skip(1)[0] == s[i + 1]);
    assert(number_of(t.skip(1)) == s[i + 1]);
}

/// The number that four bytes stand for.
pub proof fn lemma_four_bytes(s: Seq<u8>, i: int)
    requires
        0 <= i,
        i + 4 <= s.len(),
    ensures
        number_of(s.subrange(i, i + 4)) == s[i] + 256 * s[i + 1] + 65536 * s[i + 2] + 16777216 * s[i
            + 3],
{
    let t = s.subrange(i, i + 4);
    let u = t.skip(1);
    let v = u.skip(1);
    let w = v.skip(1);
    assert(number_of(w.skip(1)) == 0);
    assert(u[0] == s[i + 1] && v[0] == s[i + 2] && w[0] == s[i + 3]);
    assert(number_of(w) == s[i + 3]);
    assert(number_of(v) == s[i + 2] + 256 * number_of(w));
    assert(number_of(u) == s[i + 1] + 256 * number_of(v));
}

/// Times are kept as they are, as far as 32 bits reach; later ones all count as
/// the last.
pub proof fn lemma_times_are_kept(elapsed_ms: u128)
    ensures
        elapsed_ms <= 0xffff_ffff ==> capped_time(elapsed_ms) == elapsed_ms,
        elapsed_ms > 0xffff_ffff ==> capped_time(elapsed_ms) == 0xffff_ffffu32,
{
}

/// What stands before the payload of a record.
proof fn lemma_head_layout(format: Format, clock: u32, kind: u8, now: u32, size: u32)
    ensures
        ({
            let head = record_head(format, clock, kind, now, size);
            let distance = now - clock;
            &&& head[0] == kind
            &&& !format.config.delta_timestamps ==> head.len() == 9 && number_of(
                head.subrange(1, 5),
            ) == now && number_of(head.subrange(5, 9)) == size
            &&& format.config.delta_timestamps ==> head.len() == 7 && number_of(
                head.subrange(3, 7),
            ) == size && number_of(head.subrange(1, 3)) == (if distance < 0 {
                0
            } else if distance > 65535 {
                65535
            } else {
                distance
            })
        }),
{
    let head = record_head(format, clock, kind, now, size);
    if format.config.delta_timestamps {
        lemma_two_bytes(head, 1);
        lemma_four_bytes(head, 3);
    } else {
        lemma_four_bytes(head, 1);
        lemma_four_bytes(head, 5);
    }
}

/// What stands where in bytes with a head and a payload behind them.
proof fn lemma_appended(before: Seq<u8>, head: Seq<u8>, payload: Seq<u8>, all: Seq<u8>)
    requires
        all == before + head + payload,
        head.len() >= 7,
    ensures
        ({
            let n = before.len() as int;
            let record = all.skip(n);
            &&& all.take(n) == before
            &&& record.len() == head.len() + payload.len()
            &&& record[0] == head[0]
            &&& record.subrange(1, 3) == head.subrange(1, 3)
            &&& record.subrange(3, 7) == head.subrange(3, 7)
            &&& head.len() >= 9 ==> record.subrange(1, 5) == head.subrange(1, 5) && record.subrange(
                5,
                9,
            ) == head.subrange(5, 9)
            &&& record.skip(head.len() as int) == payload
        }),
{
    let n = before.len() as int;
    let record = all.skip(n);
    assert(all.take(n) =~= before);
    assert(record =~= head + payload);
    assert(record.subrange(1, 3) =~= head.subrange(1, 3));
    assert(record.subrange(3, 7) =~= head.subrange(3, 7));
    if head.len() >= 9 {
        assert(record.subrange(1, 5) =~= head.subrange(1, 5));
        assert(record.subrange(5, 9) =~= head.subrange(5, 9));
    }
    assert(record.skip(head.len() as int) =~= payload);
}

/// A stored frame is a head and a payload behind what was written.
#[verifier::rlimit(40)]
proof fn lemma_stored_parts(tape: Tape, picture: Picture, now: u32, after: Tape) -> (parts: (
    u8,
    Seq<u8>,
))
    requires
        written_frame(tape, picture, now) == Ok::<Tape, TcamError>(after),
    ensures
        after.written == tape.written + record_head(
            tape.format,
            tape.clock,
            parts.0,
            now,
            (parts.1.len() % 0x1_0000_0000) as u32,
        ) + parts.1,
        after.clock == now,
        after.count == tape.count + 1,
        next_payload(tape, picture) matches Some((kind, _)) ==> parts.0 == kind && frame_stream(
            tape,
            picture,
        ) == Ok::<Seq<u8>, bool>(parts.1),
        next_payload(tape, picture) is None ==> parts.0 == 2 && parts.1.len() == 0,
{
    match next_payload(tape, picture) {
        Some((kind, _)) => {
            let stream = frame_stream(tape, picture)->Ok_0;
            (kind, stream)
        },
        None => {
            let none = Seq::<u8>::empty();
            assert(after.written =~= tape.written + record_head(
                tape.format,
                tape.clock,
                2,
                now,
                0,
            ) + none);
            (2, none)
        },
    }
}

/// What a stored frame adds to a recording with absolute times: its kind, the
/// elapsed milliseconds as four bytes, the length of its compressed payload as
/// four bytes, and the payload. What was written before stays.
#[verifier::rlimit(40)]
pub proof fn lemma_record_carries_elapsed_time(
    tape: Tape,
    picture: Picture,
    elapsed_ms: u128,
    after: Tape,
)
    requires
        stored_frame(tape, picture, elapsed_ms) == Ok::<Tape, TcamError>(after),
        !tape.format.config.delta_timestamps,
        elapsed_ms <= 0xffff_ffff,
    ensures
        ({
            let n = tape.written.len() as int;
            let record = after.written.skip(n);
            &&& after.written.len() >= n + 9
            &&& after.written.take(n) == tape.written
            &&& number_of(record.subrange(1, 5)) == elapsed_ms
            &&& number_of(record.subrange(5, 9)) == (record.len() - 9) % 0x1_0000_0000
            &&& record[0] == (match next_payload(tape, picture) {
                Some((kind, _)) => kind,
                None => 2u8,
            })
            &&& next_payload(tape, picture) is None ==> record.len() == 9
            &&& next_payload(tape, picture) is Some ==> Ok::<Seq<u8>, bool>(record.skip(9))
                == frame_stream(tape, picture)
        }),
        after.clock == elapsed_ms,
        after.count == tape.count + 1,
{
    let now = capped_time(elapsed_ms);
    lemma_times_are_kept(elapsed_ms);
    let (kind, payload) = lemma_stored_parts(tape, picture, now, after);
    let size = (payload.len() % 0x1_0000_0000) as u32;
    let head = record_head(tape.format, tape.clock, kind, now, size);
    lemma_head_layout(tape.format, tape.clock, kind, now, size);
    lemma_appended(tape.written, head, payload, after.written);
}

/// The same with times as distances: two bytes for the milliseconds since the
/// record before, as far as 16 bits reach, and nothing for a time that has gone
/// back.
#[verifier::rlimit(40)]
pub proof fn lemma_record_carries_distance(
    tape: Tape,
    picture: Picture,
    elapsed_ms: u128,
    after: Tape,
)
    requires
        stored_frame(tape, picture, elapsed_ms) == Ok::<Tape, TcamError>(after),
        tape.format.config.delta_timestamps,
        elapsed_ms <= 0xffff_ffff,
    ensures
        ({
            let n = tape.written.len() as int;
            let record = after.written.skip(n);
            let distance = elapsed_ms - tape.clock;
            &&& after.written.len() >= n + 7
            &&& after.written.take(n) == tape.written
            &&& 0 <= distance <= 65535 ==> number_of(record.subrange(1, 3)) == distance
            &&& distance > 65535 ==> number_of(record.subrange(1, 3)) == 65535
            &&& distance < 0 ==> number_of(record.subrange(1, 3)) == 0
            &&& number_of(record.subrange(3, 7)) == (record.len() - 7) % 0x1_0000_0000
            &&& record[0] == (match next_payload(tape, picture) {
                Some((kind, _)) => kind,
                None => 2u8,
            })
            &&& next_payload(tape, picture) is None ==> record.len() == 7
            &&& next_payload(tape, picture) is Some ==> Ok::<Seq<u8>, bool>(record.skip(7))
                == frame_stream(tape, picture)
        }),
        after.clock == elapsed_ms,
        after.count == tape.count + 1,
{
    let now = capped_time(elapsed_ms);
    lemma_times_are_kept(elapsed_ms);
    let (kind, payload) = lemma_stored_parts(tape, picture, now, after);
    let size = (payload.len() % 0x1_0000_0000) as u32;
    let head = record_head(tape.format, tape.clock, kind, now, size);
    lemma_head_layout(tape.format, tape.clock, kind, now, size);
    lemma_appended(tape.written, head, payload, after.written);
}

/// A recording after its first `n` frames have been stored, each an elapsed time
/// after its start.
pub open spec fn stored_frames(
    tape: Tape,
    frames: Seq<Picture>,
    elapsed: Seq<u128>,
    n: nat,
) -> Result<Tape, TcamError>
    decreases n,
{
    if n == 0 {
        Ok(tape)
    } else {
        match stored_frames(tape, frames, elapsed, (n - 1) as nat) {
            Ok(before) => stored_frame(before, frames[n - 1], elapsed[n - 1]),
            Err(e) => Err(e),
        }
    }
}

/// The elapsed times as they are read.
pub open spec fn as_read(elapsed: Seq<u128>) -> Seq<u32> {
    Seq::new(elapsed.len(), |i: int| elapsed[i] as u32)
}

proof fn lemma_stored_are_written(tape: Tape, frames: Seq<Picture>, elapsed: Seq<u128>, n: nat)
    requires
        n <= elapsed.len(),
        forall|i: int| 0 <= i < elapsed.len() ==> #[trigger] elapsed[i] <= 0xffff_ffff,
    ensures
        stored_frames(tape, frames, elapsed, n) == written_frames(
            tape,
            frames,
            as_read(elapsed),
            n,
        ),
    decreases n,
{
    if n > 0 {
        lemma_stored_are_written(tape, frames, elapsed, (n - 1) as nat);
        assert(elapsed[n - 1] <= 0xffff_ffff);
        lemma_times_are_kept(elapsed[n - 1]);
        assert(capped_time(elapsed[n - 1]) == as_read(elapsed)[n - 1]);
    }
}

/// A recording whose settings store colours, characters and times as they are
/// reads back as the same frames, each at exactly the milliseconds that had
/// elapsed when it was stored; and then there is nothing more.
pub proof fn lemma_recording_keeps_elapsed_times(
    width: u16,
    height: u16,
    fps: u8,
    ramp: Seq<char>,
    color: bool,
    config: RecordingConfig,
    frames: Seq<Picture>,
    elapsed: Seq<u128>,
)
    requires
        1 <= width * height <= 65535,
        !config.quantize_colors,
        !(config.derive_chars && color),
        !config.delta_timestamps,
        1 <= encode_utf8(ramp).len() <= 255,
        frames.len() == elapsed.len(),
        forall|i: int| 0 <= i < elapsed.len() ==> #[trigger] elapsed[i] <= 0xffff_ffff,
        forall|i: int|
            0 <= i < frames.len() ==> fills_size(#[trigger] frames[i], width, height, color),
        stored_frames(
            started(width as int, height as int, fps, ramp, color, config),
            frames,
            elapsed,
            frames.len(),
        ) is Ok,
        forall|i: nat|
            i < frames.len() ==> stream_holds(
                (#[trigger] stored_frames(
                    started(width as int, height as int, fps, ramp, color, config),
                    frames,
                    elapsed,
                    i,
                ))->Ok_0,
                frames[i as int],
            ),
    ensures
        ({
            let tape = started(width as int, height as int, fps, ramp, color, config);
            let bytes = stored_frames(tape, frames, elapsed, frames.len())->Ok_0.written;
            let heading = heading_for(width, height, fps, ramp, color, config);
            &&& headed(bytes, heading)
            &&& gives_back(opened(heading, bytes), frames, as_read(elapsed))
            &&& forall|i: int| 0 <= i < elapsed.len() ==> #[trigger] as_read(elapsed)[i] == elapsed[i]
        }),
{
    let tape = started(width as int, height as int, fps, ramp, color, config);
    let times = as_read(elapsed);
    lemma_stored_are_written(tape, frames, elapsed, frames.len());
    assert forall|i: nat| i < frames.len() implies stream_holds(
        (#[trigger] written_frames(tape, frames, times, i))->Ok_0,
        frames[i as int],
    ) by {
        lemma_stored_are_written(tape, frames, elapsed, i);
        assert(stream_holds(stored_frames(tape, frames, elapsed, i)->Ok_0, frames[i as int]));
    }
    lemma_plain_recording_gives_back(width, height, fps, ramp, color, config, frames, times);
    assert forall|i: int| 0 <= i < elapsed.len() implies #[trigger] as_read(elapsed)[i]
        == elapsed[i] by {
        assert(elapsed[i] <= 0xffff_ffff);
    }
}

/// A recording of any settings, with its frames stored in order and none more
/// than 65535 milliseconds after the one before where times are distances, plays
/// back at exactly the milliseconds that had elapsed.
pub proof fn lemma_playback_keeps_elapsed_times(
    width: u16,
    height: u16,
    fps: u8,
    ramp: Seq<char>,
    color: bool,
    config: RecordingConfig,
    frames: Seq<Picture>,
    elapsed: Seq<u128>,
)
    requires
        encode_utf8(ramp).len() <= 255,
        frames.len() == elapsed.len(),
        forall|i: int| 0 <= i < elapsed.len() ==> #[trigger] elapsed[i] <= 0xffff_ffff,
        stored_frames(
            started(width as int, height as int, fps, ramp, color, config),
            frames,
            elapsed,
            frames.len(),
        ) is Ok,
        forall|i: nat|
            i < frames.len() ==> writable(
                (#[trigger] stored_frames(
                    started(width as int, height as int, fps, ramp, color, config),
                    frames,
                    elapsed,
                    i,
                ))->Ok_0,
                crate::render::ramp_table(ramp),
                frames[i as int],
                as_read(elapsed)[i as int],
            ),
    ensures
        ({
            let tape = started(width as int, height as int, fps, ramp, color, config);
            let bytes = stored_frames(tape, frames, elapsed, frames.len())->Ok_0.written;
            let heading = heading_for(width, height, fps, ramp, color, config);
            &&& headed(bytes, heading)
            &&& plays_back(opened(heading, bytes), frames, as_read(elapsed))
            &&& forall|i: int| 0 <= i < elapsed.len() ==> #[trigger] as_read(elapsed)[i] == elapsed[i]
        }),
{
    let tape = started(width as int, height as int, fps, ramp, color, config);
    let times = as_read(elapsed);
    lemma_stored_are_written(tape, frames, elapsed, frames.len());
    assert forall|i: nat| i < frames.len() implies writable(
        (#[trigger] written_frames(tape, frames, times, i))->Ok_0,
        crate::render::ramp_table(ramp),
        frames[i as int],
        times[i as int],
    ) by {
        lemma_stored_are_written(tape, frames, elapsed, i);
        assert(writable(
            stored_frames(tape, frames, elapsed, i)->Ok_0,
            crate::render::ramp_table(ramp),
            frames[i as int],
            as_read(elapsed)[i as int],
        ));
    }
    lemma_written_frames_play_back(width, height, fps, ramp, color, config, frames, times);
    assert forall|i: int| 0 <= i < elapsed.len() implies #[trigger] as_read(elapsed)[i]
        == elapsed[i] by {
        assert(elapsed[i] <= 0xffff_ffff);
    }
}

} // verus!
