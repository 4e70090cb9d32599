//! What is read of a record, and of a whole recording, is what was written.
use vstd::prelude::*;
use vstd::utf8::{encode_utf8, is_ascii_chars};

use crate::decoder::{next_is_sound, next_record, opened, payload_start, read_next, Player};
use crate::encoder::{
    after_frame, frame_stream, next_payload, payload_reads_back, record_head, started, time_bytes,
    written_frame, Tape,
};
use crate::format::{cut32, Format, TcamError, TCAM_KEYFRAME, TCAM_SKIP};
use crate::frame::Picture;
use crate::recording::RecordingConfig;
use crate::render::ramp_table;
use crate::roundtrip::{
    carries, fills, keyframe_fits, lemma_le32_at, names_cells, played, played_colors,
};
use crate::roundtrip::delta::lemma_delta_plays_back;
use crate::roundtrip::header::{headed, heading_for, lemma_header_reads_back};
use crate::roundtrip::keyframe::{lemma_keyframe_fits, lemma_keyframe_plays_back};
use crate::wire::{le16_at, le32, zlib_inflated};

verus! {

/// The bytes that a frame adds to a recording.
#[verifier::opaque]
pub open spec fn record_of(tape: Tape, picture: Picture, now: u32, stream: Seq<u8>) -> Seq<u8> {
    match next_payload(tape, picture) {
        Some((kind, _)) => record_head(
            tape.format,
            tape.clock,
            kind,
            now,
            cut32(stream.len() as int),
        ) + stream,
        None => record_head(tape.format, tape.clock, TCAM_SKIP, now, 0),
    }
}

/// Whether a frame can be recorded so that nothing of it is lost: the
/// recording carries it, its parts and its stream are short enough for their
/// lengths to be written, the stream is its payload, and the time since the
/// record before can be written.
#[verifier::opaque]
pub open spec fn recordable(
    tape: Tape,
    lut: Seq<char>,
    picture: Picture,
    now: u32,
    stream: Seq<u8>,
) -> bool {
    &&& carries(tape.format, picture)
    &&& names_cells(tape.format, lut)
    &&& match next_payload(tape, picture) {
        Some((kind, data)) => {
            &&& kind == TCAM_KEYFRAME ==> keyframe_fits(tape.format, picture)
            &&& zlib_inflated(stream) == Ok::<Seq<u8>, bool>(data)
            &&& stream.len() <= u32::MAX
        },
        None => true,
    }
    &&& tape.format.config.delta_timestamps ==> tape.clock <= now <= tape.clock + 65535
}

/// Whether playback has come as far as a recording: it shows the last picture
/// stored and its clock stands at the last record.
#[verifier::opaque]
pub open spec fn in_step(tape: Tape, player: Player) -> bool {
    &&& tape.format == player.format
    &&& tape.previous matches Some(before) ==> carries(tape.format, before) && player.current
        == played(tape.format, player.lut, before)
    &&& tape.format.config.delta_timestamps ==> tape.clock == player.clock
}

/// Playback once it has read a frame.
pub open spec fn player_after(player: Player, picture: Picture, now: u32, tail: Seq<u8>) -> Player {
    Player {
        current: played(player.format, player.lut, picture),
        clock: if player.format.config.delta_timestamps {
            now
        } else {
            player.clock
        },
        rest: tail,
        ..player
    }
}

/// A record falls into its parts.
proof fn lemma_record_parts(
    player: Player,
    clock: u32,
    kind: u8,
    now: u32,
    payload: Seq<u8>,
    tail: Seq<u8>,
)
    requires
        player.rest == record_head(player.format, clock, kind, now, cut32(payload.len() as int))
            + payload + tail,
        payload.len() <= u32::MAX,
        player.format.config.delta_timestamps ==> player.clock == clock && clock <= now <= clock
            + 65535,
    ensures
        next_record(player) == (
            Player {
                rest: tail,
                clock: if player.format.config.delta_timestamps {
                    now
                } else {
                    player.clock
                },
                ..player
            },
            Ok::<Option<(u8, u32, Seq<u8>)>, TcamError>(Some((kind, now, payload))),
        ),
{
    let format = player.format;
    let rest = player.rest;
    let time = time_bytes(format, clock, now);
    let size = le32(cut32(payload.len() as int));
    let start = payload_start(format);
    let end = start + payload.len();
    lemma_record_layout(seq![kind], time, size, payload, tail);
    assert(time.len() == format.time_size());
    assert(rest[0] == kind);
    if format.config.delta_timestamps {
        assert(time[0] == rest[1] && time[1] == rest[2]);
        assert(le16_at(rest, 1) == now - clock);
    } else {
        lemma_le32_at(rest, 1, now);
    }
    lemma_le32_at(rest, 1 + time.len() as int, cut32(payload.len() as int));
}

/// The parts of a record lie where their lengths say.
proof fn lemma_record_layout(
    kind: Seq<u8>,
    time: Seq<u8>,
    size: Seq<u8>,
    payload: Seq<u8>,
    tail: Seq<u8>,
)
    requires
        kind.len() == 1,
        size.len() == 4,
    ensures
        ({
            let s = kind + time + size + payload + tail;
            let t = 1 + time.len() as int;
            let start = t + 4;
            let end = start + payload.len();
            &&& s.len() == end + tail.len()
            &&& s[0] == kind[0]
            &&& s.subrange(1, t) == time
            &&& forall|i: int| 0 <= i < time.len() ==> s[1 + i] == #[trigger] time[i]
            &&& s.subrange(t, start) == size
            &&& s.subrange(start, end) == payload
            &&& s.skip(end) == tail
        }),
{
    let s = kind + time + size + payload + tail;
    let t = 1 + time.len() as int;
    let start = t + 4;
    let end = start + payload.len();
    assert(s.subrange(1, t) =~= time);
    assert(s.subrange(t, start) =~= size);
    assert(s.subrange(start, end) =~= payload);
    assert(s.skip(end) =~= tail);
}

/// A recorded frame plays back: reading its record shows it at its time,
/// leaves the bytes after it, and keeps playback in step with the recording.
pub proof fn lemma_frame_plays_back(
    tape: Tape,
    player: Player,
    picture: Picture,
    now: u32,
    stream: Seq<u8>,
    tail: Seq<u8>,
)
    requires
        in_step(tape, player),
        recordable(tape, player.lut, picture, now, stream),
        player.rest == record_of(tape, picture, now, stream) + tail,
    ensures
        next_is_sound(player),
        read_next(player).0 == player_after(player, picture, now, tail),
        read_next(player).1 == Ok::<Option<(Picture, u32)>, TcamError>(
            Some((played(player.format, player.lut, picture), now)),
        ),
        in_step(
            after_frame(tape, picture, now, stream),
            player_after(player, picture, now, tail),
        ),
{
    reveal(record_of);
    reveal(recordable);
    reveal(in_step);
    match next_payload(tape, picture) {
        Some((kind, data)) => {
            lemma_record_parts(player, tape.clock, kind, now, stream, tail);
            if kind == TCAM_KEYFRAME {
                lemma_keyframe_plays_back(player.format, player.lut, player.current, picture);
            } else {
                lemma_delta_plays_back(player.format, player.lut, tape.previous->0, picture);
            }
        },
        None => {
            assert(player.rest =~= record_head(player.format, tape.clock, TCAM_SKIP, now, 0)
                + Seq::<u8>::empty() + tail);
            lemma_record_parts(player, tape.clock, TCAM_SKIP, now, Seq::empty(), tail);
            lemma_delta_plays_back(player.format, player.lut, tape.previous->0, picture);
        },
    }
}

/// A recording after a frame.
#[verifier::opaque]
pub open spec fn with_frame(tape: Tape, picture: Picture, now: u32, stream: Seq<u8>) -> Tape {
    after_frame(tape, picture, now, stream)
}

/// A recording after its first `n` frames.
pub open spec fn recorded(
    tape: Tape,
    frames: Seq<Picture>,
    times: Seq<u32>,
    streams: Seq<Seq<u8>>,
    n: nat,
) -> Tape
    decreases n,
{
    if n == 0 {
        tape
    } else {
        let i = n - 1;
        with_frame(
            recorded(tape, frames, times, streams, i as nat),
            frames[i],
            times[i],
            streams[i],
        )
    }
}

/// Playback after a read.
#[verifier::opaque]
pub open spec fn after_read(player: Player) -> Player {
    read_next(player).0
}

/// Whether the next read shows a picture at a time.
#[verifier::opaque]
pub open spec fn next_shows(player: Player, picture: Picture, time: u32) -> bool {
    &&& next_is_sound(player)
    &&& read_next(player).1 == Ok::<Option<(Picture, u32)>, TcamError>(Some((picture, time)))
}

/// Whether the next read finds the end of the recording.
#[verifier::opaque]
pub open spec fn at_end(player: Player) -> bool {
    &&& next_is_sound(player)
    &&& read_next(player).1 == Ok::<Option<(Picture, u32)>, TcamError>(None)
}

/// Playback after `n` reads.
pub open spec fn replayed(player: Player, n: nat) -> Player
    decreases n,
{
    if n == 0 {
        player
    } else {
        after_read(replayed(player, (n - 1) as nat))
    }
}

/// A frame adds its record to a recording.
proof fn lemma_frame_appends(tape: Tape, picture: Picture, now: u32, stream: Seq<u8>)
    ensures
        with_frame(tape, picture, now, stream).written == tape.written + record_of(
            tape,
            picture,
            now,
            stream,
        ),
{
    reveal(with_frame);
    reveal(record_of);
    assert(after_frame(tape, picture, now, stream).written =~= tape.written + record_of(
        tape,
        picture,
        now,
        stream,
    ));
}

/// Taking the written bytes between frames changes nothing in what is recorded:
/// a frame adds the same record, and all else stays the same.
pub proof fn lemma_taking_keeps_the_recording(
    tape: Tape,
    picture: Picture,
    now: u32,
    stream: Seq<u8>,
)
    ensures
        after_frame(tape, picture, now, stream).written == tape.written + record_of(
            tape,
            picture,
            now,
            stream,
        ),
        after_frame((Tape { written: Seq::empty(), ..tape }), picture, now, stream) == (Tape {
            written: record_of(tape, picture, now, stream),
            ..after_frame(tape, picture, now, stream)
        }),
{
    reveal(record_of);
    let taken = Tape { written: Seq::empty(), ..tape };
    let record = record_of(tape, picture, now, stream);
    assert(after_frame(tape, picture, now, stream).written =~= tape.written + record);
    assert(after_frame(taken, picture, now, stream).written =~= record);
}

/// A read shows the frame that was recorded next and stays in step.
proof fn lemma_read_in_step(
    tape: Tape,
    player: Player,
    picture: Picture,
    now: u32,
    stream: Seq<u8>,
    tail: Seq<u8>,
)
    requires
        in_step(tape, player),
        recordable(tape, player.lut, picture, now, stream),
        player.rest == record_of(tape, picture, now, stream) + tail,
    ensures
        next_shows(player, played(player.format, player.lut, picture), now),
        in_step(with_frame(tape, picture, now, stream), after_read(player)),
        after_read(player).rest == tail,
        after_read(player).lut == player.lut,
        after_read(player).format == player.format,
{
    reveal(with_frame);
    reveal(after_read);
    reveal(next_shows);
    lemma_frame_plays_back(tape, player, picture, now, stream, tail);
}

/// What a recording holds once it stays the beginning of what it holds later.
proof fn lemma_recording_grows(
    tape: Tape,
    frames: Seq<Picture>,
    times: Seq<u32>,
    streams: Seq<Seq<u8>>,
    i: nat,
    n: nat,
)
    requires
        i <= n,
    ensures
        recorded(tape, frames, times, streams, i).written.len() <= recorded(
            tape,
            frames,
            times,
            streams,
            n,
        ).written.len(),
        recorded(tape, frames, times, streams, n).written.take(
            recorded(tape, frames, times, streams, i).written.len() as int,
        ) == recorded(tape, frames, times, streams, i).written,
    decreases n - i,
{
    let early = recorded(tape, frames, times, streams, i).written;
    let all = recorded(tape, frames, times, streams, n).written;
    if i < n {
        lemma_recording_grows(tape, frames, times, streams, i + 1, n);
        let before = recorded(tape, frames, times, streams, i);
        let next = recorded(tape, frames, times, streams, i + 1).written;
        lemma_frame_appends(before, frames[i as int], times[i as int], streams[i as int]);
        assert(next.take(early.len() as int) =~= early);
        assert(all.take(early.len() as int) =~= all.take(next.len() as int).take(
            early.len() as int,
        ));
    } else {
        assert(all.take(all.len() as int) =~= all);
    }
}

/// Whether every frame of a recording can be recorded so that nothing of it is
/// lost.
pub open spec fn all_recordable(
    tape: Tape,
    lut: Seq<char>,
    frames: Seq<Picture>,
    times: Seq<u32>,
    streams: Seq<Seq<u8>>,
) -> bool {
    &&& frames.len() == times.len()
    &&& frames.len() == streams.len()
    &&& forall|i: nat|
        i < frames.len() ==> recordable(
            #[trigger] recorded(tape, frames, times, streams, i),
            lut,
            frames[i as int],
            times[i as int],
            streams[i as int],
        )
}

/// Whether playback has read the first `i` frames of a recording: it is in
/// step, and what is left to read is what was written after them.
spec fn has_read(
    tape: Tape,
    player: Player,
    frames: Seq<Picture>,
    times: Seq<u32>,
    streams: Seq<Seq<u8>>,
    i: nat,
) -> bool {
    &&& in_step(recorded(tape, frames, times, streams, i), player)
    &&& player.rest == recorded(tape, frames, times, streams, frames.len()).written.skip(
        recorded(tape, frames, times, streams, i).written.len() as int,
    )
}

/// The next read shows the next frame.
proof fn lemma_replay_one(
    tape: Tape,
    player: Player,
    frames: Seq<Picture>,
    times: Seq<u32>,
    streams: Seq<Seq<u8>>,
    i: nat,
)
    requires
        i < frames.len(),
        recordable(
            recorded(tape, frames, times, streams, i),
            player.lut,
            frames[i as int],
            times[i as int],
            streams[i as int],
        ),
        has_read(tape, player, frames, times, streams, i),
    ensures
        next_shows(
            player,
            played(player.format, player.lut, frames[i as int]),
            times[i as int],
        ),
        has_read(tape, after_read(player), frames, times, streams, i + 1),
        after_read(player).lut == player.lut,
        after_read(player).format == player.format,
{
    let k = i as int;
    let all = recorded(tape, frames, times, streams, frames.len()).written;
    let before = recorded(tape, frames, times, streams, i);
    let after = recorded(tape, frames, times, streams, i + 1);
    lemma_recording_grows(tape, frames, times, streams, i, frames.len());
    lemma_recording_grows(tape, frames, times, streams, i + 1, frames.len());
    let record = record_of(before, frames[k], times[k], streams[k]);
    let tail = all.skip(after.written.len() as int);
    lemma_frame_appends(before, frames[k], times[k], streams[k]);
    assert(all =~= all.take(after.written.len() as int) + tail);
    assert(all.skip(before.written.len() as int) =~= record + tail);
    lemma_read_in_step(before, player, frames[k], times[k], streams[k], tail);
}

/// After as many reads, playback has read as many frames.
proof fn lemma_replay_reads(
    tape: Tape,
    player: Player,
    frames: Seq<Picture>,
    times: Seq<u32>,
    streams: Seq<Seq<u8>>,
    i: nat,
)
    requires
        all_recordable(tape, player.lut, frames, times, streams),
        i <= frames.len(),
        has_read(tape, player, frames, times, streams, 0),
    ensures
        replayed(player, i).lut == player.lut,
        replayed(player, i).format == player.format,
        has_read(tape, replayed(player, i), frames, times, streams, i),
    decreases i,
{
    if i > 0 {
        let k = (i - 1) as nat;
        lemma_replay_reads(tape, player, frames, times, streams, k);
        assert(recordable(
            recorded(tape, frames, times, streams, k),
            player.lut,
            frames[k as int],
            times[k as int],
            streams[k as int],
        ));
        lemma_replay_one(tape, replayed(player, k), frames, times, streams, k);
    }
}

/// Whether reads show frames at their times, one after the other, and nothing
/// more after the last.
pub open spec fn plays_back(player: Player, frames: Seq<Picture>, times: Seq<u32>) -> bool {
    &&& forall|i: int|
        0 <= i < frames.len() ==> next_shows(
            replayed(player, i as nat),
            played(player.format, player.lut, #[trigger] frames[i]),
            times[i],
        )
    &&& at_end(replayed(player, frames.len()))
}

/// Where no bytes are left, there is nothing more.
proof fn lemma_nothing_more(player: Player)
    requires
        player.rest.len() == 0,
    ensures
        at_end(player),
{
    reveal(at_end);
}

/// A recording that has been read up to its first frame plays back.
proof fn lemma_frames_play_back(
    tape: Tape,
    player: Player,
    frames: Seq<Picture>,
    times: Seq<u32>,
    streams: Seq<Seq<u8>>,
)
    requires
        all_recordable(tape, player.lut, frames, times, streams),
        has_read(tape, player, frames, times, streams, 0),
    ensures
        plays_back(player, frames, times),
{
    assert forall|i: int| 0 <= i < frames.len() implies next_shows(
        replayed(player, i as nat),
        played(player.format, player.lut, #[trigger] frames[i]),
        times[i],
    ) by {
        lemma_replay_reads(tape, player, frames, times, streams, i as nat);
        assert(recordable(
            recorded(tape, frames, times, streams, i as nat),
            player.lut,
            frames[i],
            times[i],
            streams[i],
        ));
        lemma_replay_one(tape, replayed(player, i as nat), frames, times, streams, i as nat);
    }
    lemma_replay_reads(tape, player, frames, times, streams, frames.len());
    lemma_nothing_more(replayed(player, frames.len()));
}

/// What a recording started with comes first in it.
proof fn lemma_written_first(
    tape: Tape,
    frames: Seq<Picture>,
    times: Seq<u32>,
    streams: Seq<Seq<u8>>,
)
    ensures
        recorded(tape, frames, times, streams, frames.len()).written == tape.written + recorded(
            tape,
            frames,
            times,
            streams,
            frames.len(),
        ).written.skip(tape.written.len() as int),
{
    lemma_recording_grows(tape, frames, times, streams, 0, frames.len());
    let bytes = recorded(tape, frames, times, streams, frames.len()).written;
    let size = tape.written.len() as int;
    assert(recorded(tape, frames, times, streams, 0) == tape);
    assert(bytes =~= bytes.take(size) + bytes.skip(size));
}

/// Before the first frame playback has read none.
proof fn lemma_before_first_frame(
    tape: Tape,
    player: Player,
    frames: Seq<Picture>,
    times: Seq<u32>,
    streams: Seq<Seq<u8>>,
)
    requires
        tape.previous is None,
        tape.format == player.format,
        tape.clock == player.clock,
        player.rest == recorded(tape, frames, times, streams, frames.len()).written.skip(
            tape.written.len() as int,
        ),
    ensures
        has_read(tape, player, frames, times, streams, 0),
{
    reveal(in_step);
    assert(recorded(tape, frames, times, streams, 0) == tape);
}

/// What was recorded plays back: the header of the recording reads back, every
/// read shows the next recorded frame at its time, and after the last frame
/// there is nothing more.
pub proof fn lemma_recording_plays_back(
    width: u16,
    height: u16,
    fps: u8,
    ramp: Seq<char>,
    color: bool,
    config: RecordingConfig,
    frames: Seq<Picture>,
    times: Seq<u32>,
    streams: Seq<Seq<u8>>,
)
    requires
        encode_utf8(ramp).len() <= 255,
        all_recordable(
            started(width as int, height as int, fps, ramp, color, config),
            ramp_table(ramp),
            frames,
            times,
            streams,
        ),
    ensures
        ({
            let tape = started(width as int, height as int, fps, ramp, color, config);
            let bytes = recorded(tape, frames, times, streams, frames.len()).written;
            let heading = heading_for(width, height, fps, ramp, color, config);
            &&& headed(bytes, heading)
            &&& opened(heading, bytes).format == tape.format
            &&& plays_back(opened(heading, bytes), frames, times)
        }),
{
    let tape = started(width as int, height as int, fps, ramp, color, config);
    let bytes = recorded(tape, frames, times, streams, frames.len()).written;
    let heading = heading_for(width, height, fps, ramp, color, config);
    lemma_written_first(tape, frames, times, streams);
    lemma_header_reads_back(
        width,
        height,
        fps,
        ramp,
        color,
        config,
        bytes.skip(tape.written.len() as int),
    );
    lemma_before_first_frame(tape, opened(heading, bytes), frames, times, streams);
    lemma_frames_play_back(tape, opened(heading, bytes), frames, times, streams);
}

/// A recording after its first `n` frames have been written, or why one could
/// not be.
pub open spec fn written_frames(
    tape: Tape,
    frames: Seq<Picture>,
    times: Seq<u32>,
    n: nat,
) -> Result<Tape, TcamError>
    decreases n,
{
    if n == 0 {
        Ok(tape)
    } else {
        match written_frames(tape, frames, times, (n - 1) as nat) {
            Ok(before) => written_frame(before, frames[n - 1], times[n - 1]),
            Err(e) => Err(e),
        }
    }
}

/// The compressed payloads of frames.
#[verifier::opaque]
spec fn streams_of(tape: Tape, frames: Seq<Picture>, times: Seq<u32>) -> Seq<Seq<u8>> {
    Seq::new(
        frames.len(),
        |i: int|
            frame_stream(written_frames(tape, frames, times, i as nat)->Ok_0, frames[i])->Ok_0,
    )
}

/// Frames that are written are recorded with their compressed payloads.
proof fn lemma_written_are_recorded(
    tape: Tape,
    frames: Seq<Picture>,
    times: Seq<u32>,
    streams: Seq<Seq<u8>>,
    n: nat,
)
    requires
        n <= frames.len(),
        streams == streams_of(tape, frames, times),
        written_frames(tape, frames, times, n) is Ok,
    ensures
        written_frames(tape, frames, times, n) == Ok::<Tape, TcamError>(
            recorded(tape, frames, times, streams, n),
        ),
    decreases n,
{
    if n > 0 {
        let k = (n - 1) as nat;
        lemma_written_are_recorded(tape, frames, times, streams, k);
        let before = recorded(tape, frames, times, streams, k);
        lemma_written_frame(before, frames[k as int], times[k as int]);
        assert(streams[k as int] == frame_stream(before, frames[k as int])->Ok_0) by {
            reveal(streams_of);
        }
    }
}

/// A frame that is written is recorded with its compressed payload.
proof fn lemma_written_frame(tape: Tape, picture: Picture, now: u32)
    requires
        written_frame(tape, picture, now) is Ok,
    ensures
        written_frame(tape, picture, now) == Ok::<Tape, TcamError>(
            with_frame(tape, picture, now, frame_stream(tape, picture)->Ok_0),
        ),
{
    reveal(with_frame);
}

/// Whether the compressed payload of a frame is read back as the payload, and
/// is short enough for its length to be written.
#[verifier::opaque]
pub open spec fn stream_holds(tape: Tape, picture: Picture) -> bool {
    &&& payload_reads_back(tape, picture)
    &&& frame_stream(tape, picture)->Ok_0.len() <= u32::MAX
}

/// Whether a frame can be written so that nothing of it is lost: as for a frame
/// that is recorded, with its own compressed payload.
pub open spec fn writable(tape: Tape, lut: Seq<char>, picture: Picture, now: u32) -> bool {
    &&& carries(tape.format, picture)
    &&& names_cells(tape.format, lut)
    &&& keyframe_fits(tape.format, picture)
    &&& stream_holds(tape, picture)
    &&& tape.format.config.delta_timestamps ==> tape.clock <= now <= tape.clock + 65535
}

proof fn lemma_writable_is_recordable(tape: Tape, lut: Seq<char>, picture: Picture, now: u32)
    requires
        writable(tape, lut, picture, now),
    ensures
        recordable(tape, lut, picture, now, frame_stream(tape, picture)->Ok_0),
{
    reveal(recordable);
    reveal(stream_holds);
}

/// What was written plays back: the header of the recording reads back, every
/// read shows the next frame at its time, and after the last frame there is
/// nothing more.
pub proof fn lemma_written_frames_play_back(
    width: u16,
    height: u16,
    fps: u8,
    ramp: Seq<char>,
    color: bool,
    config: RecordingConfig,
    frames: Seq<Picture>,
    times: Seq<u32>,
)
    requires
        encode_utf8(ramp).len() <= 255,
        frames.len() == times.len(),
        written_frames(
            started(width as int, height as int, fps, ramp, color, config),
            frames,
            times,
            frames.len(),
        ) is Ok,
        forall|i: nat|
            i < frames.len() ==> writable(
                (#[trigger] written_frames(
                    started(width as int, height as int, fps, ramp, color, config),
                    frames,
                    times,
                    i,
                ))->Ok_0,
                ramp_table(ramp),
                frames[i as int],
                times[i as int],
            ),
    ensures
        ({
            let tape = started(width as int, height as int, fps, ramp, color, config);
            let bytes = written_frames(tape, frames, times, frames.len())->Ok_0.written;
            let heading = heading_for(width, height, fps, ramp, color, config);
            &&& headed(bytes, heading)
            &&& opened(heading, bytes).format == tape.format
            &&& plays_back(opened(heading, bytes), frames, times)
        }),
{
    let tape = started(width as int, height as int, fps, ramp, color, config);
    lemma_all_recordable(tape, ramp_table(ramp), frames, times);
    let streams = streams_of(tape, frames, times);
    lemma_written_are_recorded(tape, frames, times, streams, frames.len());
    lemma_recording_plays_back(
        width,
        height,
        fps,
        ramp,
        color,
        config,
        frames,
        times,
        streams,
    );
}

proof fn lemma_all_recordable(
    tape: Tape,
    lut: Seq<char>,
    frames: Seq<Picture>,
    times: Seq<u32>,
)
    requires
        frames.len() == times.len(),
        written_frames(tape, frames, times, frames.len()) is Ok,
        forall|i: nat|
            i < frames.len() ==> writable(
                (#[trigger] written_frames(tape, frames, times, i))->Ok_0,
                lut,
                frames[i as int],
                times[i as int],
            ),
    ensures
        all_recordable(tape, lut, frames, times, streams_of(tape, frames, times)),
{
    let streams = streams_of(tape, frames, times);
    assert(streams.len() == frames.len()) by {
        reveal(streams_of);
    }
    assert forall|i: nat| i < frames.len() implies recordable(
        #[trigger] recorded(tape, frames, times, streams, i),
        lut,
        frames[i as int],
        times[i as int],
        streams[i as int],
    ) by {
        let before = recorded(tape, frames, times, streams, i);
        lemma_written_format(tape, frames, times, i, frames.len());
        lemma_written_are_recorded(tape, frames, times, streams, i);
        assert(streams[i as int] == frame_stream(before, frames[i as int])->Ok_0) by {
            reveal(streams_of);
        }
        lemma_writable_is_recordable(before, lut, frames[i as int], times[i as int]);
    }
}

/// Whether a picture fills a size with ASCII text, and with colours where there
/// are to be colours.
pub open spec fn fills_size(picture: Picture, width: u16, height: u16, color: bool) -> bool {
    &&& fills(picture.chars, width as int, height as int)
    &&& forall|y: int| 0 <= y < height ==> is_ascii_chars(#[trigger] picture.chars[y])
    &&& match picture.colors {
        Some(rows) => color && fills(rows, width as int, height as int),
        None => !color,
    }
}

/// Whether reads give back pictures at their times, one after the other and
/// unchanged, and nothing more after the last.
pub open spec fn gives_back(player: Player, frames: Seq<Picture>, times: Seq<u32>) -> bool {
    &&& forall|i: int|
        0 <= i < frames.len() ==> next_shows(
            replayed(player, i as nat),
            #[trigger] frames[i],
            times[i],
        )
    &&& at_end(replayed(player, frames.len()))
}

/// Where colours are stored as they are, characters are stored and times are
/// stored as they are, a picture plays back unchanged.
proof fn lemma_played_unchanged(
    format: Format,
    lut: Seq<char>,
    picture: Picture,
    width: u16,
    height: u16,
)
    requires
        fills_size(picture, width, height, format.color),
        !format.config.quantize_colors,
        !format.derives(),
    ensures
        played(format, lut, picture) == picture,
{
    if format.color {
        let rows = picture.colors->0;
        let shown = played_colors(format, rows);
        assert forall|y: int| 0 <= y < rows.len() implies #[trigger] shown[y] == rows[y] by {
            assert(shown[y] =~= rows[y]);
        }
        assert(shown =~= rows);
    }
}

/// With settings that store colours, characters and times as they are, what is
/// read is what was written: the same frames at the same times, whether they
/// are stored as keyframes, as deltas or as skips.
pub proof fn lemma_plain_recording_gives_back(
    width: u16,
    height: u16,
    fps: u8,
    ramp: Seq<char>,
    color: bool,
    config: RecordingConfig,
    frames: Seq<Picture>,
    times: Seq<u32>,
)
    requires
        1 <= width * height <= 65535,
        !config.quantize_colors,
        !(config.derive_chars && color),
        !config.delta_timestamps,
        1 <= encode_utf8(ramp).len() <= 255,
        frames.len() == times.len(),
        forall|i: int|
            0 <= i < frames.len() ==> fills_size(#[trigger] frames[i], width, height, color),
        written_frames(
            started(width as int, height as int, fps, ramp, color, config),
            frames,
            times,
            frames.len(),
        ) is Ok,
        forall|i: nat|
            i < frames.len() ==> stream_holds(
                (#[trigger] written_frames(
                    started(width as int, height as int, fps, ramp, color, config),
                    frames,
                    times,
                    i,
                ))->Ok_0,
                frames[i as int],
            ),
    ensures
        ({
            let tape = started(width as int, height as int, fps, ramp, color, config);
            let bytes = written_frames(tape, frames, times, frames.len())->Ok_0.written;
            let heading = heading_for(width, height, fps, ramp, color, config);
            &&& headed(bytes, heading)
            &&& gives_back(opened(heading, bytes), frames, times)
        }),
{
    let tape = started(width as int, height as int, fps, ramp, color, config);
    lemma_all_writable(tape, ramp_table(ramp), frames, times, width, height);
    lemma_written_frames_play_back(width, height, fps, ramp, color, config, frames, times);
    let bytes = written_frames(tape, frames, times, frames.len())->Ok_0.written;
    let player = opened(heading_for(width, height, fps, ramp, color, config), bytes);
    lemma_all_unchanged(player, frames, times, width, height);
}

/// Frames that fill a plain recording's size can be written so that nothing of
/// them is lost.
proof fn lemma_all_writable(
    tape: Tape,
    lut: Seq<char>,
    frames: Seq<Picture>,
    times: Seq<u32>,
    width: u16,
    height: u16,
)
    requires
        1 <= width * height <= 65535,
        tape.format.width == width,
        tape.format.height == height,
        !tape.format.derives(),
        !tape.format.config.delta_timestamps,
        frames.len() == times.len(),
        forall|i: int|
            0 <= i < frames.len() ==> fills_size(
                #[trigger] frames[i],
                width,
                height,
                tape.format.color,
            ),
        written_frames(tape, frames, times, frames.len()) is Ok,
        forall|i: nat|
            i < frames.len() ==> stream_holds(
                (#[trigger] written_frames(tape, frames, times, i))->Ok_0,
                frames[i as int],
            ),
    ensures
        forall|i: nat|
            i < frames.len() ==> writable(
                (#[trigger] written_frames(tape, frames, times, i))->Ok_0,
                lut,
                frames[i as int],
                times[i as int],
            ),
{
    assert(width >= 1 && height >= 1) by (nonlinear_arith)
        requires
            1 <= width * height,
    ;
    assert forall|i: nat| i < frames.len() implies writable(
        (#[trigger] written_frames(tape, frames, times, i))->Ok_0,
        lut,
        frames[i as int],
        times[i as int],
    ) by {
        lemma_written_format(tape, frames, times, i, frames.len());
        assert(fills_size(frames[i as int], width, height, tape.format.color));
        lemma_keyframe_fits(tape.format, frames[i as int]);
    }
}

/// Reads that show frames that play back unchanged give them back.
proof fn lemma_all_unchanged(
    player: Player,
    frames: Seq<Picture>,
    times: Seq<u32>,
    width: u16,
    height: u16,
)
    requires
        !player.format.config.quantize_colors,
        !player.format.derives(),
        forall|i: int|
            0 <= i < frames.len() ==> fills_size(
                #[trigger] frames[i],
                width,
                height,
                player.format.color,
            ),
        plays_back(player, frames, times),
    ensures
        gives_back(player, frames, times),
{
    assert forall|i: int| 0 <= i < frames.len() implies next_shows(
        replayed(player, i as nat),
        #[trigger] frames[i],
        times[i],
    ) by {
        lemma_played_unchanged(player.format, player.lut, frames[i], width, height);
    }
}

/// Writing frames does not change the shape of a recording.
proof fn lemma_written_format(
    tape: Tape,
    frames: Seq<Picture>,
    times: Seq<u32>,
    i: nat,
    n: nat,
)
    requires
        i <= n,
        written_frames(tape, frames, times, n) is Ok,
    ensures
        written_frames(tape, frames, times, i) matches Ok(after) && after.format == tape.format,
    decreases n,
{
    if n > 0 {
        let k = (n - 1) as nat;
        if i < n {
            lemma_written_format(tape, frames, times, i, k);
        } else {
            lemma_written_format(tape, frames, times, k, k);
        }
    }
}

} // verus!
