//! What is read of a header is what was written.
use vstd::prelude::*;
use vstd::utf8::encode_utf8;

use crate::decoder::{heading_of, ramp_bytes, Heading};
use crate::encoder::started;
use crate::format::{magic, played_config, TcamError, TCAM_VERSION};
use crate::recording::{lemma_flags_keep_settings, RecordingConfig};
use crate::wire::le16;

verus! {

/// Whether bytes start with a header that reads as a heading.
#[verifier::opaque]
pub open spec fn headed(bytes: Seq<u8>, heading: Heading) -> bool {
    heading_of(bytes) == Ok::<Heading, TcamError>(heading)
}

/// What the header of a recording reads as.
pub open spec fn heading_for(
    width: u16,
    height: u16,
    fps: u8,
    ramp: Seq<char>,
    color: bool,
    config: RecordingConfig,
) -> Heading {
    Heading {
        width: width as usize,
        height: height as usize,
        fps,
        color,
        config: played_config(config),
        ramp,
        size: 13int + encode_utf8(ramp).len(),
    }
}

/// The header of a recording reads back as what it was written for.
pub proof fn lemma_header_reads_back(
    width: u16,
    height: u16,
    fps: u8,
    ramp: Seq<char>,
    color: bool,
    config: RecordingConfig,
    rest: Seq<u8>,
)
    requires
        encode_utf8(ramp).len() <= 255,
    ensures
        started(width as int, height as int, fps, ramp, color, config).written.len() == 13
            + encode_utf8(ramp).len(),
        headed(
            started(width as int, height as int, fps, ramp, color, config).written + rest,
            heading_for(width, height, fps, ramp, color, config),
        ),
{
    let bytes = encode_utf8(ramp);
    let flags = config.flag_word(color) as u16;
    let head = started(width as int, height as int, fps, ramp, color, config).written;
    let data = head + rest;
    reveal(headed);
    lemma_flags_keep_settings(config, color, flags);
    vstd::utf8::encode_utf8_valid_utf8(ramp);
    vstd::utf8::encode_utf8_decode_utf8(ramp);
    assert(head.len() == 13 + bytes.len());
    assert(data.take(4) =~= magic());
    assert(data[4] == TCAM_VERSION);
    assert(data[5] == le16(width)[0] && data[6] == le16(width)[1]);
    assert(data[7] == le16(height)[0] && data[8] == le16(height)[1]);
    assert(data[9] == fps);
    assert(data[10] == le16(flags)[0] && data[11] == le16(flags)[1]);
    assert(data[12] == bytes.len());
    assert(ramp_bytes(data, TCAM_VERSION) =~= bytes);
}

} // verus!
