//! Bytes on the wire: little-endian integers, zlib streams and UTF-8.
use std::io::{ErrorKind, Read, Write};

use byteorder::{LittleEndian, ReadBytesExt, WriteBytesExt};
use flate2::read::ZlibDecoder;
use flate2::write::ZlibEncoder;
use flate2::Compression;
use vstd::prelude::*;
use vstd::utf8::{decode_utf8, encode_utf8, is_ascii_chars, valid_utf8};

verus! {

/// The two bytes of `n`, least significant first.
pub open spec fn le16(n: u16) -> Seq<u8> {
    seq![(n % 256) as u8, (n / 256) as u8]
}

/// The four bytes of `n`, least significant first.
pub open spec fn le32(n: u32) -> Seq<u8> {
    seq![
        (n % 256) as u8,
        (n / 256 % 256) as u8,
        (n / 65536 % 256) as u8,
        (n / 16777216) as u8,
    ]
}

/// The integer whose little-endian bytes stand at `i` and `i + 1`.
pub open spec fn le16_at(s: Seq<u8>, i: int) -> u16 {
    (s[i] + 256 * s[i + 1]) as u16
}

/// The integer whose little-endian bytes stand at `i` to `i + 3`.
pub open spec fn le32_at(s: Seq<u8>, i: int) -> u32 {
    (s[i] + 256 * s[i + 1] + 65536 * s[i + 2] + 16777216 * s[i + 3]) as u32
}

/// `byteorder::WriteBytesExt::write_u16` on a `Vec<u8>`, whose writer never
/// fails: the two little-endian bytes are appended.
#[verifier::external_body]
pub(crate) fn write_u16_le(out: &mut Vec<u8>, n: u16)
    ensures
        final(out)@ == old(out)@ + le16(n),
{
    let _ = out.write_u16::<LittleEndian>(n);
}

/// `byteorder::WriteBytesExt::write_u32` on a `Vec<u8>`, whose writer never
/// fails: the four little-endian bytes are appended.
#[verifier::external_body]
pub(crate) fn write_u32_le(out: &mut Vec<u8>, n: u32)
    ensures
        final(out)@ == old(out)@ + le32(n),
{
    let _ = out.write_u32::<LittleEndian>(n);
}

/// `byteorder::ReadBytesExt::read_u16` on a byte slice: the integer in the
/// first two bytes, or nothing where there are fewer.
#[verifier::external_body]
pub(crate) fn read_u16_le(input: &[u8]) -> (r: Option<u16>)
    ensures
        r == (if input@.len() >= 2 {
            Some(le16_at(input@, 0))
        } else {
            None
        }),
{
    let mut rest = input;
    rest.read_u16::<LittleEndian>().ok()
}

/// `byteorder::ReadBytesExt::read_u32` on a byte slice: the integer in the
/// first four bytes, or nothing where there are fewer.
#[verifier::external_body]
pub(crate) fn read_u32_le(input: &[u8]) -> (r: Option<u32>)
    ensures
        r == (if input@.len() >= 4 {
            Some(le32_at(input@, 0))
        } else {
            None
        }),
{
    let mut rest = input;
    rest.read_u32::<LittleEndian>().ok()
}

/// Reading back the two bytes of an integer gives the integer.
pub proof fn lemma_le16_read_back(n: u16)
    ensures
        le16_at(le16(n), 0) == n,
{
}

/// Reading back the four bytes of an integer gives the integer.
pub proof fn lemma_le32_read_back(n: u32)
    ensures
        le32_at(le32(n), 0) == n,
{
}

/// The zlib stream that `flate2` compresses `data` to at a level; where it
/// fails, whether it does so only when the stream is finished.
pub uninterp spec fn zlib_deflated(data: Seq<u8>, level: u32) -> Result<Seq<u8>, bool>;

/// What `flate2` reads out of a zlib stream; where it fails, whether it does so
/// because the stream breaks off.
pub uninterp spec fn zlib_inflated(stream: Seq<u8>) -> Result<Seq<u8>, bool>;

/// The length of the sequence of bytes that `String::from_utf8` stumbles over
/// in bytes that are not UTF-8; none where they end too early.
pub uninterp spec fn utf8_flaw(bytes: Seq<u8>) -> Option<usize>;

/// The text that `String::from_utf8_lossy` makes of bytes that are not UTF-8.
pub uninterp spec fn utf8_replaced(bytes: Seq<u8>) -> Seq<char>;

/// The bytes of a vector, or why there is none.
pub open spec fn bytes_of(v: Result<Vec<u8>, bool>) -> Result<Seq<u8>, bool> {
    match v {
        Ok(bytes) => Ok(bytes@),
        Err(e) => Err(e),
    }
}

/// How many of the first `n` bytes are UTF-8: the greatest number that are.
pub open spec fn valid_up_to(bytes: Seq<u8>, n: nat) -> nat
    decreases n,
{
    if n == 0 || valid_utf8(bytes.take(n as int)) {
        n
    } else {
        valid_up_to(bytes, (n - 1) as nat)
    }
}

/// `flate2::write::ZlibEncoder` over a `Vec<u8>`: the whole of `data` is
/// written and the stream finished. The stream depends on the data and the
/// level alone, and `ZlibDecoder` reads the data back out of it. Where writing
/// fails the error is `false`, where finishing fails it is `true`. When either
/// fails is left unsaid.
#[verifier::external_body]
pub(crate) fn deflate(data: &[u8], level: u32) -> (r: Result<Vec<u8>, bool>)
    requires
        level <= 9,
    ensures
        bytes_of(r) == zlib_deflated(data@, level),
        r matches Ok(stream) ==> (zlib_inflated(stream@) matches Ok(back) && back == data@),
{
    let mut encoder = ZlibEncoder::new(Vec::new(), Compression::new(level));
    encoder.write_all(data).map_err(|_| false)?;
    encoder.finish().map_err(|_| true)
}

/// `flate2::read::ZlibDecoder`, read to its end: the data of the stream. Where
/// reading fails, the error tells whether its kind is `UnexpectedEof`, which is
/// how the decoder reports a stream that breaks off. The result depends on the
/// bytes alone. Which bytes are streams is left unsaid, but for those that the
/// encoder writes.
#[verifier::external_body]
pub(crate) fn inflate(stream: &[u8]) -> (r: Result<Vec<u8>, bool>)
    ensures
        bytes_of(r) == zlib_inflated(stream@),
{
    let mut data = Vec::new();
    match ZlibDecoder::new(stream).read_to_end(&mut data) {
        Ok(_) => Ok(data),
        Err(e) => Err(e.kind() == ErrorKind::UnexpectedEof),
    }
}

/// The text of bytes: their characters where they are UTF-8, else what the
/// lossy conversion replaces them by.
pub open spec fn lossy_text(bytes: Seq<u8>) -> Seq<char> {
    if valid_utf8(bytes) {
        decode_utf8(bytes)
    } else {
        utf8_replaced(bytes)
    }
}

/// `String::from_utf8_lossy`: UTF-8 comes through unchanged; other bytes are
/// replaced in a way that depends on the bytes alone and is left unsaid.
#[verifier::external_body]
pub(crate) fn text_lossy(bytes: &[u8]) -> (r: String)
    ensures
        r@ == (if valid_utf8(bytes@) {
            decode_utf8(bytes@)
        } else {
            utf8_replaced(bytes@)
        }),
{
    String::from_utf8_lossy(bytes).into_owned()
}

/// `String::from_utf8`: the characters of the bytes if they are UTF-8.
/// Otherwise the error gives the greatest number of first bytes that are UTF-8,
/// and the length of the sequence after them that is not; how that length comes
/// about is left unsaid.
#[verifier::external_body]
pub(crate) fn text_exact(bytes: Vec<u8>) -> (r: Result<String, (usize, Option<usize>)>)
    ensures
        match r {
            Ok(s) => valid_utf8(bytes@) && s@ == decode_utf8(bytes@),
            Err(e) => !valid_utf8(bytes@) && e.0 == valid_up_to(bytes@, bytes@.len()) && e.1
                == utf8_flaw(bytes@),
        },
{
    String::from_utf8(bytes).map_err(
        |e| (e.utf8_error().valid_up_to(), e.utf8_error().error_len()),
    )
}

/// ASCII characters survive the way through their bytes.
pub proof fn lemma_ascii_text(chars: Seq<char>)
    requires
        is_ascii_chars(chars),
    ensures
        encode_utf8(chars).len() == chars.len(),
        lossy_text(encode_utf8(chars)) == chars,
        forall|i: int| 0 <= i < chars.len() ==> #[trigger] encode_utf8(chars)[i] == chars[i] as u8,
{
    vstd::utf8::is_ascii_chars_encode_utf8(chars);
    vstd::utf8::encode_utf8_valid_utf8(chars);
    vstd::utf8::encode_utf8_decode_utf8(chars);
}

/// The low 16 bits of a number.
pub fn low16(n: u128) -> (r: u16)
    ensures
        r == n % 65536,
{
    (n % 65536) as u16
}

/// The low 32 bits of a number.
pub fn low32(n: usize) -> (r: u32)
    ensures
        r == n as int % 0x1_0000_0000,
{
    (n as u64 % 0x1_0000_0000) as u32
}

/// The little-endian integer that starts at `pos`, if four bytes do.
pub(crate) fn read_u32_at(data: &[u8], pos: usize) -> (r: Option<u32>)
    requires
        pos <= data@.len(),
    ensures
        r == (if data@.len() - pos >= 4 {
            Some(le32_at(data@, pos as int))
        } else {
            None
        }),
{
    read_u32_le(vstd::slice::slice_subrange(data, pos, data.len()))
}

/// The little-endian integer that starts at `pos`, if two bytes do.
pub(crate) fn read_u16_at(data: &[u8], pos: usize) -> (r: Option<u16>)
    requires
        pos <= data@.len(),
    ensures
        r == (if data@.len() - pos >= 2 {
            Some(le16_at(data@, pos as int))
        } else {
            None
        }),
{
    read_u16_le(vstd::slice::slice_subrange(data, pos, data.len()))
}

/// Appends bytes.
pub(crate) fn push_bytes(out: &mut Vec<u8>, bytes: &[u8])
    ensures
        final(out)@ == old(out)@ + bytes@,
{
    out.extend_from_slice(bytes);
    assert(out@ =~= old(out)@ + bytes@);
}

} // verus!
