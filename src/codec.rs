//! Decoding a volume's compressed payload and compressing data archives.
use vstd::prelude::*;
use std::io::{Read, Write};

verus! {

/// Length of the prefix that precedes a volume's deflate stream.
pub const VOLUME_PREFIX_LEN: usize = 10;

/// What a raw deflate stream `data` decodes to, or `None` when it is
/// corrupt.
pub uninterp spec fn inflated(data: Seq<u8>) -> Option<Seq<u8>>;

/// The gzip stream (default level, no file name, zero time) of `data`.
pub uninterp spec fn gzipped(data: Seq<u8>) -> Seq<u8>;

/// Relies on flate2's `read::DeflateDecoder` read to the end: the decoded
/// bytes of a raw deflate stream, or an error on a corrupt one.
#[verifier::external_body]
fn inflate(data: &[u8]) -> (r: Option<Vec<u8>>)
    ensures
        r matches Some(v) ==> inflated(data@) == Some(v@),
        r is None ==> inflated(data@) is None,
{
    let mut out = Vec::new();
    match flate2::read::DeflateDecoder::new(data).read_to_end(&mut out) {
        Ok(_) => Some(out),
        Err(_) => None,
    }
}

/// Relies on flate2's `write::GzEncoder` at `Compression::default()`,
/// writing into a `Vec<u8>`: the write cannot fail and a fresh encoder
/// meets none of the compressor's error cases, so it always succeeds.
#[verifier::external_body]
fn gzip(data: &[u8]) -> (r: Option<Vec<u8>>)
    ensures
        r is Some,
        r matches Some(v) ==> v@ == gzipped(data@),
{
    let mut encoder = flate2::write::GzEncoder::new(Vec::new(), flate2::Compression::default());
    match encoder.write_all(data) {
        Ok(()) => encoder.finish().ok(),
        Err(_) => None,
    }
}

/// Why a volume could not be decoded.
#[derive(Debug, Clone, Copy, PartialEq, Eq, Structural)]
pub enum DecodeError {
    /// The volume is shorter than its fixed prefix.
    Truncated,
    /// The deflate stream after the prefix is corrupt.
    Corrupt,
}

/// The tar bytes that a volume holds: its first ten bytes are skipped
/// unread, the rest decoded as one raw deflate stream.
pub fn decode_volume(raw: &Vec<u8>) -> (r: Result<Vec<u8>, DecodeError>)
    ensures
        raw@.len() < 10 ==> r == Err::<Vec<u8>, DecodeError>(DecodeError::Truncated),
        raw@.len() >= 10 ==> match inflated(raw@.skip(10)) {
            Some(t) => r matches Ok(v) && v@ == t,
            None => r == Err::<Vec<u8>, DecodeError>(DecodeError::Corrupt),
        },
{
    if raw.len() < VOLUME_PREFIX_LEN {
        return Err(DecodeError::Truncated);
    }
    let body = slice_from(raw.as_slice(), VOLUME_PREFIX_LEN);
    match inflate(body) {
        Some(v) => Ok(v),
        None => Err(DecodeError::Corrupt),
    }
}

/// The bytes of `s` from index `from` on.
fn slice_from(s: &[u8], from: usize) -> (r: &[u8])
    requires
        from <= s@.len(),
    ensures
        r@ == s@.skip(from as int),
{
    let (_, rest) = s.split_at(from);
    rest
}

/// The gzip file of a data archive's tar bytes.
pub fn compress_archive(tar: &Vec<u8>) -> (r: Vec<u8>)
    ensures
        r@ == gzipped(tar@),
{
    match gzip(tar.as_slice()) {
        Some(v) => v,
        None => {
            assert(false);
            Vec::new()
        },
    }
}

} // verus!
