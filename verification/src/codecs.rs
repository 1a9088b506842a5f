//! The decompression backends: black-box codecs taking compressed bytes to
//! plaintext bytes. Their outcomes are functions of the input bytes (and,
//! for zstd, of the destination capacity) alone and are given names; nothing
//! else is assumed of them.

use vstd::prelude::*;

verus! {

/// The content size a zstd frame header declares, or `None` when the frame
/// is too small, corrupted, or declares none.
pub uninterp spec fn zstd_frame_size(frame: Seq<u8>) -> Option<u64>;

/// The bytes a zstd frame decompresses to.
pub uninterp spec fn zstd_plain(frame: Seq<u8>) -> Seq<u8>;

/// Whether zstd decompression of the frame succeeds into a destination of
/// exactly `cap` bytes.
pub uninterp spec fn zstd_ok(frame: Seq<u8>, cap: int) -> bool;

/// The bytes a zlib stream inflates to.
pub uninterp spec fn zlib_plain(stream: Seq<u8>) -> Seq<u8>;

/// Whether zlib inflation of the stream succeeds.
pub uninterp spec fn zlib_ok(stream: Seq<u8>) -> bool;

/// Relies on `zstd_safe::get_frame_content_size`: the declared content size
/// is a function of the frame bytes alone; a corrupt or truncated header and
/// an undeclared size both yield `None`.
#[verifier::external_body]
pub(crate) fn read_zstd_frame_size(src: &[u8]) -> (r: Option<u64>)
    ensures
        r == zstd_frame_size(src@),
{
    match zstd_safe::get_frame_content_size(src) {
        Ok(Some(n)) => Some(n),
        Ok(None) => None,
        Err(_) => None,
    }
}

/// Relies on `zstd_safe::decompress` into a destination of exactly
/// `capacity` bytes: success is a function of the frame bytes and that
/// capacity; on success the destination holds the frame's decompressed
/// bytes, no more than `capacity` of them, and at least the first frame's
/// declared content size when it fits — the decoder rejects a frame whose
/// decoded size differs from the size its header declares.
#[verifier::external_body]
pub(crate) fn zstd_decompress(src: &[u8], capacity: usize) -> (r: Result<Vec<u8>, ()>)
    ensures
        (r is Ok) == zstd_ok(src@, capacity as int),
        r matches Ok(v) ==> v@ == zstd_plain(src@),
        r matches Ok(v) ==> v@.len() <= capacity,
        r is Ok ==> (zstd_frame_size(src@) matches Some(n) ==> (n <= capacity ==> r->Ok_0@.len()
            >= n)),
{
    let mut buf: Vec<u8> = vec![0u8; capacity];
    match zstd_safe::decompress(&mut buf[..], src) {
        Ok(n) => {
            buf.truncate(n);
            Ok(buf)
        },
        Err(_) => Err(()),
    }
}

/// Relies on `flate2::bufread::ZlibDecoder` read to the end: success and the
/// inflated bytes are functions of the stream bytes alone.
#[verifier::external_body]
pub(crate) fn zlib_decompress(src: &[u8], capacity: usize) -> (r: Result<Vec<u8>, ()>)
    ensures
        (r is Ok) == zlib_ok(src@),
        r matches Ok(v) ==> v@ == zlib_plain(src@),
{
    let mut buf: Vec<u8> = Vec::with_capacity(capacity);
    let mut decoder = flate2::bufread::ZlibDecoder::new(src);
    match std::io::Read::read_to_end(&mut decoder, &mut buf) {
        Ok(_) => Ok(buf),
        Err(_) => Err(()),
    }
}

} // verus!
