//! One-shot zlib compression and decompression between byte slices.
//!
//! Both directions are left to the `flate2` crate. Their results are functions of
//! the input bytes and of the room given for the output; they are named here
//! and nothing more is claimed of them.

use vstd::prelude::*;

verus! {

/// `flate2::DecompressError`, the inflater's complaint about its input. It is
/// carried through unopened.
#[verifier::external_type_specification]
#[verifier::external_body]
pub struct ExDecompressError(flate2::DecompressError);

/// `flate2::CompressError`, the deflater's complaint. It is carried through
/// unopened.
#[verifier::external_type_specification]
#[verifier::external_body]
pub struct ExCompressError(flate2::CompressError);

/// How a one-shot run over a whole input ended.
pub enum ZlibOutcome {
    /// The stream came to its end; these bytes were put out.
    StreamEnd(Seq<u8>),
    /// The run stopped without error before the end of the stream.
    Unfinished,
    /// No progress was possible: input or room for output was missing.
    BufError,
    /// The codec refused the input.
    Failure,
}

/// The executable counterpart of `ZlibOutcome`; the output itself lies in the
/// slice that was handed in, and `StreamEnd` says how much of it.
#[derive(Debug, Clone, Copy, PartialEq, Eq)]
pub enum ZlibStatus {
    StreamEnd(usize),
    Unfinished,
    BufError,
}

/// What inflating the zlib stream `data` gives when there is room for
/// `capacity` bytes of output.
pub uninterp spec fn zlib_inflate(data: Seq<u8>, capacity: nat) -> ZlibOutcome;

/// What deflating `data` into a zlib stream gives when there is room for
/// `capacity` bytes of output.
pub uninterp spec fn zlib_deflate(data: Seq<u8>, capacity: nat) -> ZlibOutcome;

/// Runs `flate2::Decompress::decompress` once over `src`, on a fresh stream
/// that expects a zlib header, with `dst` as the output and the flush mode
/// `Finish`; on `StreamEnd` it adds the stream's `total_out`.
///
/// The contract names the outcome after input and room, says that the output
/// lies at the front of `dst`, and that `dst` keeps its length.
#[verifier::external_body]
pub(crate) fn inflate_into(src: &[u8], dst: &mut [u8]) -> (r: Result<
    ZlibStatus,
    flate2::DecompressError,
>)
    ensures
        final(dst)@.len() == old(dst)@.len(),
        match zlib_inflate(src@, old(dst)@.len()) {
            ZlibOutcome::StreamEnd(out) => r == Ok::<ZlibStatus, flate2::DecompressError>(
                ZlibStatus::StreamEnd(out.len() as usize),
            ) && out.len() <= old(dst)@.len() && final(dst)@.take(out.len() as int) == out,
            ZlibOutcome::Unfinished => r == Ok::<ZlibStatus, flate2::DecompressError>(
                ZlibStatus::Unfinished,
            ),
            ZlibOutcome::BufError => r == Ok::<ZlibStatus, flate2::DecompressError>(
                ZlibStatus::BufError,
            ),
            ZlibOutcome::Failure => r is Err,
        },
{
    let mut stream = flate2::Decompress::new(true);
    match stream.decompress(src, dst, flate2::FlushDecompress::Finish) {
        Ok(flate2::Status::StreamEnd) => Ok(ZlibStatus::StreamEnd(stream.total_out() as usize)),
        Ok(flate2::Status::Ok) => Ok(ZlibStatus::Unfinished),
        Ok(flate2::Status::BufError) => Ok(ZlibStatus::BufError),
        Err(e) => Err(e),
    }
}

/// Runs `flate2::Compress::compress` once over `src`, on a fresh stream of the
/// default level that writes a zlib header, with `dst` as the output and the
/// flush mode `Finish`; on `StreamEnd` it adds the stream's `total_out`.
///
/// The contract names the outcome after input and room, says that the output
/// lies at the front of `dst`, and that `dst` keeps its length.
#[verifier::external_body]
pub(crate) fn deflate_into(src: &[u8], dst: &mut [u8]) -> (r: Result<
    ZlibStatus,
    flate2::CompressError,
>)
    ensures
        final(dst)@.len() == old(dst)@.len(),
        match zlib_deflate(src@, old(dst)@.len()) {
            ZlibOutcome::StreamEnd(out) => r == Ok::<ZlibStatus, flate2::CompressError>(
                ZlibStatus::StreamEnd(out.len() as usize),
            ) && out.len() <= old(dst)@.len() && final(dst)@.take(out.len() as int) == out,
            ZlibOutcome::Unfinished => r == Ok::<ZlibStatus, flate2::CompressError>(
                ZlibStatus::Unfinished,
            ),
            ZlibOutcome::BufError => r == Ok::<ZlibStatus, flate2::CompressError>(
                ZlibStatus::BufError,
            ),
            ZlibOutcome::Failure => r is Err,
        },
{
    let mut stream = flate2::Compress::new(flate2::Compression::default(), true);
    match stream.compress(src, dst, flate2::FlushCompress::Finish) {
        Ok(flate2::Status::StreamEnd) => Ok(ZlibStatus::StreamEnd(stream.total_out() as usize)),
        Ok(flate2::Status::Ok) => Ok(ZlibStatus::Unfinished),
        Ok(flate2::Status::BufError) => Ok(ZlibStatus::BufError),
        Err(e) => Err(e),
    }
}

} // verus!
