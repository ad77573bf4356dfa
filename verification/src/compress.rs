//! Compression of texts through `zstd`, with trained dictionaries, and
//! through gzip.

use vstd::prelude::*;
use std::io::Write;

verus! {

/// The dictionary that `zstd::dict::from_samples` trains from the UTF-8
/// bytes of `samples` with at most `max_size` bytes, or `None` when the
/// training fails.
pub uninterp spec fn zstd_trained_dictionary(samples: Seq<Seq<char>>, max_size: usize) -> Option<
    Seq<u8>,
>;

/// The frame that `zstd::block::Compressor::with_dict(dict).compress(data, level)`
/// returns, or `None` when it fails.
pub uninterp spec fn zstd_compressed(dict: Seq<u8>, data: Seq<u8>, level: i32) -> Option<Seq<u8>>;

/// The bytes that `zstd::block::Decompressor::with_dict(dict).decompress(data, capacity)`
/// returns, or `None` when it fails.
pub uninterp spec fn zstd_decompressed(dict: Seq<u8>, data: Seq<u8>, capacity: usize) -> Option<
    Seq<u8>,
>;

/// Calls `zstd::dict::from_samples(samples, max_size)`. The contract claims
/// that the result is a function of the samples and the size, named
/// `zstd_trained_dictionary`, and that the dictionary holds at most
/// `max_size` bytes (the crate trains into a buffer of that length and
/// keeps what zstd wrote); nothing more is stated of its bytes.
#[verifier::external_body]
pub(crate) fn train_dictionary(samples: &Vec<String>, max_size: usize) -> (r: Option<Vec<u8>>)
    ensures
        match r {
            Some(d) => zstd_trained_dictionary(crate::text::views(samples@), max_size) == Some(d@)
                && d@.len() <= max_size,
            None => zstd_trained_dictionary(crate::text::views(samples@), max_size) is None,
        },
{
    zstd::dict::from_samples(samples, max_size).ok()
}

/// Calls `zstd::block::Compressor::with_dict(dict).compress(data, level)`.
/// The contract claims that the result is a function of the dictionary, the
/// data and the level, named `zstd_compressed`.
#[verifier::external_body]
pub(crate) fn compress_with_dict(dict: &Vec<u8>, data: &[u8], level: i32) -> (r: Option<Vec<u8>>)
    ensures
        match r {
            Some(c) => zstd_compressed(dict@, data@, level) == Some(c@),
            None => zstd_compressed(dict@, data@, level) is None,
        },
{
    zstd::block::Compressor::with_dict(dict.clone()).compress(data, level).ok()
}

/// Calls `zstd::block::Decompressor::with_dict(dict).decompress(data, capacity)`.
/// The contract claims that the result is a function of the dictionary, the
/// data and the capacity, named `zstd_decompressed`, and that a frame which
/// compressing `doc` with the same dictionary produced comes back as `doc`
/// when `doc` is shorter than `capacity` (zstd is lossless, and the crate
/// documents that the output must stay below the capacity).
#[verifier::external_body]
pub(crate) fn decompress_with_dict(dict: &Vec<u8>, data: &[u8], capacity: usize) -> (r: Option<
    Vec<u8>,
>)
    ensures
        match r {
            Some(d) => {
                &&& zstd_decompressed(dict@, data@, capacity) == Some(d@)
                &&& forall|doc: Seq<u8>, level: i32|
                    #[trigger] zstd_compressed(dict@, doc, level) == Some(data@) && doc.len()
                        < capacity ==> d@ == doc
            },
            None => {
                &&& zstd_decompressed(dict@, data@, capacity) is None
                &&& forall|doc: Seq<u8>, level: i32|
                    #[trigger] zstd_compressed(dict@, doc, level) == Some(data@) ==> doc.len()
                        >= capacity
            },
        },
{
    zstd::block::Decompressor::with_dict(dict.clone()).decompress(data, capacity).ok()
}

/// Calls `Vec::shrink_to_fit`, which lowers the capacity of `v` and keeps
/// its contents; the contract claims that the contents stay the same.
#[verifier::external_body]
pub(crate) fn shrink_to_fit(v: &mut Vec<u8>)
    ensures
        final(v)@ == old(v)@,
{
    v.shrink_to_fit()
}


/// Trains a zstd dictionary of at most `max_size` bytes from the UTF-8 bytes
/// of `samples`; `None` when zstd cannot train one.
pub fn dictionary_from_samples(samples: &Vec<String>, max_size: usize) -> (r: Option<Vec<u8>>)
    ensures
        match r {
            Some(d) => zstd_trained_dictionary(crate::text::views(samples@), max_size) == Some(d@)
                && d@.len() <= max_size,
            None => zstd_trained_dictionary(crate::text::views(samples@), max_size) is None,
        },
{
    train_dictionary(samples, max_size)
}

/// The zstd frame that `zstd::stream::Encoder::with_prepared_dictionary`
/// writes for `data`, with the dictionary `dict` prepared at `level` by
/// `zstd::dict::EncoderDictionary::new`, or `None` when it fails.
pub uninterp spec fn zstd_stream_frame(dict: Seq<u8>, level: i32, data: Seq<u8>) -> Option<Seq<u8>>;

/// Prepares `dict` at `level` with `zstd::dict::EncoderDictionary::new`,
/// writes `data` through `zstd::stream::Encoder::with_prepared_dictionary`
/// into a byte vector and finishes the frame. The contract claims only that
/// the result is a function of the dictionary, the level and the data,
/// named `zstd_stream_frame`.
#[verifier::external_body]
pub(crate) fn stream_compress_with_dict(dict: &Vec<u8>, level: i32, data: &[u8]) -> (r: Option<
    Vec<u8>,
>)
    ensures
        match r {
            Some(c) => zstd_stream_frame(dict@, level, data@) == Some(c@),
            None => zstd_stream_frame(dict@, level, data@) is None,
        },
{
    let prepared = zstd::dict::EncoderDictionary::new(dict, level);
    let mut encoder = zstd::stream::Encoder::with_prepared_dictionary(Vec::new(), &prepared).ok()?;
    encoder.write_all(data).ok()?;
    encoder.finish().ok()
}

/// The gzip member that `flate2::write::GzEncoder` at
/// `flate2::Compression::fast()`, with its default header, writes for
/// `data`, or `None` when it fails.
pub uninterp spec fn gzip_fast_member(data: Seq<u8>) -> Option<Seq<u8>>;

/// Writes `data` through `flate2::write::GzEncoder::new(.., Compression::fast())`
/// into a byte vector and finishes the member. The contract claims only that
/// the result is a function of the data, named `gzip_fast_member` (the
/// default header holds no time stamp).
#[verifier::external_body]
pub(crate) fn gzip_fast(data: &[u8]) -> (r: Option<Vec<u8>>)
    ensures
        match r {
            Some(c) => gzip_fast_member(data@) == Some(c@),
            None => gzip_fast_member(data@) is None,
        },
{
    let mut encoder = flate2::write::GzEncoder::new(Vec::new(), flate2::Compression::fast());
    encoder.write_all(data).ok()?;
    encoder.finish().ok()
}

/// The level at which single objects are compressed with a dictionary.
pub const OBJECT_LEVEL: i32 = 3;

/// Compresses one object (one dump line) into a zstd frame of its own with
/// the dictionary `dict` prepared at level 3.
pub fn compress_object(dict: &Vec<u8>, line: &str) -> (r: Option<Vec<u8>>)
    ensures
        match r {
            Some(c) => zstd_stream_frame(dict@, OBJECT_LEVEL, vstd::utf8::encode_utf8(line@))
                == Some(c@),
            None => zstd_stream_frame(dict@, OBJECT_LEVEL, vstd::utf8::encode_utf8(line@)) is None,
        },
{
    stream_compress_with_dict(dict, OBJECT_LEVEL, line.as_bytes())
}

/// Compresses one dump line into a gzip member of its own, at the fast level.
pub fn compress_line(line: &[u8]) -> (r: Option<Vec<u8>>)
    ensures
        match r {
            Some(c) => gzip_fast_member(line@) == Some(c@),
            None => gzip_fast_member(line@) is None,
        },
{
    gzip_fast(line)
}

} // verus!
