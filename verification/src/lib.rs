//! Parsing and extraction for Bethesda game-archive containers (.bsa, .ba2).
//!
//! The library decodes four binary layout variants into one uniform in-memory
//! index and extracts individual member files, applying per-entry, per-variant
//! decompression on demand. All parsing works over in-memory byte buffers; the
//! caller is responsible for reading archive files from disk.

use vstd::prelude::*;

pub mod archive;
pub mod autodetect;
pub mod ba2;
pub mod bsa;
mod error;
pub mod reader;

pub use archive::ExtensionSet;
pub use error::ErrorKind;
pub use error::TESError;

verus! {

/// Uninterpreted name for what `flate2`'s `ZlibDecoder` produces on a given
/// input: `Some(out)` when the input is a well-formed zlib stream that
/// inflates to `out`, `None` when decoding fails. Inflation is a function of
/// the input bytes alone.
pub uninterp spec fn zlib_inflate(data: Seq<u8>) -> Option<Seq<u8>>;

/// Uninterpreted name for what `lz4`'s `Decoder` produces on a given input:
/// `Some(out)` when the input is a well-formed LZ4 frame that decodes to
/// `out`, `None` when decoding fails. Decoding is a function of the input
/// bytes alone.
pub uninterp spec fn lz4_decode(data: Seq<u8>) -> Option<Seq<u8>>;

/// Relies on `flate2::read::ZlibDecoder`: `new(data)` wraps the byte slice
/// and `Read::read_to_end` inflates the whole zlib stream, returning an
/// `Err` on corrupt input. The result depends on the input bytes alone.
#[verifier::external_body]
fn zlib_decompress(data: &[u8], capacity: usize) -> (r: Result<Vec<u8>, ()>)
    ensures
        match r {
            Ok(out) => zlib_inflate(data@) == Some(out@),
            Err(()) => zlib_inflate(data@) is None,
        },
{
    let mut decoder = flate2::read::ZlibDecoder::new(data);
    let mut out: Vec<u8> = Vec::with_capacity(capacity);
    match std::io::Read::read_to_end(&mut decoder, &mut out) {
        Ok(_) => Ok(out),
        Err(_) => Err(()),
    }
}

/// Relies on `lz4::Decoder`: `new(data)` opens an LZ4 frame over the byte
/// slice and `Read::read_to_end` decodes it, either step returning an `Err`
/// on corrupt input. The result depends on the input bytes alone.
#[verifier::external_body]
fn lz4_decompress(data: &[u8], capacity: usize) -> (r: Result<Vec<u8>, ()>)
    ensures
        match r {
            Ok(out) => lz4_decode(data@) == Some(out@),
            Err(()) => lz4_decode(data@) is None,
        },
{
    let mut decoder = match lz4::Decoder::new(data) {
        Ok(d) => d,
        Err(_) => return Err(()),
    };
    let mut out: Vec<u8> = Vec::with_capacity(capacity);
    match std::io::Read::read_to_end(&mut decoder, &mut out) {
        Ok(_) => Ok(out),
        Err(_) => Err(()),
    }
}

/// The decompression codec selected for one archive entry.
#[derive(Debug, PartialEq, Eq, Structural, Clone, Copy)]
pub enum Compression {
    /// The entry's payload is stored raw.
    Uncompressed,
    /// The payload is a zlib stream (older-generation archives).
    Zlib,
    /// The payload is an LZ4 frame (the newest archive sub-version).
    Lz4,
}

/// What [`Compression::decompress_buffer`] returns for a codec and a buffer:
/// the first four bytes are a little-endian uncompressed-length hint (used
/// only to size the output buffer, never to bound decoding), the rest is the
/// payload handed to the selected codec.
pub open spec fn spec_decompress(c: Compression, buffer: Seq<u8>) -> Result<Seq<u8>, ErrorKind> {
    if buffer.len() < 4 {
        Err(ErrorKind::ShortRead)
    } else {
        let payload = buffer.skip(4);
        match c {
            Compression::Uncompressed => Ok(payload),
            Compression::Zlib => match zlib_inflate(payload) {
                Some(out) => Ok(out),
                None => Err(ErrorKind::Decompression),
            },
            Compression::Lz4 => match lz4_decode(payload) {
                Some(out) => Ok(out),
                None => Err(ErrorKind::Decompression),
            },
        }
    }
}

impl Compression {
    /// Splits off the 4-byte little-endian uncompressed-length hint and
    /// decodes the remaining payload with this codec. The hint only sizes the
    /// output buffer; it never bounds decoding.
    pub fn decompress_buffer(&self, buffer: &[u8]) -> (r: Result<Vec<u8>, TESError>)
        ensures
            match r {
                Ok(out) => spec_decompress(*self, buffer@) == Ok::<Seq<u8>, ErrorKind>(out@),
                Err(e) => spec_decompress(*self, buffer@) == Err::<Seq<u8>, ErrorKind>(e.kind()),
            },
    {
        if buffer.len() < 4 {
            return Err(TESError::ShortRead(
                String::from_str("Compressed block is shorter than its 4-byte length field"),
            ));
        }
        let length_field = vstd::slice::slice_subrange(buffer, 0, 4);
        let uncompressed_length = vstd::bytes::u32_from_le_bytes(length_field);
        let data = vstd::slice::slice_subrange(buffer, 4, buffer.len());
        match self {
            Compression::Uncompressed => Ok(vstd::slice::slice_to_vec(data)),
            Compression::Zlib => match zlib_decompress(data, uncompressed_length as usize) {
                Ok(out) => Ok(out),
                Err(()) => Err(TESError::DecompressionError(
                    String::from_str("Unable to decompress ZLIB data"),
                )),
            },
            Compression::Lz4 => match lz4_decompress(data, uncompressed_length as usize) {
                Ok(out) => Ok(out),
                Err(()) => Err(TESError::DecompressionError(
                    String::from_str("Unable to decompress LZ4 data"),
                )),
            },
        }
    }
}

} // verus!
