//! Tests for the byte cursor, the string decoders, and the codecs.

use std::io::Read;
use std::io::Write;

use testract::reader::latin1_to_string;
use testract::reader::TESReader;
use testract::Compression;
use testract::TESError;

fn zlib_compress(data: &[u8]) -> Vec<u8> {
    let mut encoder =
        flate2::write::ZlibEncoder::new(Vec::new(), flate2::Compression::default());
    encoder.write_all(data).unwrap();
    encoder.finish().unwrap()
}

fn lz4_compress(data: &[u8]) -> Vec<u8> {
    let mut encoder = lz4::EncoderBuilder::new().build(Vec::new()).unwrap();
    encoder.write_all(data).unwrap();
    let (out, result) = encoder.finish();
    result.unwrap();
    out
}

#[test]
fn latin1_maps_each_byte_to_its_code_point() {
    let s = latin1_to_string(&[0x61, 0x62, 0xE9, 0xFF]);
    assert_eq!(s, "ab\u{e9}\u{ff}");
    assert_eq!(latin1_to_string(&[]), "");
}

#[test]
fn parse_byte_short_and_u32_little_endian() {
    let mut reader = TESReader::from_reader(vec![0x01, 0x02, 0x03, 0x04, 0x05, 0x06, 0x07]);
    assert_eq!(reader.parse_byte().unwrap(), 0x01);
    assert_eq!(reader.parse_short().unwrap(), 0x0302);
    assert_eq!(reader.parse_u32().unwrap(), 0x07060504);
    assert!(matches!(reader.parse_byte(), Err(TESError::ShortRead(_))));
}

#[test]
fn parse_u64_little_endian() {
    let mut reader = TESReader::from_reader(vec![1, 0, 0, 0, 0, 0, 0, 0x80]);
    assert_eq!(reader.parse_u64().unwrap(), 0x8000_0000_0000_0001);
}

#[test]
fn seek_and_read() {
    let mut reader = TESReader::from_reader(vec![9, 8, 7, 6, 5]);
    reader.seek(3);
    assert_eq!(reader.parse_byte().unwrap(), 6);
    reader.seek(100);
    assert!(matches!(reader.parse_byte(), Err(TESError::ShortRead(_))));
}

#[test]
fn parse_zstring_reads_to_nul() {
    let mut reader = TESReader::from_reader(b"abc\0def\0".to_vec());
    assert_eq!(reader.parse_zstring().unwrap(), "abc");
    assert_eq!(reader.parse_zstring().unwrap(), "def");
}

#[test]
fn parse_zstring_without_terminator_is_short() {
    let mut reader = TESReader::from_reader(b"abc".to_vec());
    assert!(matches!(reader.parse_zstring(), Err(TESError::ShortRead(_))));
}

#[test]
fn parse_bstring_is_length_prefixed() {
    let mut reader = TESReader::from_reader(vec![3, b'x', b'y', b'z', b'!']);
    assert_eq!(reader.parse_bstring().unwrap(), "xyz");
}

#[test]
fn parse_long_bstring_has_two_byte_length() {
    let mut reader = TESReader::from_reader(vec![4, 0, b'n', b'a', b'm', b'e']);
    assert_eq!(reader.parse_long_bstring().unwrap(), "name");
}

#[test]
fn parse_bzstring_strips_terminator() {
    let mut reader = TESReader::from_reader(vec![4, b'd', b'i', b'r', 0]);
    assert_eq!(reader.parse_bzstring().unwrap(), "dir");
}

#[test]
fn parse_bzstring_requires_terminator() {
    let mut reader = TESReader::from_reader(vec![3, b'd', b'i', b'r']);
    assert!(matches!(
        reader.parse_bzstring(),
        Err(TESError::StructuralParseError(_))
    ));
    let mut empty = TESReader::from_reader(vec![0]);
    assert!(matches!(
        empty.parse_bzstring(),
        Err(TESError::StructuralParseError(_))
    ));
}

#[test]
fn parse_bstring_block_splits_on_nul() {
    let mut reader = TESReader::from_reader(b"ab\0c\0tail".to_vec());
    let names = reader.parse_bstring_block(9).unwrap();
    assert_eq!(names, vec!["ab".to_string(), "c".to_string(), "tail".to_string()]);

    let mut reader = TESReader::from_reader(b"ab\0c\0".to_vec());
    let names = reader.parse_bstring_block(5).unwrap();
    assert_eq!(names, vec!["ab".to_string(), "c".to_string()]);

    let mut reader = TESReader::from_reader(Vec::new());
    let names = reader.parse_bstring_block(0).unwrap();
    assert!(names.is_empty());
}

#[test]
fn decompress_buffer_passthrough_strips_length_field() {
    let buffer = vec![9, 9, 9, 9, 1, 2, 3];
    let out = Compression::Uncompressed.decompress_buffer(&buffer).unwrap();
    assert_eq!(out, vec![1, 2, 3]);
}

#[test]
fn decompress_buffer_too_short_for_length_field() {
    let r = Compression::Zlib.decompress_buffer(&[1, 2, 3]);
    assert!(matches!(r, Err(TESError::ShortRead(_))));
}

#[test]
fn decompress_buffer_zlib_round_trip() {
    let original = b"the quick brown fox jumps over the lazy dog".to_vec();
    let mut buffer = (original.len() as u32).to_le_bytes().to_vec();
    let compressed = zlib_compress(&original);
    assert_ne!(compressed, original);
    buffer.extend_from_slice(&compressed);
    let out = Compression::Zlib.decompress_buffer(&buffer).unwrap();
    assert_eq!(out, original);
    let hint = u32::from_le_bytes([buffer[0], buffer[1], buffer[2], buffer[3]]);
    assert_eq!(out.len() as u32, hint);
}

#[test]
fn decompress_buffer_lz4_round_trip() {
    let original = b"payload payload payload payload".to_vec();
    let mut buffer = (original.len() as u32).to_le_bytes().to_vec();
    let compressed = lz4_compress(&original);
    assert_ne!(compressed, original);
    buffer.extend_from_slice(&compressed);
    let out = Compression::Lz4.decompress_buffer(&buffer).unwrap();
    assert_eq!(out, original);
    let hint = u32::from_le_bytes([buffer[0], buffer[1], buffer[2], buffer[3]]);
    assert_eq!(out.len() as u32, hint);
}

#[test]
fn decompress_buffer_corrupt_zlib_fails() {
    let buffer = vec![4, 0, 0, 0, 0xde, 0xad, 0xbe, 0xef];
    let r = Compression::Zlib.decompress_buffer(&buffer);
    assert!(matches!(r, Err(TESError::DecompressionError(_))));
}

#[test]
fn decompress_buffer_corrupt_lz4_fails() {
    let mut buffer = vec![16, 0, 0, 0];
    buffer.extend_from_slice(&[0xde, 0xad, 0xbe, 0xef, 1, 2, 3, 4, 5, 6, 7, 8, 9, 10, 11, 12]);
    let r = Compression::Lz4.decompress_buffer(&buffer);
    assert!(matches!(r, Err(TESError::DecompressionError(_))));
}

#[test]
fn autodetect_is_unsupported() {
    let r = testract::autodetect::autodetect_data_path("skyrim");
    assert!(matches!(r, Err(TESError::UnsupportedFeature(_))));
}

#[test]
fn error_messages_carry_context() {
    let r = testract::autodetect::autodetect_data_path("skyrim");
    match r {
        Err(e) => {
            assert!(e.message().contains("autodetection"));
        }
        Ok(_) => unreachable!(),
    }
}

#[test]
fn zlib_decoder_reference_behaviour() {
    // The decompression the library relies on inverts the encoder used here.
    let original = b"reference bytes".to_vec();
    let compressed = zlib_compress(&original);
    let mut decoder = flate2::read::ZlibDecoder::new(compressed.as_slice());
    let mut out = Vec::new();
    decoder.read_to_end(&mut out).unwrap();
    assert_eq!(out, original);
}
