//! End-to-end tests over synthetic archives of every supported family.

use std::io::Write;

use testract::archive::ExtensionSet;
use testract::ba2;
use testract::bsa;
use testract::reader::TESReader;
use testract::TESError;

fn zlib_compress(data: &[u8]) -> Vec<u8> {
    let mut encoder =
        flate2::write::ZlibEncoder::new(Vec::new(), flate2::Compression::default());
    encoder.write_all(data).unwrap();
    encoder.finish().unwrap()
}

fn lz4_compress(data: &[u8]) -> Vec<u8> {
    let mut encoder = lz4::EncoderBuilder::new().build(Vec::new()).unwrap();
    encoder.write_all(data).unwrap();
    let (out, result) = encoder.finish();
    result.unwrap();
    out
}

/// Builds a Morrowind-style archive holding the given (name, payload) files.
fn build_mw(files: &[(&str, Vec<u8>)]) -> Vec<u8> {
    let fc = files.len();
    let mut name_block = Vec::new();
    for (n, _) in files {
        name_block.extend_from_slice(n.as_bytes());
        name_block.push(0);
    }
    let hash_offset = 12 * fc + name_block.len();
    let file_data_offset = hash_offset + 8 * fc + 8;
    let data_start_abs = 12 + 20 * fc + name_block.len();
    let mut out = Vec::new();
    out.extend_from_slice(&[0x00, 0x01, 0x00, 0x00]);
    out.extend_from_slice(&(hash_offset as u32).to_le_bytes());
    out.extend_from_slice(&(fc as u32).to_le_bytes());
    let mut run = 0usize;
    for (_, p) in files {
        out.extend_from_slice(&(p.len() as u32).to_le_bytes());
        let rel = (data_start_abs + run) as i64 - file_data_offset as i64;
        assert!(rel >= 0);
        out.extend_from_slice(&(rel as u32).to_le_bytes());
        run += p.len();
    }
    for _ in files {
        out.extend_from_slice(&0u32.to_le_bytes());
    }
    out.extend_from_slice(&name_block);
    for _ in files {
        out.extend_from_slice(&0u64.to_le_bytes());
    }
    assert_eq!(out.len(), data_start_abs);
    for (_, p) in files {
        out.extend_from_slice(p);
    }
    out
}

/// Builds an Oblivion-style archive. Each folder is a name plus its files;
/// each file is (name, override-bit, stored payload).
fn build_ob(
    version: u32,
    flags: u32,
    folders: &[(&str, Vec<(&str, bool, Vec<u8>)>)],
) -> Vec<u8> {
    let fsize = if version == 0x69 { 24 } else { 16 };
    let nf = folders.len();
    let fc: usize = folders.iter().map(|f| f.1.len()).sum();
    let mut name_block = Vec::new();
    for (_, files) in folders {
        for (n, _, _) in files {
            name_block.extend_from_slice(n.as_bytes());
            name_block.push(0);
        }
    }
    let blocks_len: usize = folders
        .iter()
        .map(|(fname, files)| 1 + fname.len() + 1 + 16 * files.len())
        .sum();
    let data_start = 36 + fsize * nf + blocks_len + name_block.len();
    let mut payloads = Vec::new();
    let mut offsets = Vec::new();
    for (_, files) in folders {
        for (_, _, p) in files {
            offsets.push(data_start + payloads.len());
            payloads.extend_from_slice(p);
        }
    }
    let mut out = Vec::new();
    out.extend_from_slice(b"BSA\0");
    out.extend_from_slice(&version.to_le_bytes());
    out.extend_from_slice(&36u32.to_le_bytes());
    out.extend_from_slice(&flags.to_le_bytes());
    out.extend_from_slice(&(nf as u32).to_le_bytes());
    out.extend_from_slice(&(fc as u32).to_le_bytes());
    out.extend_from_slice(&0u32.to_le_bytes());
    out.extend_from_slice(&(name_block.len() as u32).to_le_bytes());
    out.extend_from_slice(&0u16.to_le_bytes());
    out.extend_from_slice(&[0, 0]);
    for (_, files) in folders {
        out.extend_from_slice(&0u64.to_le_bytes());
        out.extend_from_slice(&(files.len() as u32).to_le_bytes());
        if version == 0x69 {
            out.extend_from_slice(&[0; 4]);
            out.extend_from_slice(&0u32.to_le_bytes());
            out.extend_from_slice(&[0; 4]);
        } else {
            out.extend_from_slice(&0u32.to_le_bytes());
        }
    }
    let mut fi = 0usize;
    for (fname, files) in folders {
        out.push((fname.len() + 1) as u8);
        out.extend_from_slice(fname.as_bytes());
        out.push(0);
        for (_, invert, p) in files {
            out.extend_from_slice(&0u64.to_le_bytes());
            let mut size = p.len() as u32;
            if *invert {
                size |= 0x4000_0000;
            }
            out.extend_from_slice(&size.to_le_bytes());
            out.extend_from_slice(&(offsets[fi] as u32).to_le_bytes());
            fi += 1;
        }
    }
    out.extend_from_slice(&name_block);
    assert_eq!(out.len(), data_start);
    out.extend_from_slice(&payloads);
    out
}

/// Builds a general BA2 archive. Each file is (name, stored payload,
/// compressed?, uncompressed size).
fn build_ba2_general(files: &[(&str, Vec<u8>, bool, u32)]) -> Vec<u8> {
    let fc = files.len();
    let records_end = 24 + 36 * fc;
    let mut payloads = Vec::new();
    let mut offs = Vec::new();
    for (_, stored, _, _) in files {
        offs.push(records_end + payloads.len());
        payloads.extend_from_slice(stored);
    }
    let name_table_offset = records_end + payloads.len();
    let mut out = Vec::new();
    out.extend_from_slice(b"BTDX");
    out.extend_from_slice(&1u32.to_le_bytes());
    out.extend_from_slice(b"GNRL");
    out.extend_from_slice(&(fc as u32).to_le_bytes());
    out.extend_from_slice(&(name_table_offset as u64).to_le_bytes());
    for (i, (_, stored, compressed, uncomp)) in files.iter().enumerate() {
        out.extend_from_slice(&[0u8; 16]);
        out.extend_from_slice(&(offs[i] as u64).to_le_bytes());
        let csize = if *compressed { stored.len() as u32 } else { 0 };
        out.extend_from_slice(&csize.to_le_bytes());
        out.extend_from_slice(&uncomp.to_le_bytes());
        out.extend_from_slice(&[0x0D, 0xF0, 0xAD, 0xBA]);
    }
    out.extend_from_slice(&payloads);
    for (n, _, _, _) in files {
        out.extend_from_slice(&(n.len() as u16).to_le_bytes());
        out.extend_from_slice(n.as_bytes());
    }
    out
}

/// Builds a texture BA2 archive with one texture of one chunk.
fn build_ba2_texture(name: &str, payload: &[u8]) -> Vec<u8> {
    let records_end = 24 + 24 + 24;
    let name_table_offset = records_end + payload.len();
    let mut out = Vec::new();
    out.extend_from_slice(b"BTDX");
    out.extend_from_slice(&1u32.to_le_bytes());
    out.extend_from_slice(b"DX10");
    out.extend_from_slice(&1u32.to_le_bytes());
    out.extend_from_slice(&(name_table_offset as u64).to_le_bytes());
    // texture header
    out.extend_from_slice(&[0u8; 12]);
    out.push(0); // unknown
    out.push(1); // one chunk
    out.extend_from_slice(&24u16.to_le_bytes());
    out.extend_from_slice(&128u16.to_le_bytes());
    out.extend_from_slice(&256u16.to_le_bytes());
    out.push(1); // mipmaps
    out.push(98); // dxgi format
    out.extend_from_slice(&0u16.to_le_bytes());
    // chunk
    out.extend_from_slice(&(records_end as u64).to_le_bytes());
    out.extend_from_slice(&0u32.to_le_bytes());
    out.extend_from_slice(&(payload.len() as u32).to_le_bytes());
    out.extend_from_slice(&0u16.to_le_bytes());
    out.extend_from_slice(&0u16.to_le_bytes());
    out.extend_from_slice(&[0x0D, 0xF0, 0xAD, 0xBA]);
    out.extend_from_slice(payload);
    out.extend_from_slice(&(name.len() as u16).to_le_bytes());
    out.extend_from_slice(name.as_bytes());
    out
}

#[test]
fn mw_round_trip_entry_count_and_raw_extract() {
    let data = build_mw(&[("meshes/a.nif", vec![1, 2, 3]), ("icons/b.dds", vec![4, 5])]);
    let archive = bsa::from_file("test.bsa".to_string(), data.clone()).unwrap();
    assert_eq!(archive.header.file_count, 2);
    assert!(matches!(archive.header.version, bsa::Version::MORROWIND));
    assert_eq!(archive.file_hashmap.len(), archive.header.file_count);

    let mut reader = TESReader::from_reader(data);
    let a = archive
        .extract_by_name(&mut reader, &"meshes/a.nif".to_string())
        .unwrap();
    assert_eq!(a, vec![1, 2, 3]);
    let b = archive
        .extract_by_name(&mut reader, &"icons/b.dds".to_string())
        .unwrap();
    assert_eq!(b, vec![4, 5]);
}

#[test]
fn mw_missing_entry_is_not_found() {
    let data = build_mw(&[("a.nif", vec![1])]);
    let archive = bsa::from_file("test.bsa".to_string(), data.clone()).unwrap();
    let mut reader = TESReader::from_reader(data);
    let r = archive.extract_by_name(&mut reader, &"nope.nif".to_string());
    match r {
        Err(TESError::NotFound(msg)) => assert!(msg.contains("nope.nif")),
        _ => unreachable!(),
    }
}

#[test]
fn mw_truncated_archive_is_short_read() {
    let mut data = build_mw(&[("a.nif", vec![1, 2, 3])]);
    data.truncate(10);
    let r = bsa::from_file("test.bsa".to_string(), data);
    assert!(matches!(r, Err(TESError::ShortRead(_))));
}

#[test]
fn mw_hash_offset_underflow_is_structural() {
    let mut data = build_mw(&[("a.nif", vec![1])]);
    // hash_offset smaller than the 12 bytes per file it must bound
    data[4..8].copy_from_slice(&1u32.to_le_bytes());
    let r = bsa::from_file("test.bsa".to_string(), data);
    assert!(matches!(r, Err(TESError::StructuralParseError(_))));
}

#[test]
fn bad_magic_is_structural_and_no_archive_is_built() {
    let data = b"XXXXrest of the file".to_vec();
    let r = bsa::from_file("test.bsa".to_string(), data);
    assert!(matches!(r, Err(TESError::StructuralParseError(_))));
}

#[test]
fn missing_magic_is_short_read() {
    let r = bsa::from_file("test.bsa".to_string(), vec![0x42, 0x53]);
    assert!(matches!(r, Err(TESError::ShortRead(_))));
}

const INCLUDE_FILE_NAMES: u32 = 0x2;
const COMPRESSED_ARCHIVE: u32 = 0x4;
const EMBED_FILE_NAMES: u32 = 0x100;

#[test]
fn ob_positional_pairing_in_order() {
    let folders: Vec<(&str, Vec<(&str, bool, Vec<u8>)>)> = vec![
        ("f1", vec![("file1.nif", false, vec![1])]),
        ("f2", vec![("file2.nif", false, vec![2])]),
        ("f3", vec![("file3.nif", false, vec![3])]),
    ];
    let data = build_ob(0x67, INCLUDE_FILE_NAMES, &folders);
    let archive = bsa::from_file("test.bsa".to_string(), data.clone()).unwrap();
    assert_eq!(archive.file_hashmap.len(), 3);
    let keys = archive.get_by_extension(&ExtensionSet::All);
    assert_eq!(keys, vec!["f1/file1.nif", "f2/file2.nif", "f3/file3.nif"]);
    let mut reader = TESReader::from_reader(data);
    for (i, key) in keys.iter().enumerate() {
        let bytes = archive.extract_by_name(&mut reader, key).unwrap();
        assert_eq!(bytes, vec![(i + 1) as u8]);
    }
}

#[test]
fn ob_zlib_extract_matches_length_hint() {
    let original = b"oblivion zlib payload, long enough to squeeze".to_vec();
    let mut stored = (original.len() as u32).to_le_bytes().to_vec();
    stored.extend_from_slice(&zlib_compress(&original));
    let folders: Vec<(&str, Vec<(&str, bool, Vec<u8>)>)> =
        vec![("dir", vec![("a.nif", false, stored.clone())])];
    let data = build_ob(0x68, INCLUDE_FILE_NAMES | COMPRESSED_ARCHIVE, &folders);
    let archive = bsa::from_file("test.bsa".to_string(), data.clone()).unwrap();
    let mut reader = TESReader::from_reader(data);
    let out = archive
        .extract_by_name(&mut reader, &"dir/a.nif".to_string())
        .unwrap();
    assert_eq!(out, original);
    let hint = u32::from_le_bytes([stored[0], stored[1], stored[2], stored[3]]);
    assert_eq!(out.len() as u32, hint);
}

#[test]
fn ob_compression_override_inverts_default() {
    let original = b"compressed one".to_vec();
    let mut compressed_stored = (original.len() as u32).to_le_bytes().to_vec();
    compressed_stored.extend_from_slice(&zlib_compress(&original));
    let raw = vec![7, 8, 9];
    let folders: Vec<(&str, Vec<(&str, bool, Vec<u8>)>)> = vec![(
        "d",
        vec![
            // follows the archive-wide default: compressed
            ("default.nif", false, compressed_stored),
            // override bit set: inverts the default, stored raw
            ("override.nif", true, raw.clone()),
        ],
    )];
    let data = build_ob(0x68, INCLUDE_FILE_NAMES | COMPRESSED_ARCHIVE, &folders);
    let archive = bsa::from_file("test.bsa".to_string(), data.clone()).unwrap();
    let mut reader = TESReader::from_reader(data);
    let a = archive
        .extract_by_name(&mut reader, &"d/default.nif".to_string())
        .unwrap();
    assert_eq!(a, original);
    let b = archive
        .extract_by_name(&mut reader, &"d/override.nif".to_string())
        .unwrap();
    assert_eq!(b, raw);
}

#[test]
fn ob_override_on_uncompressed_archive_compresses() {
    let original = b"inverted to compressed".to_vec();
    let mut stored = (original.len() as u32).to_le_bytes().to_vec();
    stored.extend_from_slice(&zlib_compress(&original));
    let folders: Vec<(&str, Vec<(&str, bool, Vec<u8>)>)> =
        vec![("d", vec![("a.nif", true, stored)])];
    let data = build_ob(0x68, INCLUDE_FILE_NAMES, &folders);
    let archive = bsa::from_file("test.bsa".to_string(), data.clone()).unwrap();
    let mut reader = TESReader::from_reader(data);
    let out = archive
        .extract_by_name(&mut reader, &"d/a.nif".to_string())
        .unwrap();
    assert_eq!(out, original);
}

#[test]
fn ob_embedded_name_is_stripped() {
    // version 0x68 with EMBED_FILE_NAMES: the data block starts with a
    // length-prefixed name that extraction must strip.
    let payload = vec![42, 43, 44];
    let mut stored = vec![5u8];
    stored.extend_from_slice(b"d/a.x");
    stored.extend_from_slice(&payload);
    let folders: Vec<(&str, Vec<(&str, bool, Vec<u8>)>)> =
        vec![("d", vec![("a.x", false, stored)])];
    let data = build_ob(0x68, INCLUDE_FILE_NAMES | EMBED_FILE_NAMES, &folders);
    let archive = bsa::from_file("test.bsa".to_string(), data.clone()).unwrap();
    let mut reader = TESReader::from_reader(data);
    let out = archive
        .extract_by_name(&mut reader, &"d/a.x".to_string())
        .unwrap();
    assert_eq!(out, payload);
}

#[test]
fn ob_embedded_name_flag_ignored_for_oblivion_version() {
    // For version 0x67 the flag is known to be a lie: blocks hold no name.
    let payload = vec![42, 43, 44];
    let folders: Vec<(&str, Vec<(&str, bool, Vec<u8>)>)> =
        vec![("d", vec![("a.x", false, payload.clone())])];
    let data = build_ob(0x67, INCLUDE_FILE_NAMES | EMBED_FILE_NAMES, &folders);
    let archive = bsa::from_file("test.bsa".to_string(), data.clone()).unwrap();
    let mut reader = TESReader::from_reader(data);
    let out = archive
        .extract_by_name(&mut reader, &"d/a.x".to_string())
        .unwrap();
    assert_eq!(out, payload);
}

#[test]
fn sse_lz4_extract_round_trip() {
    let original = b"special edition lz4 payload payload payload".to_vec();
    let mut stored = (original.len() as u32).to_le_bytes().to_vec();
    stored.extend_from_slice(&lz4_compress(&original));
    let folders: Vec<(&str, Vec<(&str, bool, Vec<u8>)>)> =
        vec![("d", vec![("a.nif", false, stored)])];
    let data = build_ob(0x69, INCLUDE_FILE_NAMES | COMPRESSED_ARCHIVE, &folders);
    let archive = bsa::from_file("test.bsa".to_string(), data.clone()).unwrap();
    assert!(matches!(archive.header.version, bsa::Version::SKYRIMSE));
    let mut reader = TESReader::from_reader(data);
    let out = archive
        .extract_by_name(&mut reader, &"d/a.nif".to_string())
        .unwrap();
    assert_eq!(out, original);
}

#[test]
fn ob_corrupt_stream_is_decompression_error() {
    let stored = vec![4, 0, 0, 0, 0xde, 0xad, 0xbe, 0xef];
    let folders: Vec<(&str, Vec<(&str, bool, Vec<u8>)>)> =
        vec![("d", vec![("a.nif", false, stored)])];
    let data = build_ob(0x68, INCLUDE_FILE_NAMES | COMPRESSED_ARCHIVE, &folders);
    let archive = bsa::from_file("test.bsa".to_string(), data.clone()).unwrap();
    let mut reader = TESReader::from_reader(data);
    let r = archive.extract_by_name(&mut reader, &"d/a.nif".to_string());
    assert!(matches!(r, Err(TESError::DecompressionError(_))));
}

#[test]
fn ob_without_name_block_is_unsupported() {
    let folders: Vec<(&str, Vec<(&str, bool, Vec<u8>)>)> =
        vec![("d", vec![("a.nif", false, vec![1])])];
    let data = build_ob(0x68, 0, &folders);
    let r = bsa::from_file("test.bsa".to_string(), data);
    assert!(matches!(r, Err(TESError::UnsupportedFeature(_))));
}

#[test]
fn ob_unknown_version_is_structural() {
    let folders: Vec<(&str, Vec<(&str, bool, Vec<u8>)>)> =
        vec![("d", vec![("a.nif", false, vec![1])])];
    let mut data = build_ob(0x68, INCLUDE_FILE_NAMES, &folders);
    data[4..8].copy_from_slice(&0x99u32.to_le_bytes());
    let r = bsa::from_file("test.bsa".to_string(), data);
    assert!(matches!(r, Err(TESError::StructuralParseError(_))));
}

#[test]
fn ob_undefined_flag_bits_are_structural() {
    let folders: Vec<(&str, Vec<(&str, bool, Vec<u8>)>)> =
        vec![("d", vec![("a.nif", false, vec![1])])];
    let data = build_ob(0x68, INCLUDE_FILE_NAMES | 0x8000_0000, &folders);
    let r = bsa::from_file("test.bsa".to_string(), data);
    assert!(matches!(r, Err(TESError::StructuralParseError(_))));
}

#[test]
fn extension_filtering() {
    let data = build_mw(&[
        ("a.nif", vec![1]),
        ("b.dds", vec![2]),
        ("c.txt", vec![3]),
    ]);
    let archive = bsa::from_file("test.bsa".to_string(), data).unwrap();

    let filter = ExtensionSet::List(vec!["nif".to_string(), "dds".to_string()]);
    assert_eq!(archive.get_by_extension(&filter), vec!["a.nif", "b.dds"]);
    assert_eq!(
        archive.get_by_extension(&ExtensionSet::All),
        vec!["a.nif", "b.dds", "c.txt"]
    );
    let none: Vec<String> = archive.get_by_extension(&ExtensionSet::Empty);
    assert!(none.is_empty());
}

#[test]
fn extensionless_keys_match_any_list_filter() {
    let data = build_mw(&[("readme", vec![1]), ("a.nif", vec![2])]);
    let archive = bsa::from_file("test.bsa".to_string(), data).unwrap();
    let filter = ExtensionSet::List(vec!["dds".to_string()]);
    assert_eq!(archive.get_by_extension(&filter), vec!["readme"]);
}

#[test]
fn is_match_cases() {
    let list = ExtensionSet::List(vec!["nif".to_string(), "dds".to_string()]);
    assert!(list.is_match("nif"));
    assert!(list.is_match("dds"));
    assert!(!list.is_match("txt"));
    assert!(ExtensionSet::All.is_match("anything"));
    assert!(!ExtensionSet::Empty.is_match("nif"));
}

#[test]
fn extract_by_extension_returns_matching_pairs() {
    let data = build_mw(&[("a.nif", vec![1, 1]), ("b.txt", vec![2, 2])]);
    let archive = bsa::from_file("test.bsa".to_string(), data.clone()).unwrap();
    let mut reader = TESReader::from_reader(data);
    let filter = ExtensionSet::List(vec!["nif".to_string()]);
    let pairs = archive.extract_by_extension(&mut reader, &filter).unwrap();
    assert_eq!(pairs.len(), 1);
    assert_eq!(pairs[0].0, "a.nif");
    assert_eq!(pairs[0].1, vec![1, 1]);

    let all = archive
        .extract_by_extension(&mut reader, &ExtensionSet::All)
        .unwrap();
    assert_eq!(all.len(), 2);
}

#[test]
fn duplicate_names_collapse_to_one_entry() {
    // The index replaces the value of a repeated key, like a map insert.
    let data = build_mw(&[("same.nif", vec![1]), ("same.nif", vec![2])]);
    let archive = bsa::from_file("test.bsa".to_string(), data.clone()).unwrap();
    assert_eq!(archive.header.file_count, 2);
    assert_eq!(archive.file_hashmap.len(), 1);
    let mut reader = TESReader::from_reader(data);
    let out = archive
        .extract_by_name(&mut reader, &"same.nif".to_string())
        .unwrap();
    assert_eq!(out, vec![2]);
}

#[test]
fn mw_empty_archive_has_no_entries() {
    let data = build_mw(&[]);
    let archive = bsa::from_file("test.bsa".to_string(), data).unwrap();
    assert_eq!(archive.header.file_count, 0);
    assert_eq!(archive.file_hashmap.len(), 0);
}

#[test]
fn ob_folder_without_files_is_structural() {
    let folders: Vec<(&str, Vec<(&str, bool, Vec<u8>)>)> = vec![("d", vec![])];
    let data = build_ob(0x68, INCLUDE_FILE_NAMES, &folders);
    let r = bsa::from_file("test.bsa".to_string(), data);
    assert!(matches!(r, Err(TESError::StructuralParseError(_))));
}

#[test]
fn empty_filter_extracts_nothing_and_reads_nothing() {
    let data = build_mw(&[("a.nif", vec![1, 2, 3])]);
    let archive = bsa::from_file("test.bsa".to_string(), data.clone()).unwrap();
    // A reader over an empty buffer: any actual read would fail, so an empty
    // result shows no entry was touched.
    let mut reader = TESReader::from_reader(Vec::new());
    let pairs = archive
        .extract_by_extension(&mut reader, &ExtensionSet::Empty)
        .unwrap();
    assert!(pairs.is_empty());
}

#[test]
fn ba2_general_round_trip() {
    let raw = vec![10, 11, 12, 13];
    let original = b"ba2 zlib compressed content".to_vec();
    let compressed = zlib_compress(&original);
    let files = vec![
        ("textures/raw.dds", raw.clone(), false, raw.len() as u32),
        ("meshes/comp.nif", compressed, true, original.len() as u32),
    ];
    let data = build_ba2_general(&files);
    let archive = ba2::from_file("test.ba2".to_string(), data.clone()).unwrap();
    assert_eq!(archive.header.file_count, 2);
    assert!(matches!(archive.header.file_type, ba2::BA2Type::General));
    assert_eq!(archive.file_hashmap.len(), 2);

    let mut reader = TESReader::from_reader(data);
    let a = archive
        .extract_by_name(&mut reader, &"textures/raw.dds".to_string())
        .unwrap();
    assert_eq!(a, raw);
    let b = archive
        .extract_by_name(&mut reader, &"meshes/comp.nif".to_string())
        .unwrap();
    assert_eq!(b, original);
}

#[test]
fn ba2_texture_extraction_is_unsupported() {
    let data = build_ba2_texture("textures/t.dds", &[1, 2, 3, 4]);
    let archive = ba2::from_file("test.ba2".to_string(), data.clone()).unwrap();
    assert_eq!(archive.file_hashmap.len(), 1);
    let mut reader = TESReader::from_reader(data);
    let r = archive.extract_by_name(&mut reader, &"textures/t.dds".to_string());
    assert!(matches!(r, Err(TESError::UnsupportedFeature(_))));
}

#[test]
fn ba2_bad_magic_is_structural() {
    let mut data = build_ba2_general(&[("a", vec![1], false, 1)]);
    data[0] = b'X';
    let r = ba2::from_file("test.ba2".to_string(), data);
    assert!(matches!(r, Err(TESError::StructuralParseError(_))));
}

#[test]
fn ba2_unknown_type_tag_is_structural() {
    let mut data = build_ba2_general(&[("a", vec![1], false, 1)]);
    data[8..12].copy_from_slice(b"WXYZ");
    let r = ba2::from_file("test.ba2".to_string(), data);
    assert!(matches!(r, Err(TESError::StructuralParseError(_))));
}

#[test]
fn ba2_missing_sentinel_is_structural() {
    let mut data = build_ba2_general(&[("a", vec![1], false, 1)]);
    // record sentinel sits at the end of the first 36-byte record
    data[24 + 32] = 0;
    let r = ba2::from_file("test.ba2".to_string(), data);
    assert!(matches!(r, Err(TESError::StructuralParseError(_))));
}

#[test]
fn ba2_texture_without_chunks_is_structural() {
    let mut data = build_ba2_texture("t.dds", &[1, 2, 3]);
    // zero out the chunk count in the texture header
    data[24 + 13] = 0;
    let r = ba2::from_file("test.ba2".to_string(), data);
    assert!(matches!(r, Err(TESError::StructuralParseError(_))));
}

#[test]
fn ba2_truncated_is_short_read() {
    let mut data = build_ba2_general(&[("a", vec![1], false, 1)]);
    data.truncate(20);
    let r = ba2::from_file("test.ba2".to_string(), data);
    assert!(matches!(r, Err(TESError::ShortRead(_))));
}
