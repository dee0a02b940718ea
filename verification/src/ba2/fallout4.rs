//! Fallout 4 BA2 decoding.
//!
//! On-disk layout:
//!
//! ```text
//! | header         | 24 bytes: BTDX magic, version, payload tag,         |
//! |                | file count, name table offset                       |
//! | file records   | general: 36 bytes per file, ending in a sentinel;   |
//! |                | textures: a 24-byte texture header per file, then   |
//! |                | 24 bytes per chunk, each ending in a sentinel       |
//! | raw file data  | chunk offsets are absolute                          |
//! | name table     | one 2-byte-length-prefixed name per file, paired    |
//! |                | positionally with the records in order              |
//! ```
//!
//! The name table is read first, the records second; the i-th name belongs
//! to the i-th record.

use vstd::prelude::*;

use crate::archive::build_map;
use crate::archive::contains_key;
use crate::archive::distinct_keys;
use crate::archive::Extract;
use crate::archive::key_index;
use crate::archive::lemma_build_map_of_distinct;
use crate::archive::spec_insert;
use crate::archive::FileMap;
use crate::error::ErrorKind;
use crate::error::TESError;
use crate::reader::latin1;
use crate::reader::le16_at;
use crate::reader::le32_at;
use crate::reader::le64_at;
use crate::reader::TESReader;

use super::types::BA2File;
use super::types::BA2FileChunk;
use super::types::BA2FileModel;
use super::types::BA2Header;
use super::types::BA2TextureHeader;
use super::types::BA2Type;
use super::types::BA2Version;
use super::BA2Archive;

verus! {

broadcast use TESReader::lemma_pos_nonneg;

/// The magic bytes that open a BA2 archive: `BTDX`.
pub open spec fn btdx_magic() -> Seq<u8> {
    seq![0x42u8, 0x54u8, 0x44u8, 0x58u8]
}

/// The payload tag of a general archive: `GNRL`.
pub open spec fn gnrl_tag() -> Seq<u8> {
    seq![0x47u8, 0x4Eu8, 0x52u8, 0x4Cu8]
}

/// The payload tag of a texture archive: `DX10`.
pub open spec fn dx10_tag() -> Seq<u8> {
    seq![0x44u8, 0x58u8, 0x31u8, 0x30u8]
}

/// The 4-byte sentinel that ends every file record and every chunk record,
/// stored little-endian on disk.
pub open spec fn record_sentinel() -> Seq<u8> {
    seq![0x0Du8, 0xF0u8, 0xADu8, 0xBAu8]
}

/// The archive's name table read from `pos`: `n` names, each prefixed with a
/// 2-byte length, decoded and kept in order. The result carries the position
/// where the table ends.
pub open spec fn ba2_names(data: Seq<u8>, pos: int, n: nat) -> Result<(Seq<Seq<char>>, int), ErrorKind>
    decreases n,
{
    if n == 0 {
        Ok((seq![], pos))
    } else if pos + 2 > data.len() {
        Err(ErrorKind::ShortRead)
    } else {
        let len = le16_at(data, pos) as int;
        if pos + 2 + len > data.len() {
            Err(ErrorKind::ShortRead)
        } else {
            match ba2_names(data, pos + 2 + len, (n - 1) as nat) {
                Err(k) => Err(k),
                Ok(rest) => Ok((seq![latin1(data.subrange(pos + 2, pos + 2 + len))] + rest.0, rest.1)),
            }
        }
    }
}

/// The normalized general entry stored at `pos`: no texture header and one
/// chunk holding the entry's absolute offset and its compressed and
/// uncompressed sizes.
pub open spec fn ba2_general_at(data: Seq<u8>, pos: int) -> BA2FileModel {
    BA2FileModel {
        header: None,
        chunks: seq![
            BA2FileChunk {
                content_offset: le64_at(data, pos + 16),
                compressed_size: le32_at(data, pos + 24),
                uncompressed_size: le32_at(data, pos + 28),
            },
        ],
    }
}

/// The `n` general file records stored back to back from `pos`, each 36
/// bytes and ending in the record sentinel; a wrong sentinel is a structural
/// error.
pub open spec fn ba2_generals(data: Seq<u8>, pos: int, n: nat) -> Result<Seq<BA2FileModel>, ErrorKind>
    decreases n,
{
    if n == 0 {
        Ok(seq![])
    } else if data.subrange(pos + 32, pos + 36) != record_sentinel() {
        Err(ErrorKind::StructuralParse)
    } else {
        match ba2_generals(data, pos + 36, (n - 1) as nat) {
            Err(k) => Err(k),
            Ok(rest) => Ok(seq![ba2_general_at(data, pos)] + rest),
        }
    }
}

/// The chunk record stored at `pos`.
pub open spec fn ba2_chunk_at(data: Seq<u8>, pos: int) -> BA2FileChunk {
    BA2FileChunk {
        content_offset: le64_at(data, pos),
        compressed_size: le32_at(data, pos + 8),
        uncompressed_size: le32_at(data, pos + 12),
    }
}

/// The `n` chunk records stored back to back from `pos`, each 24 bytes and
/// ending in the record sentinel; a wrong sentinel is a structural error.
pub open spec fn ba2_chunks(data: Seq<u8>, pos: int, n: nat) -> Result<Seq<BA2FileChunk>, ErrorKind>
    decreases n,
{
    if n == 0 {
        Ok(seq![])
    } else if data.subrange(pos + 20, pos + 24) != record_sentinel() {
        Err(ErrorKind::StructuralParse)
    } else {
        match ba2_chunks(data, pos + 24, (n - 1) as nat) {
            Err(k) => Err(k),
            Ok(rest) => Ok(seq![ba2_chunk_at(data, pos)] + rest),
        }
    }
}

/// The texture header stored at `pos`.
pub open spec fn ba2_texture_header_at(data: Seq<u8>, pos: int) -> BA2TextureHeader {
    BA2TextureHeader {
        num_chunks: data[pos + 13] as usize,
        chunk_header_size: le16_at(data, pos + 14),
        height: le16_at(data, pos + 16),
        width: le16_at(data, pos + 18),
        num_mipmaps: data[pos + 20],
        dxgi_format: data[pos + 21],
    }
}

/// The `n` texture entries read from `pos`: each a 24-byte texture header
/// followed by its chunk records. A texture declaring no chunks is a
/// structural error; a header or chunk table running past the data is a
/// short read. The result carries the position where the entries end.
pub open spec fn ba2_textures(data: Seq<u8>, pos: int, n: nat) -> Result<
    (Seq<BA2FileModel>, int),
    ErrorKind,
>
    decreases n,
{
    if n == 0 {
        Ok((seq![], pos))
    } else if pos + 24 > data.len() {
        Err(ErrorKind::ShortRead)
    } else {
        let nc = data[pos + 13] as int;
        if nc == 0 {
            Err(ErrorKind::StructuralParse)
        } else if pos + 24 + 24 * nc > data.len() {
            Err(ErrorKind::ShortRead)
        } else {
            match ba2_chunks(data, pos + 24, nc as nat) {
                Err(k) => Err(k),
                Ok(chunks) => match ba2_textures(data, pos + 24 + 24 * nc, (n - 1) as nat) {
                    Err(k) => Err(k),
                    Ok(rest) => Ok(
                        (
                            seq![
                                BA2FileModel {
                                    header: Some(ba2_texture_header_at(data, pos)),
                                    chunks,
                                },
                            ] + rest.0,
                            rest.1,
                        ),
                    ),
                },
            }
        }
    }
}

/// The ordered key/entry pairs of a BA2 archive: the i-th name of the name
/// table belongs to the i-th file record, and a surplus of either is
/// dropped.
pub open spec fn ba2_zip(names: Seq<Seq<char>>, files: Seq<BA2FileModel>) -> Seq<
    (Seq<char>, BA2FileModel),
> {
    let n = if files.len() < names.len() {
        files.len() as int
    } else {
        names.len() as int
    };
    Seq::new(n as nat, |i: int| (names[i], files[i]))
}

/// The normalized header of a BA2 archive.
pub open spec fn ba2_header_of(data: Seq<u8>) -> BA2Header {
    BA2Header {
        version: BA2Version::Fallout4,
        file_type: if data.subrange(8, 12) == gnrl_tag() {
            BA2Type::General
        } else {
            BA2Type::Textures
        },
        file_count: le32_at(data, 12) as usize,
        name_table_offset: le64_at(data, 16),
    }
}

/// What parsing a BA2 archive returns over the archive's bytes: the
/// normalized header and the ordered key/entry pairs, or the error that
/// aborts the parse. A wrong magic, version or payload tag, a missing
/// record sentinel, or a general archive declaring no files is a structural
/// error; data running out anywhere is a short read. The name table is read
/// first, from the offset the header gives.
pub open spec fn spec_parse_ba2(data: Seq<u8>) -> Result<
    (BA2Header, Seq<(Seq<char>, BA2FileModel)>),
    ErrorKind,
> {
    if data.len() < 24 {
        Err(ErrorKind::ShortRead)
    } else if data.subrange(0, 4) != btdx_magic() {
        Err(ErrorKind::StructuralParse)
    } else if le32_at(data, 4) != 1 {
        Err(ErrorKind::StructuralParse)
    } else if data.subrange(8, 12) != gnrl_tag() && data.subrange(8, 12) != dx10_tag() {
        Err(ErrorKind::StructuralParse)
    } else {
        let fc = le32_at(data, 12) as int;
        let nto = le64_at(data, 16) as int;
        match ba2_names(data, nto, fc as nat) {
            Err(k) => Err(k),
            Ok(names_end) => {
                if data.subrange(8, 12) == gnrl_tag() {
                    if fc == 0 {
                        Err(ErrorKind::StructuralParse)
                    } else if 24 + 36 * fc > data.len() {
                        Err(ErrorKind::ShortRead)
                    } else {
                        match ba2_generals(data, 24, fc as nat) {
                            Err(k) => Err(k),
                            Ok(files) => Ok((ba2_header_of(data), ba2_zip(names_end.0, files))),
                        }
                    }
                } else {
                    match ba2_textures(data, 24, fc as nat) {
                        Err(k) => Err(k),
                        Ok(files_end) => Ok(
                            (ba2_header_of(data), ba2_zip(names_end.0, files_end.0)),
                        ),
                    }
                }
            },
        }
    }
}

/// Entry-count law for BA2 archives: when parsing succeeds with one name for
/// each declared record and the names are pairwise distinct, the built index
/// holds exactly the header's declared number of entries.
pub proof fn lemma_ba2_entry_count(data: Seq<u8>)
    requires
        spec_parse_ba2(data) is Ok,
        distinct_keys(spec_parse_ba2(data)->Ok_0.1),
        spec_parse_ba2(data)->Ok_0.1.len() == spec_parse_ba2(data)->Ok_0.0.file_count,
    ensures
        build_map(spec_parse_ba2(data)->Ok_0.1).len() == spec_parse_ba2(data)->Ok_0.0.file_count,
{
    lemma_build_map_of_distinct(spec_parse_ba2(data)->Ok_0.1);
}

/// An executable entry list viewed at the specification level, each entry
/// replaced by its mathematical shape.
pub open spec fn entries_view(m: Seq<(Seq<char>, BA2File)>) -> Seq<(Seq<char>, BA2FileModel)> {
    m.map_values(|p: (Seq<char>, BA2File)| (p.0, p.1@))
}

/// An executable file list viewed at the specification level.
spec fn files_view(s: Seq<BA2File>) -> Seq<BA2FileModel> {
    s.map_values(|f: BA2File| f@)
}

/// Inserting commutes with taking the entry list's view, as long as the keys
/// are distinct.
proof fn lemma_entries_view_insert(s: Seq<(Seq<char>, BA2File)>, k: Seq<char>, v: BA2File)
    requires
        distinct_keys(s),
    ensures
        entries_view(spec_insert(s, k, v)) == spec_insert(entries_view(s), k, v@),
{
    let sv = entries_view(s);
    assert(sv.len() == s.len());
    if contains_key(s, k) {
        let i = key_index(s, k);
        assert(0 <= i < s.len() && s[i].0 == k);
        assert(sv[i].0 == k);
        assert(contains_key(sv, k));
        let j = key_index(sv, k);
        assert(0 <= j < sv.len() && sv[j].0 == k);
        assert(s[j].0 == k);
        assert(j == i);
        assert(entries_view(s.update(i, (k, v))) =~~= sv.update(i, (k, v@)));
    } else {
        assert(!contains_key(sv, k)) by {
            if contains_key(sv, k) {
                let j = key_index(sv, k);
                assert(s[j].0 == k);
            }
        }
        assert(entries_view(s.push((k, v))) =~~= sv.push((k, v@)));
    }
}

/// Reads the archive's name table: one 2-byte-length-prefixed name per file.
fn read_names(reader: &mut TESReader, count: u32) -> (r: Result<Vec<String>, TESError>)
    ensures
        final(reader).bytes() == old(reader).bytes(),
        match r {
            Ok(v) => ba2_names(old(reader).bytes(), old(reader).pos(), count as nat) == Ok::<
                (Seq<Seq<char>>, int),
                ErrorKind,
            >((v.deep_view(), final(reader).pos())),
            Err(e) => ba2_names(old(reader).bytes(), old(reader).pos(), count as nat) == Err::<
                (Seq<Seq<char>>, int),
                ErrorKind,
            >(e.kind()),
        },
{
    let ghost data = reader.bytes();
    let ghost pos0 = reader.pos();
    let mut names: Vec<String> = Vec::new();
    let mut i: u32 = 0;
    proof {
        assert(names.deep_view() =~= Seq::<Seq<char>>::empty());
        let init = ba2_names(data, pos0, count as nat);
        if init is Ok {
            assert(names.deep_view() + init->Ok_0.0 =~= init->Ok_0.0);
        }
    }
    while i < count
        invariant
            data == reader.bytes(),
            data == old(reader).bytes(),
            pos0 == old(reader).pos(),
            i <= count,
            ba2_names(data, pos0, count as nat) == (match ba2_names(
                data,
                reader.pos(),
                (count - i) as nat,
            ) {
                Err(k) => Err::<(Seq<Seq<char>>, int), ErrorKind>(k),
                Ok(rest) => Ok::<(Seq<Seq<char>>, int), ErrorKind>(
                    (names.deep_view() + rest.0, rest.1),
                ),
            }),
        decreases count - i,
    {
        let name = reader.parse_long_bstring()?;
        let ghost dv = names.deep_view();
        let ghost namev = name@;
        names.push(name);
        proof {
            assert(names.deep_view() =~= dv.push(namev));
            let rest_after = ba2_names(data, reader.pos(), (count - i - 1) as nat);
            if rest_after is Ok {
                let rest = rest_after->Ok_0;
                assert(dv + (seq![namev] + rest.0) =~= dv.push(namev) + rest.0);
            }
        }
        i = i + 1;
    }
    Ok(names)
}

/// Reads the general file records, 36 bytes each, checking each record's
/// sentinel.
fn read_general_files(reader: &mut TESReader, count: u32) -> (r: Result<Vec<BA2File>, TESError>)
    requires
        old(reader).can_read(36 * count as int),
    ensures
        final(reader).bytes() == old(reader).bytes(),
        match r {
            Ok(v) => {
                &&& ba2_generals(old(reader).bytes(), old(reader).pos(), count as nat) == Ok::<
                    Seq<BA2FileModel>,
                    ErrorKind,
                >(files_view(v@))
                &&& forall|k: int|
                    0 <= k < v@.len() ==> (#[trigger] v@[k]).header is None && v@[k].chunks@.len()
                        == 1
            },
            Err(e) => ba2_generals(old(reader).bytes(), old(reader).pos(), count as nat) == Err::<
                Seq<BA2FileModel>,
                ErrorKind,
            >(e.kind()),
        },
{
    let ghost data = reader.bytes();
    let ghost pos0 = reader.pos();
    let mut files: Vec<BA2File> = Vec::new();
    let mut i: u32 = 0;
    proof {
        assert(files_view(files@) =~= Seq::<BA2FileModel>::empty());
        let init = ba2_generals(data, pos0, count as nat);
        if init is Ok {
            assert(files_view(files@) + init->Ok_0 =~= init->Ok_0);
        }
    }
    while i < count
        invariant
            data == reader.bytes(),
            data == old(reader).bytes(),
            pos0 == old(reader).pos(),
            pos0 + 36 * count as int <= data.len(),
            i <= count,
            reader.pos() == pos0 + 36 * i,
            files@.len() == i,
            forall|k: int|
                0 <= k < i ==> (#[trigger] files@[k]).header is None && files@[k].chunks@.len()
                    == 1,
            ba2_generals(data, pos0, count as nat) == (match ba2_generals(
                data,
                reader.pos(),
                (count - i) as nat,
            ) {
                Err(k) => Err::<Seq<BA2FileModel>, ErrorKind>(k),
                Ok(rest) => Ok::<Seq<BA2FileModel>, ErrorKind>(files_view(files@) + rest),
            }),
        decreases count - i,
    {
        let ghost rpos = reader.pos();
        let buf = reader.read_exact_vec(36)?;
        proof {
            assert(buf@.subrange(32, 36) =~= data.subrange(rpos + 32, rpos + 36));
            assert(buf@.subrange(16, 24) =~= data.subrange(rpos + 16, rpos + 24));
            assert(buf@.subrange(24, 28) =~= data.subrange(rpos + 24, rpos + 28));
            assert(buf@.subrange(28, 32) =~= data.subrange(rpos + 28, rpos + 32));
        }
        if !(buf[32] == 0x0D && buf[33] == 0xF0 && buf[34] == 0xAD && buf[35] == 0xBA) {
            proof {
                if data.subrange(rpos + 32, rpos + 36) == record_sentinel() {
                    assert(buf@[32] == 0x0D && buf@[33] == 0xF0 && buf@[34] == 0xAD && buf@[35]
                        == 0xBA);
                }
            }
            return Err(TESError::StructuralParseError(
                String::from_str("File record is missing its end-of-record sentinel"),
            ));
        }
        proof {
            assert(data.subrange(rpos + 32, rpos + 36) =~= record_sentinel());
        }
        let content_offset = vstd::bytes::u64_from_le_bytes(
            vstd::slice::slice_subrange(buf.as_slice(), 16, 24),
        );
        let compressed_size = vstd::bytes::u32_from_le_bytes(
            vstd::slice::slice_subrange(buf.as_slice(), 24, 28),
        );
        let uncompressed_size = vstd::bytes::u32_from_le_bytes(
            vstd::slice::slice_subrange(buf.as_slice(), 28, 32),
        );
        let mut chunks: Vec<BA2FileChunk> = Vec::new();
        chunks.push(BA2FileChunk { content_offset, compressed_size, uncompressed_size });
        let file = BA2File { header: None, chunks };
        let ghost dv = files_view(files@);
        proof {
            assert(file@.chunks =~= ba2_general_at(data, rpos).chunks);
            assert(file@ == ba2_general_at(data, rpos));
        }
        files.push(file);
        proof {
            assert(files_view(files@) =~= dv.push(ba2_general_at(data, rpos)));
            let rest_after = ba2_generals(data, reader.pos(), (count - i - 1) as nat);
            if rest_after is Ok {
                let rest = rest_after->Ok_0;
                assert(dv + (seq![ba2_general_at(data, rpos)] + rest) =~= dv.push(
                    ba2_general_at(data, rpos),
                ) + rest);
            }
        }
        i = i + 1;
    }
    Ok(files)
}

/// Reads one texture's chunk records, 24 bytes each, checking each chunk's
/// sentinel.
fn read_texture_chunks(reader: &mut TESReader, count: u8) -> (r: Result<Vec<BA2FileChunk>, TESError>)
    requires
        old(reader).can_read(24 * count as int),
    ensures
        final(reader).bytes() == old(reader).bytes(),
        match r {
            Ok(v) => {
                &&& ba2_chunks(old(reader).bytes(), old(reader).pos(), count as nat) == Ok::<
                    Seq<BA2FileChunk>,
                    ErrorKind,
                >(v@)
                &&& final(reader).pos() == old(reader).pos() + 24 * count as int
            },
            Err(e) => ba2_chunks(old(reader).bytes(), old(reader).pos(), count as nat) == Err::<
                Seq<BA2FileChunk>,
                ErrorKind,
            >(e.kind()),
        },
{
    let ghost data = reader.bytes();
    let ghost pos0 = reader.pos();
    let mut chunks: Vec<BA2FileChunk> = Vec::new();
    let mut i: u8 = 0;
    proof {
        let init = ba2_chunks(data, pos0, count as nat);
        if init is Ok {
            assert(chunks@ + init->Ok_0 =~= init->Ok_0);
        }
    }
    while i < count
        invariant
            data == reader.bytes(),
            data == old(reader).bytes(),
            pos0 == old(reader).pos(),
            pos0 + 24 * count as int <= data.len(),
            i <= count,
            reader.pos() == pos0 + 24 * i,
            ba2_chunks(data, pos0, count as nat) == (match ba2_chunks(
                data,
                reader.pos(),
                (count - i) as nat,
            ) {
                Err(k) => Err::<Seq<BA2FileChunk>, ErrorKind>(k),
                Ok(rest) => Ok::<Seq<BA2FileChunk>, ErrorKind>(chunks@ + rest),
            }),
        decreases count - i,
    {
        let ghost rpos = reader.pos();
        let buf = reader.read_exact_vec(24)?;
        proof {
            assert(buf@.subrange(20, 24) =~= data.subrange(rpos + 20, rpos + 24));
            assert(buf@.subrange(0, 8) =~= data.subrange(rpos, rpos + 8));
            assert(buf@.subrange(8, 12) =~= data.subrange(rpos + 8, rpos + 12));
            assert(buf@.subrange(12, 16) =~= data.subrange(rpos + 12, rpos + 16));
        }
        if !(buf[20] == 0x0D && buf[21] == 0xF0 && buf[22] == 0xAD && buf[23] == 0xBA) {
            proof {
                if data.subrange(rpos + 20, rpos + 24) == record_sentinel() {
                    assert(buf@[20] == 0x0D && buf@[21] == 0xF0 && buf@[22] == 0xAD && buf@[23]
                        == 0xBA);
                }
            }
            return Err(TESError::StructuralParseError(
                String::from_str("Texture chunk is missing its end-of-record sentinel"),
            ));
        }
        proof {
            assert(data.subrange(rpos + 20, rpos + 24) =~= record_sentinel());
        }
        let chunk = BA2FileChunk {
            content_offset: vstd::bytes::u64_from_le_bytes(
                vstd::slice::slice_subrange(buf.as_slice(), 0, 8),
            ),
            compressed_size: vstd::bytes::u32_from_le_bytes(
                vstd::slice::slice_subrange(buf.as_slice(), 8, 12),
            ),
            uncompressed_size: vstd::bytes::u32_from_le_bytes(
                vstd::slice::slice_subrange(buf.as_slice(), 12, 16),
            ),
        };
        let ghost dv = chunks@;
        proof {
            assert(chunk == ba2_chunk_at(data, rpos));
        }
        chunks.push(chunk);
        proof {
            let rest_after = ba2_chunks(data, reader.pos(), (count - i - 1) as nat);
            if rest_after is Ok {
                let rest = rest_after->Ok_0;
                assert(dv + (seq![ba2_chunk_at(data, rpos)] + rest) =~= dv.push(
                    ba2_chunk_at(data, rpos),
                ) + rest);
            }
        }
        i = i + 1;
    }
    Ok(chunks)
}

/// Reads the texture entries: a 24-byte texture header per file, then that
/// file's chunk records.
fn read_texture_files(reader: &mut TESReader, count: u32) -> (r: Result<Vec<BA2File>, TESError>)
    ensures
        final(reader).bytes() == old(reader).bytes(),
        match r {
            Ok(v) => {
                &&& ba2_textures(old(reader).bytes(), old(reader).pos(), count as nat) == Ok::<
                    (Seq<BA2FileModel>, int),
                    ErrorKind,
                >((files_view(v@), final(reader).pos()))
                &&& forall|k: int| 0 <= k < v@.len() ==> (#[trigger] v@[k]).header is Some
            },
            Err(e) => ba2_textures(old(reader).bytes(), old(reader).pos(), count as nat) == Err::<
                (Seq<BA2FileModel>, int),
                ErrorKind,
            >(e.kind()),
        },
{
    let ghost data = reader.bytes();
    let ghost pos0 = reader.pos();
    let mut files: Vec<BA2File> = Vec::new();
    let mut i: u32 = 0;
    proof {
        assert(files_view(files@) =~= Seq::<BA2FileModel>::empty());
        let init = ba2_textures(data, pos0, count as nat);
        if init is Ok {
            assert(files_view(files@) + init->Ok_0.0 =~= init->Ok_0.0);
        }
    }
    while i < count
        invariant
            data == reader.bytes(),
            data == old(reader).bytes(),
            pos0 == old(reader).pos(),
            i <= count,
            forall|k: int| 0 <= k < files@.len() ==> (#[trigger] files@[k]).header is Some,
            ba2_textures(data, pos0, count as nat) == (match ba2_textures(
                data,
                reader.pos(),
                (count - i) as nat,
            ) {
                Err(k) => Err::<(Seq<BA2FileModel>, int), ErrorKind>(k),
                Ok(rest) => Ok::<(Seq<BA2FileModel>, int), ErrorKind>(
                    (files_view(files@) + rest.0, rest.1),
                ),
            }),
        decreases count - i,
    {
        let ghost hpos = reader.pos();
        let buf = reader.read_exact_vec(24)?;
        proof {
            assert(buf@.subrange(14, 16) =~= data.subrange(hpos + 14, hpos + 16));
            assert(buf@.subrange(16, 18) =~= data.subrange(hpos + 16, hpos + 18));
            assert(buf@.subrange(18, 20) =~= data.subrange(hpos + 18, hpos + 20));
        }
        let num_chunks = buf[13];
        if num_chunks == 0 {
            return Err(TESError::StructuralParseError(
                String::from_str("Texture entry declares no chunks"),
            ));
        }
        let tex_header = BA2TextureHeader {
            num_chunks: num_chunks as usize,
            chunk_header_size: vstd::bytes::u16_from_le_bytes(
                vstd::slice::slice_subrange(buf.as_slice(), 14, 16),
            ),
            height: vstd::bytes::u16_from_le_bytes(
                vstd::slice::slice_subrange(buf.as_slice(), 16, 18),
            ),
            width: vstd::bytes::u16_from_le_bytes(
                vstd::slice::slice_subrange(buf.as_slice(), 18, 20),
            ),
            num_mipmaps: buf[20],
            dxgi_format: buf[21],
        };
        proof {
            assert(tex_header == ba2_texture_header_at(data, hpos));
        }
        if !reader.has_bytes(24 * num_chunks as u64) {
            return Err(TESError::ShortRead(
                String::from_str("Unexpected end of archive data"),
            ));
        }
        let tex_chunks = read_texture_chunks(reader, num_chunks)?;
        let ghost chunksv = tex_chunks@;
        let file = BA2File { header: Some(tex_header), chunks: tex_chunks };
        let ghost dv = files_view(files@);
        let ghost model = BA2FileModel {
            header: Some(ba2_texture_header_at(data, hpos)),
            chunks: chunksv,
        };
        proof {
            assert(file@ == model);
        }
        files.push(file);
        proof {
            assert(files_view(files@) =~= dv.push(model));
            let rest_after = ba2_textures(
                data,
                reader.pos(),
                (count - i - 1) as nat,
            );
            if rest_after is Ok {
                let rest = rest_after->Ok_0;
                assert(dv + (seq![model] + rest.0) =~= dv.push(model) + rest.0);
            }
        }
        i = i + 1;
    }
    Ok(files)
}

/// Parses a BA2 archive from a cursor positioned at the start of the
/// archive's bytes.
pub fn parse_ba2(path: String, reader: &mut TESReader) -> (r: Result<BA2Archive, TESError>)
    requires
        old(reader).pos() == 0,
    ensures
        final(reader).bytes() == old(reader).bytes(),
        match r {
            Ok(a) => {
                &&& spec_parse_ba2(old(reader).bytes()) is Ok
                &&& a.header == spec_parse_ba2(old(reader).bytes())->Ok_0.0
                &&& entries_view(a.file_hashmap@) == build_map(
                    spec_parse_ba2(old(reader).bytes())->Ok_0.1,
                )
                &&& a.path@ == path@
                &&& a.wf()
            },
            Err(e) => spec_parse_ba2(old(reader).bytes()) == Err::<
                (BA2Header, Seq<(Seq<char>, BA2FileModel)>),
                ErrorKind,
            >(e.kind()),
        },
{
    let ghost data = reader.bytes();
    let buf = reader.read_exact_vec(24)?;
    proof {
        assert(buf@.subrange(0, 4) =~= data.subrange(0, 4));
        assert(buf@.subrange(4, 8) =~= data.subrange(4, 8));
        assert(buf@.subrange(8, 12) =~= data.subrange(8, 12));
        assert(buf@.subrange(12, 16) =~= data.subrange(12, 16));
        assert(buf@.subrange(16, 24) =~= data.subrange(16, 24));
    }
    if !(buf[0] == 0x42 && buf[1] == 0x54 && buf[2] == 0x44 && buf[3] == 0x58) {
        proof {
            if data.subrange(0, 4) == btdx_magic() {
                assert(buf@[0] == 0x42 && buf@[1] == 0x54 && buf@[2] == 0x44 && buf@[3] == 0x58);
            }
        }
        return Err(TESError::StructuralParseError(
            String::from_str("Missing BTDX magic in BA2 header"),
        ));
    }
    proof {
        assert(data.subrange(0, 4) =~= btdx_magic());
    }
    let version_tag = vstd::bytes::u32_from_le_bytes(
        vstd::slice::slice_subrange(buf.as_slice(), 4, 8),
    );
    if version_tag != 1 {
        return Err(TESError::StructuralParseError(
            String::from_str("Unknown BA2 version tag"),
        ));
    }
    let is_general: bool = if buf[8] == 0x47 && buf[9] == 0x4E && buf[10] == 0x52 && buf[11]
        == 0x4C {
        proof {
            assert(data.subrange(8, 12) =~= gnrl_tag());
        }
        true
    } else if buf[8] == 0x44 && buf[9] == 0x58 && buf[10] == 0x31 && buf[11] == 0x30 {
        proof {
            assert(data.subrange(8, 12) =~= dx10_tag());
            assert(data.subrange(8, 12) != gnrl_tag());
        }
        false
    } else {
        proof {
            if data.subrange(8, 12) == gnrl_tag() {
                assert(buf@[8] == 0x47 && buf@[9] == 0x4E && buf@[10] == 0x52 && buf@[11] == 0x4C);
            }
            if data.subrange(8, 12) == dx10_tag() {
                assert(buf@[8] == 0x44 && buf@[9] == 0x58 && buf@[10] == 0x31 && buf@[11] == 0x30);
            }
        }
        return Err(TESError::StructuralParseError(
            String::from_str("Unknown BA2 payload type tag"),
        ));
    };
    let file_count = vstd::bytes::u32_from_le_bytes(
        vstd::slice::slice_subrange(buf.as_slice(), 12, 16),
    );
    let name_table_offset = vstd::bytes::u64_from_le_bytes(
        vstd::slice::slice_subrange(buf.as_slice(), 16, 24),
    );

    reader.seek(name_table_offset);
    let name_vec = read_names(reader, file_count)?;

    reader.seek(24);
    let files: Vec<BA2File> = if is_general {
        if file_count == 0 {
            return Err(TESError::StructuralParseError(
                String::from_str("General BA2 archive declares no files"),
            ));
        }
        if !reader.has_bytes(36 * (file_count as u64)) {
            return Err(TESError::ShortRead(
                String::from_str("Unexpected end of archive data"),
            ));
        }
        read_general_files(reader, file_count)?
    } else {
        read_texture_files(reader, file_count)?
    };

    let ghost namesv = name_vec.deep_view();
    let ghost filesv = files_view(files@);
    let ghost zip = ba2_zip(namesv, filesv);
    proof {
        assert(zip == spec_parse_ba2(data)->Ok_0.1);
        assert(files_view(files@).len() == files@.len());
        assert(name_vec.deep_view().len() == name_vec@.len());
    }

    let n = if files.len() < name_vec.len() {
        files.len()
    } else {
        name_vec.len()
    };
    let mut files = files;
    let mut file_hashmap: FileMap<BA2File> = FileMap::new();
    let mut t: usize = 0;
    proof {
        assert(zip.subrange(0, 0) =~= Seq::<(Seq<char>, BA2FileModel)>::empty());
        assert(entries_view(file_hashmap@) =~= Seq::<(Seq<char>, BA2FileModel)>::empty());
        assert(files@.skip(0) =~= files@);
    }
    while t < n
        invariant
            n == zip.len(),
            zip == ba2_zip(namesv, filesv),
            n <= filesv.len(),
            n <= name_vec@.len(),
            namesv == name_vec.deep_view(),
            namesv.len() == name_vec@.len(),
            t <= n,
            files_view(files@) == filesv.skip(t as int),
            forall|k: int| 0 <= k < files@.len() ==> (#[trigger] files@[k]).wf(),
            file_hashmap.wf(),
            entries_view(file_hashmap@) == build_map(zip.subrange(0, t as int)),
            forall|q: int| 0 <= q < file_hashmap@.len() ==> (#[trigger] file_hashmap@[q]).1.wf(),
        decreases n - t,
    {
        proof {
            assert(files@.len() == filesv.skip(t as int).len());
            assert(files_view(files@)[0] == files@[0]@);
            assert(name_vec.deep_view()[t as int] == name_vec@[t as int]@);
            assert(zip[t as int] == (namesv[t as int], filesv[t as int]));
            assert(filesv.skip(t as int)[0] == filesv[t as int]);
        }
        let ghost file_wf_witness = files@[0];
        let file = files.remove(0);
        let key = name_vec[t].clone();
        proof {
            assert(file == file_wf_witness);
            assert(file.wf());
            assert(file@ == filesv[t as int]);
            assert(zip.subrange(0, t + 1).drop_last() =~= zip.subrange(0, t as int));
            assert(zip.subrange(0, t + 1).last() == zip[t as int]);
            lemma_entries_view_insert(file_hashmap@, key@, file);
        }
        let ghost prev_map = file_hashmap@;
        file_hashmap.insert(key, file);
        proof {
            assert(filesv.skip(t as int).drop_first() =~= filesv.skip(t + 1));
            assert(files_view(files@) =~= filesv.skip(t + 1));
            assert forall|q: int| 0 <= q < file_hashmap@.len() implies (
            #[trigger] file_hashmap@[q]).1.wf() by {
                if contains_key(prev_map, key@) {
                    let ki = key_index(prev_map, key@);
                    if q != ki {
                        assert(file_hashmap@[q] == prev_map[q]);
                    }
                } else {
                    if q < prev_map.len() {
                        assert(file_hashmap@[q] == prev_map[q]);
                    } else {
                        assert(file_hashmap@[q] == (key@, file));
                    }
                }
            }
        }
        t = t + 1;
    }
    proof {
        assert(zip.subrange(0, n as int) =~= zip);
    }

    let ba2_header = BA2Header {
        version: BA2Version::Fallout4,
        file_type: if is_general {
            BA2Type::General
        } else {
            BA2Type::Textures
        },
        file_count: file_count as usize,
        name_table_offset,
    };

    Ok(BA2Archive { path, header: ba2_header, file_hashmap })
}

} // verus!
