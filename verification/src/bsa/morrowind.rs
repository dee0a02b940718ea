//! Morrowind-style BSA decoding.
//!
//! On-disk layout, after the 4-byte magic:
//!
//! ```text
//! | header             | 8 bytes: hash_offset u32, file_count u32          |
//! | file records       | 8 bytes per file: size u32, offset u32            |
//! | name offsets       | 4 bytes per file (skipped)                        |
//! | name block         | hash_offset - 12 * file_count bytes of NUL-       |
//! |                    | terminated names, paired positionally in order    |
//! | hash block         | 8 bytes per file (never read)                     |
//! | raw data           | file data; record offsets are relative to it      |
//! ```

use vstd::prelude::*;

use crate::archive::build_map;
use crate::archive::distinct_keys;
use crate::archive::lemma_build_map_of_distinct;
use crate::archive::FileMap;
use crate::error::ErrorKind;
use crate::error::TESError;
use crate::reader::le32_at;
use crate::reader::split_nul;
use crate::reader::TESReader;
use crate::Compression;

use super::types::BSAFile;
use super::types::BSAHeader;
use super::types::Version;
use super::BSAArchive;

verus! {

/// Metadata for the whole archive, as stored on disk.
#[derive(Clone, Copy)]
struct MWBSAHeader {
    /// Count of all files in the archive.
    file_count: u32,
    /// Offset of the hash block, relative to the end of the header.
    hash_offset: u32,
}

/// Metadata for a single file, as stored on disk.
#[derive(Clone, Copy)]
struct MWFileRecord {
    /// Size of the file data.
    size: u32,
    /// Offset of the file data, relative to the raw-data section.
    offset: u32,
}

/// The normalized entry built from one on-disk record: Morrowind archives
/// never compress and never embed names, and every stored offset is made
/// absolute by adding the start of the raw-data section, which sits after
/// the header, the hash block and everything in between.
spec fn mw_file_of(h: MWBSAHeader, rec: MWFileRecord) -> BSAFile {
    BSAFile {
        has_name: false,
        compression: Compression::Uncompressed,
        size: rec.size,
        offset: (h.hash_offset as int + 8 * h.file_count as int + 8 + rec.offset as int) as u64,
    }
}

/// The ordered name/record pairs: the i-th name belongs to the i-th record,
/// and a surplus of either is dropped.
spec fn mw_zip_records(
    h: MWBSAHeader,
    records: Seq<MWFileRecord>,
    names: Seq<Seq<char>>,
) -> Seq<(Seq<char>, BSAFile)> {
    let n = if records.len() < names.len() {
        records.len() as int
    } else {
        names.len() as int
    };
    Seq::new(n as nat, |i: int| (names[i], mw_file_of(h, records[i])))
}

/// The i-th on-disk file record of a Morrowind archive, normalized: `size`
/// and relative `offset` at byte `12 + 8 i`, the offset made absolute.
pub open spec fn mw_record_at(data: Seq<u8>, i: int) -> BSAFile {
    BSAFile {
        has_name: false,
        compression: Compression::Uncompressed,
        size: le32_at(data, 12 + 8 * i),
        offset: (le32_at(data, 4) as int + 8 * le32_at(data, 8) as int + 8 + le32_at(
            data,
            12 + 8 * i + 4,
        ) as int) as u64,
    }
}

/// The normalized header of a Morrowind archive: the family has no flags and
/// no version tag of its own.
pub open spec fn mw_header_of(data: Seq<u8>) -> BSAHeader {
    BSAHeader {
        version: Version::MORROWIND,
        archive_flags: 0,
        file_flags: 0,
        file_count: le32_at(data, 8) as usize,
    }
}

/// What parsing a Morrowind-style archive returns over the archive's bytes
/// (magic included): the normalized header and the ordered name/record
/// pairs, or the error that aborts the parse. Too little data for the
/// header, the records or the name block is a short read; a hash-block
/// offset too small for the name table it must bound is a structural error.
pub open spec fn spec_parse_mw(data: Seq<u8>) -> Result<
    (BSAHeader, Seq<(Seq<char>, BSAFile)>),
    ErrorKind,
> {
    if data.len() < 12 {
        Err(ErrorKind::ShortRead)
    } else {
        let hash_offset = le32_at(data, 4) as int;
        let fc = le32_at(data, 8) as int;
        if 12 + 8 * fc > data.len() {
            Err(ErrorKind::ShortRead)
        } else if hash_offset < 12 * fc {
            Err(ErrorKind::StructuralParse)
        } else if 12 + hash_offset > data.len() {
            Err(ErrorKind::ShortRead)
        } else {
            let names = split_nul(data.subrange(12 + 12 * fc, 12 + hash_offset));
            let pairs = Seq::new(
                (if names.len() < fc {
                    names.len() as int
                } else {
                    fc
                }) as nat,
                |i: int| (names[i], mw_record_at(data, i)),
            );
            Ok((mw_header_of(data), pairs))
        }
    }
}

/// Entry-count law for Morrowind-style archives: when parsing succeeds with
/// one name for each declared record and the reconstructed names are
/// pairwise distinct, the built index holds exactly the header's declared
/// number of entries.
pub proof fn lemma_mw_entry_count(data: Seq<u8>)
    requires
        spec_parse_mw(data) is Ok,
        distinct_keys(spec_parse_mw(data)->Ok_0.1),
        spec_parse_mw(data)->Ok_0.1.len() == spec_parse_mw(data)->Ok_0.0.file_count,
    ensures
        build_map(spec_parse_mw(data)->Ok_0.1).len() == spec_parse_mw(data)->Ok_0.0.file_count,
{
    lemma_build_map_of_distinct(spec_parse_mw(data)->Ok_0.1);
}

/// Parses a Morrowind-style archive from a cursor positioned just past the
/// 4-byte magic.
pub fn parse_bsa(path: String, reader: &mut TESReader) -> (r: Result<BSAArchive, TESError>)
    requires
        old(reader).pos() == 4,
    ensures
        final(reader).bytes() == old(reader).bytes(),
        match r {
            Ok(a) => {
                &&& spec_parse_mw(old(reader).bytes()) is Ok
                &&& a.header == spec_parse_mw(old(reader).bytes())->Ok_0.0
                &&& a.file_hashmap@ == build_map(spec_parse_mw(old(reader).bytes())->Ok_0.1)
                &&& a.path@ == path@
                &&& a.wf()
            },
            Err(e) => spec_parse_mw(old(reader).bytes()) == Err::<
                (BSAHeader, Seq<(Seq<char>, BSAFile)>),
                ErrorKind,
            >(e.kind()),
        },
{
    let ghost data = reader.bytes();
    let hash_offset = reader.parse_u32()?;
    let file_count = reader.parse_u32()?;
    let header = MWBSAHeader { file_count, hash_offset };

    let mut file_records: Vec<MWFileRecord> = Vec::new();
    let mut i: u32 = 0;
    while i < file_count
        invariant
            data == reader.bytes(),
            data == old(reader).bytes(),
            data.len() >= 12,
            hash_offset == le32_at(data, 4),
            file_count == le32_at(data, 8),
            i <= file_count,
            reader.pos() == 12 + 8 * i,
            reader.pos() <= data.len(),
            file_records@.len() == i,
            forall|k: int|
                0 <= k < i ==> #[trigger] file_records@[k] == (MWFileRecord {
                    size: le32_at(data, 12 + 8 * k),
                    offset: le32_at(data, 12 + 8 * k + 4),
                }),
        decreases file_count - i,
    {
        let size = reader.parse_u32()?;
        let offset = reader.parse_u32()?;
        file_records.push(MWFileRecord { size, offset });
        i = i + 1;
    }

    if (hash_offset as u64) < 12 * (file_count as u64) {
        return Err(TESError::StructuralParseError(
            String::from_str("Hash block offset is too small for the archive's name table"),
        ));
    }
    reader.skip(4 * (file_count as u64));
    let name_block_size = (hash_offset as u64) - 12 * (file_count as u64);
    let file_names = reader.parse_bstring_block(name_block_size as usize)?;
    proof {
        assert(data.subrange(12 + 12 * (file_count as int), 12 + 12 * (file_count as int)
            + name_block_size as int) =~= data.subrange(
            12 + 12 * (le32_at(data, 8) as int),
            12 + le32_at(data, 4) as int,
        ));
    }

    let ghost recs = file_records@;
    let ghost namesv = file_names.deep_view();
    let file_hashmap = create_file_hashmap(&header, file_records, file_names);

    let bsa_header = BSAHeader {
        version: Version::MORROWIND,
        archive_flags: 0,
        file_flags: 0,
        file_count: file_count as usize,
    };

    proof {
        let pairs = spec_parse_mw(data)->Ok_0.1;
        assert(mw_zip_records(header, recs, namesv) =~= pairs);
    }

    Ok(BSAArchive { path, header: bsa_header, file_hashmap })
}

/// Creates the archive index by zipping the ordered file records with the
/// ordered reconstructed names, inserting each pair in traversal order.
fn create_file_hashmap(
    header: &MWBSAHeader,
    file_records: Vec<MWFileRecord>,
    file_names: Vec<String>,
) -> (r: FileMap<BSAFile>)
    ensures
        r.wf(),
        r@ == build_map(mw_zip_records(*header, file_records@, file_names.deep_view())),
{
    let ghost zip = mw_zip_records(*header, file_records@, file_names.deep_view());
    let file_data_offset: u64 = header.hash_offset as u64 + 8 * (header.file_count as u64) + 8;
    let n = if file_records.len() < file_names.len() {
        file_records.len()
    } else {
        file_names.len()
    };
    let mut file_hashmap: FileMap<BSAFile> = FileMap::new();
    let mut i: usize = 0;
    proof {
        assert(zip.subrange(0, 0) =~= Seq::<(Seq<char>, BSAFile)>::empty());
        assert(file_names.deep_view().len() == file_names@.len());
    }
    while i < n
        invariant
            n == zip.len(),
            zip == mw_zip_records(*header, file_records@, file_names.deep_view()),
            n <= file_records@.len(),
            n <= file_names@.len(),
            file_names.deep_view().len() == file_names@.len(),
            file_data_offset == header.hash_offset as int + 8 * (header.file_count as int) + 8,
            i <= n,
            file_hashmap.wf(),
            file_hashmap@ == build_map(zip.subrange(0, i as int)),
        decreases n - i,
    {
        let rec = file_records[i];
        let bsa_file = BSAFile {
            has_name: false,
            compression: Compression::Uncompressed,
            size: rec.size,
            offset: file_data_offset + rec.offset as u64,
        };
        proof {
            assert(file_names.deep_view()[i as int] == file_names@[i as int]@);
            assert(zip[i as int] == (file_names@[i as int]@, bsa_file));
            assert(zip.subrange(0, i + 1).drop_last() =~= zip.subrange(0, i as int));
            assert(zip.subrange(0, i + 1).last() == zip[i as int]);
        }
        file_hashmap.insert(file_names[i].clone(), bsa_file);
        i = i + 1;
    }
    proof {
        assert(zip.subrange(0, n as int) =~= zip);
    }
    file_hashmap
}

} // verus!
