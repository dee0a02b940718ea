//! Oblivion-style BSA decoding, covering Oblivion, Fallout 3, Fallout New
//! Vegas, Skyrim and Skyrim Special Edition archives.
//!
//! On-disk layout, after the 4-byte magic:
//!
//! ```text
//! | header             | 32 bytes                                         |
//! | folder metadata    | 16 bytes per folder (24 for Skyrim SE), carrying |
//! |                    | each folder's file count                         |
//! | folder blocks      | per folder: its name as a length-prefixed,       |
//! |                    | NUL-terminated string, then 16 bytes per file    |
//! | file name block    | NUL-terminated file names, paired positionally   |
//! | raw file data      | record offsets are absolute                      |
//! ```
//!
//! File records must be read in strict folder order, and within each folder
//! contiguously; the file names, read later from a separate block, are
//! re-paired with the `(folder, record)` pairs in that same linear order.

use vstd::prelude::*;

use crate::archive::build_map;
use crate::archive::distinct_keys;
use crate::archive::lemma_build_map_of_distinct;
use crate::archive::FileMap;
use crate::error::ErrorKind;
use crate::error::TESError;
use crate::reader::le16_at;
use crate::reader::le32_at;
use crate::reader::spec_bzstring_at;
use crate::reader::split_nul;
use crate::reader::TESReader;
use crate::Compression;

use super::types::effective_compressed;
use super::types::spec_version_codec;
use super::types::BSAFile;
use super::types::BSAHeader;
use super::types::Version;
use super::types::ARCHIVE_FLAGS_MASK;
use super::types::COMPRESSED_ARCHIVE;
use super::types::EMBED_FILE_NAMES;
use super::types::FILE_FLAGS_MASK;
use super::types::INCLUDE_FILE_NAMES;
use super::BSAArchive;

verus! {

broadcast use TESReader::lemma_pos_nonneg;

/// Metadata for a single file, as stored on disk. The top bits of the size
/// field are control bits: bit 30 set means the record inverts the
/// archive-wide compression default.
#[derive(Debug, Clone, Copy)]
pub struct OBFileRecord {
    /// Whether the file follows the archive-wide compression default. When
    /// false, the effective compression state is the default's negation.
    pub uses_default_compression: bool,
    /// Size of the stored file data, with the control bits cleared.
    pub size: u32,
    /// Absolute offset of the file data.
    pub offset: u32,
}

/// Metadata for the whole archive, as stored on disk.
#[derive(Clone, Copy)]
struct OBBSAHeader {
    /// The version of the file format.
    version: Version,
    /// Flags indicating how records and data are interpreted.
    archive_flags: u32,
    /// Count of all folders in the archive.
    folder_count: u32,
    /// Count of all files the header declares.
    file_count: u32,
    /// Total length of the file name block, terminators included.
    total_file_name_length: u32,
    /// Flags giving the categories of files contained in the archive.
    file_flags: u16,
}

/// Data for a single folder: its name and its contiguous file records.
struct OBFolderRecord {
    /// Name of the folder.
    name: String,
    /// The folder's file records, in on-disk order.
    file_records: Vec<OBFileRecord>,
}

/// The on-disk file record stored at `pos`: an 8-byte name hash (skipped),
/// the size field with its control bit, and the absolute data offset.
pub open spec fn ob_record_at(data: Seq<u8>, pos: int) -> OBFileRecord {
    let raw = le32_at(data, pos + 8);
    OBFileRecord {
        uses_default_compression: !((raw >> 30) & 1 == 1),
        size: raw & 0x3fff_ffff,
        offset: le32_at(data, pos + 12),
    }
}

/// The ordered folder blocks read from `pos` with the given per-folder file
/// counts: each block is the folder's name followed by its records, read
/// strictly in order. The result carries the position where the blocks end.
/// A folder declaring no files is a structural error; a name or record table
/// running past the data is a short read.
pub open spec fn ob_folders(data: Seq<u8>, pos: int, counts: Seq<u32>) -> Result<
    (Seq<(Seq<char>, Seq<OBFileRecord>)>, int),
    ErrorKind,
>
    decreases counts.len(),
{
    if counts.len() == 0 {
        Ok((seq![], pos))
    } else {
        match spec_bzstring_at(data, pos) {
            Err(k) => Err(k),
            Ok(fname) => {
                let rpos = pos + 1 + data[pos] as int;
                let cnt = counts[0] as int;
                if cnt == 0 {
                    Err(ErrorKind::StructuralParse)
                } else if rpos + 16 * cnt > data.len() {
                    Err(ErrorKind::ShortRead)
                } else {
                    match ob_folders(data, rpos + 16 * cnt, counts.drop_first()) {
                        Err(k) => Err(k),
                        Ok(rest) => Ok(
                            (
                                seq![
                                    (fname, Seq::new(cnt as nat, |i: int| ob_record_at(data, rpos + 16 * i))),
                                ] + rest.0,
                                rest.1,
                            ),
                        ),
                    }
                }
            },
        }
    }
}

/// One folder turned into its ordered `(folder name, record)` pairs.
pub open spec fn folder_expand(f: (Seq<char>, Seq<OBFileRecord>)) -> Seq<
    (Seq<char>, OBFileRecord),
> {
    Seq::new(f.1.len(), |i: int| (f.0, f.1[i]))
}

/// The folders' records flattened into one ordered list of
/// `(folder name, record)` pairs, each folder name repeated once per file it
/// owns, in strict folder order.
pub open spec fn ob_flatten(folders: Seq<(Seq<char>, Seq<OBFileRecord>)>) -> Seq<
    (Seq<char>, OBFileRecord),
>
    decreases folders.len(),
{
    if folders.len() == 0 {
        seq![]
    } else {
        folder_expand(folders[0]) + ob_flatten(folders.drop_first())
    }
}

/// The normalized entry built from one on-disk record. The embedded-name
/// flag is honored for every version but Oblivion, whose data blocks carry
/// no embedded names even when the archive flag is set. The effective
/// compression state applies the record's override to the archive-wide
/// default, and the version picks the codec.
pub open spec fn ob_file_of(version: Version, archive_flags: u32, rec: OBFileRecord) -> BSAFile {
    BSAFile {
        has_name: (archive_flags & EMBED_FILE_NAMES != 0) && !(version is OBLIVION),
        compression: spec_version_codec(
            version,
            effective_compressed(
                archive_flags & COMPRESSED_ARCHIVE != 0,
                rec.uses_default_compression,
            ),
        ),
        size: rec.size,
        offset: rec.offset as u64,
    }
}

/// A folder path joined with a file name. An empty folder name contributes
/// no separator.
pub open spec fn path_join(folder: Seq<char>, file: Seq<char>) -> Seq<char> {
    if folder.len() == 0 {
        file
    } else {
        folder + seq!['/'] + file
    }
}

/// The ordered key/entry pairs of an Oblivion-style archive: the i-th
/// reconstructed file name belongs to the i-th `(folder, record)` pair, the
/// key is the folder path joined with the file name, and a surplus of names
/// or records is dropped.
pub open spec fn ob_zip(
    version: Version,
    archive_flags: u32,
    flat: Seq<(Seq<char>, OBFileRecord)>,
    names: Seq<Seq<char>>,
) -> Seq<(Seq<char>, BSAFile)> {
    let n = if flat.len() < names.len() {
        flat.len() as int
    } else {
        names.len() as int
    };
    Seq::new(
        n as nat,
        |i: int| (path_join(flat[i].0, names[i]), ob_file_of(version, archive_flags, flat[i].1)),
    )
}

/// The per-folder file counts stored in the folder metadata block starting
/// at `start`, one record of `fsize` bytes per folder, the count 8 bytes in.
pub open spec fn ob_counts_at(data: Seq<u8>, start: int, fsize: int, nf: int) -> Seq<u32> {
    Seq::new(nf as nat, |i: int| le32_at(data, start + fsize * i + 8))
}

/// The version named by an Oblivion-style version tag.
pub open spec fn ob_version_of(tag: u32) -> Version {
    if tag == 0x67 {
        Version::OBLIVION
    } else if tag == 0x68 {
        Version::SKYRIM
    } else {
        Version::SKYRIMSE
    }
}

/// What parsing an Oblivion-style archive returns over the archive's bytes
/// (magic included): the normalized header and the ordered key/entry pairs,
/// or the error that aborts the parse. An unknown version tag, an undefined
/// flag bit, or a folder without files is a structural error; an archive
/// without the flag announcing the file name block is an unsupported layout;
/// data running out anywhere is a short read.
pub open spec fn spec_parse_ob(data: Seq<u8>) -> Result<
    (BSAHeader, Seq<(Seq<char>, BSAFile)>),
    ErrorKind,
> {
    if data.len() < 36 {
        Err(ErrorKind::ShortRead)
    } else {
        let vtag = le32_at(data, 4);
        let flags = le32_at(data, 12);
        let fflags = le16_at(data, 32);
        if vtag != 0x67 && vtag != 0x68 && vtag != 0x69 {
            Err(ErrorKind::StructuralParse)
        } else if flags & ARCHIVE_FLAGS_MASK != flags {
            Err(ErrorKind::StructuralParse)
        } else if fflags & FILE_FLAGS_MASK != fflags {
            Err(ErrorKind::StructuralParse)
        } else {
            let version = ob_version_of(vtag);
            let nf = le32_at(data, 16) as int;
            let fsize: int = if vtag == 0x69 {
                24
            } else {
                16
            };
            if 36 + fsize * nf > data.len() {
                Err(ErrorKind::ShortRead)
            } else {
                let counts = ob_counts_at(data, 36, fsize, nf);
                match ob_folders(data, 36 + fsize * nf, counts) {
                    Err(k) => Err(k),
                    Ok(folders_end) => {
                        let tfnl = le32_at(data, 28) as int;
                        if flags & INCLUDE_FILE_NAMES == 0 {
                            Err(ErrorKind::Unsupported)
                        } else if folders_end.1 + tfnl > data.len() {
                            Err(ErrorKind::ShortRead)
                        } else {
                            let names = split_nul(
                                data.subrange(folders_end.1, folders_end.1 + tfnl),
                            );
                            let hdr = BSAHeader {
                                version,
                                archive_flags: flags,
                                file_flags: fflags,
                                file_count: le32_at(data, 20) as usize,
                            };
                            Ok((hdr, ob_zip(version, flags, ob_flatten(folders_end.0), names)))
                        }
                    },
                }
            }
        }
    }
}

/// Entry-count law for Oblivion-style archives: when parsing succeeds with
/// one reconstructed name for each declared record and the composed keys are
/// pairwise distinct, the built index holds exactly the header's declared
/// number of entries.
pub proof fn lemma_ob_entry_count(data: Seq<u8>)
    requires
        spec_parse_ob(data) is Ok,
        distinct_keys(spec_parse_ob(data)->Ok_0.1),
        spec_parse_ob(data)->Ok_0.1.len() == spec_parse_ob(data)->Ok_0.0.file_count,
    ensures
        build_map(spec_parse_ob(data)->Ok_0.1).len() == spec_parse_ob(data)->Ok_0.0.file_count,
{
    lemma_build_map_of_distinct(spec_parse_ob(data)->Ok_0.1);
}

/// The folder blocks of an executable folder list, viewed for the
/// specification.
spec fn folders_view(folders: Seq<OBFolderRecord>) -> Seq<
    (Seq<char>, Seq<OBFileRecord>),
> {
    folders.map_values(|f: OBFolderRecord| (f.name@, f.file_records@))
}

/// Reads one folder's contiguous file records.
fn read_file_records(reader: &mut TESReader, count: u32) -> (r: Result<Vec<OBFileRecord>, TESError>)
    requires
        old(reader).pos() <= old(reader).bytes().len(),
    ensures
        final(reader).bytes() == old(reader).bytes(),
        match r {
            Ok(v) => {
                &&& old(reader).can_read(16 * count as int)
                &&& v@ == Seq::new(
                    count as nat,
                    |i: int| ob_record_at(old(reader).bytes(), old(reader).pos() + 16 * i),
                )
                &&& final(reader).pos() == old(reader).pos() + 16 * count as int
            },
            Err(e) => {
                &&& !old(reader).can_read(16 * count as int)
                &&& e.kind() == ErrorKind::ShortRead
            },
        },
{
    let ghost data = reader.bytes();
    let ghost start = reader.pos();
    let mut records: Vec<OBFileRecord> = Vec::new();
    let mut i: u32 = 0;
    while i < count
        invariant
            data == reader.bytes(),
            data == old(reader).bytes(),
            start == old(reader).pos(),
            i <= count,
            reader.pos() == start + 16 * i,
            reader.pos() <= data.len(),
            records@.len() == i,
            forall|k: int|
                0 <= k < i ==> #[trigger] records@[k] == ob_record_at(data, start + 16 * k),
        decreases count - i,
    {
        let buf = reader.read_exact_vec(16)?;
        let size_raw = vstd::bytes::u32_from_le_bytes(
            vstd::slice::slice_subrange(buf.as_slice(), 8, 12),
        );
        let offset = vstd::bytes::u32_from_le_bytes(
            vstd::slice::slice_subrange(buf.as_slice(), 12, 16),
        );
        proof {
            assert(buf@.subrange(8, 12) =~= data.subrange(
                start + 16 * (i as int) + 8,
                start + 16 * (i as int) + 12,
            ));
            assert(buf@.subrange(12, 16) =~= data.subrange(
                start + 16 * (i as int) + 12,
                start + 16 * (i as int) + 16,
            ));
        }
        let control_bit = (size_raw >> 30) & 1;
        let record = OBFileRecord {
            uses_default_compression: !(control_bit == 1),
            size: size_raw & 0x3fff_ffff,
            offset,
        };
        records.push(record);
        i = i + 1;
    }
    Ok(records)
}

/// Reads the folder metadata block, keeping each folder's file count. A
/// Skyrim Special Edition record is 24 bytes, any other 16; the count sits 8
/// bytes in either way.
fn read_folder_metadata(reader: &mut TESReader, num_folders: u32, sse: bool) -> (r: Result<
    Vec<u32>,
    TESError,
>)
    requires
        old(reader).pos() <= old(reader).bytes().len(),
    ensures
        final(reader).bytes() == old(reader).bytes(),
        ({
            let fsize: int = if sse {
                24
            } else {
                16
            };
            match r {
                Ok(v) => {
                    &&& old(reader).can_read(fsize * num_folders as int)
                    &&& v@ == Seq::new(
                        num_folders as nat,
                        |i: int| le32_at(old(reader).bytes(), old(reader).pos() + fsize * i + 8),
                    )
                    &&& final(reader).pos() == old(reader).pos() + fsize * num_folders as int
                },
                Err(e) => {
                    &&& !old(reader).can_read(fsize * num_folders as int)
                    &&& e.kind() == ErrorKind::ShortRead
                },
            }
        }),
{
    let ghost data = reader.bytes();
    let ghost start = reader.pos();
    let ghost fsize: int = if sse {
        24
    } else {
        16
    };
    let record_len: usize = if sse {
        24
    } else {
        16
    };
    let mut counts: Vec<u32> = Vec::new();
    let mut i: u32 = 0;
    while i < num_folders
        invariant
            data == reader.bytes(),
            data == old(reader).bytes(),
            start == old(reader).pos(),
            fsize == if sse {
                24int
            } else {
                16int
            },
            record_len as int == fsize,
            i <= num_folders,
            reader.pos() == start + fsize * i,
            reader.pos() <= data.len(),
            counts@.len() == i,
            forall|k: int|
                0 <= k < i ==> #[trigger] counts@[k] == le32_at(data, start + fsize * k + 8),
        decreases num_folders - i,
    {
        let buf = reader.read_exact_vec(record_len)?;
        let count = vstd::bytes::u32_from_le_bytes(
            vstd::slice::slice_subrange(buf.as_slice(), 8, 12),
        );
        proof {
            assert(buf@.subrange(8, 12) =~= data.subrange(
                start + fsize * (i as int) + 8,
                start + fsize * (i as int) + 12,
            ));
        }
        counts.push(count);
        i = i + 1;
    }
    Ok(counts)
}

/// Reads the folder metadata block, then every folder's name and file
/// records, in strict folder order.
fn read_file_record_blocks(reader: &mut TESReader, num_folders: u32, header: &OBBSAHeader) -> (r:
    Result<Vec<OBFolderRecord>, TESError>)
    requires
        old(reader).pos() <= old(reader).bytes().len(),
    ensures
        final(reader).bytes() == old(reader).bytes(),
        ({
            let data = old(reader).bytes();
            let start = old(reader).pos();
            let fsize: int = if header.version is SKYRIMSE {
                24
            } else {
                16
            };
            let counts = ob_counts_at(data, start, fsize, num_folders as int);
            match r {
                Ok(v) => {
                    &&& start + fsize * num_folders as int <= data.len()
                    &&& ob_folders(data, start + fsize * num_folders as int, counts) == Ok::<
                        (Seq<(Seq<char>, Seq<OBFileRecord>)>, int),
                        ErrorKind,
                    >((folders_view(v@), final(reader).pos()))
                },
                Err(e) => {
                    if start + fsize * num_folders as int > data.len() {
                        e.kind() == ErrorKind::ShortRead
                    } else {
                        ob_folders(data, start + fsize * num_folders as int, counts) == Err::<
                            (Seq<(Seq<char>, Seq<OBFileRecord>)>, int),
                            ErrorKind,
                        >(e.kind())
                    }
                },
            }
        }),
{
    let ghost data = reader.bytes();
    let ghost start = reader.pos();
    let ghost fsize: int = if header.version is SKYRIMSE {
        24
    } else {
        16
    };
    let ghost counts = ob_counts_at(data, start, fsize, num_folders as int);

    let sse = matches!(header.version, Version::SKYRIMSE);
    let folder_counts = read_folder_metadata(reader, num_folders, sse)?;
    let ghost pos0 = reader.pos();
    proof {
        assert(folder_counts@ =~= counts);
    }

    let mut file_record_blocks: Vec<OBFolderRecord> = Vec::new();
    let mut j: u32 = 0;
    proof {
        assert(counts.skip(0) =~= counts);
        assert(folders_view(file_record_blocks@) =~= Seq::<
            (Seq<char>, Seq<OBFileRecord>),
        >::empty());
        let init = ob_folders(data, pos0, counts);
        if init is Ok {
            assert(folders_view(file_record_blocks@) + init->Ok_0.0 =~= init->Ok_0.0);
        }
    }
    while j < num_folders
        invariant
            data == reader.bytes(),
            data == old(reader).bytes(),
            start == old(reader).pos(),
            fsize == (if header.version is SKYRIMSE {
                24int
            } else {
                16int
            }),
            pos0 == start + fsize * num_folders as int,
            start + fsize * num_folders as int <= data.len(),
            counts == ob_counts_at(data, start, fsize, num_folders as int),
            folder_counts@ == counts,
            j <= num_folders,
            ob_folders(data, pos0, counts) == (match ob_folders(
                data,
                reader.pos(),
                counts.skip(j as int),
            ) {
                Err(k) => Err::<(Seq<(Seq<char>, Seq<OBFileRecord>)>, int), ErrorKind>(k),
                Ok(rest) => Ok::<(Seq<(Seq<char>, Seq<OBFileRecord>)>, int), ErrorKind>(
                    (folders_view(file_record_blocks@) + rest.0, rest.1),
                ),
            }),
        decreases num_folders - j,
    {
        let ghost fpos = reader.pos();
        proof {
            assert(counts.skip(j as int)[0] == counts[j as int]);
            assert(counts.skip(j as int).drop_first() =~= counts.skip(j + 1));
        }
        let name = reader.parse_bzstring()?;
        let file_count = folder_counts[j as usize];
        if file_count == 0 {
            return Err(TESError::StructuralParseError(
                String::from_str("Folder record declares no file records"),
            ));
        }
        let file_records = read_file_records(reader, file_count)?;
        let ghost dv = folders_view(file_record_blocks@);
        let ghost namev = name@;
        let ghost recsv = file_records@;
        file_record_blocks.push(OBFolderRecord { name, file_records });
        proof {
            assert(folders_view(file_record_blocks@) =~= dv.push((namev, recsv)));
            let rest_after = ob_folders(data, reader.pos(), counts.skip(j + 1));
            if rest_after is Ok {
                let rest = rest_after->Ok_0;
                assert(recsv =~= Seq::new(
                    counts[j as int] as nat,
                    |i: int| ob_record_at(data, fpos + 1 + data[fpos] as int + 16 * i),
                ));
                assert((dv + (seq![(namev, recsv)] + rest.0)) =~= (dv.push((namev, recsv))
                    + rest.0));
            }
        }
        j = j + 1;
    }
    proof {
        assert(counts.skip(num_folders as int) =~= Seq::<u32>::empty());
        assert(folders_view(file_record_blocks@) + Seq::<(Seq<char>, Seq<OBFileRecord>)>::empty()
            =~= folders_view(file_record_blocks@));
    }
    Ok(file_record_blocks)
}

/// The flattened `(folder name, record)` pairs of an executable pair list,
/// viewed for the specification.
spec fn flat_view(s: Seq<(String, OBFileRecord)>) -> Seq<(Seq<char>, OBFileRecord)> {
    s.map_values(|p: (String, OBFileRecord)| (p.0@, p.1))
}

/// Flattening distributes over appending one folder at the end.
proof fn lemma_flatten_push(s: Seq<(Seq<char>, Seq<OBFileRecord>)>, x: (Seq<char>, Seq<OBFileRecord>))
    ensures
        ob_flatten(s.push(x)) == ob_flatten(s) + folder_expand(x),
    decreases s.len(),
{
    if s.len() == 0 {
        assert(s.push(x)[0] == x);
        assert(s.push(x).drop_first() =~= Seq::<(Seq<char>, Seq<OBFileRecord>)>::empty());
        assert(ob_flatten(Seq::<(Seq<char>, Seq<OBFileRecord>)>::empty()) =~= Seq::<
            (Seq<char>, OBFileRecord),
        >::empty());
        assert(ob_flatten(s.push(x)) =~= folder_expand(x));
        assert(ob_flatten(s) + folder_expand(x) =~= folder_expand(x));
    } else {
        assert(s.push(x)[0] == s[0]);
        assert(s.push(x).drop_first() =~= s.drop_first().push(x));
        lemma_flatten_push(s.drop_first(), x);
        assert(folder_expand(s[0]) + (ob_flatten(s.drop_first()) + folder_expand(x)) =~= (
        folder_expand(s[0]) + ob_flatten(s.drop_first())) + folder_expand(x));
    }
}

/// Joins a folder path and a file name with a single separator; an empty
/// folder contributes none.
fn join_paths(folder: &String, file: &String) -> (r: String)
    ensures
        r@ == path_join(folder@, file@),
{
    if folder.as_str().is_empty() {
        file.clone()
    } else {
        let joined = folder.clone().concat("/").concat(file.as_str());
        proof {
            reveal_strlit("/");
            assert("/"@ =~= seq!['/']);
            assert((folder@ + "/"@) + file@ =~= folder@ + seq!['/'] + file@);
        }
        joined
    }
}

/// Builds the normalized entry for one on-disk record under the archive's
/// version and flags.
fn ob_file_exec(version: Version, archive_flags: u32, rec: OBFileRecord) -> (r: BSAFile)
    ensures
        r == ob_file_of(version, archive_flags, rec),
{
    let has_name = (archive_flags & EMBED_FILE_NAMES != 0) && !matches!(version, Version::OBLIVION);
    let container_default = archive_flags & COMPRESSED_ARCHIVE != 0;
    let is_compressed = if rec.uses_default_compression {
        container_default
    } else {
        !container_default
    };
    let compression = if is_compressed {
        match version {
            Version::OBLIVION => Compression::Zlib,
            Version::SKYRIM => Compression::Zlib,
            Version::SKYRIMSE => Compression::Lz4,
            Version::MORROWIND => Compression::Uncompressed,
        }
    } else {
        Compression::Uncompressed
    };
    BSAFile { has_name, compression, size: rec.size, offset: rec.offset as u64 }
}

/// Creates the archive index: flattens the folders into ordered
/// `(folder, record)` pairs, zips them positionally with the reconstructed
/// file names, and inserts each composed key in traversal order.
fn create_file_hashmap(
    header: &OBBSAHeader,
    folders: Vec<OBFolderRecord>,
    file_names: Vec<String>,
) -> (r: FileMap<BSAFile>)
    ensures
        r.wf(),
        r@ == build_map(
            ob_zip(
                header.version,
                header.archive_flags,
                ob_flatten(folders_view(folders@)),
                file_names.deep_view(),
            ),
        ),
{
    let ghost fv = folders_view(folders@);
    let mut flat: Vec<(String, OBFileRecord)> = Vec::new();
    let nf = folders.len();
    let mut j: usize = 0;
    proof {
        assert(fv.subrange(0, 0) =~= Seq::<(Seq<char>, Seq<OBFileRecord>)>::empty());
        assert(flat_view(flat@) =~= ob_flatten(fv.subrange(0, 0)));
    }
    while j < nf
        invariant
            nf == folders@.len(),
            fv == folders_view(folders@),
            fv.len() == nf,
            j <= nf,
            flat_view(flat@) == ob_flatten(fv.subrange(0, j as int)),
        decreases nf - j,
    {
        let folder = &folders[j];
        let nr = folder.file_records.len();
        let mut i: usize = 0;
        proof {
            assert(fv[j as int] == (folder.name@, folder.file_records@));
            assert(Seq::new(0, |k: int| (folder.name@, folder.file_records@[k])) =~= Seq::<
                (Seq<char>, OBFileRecord),
            >::empty());
            assert(flat_view(flat@) + Seq::new(
                0,
                |k: int| (folder.name@, folder.file_records@[k]),
            ) =~= flat_view(flat@));
        }
        while i < nr
            invariant
                nf == folders@.len(),
                fv == folders_view(folders@),
                fv.len() == nf,
                j < nf,
                nr == folders@[j as int].file_records@.len(),
                fv[j as int] == (folders@[j as int].name@, folders@[j as int].file_records@),
                i <= nr,
                flat_view(flat@) == ob_flatten(fv.subrange(0, j as int)) + Seq::new(
                    i as nat,
                    |k: int| (folders@[j as int].name@, folders@[j as int].file_records@[k]),
                ),
            decreases nr - i,
        {
            let ghost prev = flat_view(flat@);
            let entry = (folders[j].name.clone(), folders[j].file_records[i]);
            flat.push(entry);
            proof {
                assert(flat_view(flat@) =~= prev.push(
                    (folders@[j as int].name@, folders@[j as int].file_records@[i as int]),
                ));
                assert(flat_view(flat@) =~= ob_flatten(fv.subrange(0, j as int)) + Seq::new(
                    (i + 1) as nat,
                    |k: int| (folders@[j as int].name@, folders@[j as int].file_records@[k]),
                ));
            }
            i = i + 1;
        }
        proof {
            assert(Seq::new(
                nr as nat,
                |k: int| (folders@[j as int].name@, folders@[j as int].file_records@[k]),
            ) =~= folder_expand(fv[j as int]));
            lemma_flatten_push(fv.subrange(0, j as int), fv[j as int]);
            assert(fv.subrange(0, j + 1) =~= fv.subrange(0, j as int).push(fv[j as int]));
        }
        j = j + 1;
    }
    proof {
        assert(fv.subrange(0, nf as int) =~= fv);
    }

    let ghost zip = ob_zip(
        header.version,
        header.archive_flags,
        ob_flatten(fv),
        file_names.deep_view(),
    );
    let n = if flat.len() < file_names.len() {
        flat.len()
    } else {
        file_names.len()
    };
    let mut file_hashmap: FileMap<BSAFile> = FileMap::new();
    let mut t: usize = 0;
    proof {
        assert(zip.subrange(0, 0) =~= Seq::<(Seq<char>, BSAFile)>::empty());
        assert(flat_view(flat@).len() == flat@.len());
        assert(file_names.deep_view().len() == file_names@.len());
    }
    while t < n
        invariant
            zip == ob_zip(
                header.version,
                header.archive_flags,
                ob_flatten(folders_view(folders@)),
                file_names.deep_view(),
            ),
            flat_view(flat@) == ob_flatten(folders_view(folders@)),
            n == zip.len(),
            n <= flat@.len(),
            n <= file_names@.len(),
            flat_view(flat@).len() == flat@.len(),
            file_names.deep_view().len() == file_names@.len(),
            t <= n,
            file_hashmap.wf(),
            file_hashmap@ == build_map(zip.subrange(0, t as int)),
        decreases n - t,
    {
        proof {
            assert(flat_view(flat@)[t as int] == (flat@[t as int].0@, flat@[t as int].1));
            assert(file_names.deep_view()[t as int] == file_names@[t as int]@);
        }
        let key = join_paths(&flat[t].0, &file_names[t]);
        let bsa_file = ob_file_exec(header.version, header.archive_flags, flat[t].1);
        proof {
            assert(zip[t as int] == (key@, bsa_file));
            assert(zip.subrange(0, t + 1).drop_last() =~= zip.subrange(0, t as int));
            assert(zip.subrange(0, t + 1).last() == zip[t as int]);
        }
        file_hashmap.insert(key, bsa_file);
        t = t + 1;
    }
    proof {
        assert(zip.subrange(0, n as int) =~= zip);
    }
    file_hashmap
}

/// Parses an Oblivion-style archive from a cursor positioned just past the
/// 4-byte magic.
pub fn parse_bsa(path: String, reader: &mut TESReader) -> (r: Result<BSAArchive, TESError>)
    requires
        old(reader).pos() == 4,
    ensures
        final(reader).bytes() == old(reader).bytes(),
        match r {
            Ok(a) => {
                &&& spec_parse_ob(old(reader).bytes()) is Ok
                &&& a.header == spec_parse_ob(old(reader).bytes())->Ok_0.0
                &&& a.file_hashmap@ == build_map(spec_parse_ob(old(reader).bytes())->Ok_0.1)
                &&& a.path@ == path@
                &&& a.wf()
            },
            Err(e) => spec_parse_ob(old(reader).bytes()) == Err::<
                (BSAHeader, Seq<(Seq<char>, BSAFile)>),
                ErrorKind,
            >(e.kind()),
        },
{
    let ghost data = reader.bytes();
    let buf = reader.read_exact_vec(32)?;
    proof {
        assert(buf@.subrange(0, 4) =~= data.subrange(4, 8));
        assert(buf@.subrange(8, 12) =~= data.subrange(12, 16));
        assert(buf@.subrange(12, 16) =~= data.subrange(16, 20));
        assert(buf@.subrange(16, 20) =~= data.subrange(20, 24));
        assert(buf@.subrange(24, 28) =~= data.subrange(28, 32));
        assert(buf@.subrange(28, 30) =~= data.subrange(32, 34));
    }
    let version_tag = vstd::bytes::u32_from_le_bytes(
        vstd::slice::slice_subrange(buf.as_slice(), 0, 4),
    );
    let archive_flags = vstd::bytes::u32_from_le_bytes(
        vstd::slice::slice_subrange(buf.as_slice(), 8, 12),
    );
    let folder_count = vstd::bytes::u32_from_le_bytes(
        vstd::slice::slice_subrange(buf.as_slice(), 12, 16),
    );
    let file_count = vstd::bytes::u32_from_le_bytes(
        vstd::slice::slice_subrange(buf.as_slice(), 16, 20),
    );
    let total_file_name_length = vstd::bytes::u32_from_le_bytes(
        vstd::slice::slice_subrange(buf.as_slice(), 24, 28),
    );
    let file_flags = vstd::bytes::u16_from_le_bytes(
        vstd::slice::slice_subrange(buf.as_slice(), 28, 30),
    );

    let version = if version_tag == 0x67 {
        Version::OBLIVION
    } else if version_tag == 0x68 {
        Version::SKYRIM
    } else if version_tag == 0x69 {
        Version::SKYRIMSE
    } else {
        return Err(TESError::StructuralParseError(
            String::from_str("Unknown BSA version tag"),
        ));
    };
    if archive_flags & ARCHIVE_FLAGS_MASK != archive_flags {
        return Err(TESError::StructuralParseError(
            String::from_str("Undefined archive flag bits are set"),
        ));
    }
    if file_flags & FILE_FLAGS_MASK != file_flags {
        return Err(TESError::StructuralParseError(
            String::from_str("Undefined file flag bits are set"),
        ));
    }

    let header = OBBSAHeader {
        version,
        archive_flags,
        folder_count,
        file_count,
        total_file_name_length,
        file_flags,
    };

    let folders = read_file_record_blocks(reader, folder_count, &header)?;

    if archive_flags & INCLUDE_FILE_NAMES == 0 {
        return Err(TESError::UnsupportedFeature(
            String::from_str(
                "Archives without a file name block are not supported",
            ),
        ));
    }

    let file_names = reader.parse_bstring_block(total_file_name_length as usize)?;

    let ghost foldersv = folders_view(folders@);
    let ghost namesv = file_names.deep_view();
    let file_hashmap = create_file_hashmap(&header, folders, file_names);

    let bsa_header = BSAHeader {
        version,
        archive_flags,
        file_flags,
        file_count: file_count as usize,
    };

    proof {
        let pairs = spec_parse_ob(data)->Ok_0.1;
        assert(ob_zip(version, archive_flags, ob_flatten(foldersv), namesv) == pairs);
    }

    Ok(BSAArchive { path, header: bsa_header, file_hashmap })
}

} // verus!
