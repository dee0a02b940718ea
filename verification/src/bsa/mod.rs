//! BSA archives: the two older container families (Morrowind-style and
//! Oblivion-style), dispatched on the archive's leading magic bytes, plus
//! extraction for their entries.

use vstd::prelude::*;

mod morrowind;
mod oblivion;
mod types;

pub use self::types::BSAFile;
pub use self::types::BSAHeader;
pub use self::types::Version;
pub use self::types::effective_compressed;
pub use self::types::lemma_compression_override;
pub use self::types::spec_version_codec;
pub use self::types::ARCHIVE_FLAGS_MASK;
pub use self::types::COMPRESSED_ARCHIVE;
pub use self::types::EMBED_FILE_NAMES;
pub use self::types::FILE_FLAGS_MASK;
pub use self::types::INCLUDE_FILE_NAMES;
pub use self::morrowind::lemma_mw_entry_count;
pub use self::morrowind::spec_parse_mw;
pub use self::oblivion::lemma_ob_entry_count;
pub use self::oblivion::spec_parse_ob;

use crate::archive::Archive;
use crate::archive::Extract;
use crate::archive::build_map;
use crate::error::ErrorKind;
use crate::error::TESError;
use crate::reader::TESReader;
use crate::spec_decompress;
use crate::Compression;

verus! {

/// A parsed BSA archive of either family.
pub type BSAArchive = Archive<BSAHeader, BSAFile>;

/// Stripping the embedded, length-prefixed file name off the front of an
/// entry's data block: one length byte, then that many name bytes.
pub open spec fn strip_embedded_name(block: Seq<u8>) -> Result<Seq<u8>, ErrorKind> {
    if block.len() == 0 {
        Err(ErrorKind::ShortRead)
    } else if block[0] as int + 1 > block.len() {
        Err(ErrorKind::ShortRead)
    } else {
        Ok(block.skip(block[0] as int + 1))
    }
}

/// What extracting a BSA entry returns: exactly `size` stored bytes read at
/// `offset`, less the embedded name prefix when the entry carries one, run
/// through the entry's codec when one is selected.
pub open spec fn spec_bsa_extract(f: BSAFile, data: Seq<u8>) -> Result<Seq<u8>, ErrorKind> {
    if f.offset as int + f.size as int > data.len() {
        Err(ErrorKind::ShortRead)
    } else {
        let block = data.subrange(f.offset as int, f.offset as int + f.size as int);
        if f.compression is Uncompressed {
            if f.has_name {
                strip_embedded_name(block)
            } else {
                Ok(block)
            }
        } else {
            if f.has_name {
                match strip_embedded_name(block) {
                    Err(k) => Err(k),
                    Ok(rest) => spec_decompress(f.compression, rest),
                }
            } else {
                spec_decompress(f.compression, block)
            }
        }
    }
}

/// Raw-extraction law: extracting an entry whose effective compression is
/// off returns exactly its `size` stored bytes read at `offset` — less the
/// embedded name prefix when the entry carries one — for any archive bytes
/// long enough to hold them.
pub proof fn lemma_raw_extract_exact(f: BSAFile, data: Seq<u8>)
    requires
        f.compression is Uncompressed,
        f.offset as int + f.size as int <= data.len(),
    ensures
        !f.has_name ==> spec_bsa_extract(f, data) == Ok::<Seq<u8>, ErrorKind>(
            data.subrange(f.offset as int, f.offset as int + f.size as int),
        ),
        f.has_name ==> spec_bsa_extract(f, data) == strip_embedded_name(
            data.subrange(f.offset as int, f.offset as int + f.size as int),
        ),
{
}

impl Extract for BSAFile {
    open spec fn wf(&self) -> bool {
        true
    }

    open spec fn extract_spec(&self, data: Seq<u8>) -> Result<Seq<u8>, ErrorKind> {
        spec_bsa_extract(*self, data)
    }

    /// Given a file record, extracts the file's content from the archive
    /// bytes behind the cursor.
    fn extract(&self, reader: &mut TESReader) -> (r: Result<Vec<u8>, TESError>) {
        reader.seek(self.offset);
        let file_block = match reader.read_exact_vec(self.size as usize) {
            Ok(b) => b,
            Err(e) => {
                return Err(e);
            },
        };
        let ghost block = file_block@;
        if matches!(self.compression, Compression::Uncompressed) {
            if self.has_name {
                match strip_name(&file_block) {
                    Ok(rest) => Ok(rest),
                    Err(e) => Err(e),
                }
            } else {
                Ok(file_block)
            }
        } else {
            if self.has_name {
                match strip_name(&file_block) {
                    Ok(rest) => self.compression.decompress_buffer(rest.as_slice()),
                    Err(e) => Err(e),
                }
            } else {
                self.compression.decompress_buffer(file_block.as_slice())
            }
        }
    }
}

/// Strips the embedded, length-prefixed name off the front of an entry's
/// data block.
fn strip_name(block: &Vec<u8>) -> (r: Result<Vec<u8>, TESError>)
    ensures
        match r {
            Ok(v) => strip_embedded_name(block@) == Ok::<Seq<u8>, ErrorKind>(v@),
            Err(e) => strip_embedded_name(block@) == Err::<Seq<u8>, ErrorKind>(e.kind()),
        },
{
    if block.len() == 0 {
        return Err(TESError::ShortRead(
            String::from_str("Entry data block is too short for its embedded name"),
        ));
    }
    let skip_len = block[0] as usize + 1;
    if skip_len > block.len() {
        return Err(TESError::ShortRead(
            String::from_str("Entry data block is too short for its embedded name"),
        ));
    }
    let rest = vstd::slice::slice_subrange(block.as_slice(), skip_len, block.len());
    proof {
        assert(block@.subrange(skip_len as int, block@.len() as int) =~= block@.skip(
            block@[0] as int + 1,
        ));
    }
    Ok(vstd::slice::slice_to_vec(rest))
}

/// The magic bytes that open an Oblivion-style archive: `BSA\0`.
pub open spec fn ob_magic() -> Seq<u8> {
    seq![0x42u8, 0x53u8, 0x41u8, 0x00u8]
}

/// The magic bytes that open a Morrowind-style archive.
pub open spec fn mw_magic() -> Seq<u8> {
    seq![0x00u8, 0x01u8, 0x00u8, 0x00u8]
}

/// What opening a BSA archive returns: the four leading magic bytes pick the
/// family, whose parser then reads the rest; unknown magic is a structural
/// parse error and yields no archive at all.
pub open spec fn spec_from_file(data: Seq<u8>) -> Result<
    (BSAHeader, Seq<(Seq<char>, BSAFile)>),
    ErrorKind,
> {
    if data.len() < 4 {
        Err(ErrorKind::ShortRead)
    } else if data.subrange(0, 4) == ob_magic() {
        spec_parse_ob(data)
    } else if data.subrange(0, 4) == mw_magic() {
        spec_parse_mw(data)
    } else {
        Err(ErrorKind::StructuralParse)
    }
}

/// Malformed-magic law: when an archive's four leading bytes name no known
/// family, opening it yields a structural parse error, so no archive value
/// is ever constructed from it.
pub proof fn lemma_bad_magic_is_structural(data: Seq<u8>)
    requires
        data.len() >= 4,
        data.subrange(0, 4) != ob_magic(),
        data.subrange(0, 4) != mw_magic(),
    ensures
        spec_from_file(data) == Err::<(BSAHeader, Seq<(Seq<char>, BSAFile)>), ErrorKind>(
            ErrorKind::StructuralParse,
        ),
{
}

/// Given a path and the archive file's bytes, sniffs the leading magic and
/// parses the archive with the matching family's decoder.
pub fn from_file(path: String, data: Vec<u8>) -> (r: Result<BSAArchive, TESError>)
    ensures
        match r {
            Ok(a) => {
                &&& spec_from_file(data@) is Ok
                &&& a.header == spec_from_file(data@)->Ok_0.0
                &&& a.file_hashmap@ == build_map(spec_from_file(data@)->Ok_0.1)
                &&& a.path@ == path@
                &&& a.wf()
            },
            Err(e) => spec_from_file(data@) == Err::<
                (BSAHeader, Seq<(Seq<char>, BSAFile)>),
                ErrorKind,
            >(e.kind()),
        },
{
    let ghost bytes = data@;
    let mut reader = TESReader::from_reader(data);
    let file_magic = reader.read_exact_vec(4)?;
    proof {
        assert(file_magic@ =~= bytes.subrange(0, 4));
    }
    if file_magic[0] == 0x42 && file_magic[1] == 0x53 && file_magic[2] == 0x41 && file_magic[3]
        == 0x00 {
        proof {
            assert(bytes.subrange(0, 4) =~= ob_magic());
        }
        oblivion::parse_bsa(path, &mut reader)
    } else if file_magic[0] == 0x00 && file_magic[1] == 0x01 && file_magic[2] == 0x00
        && file_magic[3] == 0x00 {
        proof {
            assert(bytes.subrange(0, 4) =~= mw_magic());
        }
        morrowind::parse_bsa(path, &mut reader)
    } else {
        proof {
            if bytes.subrange(0, 4) == ob_magic() {
                assert(file_magic@[0] == 0x42 && file_magic@[1] == 0x53 && file_magic@[2] == 0x41
                    && file_magic@[3] == 0x00);
            }
            if bytes.subrange(0, 4) == mw_magic() {
                assert(file_magic@[0] == 0x00 && file_magic@[1] == 0x01 && file_magic@[2] == 0x00
                    && file_magic@[3] == 0x00);
            }
        }
        Err(TESError::StructuralParseError(String::from_str("Unknown BSA file identifier")))
    }
}

} // verus!
