//! BSA archive enum and struct definitions shared by the Morrowind-style and
//! Oblivion-style decoders.

use vstd::prelude::*;

use crate::Compression;

verus! {

/// Archive flag: include file names. Parsing requires it; without it the
/// name table is absent, which is an unsupported layout.
pub const INCLUDE_FILE_NAMES: u32 = 0b0000_0010;

/// Archive flag: files are compressed by default, but each record may opt
/// out.
pub const COMPRESSED_ARCHIVE: u32 = 0b0000_0100;

/// Archive flag: file records begin with a length-prefixed copy of the
/// file's name.
pub const EMBED_FILE_NAMES: u32 = 0b1_0000_0000;

/// Every archive flag bit a BSA header may carry; any other bit set is a
/// structural error.
pub const ARCHIVE_FLAGS_MASK: u32 = 0b111_1111_1111;

/// Every file-category flag bit a BSA header may carry; any other bit set is
/// a structural error.
pub const FILE_FLAGS_MASK: u16 = 0b1_1111_1111;

/// Flag used to indicate what version of the BSA layout an archive conforms
/// to.
#[derive(Debug, PartialEq, Eq, Structural, Clone, Copy)]
pub enum Version {
    /// Morrowind archives carry no version tag of their own.
    MORROWIND,
    /// Oblivion archives (version tag 0x67).
    OBLIVION,
    /// Fallout 3, Fallout New Vegas and Skyrim archives (version tag 0x68).
    SKYRIM,
    /// Skyrim Special Edition archives (version tag 0x69).
    SKYRIMSE,
}

/// Metadata for the whole archive.
#[derive(Debug, Clone, Copy)]
pub struct BSAHeader {
    /// The version of the file format.
    pub version: Version,
    /// Archive flags indicating how records and data are interpreted (zero
    /// for Morrowind, which has none).
    pub archive_flags: u32,
    /// Flags giving the categories of files contained in the archive (zero
    /// for Morrowind).
    pub file_flags: u16,
    /// Count of all files the header declares.
    pub file_count: usize,
}

/// Metadata for a single file.
#[derive(Debug, Clone, Copy)]
pub struct BSAFile {
    /// Whether the file's data block starts with an embedded,
    /// length-prefixed copy of its name.
    pub has_name: bool,
    /// The codec that extraction must apply to this file's data.
    pub compression: Compression,
    /// Size of the stored file data: the compressed size when the entry is
    /// compressed, the raw size otherwise.
    pub size: u32,
    /// Absolute offset from byte zero of the archive to the file's data.
    pub offset: u64,
}

/// The effective compression state of one entry: a record whose
/// `uses_default_compression` bit is clear inverts the archive-wide default.
pub open spec fn effective_compressed(container_default: bool, uses_default: bool) -> bool {
    if uses_default {
        container_default
    } else {
        !container_default
    }
}

/// The per-entry compression-override law: an entry with the override bit
/// set (`uses_default` false) has compression state equal to the logical
/// negation of the container-wide flag, and an entry without it has the
/// container-wide flag's state directly.
pub proof fn lemma_compression_override(container_default: bool, uses_default: bool)
    ensures
        !uses_default ==> effective_compressed(container_default, uses_default)
            == !container_default,
        uses_default ==> effective_compressed(container_default, uses_default)
            == container_default,
{
}

/// The codec a compressed entry of the given version uses: the LZ4 family
/// for Skyrim Special Edition, the zlib family for the other versioned
/// layouts. An uncompressed entry is stored raw.
pub open spec fn spec_version_codec(version: Version, compressed: bool) -> Compression {
    if compressed {
        match version {
            Version::OBLIVION => Compression::Zlib,
            Version::SKYRIM => Compression::Zlib,
            Version::SKYRIMSE => Compression::Lz4,
            Version::MORROWIND => Compression::Uncompressed,
        }
    } else {
        Compression::Uncompressed
    }
}

} // verus!
