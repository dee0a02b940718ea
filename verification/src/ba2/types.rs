//! BA2 archive enum and struct definitions.

use vstd::prelude::*;

verus! {

/// Metadata for the whole archive.
#[derive(Debug, Clone, Copy)]
pub struct BA2Header {
    /// Version of the file format.
    pub version: BA2Version,
    /// The kind of payload the archive carries.
    pub file_type: BA2Type,
    /// Count of all files the header declares.
    pub file_count: usize,
    /// Absolute offset of the file name table.
    pub name_table_offset: u64,
}

/// Header information for one texture entry.
#[derive(Debug, Clone, Copy)]
pub struct BA2TextureHeader {
    /// Number of data chunks the texture is split into.
    pub num_chunks: usize,
    /// Size of one chunk header.
    pub chunk_header_size: u16,
    /// Height of the texture.
    pub height: u16,
    /// Width of the texture.
    pub width: u16,
    /// Number of mipmaps.
    pub num_mipmaps: u8,
    /// The DXGI encoding format of the texture.
    pub dxgi_format: u8,
}

/// One stored data chunk of an entry.
#[derive(Debug, Clone, Copy)]
pub struct BA2FileChunk {
    /// Absolute offset of the chunk's data.
    pub content_offset: u64,
    /// Size of the chunk while compressed; zero means the chunk is stored
    /// raw.
    pub compressed_size: u32,
    /// Size of the chunk once uncompressed.
    pub uncompressed_size: u32,
}

/// Metadata for a single file: general entries have no texture header and
/// exactly one chunk, texture entries have a header and one chunk per piece.
#[derive(Debug)]
pub struct BA2File {
    /// The texture header, present only for texture entries.
    pub header: Option<BA2TextureHeader>,
    /// The entry's data chunks.
    pub chunks: Vec<BA2FileChunk>,
}

/// The mathematical shape of a [`BA2File`]: the same fields with the chunk
/// list as a sequence.
pub struct BA2FileModel {
    /// The texture header, present only for texture entries.
    pub header: Option<BA2TextureHeader>,
    /// The entry's data chunks.
    pub chunks: Seq<BA2FileChunk>,
}

impl View for BA2File {
    type V = BA2FileModel;

    open spec fn view(&self) -> BA2FileModel {
        BA2FileModel { header: self.header, chunks: self.chunks@ }
    }
}

/// The kind of files contained in a BA2 archive.
#[derive(Debug, Clone, Copy)]
pub enum BA2Type {
    /// General payloads, tagged `GNRL` on disk.
    General,
    /// Texture payloads, tagged `DX10` on disk.
    Textures,
}

/// The version of a BA2 archive.
#[derive(Debug, Clone, Copy)]
pub enum BA2Version {
    /// Fallout 4 archives (version tag 1).
    Fallout4,
}

} // verus!
