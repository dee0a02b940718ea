//! BA2 archives: the newest container family, carrying either general or
//! texture payloads, plus extraction for its general entries.

use vstd::prelude::*;

mod fallout4;
mod types;

pub use self::fallout4::ba2_names;
pub use self::fallout4::entries_view;
pub use self::fallout4::parse_ba2;
pub use self::fallout4::lemma_ba2_entry_count;
pub use self::fallout4::spec_parse_ba2;
pub use self::types::BA2File;
pub use self::types::BA2FileChunk;
pub use self::types::BA2FileModel;
pub use self::types::BA2Header;
pub use self::types::BA2TextureHeader;
pub use self::types::BA2Type;
pub use self::types::BA2Version;

use crate::archive::build_map;
use crate::archive::Archive;
use crate::archive::Extract;
use crate::error::ErrorKind;
use crate::error::TESError;
use crate::reader::TESReader;
use crate::zlib_inflate;
use crate::Compression;

verus! {

/// A parsed BA2 archive.
pub type BA2Archive = Archive<BA2Header, BA2File>;

/// What extracting a BA2 entry returns. Texture entries are a recognized but
/// unsupported layout and always fail fast. A general entry's single chunk
/// is read at its offset — the compressed size when nonzero, the raw size
/// otherwise — and inflated when it was stored compressed.
pub open spec fn spec_ba2_extract(f: BA2FileModel, data: Seq<u8>) -> Result<Seq<u8>, ErrorKind> {
    match f.header {
        Some(_) => Err(ErrorKind::Unsupported),
        None => {
            let c = f.chunks[0];
            let stored: int = if c.compressed_size == 0 {
                c.uncompressed_size as int
            } else {
                c.compressed_size as int
            };
            if c.content_offset as int + stored > data.len() {
                Err(ErrorKind::ShortRead)
            } else {
                let block = data.subrange(c.content_offset as int, c.content_offset as int + stored);
                if c.compressed_size != 0 {
                    match zlib_inflate(block) {
                        Some(out) => Ok(out),
                        None => Err(ErrorKind::Decompression),
                    }
                } else {
                    Ok(block)
                }
            }
        },
    }
}

/// Unsupported-feature law: extraction of a chunked texture entry always
/// fails fast with an unsupported-feature error, for any archive bytes — it
/// never returns bytes at all.
pub proof fn lemma_texture_extract_unsupported(f: BA2FileModel, data: Seq<u8>)
    requires
        f.header is Some,
    ensures
        spec_ba2_extract(f, data) == Err::<Seq<u8>, ErrorKind>(ErrorKind::Unsupported),
{
}

impl Extract for BA2File {
    open spec fn wf(&self) -> bool {
        self.header is None ==> self.chunks@.len() == 1
    }

    open spec fn extract_spec(&self, data: Seq<u8>) -> Result<Seq<u8>, ErrorKind> {
        spec_ba2_extract(self@, data)
    }

    /// Given a file record, extracts the file's content from the archive
    /// bytes behind the cursor.
    fn extract(&self, reader: &mut TESReader) -> (r: Result<Vec<u8>, TESError>) {
        match &self.header {
            Some(_) => Err(
                TESError::UnsupportedFeature(
                    String::from_str("Extraction is not supported for BA2 texture files"),
                ),
            ),
            None => {
                let general_file = &self.chunks[0];
                reader.seek(general_file.content_offset);
                let stored: u32 = if general_file.compressed_size == 0 {
                    general_file.uncompressed_size
                } else {
                    general_file.compressed_size
                };
                let file_block = match reader.read_exact_vec(stored as usize) {
                    Ok(b) => b,
                    Err(e) => {
                        return Err(e);
                    },
                };
                if general_file.compressed_size != 0 {
                    let ghost blockv = file_block@;
                    let mut buffer = vstd::bytes::u32_to_le_bytes(general_file.uncompressed_size);
                    let mut block = file_block;
                    buffer.append(&mut block);
                    proof {
                        assert(buffer@.skip(4) =~= blockv);
                    }
                    Compression::Zlib.decompress_buffer(buffer.as_slice())
                } else {
                    Ok(file_block)
                }
            },
        }
    }
}

/// Given a path and the archive file's bytes, parses the BA2 archive.
pub fn from_file(path: String, data: Vec<u8>) -> (r: Result<BA2Archive, TESError>)
    ensures
        match r {
            Ok(a) => {
                &&& spec_parse_ba2(data@) is Ok
                &&& a.header == spec_parse_ba2(data@)->Ok_0.0
                &&& fallout4::entries_view(a.file_hashmap@) == build_map(
                    spec_parse_ba2(data@)->Ok_0.1,
                )
                &&& a.path@ == path@
                &&& a.wf()
            },
            Err(e) => spec_parse_ba2(data@) == Err::<
                (BA2Header, Seq<(Seq<char>, BA2FileModel)>),
                ErrorKind,
            >(e.kind()),
        },
{
    let mut reader = TESReader::from_reader(data);
    fallout4::parse_ba2(path, &mut reader)
}

} // verus!
