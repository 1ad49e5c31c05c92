//! Decoder for a little-endian tagged binary "property bag" container.
//!
//! The crate turns a raw byte buffer into a typed value tree: a document
//! holds a format version, an ordered list of link path strings, and a
//! table of named struct entries.  Decoding is specified by a family of
//! spec-level functions over the byte sequence (`wire`), and the executable
//! decoder (`reader`) is proved to return exactly what those functions say.

use vstd::prelude::*;

mod errors;
mod hashes;
mod value;
mod laws;
mod reader;
mod wire;

pub use errors::BinError;
pub use errors::MalformedHashFile;
pub use hashes::BinFNV;
pub use hashes::BinHashList;
pub use hashes::BinHashes;
pub use hashes::BinPathList;
pub use hashes::BinXXH;
pub use hashes::SpecHashes;
pub use hashes::SpecFnv;
pub use hashes::SpecXxh;
pub use value::BinValue;
pub use value::SpecValue;
pub use reader::BinReader;
pub use wire::SpecDoc;

use value::deep_fields;
use value::deep_links;
use wire::sd_doc;

verus! {

/// A decoded document: the format version (carried through unvalidated),
/// the ordered link path list, and the entry table keyed by entry-name
/// hash.
#[derive(Debug)]
pub struct Bin {
    pub version: u32,
    pub links: Vec<Vec<u8>>,
    pub entries: Vec<(BinFNV, BinValue)>,
}

impl View for Bin {
    type V = SpecDoc;

    open spec fn view(&self) -> SpecDoc {
        SpecDoc {
            version: self.version,
            links: deep_links(self.links@),
            entries: deep_fields(self.entries@),
        }
    }
}

impl Bin {
    /// Decodes a whole in-memory buffer against pre-populated hash
    /// dictionaries: exactly what [`sd_doc`] says the bytes hold.
    pub fn read_from_data(data: &[u8], hashes: &BinHashes) -> (r: Result<Bin, BinError>)
        ensures
            match sd_doc(data@, hashes@) {
                Ok(m) => r matches Ok(b) && b@ == m,
                Err(e) => r matches Err(e2) && e2 == e,
            },
    {
        BinReader::read_bin(data, hashes)
    }
}

} // verus!
