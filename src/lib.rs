//! Lists the contents of a remote ZIP archive from a handful of byte ranges.
//!
//! The library decides which ranges to fetch and decodes what comes back;
//! the transport that fetches them is supplied by the caller. A listing takes
//! the archive's tail, for ZIP64 archives two small records, and then the
//! central directory in one piece.

pub mod archive;
pub mod bytes;
pub mod directory;
pub mod error;
pub mod laws;
pub mod multi;
pub mod names;
pub mod records;
pub mod remote;
pub mod round_trip;
pub mod session;
pub mod tree;

pub use archive::{DirLocation, Fetch, Located, ZipFile};
pub use bytes::{read_u16_le, read_u32_le, read_u64_le};
pub use directory::{read_entry, Entry, EntryIter};
pub use error::ArchiveError;
pub use multi::{MultiFile, PartRead};
pub use names::{decode_name, is_utf8_flag};
pub use records::{CentralDirEntry, EndOfCentralDir, EndOfCentralDir64, EndOfCentralDir64Locator};
pub use remote::{
    check_range, parse_content_range_total, range_header, seek_position, RemoteFile, SeekFrom,
    SupportedTypes,
};
pub use session::{list_entries, ListingSession, Phase, Step};
pub use tree::{build_subtree, build_tree, path_components, TreeNode};
