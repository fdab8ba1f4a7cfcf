//! The kinds of failure that listing a remote archive can end in.

use vstd::prelude::*;

verus! {

/// Why listing an archive failed.
#[derive(Clone, Copy, Debug, PartialEq, Eq, Structural)]
pub enum ArchiveError {
    /// The transport failed: connection, DNS, TLS, a dropped body.
    Network,
    /// The server did not answer the probe with a usable partial response.
    RangeUnsupported,
    /// A `Content-Range` header could not be read.
    Protocol,
    /// The archive is smaller than the record that must be read.
    Truncated,
    /// No end-of-central-directory record in the archive's tail.
    NotAZip,
    /// A record has the wrong signature, or a declared length leaves the file.
    Corrupt,
    /// A file name could not be decoded under a strict policy.
    Encoding,
    /// The caller cancelled a fetch.
    Aborted,
    /// A seek to a negative position, or past the largest offset.
    InvalidSeek,
}

impl ArchiveError {
    /// A short description of the failure.
    pub fn message(&self) -> (r: &'static str) {
        match self {
            ArchiveError::Network => "network failure",
            ArchiveError::RangeUnsupported => "the server does not support range requests",
            ArchiveError::Protocol => "malformed Content-Range header",
            ArchiveError::Truncated => "the archive is truncated",
            ArchiveError::NotAZip => "not a ZIP archive",
            ArchiveError::Corrupt => "the archive is corrupt",
            ArchiveError::Encoding => "a file name is not validly encoded",
            ArchiveError::Aborted => "aborted",
            ArchiveError::InvalidSeek => "invalid seek",
        }
    }
}

} // verus!
