//! The fixed-layout records of a ZIP archive's directory.

use vstd::prelude::*;

use crate::bytes::{le16, le32, le64, read_u16_le, read_u32_le, read_u64_le};
use crate::error::ArchiveError;

verus! {

pub const EOCD_SIGNATURE: u32 = 0x06054b50;
pub const EOCD64_SIGNATURE: u32 = 0x06064b50;
pub const LOCATOR_SIGNATURE: u32 = 0x07064b50;
pub const CENTRAL_DIR_SIGNATURE: u32 = 0x02014b50;

pub const EOCD_SIZE: usize = 22;
pub const EOCD64_SIZE: usize = 56;
pub const LOCATOR_SIZE: usize = 20;
pub const CENTRAL_DIR_SIZE: usize = 46;

/// The end-of-central-directory record, without its signature and comment.
#[derive(Clone, Copy, Debug, PartialEq, Eq, Structural)]
pub struct EndOfCentralDir {
    pub disk_num: u16,
    pub cd_start_disk: u16,
    pub num_records_on_disk: u16,
    pub num_records: u16,
    pub cd_size: u32,
    pub cd_start_offset: u32,
    pub comment_length: u16,
}

/// The ZIP64 end-of-central-directory record, without its signature.
#[derive(Clone, Copy, Debug, PartialEq, Eq, Structural)]
pub struct EndOfCentralDir64 {
    pub record_size: u64,
    pub version_made_by: u16,
    pub version_needed: u16,
    pub disk_num: u32,
    pub cd_start_disk: u32,
    pub num_records_on_disk: u64,
    pub num_records: u64,
    pub cd_size: u64,
    pub cd_start_offset: u64,
}

/// The ZIP64 end-of-central-directory locator, without its signature.
#[derive(Clone, Copy, Debug, PartialEq, Eq, Structural)]
pub struct EndOfCentralDir64Locator {
    pub eocd_start_disk: u32,
    pub zip64_eocd_offset: u64,
    pub num_of_disks: u32,
}

/// The fixed 46-byte header of a central directory entry, without its signature.
#[derive(Clone, Copy, Debug, PartialEq, Eq, Structural)]
pub struct CentralDirEntry {
    pub version_made_by: u16,
    pub version_needed: u16,
    pub gpb_flags: u16,
    pub compression_method: u16,
    pub last_mod_time: u16,
    pub last_mod_date: u16,
    pub crc32: u32,
    pub compressed_size: u32,
    pub uncompressed_size: u32,
    pub file_name_length: u16,
    pub extra_field_length: u16,
    pub comment_length: u16,
    pub file_start_disk: u16,
    pub internal_file_attributes: u16,
    pub external_file_attributes: u32,
    pub local_file_header_offset: u32,
}

/// Whether `s` holds a record of `size` bytes at `i` that starts with `signature`.
pub open spec fn record_at(s: Seq<u8>, i: int, size: int, signature: u32) -> bool {
    0 <= i && i + size <= s.len() && le32(s, i) == signature as int
}

/// What reading a record of `size` bytes with `signature` at `i` fails with, if anything.
pub open spec fn record_error(s: Seq<u8>, i: int, size: int, signature: u32) -> Option<ArchiveError> {
    if i < 0 || i + size > s.len() {
        Some(ArchiveError::Truncated)
    } else if le32(s, i) != signature as int {
        Some(ArchiveError::Corrupt)
    } else {
        None
    }
}

fn check_record(b: &[u8], at: usize, size: usize, signature: u32) -> (r: Result<(), ArchiveError>)
    requires
        size >= 4,
    ensures
        r is Err <==> record_error(b@, at as int, size as int, signature) is Some,
        r matches Err(e) ==> record_error(b@, at as int, size as int, signature) == Some(e),
{
    if at > b.len() || size > b.len() - at {
        Err(ArchiveError::Truncated)
    } else if read_u32_le(b, at) != signature {
        Err(ArchiveError::Corrupt)
    } else {
        Ok(())
    }
}

/// The end-of-central-directory record whose signature is at `i` in `s`.
pub open spec fn eocd_fields(s: Seq<u8>, i: int) -> EndOfCentralDir {
    EndOfCentralDir {
        disk_num: le16(s, i + 4) as u16,
        cd_start_disk: le16(s, i + 6) as u16,
        num_records_on_disk: le16(s, i + 8) as u16,
        num_records: le16(s, i + 10) as u16,
        cd_size: le32(s, i + 12) as u32,
        cd_start_offset: le32(s, i + 16) as u32,
        comment_length: le16(s, i + 20) as u16,
    }
}

/// The ZIP64 end-of-central-directory record whose signature is at `i` in `s`.
pub open spec fn eocd64_fields(s: Seq<u8>, i: int) -> EndOfCentralDir64 {
    EndOfCentralDir64 {
        record_size: le64(s, i + 4) as u64,
        version_made_by: le16(s, i + 12) as u16,
        version_needed: le16(s, i + 14) as u16,
        disk_num: le32(s, i + 16) as u32,
        cd_start_disk: le32(s, i + 20) as u32,
        num_records_on_disk: le64(s, i + 24) as u64,
        num_records: le64(s, i + 32) as u64,
        cd_size: le64(s, i + 40) as u64,
        cd_start_offset: le64(s, i + 48) as u64,
    }
}

/// The ZIP64 locator whose signature is at `i` in `s`.
pub open spec fn locator_fields(s: Seq<u8>, i: int) -> EndOfCentralDir64Locator {
    EndOfCentralDir64Locator {
        eocd_start_disk: le32(s, i + 4) as u32,
        zip64_eocd_offset: le64(s, i + 8) as u64,
        num_of_disks: le32(s, i + 16) as u32,
    }
}

/// The central directory header whose signature is at `i` in `s`.
pub open spec fn central_dir_fields(s: Seq<u8>, i: int) -> CentralDirEntry {
    CentralDirEntry {
        version_made_by: le16(s, i + 4) as u16,
        version_needed: le16(s, i + 6) as u16,
        gpb_flags: le16(s, i + 8) as u16,
        compression_method: le16(s, i + 10) as u16,
        last_mod_time: le16(s, i + 12) as u16,
        last_mod_date: le16(s, i + 14) as u16,
        crc32: le32(s, i + 16) as u32,
        compressed_size: le32(s, i + 20) as u32,
        uncompressed_size: le32(s, i + 24) as u32,
        file_name_length: le16(s, i + 28) as u16,
        extra_field_length: le16(s, i + 30) as u16,
        comment_length: le16(s, i + 32) as u16,
        file_start_disk: le16(s, i + 34) as u16,
        internal_file_attributes: le16(s, i + 36) as u16,
        external_file_attributes: le32(s, i + 38) as u32,
        local_file_header_offset: le32(s, i + 42) as u32,
    }
}

/// Reading a record: its error if it has one, else the fields that `fields` gives.
pub open spec fn decoded<T>(err: Option<ArchiveError>, fields: T) -> Result<T, ArchiveError> {
    match err {
        Some(e) => Err(e),
        None => Ok(fields),
    }
}

impl EndOfCentralDir {
    /// Decodes the record whose signature is at `at` in `b`.
    pub fn decode(b: &[u8], at: usize) -> (r: Result<Self, ArchiveError>)
        ensures
            r == decoded(
                record_error(b@, at as int, EOCD_SIZE as int, EOCD_SIGNATURE),
                eocd_fields(b@, at as int),
            ),
    {
        let _n = b.len();
        check_record(b, at, EOCD_SIZE, EOCD_SIGNATURE)?;
        Ok(EndOfCentralDir {
            disk_num: read_u16_le(b, at + 4),
            cd_start_disk: read_u16_le(b, at + 6),
            num_records_on_disk: read_u16_le(b, at + 8),
            num_records: read_u16_le(b, at + 10),
            cd_size: read_u32_le(b, at + 12),
            cd_start_offset: read_u32_le(b, at + 16),
            comment_length: read_u16_le(b, at + 20),
        })
    }

    /// Whether a field holds its all-ones value, which defers it to the ZIP64 records.
    pub open spec fn spec_needs_zip64(&self) -> bool {
        self.disk_num == 0xFFFF || self.cd_start_disk == 0xFFFF || self.num_records_on_disk
            == 0xFFFF || self.num_records == 0xFFFF || self.cd_size == 0xFFFF_FFFF
            || self.cd_start_offset == 0xFFFF_FFFF
    }

    /// Whether the archive keeps its directory's place in the ZIP64 records.
    pub fn needs_zip64(&self) -> (r: bool)
        ensures
            r == self.spec_needs_zip64(),
    {
        self.disk_num == 0xFFFF || self.cd_start_disk == 0xFFFF || self.num_records_on_disk
            == 0xFFFF || self.num_records == 0xFFFF || self.cd_size == 0xFFFF_FFFF
            || self.cd_start_offset == 0xFFFF_FFFF
    }
}

impl EndOfCentralDir64 {
    /// Decodes the record whose signature is at `at` in `b`.
    pub fn decode(b: &[u8], at: usize) -> (r: Result<Self, ArchiveError>)
        ensures
            r == decoded(
                record_error(b@, at as int, EOCD64_SIZE as int, EOCD64_SIGNATURE),
                eocd64_fields(b@, at as int),
            ),
    {
        let _n = b.len();
        check_record(b, at, EOCD64_SIZE, EOCD64_SIGNATURE)?;
        Ok(EndOfCentralDir64 {
            record_size: read_u64_le(b, at + 4),
            version_made_by: read_u16_le(b, at + 12),
            version_needed: read_u16_le(b, at + 14),
            disk_num: read_u32_le(b, at + 16),
            cd_start_disk: read_u32_le(b, at + 20),
            num_records_on_disk: read_u64_le(b, at + 24),
            num_records: read_u64_le(b, at + 32),
            cd_size: read_u64_le(b, at + 40),
            cd_start_offset: read_u64_le(b, at + 48),
        })
    }
}

impl EndOfCentralDir64Locator {
    /// Decodes the record whose signature is at `at` in `b`.
    pub fn decode(b: &[u8], at: usize) -> (r: Result<Self, ArchiveError>)
        ensures
            r == decoded(
                record_error(b@, at as int, LOCATOR_SIZE as int, LOCATOR_SIGNATURE),
                locator_fields(b@, at as int),
            ),
    {
        let _n = b.len();
        check_record(b, at, LOCATOR_SIZE, LOCATOR_SIGNATURE)?;
        Ok(EndOfCentralDir64Locator {
            eocd_start_disk: read_u32_le(b, at + 4),
            zip64_eocd_offset: read_u64_le(b, at + 8),
            num_of_disks: read_u32_le(b, at + 16),
        })
    }
}

impl CentralDirEntry {
    /// Decodes the fixed header whose signature is at `at` in `b`.
    pub fn decode(b: &[u8], at: usize) -> (r: Result<Self, ArchiveError>)
        ensures
            r == decoded(
                record_error(b@, at as int, CENTRAL_DIR_SIZE as int, CENTRAL_DIR_SIGNATURE),
                central_dir_fields(b@, at as int),
            ),
    {
        let _n = b.len();
        check_record(b, at, CENTRAL_DIR_SIZE, CENTRAL_DIR_SIGNATURE)?;
        Ok(CentralDirEntry {
            version_made_by: read_u16_le(b, at + 4),
            version_needed: read_u16_le(b, at + 6),
            gpb_flags: read_u16_le(b, at + 8),
            compression_method: read_u16_le(b, at + 10),
            last_mod_time: read_u16_le(b, at + 12),
            last_mod_date: read_u16_le(b, at + 14),
            crc32: read_u32_le(b, at + 16),
            compressed_size: read_u32_le(b, at + 20),
            uncompressed_size: read_u32_le(b, at + 24),
            file_name_length: read_u16_le(b, at + 28),
            extra_field_length: read_u16_le(b, at + 30),
            comment_length: read_u16_le(b, at + 32),
            file_start_disk: read_u16_le(b, at + 34),
            internal_file_attributes: read_u16_le(b, at + 36),
            external_file_attributes: read_u32_le(b, at + 38),
            local_file_header_offset: read_u32_le(b, at + 42),
        })
    }
}

} // verus!
