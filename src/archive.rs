//! Finding the central directory of an archive from the ranges it is fetched in.
//!
//! A listing takes at most four fetches: the archive's tail, where the
//! end-of-central-directory record lies; for ZIP64 archives the locator and the
//! ZIP64 record; and the central directory itself, in one piece.

use vstd::prelude::*;

use crate::bytes::{le16, le32};
use crate::directory::{entries_from, EntryIter, EntryModel};
use crate::error::ArchiveError;
use crate::records::{
    decoded, eocd64_fields, eocd_fields, locator_fields, record_error, EndOfCentralDir,
    EndOfCentralDir64, EndOfCentralDir64Locator, EOCD64_SIGNATURE, EOCD64_SIZE, EOCD_SIGNATURE,
    EOCD_SIZE, LOCATOR_SIGNATURE, LOCATOR_SIZE,
};

verus! {

/// The largest tail that can hold the end record: a 65535-byte comment and 22 bytes.
pub const MAX_EOCD_WINDOW: u64 = 65557;

/// A range of the archive to fetch: `len` bytes from `start`.
#[derive(Clone, Copy, Debug, PartialEq, Eq, Structural)]
pub struct Fetch {
    pub start: u64,
    pub len: u64,
}

/// Where the central directory lies and how many entries it holds.
#[derive(Clone, Copy, Debug, PartialEq, Eq, Structural)]
pub struct DirLocation {
    pub offset: u64,
    pub size: u64,
    pub num_records: u64,
}

/// What the end record says: the directory, or that the ZIP64 locator must be read first.
#[derive(Clone, Copy, Debug, PartialEq, Eq, Structural)]
pub enum Located {
    Classic(DirLocation),
    Zip64(Fetch),
}

/// An archive of a known size whose directory is being located.
pub struct ZipFile {
    size: u64,
}

/// The number of trailing bytes searched for the end record.
pub open spec fn window_len(size: int) -> int {
    if size < MAX_EOCD_WINDOW {
        size
    } else {
        MAX_EOCD_WINDOW as int
    }
}

/// Whether an end record starts at `i` in the window `w` and its comment runs exactly to the end.
pub open spec fn eocd_candidate(w: Seq<u8>, i: int) -> bool {
    0 <= i && i + 22 <= w.len() && le32(w, i) == EOCD_SIGNATURE as int && i + 22 + le16(w, i + 20)
        == w.len()
}

/// The last candidate at or before `i`.
pub open spec fn last_eocd_from(w: Seq<u8>, i: int) -> Option<int>
    decreases i + 1,
{
    if i < 0 {
        None
    } else if eocd_candidate(w, i) {
        Some(i)
    } else {
        last_eocd_from(w, i - 1)
    }
}

/// Where the end record starts in the window: the last candidate.
pub open spec fn last_eocd(w: Seq<u8>) -> Option<int> {
    last_eocd_from(w, w.len() - 22)
}

/// The bytes of `f` that `fe` names.
pub open spec fn fetched(f: Seq<u8>, fe: Fetch) -> Seq<u8> {
    f.subrange(fe.start as int, fe.start + fe.len)
}

/// The directory, if it lies within an archive of `size` bytes.
pub open spec fn checked_location(size: int, loc: DirLocation) -> Result<DirLocation, ArchiveError> {
    if loc.offset + loc.size > size {
        Err(ArchiveError::Corrupt)
    } else {
        Ok(loc)
    }
}

/// The first fetch: the tail in which the end record is searched.
pub open spec fn tail_fetch(size: int) -> Result<Fetch, ArchiveError> {
    if size < EOCD_SIZE {
        Err(ArchiveError::Truncated)
    } else {
        Ok(Fetch { start: (size - window_len(size)) as u64, len: window_len(size) as u64 })
    }
}

/// What the tail `w` of an archive of `size` bytes says of the directory.
pub open spec fn located(size: int, w: Seq<u8>) -> Result<Located, ArchiveError> {
    match last_eocd(w) {
        None => Err(ArchiveError::NotAZip),
        Some(i) => {
            let e = eocd_fields(w, i);
            if e.spec_needs_zip64() {
                let pos = size - w.len() + i;
                if pos < LOCATOR_SIZE {
                    Err(ArchiveError::Truncated)
                } else {
                    Ok(Located::Zip64(Fetch { start: (pos - LOCATOR_SIZE) as u64, len: LOCATOR_SIZE as u64 }))
                }
            } else {
                match checked_location(
                    size,
                    DirLocation {
                        offset: e.cd_start_offset as u64,
                        size: e.cd_size as u64,
                        num_records: e.num_records as u64,
                    },
                ) {
                    Ok(loc) => Ok(Located::Classic(loc)),
                    Err(x) => Err(x),
                }
            }
        },
    }
}

/// What the locator bytes `b` say: the fetch of the ZIP64 end record.
pub open spec fn eocd64_fetch(size: int, b: Seq<u8>) -> Result<Fetch, ArchiveError> {
    match decoded(record_error(b, 0, LOCATOR_SIZE as int, LOCATOR_SIGNATURE), locator_fields(b, 0)) {
        Err(x) => Err(x),
        Ok(l) => if l.zip64_eocd_offset >= size {
            Err(ArchiveError::Corrupt)
        } else {
            let left = size - l.zip64_eocd_offset;
            Ok(Fetch {
                start: l.zip64_eocd_offset,
                len: (if left < EOCD64_SIZE { left } else { EOCD64_SIZE as int }) as u64,
            })
        },
    }
}

/// What the ZIP64 end record bytes `b` say of the directory.
pub open spec fn zip64_location(size: int, b: Seq<u8>) -> Result<DirLocation, ArchiveError> {
    match decoded(record_error(b, 0, EOCD64_SIZE as int, EOCD64_SIGNATURE), eocd64_fields(b, 0)) {
        Err(x) => Err(x),
        Ok(e) => checked_location(
            size,
            DirLocation { offset: e.cd_start_offset, size: e.cd_size, num_records: e.num_records },
        ),
    }
}

/// The entries of the directory at `loc` in the archive `f`.
pub open spec fn directory_listing(f: Seq<u8>, loc: DirLocation) -> Result<Seq<EntryModel>, ArchiveError> {
    entries_from(f.subrange(loc.offset as int, loc.offset + loc.size), 0, loc.num_records as nat)
}

/// The listing of the archive `f`: its entries in directory order, or why there are none.
#[verifier::opaque]
pub open spec fn listing(f: Seq<u8>) -> Result<Seq<EntryModel>, ArchiveError> {
    match tail_fetch(f.len() as int) {
        Err(x) => Err(x),
        Ok(t) => match located(f.len() as int, fetched(f, t)) {
            Err(x) => Err(x),
            Ok(Located::Classic(loc)) => directory_listing(f, loc),
            Ok(Located::Zip64(lf)) => match eocd64_fetch(f.len() as int, fetched(f, lf)) {
                Err(x) => Err(x),
                Ok(ef) => match zip64_location(f.len() as int, fetched(f, ef)) {
                    Err(x) => Err(x),
                    Ok(loc) => directory_listing(f, loc),
                },
            },
        },
    }
}

proof fn lemma_last_eocd_is_candidate(w: Seq<u8>, i: int)
    ensures
        last_eocd_from(w, i) matches Some(j) ==> eocd_candidate(w, j),
    decreases i + 1,
{
    if i >= 0 && !eocd_candidate(w, i) {
        lemma_last_eocd_is_candidate(w, i - 1);
    }
}

fn checked(size: u64, loc: DirLocation) -> (r: Result<DirLocation, ArchiveError>)
    ensures
        r == checked_location(size as int, loc),
{
    if loc.size > size || loc.offset > size - loc.size {
        Err(ArchiveError::Corrupt)
    } else {
        Ok(loc)
    }
}

impl ZipFile {
    /// The size of the archive.
    pub closed spec fn spec_size(&self) -> int {
        self.size as int
    }

    /// An archive of `size` bytes; nothing is fetched yet.
    pub fn new(size: u64) -> (r: ZipFile)
        ensures
            r.spec_size() == size,
    {
        ZipFile { size }
    }

    /// The size of the archive.
    pub fn size(&self) -> (r: u64)
        ensures
            r == self.spec_size(),
    {
        self.size
    }

    /// Searches `window` backwards for the end record whose comment ends the window.
    pub fn find_eocd(window: &[u8]) -> (r: Option<usize>)
        ensures
            r is None <==> last_eocd(window@) is None,
            r matches Some(i) ==> last_eocd(window@) == Some(i as int) && i + 22 <= window@.len(),
    {
        let n = window.len();
        if n < 22 {
            return None;
        }
        let mut k: usize = n - 22 + 1;
        while k > 0
            invariant
                n == window@.len(),
                n >= 22,
                k <= n - 21,
                last_eocd(window@) == last_eocd_from(window@, k - 1),
            decreases k,
        {
            let i = k - 1;
            if crate::bytes::read_u32_le(window, i) == EOCD_SIGNATURE {
                let comment = crate::bytes::read_u16_le(window, i + 20) as usize;
                if comment == n - 22 - i {
                    return Some(i);
                }
            }
            k = i;
        }
        None
    }

    /// The tail to fetch first; an archive shorter than an end record is truncated.
    pub fn tail_fetch(&self) -> (r: Result<Fetch, ArchiveError>)
        ensures
            r == tail_fetch(self.spec_size()),
    {
        if self.size < EOCD_SIZE as u64 {
            Err(ArchiveError::Truncated)
        } else {
            let w = if self.size < MAX_EOCD_WINDOW { self.size } else { MAX_EOCD_WINDOW };
            Ok(Fetch { start: self.size - w, len: w })
        }
    }

    /// Reads the end record out of the fetched tail `window`.
    pub fn locate(&self, window: &[u8]) -> (r: Result<Located, ArchiveError>)
        requires
            window@.len() <= self.spec_size(),
        ensures
            r == located(self.spec_size(), window@),
            r matches Ok(Located::Zip64(lf)) ==> lf.start + lf.len + 22 <= self.spec_size(),
    {
        let i = match ZipFile::find_eocd(window) {
            None => return Err(ArchiveError::NotAZip),
            Some(i) => i,
        };
        proof {
            lemma_last_eocd_is_candidate(window@, window@.len() - 22);
        }
        let e = match EndOfCentralDir::decode(window, i) {
            Ok(e) => e,
            Err(x) => return Err(x),
        };
        if e.needs_zip64() {
            let pos = self.size - window.len() as u64 + i as u64;
            if pos < LOCATOR_SIZE as u64 {
                Err(ArchiveError::Truncated)
            } else {
                Ok(Located::Zip64(Fetch { start: pos - LOCATOR_SIZE as u64, len: LOCATOR_SIZE as u64 }))
            }
        } else {
            let loc = DirLocation {
                offset: e.cd_start_offset as u64,
                size: e.cd_size as u64,
                num_records: e.num_records as u64,
            };
            match checked(self.size, loc) {
                Ok(loc) => Ok(Located::Classic(loc)),
                Err(x) => Err(x),
            }
        }
    }

    /// Reads the ZIP64 locator out of `bytes`, giving the fetch of the ZIP64 end record.
    pub fn read_locator(&self, bytes: &[u8]) -> (r: Result<Fetch, ArchiveError>)
        ensures
            r == eocd64_fetch(self.spec_size(), bytes@),
    {
        let l = EndOfCentralDir64Locator::decode(bytes, 0)?;
        if l.zip64_eocd_offset >= self.size {
            Err(ArchiveError::Corrupt)
        } else {
            let left = self.size - l.zip64_eocd_offset;
            let len = if left < EOCD64_SIZE as u64 { left } else { EOCD64_SIZE as u64 };
            Ok(Fetch { start: l.zip64_eocd_offset, len })
        }
    }

    /// Reads the ZIP64 end record out of `bytes`, whose 64-bit fields place the directory.
    pub fn read_zip64_end(&self, bytes: &[u8]) -> (r: Result<DirLocation, ArchiveError>)
        ensures
            r == zip64_location(self.spec_size(), bytes@),
    {
        let e = EndOfCentralDir64::decode(bytes, 0)?;
        checked(
            self.size,
            DirLocation { offset: e.cd_start_offset, size: e.cd_size, num_records: e.num_records },
        )
    }

    /// The fetch of the whole central directory.
    pub fn directory_fetch(loc: &DirLocation) -> (r: Fetch)
        ensures
            r == (Fetch { start: loc.offset, len: loc.size }),
    {
        Fetch { start: loc.offset, len: loc.size }
    }

    /// The entries of the fetched directory `block`; each call starts again from the first.
    /// The directory is found beforehand by a `ListingSession`.
    pub fn entry_iter(loc: &DirLocation, block: Vec<u8>) -> (r: EntryIter)
        ensures
            r.rest() == entries_from(block@, 0, loc.num_records as nat),
    {
        EntryIter::new(block, loc.num_records)
    }
}

} // verus!
