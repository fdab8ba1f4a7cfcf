//! Properties that relate several parts of the listing.

use vstd::prelude::*;

use crate::archive::{
    checked_location, directory_listing, eocd64_fetch, fetched, last_eocd, listing, tail_fetch,
    zip64_location, DirLocation, Fetch,
};
use crate::directory::{EntryIter, EntryModel};
use crate::error::ArchiveError;
use crate::records::{eocd_fields, EndOfCentralDir};

verus! {

/// Listing the same archive twice gives the same entries, or the same failure.
pub proof fn law_listing_repeatable(a: Seq<u8>, b: Seq<u8>)
    requires
        a == b,
    ensures
        listing(a) == listing(b),
{
}

/// Two iterators over the same directory block, started afresh, yield the same entries.
pub proof fn law_entries_restartable(first: EntryIter, second: EntryIter)
    requires
        first.spec_block() == second.spec_block(),
        first.spec_pos() == 0,
        second.spec_pos() == 0,
        first.spec_remaining() == second.spec_remaining(),
    ensures
        first.rest() == second.rest(),
{
}

/// An archive whose end record holds an all-ones field is read through the locator
/// 20 bytes before the end record and then the ZIP64 end record it points to, whose
/// 64-bit fields place the directory.
pub proof fn law_zip64_path(f: Seq<u8>)
    requires
        f.len() >= 22,
        last_eocd(fetched(f, tail_fetch(f.len() as int)->Ok_0)) is Some,
        eocd_fields(
            fetched(f, tail_fetch(f.len() as int)->Ok_0),
            last_eocd(fetched(f, tail_fetch(f.len() as int)->Ok_0))->Some_0,
        ).spec_needs_zip64(),
    ensures
        ({
            let w = fetched(f, tail_fetch(f.len() as int)->Ok_0);
            let eocd_pos = f.len() - w.len() + last_eocd(w)->Some_0;
            eocd_pos < 20 ==> listing(f) == Err::<Seq<EntryModel>, ArchiveError>(ArchiveError::Truncated)
        }),
        ({
            let w = fetched(f, tail_fetch(f.len() as int)->Ok_0);
            let eocd_pos = f.len() - w.len() + last_eocd(w)->Some_0;
            let lf = Fetch { start: (eocd_pos - 20) as u64, len: 20 };
            eocd_pos >= 20 ==> listing(f) == match eocd64_fetch(f.len() as int, fetched(f, lf)) {
                Err(x) => Err(x),
                Ok(ef) => match zip64_location(f.len() as int, fetched(f, ef)) {
                    Err(x) => Err(x),
                    Ok(loc) => directory_listing(f, loc),
                },
            }
        }),
{
    reveal(listing);
}

/// An archive whose end record holds no all-ones field lists the directory that record
/// places, whatever comment follows it.
pub proof fn law_classic_path(f: Seq<u8>)
    requires
        f.len() >= 22,
        last_eocd(fetched(f, tail_fetch(f.len() as int)->Ok_0)) is Some,
        !eocd_fields(
            fetched(f, tail_fetch(f.len() as int)->Ok_0),
            last_eocd(fetched(f, tail_fetch(f.len() as int)->Ok_0))->Some_0,
        ).spec_needs_zip64(),
    ensures
        ({
            let w = fetched(f, tail_fetch(f.len() as int)->Ok_0);
            let e = eocd_fields(w, last_eocd(w)->Some_0);
            listing(f) == match checked_location(
                f.len() as int,
                DirLocation {
                    offset: e.cd_start_offset as u64,
                    size: e.cd_size as u64,
                    num_records: e.num_records as u64,
                },
            ) {
                Ok(loc) => directory_listing(f, loc),
                Err(x) => Err(x),
            }
        }),
{
    reveal(listing);
}

/// The comment length never sends a listing down the ZIP64 path.
pub proof fn law_comment_length_never_defers(e: EndOfCentralDir, comment_length: u16)
    ensures
        e.spec_needs_zip64() == (EndOfCentralDir { comment_length, ..e }).spec_needs_zip64(),
{
}

} // verus!
