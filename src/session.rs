//! The listing as a session: it names each range to fetch and reads what comes back.
//!
//! The caller performs the fetches. A session starts at the archive's tail and
//! ends at the central directory, or at the failure that stops it.

use vstd::prelude::*;
use vstd::slice::{slice_subrange, slice_to_vec};

use crate::archive::{
    directory_listing, eocd64_fetch, fetched, listing, located, tail_fetch, zip64_location,
    DirLocation, Fetch, Located, ZipFile,
};
use crate::directory::{listed, Entry, EntryModel};
use crate::error::ArchiveError;

verus! {

/// Which record the pending fetch holds.
#[derive(Clone, Copy, Debug, PartialEq, Eq, Structural)]
pub enum Phase {
    /// The archive's tail, where the end record is searched.
    Tail,
    /// The ZIP64 locator.
    Locator,
    /// The ZIP64 end record.
    Zip64End,
}

/// What the session needs next.
#[derive(Clone, Copy, Debug, PartialEq, Eq, Structural)]
pub enum Step {
    /// These bytes, handed to `supply`.
    Fetch(Fetch),
    /// Nothing more: the directory lies here.
    Directory(DirLocation),
    /// Nothing more: the listing failed.
    Failed(ArchiveError),
}

/// A listing of an archive of a known size in progress.
pub struct ListingSession {
    zip: ZipFile,
    phase: Phase,
    step: Step,
}

/// Where a session goes from `phase` on reading `bytes`.
pub open spec fn step_after(size: int, phase: Phase, bytes: Seq<u8>) -> (Phase, Step) {
    match phase {
        Phase::Tail => match located(size, bytes) {
            Err(x) => (phase, Step::Failed(x)),
            Ok(Located::Classic(loc)) => (phase, Step::Directory(loc)),
            Ok(Located::Zip64(lf)) => (Phase::Locator, Step::Fetch(lf)),
        },
        Phase::Locator => match eocd64_fetch(size, bytes) {
            Err(x) => (phase, Step::Failed(x)),
            Ok(ef) => (Phase::Zip64End, Step::Fetch(ef)),
        },
        Phase::Zip64End => match zip64_location(size, bytes) {
            Err(x) => (phase, Step::Failed(x)),
            Ok(loc) => (phase, Step::Directory(loc)),
        },
    }
}

/// The step a session of an archive of `size` bytes starts with.
pub open spec fn first_step(size: int) -> Step {
    match tail_fetch(size) {
        Ok(t) => Step::Fetch(t),
        Err(x) => Step::Failed(x),
    }
}

/// How the listing of `f` ends once the ZIP64 end record is read from the bytes of `step`.
pub open spec fn outcome_after_zip64_end(f: Seq<u8>, step: Step) -> Result<Seq<EntryModel>, ArchiveError> {
    match step {
        Step::Failed(x) => Err(x),
        Step::Directory(loc) => directory_listing(f, loc),
        Step::Fetch(fe) => match zip64_location(f.len() as int, fetched(f, fe)) {
            Err(x) => Err(x),
            Ok(loc) => directory_listing(f, loc),
        },
    }
}

/// How the listing of `f` ends once the locator is read from the bytes of `step`.
pub open spec fn outcome_after_locator(f: Seq<u8>, step: Step) -> Result<Seq<EntryModel>, ArchiveError> {
    match step {
        Step::Failed(x) => Err(x),
        Step::Directory(loc) => directory_listing(f, loc),
        Step::Fetch(fe) => match eocd64_fetch(f.len() as int, fetched(f, fe)) {
            Err(x) => Err(x),
            Ok(ef) => outcome_after_zip64_end(f, Step::Fetch(ef)),
        },
    }
}

/// How the listing of `f` ends once the tail is read from the bytes of `step`.
pub open spec fn outcome_after_tail(f: Seq<u8>, step: Step) -> Result<Seq<EntryModel>, ArchiveError> {
    match step {
        Step::Failed(x) => Err(x),
        Step::Directory(loc) => directory_listing(f, loc),
        Step::Fetch(fe) => match located(f.len() as int, fetched(f, fe)) {
            Err(x) => Err(x),
            Ok(Located::Classic(loc)) => directory_listing(f, loc),
            Ok(Located::Zip64(lf)) => outcome_after_locator(f, Step::Fetch(lf)),
        },
    }
}

/// How the listing of the archive `f` ends from a session at `phase` and `step`.
#[verifier::opaque]
pub open spec fn outcome(f: Seq<u8>, phase: Phase, step: Step) -> Result<Seq<EntryModel>, ArchiveError> {
    match phase {
        Phase::Tail => outcome_after_tail(f, step),
        Phase::Locator => outcome_after_locator(f, step),
        Phase::Zip64End => outcome_after_zip64_end(f, step),
    }
}

/// How many fetches a session may still ask for.
pub open spec fn fetches_left(phase: Phase, step: Step) -> nat {
    if step is Fetch {
        match phase {
            Phase::Tail => 3nat,
            Phase::Locator => 2nat,
            Phase::Zip64End => 1nat,
        }
    } else {
        0nat
    }
}

/// Supplying the bytes a session asks for keeps the listing it is heading for, and uses
/// up one of its fetches.
pub proof fn lemma_supply_keeps_outcome(f: Seq<u8>, phase: Phase, fe: Fetch)
    ensures
        ({
            let next = step_after(f.len() as int, phase, fetched(f, fe));
            &&& outcome(f, next.0, next.1) == outcome(f, phase, Step::Fetch(fe))
            &&& fetches_left(next.0, next.1) < fetches_left(phase, Step::Fetch(fe))
        }),
{
    reveal(outcome);
}

/// A session that needs nothing more has its listing in hand.
pub proof fn lemma_outcome_when_done(f: Seq<u8>, phase: Phase, step: Step)
    ensures
        step matches Step::Directory(loc) ==> outcome(f, phase, step) == directory_listing(f, loc),
        step matches Step::Failed(x) ==> outcome(f, phase, step) == Err::<Seq<EntryModel>, ArchiveError>(x),
{
    reveal(outcome);
}

/// A session asks for at most three fetches before the directory, and for an archive
/// whose end record places the directory itself, for the tail alone.
pub proof fn law_session_fetches(size: int, phase: Phase, step: Step, tail: Seq<u8>)
    ensures
        fetches_left(phase, step) <= 3,
        located(size, tail) matches Ok(Located::Classic(loc)) ==> step_after(size, Phase::Tail, tail).1
            == Step::Directory(loc),
        fetches_left(step_after(size, Phase::Tail, tail).0, step_after(size, Phase::Tail, tail).1) <= 2,
{
}

/// A session started on `f` heads for the listing of `f`.
pub proof fn lemma_start_heads_for_listing(f: Seq<u8>)
    ensures
        outcome(f, Phase::Tail, first_step(f.len() as int)) == listing(f),
{
    reveal(outcome);
    reveal(listing);
}

impl ListingSession {
    /// The record the pending fetch holds.
    pub closed spec fn spec_phase(&self) -> Phase {
        self.phase
    }

    /// What the session needs next.
    pub closed spec fn spec_step(&self) -> Step {
        self.step
    }

    /// The size of the archive.
    pub closed spec fn spec_size(&self) -> int {
        self.zip.spec_size()
    }

    /// Whether a pending fetch, or the directory found, lies within the archive.
    pub open spec fn wf(&self) -> bool {
        &&& self.spec_step() matches Step::Fetch(fe) ==> fe.start + fe.len <= self.spec_size()
        &&& self.spec_step() matches Step::Directory(loc) ==> loc.offset + loc.size <= self.spec_size()
    }

    /// A session for an archive of `size` bytes, asking first for its tail.
    pub fn new(size: u64) -> (r: ListingSession)
        ensures
            r.spec_size() == size,
            r.spec_phase() == Phase::Tail,
            r.spec_step() == first_step(size as int),
            r.wf(),
    {
        let zip = ZipFile::new(size);
        let step = match zip.tail_fetch() {
            Ok(t) => Step::Fetch(t),
            Err(x) => Step::Failed(x),
        };
        ListingSession { zip, phase: Phase::Tail, step }
    }

    /// What the session needs next.
    pub fn step(&self) -> (r: Step)
        ensures
            r == self.spec_step(),
    {
        self.step
    }

    /// Hands over the bytes of the pending fetch; the session reads them and moves on.
    pub fn supply(&mut self, bytes: &[u8])
        requires
            old(self).wf(),
            old(self).spec_step() matches Step::Fetch(fe) && bytes@.len() == fe.len,
        ensures
            final(self).spec_size() == old(self).spec_size(),
            (final(self).spec_phase(), final(self).spec_step()) == step_after(
                old(self).spec_size(),
                old(self).spec_phase(),
                bytes@,
            ),
            final(self).wf(),
    {
        match self.phase {
            Phase::Tail => match self.zip.locate(bytes) {
                Err(x) => self.step = Step::Failed(x),
                Ok(Located::Classic(loc)) => self.step = Step::Directory(loc),
                Ok(Located::Zip64(lf)) => {
                    self.phase = Phase::Locator;
                    self.step = Step::Fetch(lf);
                },
            },
            Phase::Locator => match self.zip.read_locator(bytes) {
                Err(x) => self.step = Step::Failed(x),
                Ok(ef) => {
                    self.phase = Phase::Zip64End;
                    self.step = Step::Fetch(ef);
                },
            },
            Phase::Zip64End => match self.zip.read_zip64_end(bytes) {
                Err(x) => self.step = Step::Failed(x),
                Ok(loc) => self.step = Step::Directory(loc),
            },
        }
    }
}

/// The bytes that `fe` names in `image`.
fn fetch_from<'a>(image: &'a [u8], fe: Fetch) -> (r: &'a [u8])
    requires
        fe.start + fe.len <= image@.len(),
    ensures
        r@ == fetched(image@, fe),
{
    let _n = image.len();
    slice_subrange(image, fe.start as usize, (fe.start + fe.len) as usize)
}

/// Lists an archive held whole in memory, fetching from it as a remote listing does.
pub fn list_entries(image: &[u8]) -> (r: Result<Vec<Entry>, ArchiveError>)
    ensures
        listed(r) == listing(image@),
{
    let mut session = ListingSession::new(image.len() as u64);
    proof {
        lemma_start_heads_for_listing(image@);
    }
    loop
        invariant
            session.wf(),
            session.spec_size() == image@.len(),
            outcome(image@, session.spec_phase(), session.spec_step()) == listing(image@),
        decreases fetches_left(session.spec_phase(), session.spec_step()),
    {
        match session.step() {
            Step::Fetch(fe) => {
                proof {
                    lemma_supply_keeps_outcome(image@, session.spec_phase(), fe);
                }
                session.supply(fetch_from(image, fe));
            },
            Step::Directory(loc) => {
                proof {
                    lemma_outcome_when_done(image@, session.spec_phase(), session.spec_step());
                }
                let block = slice_to_vec(fetch_from(image, ZipFile::directory_fetch(&loc)));
                let mut entries = ZipFile::entry_iter(&loc, block);
                return entries.collect_entries();
            },
            Step::Failed(x) => {
                proof {
                    lemma_outcome_when_done(image@, session.spec_phase(), session.spec_step());
                }
                return Err(x);
            },
        }
    }
}

} // verus!
