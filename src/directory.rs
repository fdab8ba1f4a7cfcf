//! Entries of the central directory, read one record at a time.

use vstd::prelude::*;
use vstd::slice::{slice_subrange, slice_to_vec};

use crate::bytes::{le16, le64, read_u16_le, read_u64_le};
use crate::error::ArchiveError;
use crate::names::{decode_name, decoded_name, is_utf8_flag, spec_is_utf8_flag};
use crate::records::{
    central_dir_fields, decoded, record_error, CentralDirEntry, CENTRAL_DIR_SIGNATURE,
    CENTRAL_DIR_SIZE,
};

verus! {

/// The tag of the ZIP64 extended information extra field.
pub const ZIP64_EXTRA_TAG: u16 = 0x0001;

/// What an entry is, as values.
pub struct EntryModel {
    pub raw_name: Seq<u8>,
    pub filename: Seq<char>,
    pub compressed_size: u64,
    pub uncompressed_size: u64,
    pub local_header_offset: u64,
}

/// One file or directory listed by an archive.
pub struct Entry {
    /// The name as text.
    pub filename: String,
    /// The name as stored.
    pub raw_name: Vec<u8>,
    pub compressed_size: u64,
    pub uncompressed_size: u64,
    pub local_header_offset: u64,
}

impl View for Entry {
    type V = EntryModel;

    open spec fn view(&self) -> EntryModel {
        EntryModel {
            raw_name: self.raw_name@,
            filename: self.filename@,
            compressed_size: self.compressed_size,
            uncompressed_size: self.uncompressed_size,
            local_header_offset: self.local_header_offset,
        }
    }
}

/// The entry with name bytes `raw`, decoded as `utf8` says, and the given sizes and offset.
pub open spec fn entry_model(raw: Seq<u8>, utf8: bool, compressed: u64, uncompressed: u64, offset: u64) -> EntryModel {
    EntryModel {
        raw_name: raw,
        filename: decoded_name(raw, utf8),
        compressed_size: compressed,
        uncompressed_size: uncompressed,
        local_header_offset: offset,
    }
}

impl Entry {
    /// An entry whose name `raw_name` is decoded as UTF-8 or as code page 437.
    pub fn new(raw_name: Vec<u8>, utf8: bool, compressed_size: u64, uncompressed_size: u64, local_header_offset: u64) -> (r: Entry)
        ensures
            r@ == entry_model(raw_name@, utf8, compressed_size, uncompressed_size, local_header_offset),
    {
        let filename = decode_name(raw_name.as_slice(), utf8);
        Entry { filename, raw_name, compressed_size, uncompressed_size, local_header_offset }
    }
}

/// Where the data of the extra field `tag` lies in `extra`, searching from `q`.
pub open spec fn find_extra(extra: Seq<u8>, q: int, tag: u16) -> Option<(int, int)>
    decreases extra.len() - q,
{
    if q < 0 || q + 4 > extra.len() {
        None
    } else {
        let end = q + 4 + le16(extra, q + 2);
        if end > extra.len() {
            None
        } else if le16(extra, q) == tag as int {
            Some((q + 4, end))
        } else {
            find_extra(extra, end, tag)
        }
    }
}

/// A 32-bit field, or the 8-byte value at `c` that replaces it when it is all ones.
pub open spec fn take64(extra: Seq<u8>, c: int, end: int, base: u32) -> Result<(u64, int), ArchiveError> {
    if base != 0xFFFF_FFFF {
        Ok((base as u64, c))
    } else if c + 8 > end {
        Err(ArchiveError::Corrupt)
    } else {
        Ok((le64(extra, c) as u64, c + 8))
    }
}

/// Whether the header defers a size or the offset to the ZIP64 extra field.
pub open spec fn defers_to_zip64(h: CentralDirEntry) -> bool {
    h.uncompressed_size == 0xFFFF_FFFF || h.compressed_size == 0xFFFF_FFFF
        || h.local_file_header_offset == 0xFFFF_FFFF
}

/// The (uncompressed size, compressed size, local header offset) of an entry.
pub open spec fn entry_sizes(h: CentralDirEntry, extra: Seq<u8>) -> Result<(u64, u64, u64), ArchiveError> {
    if !defers_to_zip64(h) {
        Ok((h.uncompressed_size as u64, h.compressed_size as u64, h.local_file_header_offset as u64))
    } else {
        match find_extra(extra, 0, ZIP64_EXTRA_TAG) {
            None => Err(ArchiveError::Corrupt),
            Some((d, e)) => match take64(extra, d, e, h.uncompressed_size) {
                Err(x) => Err(x),
                Ok((u, c1)) => match take64(extra, c1, e, h.compressed_size) {
                    Err(x) => Err(x),
                    Ok((c, c2)) => match take64(extra, c2, e, h.local_file_header_offset) {
                        Err(x) => Err(x),
                        Ok((o, _c3)) => Ok((u, c, o)),
                    },
                },
            },
        }
    }
}

/// The entry whose header starts at `p` in the directory block `b`, and where the next one starts.
#[verifier::opaque]
pub open spec fn entry_at(b: Seq<u8>, p: int) -> Result<(EntryModel, int), ArchiveError> {
    match decoded(record_error(b, p, CENTRAL_DIR_SIZE as int, CENTRAL_DIR_SIGNATURE), central_dir_fields(b, p)) {
        Err(x) => Err(x),
        Ok(h) => {
            let name_end = p + 46 + h.file_name_length;
            let extra_end = name_end + h.extra_field_length;
            let end = extra_end + h.comment_length;
            if end > b.len() {
                Err(ArchiveError::Corrupt)
            } else {
                match entry_sizes(h, b.subrange(name_end, extra_end)) {
                    Err(x) => Err(x),
                    Ok((u, c, o)) => Ok((
                        entry_model(b.subrange(p + 46, name_end), spec_is_utf8_flag(h.gpb_flags), c, u, o),
                        end,
                    )),
                }
            }
        },
    }
}

/// The `n` entries that start at `p` in the block `b`, or the first failure.
pub open spec fn entries_from(b: Seq<u8>, p: int, n: nat) -> Result<Seq<EntryModel>, ArchiveError>
    decreases n,
{
    if n == 0 {
        Ok(seq![])
    } else {
        match entry_at(b, p) {
            Err(x) => Err(x),
            Ok((m, q)) => match entries_from(b, q, (n - 1) as nat) {
                Err(x) => Err(x),
                Ok(rest) => Ok(seq![m] + rest),
            },
        }
    }
}

/// Finds the data of extra field `tag` in `extra`.
fn find_extra_field(extra: &[u8], tag: u16) -> (r: Option<(usize, usize)>)
    ensures
        r is None <==> find_extra(extra@, 0, tag) is None,
        r matches Some((d, e)) ==> find_extra(extra@, 0, tag) == Some((d as int, e as int)) && d
            <= e <= extra@.len(),
{
    let n = extra.len();
    let mut q: usize = 0;
    while q <= n && 4 <= n - q
        invariant
            q <= n,
            n == extra@.len(),
            find_extra(extra@, 0, tag) == find_extra(extra@, q as int, tag),
        decreases n - q,
    {
        let size = read_u16_le(extra, q + 2) as usize;
        if size > n - q - 4 {
            return None;
        }
        let end = q + 4 + size;
        if read_u16_le(extra, q) == tag {
            return Some((q + 4, end));
        }
        q = end;
    }
    None
}

/// Reads one field of the ZIP64 extra field when `base` defers to it.
fn take_u64(extra: &[u8], c: usize, end: usize, base: u32) -> (r: Result<(u64, usize), ArchiveError>)
    requires
        c <= end <= extra@.len(),
    ensures
        match take64(extra@, c as int, end as int, base) {
            Err(x) => r == Err::<(u64, usize), ArchiveError>(x),
            Ok((v, c2)) => r == Ok::<(u64, usize), ArchiveError>((v, c2 as usize)),
        },
        r matches Ok((_v, c2)) ==> c <= c2 <= end,
{
    if base != 0xFFFF_FFFF {
        Ok((base as u64, c))
    } else if 8 > end - c {
        Err(ArchiveError::Corrupt)
    } else {
        Ok((read_u64_le(extra, c), c + 8))
    }
}

/// The (uncompressed size, compressed size, local header offset) of the entry with header `h`.
fn read_entry_sizes(h: &CentralDirEntry, extra: &[u8]) -> (r: Result<(u64, u64, u64), ArchiveError>)
    ensures
        r == entry_sizes(*h, extra@),
{
    if h.uncompressed_size != 0xFFFF_FFFF && h.compressed_size != 0xFFFF_FFFF
        && h.local_file_header_offset != 0xFFFF_FFFF {
        return Ok((h.uncompressed_size as u64, h.compressed_size as u64, h.local_file_header_offset as u64));
    }
    match find_extra_field(extra, ZIP64_EXTRA_TAG) {
        None => Err(ArchiveError::Corrupt),
        Some((d, e)) => {
            let (u, c1) = match take_u64(extra, d, e, h.uncompressed_size) {
                Ok(x) => x,
                Err(x) => return Err(x),
            };
            let (c, c2) = match take_u64(extra, c1, e, h.compressed_size) {
                Ok(x) => x,
                Err(x) => return Err(x),
            };
            let (o, _c3) = match take_u64(extra, c2, e, h.local_file_header_offset) {
                Ok(x) => x,
                Err(x) => return Err(x),
            };
            Ok((u, c, o))
        },
    }
}

/// Reads the entry whose header starts at `p` in the directory block `b`.
pub fn read_entry(b: &[u8], p: usize) -> (r: Result<(Entry, usize), ArchiveError>)
    ensures
        match entry_at(b@, p as int) {
            Err(x) => r matches Err(y) && y == x,
            Ok((m, q)) => r matches Ok((e, q2)) && e@ == m && q2 == q,
        },
{
    proof {
        reveal(entry_at);
    }
    let n = b.len();
    let h = CentralDirEntry::decode(b, p)?;
    let name_start = p + 46;
    let name_len = h.file_name_length as usize;
    let extra_len = h.extra_field_length as usize;
    let comment_len = h.comment_length as usize;
    if name_len > n - name_start {
        return Err(ArchiveError::Corrupt);
    }
    let name_end = name_start + name_len;
    if extra_len > n - name_end {
        return Err(ArchiveError::Corrupt);
    }
    let extra_end = name_end + extra_len;
    if comment_len > n - extra_end {
        return Err(ArchiveError::Corrupt);
    }
    let end = extra_end + comment_len;
    let extra = slice_subrange(b, name_end, extra_end);
    let (u, c, o) = read_entry_sizes(&h, extra)?;
    let raw = slice_to_vec(slice_subrange(b, name_start, name_end));
    let e = Entry::new(raw, is_utf8_flag(h.gpb_flags), c, u, o);
    Ok((e, end))
}

} // verus!

verus! {

/// What each entry of `v` is.
pub open spec fn views(v: Seq<Entry>) -> Seq<EntryModel> {
    v.map_values(|e: Entry| e@)
}

/// What a listing holds: the entries' values, or the failure.
pub open spec fn listed(r: Result<Vec<Entry>, ArchiveError>) -> Result<Seq<EntryModel>, ArchiveError> {
    match r {
        Ok(v) => Ok(views(v@)),
        Err(x) => Err(x),
    }
}

/// `acc` followed by the entries of `r`, or the failure of `r`.
pub open spec fn prepend(acc: Seq<EntryModel>, r: Result<Seq<EntryModel>, ArchiveError>) -> Result<Seq<EntryModel>, ArchiveError> {
    match r {
        Ok(s) => Ok(acc + s),
        Err(x) => Err(x),
    }
}

/// The entries of a central directory held in memory, produced one at a time.
pub struct EntryIter {
    block: Vec<u8>,
    pos: usize,
    remaining: u64,
}

impl EntryIter {
    /// The directory block being read.
    pub closed spec fn spec_block(&self) -> Seq<u8> {
        self.block@
    }

    /// Where the next header starts in the block.
    pub closed spec fn spec_pos(&self) -> int {
        self.pos as int
    }

    /// How many entries are still to come.
    pub closed spec fn spec_remaining(&self) -> nat {
        self.remaining as nat
    }

    /// The entries still to come, or the failure that ends them.
    pub open spec fn rest(&self) -> Result<Seq<EntryModel>, ArchiveError> {
        entries_from(self.spec_block(), self.spec_pos(), self.spec_remaining())
    }

    /// Iterates over the `count` entries at the start of `block`.
    pub fn new(block: Vec<u8>, count: u64) -> (r: EntryIter)
        ensures
            r.spec_block() == block@,
            r.spec_pos() == 0,
            r.spec_remaining() == count,
            r.rest() == entries_from(block@, 0, count as nat),
    {
        EntryIter { block, pos: 0, remaining: count }
    }

    /// The number of entries still to come.
    pub fn remaining(&self) -> (r: u64)
        ensures
            r == self.spec_remaining(),
    {
        self.remaining
    }

    /// The next entry; after a failure, nothing more.
    pub fn next(&mut self) -> (r: Option<Result<Entry, ArchiveError>>)
        ensures
            old(self).spec_remaining() == 0 ==> r is None && final(self).rest() == old(self).rest(),
            old(self).spec_remaining() > 0 ==> match entry_at(old(self).spec_block(), old(self).spec_pos()) {
                Ok((m, q)) => r matches Some(Ok(e)) && e@ == m && final(self).spec_block()
                    == old(self).spec_block() && final(self).spec_pos() == q
                    && final(self).spec_remaining() == old(self).spec_remaining() - 1,
                Err(x) => r matches Some(Err(y)) && y == x && final(self).spec_remaining() == 0,
            },
            r matches Some(Ok(e)) ==> old(self).rest() == prepend(seq![e@], final(self).rest()),
            r matches Some(Err(x)) ==> old(self).rest() == Err::<Seq<EntryModel>, ArchiveError>(x),
    {
        if self.remaining == 0 {
            return None;
        }
        match read_entry(self.block.as_slice(), self.pos) {
            Ok((e, q)) => {
                self.pos = q;
                self.remaining = self.remaining - 1;
                Some(Ok(e))
            },
            Err(x) => {
                self.remaining = 0;
                Some(Err(x))
            },
        }
    }

    /// All the entries still to come, or the first failure.
    pub fn collect_entries(&mut self) -> (r: Result<Vec<Entry>, ArchiveError>)
        ensures
            listed(r) == old(self).rest(),
    {
        let mut out: Vec<Entry> = Vec::new();
        while self.remaining > 0
            invariant
                old(self).rest() == prepend(views(out@), self.rest()),
            decreases self.spec_remaining(),
        {
            match self.next() {
                Some(Ok(e)) => {
                    proof {
                        match self.rest() {
                            Ok(s) => {
                                assert(views(out@.push(e)) + s =~= views(out@) + (seq![e@] + s));
                            },
                            Err(_) => {},
                        }
                    }
                    out.push(e);
                },
                Some(Err(x)) => {
                    return Err(x);
                },
                None => {},
            }
        }
        assert(self.rest() == Ok::<Seq<EntryModel>, ArchiveError>(seq![]));
        assert(views(out@) + seq![] =~= views(out@));
        Ok(out)
    }
}

} // verus!
