//! Encoding a plain archive of names, and reading it back.

use vstd::prelude::*;

use crate::archive::{
    eocd_candidate, fetched, last_eocd, listing, located, tail_fetch, DirLocation, Located,
};
use crate::bytes::{le16, le32};
use crate::directory::{entries_from, entry_at, entry_model, EntryModel};
use crate::error::ArchiveError;
use crate::names::{cp437_of, decoded_name, spec_is_utf8_flag};
use vstd::utf8::{decode_utf8, valid_utf8};
use crate::records::{central_dir_fields, eocd_fields, CENTRAL_DIR_SIGNATURE, EOCD_SIGNATURE};

verus! {

/// `v` as two little-endian bytes.
pub open spec fn enc16(v: int) -> Seq<u8> {
    seq![(v % 256) as u8, (v / 256) as u8]
}

/// `v` as four little-endian bytes.
pub open spec fn enc32(v: int) -> Seq<u8> {
    enc16(v % 65536) + enc16(v / 65536)
}

/// `n` zero bytes.
pub open spec fn zeros(n: nat) -> Seq<u8> {
    Seq::new(n, |i: int| 0u8)
}

/// A central directory record for `name` with general purpose flags `flags` and every
/// other field zero.
pub open spec fn plain_record(name: Seq<u8>, flags: u16) -> Seq<u8> {
    enc32(CENTRAL_DIR_SIGNATURE as int) + zeros(4) + enc16(flags as int) + zeros(18) + enc16(
        name.len() as int,
    ) + zeros(16) + name
}

/// The records of `names`, in order.
pub open spec fn plain_directory(names: Seq<Seq<u8>>, flags: u16) -> Seq<u8>
    decreases names.len(),
{
    if names.len() == 0 {
        seq![]
    } else {
        plain_record(names[0], flags) + plain_directory(names.drop_first(), flags)
    }
}

/// An end record for `n` entries in a directory of `cd_size` bytes at offset 0, without comment.
pub open spec fn plain_end(n: int, cd_size: int) -> Seq<u8> {
    enc32(EOCD_SIGNATURE as int) + zeros(4) + enc16(n) + enc16(n) + enc32(cd_size) + zeros(6)
}

/// An archive that holds only a directory of `names`, each stored with `flags`, and its
/// end record.
pub open spec fn plain_archive(names: Seq<Seq<u8>>, flags: u16) -> Seq<u8> {
    plain_directory(names, flags) + plain_end(names.len() as int, plain_directory(names, flags).len() as int)
}

proof fn lemma_le16_enc(s: Seq<u8>, i: int, v: int)
    requires
        0 <= i,
        i + 2 <= s.len(),
        0 <= v < 65536,
        s[i] == (v % 256) as u8,
        s[i + 1] == (v / 256) as u8,
    ensures
        le16(s, i) == v,
{
}

proof fn lemma_le32_enc(s: Seq<u8>, i: int, v: int)
    requires
        0 <= i,
        i + 4 <= s.len(),
        0 <= v < 0x1_0000_0000,
        s.subrange(i, i + 4) == enc32(v),
    ensures
        le32(s, i) == v,
{
    assert(s[i] == s.subrange(i, i + 4)[0]);
    assert(s[i + 1] == s.subrange(i, i + 4)[1]);
    assert(s[i + 2] == s.subrange(i, i + 4)[2]);
    assert(s[i + 3] == s.subrange(i, i + 4)[3]);
    lemma_le16_enc(s, i, v % 65536);
    lemma_le16_enc(s, i + 2, v / 65536);
}

/// Reading an entry out of `x + y` at `|x| + q` is reading it out of `y` at `q`, shifted.
proof fn lemma_entry_at_shift(x: Seq<u8>, y: Seq<u8>, q: int)
    requires
        0 <= q,
    ensures
        entry_at(x + y, x.len() + q) == match entry_at(y, q) {
            Ok((m, r)) => Ok((m, x.len() + r)),
            Err(e) => Err(e),
        },
{
    reveal(entry_at);
    let b = x + y;
    let p = x.len() + q;
    if q + 46 <= y.len() {
        assert forall|t: int| 0 <= t < 46 implies #[trigger] b[p + t] == y[q + t] by {}
        assert(b.subrange(p, b.len() as int) =~= y.subrange(q, y.len() as int));
        let h = central_dir_fields(y, q);
        let name_end = q + 46 + h.file_name_length;
        let extra_end = name_end + h.extra_field_length;
        let end = extra_end + h.comment_length;
        if end <= y.len() {
            assert(b.subrange(x.len() + name_end, x.len() + extra_end) =~= y.subrange(name_end, extra_end));
            assert(b.subrange(p + 46, x.len() + name_end) =~= y.subrange(q + 46, name_end));
        }
    }
}

proof fn lemma_entries_shift(x: Seq<u8>, y: Seq<u8>, q: int, n: nat)
    requires
        0 <= q,
    ensures
        entries_from(x + y, x.len() + q, n) == entries_from(y, q, n),
    decreases n,
{
    if n > 0 {
        lemma_entry_at_shift(x, y, q);
        match entry_at(y, q) {
            Ok((m, r)) => {
                lemma_entry_at_bounds(y, q);
                lemma_entries_shift(x, y, r, (n - 1) as nat);
            },
            Err(_) => {},
        }
    }
}

proof fn lemma_entry_at_bounds(y: Seq<u8>, q: int)
    ensures
        entry_at(y, q) matches Ok((m, r)) ==> q < r <= y.len(),
{
    reveal(entry_at);
}

/// The entry a plain record stands for.
pub open spec fn plain_entry(name: Seq<u8>, flags: u16) -> EntryModel {
    entry_model(name, spec_is_utf8_flag(flags), 0, 0, 0)
}

proof fn lemma_plain_record(name: Seq<u8>, flags: u16, rest: Seq<u8>)
    requires
        name.len() < 65536,
    ensures
        entry_at(plain_record(name, flags) + rest, 0) == Ok::<(EntryModel, int), ArchiveError>(
            (plain_entry(name, flags), plain_record(name, flags).len() as int),
        ),
{
    reveal(entry_at);
    let rec = plain_record(name, flags);
    let b = rec + rest;
    assert(rec.len() == 46 + name.len());
    assert forall|t: int| 0 <= t < rec.len() implies #[trigger] b[t] == rec[t] by {}
    assert(b.subrange(0, 4) =~= enc32(CENTRAL_DIR_SIGNATURE as int));
    lemma_le32_enc(b, 0, CENTRAL_DIR_SIGNATURE as int);
    lemma_le16_enc(b, 28, name.len() as int);
    lemma_le16_enc(b, 8, flags as int);
    let h = central_dir_fields(b, 0);
    assert(h.file_name_length == name.len());
    assert(h.extra_field_length == 0);
    assert(h.comment_length == 0);
    assert(h.gpb_flags == flags);
    assert(h.compressed_size == 0);
    assert(h.uncompressed_size == 0);
    assert(h.local_file_header_offset == 0);
    assert(b.subrange(46, 46 + name.len() as int) =~= name);
}

proof fn lemma_plain_directory(names: Seq<Seq<u8>>, flags: u16)
    requires
        forall|i: int| 0 <= i < names.len() ==> #[trigger] names[i].len() < 65536,
    ensures
        entries_from(plain_directory(names, flags), 0, names.len()) == Ok::<Seq<EntryModel>, ArchiveError>(
            names.map_values(|nm: Seq<u8>| plain_entry(nm, flags)),
        ),
    decreases names.len(),
{
    if names.len() == 0 {
        assert(names.map_values(|nm: Seq<u8>| plain_entry(nm, flags)) =~= Seq::<EntryModel>::empty());
    } else {
        let rec = plain_record(names[0], flags);
        let rest = plain_directory(names.drop_first(), flags);
        assert forall|i: int| 0 <= i < names.drop_first().len() implies #[trigger] names.drop_first()[i].len() < 65536 by {
            assert(names.drop_first()[i] == names[i + 1]);
        }
        lemma_plain_directory(names.drop_first(), flags);
        lemma_plain_record(names[0], flags, rest);
        lemma_entries_shift(rec, rest, 0, (names.len() - 1) as nat);
        assert(rec + rest == plain_directory(names, flags));
        assert(seq![plain_entry(names[0], flags)] + names.drop_first().map_values(|nm: Seq<u8>| plain_entry(nm, flags))
            =~= names.map_values(|nm: Seq<u8>| plain_entry(nm, flags)));
    }
}

proof fn lemma_plain_end_located(d: Seq<u8>, n: int)
    requires
        0 <= n < 0xFFFF,
        d.len() < 0xFFFF_FFFF,
    ensures
        ({
            let f = d + plain_end(n, d.len() as int);
            let t = tail_fetch(f.len() as int);
            &&& t is Ok
            &&& located(f.len() as int, fetched(f, t->Ok_0)) == Ok::<Located, ArchiveError>(
                Located::Classic(DirLocation { offset: 0, size: d.len() as u64, num_records: n as u64 }),
            )
        }),
{
    let e = plain_end(n, d.len() as int);
    let f = d + e;
    assert(e.len() == 22);
    let size = f.len() as int;
    let t = tail_fetch(size)->Ok_0;
    let w = fetched(f, t);
    let i = w.len() - 22;
    assert forall|k: int| 0 <= k < 22 implies #[trigger] w[i + k] == e[k] by {
        assert(w[i + k] == f[size - 22 + k]);
    }
    assert(w.subrange(i, i + 4) =~= enc32(EOCD_SIGNATURE as int));
    lemma_le32_enc(w, i, EOCD_SIGNATURE as int);
    assert(le16(w, i + 20) == 0);
    assert(eocd_candidate(w, i));
    assert(last_eocd(w) == Some(i));
    lemma_le16_enc(w, i + 10, n);
    lemma_le16_enc(w, i + 8, n);
    assert(w.subrange(i + 12, i + 16) =~= enc32(d.len() as int));
    lemma_le32_enc(w, i + 12, d.len() as int);
    let ef = eocd_fields(w, i);
    assert(ef.num_records == n);
    assert(ef.cd_size == d.len());
    assert(ef.cd_start_offset == 0);
    assert(!ef.spec_needs_zip64());
}

/// Reading back a plain archive of `names` stored with `flags` gives one entry per name,
/// in order, each with its name as stored; the text of a name is its code page 437
/// reading, or, under the UTF-8 flag, its UTF-8 decoding when the bytes are valid UTF-8.
pub proof fn law_round_trip(names: Seq<Seq<u8>>, flags: u16)
    requires
        names.len() < 0xFFFF,
        forall|i: int| 0 <= i < names.len() ==> #[trigger] names[i].len() < 65536,
        plain_directory(names, flags).len() < 0xFFFF_FFFF,
    ensures
        listing(plain_archive(names, flags)) matches Ok(es) && es.len() == names.len() && (forall|i: int|
            0 <= i < names.len() ==> {
                &&& (#[trigger] es[i]).raw_name == names[i]
                &&& es[i].filename == decoded_name(names[i], spec_is_utf8_flag(flags))
                &&& !spec_is_utf8_flag(flags) ==> es[i].filename == cp437_of(names[i])
                &&& spec_is_utf8_flag(flags) && valid_utf8(names[i]) ==> es[i].filename == decode_utf8(names[i])
            }),
{
    let d = plain_directory(names, flags);
    let f = plain_archive(names, flags);
    lemma_plain_directory(names, flags);
    lemma_plain_end_located(d, names.len() as int);
    assert(f.subrange(0, d.len() as int) =~= d);
    let es = names.map_values(|nm: Seq<u8>| plain_entry(nm, flags));
    reveal(listing);
    assert(listing(f) == Ok::<Seq<EntryModel>, ArchiveError>(es));
}

} // verus!
