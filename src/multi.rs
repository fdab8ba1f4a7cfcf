//! Several remote parts read as one stream: which part-local ranges a read needs.

use vstd::prelude::*;

use crate::archive::Fetch;

verus! {

/// A read of `len` bytes at `start` within part `part`.
#[derive(Clone, Copy, Debug, PartialEq, Eq, Structural)]
pub struct PartRead {
    pub part: usize,
    pub start: u64,
    pub len: u64,
}

/// The parts of one logical stream, in order, by size.
pub struct MultiFile {
    sizes: Vec<u64>,
    total: u64,
}

/// The sum of `sizes`.
pub open spec fn total_of(sizes: Seq<u64>) -> int
    decreases sizes.len(),
{
    if sizes.len() == 0 {
        0
    } else {
        total_of(sizes.drop_last()) + sizes.last()
    }
}

/// The part that holds offset `p` when searching from part `k`, and the offset within it.
pub open spec fn locate_from(sizes: Seq<u64>, k: int, p: int) -> (int, int)
    decreases sizes.len() - k,
{
    if k < 0 || k >= sizes.len() || p < sizes[k] {
        (k, p)
    } else {
        locate_from(sizes, k + 1, p - sizes[k])
    }
}

/// The part-local reads that cover `[pos, end)` of the stream, in order.
pub open spec fn plan_from(sizes: Seq<u64>, pos: int, end: int) -> Seq<PartRead>
    decreases end - pos,
{
    if pos >= end || pos < 0 {
        seq![]
    } else {
        let (k, off) = locate_from(sizes, 0, pos);
        if k < 0 || k >= sizes.len() {
            seq![]
        } else {
            let left = sizes[k] - off;
            let len = if left < end - pos { left } else { end - pos };
            if len <= 0 {
                seq![]
            } else {
                seq![PartRead { part: k as usize, start: off as u64, len: len as u64 }] + plan_from(
                    sizes,
                    pos + len,
                    end,
                )
            }
        }
    }
}

/// The parts' contents laid end to end.
pub open spec fn concat(parts: Seq<Seq<u8>>) -> Seq<u8>
    decreases parts.len(),
{
    if parts.len() == 0 {
        seq![]
    } else {
        concat(parts.drop_last()) + parts.last()
    }
}

/// The bytes the reads `rs` take from the parts, in order.
pub open spec fn gathered(parts: Seq<Seq<u8>>, rs: Seq<PartRead>) -> Seq<u8>
    decreases rs.len(),
{
    if rs.len() == 0 {
        seq![]
    } else {
        let r = rs[0];
        parts[r.part as int].subrange(r.start as int, r.start + r.len) + gathered(parts, rs.drop_first())
    }
}

/// Whether every part is non-empty and the sizes add up to `total`.
pub open spec fn layout_ok(sizes: Seq<u64>, total: int) -> bool {
    &&& sizes.len() >= 1
    &&& forall|i: int| 0 <= i < sizes.len() ==> #[trigger] sizes[i] > 0
    &&& total == total_of(sizes)
    &&& total <= u64::MAX
}

impl MultiFile {
    /// The sizes of the parts.
    pub closed spec fn spec_sizes(&self) -> Seq<u64> {
        self.sizes@
    }

    /// The size of the stream.
    pub closed spec fn spec_total(&self) -> int {
        self.total as int
    }

    pub open spec fn wf(&self) -> bool {
        layout_ok(self.spec_sizes(), self.spec_total())
    }

    /// A stream of parts of the given sizes; none when there is no part, a part is
    /// empty, or the total does not fit in 64 bits.
    pub fn new(sizes: Vec<u64>) -> (r: Option<MultiFile>)
        ensures
            r is Some <==> (sizes@.len() >= 1 && (forall|i: int| 0 <= i < sizes@.len() ==> #[trigger] sizes@[i] > 0)
                && total_of(sizes@) <= u64::MAX),
            r matches Some(m) ==> m.wf() && m.spec_sizes() == sizes@,
    {
        if sizes.len() == 0 {
            return None;
        }
        let mut total: u64 = 0;
        let mut i: usize = 0;
        while i < sizes.len()
            invariant
                i <= sizes@.len(),
                total == total_of(sizes@.subrange(0, i as int)),
                forall|j: int| 0 <= j < i ==> #[trigger] sizes@[j] > 0,
            decreases sizes@.len() - i,
        {
            assert(sizes@.subrange(0, i + 1).drop_last() =~= sizes@.subrange(0, i as int));
            if sizes[i] == 0 {
                return None;
            }
            if sizes[i] > u64::MAX - total {
                proof {
                    lemma_total_prefix_le(sizes@, i + 1);
                }
                return None;
            }
            total = total + sizes[i];
            i += 1;
        }
        assert(sizes@.subrange(0, sizes@.len() as int) =~= sizes@);
        Some(MultiFile { sizes, total })
    }

    /// The size of the stream.
    pub fn size(&self) -> (r: u64)
        ensures
            r == self.spec_total(),
    {
        self.total
    }

    /// The number of parts.
    pub fn part_count(&self) -> (r: usize)
        ensures
            r == self.spec_sizes().len(),
    {
        self.sizes.len()
    }

    /// The part that holds offset `p` and the offset within it; none at or past the end.
    pub fn locate(&self, p: u64) -> (r: Option<(usize, u64)>)
        requires
            self.wf(),
        ensures
            p >= self.spec_total() ==> r is None,
            p < self.spec_total() ==> r is Some,
            r matches Some((k, off)) ==> locate_from(self.spec_sizes(), 0, p as int) == (k as int, off as int),
            r matches Some((k, off)) ==> k < self.spec_sizes().len() && off < self.spec_sizes()[k as int],
    {
        if p >= self.total {
            return None;
        }
        let ghost sizes = self.sizes@;
        let mut k: usize = 0;
        let mut off: u64 = p;
        while k < self.sizes.len() && off >= self.sizes[k]
            invariant
                k <= sizes.len(),
                sizes == self.sizes@,
                self.wf(),
                locate_from(sizes, 0, p as int) == locate_from(sizes, k as int, off as int),
                off + total_of(sizes.subrange(0, k as int)) == p,
                p < total_of(sizes),
            decreases sizes.len() - k,
        {
            assert(sizes.subrange(0, k + 1).drop_last() =~= sizes.subrange(0, k as int));
            off = off - self.sizes[k];
            k += 1;
        }
        if k == self.sizes.len() {
            assert(sizes.subrange(0, k as int) =~= sizes);
            return None;
        }
        Some((k, off))
    }

    /// The part-local reads that a read of `fe` needs, clipped at the end of the stream.
    pub fn plan(&self, fe: Fetch) -> (r: Vec<PartRead>)
        requires
            self.wf(),
        ensures
            r@ == plan_from(
                self.spec_sizes(),
                fe.start as int,
                if fe.start + fe.len <= self.spec_total() { fe.start + fe.len } else { self.spec_total() },
            ),
    {
        let end: u64 = if fe.len <= self.total && fe.start <= self.total - fe.len {
            fe.start + fe.len
        } else {
            self.total
        };
        let mut out: Vec<PartRead> = Vec::new();
        let mut pos: u64 = fe.start;
        while pos < end
            invariant
                self.wf(),
                end <= self.spec_total(),
                plan_from(self.spec_sizes(), fe.start as int, end as int) == out@ + plan_from(
                    self.spec_sizes(),
                    pos as int,
                    end as int,
                ),
            decreases end - pos,
        {
            let (k, off) = match self.locate(pos) {
                Some(x) => x,
                None => return out,
            };
            let left = self.sizes[k] - off;
            let len = if left < end - pos { left } else { end - pos };
            let read = PartRead { part: k, start: off, len };
            proof {
                let lf = locate_from(self.spec_sizes(), 0, pos as int);
                assert(lf.0 == k as int && lf.1 == off as int);
                assert(len > 0);
                assert(plan_from(self.spec_sizes(), pos as int, end as int) == seq![read] + plan_from(
                    self.spec_sizes(),
                    pos + len,
                    end as int,
                ));
                assert(out@.push(read) + plan_from(self.spec_sizes(), pos + len, end as int) =~= out@
                    + (seq![read] + plan_from(self.spec_sizes(), pos + len, end as int)));
            }
            out.push(read);
            pos = pos + len;
        }
        assert(plan_from(self.spec_sizes(), pos as int, end as int) == Seq::<PartRead>::empty());
        assert(out@ + plan_from(self.spec_sizes(), pos as int, end as int) =~= out@);
        out
    }
}

proof fn lemma_total_prefix_le(sizes: Seq<u64>, j: int)
    requires
        0 <= j <= sizes.len(),
    ensures
        total_of(sizes.subrange(0, j)) <= total_of(sizes),
    decreases sizes.len() - j,
{
    if j < sizes.len() {
        lemma_total_prefix_le(sizes, j + 1);
        assert(sizes.subrange(0, j + 1).drop_last() =~= sizes.subrange(0, j));
    } else {
        assert(sizes.subrange(0, j) =~= sizes);
    }
}

/// Whether each part's contents have the size the layout gives it.
pub open spec fn parts_fit(parts: Seq<Seq<u8>>, sizes: Seq<u64>) -> bool {
    parts.len() == sizes.len() && forall|i: int| 0 <= i < parts.len() ==> #[trigger] parts[i].len() == sizes[i]
}

proof fn lemma_total_nonneg(sizes: Seq<u64>)
    ensures
        total_of(sizes) >= 0,
    decreases sizes.len(),
{
    if sizes.len() > 0 {
        lemma_total_nonneg(sizes.drop_last());
    }
}

proof fn lemma_concat_len(parts: Seq<Seq<u8>>, sizes: Seq<u64>)
    requires
        parts_fit(parts, sizes),
    ensures
        concat(parts).len() == total_of(sizes),
    decreases parts.len(),
{
    if parts.len() > 0 {
        lemma_concat_len(parts.drop_last(), sizes.drop_last());
    }
}

/// Part `k` lies in the concatenation right after the parts before it.
proof fn lemma_concat_part(parts: Seq<Seq<u8>>, sizes: Seq<u64>, k: int)
    requires
        parts_fit(parts, sizes),
        0 <= k < parts.len(),
    ensures
        concat(parts).subrange(
            total_of(sizes.subrange(0, k)),
            total_of(sizes.subrange(0, k)) + sizes[k],
        ) == parts[k],
    decreases parts.len(),
{
    lemma_concat_len(parts.drop_last(), sizes.drop_last());
    if k == parts.len() - 1 {
        assert(sizes.subrange(0, k) =~= sizes.drop_last());
        assert(concat(parts).subrange(total_of(sizes.drop_last()), total_of(sizes.drop_last()) + sizes[k])
            =~= parts[k]);
    } else {
        assert(parts_fit(parts.drop_last(), sizes.drop_last())) by {
            assert forall|i: int| 0 <= i < parts.drop_last().len() implies #[trigger] parts.drop_last()[i].len()
                == sizes.drop_last()[i] by {
                assert(parts.drop_last()[i] == parts[i]);
            }
        }
        lemma_concat_part(parts.drop_last(), sizes.drop_last(), k);
        assert(sizes.drop_last().subrange(0, k) =~= sizes.subrange(0, k));
        lemma_total_prefix_le(sizes.drop_last(), k + 1);
        assert(sizes.drop_last().subrange(0, k + 1).drop_last() =~= sizes.subrange(0, k));
        assert(sizes.drop_last().subrange(0, k + 1).last() == sizes[k]);
        assert(concat(parts) == concat(parts.drop_last()) + parts.last());
        lemma_total_nonneg(sizes.subrange(0, k));
        assert(concat(parts).subrange(
            total_of(sizes.subrange(0, k)),
            total_of(sizes.subrange(0, k)) + sizes[k],
        ) =~= concat(parts.drop_last()).subrange(
            total_of(sizes.subrange(0, k)),
            total_of(sizes.subrange(0, k)) + sizes[k],
        ));
    }
}

/// Where `locate_from` lands: a part, an offset within it, and the offset before it.
proof fn lemma_locate(sizes: Seq<u64>, k: int, p: int)
    requires
        0 <= k <= sizes.len(),
        0 <= p,
        total_of(sizes.subrange(0, k)) + p < total_of(sizes),
    ensures
        ({
            let (j, off) = locate_from(sizes, k, p);
            &&& k <= j < sizes.len()
            &&& 0 <= off < sizes[j]
            &&& total_of(sizes.subrange(0, j)) + off == total_of(sizes.subrange(0, k)) + p
        }),
    decreases sizes.len() - k,
{
    if k == sizes.len() {
        assert(sizes.subrange(0, k) =~= sizes);
    } else if p >= sizes[k] {
        assert(sizes.subrange(0, k + 1).drop_last() =~= sizes.subrange(0, k));
        lemma_locate(sizes, k + 1, p - sizes[k]);
    }
}

/// Reading `[a, b)` through the plan gives bytes `a` to `b` of the parts laid end to end.
pub proof fn law_plan_concatenates(sizes: Seq<u64>, parts: Seq<Seq<u8>>, a: int, b: int)
    requires
        parts_fit(parts, sizes),
        sizes.len() <= usize::MAX,
        0 <= a <= b <= total_of(sizes),
    ensures
        gathered(parts, plan_from(sizes, a, b)) == concat(parts).subrange(a, b),
    decreases b - a,
{
    lemma_concat_len(parts, sizes);
    if a == b {
        assert(concat(parts).subrange(a, b) =~= Seq::<u8>::empty());
    } else {
        assert(sizes.subrange(0, 0) =~= Seq::<u64>::empty());
        lemma_locate(sizes, 0, a);
        let (k, off) = locate_from(sizes, 0, a);
        let left = sizes[k] - off;
        let len = if left < b - a { left } else { b - a };
        let pre = total_of(sizes.subrange(0, k));
        lemma_total_nonneg(sizes.subrange(0, k));
        lemma_total_prefix_le(sizes, k + 1);
        assert(sizes.subrange(0, k + 1).drop_last() =~= sizes.subrange(0, k));
        assert(sizes.subrange(0, k + 1).last() == sizes[k]);
        assert(pre + sizes[k] <= total_of(sizes));
        assert(a == pre + off);
        law_plan_concatenates(sizes, parts, a + len, b);
        lemma_concat_part(parts, sizes, k);
        let read = PartRead { part: k as usize, start: off as u64, len: len as u64 };
        assert(plan_from(sizes, a, b) == seq![read] + plan_from(sizes, a + len, b));
        assert((seq![read] + plan_from(sizes, a + len, b)).drop_first() =~= plan_from(sizes, a + len, b));
        assert(parts[k].subrange(off, off + len) =~= concat(parts).subrange(a, a + len)) by {
            assert(parts[k] == concat(parts).subrange(pre, pre + sizes[k]));
            assert forall|i: int| 0 <= i < len implies #[trigger] parts[k].subrange(off, off + len)[i]
                == concat(parts).subrange(a, a + len)[i] by {
                assert(parts[k][off + i] == concat(parts).subrange(pre, pre + sizes[k])[off + i]);
            }
        }
        assert(concat(parts).subrange(a, a + len) + concat(parts).subrange(a + len, b) =~= concat(parts).subrange(a, b));
    }
}

/// Reading the whole stream from offset 0 gives the parts one after another.
pub proof fn law_whole_read_is_concatenation(sizes: Seq<u64>, parts: Seq<Seq<u8>>)
    requires
        parts_fit(parts, sizes),
        sizes.len() <= usize::MAX,
    ensures
        gathered(parts, plan_from(sizes, 0, total_of(sizes))) == concat(parts),
{
    lemma_concat_len(parts, sizes);
    law_plan_concatenates(sizes, parts, 0, total_of(sizes));
    assert(concat(parts).subrange(0, total_of(sizes)) =~= concat(parts));
}

} // verus!
