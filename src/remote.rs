//! A remote object read through HTTP range requests, as a seekable stream.
//!
//! The requests themselves are made by the caller; this module decides what
//! to ask for and reads what the server says about the object.

use vstd::prelude::*;

use crate::archive::Fetch;
use crate::error::ArchiveError;
use crate::names::string_of_chars;

verus! {

/// The status of a partial response.
pub const PARTIAL_CONTENT: u16 = 206;

/// The content type of a ZIP archive.
pub const ZIP_CONTENT_TYPE: &'static str = "application/zip";

/// The base of a seek.
#[derive(Clone, Copy, Debug, PartialEq, Eq, Structural)]
pub enum SeekFrom {
    Start(u64),
    End(i64),
    Current(i64),
}

/// What the content type of the probe response says of the archive.
#[derive(Clone, Copy, Debug, PartialEq, Eq, Structural)]
pub enum SupportedTypes {
    Zip,
    Unsupported,
}

/// A remote object of a fixed size, with the position of the next read.
pub struct RemoteFile {
    url: String,
    content_type: SupportedTypes,
    size: u64,
    pos: u64,
}

/// What a probe's `Content-Type` says: without one, nothing is known of the archive.
pub open spec fn probed_type(content_type: Option<Seq<char>>) -> SupportedTypes {
    match content_type {
        Some(t) => if t == ZIP_CONTENT_TYPE@ {
            SupportedTypes::Zip
        } else {
            SupportedTypes::Unsupported
        },
        None => SupportedTypes::Unsupported,
    }
}

/// The value of a run of decimal digits.
pub open spec fn decimal_value(s: Seq<u8>) -> int
    decreases s.len(),
{
    if s.len() == 0 {
        0
    } else {
        10 * decimal_value(s.drop_last()) + (s.last() - 48)
    }
}

/// Whether every byte of `s` is an ASCII digit.
pub open spec fn all_digits(s: Seq<u8>) -> bool {
    forall|i: int| 0 <= i < s.len() ==> 48 <= #[trigger] s[i] <= 57
}

/// Where the run of ASCII digits that starts at `i` in `h` ends.
pub open spec fn digit_run(h: Seq<u8>, i: int) -> int
    decreases h.len() - i,
{
    if i < 0 || i >= h.len() || !(48 <= h[i] <= 57) {
        i
    } else {
        digit_run(h, i + 1)
    }
}

/// The bytes `bytes ` that open a `Content-Range` value.
pub open spec fn is_bytes_unit(h: Seq<u8>) -> bool {
    h.len() >= 6 && h[0] == 98 && h[1] == 121 && h[2] == 116 && h[3] == 101 && h[4] == 115
        && h[5] == 32
}

/// The decimal number that starts at `i`, and where it ends; none if there is no digit
/// there or the number does not fit in 64 bits.
pub open spec fn number_at(h: Seq<u8>, i: int) -> Option<(u64, int)> {
    let e = digit_run(h, i);
    if e <= i || decimal_value(h.subrange(i, e)) > u64::MAX {
        None
    } else {
        Some((decimal_value(h.subrange(i, e)) as u64, e))
    }
}

/// The total length that a `Content-Range` value `bytes A-B/TOTAL` gives, where `A`, `B`
/// and `TOTAL` are decimal, `A <= B`, and `TOTAL` is at least 1; none for any other value.
pub open spec fn content_range_total(h: Seq<u8>) -> Option<u64> {
    if !is_bytes_unit(h) {
        None
    } else {
        match number_at(h, 6) {
            None => None,
            Some((a, ae)) => if ae >= h.len() || h[ae] != 45 {
                None
            } else {
                match number_at(h, ae + 1) {
                    None => None,
                    Some((b, be)) => if be >= h.len() || h[be] != 47 || a > b {
                        None
                    } else {
                        match number_at(h, be + 1) {
                            None => None,
                            Some((t, te)) => if te != h.len() || t == 0 {
                                None
                            } else {
                                Some(t)
                            },
                        }
                    },
                }
            },
        }
    }
}

/// The size a probe response gives: it must be partial and carry a readable `Content-Range`.
pub open spec fn probed_size(status: u16, content_range: Option<Seq<u8>>) -> Result<u64, ArchiveError> {
    if status != PARTIAL_CONTENT {
        Err(ArchiveError::RangeUnsupported)
    } else {
        match content_range {
            None => Err(ArchiveError::RangeUnsupported),
            Some(h) => match content_range_total(h) {
                None => Err(ArchiveError::Protocol),
                Some(t) => Ok(t),
            },
        }
    }
}

/// The decimal digits of `n`, most significant first.
pub open spec fn decimal_chars(n: nat) -> Seq<char>
    decreases n,
{
    if n < 10 {
        seq![((n + 48) as u8) as char]
    } else {
        decimal_chars(n / 10).push((((n % 10) + 48) as u8) as char)
    }
}

/// The `Range` header value for `fe`: `bytes=A-B` with `B` the last byte, inclusive.
pub open spec fn range_value(fe: Fetch) -> Seq<char> {
    seq!['b', 'y', 't', 'e', 's', '='] + decimal_chars(fe.start as nat) + seq!['-']
        + decimal_chars((fe.start + fe.len - 1) as nat)
}

/// The position a seek from `from` reaches in an object of `size` bytes at `pos`.
pub open spec fn seek_target(size: u64, pos: u64, from: SeekFrom) -> Option<u64> {
    let t = match from {
        SeekFrom::Start(o) => o as int,
        SeekFrom::End(o) => size + o,
        SeekFrom::Current(o) => pos + o,
    };
    if 0 <= t <= u64::MAX {
        Some(t as u64)
    } else {
        None
    }
}

/// The bytes a read of up to `want` bytes at `pos` asks for: none past the end.
pub open spec fn read_fetch(size: u64, pos: u64, want: u64) -> Fetch {
    if pos >= size {
        Fetch { start: pos, len: 0 }
    } else if want > size - pos {
        Fetch { start: pos, len: (size - pos) as u64 }
    } else {
        Fetch { start: pos, len: want }
    }
}

/// The digits from `i` up to the end of the run are all digits, and the run ends at the
/// end of `h` or before a byte that is not one.
proof fn lemma_digit_run(h: Seq<u8>, i: int)
    requires
        0 <= i <= h.len(),
    ensures
        i <= digit_run(h, i) <= h.len(),
        all_digits(h.subrange(i, digit_run(h, i))),
        digit_run(h, i) < h.len() ==> !(48 <= h[digit_run(h, i)] <= 57),
        forall|k: int| i <= k <= digit_run(h, i) ==> #[trigger] digit_run(h, k) == digit_run(h, i),
    decreases h.len() - i,
{
    if i < h.len() && 48 <= h[i] <= 57 {
        lemma_digit_run(h, i + 1);
        let e = digit_run(h, i);
        assert forall|j: int| 0 <= j < h.subrange(i, e).len() implies 48 <= #[trigger] h.subrange(i, e)[j]
            <= 57 by {
            if j > 0 {
                assert(h.subrange(i, e)[j] == h.subrange(i + 1, e)[j - 1]);
            }
        }
    } else {
        assert(all_digits(h.subrange(i, i)));
    }
}

/// Reads the decimal number that starts at `i`.
fn read_number(h: &[u8], i: usize) -> (r: Option<(u64, usize)>)
    requires
        i <= h@.len(),
    ensures
        r is None <==> number_at(h@, i as int) is None,
        r matches Some((v, e)) ==> number_at(h@, i as int) == Some((v, e as int)) && e <= h@.len(),
{
    let n = h.len();
    proof {
        lemma_digit_run(h@, i as int);
    }
    let ghost e = digit_run(h@, i as int);
    let ghost d = h@.subrange(i as int, e);
    let mut v: u64 = 0;
    let mut k: usize = i;
    while k < n && h[k] >= 48 && h[k] <= 57
        invariant
            i <= k <= e <= n == h@.len(),
            digit_run(h@, i as int) == e,
            d == h@.subrange(i as int, e),
            all_digits(d),
            e < n ==> !(48 <= h@[e] <= 57),
            forall|j: int| i <= j <= e ==> #[trigger] digit_run(h@, j) == e,
            v == decimal_value(h@.subrange(i as int, k as int)),
        decreases n - k,
    {
        let c = h[k];
        assert(k < e) by {
            if k == e {
                assert(false);
            }
        }
        assert(h@.subrange(i as int, k + 1) =~= h@.subrange(i as int, k as int).push(c));
        assert(h@.subrange(i as int, k + 1).drop_last() =~= h@.subrange(i as int, k as int));
        let digit = (c - 48) as u64;
        if v > (u64::MAX - digit) / 10 {
            proof {
                assert(d.subrange(0, k - i) =~= h@.subrange(i as int, k as int));
                assert(d[k - i] == c);
                assert(all_digits(d.subrange(0, k - i))) by {
                    assert forall|j: int| 0 <= j < k - i implies 48 <= #[trigger] d.subrange(0, k - i)[j] <= 57 by {
                        assert(d.subrange(0, k - i)[j] == d[j]);
                    }
                }
                assert(v * 10 + digit > u64::MAX) by (nonlinear_arith)
                    requires v > (u64::MAX - digit) / 10, digit <= 9;
                lemma_decimal_grows(d, k - i);
            }
            return None;
        }
        v = v * 10 + digit;
        k += 1;
    }
    assert(k == e) by {
        if k < e {
            assert(d[k - i] == h@[k as int]);
        }
    }
    if k == i {
        return None;
    }
    Some((v, k))
}

/// Reads the total length out of a `Content-Range` value `bytes A-B/TOTAL`.
pub fn parse_content_range_total(h: &[u8]) -> (r: Option<u64>)
    ensures
        r == content_range_total(h@),
{
    let n = h.len();
    if n < 6 || h[0] != 98 || h[1] != 121 || h[2] != 116 || h[3] != 101 || h[4] != 115 || h[5] != 32 {
        return None;
    }
    let (a, ae) = match read_number(h, 6) {
        None => return None,
        Some(x) => x,
    };
    if ae >= n || h[ae] != 45 {
        return None;
    }
    let (b, be) = match read_number(h, ae + 1) {
        None => return None,
        Some(x) => x,
    };
    if be >= n || h[be] != 47 || a > b {
        return None;
    }
    let (t, te) = match read_number(h, be + 1) {
        None => return None,
        Some(x) => x,
    };
    if te != n || t == 0 {
        return None;
    }
    Some(t)
}

/// A prefix of digits whose value is already too large leaves the whole too large.
proof fn lemma_decimal_grows(d: Seq<u8>, j: int)
    requires
        0 <= j < d.len(),
        all_digits(d.subrange(0, j)),
        48 <= d[j] <= 57,
        decimal_value(d.subrange(0, j)) * 10 + (d[j] - 48) > u64::MAX,
    ensures
        all_digits(d) ==> decimal_value(d) > u64::MAX,
    decreases d.len() - j,
{
    if all_digits(d) {
        lemma_prefix_value_le(d, j + 1);
        assert(d.subrange(0, j + 1).drop_last() =~= d.subrange(0, j));
        assert(d.subrange(0, j + 1).last() == d[j]);
    }
}

/// The value of a run of digits is at least that of any prefix.
proof fn lemma_prefix_value_le(d: Seq<u8>, j: int)
    requires
        0 <= j <= d.len(),
        all_digits(d),
    ensures
        decimal_value(d.subrange(0, j)) <= decimal_value(d),
    decreases d.len() - j,
{
    if j < d.len() {
        lemma_prefix_value_le(d, j + 1);
        assert(d.subrange(0, j + 1).drop_last() =~= d.subrange(0, j));
        assert(d.subrange(0, j + 1).last() == d[j]);
        assert(48 <= d[j]);
        assert(all_digits(d.subrange(0, j))) by {
            assert forall|i: int| 0 <= i < j implies 48 <= #[trigger] d.subrange(0, j)[i] <= 57 by {
                assert(d.subrange(0, j)[i] == d[i]);
            }
        }
        lemma_value_nonneg(d.subrange(0, j));
    } else {
        assert(d.subrange(0, j) =~= d);
    }
}

proof fn lemma_value_nonneg(d: Seq<u8>)
    requires
        all_digits(d),
    ensures
        decimal_value(d) >= 0,
    decreases d.len(),
{
    if d.len() > 0 {
        assert(all_digits(d.drop_last())) by {
            assert forall|i: int| 0 <= i < d.drop_last().len() implies 48 <= #[trigger] d.drop_last()[i] <= 57 by {
                assert(d.drop_last()[i] == d[i]);
            }
        }
        lemma_value_nonneg(d.drop_last());
        assert(48 <= d[d.len() - 1]);
    }
}

/// Reads a probe response: the size of the object, or why it cannot be read in ranges.
pub fn check_range(status: u16, content_range: Option<&[u8]>) -> (r: Result<u64, ArchiveError>)
    ensures
        r == probed_size(
            status,
            match content_range {
                Some(h) => Some(h@),
                None => None,
            },
        ),
{
    if status != PARTIAL_CONTENT {
        return Err(ArchiveError::RangeUnsupported);
    }
    match content_range {
        None => Err(ArchiveError::RangeUnsupported),
        Some(h) => match parse_content_range_total(h) {
            None => Err(ArchiveError::Protocol),
            Some(t) => Ok(t),
        },
    }
}

fn push_decimal(out: &mut Vec<char>, n: u64)
    ensures
        final(out)@ == old(out)@ + decimal_chars(n as nat),
    decreases n,
{
    if n >= 10 {
        push_decimal(out, n / 10);
    }
    out.push(((n % 10) as u8 + 48) as char);
    assert(decimal_chars(n as nat) == if n < 10 {
        seq![((n + 48) as u8) as char]
    } else {
        decimal_chars((n / 10) as nat).push((((n % 10) + 48) as u8) as char)
    });
    assert(final(out)@ =~= old(out)@ + decimal_chars(n as nat));
}

/// The `Range` header value that asks for exactly the bytes of `fe`.
pub fn range_header(fe: Fetch) -> (r: String)
    requires
        fe.len > 0,
        fe.start + fe.len <= u64::MAX + 1,
    ensures
        r@ == range_value(fe),
{
    let mut out: Vec<char> = Vec::new();
    out.push('b');
    out.push('y');
    out.push('t');
    out.push('e');
    out.push('s');
    out.push('=');
    push_decimal(&mut out, fe.start);
    out.push('-');
    push_decimal(&mut out, fe.start + (fe.len - 1));
    assert(out@ =~= range_value(fe));
    string_of_chars(out)
}

impl SupportedTypes {
    /// Reads a `Content-Type` value: only `application/zip` is a ZIP archive.
    pub fn from_content_type(content_type: &str) -> (r: SupportedTypes)
        ensures
            r == (if content_type@ == ZIP_CONTENT_TYPE@ {
                SupportedTypes::Zip
            } else {
                SupportedTypes::Unsupported
            }),
    {
        proof {
            reveal_strlit("application/zip");
        }
        let n = content_type.unicode_len();
        if n != 15 {
            assert(content_type@.len() != ZIP_CONTENT_TYPE@.len());
            return SupportedTypes::Unsupported;
        }
        let mut i: usize = 0;
        while i < 15
            invariant
                i <= 15,
                n == content_type@.len(),
                n == 15,
                ZIP_CONTENT_TYPE@.len() == 15,
                forall|j: int| 0 <= j < i ==> content_type@[j] == ZIP_CONTENT_TYPE@[j],
            decreases 15 - i,
        {
            let a = content_type.get_char(i);
            let b = ZIP_CONTENT_TYPE.get_char(i);
            if a != b {
                assert(content_type@[i as int] != ZIP_CONTENT_TYPE@[i as int]);
                assert(content_type@ != ZIP_CONTENT_TYPE@);
                return SupportedTypes::Unsupported;
            }
            i += 1;
        }
        assert(content_type@ =~= ZIP_CONTENT_TYPE@);
        SupportedTypes::Zip
    }
}

impl RemoteFile {
    /// The size of the object.
    pub closed spec fn spec_size(&self) -> u64 {
        self.size
    }

    /// The position of the next read.
    pub closed spec fn spec_pos(&self) -> u64 {
        self.pos
    }

    /// The address of the object.
    pub closed spec fn spec_url(&self) -> Seq<char> {
        self.url@
    }

    /// What the probe's `Content-Type` said of the object.
    pub closed spec fn spec_content_type(&self) -> SupportedTypes {
        self.content_type
    }

    /// Opens the object at `url` from the answer to its probe, positioned at its start.
    pub fn try_new(url: String, status: u16, content_range: Option<&[u8]>, content_type: Option<&str>) -> (r: Result<RemoteFile, ArchiveError>)
        ensures
            match probed_size(
                status,
                match content_range {
                    Some(h) => Some(h@),
                    None => None,
                },
            ) {
                Ok(size) => r matches Ok(f) && f.spec_size() == size && f.spec_pos() == 0
                    && f.spec_url() == url@ && f.spec_content_type() == probed_type(
                    match content_type {
                        Some(t) => Some(t@),
                        None => None,
                    },
                ),
                Err(x) => r matches Err(y) && y == x,
            },
    {
        let size = check_range(status, content_range)?;
        let kind = match content_type {
            Some(t) => SupportedTypes::from_content_type(t),
            None => SupportedTypes::Unsupported,
        };
        Ok(RemoteFile { url, content_type: kind, size, pos: 0 })
    }

    /// What the probe's `Content-Type` said of the object.
    pub fn content_type(&self) -> (r: SupportedTypes)
        ensures
            r == self.spec_content_type(),
    {
        self.content_type
    }

    /// The fetch that a probe makes: the first byte.
    pub fn probe_fetch() -> (r: Fetch)
        ensures
            r == (Fetch { start: 0, len: 1 }),
    {
        Fetch { start: 0, len: 1 }
    }

    /// The size of the object.
    pub fn size(&self) -> (r: u64)
        ensures
            r == self.spec_size(),
    {
        self.size
    }

    /// The position of the next read.
    pub fn position(&self) -> (r: u64)
        ensures
            r == self.spec_pos(),
    {
        self.pos
    }

    /// The address of the object.
    pub fn url(&self) -> (r: &str)
        ensures
            r@ == self.spec_url(),
    {
        self.url.as_str()
    }

    /// Moves the position; a seek past the end is allowed, one before the start is not.
    pub fn seek(&mut self, from: SeekFrom) -> (r: Result<u64, ArchiveError>)
        ensures
            final(self).spec_size() == old(self).spec_size(),
            final(self).spec_url() == old(self).spec_url(),
            match seek_target(old(self).spec_size(), old(self).spec_pos(), from) {
                Some(t) => r == Ok::<u64, ArchiveError>(t) && final(self).spec_pos() == t,
                None => r == Err::<u64, ArchiveError>(ArchiveError::InvalidSeek)
                    && final(self).spec_pos() == old(self).spec_pos(),
            },
    {
        let t = seek_position(self.size, self.pos, from)?;
        self.pos = t;
        Ok(t)
    }

    /// The range a read of up to `want` bytes fetches: from the position, never past the end.
    pub fn read_fetch(&self, want: u64) -> (r: Fetch)
        ensures
            r == read_fetch(self.spec_size(), self.spec_pos(), want),
    {
        if self.pos >= self.size {
            Fetch { start: self.pos, len: 0 }
        } else if want > self.size - self.pos {
            Fetch { start: self.pos, len: self.size - self.pos }
        } else {
            Fetch { start: self.pos, len: want }
        }
    }

    /// Records that `delivered` bytes were read; a short delivery leaves the rest to a later fetch.
    pub fn advance(&mut self, delivered: u64)
        requires
            old(self).spec_pos() < old(self).spec_size(),
            delivered <= old(self).spec_size() - old(self).spec_pos(),
        ensures
            final(self).spec_pos() == old(self).spec_pos() + delivered,
            final(self).spec_size() == old(self).spec_size(),
            final(self).spec_url() == old(self).spec_url(),
    {
        self.pos = self.pos + delivered;
    }
}

/// The position a seek from `from` reaches in a stream of `size` bytes at `pos`.
pub fn seek_position(size: u64, pos: u64, from: SeekFrom) -> (r: Result<u64, ArchiveError>)
    ensures
        match seek_target(size, pos, from) {
            Some(t) => r == Ok::<u64, ArchiveError>(t),
            None => r == Err::<u64, ArchiveError>(ArchiveError::InvalidSeek),
        },
{
    let t: Option<u64> = match from {
        SeekFrom::Start(o) => Some(o),
        SeekFrom::End(o) => offset_by(size, o),
        SeekFrom::Current(o) => offset_by(pos, o),
    };
    match t {
        Some(t) => Ok(t),
        None => Err(ArchiveError::InvalidSeek),
    }
}

/// `base + o`, if that is a position.
fn offset_by(base: u64, o: i64) -> (r: Option<u64>)
    ensures
        r == (if 0 <= base + o <= u64::MAX {
            Some((base + o) as u64)
        } else {
            None::<u64>
        }),
{
    if o >= 0 {
        let d = o as u64;
        if d > u64::MAX - base {
            None
        } else {
            Some(base + d)
        }
    } else {
        let d = (-(o as i128)) as u64;
        if d > base {
            None
        } else {
            Some(base - d)
        }
    }
}

} // verus!
