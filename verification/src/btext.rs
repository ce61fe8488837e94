//! Small byte-string helpers shared by the parsers.

use vstd::prelude::*;

verus! {

/// ASCII whitespace, as trimmed from the ends of numeral strings.
pub open spec fn is_bws(b: u8) -> bool {
    b == 32 || (9 <= b && b <= 13)
}

/// Index of the first byte at or after `i` that is not whitespace.
pub open spec fn bscan_start(s: Seq<u8>, i: int) -> int
    decreases s.len() - i,
{
    if 0 <= i < s.len() && is_bws(s[i]) {
        bscan_start(s, i + 1)
    } else {
        i
    }
}

/// One past the last byte before `j` that is not whitespace.
pub open spec fn bscan_end(s: Seq<u8>, j: int) -> int
    decreases j,
{
    if 0 < j <= s.len() && is_bws(s[j - 1]) {
        bscan_end(s, j - 1)
    } else {
        j
    }
}

/// The byte string with ASCII whitespace removed from both ends.
pub open spec fn btrimmed(s: Seq<u8>) -> Seq<u8> {
    let lo = bscan_start(s, 0);
    let hi = bscan_end(s, s.len() as int);
    if lo < hi {
        s.subrange(lo, hi)
    } else {
        Seq::empty()
    }
}

fn bws_exec(b: u8) -> (r: bool)
    ensures
        r == is_bws(b),
{
    b == 32 || (9 <= b && b <= 13)
}

/// Whether a byte is ASCII whitespace.
pub fn is_ws_byte(b: u8) -> (r: bool)
    ensures
        r == is_bws(b),
{
    b == 32 || (9 <= b && b <= 13)
}

/// The bounds `(lo, hi)` of the whitespace-trimmed span of `s`; `lo == hi`
/// when every byte is whitespace.
pub fn trim_bounds(s: &[u8]) -> (r: (usize, usize))
    ensures
        r.0 <= r.1 <= s@.len(),
        r.0 < r.1 ==> s@.subrange(r.0 as int, r.1 as int) == btrimmed(s@),
        r.0 == r.1 ==> btrimmed(s@) == Seq::<u8>::empty(),
{
    let n = s.len();
    let mut lo: usize = 0;
    while lo < n && bws_exec(s[lo])
        invariant
            n == s@.len(),
            0 <= lo <= n,
            bscan_start(s@, 0) == bscan_start(s@, lo as int),
        decreases n - lo,
    {
        lo = lo + 1;
    }
    assert(bscan_start(s@, 0) == lo as int);
    let mut hi: usize = n;
    while hi > 0 && bws_exec(s[hi - 1])
        invariant
            n == s@.len(),
            0 <= hi <= n,
            bscan_end(s@, n as int) == bscan_end(s@, hi as int),
        decreases hi,
    {
        hi = hi - 1;
    }
    assert(bscan_end(s@, n as int) == hi as int);
    if lo < hi {
        (lo, hi)
    } else {
        (lo, lo)
    }
}

/// Copy the byte range `[from, to)` of a slice into a fresh vector.
pub fn copy_range(s: &[u8], from: usize, to: usize) -> (r: Vec<u8>)
    requires
        from <= to <= s@.len(),
    ensures
        r@ == s@.subrange(from as int, to as int),
{
    let mut out: Vec<u8> = Vec::new();
    let mut i: usize = from;
    while i < to
        invariant
            from <= i <= to <= s@.len(),
            out@ == s@.subrange(from as int, i as int),
        decreases to - i,
    {
        out.push(s[i]);
        proof {
            assert(s@.subrange(from as int, i + 1) =~= s@.subrange(
                from as int,
                i as int,
            ).push(s@[i as int]));
        }
        i = i + 1;
    }
    out
}

/// Byte-for-byte equality of two slices.
pub fn bytes_eq(a: &[u8], b: &[u8]) -> (r: bool)
    ensures
        r == (a@ == b@),
{
    if a.len() != b.len() {
        assert(a@ != b@) by {
            assert(a@.len() != b@.len());
        }
        return false;
    }
    let n = a.len();
    let mut i: usize = 0;
    while i < n
        invariant
            n == a@.len() == b@.len(),
            0 <= i <= n,
            forall|k: int| 0 <= k < i ==> a@[k] == b@[k],
        decreases n - i,
    {
        if a[i] != b[i] {
            return false;
        }
        i = i + 1;
    }
    proof {
        assert(a@ =~= b@);
    }
    true
}

/// The decimal digit string of a number, most significant digit first.
pub open spec fn u64_dec_bytes(n: int) -> Seq<u8>
    decreases n,
{
    if n < 10 {
        seq![(48 + if n >= 0 { n } else { 0 }) as u8]
    } else {
        u64_dec_bytes(n / 10) + seq![(48 + n % 10) as u8]
    }
}

pub proof fn lemma_u64_dec_bytes_digits(n: int)
    requires
        n >= 0,
    ensures
        forall|i: int| 0 <= i < u64_dec_bytes(n).len()
            ==> 48 <= #[trigger] u64_dec_bytes(n)[i] <= 57,
    decreases n,
{
    if n < 10 {
        assert(u64_dec_bytes(n)[0] == (48 + n) as u8);
    } else {
        lemma_u64_dec_bytes_digits(n / 10);
        let a = u64_dec_bytes(n / 10);
        assert forall|i: int| 0 <= i < u64_dec_bytes(n).len() implies 48 <= #[trigger] u64_dec_bytes(
            n,
        )[i] <= 57 by {
            if i < a.len() {
                assert(u64_dec_bytes(n)[i] == a[i]);
            } else {
                assert(u64_dec_bytes(n)[i] == (48 + n % 10) as u8);
            }
        }
    }
}

/// Append the decimal digits of `n` to `out`.
pub fn push_u64_dec(n: u64, out: &mut Vec<u8>)
    ensures
        final(out)@ == old(out)@ + u64_dec_bytes(n as int),
    decreases n,
{
    if n < 10 {
        out.push(48 + (n as u8));
        proof {
            assert(out@ =~= old(out)@ + u64_dec_bytes(n as int));
        }
    } else {
        push_u64_dec(n / 10, out);
        out.push(48 + ((n % 10) as u8));
        proof {
            assert(out@ =~= old(out)@ + u64_dec_bytes(n as int));
        }
    }
}

/// Append every byte of `tail` to `out`.
pub fn append_bytes(out: &mut Vec<u8>, tail: &[u8])
    ensures
        final(out)@ == old(out)@ + tail@,
{
    let n = tail.len();
    let mut i: usize = 0;
    while i < n
        invariant
            n == tail@.len(),
            0 <= i <= n,
            out@ == old(out)@ + tail@.subrange(0, i as int),
        decreases n - i,
    {
        out.push(tail[i]);
        proof {
            assert(old(out)@ + tail@.subrange(0, i + 1) =~= (old(out)@
                + tail@.subrange(0, i as int)).push(tail@[i as int]));
        }
        i = i + 1;
    }
    proof {
        assert(tail@.subrange(0, n as int) =~= tail@);
    }
}

/// All bytes are ASCII.
pub open spec fn all_ascii(s: Seq<u8>) -> bool {
    forall|i: int| 0 <= i < s.len() ==> #[trigger] s[i] < 128
}

/// Relies on `String::from_utf8`: a sequence of ASCII bytes is valid
/// UTF-8 and decodes to exactly those bytes, one character each.
#[verifier::external_body]
pub fn ascii_to_string(v: &Vec<u8>) -> (r: String)
    requires
        all_ascii(v@),
    ensures
        r@.len() == v@.len(),
        forall|i: int| 0 <= i < v@.len() ==> #[trigger] r@[i] == v@[i] as char,
{
    String::from_utf8(v.clone()).unwrap_or_default()
}

/// `needle` occurs as a contiguous run inside `hay`.
pub open spec fn contains_seq(hay: Seq<u8>, needle: Seq<u8>) -> bool {
    exists|i: int|
        0 <= i && i + needle.len() <= hay.len() && #[trigger] hay.subrange(i, i + needle.len())
            == needle
}

pub fn match_at(hay: &[u8], needle: &[u8], at: usize) -> (r: bool)
    requires
        at + needle@.len() <= hay@.len(),
    ensures
        r == (hay@.subrange(at as int, at + needle@.len()) == needle@),
{
    let n = hay.len();
    let m = needle.len();
    let mut k: usize = 0;
    while k < m
        invariant
            n == hay@.len(),
            m == needle@.len(),
            at + m <= n,
            0 <= k <= m,
            forall|j: int| 0 <= j < k ==> hay@[at + j] == needle@[j],
        decreases m - k,
    {
        if hay[at + k] != needle[k] {
            proof {
                assert(hay@.subrange(at as int, at + m)[k as int] == hay@[at + k]);
            }
            return false;
        }
        k = k + 1;
    }
    proof {
        assert(hay@.subrange(at as int, at + m) =~= needle@);
    }
    true
}

/// Whether `needle` occurs anywhere in `hay`.
pub fn contains_bytes(hay: &[u8], needle: &[u8]) -> (r: bool)
    ensures
        r == contains_seq(hay@, needle@),
{
    let n = hay.len();
    let m = needle.len();
    if m > n {
        proof {
            assert(!contains_seq(hay@, needle@));
        }
        return false;
    }
    if m == 0 {
        proof {
            assert(hay@.subrange(0, 0 + needle@.len() as int) =~= needle@);
            assert(contains_seq(hay@, needle@));
        }
        return true;
    }
    let mut i: usize = 0;
    while i <= n - m
        invariant
            n == hay@.len(),
            m == needle@.len(),
            1 <= m <= n,
            0 <= i <= n - m + 1,
            forall|j: int|
                0 <= j < i ==> #[trigger] hay@.subrange(j, j + needle@.len()) != needle@,
        decreases n - i,
    {
        if match_at(hay, needle, i) {
            return true;
        }
        i = i + 1;
    }
    proof {
        assert forall|j: int|
            0 <= j && j + needle@.len() <= hay@.len() implies #[trigger] hay@.subrange(
            j,
            j + needle@.len(),
        ) != needle@ by {
            assert(j < i);
        }
    }
    false
}

/// ASCII lowercase of one byte.
pub open spec fn lower_byte(b: u8) -> u8 {
    if 65 <= b && b <= 90 {
        (b + 32) as u8
    } else {
        b
    }
}

/// ASCII lowercase of a byte string.
pub open spec fn lower_seq(s: Seq<u8>) -> Seq<u8> {
    Seq::new(s.len(), |i: int| lower_byte(s[i]))
}

/// Lowercase the ASCII letters of a byte string.
pub fn to_lower_bytes(s: &[u8]) -> (r: Vec<u8>)
    ensures
        r@ == lower_seq(s@),
{
    let mut out: Vec<u8> = Vec::new();
    let n = s.len();
    let mut i: usize = 0;
    while i < n
        invariant
            n == s@.len(),
            0 <= i <= n,
            out@.len() == i,
            forall|j: int| 0 <= j < i ==> out@[j] == lower_byte(s@[j]),
        decreases n - i,
    {
        let b = s[i];
        if 65 <= b && b <= 90 {
            out.push(b + 32);
        } else {
            out.push(b);
        }
        i = i + 1;
    }
    proof {
        assert(out@ =~= lower_seq(s@));
    }
    out
}

/// Relies on `String::from_utf8_lossy`: when every byte is ASCII the
/// result holds exactly those bytes, one character each; any other input
/// still yields some string.
#[verifier::external_body]
pub fn bytes_to_string_lossy(v: &[u8]) -> (r: String)
    ensures
        all_ascii(v@) ==> r@.len() == v@.len() && (forall|i: int|
            0 <= i < v@.len() ==> #[trigger] r@[i] == v@[i] as char),
{
    String::from_utf8_lossy(v).into_owned()
}

} // verus!
