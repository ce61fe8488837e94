//! Address range expansion.
//!
//! A range string takes one of three forms: CIDR (`a.b.c.d/n`), a dash
//! range (`ip1-ip2`), or a single address. Expansion yields the ordered
//! sequence of every 32-bit address in the range; a string matching no
//! form, an endpoint that does not parse, or a dash range whose start
//! exceeds its end is rejected as `InvalidRange`. A CIDR block includes
//! its network and broadcast addresses: this is a discovery tool.

use vstd::prelude::*;
use vstd::arithmetic::power2::{pow2, lemma_pow2_adds, lemma_pow2_strictly_increases,
    lemma2_to64};
use vstd::arithmetic::div_mod::{lemma_fundamental_div_mod, lemma_mod_bound, lemma_small_mod};
use vstd::string::StringSliceAdditionalSpecFns;
use crate::btext::{btrimmed, trim_bounds, copy_range, u64_dec_bytes, push_u64_dec,
    lemma_u64_dec_bytes_digits, all_ascii, ascii_to_string};
use crate::error::{MinerError, MinerResult};
use crate::numbers::{all_digits, digits_val, is_ascii_digit, pow10, lemma_digits_val_bound,
    lemma_pow10_mono};

verus! {

/// Index of the first occurrence of byte `b` at or after `i`, or the
/// length if there is none.
pub open spec fn find_byte(s: Seq<u8>, b: u8, i: int) -> int
    decreases s.len() - i,
{
    if 0 <= i < s.len() {
        if s[i] == b {
            i
        } else {
            find_byte(s, b, i + 1)
        }
    } else {
        s.len() as int
    }
}

proof fn lemma_find_byte_ge(s: Seq<u8>, b: u8, i: int)
    requires
        0 <= i <= s.len(),
    ensures
        i <= find_byte(s, b, i) <= s.len(),
    decreases s.len() - i,
{
    if i < s.len() && s[i] != b {
        lemma_find_byte_ge(s, b, i + 1);
    }
}

/// Locate the first occurrence of `b` at or after `from`.
pub fn find_byte_exec(s: &[u8], b: u8, from: usize) -> (r: usize)
    requires
        from <= s@.len(),
    ensures
        r == find_byte(s@, b, from as int),
        from <= r <= s@.len(),
{
    let n = s.len();
    let mut k: usize = from;
    while k < n && s[k] != b
        invariant
            n == s@.len(),
            from <= k <= n,
            find_byte(s@, b, from as int) == find_byte(s@, b, k as int),
        decreases n - k,
    {
        k = k + 1;
    }
    proof {
        lemma_find_byte_ge(s@, b, from as int);
    }
    k
}

/// A textual address octet: one to three decimal digits, value at most
/// 255.
pub open spec fn octet_ok(g: Seq<u8>) -> bool {
    all_digits(g) && 1 <= g.len() <= 3 && digits_val(g) <= 255
}

/// Numeric value of a dotted-quad address string, if well formed.
pub open spec fn ipv4_of(s: Seq<u8>) -> Option<int> {
    let d1 = find_byte(s, 46, 0);
    let d2 = find_byte(s, 46, d1 + 1);
    let d3 = find_byte(s, 46, d2 + 1);
    let d4 = find_byte(s, 46, d3 + 1);
    if d1 < s.len() && d2 < s.len() && d3 < s.len() && d4 == s.len() {
        let g1 = s.subrange(0, d1);
        let g2 = s.subrange(d1 + 1, d2);
        let g3 = s.subrange(d2 + 1, d3);
        let g4 = s.subrange(d3 + 1, s.len() as int);
        if octet_ok(g1) && octet_ok(g2) && octet_ok(g3) && octet_ok(g4) {
            Some(
                digits_val(g1) * 0x1000000 + digits_val(g2) * 0x10000 + digits_val(g3) * 0x100
                    + digits_val(g4),
            )
        } else {
            None
        }
    } else {
        None
    }
}

fn parse_octet(s: &[u8], from: usize, to: usize) -> (r: Option<u8>)
    requires
        from <= to <= s@.len(),
    ensures
        r is Some == octet_ok(s@.subrange(from as int, to as int)),
        r matches Some(v) ==> v == digits_val(s@.subrange(from as int, to as int)),
{
    let ghost g = s@.subrange(from as int, to as int);
    if to - from == 0 || to - from > 3 {
        return None;
    }
    let mut val: u16 = 0;
    let mut i: usize = from;
    while i < to
        invariant
            from <= i <= to <= s@.len(),
            1 <= to - from <= 3,
            all_digits(s@.subrange(from as int, i as int)),
            val == digits_val(s@.subrange(from as int, i as int)),
            val <= 999,
        decreases to - i,
    {
        let b = s[i];
        if !(48 <= b && b <= 57) {
            proof {
                assert(s@.subrange(from as int, to as int)[(i - from) as int] == s@[i as int]);
                assert(!all_digits(s@.subrange(from as int, to as int)));
            }
            return None;
        }
        proof {
            let pre = s@.subrange(from as int, i as int);
            assert(s@.subrange(from as int, i + 1) =~= pre.push(s@[i as int]));
            assert(s@.subrange(from as int, i + 1).drop_last() =~= pre);
            assert(s@.subrange(from as int, i + 1).last() == s@[i as int]);
            lemma_digits_val_bound(pre);
            lemma_pow10_mono(pre.len() as nat, 2);
            assert(pow10(2) == 100) by {
                reveal_with_fuel(pow10, 3);
            }
        }
        val = val * 10 + ((b - 48) as u16);
        i = i + 1;
    }
    proof {
        assert(g =~= s@.subrange(from as int, to as int));
    }
    if val > 255 {
        None
    } else {
        Some(val as u8)
    }
}

/// Parse a dotted-quad address string into its 32-bit value.
pub fn parse_ipv4_bytes(s: &[u8]) -> (r: Option<u32>)
    ensures
        r is Some == ipv4_of(s@) is Some,
        r matches Some(v) ==> v == ipv4_of(s@).unwrap(),
{
    let n = s.len();
    let d1 = find_byte_exec(s, 46, 0);
    if d1 == n {
        return None;
    }
    let d2 = find_byte_exec(s, 46, d1 + 1);
    if d2 == n {
        return None;
    }
    let d3 = find_byte_exec(s, 46, d2 + 1);
    if d3 == n {
        return None;
    }
    let d4 = find_byte_exec(s, 46, d3 + 1);
    if d4 != n {
        return None;
    }
    let o1 = parse_octet(s, 0, d1);
    let o2 = parse_octet(s, d1 + 1, d2);
    let o3 = parse_octet(s, d2 + 1, d3);
    let o4 = parse_octet(s, d3 + 1, n);
    match (o1, o2, o3, o4) {
        (Some(a), Some(b), Some(c), Some(d)) => Some(
            (a as u32) * 0x1000000 + (b as u32) * 0x10000 + (c as u32) * 0x100 + (d as u32),
        ),
        _ => None,
    }
}

/// Whether a CIDR string is well formed: a dotted-quad address, a slash,
/// and a prefix length of at most 32 written in one or two digits.
pub open spec fn cidr_ok(s: Seq<u8>) -> bool {
    let p = find_byte(s, 47, 0);
    let pd = s.skip(p + 1);
    &&& p < s.len()
    &&& ipv4_of(s.take(p)) is Some
    &&& all_digits(pd)
    &&& 1 <= pd.len() <= 2
    &&& digits_val(pd) <= 32
}

/// The prefix length of a well-formed CIDR string.
pub open spec fn cidr_prefix(s: Seq<u8>) -> int {
    digits_val(s.skip(find_byte(s, 47, 0) + 1))
}

/// The first address of the block that a well-formed CIDR string names:
/// the given address with its host bits cleared.
pub open spec fn cidr_base(s: Seq<u8>) -> int {
    let a = ipv4_of(s.take(find_byte(s, 47, 0))).unwrap();
    a - a % (pow2((32 - cidr_prefix(s)) as nat) as int)
}

/// Whether a dash range string is well formed: exactly one dash, and a
/// dotted-quad address (after trimming) on each side.
pub open spec fn dash_ok(s: Seq<u8>) -> bool {
    let p = find_byte(s, 45, 0);
    &&& p < s.len()
    &&& find_byte(s, 45, p + 1) == s.len()
    &&& ipv4_of(btrimmed(s.take(p))) is Some
    &&& ipv4_of(btrimmed(s.skip(p + 1))) is Some
}

pub open spec fn dash_start(s: Seq<u8>) -> int {
    ipv4_of(btrimmed(s.take(find_byte(s, 45, 0)))).unwrap()
}

pub open spec fn dash_end(s: Seq<u8>) -> int {
    ipv4_of(btrimmed(s.skip(find_byte(s, 45, 0) + 1))).unwrap()
}

/// The expansion of a range string into its ordered address sequence:
/// every address of the CIDR block, every address from start to end of a
/// dash range, or the single address itself. `None` when the string
/// matches no form, an endpoint fails to parse, or start exceeds end.
pub open spec fn range_expand(s: Seq<u8>) -> Option<Seq<u32>> {
    if find_byte(s, 47, 0) < s.len() {
        if cidr_ok(s) {
            Some(
                Seq::new(
                    pow2((32 - cidr_prefix(s)) as nat),
                    |k: int| (cidr_base(s) + k) as u32,
                ),
            )
        } else {
            None
        }
    } else if find_byte(s, 45, 0) < s.len() {
        if dash_ok(s) && dash_start(s) <= dash_end(s) {
            Some(
                Seq::new(
                    (dash_end(s) - dash_start(s) + 1) as nat,
                    |k: int| (dash_start(s) + k) as u32,
                ),
            )
        } else {
            None
        }
    } else {
        match ipv4_of(s) {
            Some(a) => Some(seq![a as u32]),
            None => None,
        }
    }
}

/// For any well-formed CIDR string the expanded address count is exactly
/// two to the power of (32 minus the prefix length).
pub proof fn lemma_cidr_expansion_count(s: Seq<u8>)
    requires
        find_byte(s, 47, 0) < s.len(),
        cidr_ok(s),
    ensures
        range_expand(s) is Some,
        range_expand(s).unwrap().len() == pow2((32 - cidr_prefix(s)) as nat),
{
}

/// For any well-formed dash range with start at most end, the expanded
/// address count is end minus start plus one; in particular a range of
/// size one (start equal to end) expands to a single address.
pub proof fn lemma_dash_expansion_count(s: Seq<u8>)
    requires
        find_byte(s, 47, 0) == s.len(),
        find_byte(s, 45, 0) < s.len(),
        dash_ok(s),
        dash_start(s) <= dash_end(s),
    ensures
        range_expand(s) is Some,
        range_expand(s).unwrap().len() == dash_end(s) - dash_start(s) + 1,
        dash_start(s) == dash_end(s) ==> range_expand(s).unwrap().len() == 1,
{
}

/// A dash range whose start numerically exceeds its end is rejected.
pub proof fn lemma_dash_reversed_rejected(s: Seq<u8>)
    requires
        find_byte(s, 47, 0) == s.len(),
        find_byte(s, 45, 0) < s.len(),
        dash_ok(s),
        dash_start(s) > dash_end(s),
    ensures
        range_expand(s) is None,
{
}

/// Compute two to the power `e`, for exponents up to 32.
fn pow2_exec(e: u8) -> (r: u64)
    requires
        e <= 32,
    ensures
        r == pow2(e as nat),
        1 <= r <= 0x100000000,
{
    let mut block: u64 = 1;
    let mut j: u8 = 0;
    proof {
        lemma2_to64();
    }
    while j < e
        invariant
            j <= e <= 32,
            block == pow2(j as nat),
            1 <= block <= 0x100000000,
        decreases e - j,
    {
        proof {
            lemma2_to64();
            if j + 1 < 32 {
                lemma_pow2_strictly_increases((j + 1) as nat, 32);
            }
            assert(pow2((j + 1) as nat) == 2 * pow2(j as nat)) by {
                lemma_pow2_adds(j as nat, 1);
            }
        }
        block = block * 2;
        j = j + 1;
    }
    block
}

/// Expand an address range string into the ordered list of its 32-bit
/// addresses. Succeeds exactly when the string is a well-formed CIDR
/// block, a well-formed forward dash range, or a single address; every
/// failure is reported as `InvalidRange`.
pub fn parse_ip_range_bytes(s: &[u8]) -> (r: MinerResult<Vec<u32>>)
    ensures
        r is Ok == range_expand(s@) is Some,
        r matches Ok(v) ==> v@ == range_expand(s@).unwrap(),
        r matches Err(e) ==> e is InvalidRange,
{
    let n = s.len();
    let slash = find_byte_exec(s, 47, 0);
    if slash < n {
        // CIDR form.
        let addr_part = copy_range(s, 0, slash);
        proof {
            assert(addr_part@ =~= s@.take(slash as int));
        }
        let addr = match parse_ipv4_bytes(addr_part.as_slice()) {
            Some(a) => a,
            None => {
                return Err(MinerError::InvalidRange);
            },
        };
        let ghost pd = s@.skip(slash + 1);
        // Parse the prefix length: one or two digits, at most 32.
        if n - (slash + 1) == 0 || n - (slash + 1) > 2 {
            return Err(MinerError::InvalidRange);
        }
        let b0 = s[slash + 1];
        if !(48 <= b0 && b0 <= 57) {
            proof {
                assert(pd[0] == s@[slash + 1]);
            }
            return Err(MinerError::InvalidRange);
        }
        let mut prefix: u8 = b0 - 48;
        if n - (slash + 1) == 2 {
            let b1 = s[slash + 2];
            if !(48 <= b1 && b1 <= 57) {
                proof {
                    assert(pd[1] == s@[slash + 2]);
                }
                return Err(MinerError::InvalidRange);
            }
            prefix = prefix * 10 + (b1 - 48);
            proof {
                let p0 = seq![s@[slash + 1]];
                assert(digits_val(Seq::<u8>::empty()) == 0);
                assert(p0.drop_last() =~= Seq::<u8>::empty());
                assert(p0.last() == s@[slash + 1]);
                assert(digits_val(p0) == s@[slash + 1] - 48);
                assert(pd =~= seq![s@[slash + 1], s@[slash + 2]]);
                assert(pd.drop_last() =~= p0);
                assert(pd.last() == s@[slash + 2]);
                assert(digits_val(pd) == (b0 - 48) * 10 + (b1 - 48));
            }
        } else {
            proof {
                assert(digits_val(Seq::<u8>::empty()) == 0);
                assert(pd =~= seq![s@[slash + 1]]);
                assert(pd.drop_last() =~= Seq::<u8>::empty());
                assert(pd.last() == s@[slash + 1]);
                assert(digits_val(pd) == b0 - 48);
            }
        }
        if prefix > 32 {
            return Err(MinerError::InvalidRange);
        }
        assert(cidr_ok(s@));
        assert(cidr_prefix(s@) == prefix);
        let block = pow2_exec(32 - prefix);
        let a64 = addr as u64;
        proof {
            lemma_mod_bound(a64 as int, block as int);
            if a64 < block {
                lemma_small_mod(a64 as nat, block as nat);
            }
        }
        let base = a64 - a64 % block;
        proof {
            lemma2_to64();
            lemma_pow2_adds(prefix as nat, (32 - prefix) as nat);
            lemma_fundamental_div_mod(a64 as int, block as int);
            let q = a64 as int / block as int;
            let blk = block as int;
            let cap = pow2(prefix as nat) as int;
            assert(a64 as int == blk * q + (a64 as int) % blk);
            assert(base == blk * q);
            assert(q * blk == blk * q) by (nonlinear_arith);
            assert(base == q * blk);
            assert(a64 < cap * blk);
            assert(q < cap) by (nonlinear_arith)
                requires
                    a64 as int == q * blk + (a64 as int % blk),
                    0 <= a64 as int % blk < blk,
                    (a64 as int) < cap * blk,
                    blk > 0,
            ;
            assert((q + 1) * blk <= cap * blk) by (nonlinear_arith)
                requires
                    q + 1 <= cap,
                    blk > 0,
            ;
            assert(q * blk + blk == (q + 1) * blk) by (nonlinear_arith);
            assert(base + block <= 0x100000000);
            assert(base == cidr_base(s@));
        }
        let mut out: Vec<u32> = Vec::new();
        let mut k: u64 = 0;
        while k < block
            invariant
                out@.len() == k,
                k <= block,
                base + block <= 0x100000000,
                forall|j: int| 0 <= j < k ==> out@[j] == (base + j) as u32,
            decreases block - k,
        {
            out.push((base + k) as u32);
            k = k + 1;
        }
        proof {
            assert(out@ =~= Seq::new(
                pow2((32 - cidr_prefix(s@)) as nat),
                |k: int| (cidr_base(s@) + k) as u32,
            ));
        }
        Ok(out)
    } else {
        let dash = find_byte_exec(s, 45, 0);
        if dash < n {
            // Dash range form.
            if find_byte_exec(s, 45, dash + 1) != n {
                return Err(MinerError::InvalidRange);
            }
            let left = copy_range(s, 0, dash);
            proof {
                assert(left@ =~= s@.take(dash as int));
            }
            let (llo, lhi) = trim_bounds(left.as_slice());
            let ltrim = copy_range(left.as_slice(), llo, lhi);
            proof {
                if llo == lhi {
                    assert(ltrim@ =~= btrimmed(left@));
                }
            }
            let start = match parse_ipv4_bytes(ltrim.as_slice()) {
                Some(a) => a,
                None => {
                    return Err(MinerError::InvalidRange);
                },
            };
            let right = copy_range(s, dash + 1, n);
            proof {
                assert(right@ =~= s@.skip(dash + 1));
            }
            let (rlo, rhi) = trim_bounds(right.as_slice());
            let rtrim = copy_range(right.as_slice(), rlo, rhi);
            proof {
                if rlo == rhi {
                    assert(rtrim@ =~= btrimmed(right@));
                }
            }
            let end = match parse_ipv4_bytes(rtrim.as_slice()) {
                Some(a) => a,
                None => {
                    return Err(MinerError::InvalidRange);
                },
            };
            assert(dash_ok(s@));
            assert(start == dash_start(s@) && end == dash_end(s@));
            if start > end {
                return Err(MinerError::InvalidRange);
            }
            let count = (end as u64) - (start as u64) + 1;
            let mut out: Vec<u32> = Vec::new();
            let mut k: u64 = 0;
            while k < count
                invariant
                    out@.len() == k,
                    k <= count,
                    count == end - start + 1,
                    start <= end < 0x100000000,
                    forall|j: int| 0 <= j < k ==> out@[j] == (start + j) as u32,
                decreases count - k,
            {
                out.push(((start as u64) + k) as u32);
                k = k + 1;
            }
            proof {
                assert(out@ =~= Seq::new(
                    (dash_end(s@) - dash_start(s@) + 1) as nat,
                    |k: int| (dash_start(s@) + k) as u32,
                ));
            }
            Ok(out)
        } else {
            // Single address form.
            match parse_ipv4_bytes(s) {
                Some(a) => {
                    let mut out: Vec<u32> = Vec::new();
                    out.push(a);
                    proof {
                        assert(out@ =~= seq![a]);
                    }
                    Ok(out)
                },
                None => Err(MinerError::InvalidRange),
            }
        }
    }
}

/// Expand an address range string (see `parse_ip_range_bytes`).
pub fn parse_ip_range(range: &str) -> (r: MinerResult<Vec<u32>>)
    ensures
        r is Ok == range_expand(range.spec_bytes()) is Some,
        r matches Ok(v) ==> v@ == range_expand(range.spec_bytes()).unwrap(),
        r matches Err(e) ==> e is InvalidRange,
{
    parse_ip_range_bytes(range.as_bytes())
}

/// The dotted-quad digit string of a 32-bit address value.
pub open spec fn ipv4_str_bytes(a: int) -> Seq<u8> {
    u64_dec_bytes(a / 0x1000000) + seq![46u8] + u64_dec_bytes((a / 0x10000) % 256) + seq![46u8]
        + u64_dec_bytes((a / 256) % 256) + seq![46u8] + u64_dec_bytes(a % 256)
}

/// Format a 32-bit address value as its dotted-quad string.
pub fn ipv4_to_string(a: u32) -> (r: String)
    ensures
        r@.len() == ipv4_str_bytes(a as int).len(),
        forall|i: int| 0 <= i < r@.len() ==> #[trigger] r@[i] == ipv4_str_bytes(a as int)[i] as char,
{
    let mut v: Vec<u8> = Vec::new();
    push_u64_dec((a / 0x1000000) as u64, &mut v);
    v.push(46);
    push_u64_dec(((a / 0x10000) % 256) as u64, &mut v);
    v.push(46);
    push_u64_dec(((a / 256) % 256) as u64, &mut v);
    v.push(46);
    push_u64_dec((a % 256) as u64, &mut v);
    proof {
        assert(v@ =~= ipv4_str_bytes(a as int));
        lemma_u64_dec_bytes_digits(a as int / 0x1000000);
        lemma_u64_dec_bytes_digits((a as int / 0x10000) % 256);
        lemma_u64_dec_bytes_digits((a as int / 256) % 256);
        lemma_u64_dec_bytes_digits(a as int % 256);
        assert(all_ascii(v@));
    }
    ascii_to_string(&v)
}

} // verus!
