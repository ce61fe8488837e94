//! Hashrate and temperature readings parsed from miner strings.
//!
//! A hashrate may arrive as a suffixed string such as `"13.5T"` or
//! `"13500G"`; both are converted to thousandths of a TH/s. A temperature
//! field may arrive as a single numeral or as a dash-delimited list such
//! as `"45-45-62-62"`; the non-positive and unparsable entries are
//! discarded and the minimum and maximum of the rest are reported, in
//! thousandths of a degree.

use vstd::prelude::*;
use vstd::string::StringSliceAdditionalSpecFns;
use crate::btext::{btrimmed, trim_bounds, copy_range};
use crate::error::{MinerError, MinerResult};
use crate::numbers::{dec_ok, dec_milli, parse_dec_milli, int_part, frac_part,
    lemma_digits_val_bound, lemma_pow10_mono, pow10};

verus! {

/// The magnitude digits of a possibly signed numeral.
pub open spec fn magnitude_of(t: Seq<u8>) -> Seq<u8> {
    if t.len() > 0 && t[0] == 45 {
        t.drop_first()
    } else {
        t
    }
}

pub open spec fn is_negative(t: Seq<u8>) -> bool {
    t.len() > 0 && t[0] == 45
}

/// Whether a hashrate string is well formed: optional whitespace, an
/// optionally signed decimal numeral, and a `T` or `G` unit suffix.
pub open spec fn hashrate_ok(s: Seq<u8>) -> bool {
    let t = btrimmed(s);
    let num = t.drop_last();
    t.len() > 0 && (t.last() == 84 || t.last() == 71) && dec_ok(magnitude_of(num))
}

/// Value of a well-formed hashrate string in thousandths of a TH/s:
/// a `T` value is taken as is, a `G` value is divided by a thousand.
pub open spec fn hashrate_milli(s: Seq<u8>) -> int {
    let t = btrimmed(s);
    let num = t.drop_last();
    let m = dec_milli(magnitude_of(num));
    let v = if t.last() == 84 {
        m
    } else {
        m / 1000
    };
    if is_negative(num) {
        -v
    } else {
        v
    }
}

/// Every value a well-formed numeral can denote fits comfortably in a
/// 64-bit signed count of thousandths.
pub proof fn lemma_dec_milli_range(s: Seq<u8>)
    requires
        dec_ok(s),
    ensures
        0 <= dec_milli(s) < 1000000000000000000 + 1000,
{
    lemma_digits_val_bound(int_part(s));
    lemma_pow10_mono(int_part(s).len() as nat, 15);
    assert(pow10(15) == 1000000000000000) by {
        reveal_with_fuel(pow10, 16);
    }
    crate::numbers::lemma_frac_bounds(frac_part(s));
}

/// Parse a hashrate string such as `"13.5T"` or `"13500G"` into
/// thousandths of a TH/s. A string without a recognized unit suffix, or
/// whose numeral cannot be read, is rejected as `InvalidResponse`.
pub fn parse_hashrate_bytes(s: &[u8]) -> (r: MinerResult<i64>)
    ensures
        r is Ok == hashrate_ok(s@),
        r matches Ok(v) ==> v == hashrate_milli(s@),
        r matches Err(e) ==> e is InvalidResponse,
{
    let (lo, hi) = trim_bounds(s);
    if lo == hi {
        return Err(MinerError::InvalidResponse);
    }
    let ghost t = btrimmed(s@);
    assert(t == s@.subrange(lo as int, hi as int));
    let suffix = s[hi - 1];
    assert(suffix == t.last());
    if suffix != 84 && suffix != 71 {
        return Err(MinerError::InvalidResponse);
    }
    let ghost num = t.drop_last();
    assert(num =~= s@.subrange(lo as int, hi - 1));
    let (neg, mstart) = if hi - 1 > lo && s[lo] == 45 {
        (true, lo + 1)
    } else {
        (false, lo)
    };
    proof {
        if num.len() > 0 && num[0] == 45 {
            assert(magnitude_of(num) =~= s@.subrange(lo + 1, hi - 1));
        } else {
            assert(magnitude_of(num) =~= s@.subrange(lo as int, hi - 1));
        }
        assert(neg == is_negative(num));
        assert(magnitude_of(num) =~= s@.subrange(mstart as int, hi - 1));
    }
    let mag = copy_range(s, mstart, hi - 1);
    match parse_dec_milli(mag.as_slice()) {
        None => Err(MinerError::InvalidResponse),
        Some(m) => {
            proof {
                lemma_dec_milli_range(mag@);
            }
            let v: i64 = if suffix == 84 {
                m as i64
            } else {
                (m / 1000) as i64
            };
            if neg {
                Ok(-v)
            } else {
                Ok(v)
            }
        },
    }
}

/// Parse a hashrate string (see `parse_hashrate_bytes`); the value is in
/// thousandths of a TH/s.
pub fn parse_hashrate_string(s: &str) -> (r: MinerResult<i64>)
    ensures
        r is Ok == hashrate_ok(s.spec_bytes()),
        r matches Ok(v) ==> v == hashrate_milli(s.spec_bytes()),
        r matches Err(e) ==> e is InvalidResponse,
{
    parse_hashrate_bytes(s.as_bytes())
}

/// Value of one dash-delimited temperature segment: present only when the
/// segment is a well-formed numeral with a strictly positive value.
pub open spec fn seg_value(seg: Seq<u8>) -> Option<int> {
    if dec_ok(seg) && dec_milli(seg) > 0 {
        Some(dec_milli(seg))
    } else {
        None
    }
}

/// Merge one segment's value into the (min, max) of the following ones.
pub open spec fn seg_combine(v: Option<int>, rest: Option<(int, int)>) -> Option<(int, int)> {
    match v {
        None => rest,
        Some(x) => match rest {
            None => Some((x, x)),
            Some(p) => Some(
                (if x < p.0 { x } else { p.0 }, if x > p.1 { x } else { p.1 }),
            ),
        },
    }
}

/// Scan a dash-delimited temperature list from position `i`, with the
/// current segment's bytes accumulated in `cur`.
pub open spec fn temp_scan(s: Seq<u8>, i: int, cur: Seq<u8>) -> Option<(int, int)>
    decreases s.len() - i,
{
    if !(0 <= i < s.len()) {
        seg_combine(seg_value(cur), None)
    } else if s[i] == 45 {
        seg_combine(seg_value(cur), temp_scan(s, i + 1, Seq::empty()))
    } else {
        temp_scan(s, i + 1, cur.push(s[i]))
    }
}

/// The (min, max) temperature pair read from a dash-delimited list; both
/// absent when no segment is a positive numeral.
pub open spec fn temp_pair(s: Seq<u8>) -> Option<(int, int)> {
    temp_scan(s, 0, Seq::<u8>::empty())
}

fn seg_value_exec(s: &[u8], b: usize, i: usize) -> (r: Option<i64>)
    requires
        b <= i <= s@.len(),
    ensures
        r is Some == seg_value(s@.subrange(b as int, i as int)) is Some,
        r matches Some(v) ==> v == seg_value(s@.subrange(b as int, i as int)).unwrap(),
{
    let seg = copy_range(s, b, i);
    match parse_dec_milli(seg.as_slice()) {
        None => None,
        Some(m) => {
            proof {
                lemma_dec_milli_range(seg@);
            }
            if m > 0 {
                Some(m as i64)
            } else {
                None
            }
        },
    }
}

fn temp_scan_exec(s: &[u8], b: usize, i: usize) -> (r: Option<(i64, i64)>)
    requires
        b <= i <= s@.len(),
    ensures
        r is Some == temp_scan(s@, i as int, s@.subrange(b as int, i as int)) is Some,
        r matches Some(p) ==> {
            let q = temp_scan(s@, i as int, s@.subrange(b as int, i as int)).unwrap();
            p.0 == q.0 && p.1 == q.1
        },
    decreases s@.len() - i,
{
    let n = s.len();
    if i >= n {
        match seg_value_exec(s, b, i) {
            None => None,
            Some(x) => Some((x, x)),
        }
    } else if s[i] == 45 {
        let left = seg_value_exec(s, b, i);
        let rest = temp_scan_exec(s, i + 1, i + 1);
        proof {
            assert(s@.subrange(i + 1, i + 1) =~= Seq::<u8>::empty());
        }
        match left {
            None => rest,
            Some(x) => match rest {
                None => Some((x, x)),
                Some(p) => Some(
                    (if x < p.0 { x } else { p.0 }, if x > p.1 { x } else { p.1 }),
                ),
            },
        }
    } else {
        proof {
            assert(s@.subrange(b as int, i + 1) =~= s@.subrange(
                b as int,
                i as int,
            ).push(s@[i as int]));
        }
        temp_scan_exec(s, b, i + 1)
    }
}

/// Parse a dash-delimited temperature list such as `"40-40-60-60"` into
/// its (min, max) pair, in thousandths of a degree. Segments that are not
/// positive numerals are discarded; when none remains, both components
/// are absent.
pub fn parse_temp_string_bytes(s: &[u8]) -> (r: (Option<i64>, Option<i64>))
    ensures
        r.0 is Some == temp_pair(s@) is Some,
        r.1 is Some == temp_pair(s@) is Some,
        r.0 matches Some(mn) ==> mn == temp_pair(s@).unwrap().0,
        r.1 matches Some(mx) ==> mx == temp_pair(s@).unwrap().1,
{
    proof {
        assert(s@.subrange(0, 0) =~= Seq::<u8>::empty());
    }
    match temp_scan_exec(s, 0, 0) {
        None => (None, None),
        Some(p) => (Some(p.0), Some(p.1)),
    }
}

/// Parse a dash-delimited temperature list (see
/// `parse_temp_string_bytes`).
pub fn parse_temp_string(s: &str) -> (r: (Option<i64>, Option<i64>))
    ensures
        r.0 is Some == temp_pair(s.spec_bytes()) is Some,
        r.1 is Some == temp_pair(s.spec_bytes()) is Some,
        r.0 matches Some(mn) ==> mn == temp_pair(s.spec_bytes()).unwrap().0,
        r.1 matches Some(mx) ==> mx == temp_pair(s.spec_bytes()).unwrap().1,
{
    parse_temp_string_bytes(s.as_bytes())
}

} // verus!
