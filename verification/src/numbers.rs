//! Fixed-point parsing of the numeral strings that miners report.
//!
//! Hashrates and temperatures arrive as decimal strings. The library holds
//! them in thousandths of a unit (milli-TH/s, milli-degrees Celsius), so a
//! decimal numeral is parsed into an integer count of thousandths,
//! truncating digits beyond the third fractional place. Numerals with more
//! than fifteen integer digits are rejected as out of range.

use vstd::prelude::*;

verus! {

/// ASCII decimal digit.
pub open spec fn is_ascii_digit(b: u8) -> bool {
    48 <= b && b <= 57
}

pub open spec fn all_digits(s: Seq<u8>) -> bool {
    forall|i: int| 0 <= i < s.len() ==> is_ascii_digit(#[trigger] s[i])
}

/// Value of a string of decimal digits, most significant first.
pub open spec fn digits_val(s: Seq<u8>) -> int
    decreases s.len(),
{
    if s.len() == 0 {
        0
    } else {
        digits_val(s.drop_last()) * 10 + (s.last() - 48)
    }
}

pub open spec fn pow10(k: nat) -> int
    decreases k,
{
    if k == 0 {
        1
    } else {
        10 * pow10((k - 1) as nat)
    }
}

pub proof fn lemma_pow10_pos(k: nat)
    ensures
        pow10(k) >= 1,
    decreases k,
{
    if k > 0 {
        lemma_pow10_pos((k - 1) as nat);
    }
}

pub proof fn lemma_pow10_mono(a: nat, b: nat)
    requires
        a <= b,
    ensures
        pow10(a) <= pow10(b),
    decreases b,
{
    if a < b {
        lemma_pow10_mono(a, (b - 1) as nat);
        lemma_pow10_pos((b - 1) as nat);
    }
}

pub proof fn lemma_digits_val_bound(s: Seq<u8>)
    requires
        all_digits(s),
    ensures
        0 <= digits_val(s) < pow10(s.len()),
    decreases s.len(),
{
    if s.len() > 0 {
        assert(all_digits(s.drop_last())) by {
            assert(forall|i: int|
                0 <= i < s.len() - 1 ==> #[trigger] s.drop_last()[i] == s[i]);
        }
        lemma_digits_val_bound(s.drop_last());
        assert(is_ascii_digit(s.last()));
    }
}

/// Index of the first `'.'` at or after `i`, or the length if none.
pub open spec fn dot_pos(s: Seq<u8>, i: int) -> int
    decreases s.len() - i,
{
    if 0 <= i < s.len() {
        if s[i] == 46 {
            i
        } else {
            dot_pos(s, i + 1)
        }
    } else {
        s.len() as int
    }
}

proof fn lemma_dot_pos_ge(s: Seq<u8>, i: int)
    requires
        0 <= i <= s.len(),
    ensures
        i <= dot_pos(s, i) <= s.len(),
    decreases s.len() - i,
{
    if i < s.len() && s[i] != 46 {
        lemma_dot_pos_ge(s, i + 1);
    }
}

proof fn lemma_dot_pos_skip(s: Seq<u8>, a: int, b: int)
    requires
        0 <= a <= b <= s.len(),
        forall|k: int| a <= k < b ==> s[k] != 46,
    ensures
        dot_pos(s, a) == dot_pos(s, b),
    decreases b - a,
{
    if a < b {
        assert(s[a] != 46);
        lemma_dot_pos_skip(s, a + 1, b);
    }
}

/// Index of the first exponent marker (`e` or `E`) at or after `i`, or
/// the length if there is none.
pub open spec fn exp_pos(s: Seq<u8>, i: int) -> int
    decreases s.len() - i,
{
    if 0 <= i < s.len() {
        if s[i] == 101 || s[i] == 69 {
            i
        } else {
            exp_pos(s, i + 1)
        }
    } else {
        s.len() as int
    }
}

/// The integer-part digits of an unsigned decimal numeral.
pub open spec fn int_part(s: Seq<u8>) -> Seq<u8> {
    s.take(dot_pos(s, 0))
}

/// The fraction digits of an unsigned decimal numeral (empty when there is
/// no `'.'`).
pub open spec fn frac_part(s: Seq<u8>) -> Seq<u8> {
    if dot_pos(s, 0) < s.len() {
        s.skip(dot_pos(s, 0) + 1)
    } else {
        Seq::empty()
    }
}

/// An unsigned decimal numeral: integer digits, then optionally a dot and
/// fraction digits, with at least one digit in all. At most fifteen
/// integer digits are accepted, which keeps every value representable in
/// thousandths.
pub open spec fn dec_ok(s: Seq<u8>) -> bool {
    &&& all_digits(int_part(s))
    &&& all_digits(frac_part(s))
    &&& int_part(s).len() + frac_part(s).len() > 0
    &&& int_part(s).len() <= 15
}

/// Thousandths contributed by the fraction digits, truncated after three.
pub open spec fn frac_milli(f: Seq<u8>) -> int {
    if f.len() >= 3 {
        digits_val(f.take(3))
    } else if f.len() == 2 {
        digits_val(f) * 10
    } else if f.len() == 1 {
        digits_val(f) * 100
    } else {
        0
    }
}

/// Value of an unsigned decimal numeral in thousandths of a unit.
pub open spec fn dec_milli(s: Seq<u8>) -> int {
    digits_val(int_part(s)) * 1000 + frac_milli(frac_part(s))
}

pub proof fn lemma_frac_bounds(f: Seq<u8>)
    requires
        all_digits(f),
    ensures
        0 <= frac_milli(f) <= 999,
{
    if f.len() >= 3 {
        assert(all_digits(f.take(3))) by {
            assert(forall|i: int| 0 <= i < 3 ==> #[trigger] f.take(3)[i] == f[i]);
        }
        lemma_digits_val_bound(f.take(3));
        assert(pow10(3) == 1000) by {
            reveal_with_fuel(pow10, 4);
        }
    } else if f.len() == 2 {
        lemma_digits_val_bound(f);
        assert(pow10(2) == 100) by {
            reveal_with_fuel(pow10, 3);
        }
    } else if f.len() == 1 {
        lemma_digits_val_bound(f);
        assert(pow10(1) == 10) by {
            reveal_with_fuel(pow10, 2);
        }
    }
}

proof fn lemma_frac_step(pre: Seq<u8>, d: u8)
    requires
        all_digits(pre),
        is_ascii_digit(d),
    ensures
        pre.len() == 0 ==> frac_milli(pre.push(d)) == (d - 48) * 100,
        pre.len() == 1 ==> frac_milli(pre.push(d)) == frac_milli(pre) + (d - 48) * 10,
        pre.len() == 2 ==> frac_milli(pre.push(d)) == frac_milli(pre) + (d - 48),
        pre.len() >= 3 ==> frac_milli(pre.push(d)) == frac_milli(pre),
{
    let post = pre.push(d);
    assert(post.last() == d);
    if pre.len() == 0 {
        assert(post.drop_last() =~= pre);
        assert(digits_val(pre) == 0);
        assert(digits_val(post) == d - 48);
    } else if pre.len() == 1 {
        assert(post.drop_last() =~= pre);
        assert(digits_val(post) == digits_val(pre) * 10 + (d - 48));
    } else if pre.len() == 2 {
        assert(post.take(3) =~= post);
        assert(post.drop_last() =~= pre);
        assert(digits_val(post) == digits_val(pre) * 10 + (d - 48));
    } else {
        assert(post.take(3) =~= pre.take(3));
    }
}

fn digit_exec(b: u8) -> (r: bool)
    ensures
        r == is_ascii_digit(b),
{
    48 <= b && b <= 57
}

/// Parse an unsigned decimal numeral into thousandths of a unit.
/// Succeeds exactly on the numerals that `dec_ok` admits, and then
/// returns exactly `dec_milli` of the input.
pub fn parse_dec_milli(s: &[u8]) -> (r: Option<u64>)
    ensures
        r is Some == dec_ok(s@),
        r matches Some(v) ==> v == dec_milli(s@),
{
    let n = s.len();
    let mut i: usize = 0;
    let mut ival: u64 = 0;
    while i < n && digit_exec(s[i])
        invariant
            n == s@.len(),
            0 <= i <= n,
            all_digits(s@.take(i as int)),
            i <= 15 ==> ival == digits_val(s@.take(i as int)),
        decreases n - i,
    {
        proof {
            assert(s@.take(i + 1).drop_last() =~= s@.take(i as int));
            assert(s@.take(i + 1).last() == s@[i as int]);
            if i < 15 {
                lemma_digits_val_bound(s@.take(i as int));
                lemma_pow10_mono(i as nat, 14);
                assert(pow10(14) == 100000000000000) by {
                    reveal_with_fuel(pow10, 15);
                }
            }
        }
        if i < 15 {
            ival = ival * 10 + ((s[i] - 48) as u64);
        }
        i = i + 1;
        proof {
            assert(all_digits(s@.take(i as int))) by {
                assert(forall|k: int|
                    0 <= k < i ==> #[trigger] s@.take(i as int)[k] == s@[k]);
            }
        }
    }
    proof {
        assert forall|k: int| 0 <= k < i implies s@[k] != 46 by {
            assert(s@.take(i as int)[k] == s@[k]);
            assert(is_ascii_digit(s@.take(i as int)[k]));
        }
        lemma_dot_pos_skip(s@, 0, i as int);
        lemma_dot_pos_ge(s@, i as int);
    }
    if i > 15 {
        proof {
            // The first dot, if any, lies at or past `i`, so the integer
            // part has more than fifteen digits.
            assert(int_part(s@).len() > 15);
        }
        return None;
    }
    if i == n {
        proof {
            assert(dot_pos(s@, 0) == n);
            assert(int_part(s@) =~= s@);
            assert(frac_part(s@) =~= Seq::<u8>::empty());
        }
        if n == 0 {
            return None;
        }
        proof {
            lemma_digits_val_bound(s@);
            lemma_pow10_mono(s@.len() as nat, 15);
            assert(pow10(15) == 1000000000000000) by {
                reveal_with_fuel(pow10, 16);
            }
        }
        return Some(ival * 1000);
    }
    if s[i] != 46 {
        proof {
            // The integer scan stopped on a byte that is neither digit
            // nor dot, so the integer part is not all digits.
            let d = dot_pos(s@, 0);
            assert(d == dot_pos(s@, i as int));
            assert(d > i) by {
                assert(s@[i as int] != 46);
                lemma_dot_pos_ge(s@, i + 1);
            }
            assert(int_part(s@)[i as int] == s@[i as int]);
            assert(!is_ascii_digit(s@[i as int]));
        }
        return None;
    }
    proof {
        assert(dot_pos(s@, 0) == i);
        assert(int_part(s@) =~= s@.take(i as int));
    }
    let fstart = i + 1;
    let mut j: usize = fstart;
    let mut fval: u64 = 0;
    while j < n && digit_exec(s[j])
        invariant
            n == s@.len(),
            i < n,
            fstart == i + 1,
            fstart <= j <= n,
            all_digits(s@.subrange(fstart as int, j as int)),
            fval == frac_milli(s@.subrange(fstart as int, j as int)),
            fval <= 999,
        decreases n - j,
    {
        proof {
            let pre = s@.subrange(fstart as int, j as int);
            assert(s@.subrange(fstart as int, j + 1) =~= pre.push(s@[j as int]));
            lemma_frac_step(pre, s@[j as int]);
            lemma_frac_bounds(pre);
        }
        if j == fstart {
            fval = ((s[j] - 48) as u64) * 100;
        } else if j == fstart + 1 {
            fval = fval + ((s[j] - 48) as u64) * 10;
        } else if j == fstart + 2 {
            fval = fval + ((s[j] - 48) as u64);
        }
        j = j + 1;
        proof {
            assert(all_digits(s@.subrange(fstart as int, j as int))) by {
                assert(forall|k: int|
                    0 <= k < j - fstart ==> #[trigger] s@.subrange(
                        fstart as int,
                        j as int,
                    )[k] == s@[fstart + k]);
            }
            lemma_frac_bounds(s@.subrange(fstart as int, j as int));
        }
    }
    proof {
        assert(frac_part(s@) =~= s@.subrange(fstart as int, n as int));
    }
    if j != n {
        proof {
            // A non-digit inside the fraction: invalid.
            assert(frac_part(s@)[(j - fstart) as int] == s@[j as int]);
            assert(!is_ascii_digit(s@[j as int]));
        }
        return None;
    }
    if i == 0 && j == fstart {
        // A bare dot with no digits at all: invalid.
        return None;
    }
    proof {
        assert(s@.subrange(fstart as int, j as int) =~= frac_part(s@));
        lemma_digits_val_bound(int_part(s@));
        lemma_pow10_mono(int_part(s@).len() as nat, 15);
        assert(pow10(15) == 1000000000000000) by {
            reveal_with_fuel(pow10, 16);
        }
    }
    Some(ival * 1000 + fval)
}

} // verus!
