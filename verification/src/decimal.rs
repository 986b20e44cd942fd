//! Decimal numerals over bytes: the formatting and parsing of the unsigned
//! byte offsets that appear in range headers.

use vstd::prelude::*;

verus! {

/// The canonical decimal numeral of `n`, most significant digit first.
pub open spec fn spec_digits(n: nat) -> Seq<u8>
    decreases n,
{
    if n < 10 {
        seq![(48 + n) as u8]
    } else {
        spec_digits(n / 10).push((48 + n % 10) as u8)
    }
}

pub open spec fn is_digit(b: u8) -> bool {
    48 <= b <= 57
}

pub open spec fn digit_val(b: u8) -> nat {
    (b - 48) as nat
}

pub open spec fn all_digits(s: Seq<u8>) -> bool {
    forall|i: int| 0 <= i < s.len() ==> is_digit(#[trigger] s[i])
}

/// The value of a digit string, read left to right.
pub open spec fn spec_digits_val(s: Seq<u8>) -> nat
    decreases s.len(),
{
    if s.len() == 0 {
        0
    } else {
        spec_digits_val(s.drop_last()) * 10 + digit_val(s.last())
    }
}

/// What parsing a decimal numeral into a `u64` yields: a value exactly for a
/// nonempty, all-digit string whose value fits.
pub open spec fn spec_parse_u64(s: Seq<u8>) -> Option<u64> {
    if s.len() > 0 && all_digits(s) && spec_digits_val(s) <= u64::MAX {
        Some(spec_digits_val(s) as u64)
    } else {
        None
    }
}

/// The numeral of `n` is nonempty, all digits, and reads back as `n`.
pub proof fn lemma_digits_of(n: nat)
    ensures
        spec_digits(n).len() >= 1,
        all_digits(spec_digits(n)),
        spec_digits_val(spec_digits(n)) == n,
    decreases n,
{
    if n < 10 {
        let s = spec_digits(n);
        assert(s =~= seq![(48 + n) as u8]);
        assert(s.drop_last() =~= Seq::<u8>::empty());
        assert(spec_digits_val(s) == spec_digits_val(s.drop_last()) * 10 + digit_val(s.last()));
        assert(s.last() == (48 + n) as u8);
        assert(digit_val(s.last()) == n);
    } else {
        lemma_digits_of(n / 10);
        let s = spec_digits(n / 10);
        let w = s.push((48 + n % 10) as u8);
        assert(spec_digits(n) == w);
        assert(w.drop_last() =~= s);
        assert(w.last() == (48 + n % 10) as u8);
        assert(digit_val(w.last()) == n % 10);
        assert(spec_digits_val(w) == spec_digits_val(s) * 10 + digit_val(w.last()));
        assert(n / 10 * 10 + n % 10 == n) by (nonlinear_arith);
    }
}

/// Reading a prefix of a digit string never yields a larger value than the
/// whole string.
proof fn lemma_digits_val_prefix(s: Seq<u8>, i: int)
    requires
        0 <= i <= s.len(),
    ensures
        spec_digits_val(s.take(i)) <= spec_digits_val(s),
    decreases s.len(),
{
    if i == s.len() {
        assert(s.take(i) =~= s);
    } else if s.len() > 0 {
        assert(s.drop_last().take(i) =~= s.take(i));
        lemma_digits_val_prefix(s.drop_last(), i);
    }
}

fn format_digits(n: u64, v: &mut Vec<u8>)
    ensures
        final(v)@ == old(v)@ + spec_digits(n as nat),
    decreases n,
{
    if n < 10 {
        v.push(48 + n as u8);
        proof {
            assert(old(v)@ + spec_digits(n as nat) =~= old(v)@.push((48 + n as nat) as u8));
        }
    } else {
        let ghost mid = v@ + spec_digits((n / 10) as nat);
        format_digits(n / 10, v);
        v.push(48 + (n % 10) as u8);
        proof {
            assert(v@ =~= old(v)@ + spec_digits(n as nat));
        }
    }
}

/// The decimal numeral of `n` as bytes.
pub fn format_u64(n: u64) -> (v: Vec<u8>)
    ensures
        v@ == spec_digits(n as nat),
{
    let mut v: Vec<u8> = Vec::new();
    format_digits(n, &mut v);
    proof {
        assert(v@ =~= spec_digits(n as nat));
    }
    v
}

/// Parses `s[from..to]` as a decimal `u64`; `None` exactly where the range is
/// empty, holds a non-digit, or its value leaves `u64`.
pub fn parse_u64_range(s: &[u8], from: usize, to: usize) -> (r: Option<u64>)
    requires
        from <= to <= s@.len(),
    ensures
        r == spec_parse_u64(s@.subrange(from as int, to as int)),
{
    let ghost digits = s@.subrange(from as int, to as int);
    if from == to {
        return None;
    }
    let mut acc: u64 = 0;
    let mut i: usize = from;
    while i < to
        invariant
            from <= i <= to <= s@.len(),
            digits == s@.subrange(from as int, to as int),
            all_digits(digits.take(i - from)),
            acc == spec_digits_val(digits.take(i - from)),
        decreases to - i,
    {
        let b = s[i];
        if b < 48 || b > 57 {
            proof {
                assert(digits[i - from] == b);
            }
            return None;
        }
        let d: u64 = (b - 48) as u64;
        if acc > u64::MAX / 10 {
            proof {
                assert(spec_digits_val(digits.take(i - from + 1)) > u64::MAX) by {
                    assert(digits.take(i - from + 1).drop_last() =~= digits.take(i - from));
                }
                lemma_digits_val_prefix(digits, i - from + 1);
            }
            return None;
        }
        let shifted: u64 = acc * 10;
        if d > u64::MAX - shifted {
            proof {
                assert(spec_digits_val(digits.take(i - from + 1)) > u64::MAX) by {
                    assert(digits.take(i - from + 1).drop_last() =~= digits.take(i - from));
                }
                lemma_digits_val_prefix(digits, i - from + 1);
            }
            return None;
        }
        acc = shifted + d;
        proof {
            assert(digits.take(i - from + 1).drop_last() =~= digits.take(i - from));
            assert(digits.take(i - from + 1).last() == b);
        }
        i = i + 1;
    }
    proof {
        assert(digits.take(to - from) =~= digits);
    }
    Some(acc)
}

} // verus!
