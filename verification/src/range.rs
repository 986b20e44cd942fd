//! The byte-range wire syntax `bytes=<start>-<end>`: building the request
//! header for a bounded range and parsing the response's content-range back
//! into a half-open numeric range. Any other shape is a parse error, never a
//! partial result.

use vstd::prelude::*;

use crate::decimal::{
    format_u64, is_digit, lemma_digits_of, parse_u64_range, spec_digits, spec_parse_u64,
};
use crate::error::Error;

verus! {

/// The bytes of the literal prefix `bytes=`.
pub open spec fn spec_range_prefix() -> Seq<u8> {
    seq![98u8, 121u8, 116u8, 101u8, 115u8, 61u8]
}

/// The wire form of the bounded range `[start, end)`.
pub open spec fn spec_range_header(start: u64, end: u64) -> Seq<u8> {
    spec_range_prefix() + spec_digits(start as nat) + seq![45u8] + spec_digits(end as nat)
}

/// Index of the first `-` at or after `i`, if any.
pub open spec fn first_dash_from(s: Seq<u8>, i: int) -> Option<int>
    decreases s.len() - i,
{
    if i < 0 || i >= s.len() {
        None
    } else if s[i] == 45 {
        Some(i)
    } else {
        first_dash_from(s, i + 1)
    }
}

/// What a content-range string denotes: `Some((start, end))` exactly for
/// `bytes=` followed by one numeral, one `-`, and one numeral.
pub open spec fn spec_content_range(s: Seq<u8>) -> Option<(u64, u64)> {
    if s.len() < 6 || s.take(6) != spec_range_prefix() {
        None
    } else {
        let body = s.skip(6);
        match first_dash_from(body, 0) {
            Some(d) => match (spec_parse_u64(body.take(d)), spec_parse_u64(
                body.skip(d + 1),
            )) {
                (Some(a), Some(b)) => Some((a, b)),
                _ => None,
            },
            None => None,
        }
    }
}

/// The range header for `[start, end)`, `bytes=<start>-<end>`.
pub fn range_header(start: u64, end: u64) -> (v: Vec<u8>)
    ensures
        v@ == spec_range_header(start, end),
{
    let mut v: Vec<u8> = Vec::new();
    v.push(98);
    v.push(121);
    v.push(116);
    v.push(101);
    v.push(115);
    v.push(61);
    let ghost pre = v@;
    let mut a = format_u64(start);
    v.append(&mut a);
    v.push(45);
    let mut b = format_u64(end);
    v.append(&mut b);
    proof {
        assert(pre =~= spec_range_prefix());
        assert(v@ =~= spec_range_header(start, end));
    }
    v
}

proof fn lemma_first_dash_found(s: Seq<u8>, j: int, d: int)
    requires
        0 <= j <= d < s.len(),
        forall|k: int| j <= k < d ==> s[k] != 45,
        s[d] == 45,
    ensures
        first_dash_from(s, j) == Some(d),
    decreases d - j,
{
    if j < d {
        lemma_first_dash_found(s, j + 1, d);
    }
}

proof fn lemma_first_dash_none(s: Seq<u8>, j: int)
    requires
        0 <= j,
        forall|k: int| j <= k < s.len() ==> s[k] != 45,
    ensures
        first_dash_from(s, j) is None,
    decreases s.len() - j,
{
    if j < s.len() {
        lemma_first_dash_none(s, j + 1);
    }
}

/// Parses a content-range string; anything but `bytes=<start>-<end>` is a
/// parse error.
pub fn parse_content_range(s: &[u8]) -> (r: Result<(u64, u64), Error>)
    ensures
        r matches Ok(p) ==> spec_content_range(s@) == Some(p),
        r matches Err(e) ==> spec_content_range(s@) is None && e == Error::ParseInt,
{
    let n = s.len();
    if n < 6 || s[0] != 98 || s[1] != 121 || s[2] != 116 || s[3] != 101 || s[4] != 115 || s[5]
        != 61 {
        proof {
            if s@.len() >= 6 {
                assert(s@.take(6) != spec_range_prefix());
            }
        }
        return Err(Error::ParseInt);
    }
    proof {
        assert(s@.take(6) =~= spec_range_prefix());
    }
    let ghost body = s@.skip(6);
    let mut i: usize = 6;
    while i < n
        invariant
            6 <= i <= n == s@.len(),
            body == s@.skip(6),
            s@.take(6) == spec_range_prefix(),
            forall|k: int| 0 <= k < i - 6 ==> body[k] != 45,
        decreases n - i,
    {
        if s[i] == 45 {
            proof {
                assert(body[i - 6] == 45);
                lemma_first_dash_found(body, 0, i - 6);
            }
            let a = parse_u64_range(s, 6, i);
            let b = parse_u64_range(s, i + 1, n);
            proof {
                assert(s@.subrange(6, i as int) =~= body.take(i - 6));
                assert(s@.subrange(i + 1, n as int) =~= body.skip(i - 6 + 1));
            }
            return match (a, b) {
                (Some(x), Some(y)) => Ok((x, y)),
                _ => Err(Error::ParseInt),
            };
        }
        proof {
            assert(body[i - 6] != 45);
        }
        i = i + 1;
    }
    proof {
        lemma_first_dash_none(body, 0);
    }
    Err(Error::ParseInt)
}

/// Requesting `[start, end)` and reading back the very header we sent yields
/// exactly `[start, end)`: the wire syntax round-trips.
pub proof fn lemma_range_header_roundtrip(start: u64, end: u64)
    ensures
        spec_content_range(spec_range_header(start, end)) == Some((start, end)),
{
    lemma_digits_of(start as nat);
    lemma_digits_of(end as nat);
    let ds = spec_digits(start as nat);
    let de = spec_digits(end as nat);
    let h = spec_range_header(start, end);
    assert(h.take(6) =~= spec_range_prefix());
    let body = h.skip(6);
    assert(body =~= ds + seq![45u8] + de);
    let d = ds.len() as int;
    assert forall|k: int| 0 <= k < d implies body[k] != 45 by {
        assert(body[k] == ds[k]);
        assert(is_digit(ds[k]));
    }
    assert(body[d] == 45);
    lemma_first_dash_found(body, 0, d);
    assert(body.take(d) =~= ds);
    assert(body.skip(d + 1) =~= de);
    assert(spec_parse_u64(ds) == Some(start));
    assert(spec_parse_u64(de) == Some(end));
}

} // verus!
