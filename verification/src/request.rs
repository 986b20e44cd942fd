//! Conditional-request construction: the adapter carries into a protocol
//! request exactly the conditional fields the caller supplied, renders a
//! bounded byte range in the wire syntax, and builds the fully qualified
//! source descriptor of a server-side copy.

use vstd::prelude::*;
use vstd::string::StringExecFns;

use crate::range::{range_header, spec_range_header};

verus! {

/// The conditions a caller may attach to a get. Entity tags are opaque
/// strings carried verbatim; the two instants are epoch milliseconds; the
/// range is a bounded half-open `[start, end)`.
#[derive(Debug, PartialEq, Eq)]
pub struct GetOptions {
    pub if_match: Option<String>,
    pub if_none_match: Option<String>,
    pub if_modified_since: Option<i64>,
    pub if_unmodified_since: Option<i64>,
    pub range: Option<(u64, u64)>,
}

/// A fully built protocol get request: plain fields for the wire client to
/// send. A conditional field is present exactly where the caller supplied
/// one; the range stands in its wire syntax.
#[derive(Debug, PartialEq, Eq)]
pub struct GetRequest {
    pub bucket: String,
    pub key: String,
    pub if_match: Option<String>,
    pub if_none_match: Option<String>,
    pub if_modified_since: Option<i64>,
    pub if_unmodified_since: Option<i64>,
    pub range: Option<Vec<u8>>,
}

/// Builds the protocol get request for `key` under `options`.
pub fn build_get_request(bucket: String, key: String, options: GetOptions) -> (r: GetRequest)
    ensures
        r.bucket == bucket,
        r.key == key,
        r.if_match == options.if_match,
        r.if_none_match == options.if_none_match,
        r.if_modified_since == options.if_modified_since,
        r.if_unmodified_since == options.if_unmodified_since,
        r.range matches Some(h) <==> options.range is Some,
        options.range matches Some((s, e)) ==> r.range matches Some(h) && h@
            == spec_range_header(s, e),
{
    let range = match options.range {
        Some((s, e)) => Some(range_header(s, e)),
        None => None,
    };
    GetRequest {
        bucket,
        key,
        if_match: options.if_match,
        if_none_match: options.if_none_match,
        if_modified_since: options.if_modified_since,
        if_unmodified_since: options.if_unmodified_since,
        range,
    }
}

/// The fully qualified source descriptor of a server-side copy,
/// `<bucket>/<from>`.
pub fn copy_source(bucket: &str, from: &str) -> (r: String)
    ensures
        r@ == bucket@ + "/"@ + from@,
{
    let mut r = String::new();
    r.append(bucket);
    r.append("/");
    r.append(from);
    proof {
        assert(r@ =~= bucket@ + "/"@ + from@);
    }
    r
}

} // verus!
