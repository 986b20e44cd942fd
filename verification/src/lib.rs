//! Translation core of an object-store adapter for an S3-style remote:
//! conditional-request construction, response-metadata normalization, the
//! multipart-upload lifecycle, delimiter listing, and the error taxonomy.
//! The asynchronous wire client around it hands this crate plain values and
//! receives plain values back.

pub mod decimal;
pub mod error;
pub mod list;
pub mod meta;
pub mod multipart;
pub mod range;
pub mod request;
pub mod time;

use vstd::prelude::*;

verus! {

/// Identity string under which every failure of this store is reported.
pub fn store_id() -> (s: &'static str)
    ensures
        s@ == "S3"@,
{
    "S3"
}

} // verus!
