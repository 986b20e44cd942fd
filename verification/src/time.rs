//! Timestamp normalization: a remote response carries a timestamp as whole
//! seconds plus sub-second nanoseconds since the Unix epoch; the adapter
//! reports it as epoch milliseconds, and an absent or unrepresentable
//! timestamp is a hard error, never defaulted.

use vstd::prelude::*;

use crate::error::Error;

verus! {

/// A timestamp as it stands in a remote response: whole seconds since the
/// Unix epoch and the sub-second nanoseconds, which a well-formed response
/// keeps below one billion.
#[derive(Clone, Copy, Debug, PartialEq, Eq, Structural)]
pub struct WireTime {
    pub seconds: i64,
    pub subsec_nanos: u32,
}

/// The epoch milliseconds a wire timestamp denotes, sub-millisecond
/// precision truncated.
pub open spec fn spec_epoch_millis(t: WireTime) -> int {
    t.seconds * 1000 + t.subsec_nanos as int / 1_000_000
}

/// Whether the calendar library can represent this many epoch milliseconds
/// as a calendar timestamp; exactly its in-range values.
pub uninterp spec fn calendar_representable(millis: i64) -> bool;

/// Relies on `chrono::DateTime::<Utc>::from_timestamp_millis`: `Some` exactly
/// on its in-range arguments, a function of the argument alone.
#[verifier::external_body]
fn millis_in_calendar_range(millis: i64) -> (r: bool)
    ensures
        r == calendar_representable(millis),
{
    chrono::DateTime::<chrono::Utc>::from_timestamp_millis(millis).is_some()
}

/// Relies on `aws_smithy_types::DateTime::to_millis` (the value built with
/// `DateTime::from_secs_and_nanos`): the epoch milliseconds of the timestamp,
/// failing exactly when that value leaves `i64`.
#[verifier::external_body]
fn epoch_millis(seconds: i64, subsec_nanos: u32) -> (r: Option<i64>)
    requires
        subsec_nanos < 1_000_000_000,
    ensures
        r matches Some(m) ==> m == seconds * 1000 + subsec_nanos as int / 1_000_000,
        r is None <==> !(i64::MIN <= seconds * 1000 + subsec_nanos as int / 1_000_000
            <= i64::MAX),
{
    aws_smithy_types::DateTime::from_secs_and_nanos(seconds, subsec_nanos).to_millis().ok()
}

/// What normalizing an optional wire timestamp yields.
pub open spec fn spec_last_modified(lm: Option<WireTime>) -> Result<i64, Error> {
    match lm {
        None => Err(Error::Unknown),
        Some(t) => if t.subsec_nanos >= 1_000_000_000 {
            Err(Error::S3Conversion)
        } else if !(i64::MIN <= spec_epoch_millis(t) <= i64::MAX) {
            Err(Error::S3Conversion)
        } else if !calendar_representable(spec_epoch_millis(t) as i64) {
            Err(Error::S3Conversion)
        } else {
            Ok(spec_epoch_millis(t) as i64)
        },
    }
}

/// Normalizes the last-modified field of a response: absent is a hard error,
/// and so is a timestamp the millisecond or calendar form cannot hold.
pub fn last_modified_millis(lm: Option<WireTime>) -> (r: Result<i64, Error>)
    ensures
        r == spec_last_modified(lm),
{
    match lm {
        None => Err(Error::Unknown),
        Some(t) => {
            if t.subsec_nanos >= 1_000_000_000 {
                return Err(Error::S3Conversion);
            }
            match epoch_millis(t.seconds, t.subsec_nanos) {
                None => Err(Error::S3Conversion),
                Some(m) => {
                    if millis_in_calendar_range(m) {
                        Ok(m)
                    } else {
                        Err(Error::S3Conversion)
                    }
                },
            }
        },
    }
}

} // verus!
