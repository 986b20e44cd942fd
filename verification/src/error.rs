//! Closed taxonomy of failures: one kind per remote call site, the two local
//! parsing failures, and a catch-all for protocol responses missing a field
//! the adapter requires. Remote failures arrive as plain [`Fault`] values and
//! are preserved verbatim inside the wrapping variant.

use vstd::prelude::*;

verus! {

/// Coarse classification of a remote failure, derived from its HTTP status.
/// A conditional get refused because the entity tag matched (not modified)
/// must stay distinguishable from a get against a missing object.
#[derive(Clone, Copy, Debug, PartialEq, Eq, Structural)]
pub enum FaultClass {
    NotModified,
    NotFound,
    PreconditionFailed,
    Other,
}

/// A remote failure as handed in by the wire client: the HTTP status if one
/// was received, the service error code if one was parsed, and the message.
/// All fields are carried through unchanged.
#[derive(Debug, PartialEq, Eq)]
pub struct Fault {
    pub status: Option<u16>,
    pub code: Option<String>,
    pub message: String,
}

pub open spec fn spec_classify(f: Fault) -> FaultClass {
    if f.status == Some(304u16) {
        FaultClass::NotModified
    } else if f.status == Some(404u16) {
        FaultClass::NotFound
    } else if f.status == Some(412u16) {
        FaultClass::PreconditionFailed
    } else {
        FaultClass::Other
    }
}

impl Fault {
    pub fn classify(&self) -> (c: FaultClass)
        ensures
            c == spec_classify(*self),
    {
        match self.status {
            Some(304u16) => FaultClass::NotModified,
            Some(404u16) => FaultClass::NotFound,
            Some(412u16) => FaultClass::PreconditionFailed,
            _ => FaultClass::Other,
        }
    }
}

/// Every failure the adapter can report: one variant per failing remote call,
/// the local timestamp-conversion and integer-parse failures, and `Unknown`
/// for a response missing a required field.
#[derive(Debug, PartialEq, Eq)]
pub enum Error {
    S3Read(Fault),
    S3Head(Fault),
    S3UploadPart(Fault),
    S3CreateMultipart(Fault),
    S3CompleteMultipart(Fault),
    S3PutObject(Fault),
    S3Conversion,
    ParseInt,
    Unknown,
}

/// Wrapping a read failure keeps the fault intact, so a refused conditional
/// get (not modified) is reported apart from a get on a missing object.
pub proof fn lemma_not_modified_distinct_from_not_found(matched: Fault, missing: Fault)
    requires
        matched.status == Some(304u16),
        missing.status == Some(404u16),
    ensures
        spec_classify(matched) != spec_classify(missing),
        Error::S3Read(matched) != Error::S3Read(missing),
{
}

} // verus!
