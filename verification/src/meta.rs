//! Response-metadata normalization: reshaping the fields of a remote get,
//! head, or listing entry into the generic object-metadata form. Every field
//! the adapter reads is required; absence is an error, never a default.

use vstd::prelude::*;

use crate::error::Error;
use crate::range::{
    lemma_range_header_roundtrip, parse_content_range, spec_content_range, spec_range_header,
};
use crate::time::{last_modified_millis, spec_last_modified, WireTime};

verus! {

/// Metadata of one object as the generic interface reports it. The
/// last-modified instant is carried as epoch milliseconds; this backend never
/// fills `version`.
#[derive(Debug, PartialEq, Eq)]
pub struct ObjectMeta {
    pub location: String,
    pub last_modified: i64,
    pub size: u64,
    pub e_tag: Option<String>,
    pub version: Option<String>,
}

/// The metadata fields of a remote get or head response, as plain values.
#[derive(Debug, PartialEq, Eq)]
pub struct ObjectAttrs {
    pub last_modified: Option<WireTime>,
    pub content_length: i64,
    pub e_tag: Option<String>,
}

/// One entry of a remote listing response, as plain values.
#[derive(Debug, PartialEq, Eq)]
pub struct ListEntry {
    pub key: Option<String>,
    pub last_modified: Option<WireTime>,
    pub size: i64,
    pub e_tag: Option<String>,
}

/// What normalizing response attributes into metadata yields: the timestamp
/// must normalize and the reported length must be a byte count.
pub open spec fn spec_meta(location: String, attrs: ObjectAttrs) -> Result<ObjectMeta, Error> {
    match spec_last_modified(attrs.last_modified) {
        Err(e) => Err(e),
        Ok(ms) => if attrs.content_length < 0 {
            Err(Error::Unknown)
        } else {
            Ok(
                ObjectMeta {
                    location,
                    last_modified: ms,
                    size: attrs.content_length as u64,
                    e_tag: attrs.e_tag,
                    version: None,
                },
            )
        },
    }
}

/// Normalizes a head response. A head is this and nothing more.
pub fn meta_from_attrs(location: String, attrs: ObjectAttrs) -> (r: Result<ObjectMeta, Error>)
    ensures
        r == spec_meta(location, attrs),
{
    let ms = match last_modified_millis(attrs.last_modified) {
        Ok(ms) => ms,
        Err(e) => {
            return Err(e);
        },
    };
    if attrs.content_length < 0 {
        return Err(Error::Unknown);
    }
    Ok(
        ObjectMeta {
            location,
            last_modified: ms,
            size: attrs.content_length as u64,
            e_tag: attrs.e_tag,
            version: None,
        },
    )
}

/// What finishing a get yields: normalized metadata plus the served range,
/// parsed from a content-range header the response must carry.
pub open spec fn spec_finish_get(
    location: String,
    attrs: ObjectAttrs,
    content_range: Option<Vec<u8>>,
) -> Result<(ObjectMeta, (u64, u64)), Error> {
    match spec_meta(location, attrs) {
        Err(e) => Err(e),
        Ok(meta) => match content_range {
            None => Err(Error::Unknown),
            Some(h) => match spec_content_range(h@) {
                None => Err(Error::ParseInt),
                Some(range) => Ok((meta, range)),
            },
        },
    }
}

/// Normalizes a get response: the metadata as a head would report it, and
/// the served byte range. A response without a content-range header is a
/// missing-metadata error, not a silent whole-object default.
pub fn finish_get(
    location: String,
    attrs: ObjectAttrs,
    content_range: Option<Vec<u8>>,
) -> (r: Result<(ObjectMeta, (u64, u64)), Error>)
    ensures
        r == spec_finish_get(location, attrs, content_range),
{
    let meta = match meta_from_attrs(location, attrs) {
        Ok(meta) => meta,
        Err(e) => {
            return Err(e);
        },
    };
    match content_range {
        None => Err(Error::Unknown),
        Some(h) => match parse_content_range(h.as_slice()) {
            Err(e) => Err(e),
            Ok(range) => Ok((meta, range)),
        },
    }
}

/// What normalizing one listing entry yields: an entry without a key is a
/// missing-field error; the rest normalizes as a head response does.
pub open spec fn spec_meta_from_entry(e: ListEntry) -> Result<ObjectMeta, Error> {
    match e.key {
        None => Err(Error::Unknown),
        Some(key) => spec_meta(
            key,
            ObjectAttrs { last_modified: e.last_modified, content_length: e.size, e_tag: e.e_tag },
        ),
    }
}

/// Normalizes one listing entry.
pub fn meta_from_entry(e: ListEntry) -> (r: Result<ObjectMeta, Error>)
    ensures
        r == spec_meta_from_entry(e),
{
    match e.key {
        None => Err(Error::Unknown),
        Some(key) => meta_from_attrs(
            key,
            ObjectAttrs { last_modified: e.last_modified, content_length: e.size, e_tag: e.e_tag },
        ),
    }
}

/// A ranged get whose response carries the very content-range header the
/// adapter sent for `[start, end)` reports exactly the range `[start, end)`
/// back to the caller, and that range spans exactly `end - start` bytes.
pub proof fn lemma_ranged_get_reports_request(
    location: String,
    attrs: ObjectAttrs,
    header: Vec<u8>,
    start: u64,
    end: u64,
)
    requires
        header@ == spec_range_header(start, end),
        spec_meta(location, attrs) is Ok,
    ensures
        spec_finish_get(location, attrs, Some(header)) matches Ok(p) && p.1 == (start, end),
{
    lemma_range_header_roundtrip(start, end);
}

/// Head and get over the same remote object state report the same size,
/// entity tag, and last-modified value.
pub proof fn lemma_head_get_agree(
    location: String,
    attrs: ObjectAttrs,
    content_range: Option<Vec<u8>>,
    meta: ObjectMeta,
    range: (u64, u64),
    head_meta: ObjectMeta,
)
    requires
        spec_finish_get(location, attrs, content_range) == Ok::<_, Error>((meta, range)),
        spec_meta(location, attrs) == Ok::<_, Error>(head_meta),
    ensures
        meta.size == head_meta.size,
        meta.e_tag == head_meta.e_tag,
        meta.last_modified == head_meta.last_modified,
{
}

} // verus!
