use s3_store::error::{Error, Fault, FaultClass};
use s3_store::list::{list_metas, split_with_delimiter};
use s3_store::meta::{finish_get, meta_from_attrs, meta_from_entry, ListEntry, ObjectAttrs, ObjectMeta};
use s3_store::range::{parse_content_range, range_header};
use s3_store::request::{build_get_request, copy_source, GetOptions};
use s3_store::store_id;
use s3_store::time::{last_modified_millis, WireTime};

fn some_time() -> Option<WireTime> {
    Some(WireTime { seconds: 1_700_000_000, subsec_nanos: 500_000_000 })
}

fn meta_with_key(key: &str) -> ObjectMeta {
    ObjectMeta {
        location: String::from(key),
        last_modified: 1_700_000_000_500,
        size: 3,
        e_tag: None,
        version: None,
    }
}

#[test]
fn store_identity() {
    assert_eq!(store_id(), "S3");
}

#[test]
fn content_range_parses_exact_form() {
    assert_eq!(parse_content_range(b"bytes=0-9"), Ok((0, 9)));
    assert_eq!(parse_content_range(b"bytes=120-4096"), Ok((120, 4096)));
}

#[test]
fn content_range_missing_prefix_is_parse_error() {
    assert_eq!(parse_content_range(b"0-9"), Err(Error::ParseInt));
    assert_eq!(parse_content_range(b"ranges=0-9"), Err(Error::ParseInt));
}

#[test]
fn content_range_non_numeric_is_parse_error() {
    assert_eq!(parse_content_range(b"bytes=a-9"), Err(Error::ParseInt));
    assert_eq!(parse_content_range(b"bytes=1-b"), Err(Error::ParseInt));
    assert_eq!(parse_content_range(b"bytes=1-2-3"), Err(Error::ParseInt));
    assert_eq!(parse_content_range(b"bytes=5"), Err(Error::ParseInt));
    assert_eq!(parse_content_range(b"bytes=-5"), Err(Error::ParseInt));
    assert_eq!(parse_content_range(b"bytes="), Err(Error::ParseInt));
    assert_eq!(parse_content_range(b""), Err(Error::ParseInt));
}

#[test]
fn content_range_overflow_is_parse_error() {
    assert_eq!(
        parse_content_range(b"bytes=18446744073709551616-2"),
        Err(Error::ParseInt)
    );
}

#[test]
fn range_header_wire_form() {
    assert_eq!(range_header(0, 100), b"bytes=0-100".to_vec());
    assert_eq!(range_header(7, 7), b"bytes=7-7".to_vec());
    assert_eq!(
        range_header(0, u64::MAX),
        b"bytes=0-18446744073709551615".to_vec()
    );
}

#[test]
fn range_header_round_trips() {
    assert_eq!(parse_content_range(&range_header(3, 7)), Ok((3, 7)));
    assert_eq!(parse_content_range(&range_header(0, 0)), Ok((0, 0)));
}

#[test]
fn last_modified_normalizes_to_millis() {
    assert_eq!(last_modified_millis(some_time()), Ok(1_700_000_000_500));
    assert_eq!(
        last_modified_millis(Some(WireTime { seconds: -1, subsec_nanos: 999_000_000 })),
        Ok(-1)
    );
}

#[test]
fn last_modified_absent_is_unknown() {
    assert_eq!(last_modified_millis(None), Err(Error::Unknown));
}

#[test]
fn last_modified_overflow_is_conversion_error() {
    assert_eq!(
        last_modified_millis(Some(WireTime { seconds: i64::MAX, subsec_nanos: 0 })),
        Err(Error::S3Conversion)
    );
}

#[test]
fn last_modified_outside_calendar_is_conversion_error() {
    // The milliseconds fit an i64 but lie outside the calendar range.
    assert_eq!(
        last_modified_millis(Some(WireTime { seconds: 10_000_000_000_000, subsec_nanos: 0 })),
        Err(Error::S3Conversion)
    );
}

#[test]
fn last_modified_bad_nanos_is_conversion_error() {
    assert_eq!(
        last_modified_millis(Some(WireTime { seconds: 0, subsec_nanos: 1_000_000_000 })),
        Err(Error::S3Conversion)
    );
}

#[test]
fn head_normalizes_all_fields() {
    let attrs = ObjectAttrs {
        last_modified: some_time(),
        content_length: 42,
        e_tag: Some(String::from("\"abc\"")),
    };
    let meta = meta_from_attrs(String::from("dir/file"), attrs).unwrap();
    assert_eq!(meta.location, "dir/file");
    assert_eq!(meta.last_modified, 1_700_000_000_500);
    assert_eq!(meta.size, 42);
    assert_eq!(meta.e_tag, Some(String::from("\"abc\"")));
    assert_eq!(meta.version, None);
}

#[test]
fn negative_content_length_is_unknown() {
    let attrs = ObjectAttrs { last_modified: some_time(), content_length: -1, e_tag: None };
    assert_eq!(meta_from_attrs(String::from("k"), attrs), Err(Error::Unknown));
}

#[test]
fn head_missing_timestamp_is_unknown() {
    let attrs = ObjectAttrs { last_modified: None, content_length: 1, e_tag: None };
    assert_eq!(meta_from_attrs(String::from("k"), attrs), Err(Error::Unknown));
}

#[test]
fn get_reports_served_range() {
    let attrs = ObjectAttrs { last_modified: some_time(), content_length: 10, e_tag: None };
    let (meta, range) =
        finish_get(String::from("k"), attrs, Some(b"bytes=5-15".to_vec())).unwrap();
    assert_eq!(range, (5, 15));
    assert_eq!(meta.size, 10);
}

#[test]
fn get_without_content_range_is_unknown() {
    let attrs = ObjectAttrs { last_modified: some_time(), content_length: 10, e_tag: None };
    assert_eq!(finish_get(String::from("k"), attrs, None), Err(Error::Unknown));
}

#[test]
fn get_with_malformed_content_range_is_parse_error() {
    let attrs = ObjectAttrs { last_modified: some_time(), content_length: 10, e_tag: None };
    assert_eq!(
        finish_get(String::from("k"), attrs, Some(b"5-15/20".to_vec())),
        Err(Error::ParseInt)
    );
}

#[test]
fn head_and_get_report_same_metadata() {
    let attrs = || ObjectAttrs {
        last_modified: some_time(),
        content_length: 9,
        e_tag: Some(String::from("\"v1\"")),
    };
    let head = meta_from_attrs(String::from("k"), attrs()).unwrap();
    let (get, _) =
        finish_get(String::from("k"), attrs(), Some(b"bytes=0-9".to_vec())).unwrap();
    assert_eq!(head.size, get.size);
    assert_eq!(head.e_tag, get.e_tag);
    assert_eq!(head.last_modified, get.last_modified);
}

#[test]
fn listing_entry_without_key_is_unknown() {
    let entry = ListEntry { key: None, last_modified: some_time(), size: 1, e_tag: None };
    assert_eq!(meta_from_entry(entry), Err(Error::Unknown));
}

#[test]
fn listing_page_fails_on_first_bad_entry() {
    let good = ListEntry {
        key: Some(String::from("a")),
        last_modified: some_time(),
        size: 1,
        e_tag: None,
    };
    let bad = ListEntry { key: Some(String::from("b")), last_modified: None, size: 1, e_tag: None };
    assert_eq!(list_metas(vec![good, bad]), Err(Error::Unknown));
}

#[test]
fn listing_page_normalizes_in_order() {
    let entry = |k: &str| ListEntry {
        key: Some(String::from(k)),
        last_modified: some_time(),
        size: 3,
        e_tag: None,
    };
    let metas = list_metas(vec![entry("a/b"), entry("d")]).unwrap();
    assert_eq!(metas.len(), 2);
    assert_eq!(metas[0].location, "a/b");
    assert_eq!(metas[1].location, "d");
}

#[test]
fn delimiter_listing_partitions_key_space() {
    let metas = vec![meta_with_key("a/b"), meta_with_key("a/c"), meta_with_key("d")];
    let result = split_with_delimiter(metas, 0);
    assert_eq!(result.common_prefixes, vec![String::from("a/")]);
    assert_eq!(result.objects.len(), 1);
    assert_eq!(result.objects[0].location, "d");
}

#[test]
fn delimiter_listing_respects_prefix() {
    let metas = vec![meta_with_key("p/x/y"), meta_with_key("p/z")];
    let result = split_with_delimiter(metas, 2);
    assert_eq!(result.common_prefixes, vec![String::from("p/x/")]);
    assert_eq!(result.objects.len(), 1);
    assert_eq!(result.objects[0].location, "p/z");
}

#[test]
fn get_request_carries_only_supplied_conditions() {
    let options = GetOptions {
        if_match: Some(String::from("\"tag\"")),
        if_none_match: None,
        if_modified_since: Some(1_000),
        if_unmodified_since: None,
        range: Some((3, 12)),
    };
    let request = build_get_request(String::from("bucket"), String::from("key"), options);
    assert_eq!(request.bucket, "bucket");
    assert_eq!(request.key, "key");
    assert_eq!(request.if_match, Some(String::from("\"tag\"")));
    assert_eq!(request.if_none_match, None);
    assert_eq!(request.if_modified_since, Some(1_000));
    assert_eq!(request.if_unmodified_since, None);
    assert_eq!(request.range, Some(b"bytes=3-12".to_vec()));
}

#[test]
fn get_request_without_range_sends_no_range_header() {
    let options = GetOptions {
        if_match: None,
        if_none_match: None,
        if_modified_since: None,
        if_unmodified_since: None,
        range: None,
    };
    let request = build_get_request(String::from("b"), String::from("k"), options);
    assert_eq!(request.range, None);
}

#[test]
fn copy_source_is_bucket_slash_key() {
    assert_eq!(copy_source("bucket", "a/b"), "bucket/a/b");
}

#[test]
fn not_modified_classified_apart_from_not_found() {
    let matched = Fault { status: Some(304), code: None, message: String::from("not modified") };
    let missing = Fault {
        status: Some(404),
        code: Some(String::from("NoSuchKey")),
        message: String::from("missing"),
    };
    assert_eq!(matched.classify(), FaultClass::NotModified);
    assert_eq!(missing.classify(), FaultClass::NotFound);
    assert_ne!(matched.classify(), missing.classify());
    assert_ne!(Error::S3Read(matched), Error::S3Read(missing));
}

#[test]
fn fault_classification_covers_statuses() {
    let fault = |status: Option<u16>| Fault { status, code: None, message: String::new() };
    assert_eq!(fault(Some(412)).classify(), FaultClass::PreconditionFailed);
    assert_eq!(fault(Some(500)).classify(), FaultClass::Other);
    assert_eq!(fault(None).classify(), FaultClass::Other);
}
