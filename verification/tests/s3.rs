use backup_server::errors::Error;
use backup_server::s3::{
    Bucket, PutAction, RawListItem, S3Region, convert_listing, decode_object_text,
    put_result_bytes,
};

fn bucket() -> Bucket {
    Bucket::new("AK", "SK", "bkt", &S3Region::Endpoint("http://e".to_string())).unwrap()
}

#[test]
fn new_accepts_known_region_and_endpoint() {
    let b = Bucket::new("AK", "SK", "bkt", &S3Region::Region("us-east-1".to_string())).unwrap();
    assert_eq!(b.bucket, "bkt");
    assert_eq!(b.access_key, "AK");
    let b2 = Bucket::new("AK", "SK", "bkt", &S3Region::Endpoint("http://e".to_string())).unwrap();
    assert_eq!(b2.region, S3Region::Endpoint("http://e".to_string()));
}

#[test]
fn new_rejects_unknown_region() {
    let e = Bucket::new("AK", "SK", "bkt", &S3Region::Region("nowhere-9".to_string())).unwrap_err();
    assert_eq!(e, Error::Config);
}

#[test]
fn put_string_zero_length_skips_backend() {
    let a = bucket().put_string("key", "");
    assert_eq!(a, PutAction::Skip);
    assert_eq!(put_result_bytes(&a), 0);
}

#[test]
fn put_string_uploads_bytes() {
    let a = bucket().put_string("key", "hello");
    assert_eq!(
        a,
        PutAction::Upload { bucket: "bkt".to_string(), key: "key".to_string(), len: 5 }
    );
    assert_eq!(put_result_bytes(&a), 5);
}

#[test]
fn put_file_zero_length_skips_backend() {
    let a = bucket().put_file("key", 0);
    assert_eq!(a, PutAction::Skip);
    assert_eq!(put_result_bytes(&a), 0);
}

#[test]
fn put_file_uploads_size() {
    let a = bucket().put_file("key", 1024);
    assert_eq!(
        a,
        PutAction::Upload { bucket: "bkt".to_string(), key: "key".to_string(), len: 1024 }
    );
}

#[test]
fn decode_object_text_roundtrip() {
    let s = decode_object_text(vec![104, 105]).unwrap();
    assert_eq!(s, "hi");
}

#[test]
fn decode_object_text_rejects_bad_utf8() {
    let e = decode_object_text(vec![0xff, 0xfe]).unwrap_err();
    assert_eq!(e, Error::Decode);
}

#[test]
fn convert_listing_parses_dates() {
    let raw = vec![RawListItem {
        key: Some("a".to_string()),
        last_modified: Some("2023-01-02T03:04:05Z".to_string()),
        size: Some(7),
    }];
    let out = convert_listing(raw, 42);
    assert_eq!(out.len(), 1);
    assert_eq!(out[0].key, "a");
    assert_eq!(out[0].last_modified, 1672628645);
    assert_eq!(out[0].size, 7);
}

#[test]
fn convert_listing_defaults_missing_fields() {
    let raw = vec![
        RawListItem { key: None, last_modified: None, size: None },
        RawListItem {
            key: Some("b".to_string()),
            last_modified: Some("not a date".to_string()),
            size: Some(3),
        },
    ];
    let out = convert_listing(raw, 42);
    assert_eq!(out[0].key, "");
    assert_eq!(out[0].last_modified, 42);
    assert_eq!(out[0].size, 0);
    assert_eq!(out[1].last_modified, 42);
}
