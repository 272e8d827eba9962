//! The object-store layer: bucket coordinates, listed objects, and the
//! backend-facing decisions (upload planning, listing conversion, payload
//! decoding). Network transfers themselves happen outside the library; the
//! functions here make every decision those transfers depend on.

use vstd::prelude::*;
use vstd::string::StringSliceAdditionalSpecFns;
use std::str::FromStr;
use crate::errors::Error;

verus! {

/// One backend object as reported by a listing: key, last-modified time in
/// unix seconds, and size in bytes. Ephemeral, produced only by listing.
#[derive(Debug, PartialEq, Eq)]
pub struct S3Object {
    pub key: String,
    pub last_modified: i64,
    pub size: i64,
}

impl Clone for S3Object {
    fn clone(&self) -> (r: Self)
        ensures
            r.key@ == self.key@,
            r.last_modified == self.last_modified,
            r.size == self.size,
    {
        S3Object { key: self.key.clone(), last_modified: self.last_modified, size: self.size }
    }
}

/// Where a bucket lives: an AWS region name, or a custom endpoint URL for
/// non-AWS object stores.
#[derive(Debug, PartialEq, Eq)]
pub enum S3Region {
    Region(String),
    Endpoint(String),
}

/// Spec-level shape of an `S3Region`.
pub enum RegionV {
    Region(Seq<char>),
    Endpoint(Seq<char>),
}

impl View for S3Region {
    type V = RegionV;

    open spec fn view(&self) -> RegionV {
        match self {
            S3Region::Region(r) => RegionV::Region(r@),
            S3Region::Endpoint(u) => RegionV::Endpoint(u@),
        }
    }
}

impl Clone for S3Region {
    fn clone(&self) -> (r: Self)
        ensures
            r@ == self@,
    {
        match self {
            S3Region::Region(s) => S3Region::Region(s.clone()),
            S3Region::Endpoint(s) => S3Region::Endpoint(s.clone()),
        }
    }
}

/// Whether rusoto recognises a string as the name of an AWS region.
pub uninterp spec fn known_region(name: Seq<char>) -> bool;

/// Relies on rusoto's `Region::from_str`: it lower-cases its input and
/// matches it against a fixed list of AWS region names, so the outcome
/// depends on the name alone.
#[verifier::external_body]
fn region_is_known(name: &str) -> (r: bool)
    ensures
        r == known_region(name@),
{
    rusoto_core::Region::from_str(name).is_ok()
}

/// The validated coordinates of one backend bucket: credentials, bucket
/// name and region or endpoint. A client is constructed from these,
/// outside the library, for each operation.
#[derive(Debug, PartialEq, Eq)]
pub struct Bucket {
    pub access_key: String,
    pub secret_access_key: String,
    pub bucket: String,
    pub region: S3Region,
}

impl Clone for Bucket {
    fn clone(&self) -> (r: Self)
        ensures
            r.access_key@ == self.access_key@,
            r.secret_access_key@ == self.secret_access_key@,
            r.bucket@ == self.bucket@,
            r.region@ == self.region@,
    {
        Bucket {
            access_key: self.access_key.clone(),
            secret_access_key: self.secret_access_key.clone(),
            bucket: self.bucket.clone(),
            region: self.region.clone(),
        }
    }
}

/// A region designation can back a client: either a custom endpoint, or a
/// region name that the backend SDK recognises.
pub open spec fn region_ok(region: RegionV) -> bool {
    match region {
        RegionV::Region(r) => known_region(r),
        RegionV::Endpoint(_) => true,
    }
}

impl Bucket {
    /// Creates a bucket handle. Fails exactly when the region name is not
    /// a recognised region; a custom endpoint is always accepted.
    pub fn new(
        access_key: &str,
        secret_access_key: &str,
        bucket: &str,
        region: &S3Region,
    ) -> (r: Result<Bucket, Error>)
        ensures
            match r {
                Ok(b) => region_ok(region@) && b.access_key@ == access_key@
                    && b.secret_access_key@ == secret_access_key@ && b.bucket@ == bucket@
                    && b.region@ == region@,
                Err(e) => !region_ok(region@) && e is Config,
            },
    {
        let ok = match region {
            S3Region::Region(r) => region_is_known(r.as_str()),
            S3Region::Endpoint(_) => true,
        };
        if !ok {
            return Err(Error::Config);
        }
        Ok(Bucket {
            access_key: access_key.to_owned(),
            secret_access_key: secret_access_key.to_owned(),
            bucket: bucket.to_owned(),
            region: region.clone(),
        })
    }

    /// Plans the upload of an in-memory text payload: a zero-length
    /// payload is skipped without any backend call, anything else is
    /// uploaded whole under the given key.
    pub fn put_string(&self, filename: &str, contents: &str) -> (a: PutAction)
        ensures
            contents.len() == 0 <==> a is Skip,
            (a matches PutAction::Upload { bucket, key, len } ==> bucket@ == self.bucket@
                && key@ == filename@ && len == contents.len() as u64),
    {
        let length = contents.len();
        if length == 0 {
            return PutAction::Skip;
        }
        PutAction::Upload {
            bucket: self.bucket.clone(),
            key: filename.to_owned(),
            len: length as u64,
        }
    }

    /// Plans the upload of a local file of the given size: a zero-length
    /// file is skipped without any backend call, anything else is
    /// streamed whole under the given key.
    pub fn put_file(&self, filename: &str, file_size: u64) -> (a: PutAction)
        ensures
            file_size == 0 <==> a is Skip,
            (a matches PutAction::Upload { bucket, key, len } ==> bucket@ == self.bucket@
                && key@ == filename@ && len == file_size),
    {
        if file_size == 0 {
            return PutAction::Skip;
        }
        PutAction::Upload {
            bucket: self.bucket.clone(),
            key: filename.to_owned(),
            len: file_size,
        }
    }
}

/// The decision an upload makes before any backend call: skip the call
/// entirely, or upload `len` bytes under `key` into `bucket`.
#[derive(Debug, PartialEq, Eq)]
pub enum PutAction {
    Skip,
    Upload { bucket: String, key: String, len: u64 },
}

/// The number of bytes an upload reports: zero for a skipped upload.
pub fn put_result_bytes(a: &PutAction) -> (n: u64)
    ensures
        a is Skip ==> n == 0,
        (a matches PutAction::Upload { len, .. } ==> n == len),
{
    match a {
        PutAction::Skip => 0,
        PutAction::Upload { len, .. } => *len,
    }
}

/// What UTF-8 decoding makes of a byte string: its characters, or nothing
/// when the bytes are not valid UTF-8.
pub uninterp spec fn utf8_chars(bytes: Seq<u8>) -> Option<Seq<char>>;

/// Relies on `String::from_utf8` of std: returns the string whose bytes
/// these are exactly when they are valid UTF-8; the outcome depends on
/// the bytes alone.
#[verifier::external_body]
fn utf8_to_string(bytes: Vec<u8>) -> (r: Option<String>)
    ensures
        match r {
            Some(s) => utf8_chars(bytes@) == Some(s@),
            None => utf8_chars(bytes@) is None,
        },
{
    match String::from_utf8(bytes) {
        Ok(s) => Some(s),
        Err(_) => None,
    }
}

/// The text of a downloaded payload: succeeds exactly when the bytes are
/// valid UTF-8, and fails with a decode error otherwise.
pub fn decode_object_text(bytes: Vec<u8>) -> (r: Result<String, Error>)
    ensures
        match r {
            Ok(s) => utf8_chars(bytes@) == Some(s@),
            Err(e) => utf8_chars(bytes@) is None && e is Decode,
        },
{
    match utf8_to_string(bytes) {
        Some(s) => Ok(s),
        None => Err(Error::Decode),
    }
}

/// The unix seconds a date string denotes, or nothing when it is not a
/// well-formed RFC 3339 date-time.
pub uninterp spec fn utc_secs_of(s: Seq<char>) -> Option<i64>;

/// Relies on chrono's `FromStr` for `DateTime<Utc>`: parses an RFC 3339
/// date-time, whose value depends on the text alone; `timestamp` turns it
/// into unix seconds.
#[verifier::external_body]
fn parse_utc_secs(s: &str) -> (r: Option<i64>)
    ensures
        r == utc_secs_of(s@),
{
    match s.parse::<chrono::DateTime<chrono::Utc>>() {
        Ok(dt) => Some(dt.timestamp()),
        Err(_) => None,
    }
}

/// One entry of a raw backend listing, field for field as the backend
/// reports it: every field may be absent.
pub struct RawListItem {
    pub key: Option<String>,
    pub last_modified: Option<String>,
    pub size: Option<i64>,
}

/// The key an entry converts to: the reported key, or empty.
pub open spec fn item_key(r: RawListItem) -> Seq<char> {
    match r.key {
        Some(k) => k@,
        None => Seq::<char>::empty(),
    }
}

/// The modification time an entry converts to: the parsed date, or `now`
/// when the date is absent or unreadable.
pub open spec fn item_secs(r: RawListItem, now: i64) -> i64 {
    match r.last_modified {
        Some(d) => match utc_secs_of(d@) {
            Some(t) => t,
            None => now,
        },
        None => now,
    }
}

/// The size an entry converts to: the reported size, or zero.
pub open spec fn item_size(r: RawListItem) -> i64 {
    match r.size {
        Some(s) => s,
        None => 0,
    }
}

/// Turns one page of raw backend listing output into objects, in listing
/// order: a missing key becomes the empty key, a missing or unreadable
/// modification date becomes `now`, a missing size becomes zero.
pub fn convert_listing(raw: Vec<RawListItem>, now: i64) -> (out: Vec<S3Object>)
    ensures
        out@.len() == raw@.len(),
        forall|i: int| 0 <= i < raw@.len() ==> #[trigger] out@[i].key@ == item_key(raw@[i])
            && out@[i].last_modified == item_secs(raw@[i], now) && out@[i].size == item_size(
            raw@[i],
        ),
{
    let mut out: Vec<S3Object> = Vec::new();
    let mut i: usize = 0;
    while i < raw.len()
        invariant
            i <= raw@.len(),
            out@.len() == i,
            forall|j: int| 0 <= j < i ==> #[trigger] out@[j].key@ == item_key(raw@[j])
                && out@[j].last_modified == item_secs(raw@[j], now) && out@[j].size == item_size(
                raw@[j],
            ),
        decreases raw@.len() - i,
    {
        let item = &raw[i];
        let key = match &item.key {
            Some(k) => k.clone(),
            None => String::new(),
        };
        let last_modified = match &item.last_modified {
            Some(d) => match parse_utc_secs(d.as_str()) {
                Some(t) => t,
                None => now,
            },
            None => now,
        };
        let size = match &item.size {
            Some(s) => *s,
            None => 0,
        };
        out.push(S3Object { key, last_modified, size });
        i += 1;
    }
    out
}

} // verus!
