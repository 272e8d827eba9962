use backup_server::errors::Error;
use backup_server::realms::{Realm, RealmLocation, RealmsConfig, StatResult};
use backup_server::s3::{S3Object, S3Region};

fn realm(prefix: &str, contains: &str) -> Realm {
    Realm {
        prefix: prefix.to_string(),
        contains: contains.to_string(),
        location: RealmLocation::S3 {
            access_key: "".to_string(),
            secret_access_key: "".to_string(),
            bucket: "backups".to_string(),
            region: S3Region::Endpoint("https://example.invalid".to_string()),
        },
    }
}

fn obj(key: &str, size: i64, t: i64) -> S3Object {
    S3Object { key: key.to_string(), last_modified: t, size }
}

#[test]
fn test_config() {
    let contents = r#"
[realms]

[realms.media]
transport = "S3"
prefix = "project-media"
access_key = ""
secret_access_key = ""
bucket = ""
endpoint = "https://eu2.contabostorage.com"

"#;

    let config: RealmsConfig = RealmsConfig::from_toml(&contents).unwrap();
    println!("{:?}", config);
}

#[test]
fn push_rejects_file_outside_realm() {
    let r = realm("proj-media", "proj-media");
    let e = r.push("dir/other-backup.tar.gz").unwrap_err();
    assert_eq!(e, Error::Validation);
}

#[test]
fn push_validates_basename_not_path() {
    // the directory matches the filter but the file name does not
    let r = realm("p", "proj-media");
    let e = r.push("proj-media/2023.tar.gz").unwrap_err();
    assert_eq!(e, Error::Validation);
}

#[test]
fn push_builds_remote_key() {
    let r = realm("proj-media", "media");
    let plan = r.push("/tmp/exchange/proj-media-2024.tar.gz").unwrap();
    assert_eq!(plan.remote_key, "proj-mediaproj-media-2024.tar.gz");
    assert_eq!(plan.bucket.bucket, "backups");
}

#[test]
fn push_fails_on_unknown_region() {
    let mut r = realm("p", "");
    r.location = RealmLocation::S3 {
        access_key: "".to_string(),
        secret_access_key: "".to_string(),
        bucket: "b".to_string(),
        region: S3Region::Region("not-a-region".to_string()),
    };
    let e = r.push("p-file").unwrap_err();
    assert_eq!(e, Error::Config);
}

#[test]
fn stat_concrete_scenario() {
    // two matching objects: sizes add up, count is 2, latest is the newer
    let r = realm("proj-media", "proj-media");
    let t1 = 1_600_000_000;
    let t2 = 1_700_000_000;
    let listing = vec![
        obj("proj-media/2023.tar.gz", 100, t1),
        obj("proj-media/2024.tar.gz", 200, t2),
    ];
    let st = r.stat(&listing).unwrap();
    assert_eq!(st, StatResult { total_size: 300, total_count: 2, latest: t2 });
}

#[test]
fn stat_is_order_invariant() {
    let r = realm("proj-media", "proj-media");
    let t1 = 1_600_000_000;
    let t2 = 1_700_000_000;
    let forward = vec![
        obj("proj-media/2023.tar.gz", 100, t1),
        obj("proj-media/2024.tar.gz", 200, t2),
    ];
    let backward = vec![
        obj("proj-media/2024.tar.gz", 200, t2),
        obj("proj-media/2023.tar.gz", 100, t1),
    ];
    assert_eq!(r.stat(&forward).unwrap(), r.stat(&backward).unwrap());
}

#[test]
fn stat_filters_and_empty() {
    let r = realm("proj-media", "proj-media");
    let listing = vec![obj("unrelated/2023.tar.gz", 100, 5)];
    let st = r.stat(&listing).unwrap();
    assert_eq!(st, StatResult { total_size: 0, total_count: 0, latest: 0 });
    let st2 = r.stat(&Vec::new()).unwrap();
    assert_eq!(st2, StatResult { total_size: 0, total_count: 0, latest: 0 });
}

#[test]
fn pull_takes_last_in_listing_order() {
    // the last matching entry wins, even when it is older by timestamp
    let r = realm("proj-media", "proj-media");
    let t1 = 1_600_000_000;
    let t2 = 1_700_000_000;
    let listing = vec![
        obj("proj-media/2024.tar.gz", 200, t2),
        obj("proj-media/2023.tar.gz", 100, t1),
    ];
    let plan = r.pull(&listing, "/exchange").unwrap();
    assert_eq!(plan.remote_key, "proj-media/2023.tar.gz");
    assert_eq!(plan.local_path, "/exchange/proj-media/2023.tar.gz");
}

#[test]
fn pull_scenario_forward_order() {
    let r = realm("proj-media", "proj-media");
    let listing = vec![
        obj("proj-media/2023.tar.gz", 100, 1),
        obj("proj-media/2024.tar.gz", 200, 2),
    ];
    let plan = r.pull(&listing, "/exchange").unwrap();
    assert_eq!(plan.remote_key, "proj-media/2024.tar.gz");
}

#[test]
fn pull_skips_non_matching_tail() {
    let r = realm("proj-media", "proj-media");
    let listing = vec![obj("proj-media/a.tar", 1, 1), obj("other/b.tar", 2, 2)];
    let plan = r.pull(&listing, "ex").unwrap();
    assert_eq!(plan.remote_key, "proj-media/a.tar");
}

#[test]
fn pull_without_match_is_not_found() {
    let r = realm("proj-media", "proj-media");
    let e = r.pull(&vec![obj("other", 1, 1)], "ex").unwrap_err();
    assert_eq!(e, Error::NotFound);
}

#[test]
fn is_s3_and_get_bucket() {
    let r = realm("p", "c");
    assert!(r.location.is_s3());
    let b = r.location.get_bucket().unwrap();
    assert_eq!(b.bucket, "backups");
}

#[test]
fn lookup_finds_and_reports_unknown() {
    let cfg = RealmsConfig {
        realms: vec![
            ("alpha".to_string(), realm("a", "a")),
            ("beta".to_string(), realm("b", "b")),
        ],
    };
    let r = cfg.lookup("beta").unwrap();
    assert_eq!(r.prefix, "b");
    let e = cfg.lookup("gamma").unwrap_err();
    match e {
        Error::RealmNotFound { known } => {
            assert_eq!(known, vec!["alpha".to_string(), "beta".to_string()]);
        }
        other => panic!("unexpected error {:?}", other),
    }
}
