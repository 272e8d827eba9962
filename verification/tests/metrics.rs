use backup_server::errors::Error;
use backup_server::metrics::collect;
use backup_server::realms::StatResult;
use backup_server::strutil::{basename, contains_str};

fn st(size: i64, count: u32, latest: i64) -> StatResult {
    StatResult { total_size: size, total_count: count, latest }
}

#[test]
fn collect_publishes_survivors_of_partial_failure() {
    // realm A fails, realm B succeeds: B is published, A raises nothing
    let results = vec![
        ("a".to_string(), Err::<StatResult, Error>(Error::Transport)),
        ("b".to_string(), Ok(st(300, 2, 7))),
    ];
    let snap = collect(results);
    assert_eq!(snap.up, 1);
    assert_eq!(snap.realms, vec![("b".to_string(), st(300, 2, 7))]);
}

#[test]
fn collect_keeps_order_and_all_successes() {
    let results = vec![
        ("a".to_string(), Ok(st(1, 1, 1))),
        ("b".to_string(), Err::<StatResult, Error>(Error::NotFound)),
        ("c".to_string(), Ok(st(2, 1, 2))),
    ];
    let snap = collect(results);
    assert_eq!(
        snap.realms,
        vec![("a".to_string(), st(1, 1, 1)), ("c".to_string(), st(2, 1, 2))]
    );
}

#[test]
fn collect_of_nothing_is_alive_and_empty() {
    let snap = collect(Vec::new());
    assert_eq!(snap.up, 1);
    assert!(snap.realms.is_empty());
}

#[test]
fn basename_extracts_file_name() {
    assert_eq!(basename("a/b/c.tar.gz"), "c.tar.gz");
    assert_eq!(basename("plain"), "plain");
    assert_eq!(basename("dir/"), "");
}

#[test]
fn contains_str_finds_substrings() {
    assert!(contains_str("proj-media-2024", "media"));
    assert!(!contains_str("proj-db", "media"));
    assert!(contains_str("anything", ""));
    assert!(!contains_str("", "x"));
}
