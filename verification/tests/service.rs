use secure_native::error::Error;
use secure_native::service::{contains, delete, get, put, Platform};

#[test]
fn put_contains_get_delete_cycle() {
    let mut env = Platform::new();
    put(&mut env, "bank", "user1", "s3cr3t", false).unwrap();
    assert_eq!(contains(&env, "bank", "user1"), Ok(true));
    assert_eq!(get(&env, "bank", "user1"), Ok(String::from("s3cr3t")));
    delete(&mut env, "bank", "user1").unwrap();
    assert_eq!(contains(&env, "bank", "user1"), Ok(false));
    assert_eq!(get(&env, "bank", "user1"), Err(Error::NotFound));
}

#[test]
fn round_trip_preserves_value() {
    let mut env = Platform::new();
    let values = vec![
        String::new(),
        String::from("a"),
        String::from("hello world"),
        String::from("pässwörd — ünïcode ✓"),
        String::from("0123456789abcdef0123456789abcdef"),
    ];
    let mut i = 0usize;
    for v in &values {
        let account = format!("acct{}", i);
        put(&mut env, "svc", account.as_str(), v.as_str(), false).unwrap();
        assert_eq!(get(&env, "svc", account.as_str()), Ok(v.clone()));
        i += 1;
    }
}

#[test]
fn overwrite_returns_latest_value() {
    let mut env = Platform::new();
    put(&mut env, "svc", "acct", "first", false).unwrap();
    put(&mut env, "svc", "acct", "second", true).unwrap();
    assert_eq!(get(&env, "svc", "acct"), Ok(String::from("second")));
}

#[test]
fn delete_missing_record_is_ok() {
    let mut env = Platform::new();
    assert_eq!(delete(&mut env, "svc", "never-stored"), Ok(()));
    assert_eq!(contains(&env, "svc", "never-stored"), Ok(false));
    assert_eq!(get(&env, "svc", "never-stored"), Err(Error::NotFound));
}

#[test]
fn delete_removes_both_entries() {
    let mut env = Platform::new();
    put(&mut env, "svc", "acct", "value", false).unwrap();
    assert!(env.store.read("svc", "acct").is_some());
    assert!(env.store.read("svc", "acctiv").is_some());
    delete(&mut env, "svc", "acct").unwrap();
    assert!(env.store.read("svc", "acct").is_none());
    assert!(env.store.read("svc", "acctiv").is_none());
}

#[test]
fn delete_leaves_other_records_alone() {
    let mut env = Platform::new();
    put(&mut env, "svc", "keep", "kept", false).unwrap();
    put(&mut env, "svc", "drop", "dropped", false).unwrap();
    delete(&mut env, "svc", "drop").unwrap();
    assert_eq!(get(&env, "svc", "keep"), Ok(String::from("kept")));
    assert_eq!(get(&env, "svc", "drop"), Err(Error::NotFound));
}

#[test]
fn successive_puts_use_fresh_ivs() {
    let mut env = Platform::new();
    put(&mut env, "svc", "acct", "one", false).unwrap();
    let iv1 = env.store.read("svc", "acctiv").unwrap();
    put(&mut env, "svc", "acct", "two", false).unwrap();
    let iv2 = env.store.read("svc", "acctiv").unwrap();
    assert_ne!(iv1, iv2);
}

#[test]
fn swapped_ivs_are_detected() {
    let mut env = Platform::new();
    put(&mut env, "svc", "alpha", "first secret", false).unwrap();
    put(&mut env, "svc", "beta", "second secret", false).unwrap();
    let iv_alpha = env.store.read("svc", "alphaiv").unwrap();
    let iv_beta = env.store.read("svc", "betaiv").unwrap();
    assert_ne!(iv_alpha, iv_beta);
    let swap = vec![
        (String::from("alphaiv"), iv_beta),
        (String::from("betaiv"), iv_alpha),
    ];
    env.store.write_batch("svc", &swap).unwrap();
    assert_eq!(get(&env, "svc", "alpha"), Err(Error::Cipher));
    assert_eq!(get(&env, "svc", "beta"), Err(Error::Cipher));
}

#[test]
fn faulted_commit_leaves_no_partial_record() {
    let mut env = Platform::new();
    env.store.inject_commit_fault();
    assert_eq!(put(&mut env, "svc", "acct", "secret", false), Err(Error::Commit));
    assert_eq!(contains(&env, "svc", "acct"), Ok(false));
    assert_eq!(get(&env, "svc", "acct"), Err(Error::NotFound));
    assert!(env.store.read("svc", "acct").is_none());
    assert!(env.store.read("svc", "acctiv").is_none());
}

#[test]
fn faulted_commit_keeps_previous_record() {
    let mut env = Platform::new();
    put(&mut env, "svc", "acct", "old value", false).unwrap();
    env.store.inject_commit_fault();
    assert_eq!(put(&mut env, "svc", "acct", "new value", false), Err(Error::Commit));
    assert_eq!(get(&env, "svc", "acct"), Ok(String::from("old value")));
}

#[test]
fn faulted_delete_keeps_record() {
    let mut env = Platform::new();
    put(&mut env, "svc", "acct", "value", false).unwrap();
    env.store.inject_commit_fault();
    assert_eq!(delete(&mut env, "svc", "acct"), Err(Error::Commit));
    assert_eq!(get(&env, "svc", "acct"), Ok(String::from("value")));
}

#[test]
fn record_without_key_is_key_not_found() {
    let mut env = Platform::new();
    let entries = vec![
        (String::from("acct"), String::from("AAAA")),
        (String::from("acctiv"), String::from("AAAA")),
    ];
    env.store.write_batch("svc", &entries).unwrap();
    assert_eq!(get(&env, "svc", "acct"), Err(Error::KeyNotFound));
}

#[test]
fn record_missing_iv_entry_is_not_found() {
    let mut env = Platform::new();
    put(&mut env, "svc", "acct", "value", false).unwrap();
    let keys = vec![String::from("acctiv")];
    env.store.remove_batch("svc", &keys).unwrap();
    assert_eq!(get(&env, "svc", "acct"), Err(Error::NotFound));
}

#[test]
fn tampered_entry_is_codec_error() {
    let mut env = Platform::new();
    put(&mut env, "svc", "acct", "value", false).unwrap();
    let garbage = vec![(String::from("acct"), String::from("not base64!"))];
    env.store.write_batch("svc", &garbage).unwrap();
    assert_eq!(get(&env, "svc", "acct"), Err(Error::Codec));
}

#[test]
fn truncated_ciphertext_is_cipher_error() {
    let mut env = Platform::new();
    put(&mut env, "svc", "acct", "value", false).unwrap();
    // Valid base64, but far too short to be a ciphertext.
    let short = vec![(String::from("acct"), String::from("AAAA"))];
    env.store.write_batch("svc", &short).unwrap();
    assert_eq!(get(&env, "svc", "acct"), Err(Error::Cipher));
}

#[test]
fn services_are_separate_namespaces() {
    let mut env = Platform::new();
    put(&mut env, "svc1", "acct", "one", false).unwrap();
    put(&mut env, "svc2", "acct", "two", false).unwrap();
    assert_eq!(get(&env, "svc1", "acct"), Ok(String::from("one")));
    assert_eq!(get(&env, "svc2", "acct"), Ok(String::from("two")));
    delete(&mut env, "svc1", "acct").unwrap();
    assert_eq!(get(&env, "svc1", "acct"), Err(Error::NotFound));
    assert_eq!(get(&env, "svc2", "acct"), Ok(String::from("two")));
}
