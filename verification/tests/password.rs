use persea::password::{
    hash_password, password_is_recent, recent_password_hashes, record_password_history,
    update_user_password_hash, verify_password, HashError, PasswordHistory, PasswordPolicy, StoredPassword,
};
use std::sync::Arc;

fn no_history() -> PasswordHistory {
    PasswordHistory { rows: Vec::new() }
}

#[test]
fn hash_and_verify_roundtrip() {
    let h = hash_password("hunter2").unwrap();
    assert!(verify_password("hunter2", &h).unwrap());
    assert!(!verify_password("wrong", &h).unwrap());
}

#[test]
fn different_hashes_for_same_password() {
    let h1 = hash_password("same").unwrap();
    let h2 = hash_password("same").unwrap();
    assert_ne!(h1, h2);
    assert!(verify_password("same", &h1).unwrap());
    assert!(verify_password("same", &h2).unwrap());
}

#[test]
fn hash_contains_argon2id_marker() {
    let h = hash_password("test").unwrap();
    assert!(h.starts_with("$argon2id$"));
    assert!(h.starts_with("$argon2id$v=19$m=47104,t=3,p=1$"));
}

#[test]
fn reject_invalid_hash_string() {
    assert!(verify_password("pw", "not-a-hash").is_err());
}

#[test]
fn hashes_out_of_reach_match_no_password() {
    let hash = |costs: &str| format!("$argon2id$v=19${costs}$c29tZXNhbHQ$MTIzNDU2Nzg5MDEyMzQ1Ng");
    for costs in ["m=8,t=1,p=536870912", "m=8,t=1,p=4294967295", "p=4294967296", "p=9999999999999"] {
        assert_eq!(verify_password("pw", &hash(costs)), Ok(false));
        assert_eq!(verify_password("pw", &hash(costs).replace("$v=19", "")), Ok(false));
    }
    // Costs that Argon2 refuses, or that do not fit the hash.
    assert_eq!(verify_password("pw", &hash("m=8,t=1,p=536870911")), Ok(false));
    assert_eq!(verify_password("pw", &hash("m=8,t=1,p=1")), Ok(false));
    // The last of two counts.
    assert_eq!(verify_password("pw", &hash("m=8,t=1,p=999999999,p=1")), Ok(false));
    // No hash.
    assert_eq!(verify_password("pw", &hash("p=1=2")), Err(HashError));
    assert_eq!(verify_password("pw", &hash("p=999999999=2")), Err(HashError));
    assert_eq!(verify_password("pw", "$argon2id$v=19$p=999999999$a b"), Err(HashError));
}

#[test]
fn policy_length_check() {
    let policy = PasswordPolicy::default();
    assert_eq!(policy.min_length, 15);
    assert!(policy.check_length("short").is_err());
    assert!(policy.check_length(&"x".repeat(14)).is_err());
    assert!(policy.check_length(&"x".repeat(15)).is_ok());
    assert!(policy.check_length("a-very-long-password").is_ok());
}

#[test]
fn policy_counts_characters_and_names_the_minimum() {
    let policy = PasswordPolicy { min_length: 3, history: 5 };
    assert_eq!(
        policy.check_length("éé"),
        Err("password must be at least 3 characters long".to_string())
    );
    assert_eq!(policy.check_length("ééé"), Ok(()));
}

#[test]
fn history_roundtrip_and_trim() {
    let mut db = no_history();
    let uid = 1;
    record_password_history(&mut db, uid, "h1", 5);
    record_password_history(&mut db, uid, "h2", 5);
    record_password_history(&mut db, uid, "h3", 5);
    record_password_history(&mut db, uid, "h4", 5);
    record_password_history(&mut db, uid, "h5", 5);
    record_password_history(&mut db, uid, "h6", 5);

    let hashes = recent_password_hashes(&db, uid, 5);
    assert_eq!(hashes.len(), 5);
    assert_eq!(hashes[0], "h6");
    assert!(!hashes.contains(&"h1".to_string()), "oldest entry trimmed");
    assert_eq!(db.rows.len(), 5);
}

/// Argon2 is slow on purpose: calls of it run side by side.
fn side_by_side<T: Send + 'static>(jobs: Vec<Box<dyn FnOnce() -> T + Send>>) -> Vec<T> {
    let runtime = tokio::runtime::Runtime::new().unwrap();
    let running: Vec<_> = jobs.into_iter().map(|job| runtime.spawn_blocking(job)).collect();
    running.into_iter().map(|r| runtime.block_on(r).unwrap()).collect()
}

#[test]
fn history_reuse_detection() {
    let mut db = no_history();
    let uid = 1;
    let hashes = side_by_side(vec![
        Box::new(|| hash_password("h1").unwrap()),
        Box::new(|| hash_password("h2").unwrap()),
    ]);
    record_password_history(&mut db, uid, &hashes[0], 5);
    record_password_history(&mut db, uid, &hashes[1], 5);

    let db = Arc::new(db);
    let is_recent = |password: &'static str, keep: usize| -> Box<dyn FnOnce() -> bool + Send> {
        let db = db.clone();
        Box::new(move || password_is_recent(&db, uid, password, keep))
    };
    let recent = side_by_side(vec![
        is_recent("h1", 5),
        is_recent("h2", 5),
        is_recent("h3", 5),
        is_recent("h1", 0),
    ]);
    assert!(recent[0]);
    assert!(recent[1]);
    assert!(!recent[2]);
    // keep = 0 disables reuse checking entirely
    assert!(!recent[3]);
}

#[test]
fn history_isolated_per_user() {
    let mut db = no_history();
    let uid_a = 1;
    let uid_b = 2;
    record_password_history(&mut db, uid_a, "secret-a", 5);
    assert!(!password_is_recent(&db, uid_b, "secret-a", 5));
}

#[test]
fn trimming_one_user_leaves_another() {
    let mut db = no_history();
    record_password_history(&mut db, 2, "other", 1);
    record_password_history(&mut db, 1, "a", 1);
    record_password_history(&mut db, 1, "b", 1);
    assert_eq!(recent_password_hashes(&db, 1, 5), vec!["b"]);
    assert_eq!(recent_password_hashes(&db, 2, 5), vec!["other"]);
}

#[test]
fn update_password_hash_changes_stored_hash() {
    let mut users = vec![
        StoredPassword { user_id: 7, password_hash: "old-hash".to_string() },
        StoredPassword { user_id: 8, password_hash: "kept".to_string() },
    ];
    update_user_password_hash(&mut users, 7, "new-hash");
    assert_eq!(users[0].password_hash, "new-hash");
    assert_eq!(users[1].password_hash, "kept");
}
