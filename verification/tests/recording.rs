use persea::recording::{
    delete_recording, encrypted_file, is_recording, list_recordings_by_age, meta_file, rotate,
    rotate_for_space, rotate_per_entry, should_encrypt_at_rest, RecordingConfig, RecordingFile,
};
use persea::time::Timestamp;

fn file(name: &str, second: i64) -> RecordingFile {
    RecordingFile {
        name: name.to_string(),
        modified: Timestamp::at_second(second),
        size: 4,
        entry: None,
    }
}

fn file_of(name: &str, second: i64, entry: &str) -> RecordingFile {
    let mut f = file(name, second);
    f.entry = Some(entry.to_string());
    f
}

fn config(max_recordings: u32) -> RecordingConfig {
    RecordingConfig { max_recordings, max_disk_percent: 0, encrypt_at_rest: None }
}

#[test]
fn list_recordings_by_age_empty_dir() {
    assert!(list_recordings_by_age(&Vec::new()).is_empty());
}

#[test]
fn list_recordings_by_age_filters_non_guac() {
    let files = vec![file("test.txt", 1), file("session.guac", 2), file("another.log", 3)];
    let result = list_recordings_by_age(&files);
    assert_eq!(result.len(), 1);
    assert_eq!(result[0].name, "session.guac");
}

#[test]
fn list_recordings_by_age_sorted_oldest_first() {
    let files = vec![file("c.guac", 30), file("a.guac", 10), file("b.guac", 20)];
    let result = list_recordings_by_age(&files);
    assert_eq!(result.len(), 3);
    let names: Vec<&str> = result.iter().map(|f| f.name.as_str()).collect();
    assert_eq!(names, vec!["a.guac", "b.guac", "c.guac"]);
}

#[test]
fn rotate_zero_max_recordings_is_noop() {
    let deleted = rotate(&config(0), &vec![file("test.guac", 1)]);
    assert_eq!(deleted.len(), 0);
}

#[test]
fn rotate_enforces_max_recordings() {
    let files: Vec<RecordingFile> = (0..5).map(|i| file(&format!("{}.guac", i), i)).collect();
    let recordings = list_recordings_by_age(&files);
    let deleted = rotate(&config(3), &recordings);
    assert_eq!(deleted.len(), 2);
    assert_eq!(deleted, vec!["0.guac", "1.guac"]);
}

#[test]
fn rotate_no_op_when_under_limit() {
    let files: Vec<RecordingFile> = (0..3).map(|i| file(&format!("{}.guac", i), i)).collect();
    let deleted = rotate(&config(5), &list_recordings_by_age(&files));
    assert_eq!(deleted.len(), 0);
}

#[test]
fn rotate_for_space_takes_the_oldest() {
    let files = vec![file("old.guac", 1), file("new.guac", 2)];
    assert_eq!(rotate_for_space(true, &files).as_deref(), Some("old.guac"));
    assert_eq!(rotate_for_space(false, &files), None);
    assert_eq!(rotate_for_space(true, &Vec::new()), None);
}

#[test]
fn rotate_per_entry_zero_max_is_noop() {
    let files = vec![file("test.guac", 1)];
    assert_eq!(rotate_per_entry(&files, "entry/key", 0).len(), 0);
}

#[test]
fn rotate_per_entry_no_matching_metas() {
    let files = vec![file("test.guac", 1)];
    assert_eq!(rotate_per_entry(&files, "entry/key", 1).len(), 0);
}

#[test]
fn rotate_per_entry_matches_and_deletes_oldest() {
    let files: Vec<RecordingFile> = (0..3)
        .map(|i| file_of(&format!("{}.guac", i), i, "target/entry"))
        .collect();
    let deleted = rotate_per_entry(&files, "target/entry", 2);
    assert_eq!(deleted.len(), 1);
    assert_eq!(deleted, vec!["0.guac"]);
}

#[test]
fn rotate_per_entry_ignores_other_entries() {
    let files: Vec<RecordingFile> = ["other/entry", "target/entry", "other/entry"]
        .iter()
        .enumerate()
        .map(|(i, entry)| file_of(&format!("{}.guac", i), i as i64, entry))
        .collect();
    assert_eq!(rotate_per_entry(&files, "target/entry", 1).len(), 0);
}

#[test]
fn names_and_encryption() {
    // Names of recordings.
    {
        assert!(is_recording("a.guac"));
        assert!(is_recording("a.guac.enc"));
        assert!(!is_recording("a.enc"));
        assert!(!is_recording(".guac"));
        assert_eq!(meta_file("a.guac"), "a.meta");
        assert_eq!(meta_file("a.guac.enc"), "a.meta");
        assert_eq!(encrypted_file("a.guac"), "a.guac.enc");
        assert_eq!(delete_recording("a.guac"), vec!["a.guac", "a.meta", "a.guac.enc"]);
        assert_eq!(delete_recording("a.guac.enc"), vec!["a.guac.enc", "a.meta", "a.guac"]);
    }
    // Encryption follows the key unless set.
    {
        let mut c = config(0);
        assert!(should_encrypt_at_rest(&c, Some("ab")));
        assert!(!should_encrypt_at_rest(&c, Some("")));
        assert!(!should_encrypt_at_rest(&c, None));
        c.encrypt_at_rest = Some(true);
        assert!(should_encrypt_at_rest(&c, None));
        c.encrypt_at_rest = Some(false);
        assert!(!should_encrypt_at_rest(&c, Some("ab")));
    }
}
