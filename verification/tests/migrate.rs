use persea::migrate::{
    backend_secret_variable, check_arguments, check_backend, heading, summary, FolderInfo,
    FolderWalk, MigrateOptions, Tally,
};
use std::collections::HashMap;

fn folder(name: &str) -> FolderInfo {
    FolderInfo { name: name.to_string(), path: None }
}

fn folder_with_path(name: &str, path: &str) -> FolderInfo {
    FolderInfo { name: name.to_string(), path: Some(path.to_string()) }
}

/// Walks a tree given as a map from paths to what is listed below them. Paths
/// in `errors` fail to list.
fn run_walk(
    top: Vec<FolderInfo>,
    subfolders: &HashMap<String, Vec<FolderInfo>>,
    errors: &[&str],
) -> Vec<String> {
    let mut walk = FolderWalk::start(&top);
    while let Some(path) = walk.current().map(|p| p.to_string()) {
        let listing = if errors.contains(&path.as_str()) {
            None
        } else {
            let subs = match subfolders.get(&path) {
                Some(v) => v
                    .iter()
                    .map(|f| FolderInfo { name: f.name.clone(), path: f.path.clone() })
                    .collect(),
                None => Vec::new(),
            };
            Some(subs)
        };
        walk.listed(&listing);
    }
    walk.paths
}

#[test]
fn top_level_folders_fall_back_to_name_when_path_missing() {
    let subs = HashMap::new();
    let paths = run_walk(
        vec![folder("Clients"), folder_with_path("Acme", "Customers/Acme")],
        &subs,
        &[],
    );
    assert_eq!(paths, vec!["Clients", "Customers/Acme"]);
}

#[test]
fn nested_subfolders_join_parent_path_when_path_missing() {
    let mut subs = HashMap::new();
    subs.insert(
        "Clients".to_string(),
        vec![folder_with_path("Acme", "Clients/Acme"), folder("Dept")],
    );
    subs.insert(
        "Clients/Acme".to_string(),
        vec![folder_with_path("Prod", "Clients/Acme/Prod")],
    );
    let paths = run_walk(vec![folder_with_path("Clients", "Clients")], &subs, &[]);
    assert_eq!(
        paths,
        vec![
            "Clients",
            "Clients/Acme",
            "Clients/Dept",
            "Clients/Acme/Prod"
        ]
    );
}

#[test]
fn walk_is_breadth_first_ancestors_before_descendants() {
    let mut subs = HashMap::new();
    subs.insert("A".to_string(), vec![folder("A1"), folder("A2")]);
    subs.insert("B".to_string(), vec![folder("B1")]);
    subs.insert("A/A1".to_string(), vec![folder("A1a")]);
    let paths = run_walk(vec![folder("A"), folder("B")], &subs, &[]);
    assert_eq!(paths, vec!["A", "B", "A/A1", "A/A2", "B/B1", "A/A1/A1a"]);
}

#[test]
fn listing_errors_are_tolerated() {
    let mut subs = HashMap::new();
    subs.insert("B".to_string(), vec![folder("B1")]);
    let paths = run_walk(vec![folder("A"), folder("B")], &subs, &["A"]);
    assert_eq!(paths, vec!["A", "B", "B/B1"]);
}

#[test]
fn empty_scope_produces_no_paths() {
    let paths = run_walk(Vec::new(), &HashMap::new(), &[]);
    assert!(paths.is_empty());
}

#[test]
fn arguments_and_backends_are_checked() {
    // Arguments are checked.
    {
        assert_eq!(check_arguments("shared", "vault", "vault_shared"), Ok(()));
        assert_eq!(check_arguments("instance", "vault", "vault_local"), Ok(()));
        assert_eq!(
            check_arguments("other", "vault", "vault"),
            Err("Error: --scope must be \"shared\" or \"instance\"".to_string())
        );
        assert_eq!(
            check_arguments("shared", "vault", "vault"),
            Err("Error: --from and --to must name different backends".to_string())
        );
    }
    // Backends are checked.
    {
        assert_eq!(backend_secret_variable("vault"), Some("VAULT_SECRET_ID"));
        assert_eq!(
            backend_secret_variable("vault_shared"),
            Some("VAULT_SHARED_SECRET_ID")
        );
        assert_eq!(
            backend_secret_variable("vault_local"),
            Some("VAULT_LOCAL_SECRET_ID")
        );
        assert_eq!(
            check_backend("nope", true, None),
            Err("Error: unknown backend 'nope' (use vault, vault_shared, or vault_local)".to_string())
        );
        assert_eq!(
            check_backend("vault", false, Some("s".to_string())),
            Err("Error: backend 'vault' is not configured in config.toml".to_string())
        );
        assert_eq!(
            check_backend("vault", true, Some(String::new())),
            Err("Error: VAULT_SECRET_ID env var required for backend 'vault'".to_string())
        );
        assert_eq!(
            check_backend("vault_local", true, None),
            Err("Error: VAULT_LOCAL_SECRET_ID env var required for backend 'vault_local'".to_string())
        );
        assert_eq!(
            check_backend("vault", true, Some("s".to_string())),
            Ok("s".to_string())
        );
    }
}

#[test]
fn each_entry_is_counted_once() {
    let real = MigrateOptions { include_users: true, overwrite: false, dry_run: false };
    let dry = MigrateOptions { include_users: true, overwrite: false, dry_run: true };
    let mut t = Tally::new();
    t.folder();
    assert!(!t.entry_probed(&real, true));
    assert!(t.entry_probed(&real, false));
    assert!(t.entry_read(&real, true));
    t.entry_written(true);
    assert!(t.entry_read(&real, true));
    t.entry_written(false);
    assert!(!t.entry_read(&real, false));
    assert!(t.entry_probed(&dry, true));
    assert!(!t.entry_read(&dry, true));
    assert!(t.user_read(&real, true));
    t.user_written(true);
    assert!(!t.user_read(&real, false));
    assert!(!t.user_read(&dry, true));
    t.config_written(true);
    t.config_written(false);
    assert_eq!(
        t,
        Tally {
            folders_done: 1,
            entries_copied: 2,
            entries_skipped: 1,
            users_copied: 2,
            failures: 3,
        }
    );
    assert!(t.failed());
    assert!(!Tally::new().failed());
}

#[test]
fn reports() {
    let real = MigrateOptions { include_users: false, overwrite: false, dry_run: false };
    let dry = MigrateOptions { include_users: true, overwrite: false, dry_run: true };
    assert_eq!(
        heading(&real, "shared", "vault", "vault_shared"),
        "Copying shared scope: vault -> vault_shared"
    );
    assert_eq!(
        heading(&dry, "shared", "vault", "vault_shared"),
        "[DRY RUN] Copy shared scope: vault -> vault_shared (nothing will be written)"
    );
    let t = Tally {
        folders_done: 2,
        entries_copied: 10,
        entries_skipped: 3,
        users_copied: 4,
        failures: 0,
    };
    assert_eq!(summary(&real, &t), "Done: 2 folders, 10 entries copied (3 skipped).");
    let bad = Tally { failures: 5, ..t };
    assert_eq!(
        summary(&dry, &bad),
        "[DRY RUN] 2 folders, 10 entries would copy (3 skipped), 4 user credential secrets, 5 FAILURES."
    );
}

#[test]
fn a_dry_run_writes_nothing() {
    for overwrite in [false, true] {
        let dry = MigrateOptions { include_users: true, overwrite, dry_run: true };
        let mut t = Tally::new();
        assert!(!t.config_read(&dry, true));
        assert!(!t.probes(&dry));
        assert!(t.entry_probed(&dry, false));
        assert!(!t.entry_read(&dry, true));
        assert!(!t.user_read(&dry, true));
        let run = MigrateOptions { include_users: true, overwrite, dry_run: false };
        assert!(t.config_read(&run, true));
        assert!(!t.config_read(&run, false));
        assert_eq!(t.probes(&run), !overwrite);
        assert_eq!(t.entry_probed(&run, true), overwrite);
        assert!(t.entry_read(&run, true));
    }
}
