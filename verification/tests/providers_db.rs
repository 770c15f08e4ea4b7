use persea::providers_db::{
    delete_provider, field_present, get_provider, insert_provider, load_providers, move_provider,
    set_enabled, update_config, validate_config, validate_members, ConfigValue, DbProvider,
    MoveDirection, NameTaken, ProviderStore,
};

const NOW: &str = "2026-01-01T00:00:00Z";

const OIDC_CONFIG: &str = r#"{
    "issuer_url": "https://auth.example.com",
    "client_id": "persea",
    "client_secret": "s3cret",
    "redirect_uri": "https://persea.example.com/auth/callback",
    "groups_claim": "groups"
}"#;

fn insert(db: &mut ProviderStore, name: &str, kind: &str, config: &str) -> DbProvider {
    insert_provider(db, name, kind, config, NOW).unwrap()
}

fn order(db: &ProviderStore) -> Vec<String> {
    load_providers(db).iter().map(|p| p.name.clone()).collect()
}

#[test]
fn insert_appends_at_end_of_chain() {
    let mut db = ProviderStore::new();
    let first = insert(&mut db, "Google", "oidc", OIDC_CONFIG);
    let second = insert(&mut db, "Keycloak", "oidc", OIDC_CONFIG);
    assert_eq!(first.position, 0);
    assert_eq!(second.position, 1);
    assert_eq!(order(&db), vec!["Google", "Keycloak"]);
}

#[test]
fn insert_config_round_trips() {
    let mut db = ProviderStore::new();
    let p = insert(&mut db, "Google", "oidc", OIDC_CONFIG);
    let config: serde_json::Value = serde_json::from_str(&p.config).unwrap();
    assert_eq!(config["client_secret"], "s3cret");
    assert_eq!(config["groups_claim"], "groups");
}

#[test]
fn names_are_taken_once() {
    let mut db = ProviderStore::new();
    insert(&mut db, "Google", "oidc", OIDC_CONFIG);
    assert!(matches!(
        insert_provider(&mut db, "Google", "ldap", "{}", NOW),
        Err(NameTaken)
    ));
    assert_eq!(order(&db), vec!["Google"]);
}

#[test]
fn set_enabled_flips_flag() {
    let mut db = ProviderStore::new();
    let p = insert(&mut db, "Google", "oidc", OIDC_CONFIG);
    assert!(p.enabled);
    assert!(set_enabled(&mut db, p.id, false, NOW));
    assert!(!get_provider(&db, p.id).unwrap().enabled);
    assert!(set_enabled(&mut db, p.id, true, NOW));
    assert!(get_provider(&db, p.id).unwrap().enabled);
}

#[test]
fn set_enabled_unknown_id_returns_false() {
    let mut db = ProviderStore::new();
    assert!(!set_enabled(&mut db, 999, false, NOW));
}

#[test]
fn update_config_replaces_the_config() {
    let mut db = ProviderStore::new();
    let p = insert(&mut db, "Google", "oidc", OIDC_CONFIG);
    assert!(update_config(&mut db, p.id, "{}", "later"));
    let q = get_provider(&db, p.id).unwrap();
    assert_eq!(q.config, "{}");
    assert_eq!(q.updated_at, "later");
    assert_eq!(q.created_at, NOW);
    assert!(!update_config(&mut db, 999, "{}", NOW));
}

#[test]
fn move_provider_up_and_down() {
    let mut db = ProviderStore::new();
    let a = insert(&mut db, "A", "oidc", OIDC_CONFIG);
    let b = insert(
        &mut db,
        "B",
        "ldap",
        r#"{"url": "ldap://x", "bind_dn": "cn=x", "search_base": "ou=x"}"#,
    );
    let c = insert(&mut db, "C", "database", "{}");

    let moved = move_provider(&mut db, b.id, MoveDirection::Up, NOW).unwrap();
    assert_eq!(moved.position, 0);
    assert_eq!(order(&db), vec!["B", "A", "C"]);

    let moved = move_provider(&mut db, b.id, MoveDirection::Down, NOW).unwrap();
    assert_eq!(moved.position, 1);
    assert_eq!(order(&db), vec!["A", "B", "C"]);

    // Edge: first up and last down are no-ops.
    let moved = move_provider(&mut db, a.id, MoveDirection::Up, NOW).unwrap();
    assert_eq!(moved.position, 0);
    let moved = move_provider(&mut db, c.id, MoveDirection::Down, NOW).unwrap();
    assert_eq!(moved.position, 2);
}

#[test]
fn move_provider_unknown_id_returns_none() {
    let mut db = ProviderStore::new();
    assert!(move_provider(&mut db, 999, MoveDirection::Up, NOW).is_none());
}

#[test]
fn delete_provider_removes_row() {
    let mut db = ProviderStore::new();
    let p = insert(&mut db, "X", "database", "{}");
    assert!(delete_provider(&mut db, p.id));
    assert!(get_provider(&db, p.id).is_none());
    assert!(!delete_provider(&mut db, p.id));
}

#[test]
fn validate_config_accepts_oidc_with_required_fields() {
    assert!(validate_config("oidc", OIDC_CONFIG).is_ok());
    // groups_claim is optional.
    let cfg = OIDC_CONFIG.replace(
        "auth/callback\",\n    \"groups_claim\": \"groups\"",
        "auth/callback\"",
    );
    assert!(!cfg.contains("groups_claim"));
    assert!(validate_config("oidc", &cfg).is_ok());
}

#[test]
fn validate_config_rejects_missing_oidc_fields() {
    let cfg = r#"{"issuer_url": "https://auth.example.com"}"#;
    let err = validate_config("oidc", cfg).unwrap_err();
    assert!(err.contains("client_id"), "got: {err}");
}

#[test]
fn validate_config_accepts_numeric_radius_port() {
    let cfg = r#"{"hostname": "radius.example.com", "auth_port": 1812, "secret": "x"}"#;
    assert!(validate_config("radius", cfg).is_ok());
}

#[test]
fn validate_config_accepts_empty_database_config() {
    assert!(validate_config("database", "{}").is_ok());
    assert!(validate_config("totp", "{}").is_ok());
}

#[test]
fn validate_config_rejects_unknown_type() {
    assert!(validate_config("fido", "{}").is_err());
}

#[test]
fn members_count_when_they_hold_something() {
    let text = |k: &str, v: &str| (k.to_string(), ConfigValue::Text(v.to_string()));
    let members = vec![
        text("url", "ldap://x"),
        text("bind_dn", ""),
        ("port".to_string(), ConfigValue::Number),
        ("list".to_string(), ConfigValue::Other),
    ];
    assert!(field_present(&members, "url"));
    assert!(!field_present(&members, "bind_dn"));
    assert!(field_present(&members, "port"));
    assert!(!field_present(&members, "list"));
    assert!(!field_present(&members, "absent"));
    assert_eq!(
        validate_members("fido", &members),
        Err("unknown provider type: fido".to_string())
    );
    let full = vec![text("url", "ldap://x"), text("bind_dn", "cn=x"), text("search_base", "ou=x")];
    assert_eq!(validate_members("ldap", &full), Ok(()));
}
