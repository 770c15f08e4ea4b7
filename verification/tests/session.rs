use persea::config::{Config, DriveConfig};
use persea::guacd::{
    first_instruction, join_answer, join_arg_values, join_handshake, join_ready, join_select,
    tls_server_name,
};
use persea::protocol::{Instruction, InstructionParser};
use persea::session::credentials::{RetainedSessionCredential, SessionCredentialStore};
use persea::session::events::EventLog;
use persea::session::manager::SessionManager;
use persea::session::sweep::save_session_metadata;
use persea::session::types::{
    Session, SessionError, SessionEvent, SessionEventKind, SessionInfo, SessionRegistryRow,
    SessionStatus, SessionType, ShadowToken, ShareTokenValidation,
};
use persea::session::{
    check_share_token_match, cleanup_browser, drive_cleanup_settings, generate_share_token,
    reaper_interval,
};
use persea::time::Timestamp;
use sha2::{Digest, Sha256};

const NOW: i64 = 1_760_000_000;

fn at(offset: i64) -> Timestamp {
    Timestamp::at_second(NOW + offset)
}

fn config() -> Config {
    Config {
        instance_id: "node-a".to_string(),
        ha_base_url: None,
        guacd_addr: "127.0.0.1:4822".to_string(),
        recording_dir: "/var/lib/persea/recordings".to_string(),
        recording_enabled: false,
        password_min_length: 15,
        password_history_len: 5,
        max_sessions: 100,
        max_sessions_per_user: 0,
        session_pending_timeout_secs: 60,
        session_max_duration_secs: 28_800,
        session_idle_timeout_secs: 0,
        session_cleanup_delay_secs: 300,
        ssh_allowed_networks: Vec::new(),
        rdp_allowed_networks: Vec::new(),
        vnc_allowed_networks: Vec::new(),
        web_allowed_networks: Vec::new(),
        ssh_scrollback: None,
        ssh_tmux_detach: false,
        ssh_typescript: None,
        drive: None,
        rdp: None,
        vdi: None,
    }
}

fn manager() -> SessionManager {
    SessionManager::new(config(), at(0))
}

fn session(id: u128, status: SessionStatus, share_token: &str) -> Session {
    Session {
        id,
        session_type: SessionType::Ssh,
        status,
        created_at: at(0),
        hostname: "test-host".to_string(),
        username: "alice".to_string(),
        url: None,
        banner: None,
        guacd_stream: None,
        connection_id: "conn-test".to_string(),
        share_token: share_token.to_string(),
        width: 1024,
        height: 768,
        active_connections: 0,
        created_by: "alice".to_string(),
        cancelled: false,
        browser_session: None,
        deferred_params: None,
        drive_path: None,
        drive_enabled: false,
        tunnels: None,
        container_id: None,
        container_name: None,
        recording_enabled: false,
        address_book_entry: None,
        address_book_folder: None,
        entry_display_name: None,
        max_recordings: None,
        login_script_handle: None,
        shadow_tokens: Vec::new(),
        share_allowed: true,
        fullscreen_on_connect: false,
        autohide_side_tabs: false,
        last_activity: NOW,
        source_ip: None,
        user_id: Some("alice".to_string()),
    }
}

fn seed(mgr: &mut SessionManager, status: SessionStatus) -> u128 {
    let id = mgr.sessions.len() as u128 + 1;
    mgr.sessions.push(session(id, status, "owner-secret"));
    id
}

// ── Drive settings ──

#[test]
fn drive_cleanup_settings_no_config_uses_legacy_defaults() {
    assert_eq!(drive_cleanup_settings(&None), (true, 0));
}

#[test]
fn drive_cleanup_settings_passes_through_config() {
    let cfg = DriveConfig {
        enabled: true,
        cleanup_on_close: false,
        retention_secs: 600,
        ..DriveConfig::default()
    };
    assert_eq!(drive_cleanup_settings(&Some(cfg)), (false, 600));
}

#[test]
fn drive_cleanup_settings_default_drive_config() {
    let cfg = DriveConfig::default();
    assert_eq!(drive_cleanup_settings(&Some(cfg)), (true, 0));
}

#[test]
fn a_closed_session_gives_up_what_runs_for_it() {
    let mut s = session(1, SessionStatus::Active, "t");
    s.browser_session = Some(3);
    s.login_script_handle = Some(4);
    s.drive_path = Some("/drive/1".to_string());
    s.tunnels = Some(5);
    let t = cleanup_browser(&mut s, true, 60);
    assert_eq!((t.browser, t.login_script, t.tunnels), (Some(3), Some(4), Some(5)));
    let d = t.drive.unwrap();
    assert_eq!((d.path.as_str(), d.retention_secs), ("/drive/1", 60));
    assert!(s.browser_session.is_none() && s.drive_path.is_none() && s.tunnels.is_none());
    assert_eq!(reaper_interval(600, 28_800), 300);
    assert_eq!(reaper_interval(10, 28_800), 30);
}

// ── Share tokens ──

fn make_shadow(raw: &str, issued_by: &str, expires_at: Timestamp) -> ShadowToken {
    ShadowToken {
        token_hash: hex::encode(Sha256::digest(raw.as_bytes())),
        issued_by: issued_by.to_string(),
        expires_at,
    }
}

#[test]
fn share_token_owner_match() {
    let v = check_share_token_match("owner-secret", &vec![], "owner-secret", at(0));
    assert_eq!(v, ShareTokenValidation::Owner);
}

#[test]
fn share_token_wrong_returns_invalid() {
    let v = check_share_token_match("owner-secret", &vec![], "wrong", at(0));
    assert_eq!(v, ShareTokenValidation::Invalid);
}

#[test]
fn share_token_empty_provided_invalid() {
    let v = check_share_token_match("owner-secret", &vec![], "", at(0));
    assert_eq!(v, ShareTokenValidation::Invalid);
}

#[test]
fn share_token_shadow_hit_returns_issued_by() {
    let shadow = make_shadow("shadow-raw", "admin@example.com", at(5 * 60));
    let v = check_share_token_match("owner-secret", &vec![shadow], "shadow-raw", at(0));
    assert_eq!(
        v,
        ShareTokenValidation::Shadow {
            issued_by: "admin@example.com".into()
        }
    );
}

#[test]
fn share_token_expired_shadow_rejected() {
    let expired = make_shadow("shadow-raw", "admin", at(-60));
    let v = check_share_token_match("owner-secret", &vec![expired], "shadow-raw", at(0));
    assert_eq!(v, ShareTokenValidation::Invalid);
}

#[test]
fn share_token_expires_at_now_treated_as_expired() {
    // Boundary: expires_at <= now must reject.
    let at_boundary = make_shadow("shadow-raw", "admin", at(0));
    let v = check_share_token_match("owner-secret", &vec![at_boundary], "shadow-raw", at(0));
    assert_eq!(v, ShareTokenValidation::Invalid);
}

#[test]
fn share_token_multiple_shadows_one_matches() {
    let ttl = at(5 * 60);
    let a = make_shadow("aaa", "admin1", ttl);
    let b = make_shadow("bbb", "admin2", ttl);
    let c = make_shadow("ccc", "admin3", ttl);
    let shadows = vec![a, b, c];
    let v = check_share_token_match("owner", &shadows, "bbb", at(0));
    assert_eq!(
        v,
        ShareTokenValidation::Shadow {
            issued_by: "admin2".into()
        }
    );
}

#[test]
fn share_token_owner_wins_over_shadow_of_same_string() {
    let shadow = make_shadow("collide", "admin", at(5 * 60));
    let v = check_share_token_match("collide", &vec![shadow], "collide", at(0));
    assert_eq!(v, ShareTokenValidation::Owner);
}

#[test]
fn share_token_validation_is_valid_helper() {
    assert!(ShareTokenValidation::Owner.is_valid());
    assert!(ShareTokenValidation::Shadow {
        issued_by: "x".into()
    }
    .is_valid());
    assert!(!ShareTokenValidation::Invalid.is_valid());
}

#[test]
fn share_tokens_are_fresh_hexadecimal() {
    let a = generate_share_token();
    assert_eq!(a.len(), 32);
    assert!(a.chars().all(|c| c.is_ascii_hexdigit() && !c.is_ascii_uppercase()));
    assert_ne!(a, generate_share_token());
}

#[test]
fn manager_owner_token_validates() {
    let mut mgr = manager();
    let id = seed(&mut mgr, SessionStatus::Active);
    assert_eq!(
        mgr.validate_share_token(id, "owner-secret", None, at(0)),
        ShareTokenValidation::Owner
    );
    assert_eq!(
        mgr.validate_share_token(id, "wrong", None, at(0)),
        ShareTokenValidation::Invalid
    );
}

#[test]
fn manager_mint_shadow_then_validate() {
    let mut mgr = manager();
    let id = seed(&mut mgr, SessionStatus::Active);
    let (raw, expires_at) = mgr
        .mint_shadow_token(id, "admin@example.com", at(0))
        .expect("mint");
    // 10-minute TTL.
    assert_eq!(expires_at, at(10 * 60));
    match mgr.validate_share_token(id, &raw, None, at(1)) {
        ShareTokenValidation::Shadow { issued_by } => {
            assert_eq!(issued_by, "admin@example.com")
        }
        other => panic!("expected Shadow variant, got {:?}", other),
    }
    assert_eq!(
        mgr.validate_share_token(id, &raw, None, at(10 * 60)),
        ShareTokenValidation::Invalid
    );
}

#[test]
fn manager_shadow_token_is_session_scoped() {
    let mut mgr = manager();
    mgr.sessions.push(session(1, SessionStatus::Active, "owner-a"));
    mgr.sessions.push(session(2, SessionStatus::Active, "owner-b"));
    let (raw, _) = mgr.mint_shadow_token(1, "admin", at(0)).expect("mint");
    assert_eq!(
        mgr.validate_share_token(2, &raw, None, at(1)),
        ShareTokenValidation::Invalid
    );
}

#[test]
fn manager_mint_prunes_expired_shadow_tokens() {
    let mut mgr = manager();
    let mut s = session(1, SessionStatus::Active, "owner");
    s.shadow_tokens.push(ShadowToken {
        token_hash: "deadbeef".into(),
        issued_by: "stale".into(),
        expires_at: at(-3600),
    });
    mgr.sessions.push(s);
    let _ = mgr.mint_shadow_token(1, "admin", at(0)).unwrap();
    let tokens = &mgr.sessions[0].shadow_tokens;
    assert_eq!(tokens.len(), 1, "expired should be pruned");
    assert_ne!(tokens[0].issued_by, "stale");
}

#[test]
fn manager_validate_rejects_unknown_session() {
    let mgr = manager();
    assert_eq!(
        mgr.validate_share_token(99, "anything", None, at(0)),
        ShareTokenValidation::Invalid
    );
    let mut mgr = manager();
    assert!(mgr.mint_shadow_token(99, "admin", at(0)).is_none());
}

#[test]
fn manager_disconnect_viewer_saturating_decrement() {
    let mut mgr = manager();
    let mut s = session(1, SessionStatus::Active, "owner");
    s.active_connections = 2;
    mgr.sessions.push(s);
    mgr.disconnect_viewer(1);
    mgr.disconnect_viewer(1);
    // One extra call must not underflow.
    mgr.disconnect_viewer(1);
    assert_eq!(mgr.sessions[0].active_connections, 0);
}

#[test]
fn remote_shadow_tokens_validate_by_row() {
    let mgr = manager();
    let minted = mgr.mint_remote_shadow_token(at(0));
    assert_eq!(minted.hash, hex::encode(Sha256::digest(minted.raw.as_bytes())));
    assert_eq!(minted.expires_at, at(600));
    let mut row = row("ssh", "active");
    row.shadow_token_hash = Some(minted.hash.clone());
    row.shadow_issued_by = Some("admin".to_string());
    row.shadow_expires_at = Some("2099-01-01 00:00:00".to_string());
    assert!(mgr.validate_share_token(7, &minted.raw, Some(&row), at(0)).is_valid());
    assert!(!mgr.validate_share_token(7, "other", Some(&row), at(0)).is_valid());
}

// ── Reaping ──

#[test]
fn reap_completed_keeps_disconnected_within_reconnect_window() {
    let mut mgr = manager();
    let id = seed(&mut mgr, SessionStatus::Active);
    mgr.disconnect_session(id, at(0));
    // Fresh disconnect: the session must survive cleanup.
    assert_eq!(mgr.reap_completed_sessions(at(0)).1, 0);
    assert!(mgr.is_session_disconnected(id));
}

#[test]
fn reap_completed_finalizes_disconnected_past_reconnect_window() {
    let mut mgr = manager();
    let id = seed(&mut mgr, SessionStatus::Active);
    mgr.disconnect_session(id, at(0));
    // Age the disconnect past the cleanup delay (300 s).
    mgr.disconnected_at.insert(id, at(-600));

    let (finalized, cleaned, _) = mgr.reap_completed_sessions(at(0));
    assert_eq!(cleaned, 1);
    assert_eq!(finalized[0].id, id);
    assert!(!mgr.is_session_disconnected(id));

    // The finalization is a real terminal transition: the event feed carries
    // a session_ended with `expired`.
    let (_, events) = mgr.replay_events(0);
    let ended = events
        .iter()
        .filter(|e| e.event == SessionEventKind::SessionEnded && e.session_id == id)
        .collect::<Vec<_>>();
    assert_eq!(ended.len(), 1);
    assert_eq!(ended[0].status, SessionStatus::Expired);
}

#[test]
fn reap_completed_finalizes_disconnected_once() {
    let mut mgr = manager();
    let id = seed(&mut mgr, SessionStatus::Active);
    mgr.disconnect_session(id, at(0));
    mgr.disconnected_at.insert(id, at(-600));
    assert_eq!(mgr.reap_completed_sessions(at(0)).1, 1);
    // Second pass: nothing left to finalize (session already removed).
    assert_eq!(mgr.reap_completed_sessions(at(0)).1, 0);
}

#[test]
fn reap_expired_zero_max_duration_is_disabled() {
    let mut config = config();
    config.session_max_duration_secs = 0;
    let mut mgr = SessionManager::new(config, at(0));
    let mut s = session(1, SessionStatus::Active, "t");
    s.created_at = at(-10 * 3600);
    mgr.sessions.push(s);
    // 0 = unlimited: the session must NOT be reaped.
    assert_eq!(mgr.reap_expired_sessions(at(0)).len(), 0);
    assert!(mgr.get_session(1, None, at(0)).is_some());
}

#[test]
fn reap_expired_reaps_past_max_duration() {
    let mut config = config();
    config.session_max_duration_secs = 60;
    let mut mgr = SessionManager::new(config, at(0));
    let mut s = session(1, SessionStatus::Active, "t");
    s.created_at = at(-600);
    mgr.sessions.push(s);
    assert_eq!(mgr.reap_expired_sessions(at(0)).len(), 1);
    assert!(mgr.get_session(1, None, at(0)).is_none());
}

#[test]
fn reap_idle_sessions_by_last_activity() {
    let mut config = config();
    config.session_idle_timeout_secs = 60;
    let mut mgr = SessionManager::new(config, at(0));
    let mut idle = session(1, SessionStatus::Active, "t");
    idle.last_activity = NOW - 600;
    mgr.sessions.push(idle);
    mgr.sessions.push(session(2, SessionStatus::Active, "t"));
    assert_eq!(mgr.get_idle_sessions(60, at(0)), vec![1]);
    assert!(mgr.get_expired_sessions(60, at(0)).is_empty());
    assert_eq!(mgr.reap_idle_sessions(at(0)).len(), 1);
    assert_eq!(mgr.sessions.len(), 1);
    mgr.update_activity(2, at(50));
    assert_eq!(mgr.sessions[0].last_activity, NOW + 50);
}

#[test]
fn ended_sessions_stay_ended() {
    let mut mgr = manager();
    let id = seed(&mut mgr, SessionStatus::Active);
    assert!(mgr.complete_session(id, at(1)).is_some());
    assert!(mgr.complete_session(id, at(2)).is_none());
    assert!(mgr.disconnect_session(id, at(2)).is_none());
    assert_eq!(mgr.sessions[0].status, SessionStatus::Completed);
    let (_, events) = mgr.replay_events(0);
    assert_eq!(events.len(), 1);
    assert!(mgr.error_session(id, at(2)).is_some());
    assert!(mgr.error_session(id, at(2)).is_none());
    assert!(mgr.sessions[0].status.is_terminal());
    assert!(mgr.delete_session(id, at(3)).is_some());
    assert!(mgr.delete_session(id, at(3)).is_none());
}

#[test]
fn pending_sessions_expire() {
    let mut mgr = manager();
    let id = seed(&mut mgr, SessionStatus::Pending);
    assert!(mgr.is_session_pending(id));
    assert!(mgr.expire_pending(id, at(61)).is_some());
    assert_eq!(mgr.sessions[0].status, SessionStatus::Expired);
    let id = seed(&mut mgr, SessionStatus::Active);
    assert!(mgr.expire_pending(id, at(61)).is_none());
}

#[test]
fn owners_connect_and_reconnect() {
    let mut mgr = manager();
    let mut s = session(1, SessionStatus::Pending, "t");
    s.guacd_stream = Some(9);
    mgr.sessions.push(s);
    let start = mgr.take_guacd_stream(1).expect("pending");
    assert!(start.deferred.is_none());
    let stream = mgr.finish_connect(1, SessionStatus::Pending, None, None, at(1));
    assert_eq!(stream, Some(9));
    assert_eq!(mgr.sessions[0].status, SessionStatus::Active);
    assert!(mgr.take_guacd_stream(1).is_none());
    mgr.disconnect_session(1, at(2));
    assert!(mgr.reconnect_session(1).is_some());
}

// ── Viewers ──

#[test]
fn owner_connection_tracking_excludes_owner_from_viewer_cap() {
    let mut mgr = manager();
    let mut s = session(1, SessionStatus::Active, "t");
    s.active_connections = 10; // 1 owner + 9 viewers
    mgr.sessions.push(s);

    // Without the owner slot, 10 connections are 10 viewers: at the cap.
    assert!(matches!(
        mgr.reserve_viewer_slot(1, 10),
        Err(SessionError::ViewerLimit {
            viewers: 10,
            max: 10
        })
    ));

    // With the owner slot tracked, they count as 9 viewers: a 10th may join.
    mgr.mark_owner_connected(1);
    assert!(mgr.owner_is_connected(1));
    assert!(mgr.reserve_viewer_slot(1, 10).is_ok());
    mgr.mark_owner_disconnected(1);
    assert!(!mgr.owner_is_connected(1));
}

#[test]
fn viewers_join_active_sessions() {
    let mut mgr = manager();
    let id = seed(&mut mgr, SessionStatus::Active);
    let target = mgr.join_session_as_viewer(id, 5).unwrap();
    assert_eq!((target.connection_id.as_str(), target.width, target.height), ("conn-test", 1024, 768));
    assert_eq!(mgr.sessions[0].active_connections, 1);
    mgr.disconnect_viewer(id);
    assert_eq!(mgr.sessions[0].active_connections, 0);
    assert!(matches!(mgr.join_session_as_viewer(77, 5), Err(SessionError::NotFound)));
    let pending = seed(&mut mgr, SessionStatus::Pending);
    assert!(matches!(
        mgr.join_session_as_viewer(pending, 5),
        Err(SessionError::NotActive)
    ));
}

fn join_args(read_only: bool) -> Vec<String> {
    let names = Instruction::new("args", vec!["read-only".into(), "hostname".into()]);
    let sent = join_answer(&names, 800, 600, 96, read_only).unwrap();
    let connect = sent.into_iter().find(|i| i.opcode == "connect").unwrap();
    connect.args
}

#[test]
fn join_connection_sends_read_only_true_for_shadow() {
    assert_eq!(join_args(true), vec!["true".to_string(), String::new()]);
}

#[test]
fn join_connection_sends_read_only_false_for_share_viewer() {
    assert_eq!(join_args(false), vec!["false".to_string(), String::new()]);
}

#[test]
fn join_messages() {
    assert_eq!(join_select("conn-1").encode(), "6.select,6.conn-1;");
    assert_eq!(join_handshake(800, 600, 96)[0].encode(), "4.size,3.800,3.600,2.96;");
    assert_eq!(
        join_arg_values(&vec!["read-only".to_string(), "VERSION_1_5_0".to_string()], true)[0],
        "true"
    );
    assert!(join_ready(&Instruction::new("ready", vec!["c".into()])).is_ok());
    assert_eq!(
        join_ready(&Instruction::new("error", vec!["a\"b".into(), "c".into()])).unwrap_err(),
        "expected 'ready' from join, got 'error' (args: [\"a\\\"b\", \"c\"])"
    );
    assert!(join_answer(&Instruction::new("error", vec![]), 1, 1, 96, true).is_err());
    assert_eq!(tls_server_name("guacd.internal:4822"), "guacd.internal");
    let mut parser = InstructionParser::new();
    assert!(first_instruction(&mut parser, "4.ar").is_none());
    let first = first_instruction(&mut parser, "gs,1.a;3.nop;").unwrap().unwrap();
    assert_eq!(first.opcode, "args");
}

// ── Retained credentials ──

fn cred(user_id: i64, username: &str, enc: &str, ttl_secs: i64) -> RetainedSessionCredential {
    RetainedSessionCredential {
        user_id,
        username: username.to_string(),
        password_enc: enc.to_string(),
        expires_at: at(ttl_secs),
    }
}

#[test]
fn store_and_get_roundtrip() {
    let mut store = SessionCredentialStore::new();
    assert!(store.is_empty());
    store.store("session-token", cred(7, "alice", "enc:v1:aaa", 3600), at(0));
    assert_eq!(store.len(), 1);
    let got = store.get("session-token", 7, at(0)).expect("same token, same user");
    assert_eq!(got.username, "alice");
    assert_eq!(got.password_enc, "enc:v1:aaa");
    assert_eq!(got.user_id, 7);
}

#[test]
fn different_token_does_not_resolve() {
    let mut store = SessionCredentialStore::new();
    store.store("token-a", cred(7, "alice", "enc:v1:aaa", 3600), at(0));
    assert!(store.get("token-b", 7, at(0)).is_none());
}

#[test]
fn different_user_does_not_resolve() {
    let mut store = SessionCredentialStore::new();
    store.store("token-a", cred(7, "alice", "enc:v1:aaa", 3600), at(0));
    assert!(store.get("token-a", 8, at(0)).is_none(), "owning-session check");
}

#[test]
fn expired_entry_fails_closed_and_is_pruned() {
    let mut store = SessionCredentialStore::new();
    store.store("token-a", cred(7, "alice", "enc:v1:aaa", -1), at(0));
    assert!(store.get("token-a", 7, at(0)).is_none(), "expired must fail closed");
    assert!(store.is_empty(), "get prunes expired entries");
}

#[test]
fn store_prunes_expired_entries() {
    let mut store = SessionCredentialStore::new();
    store.store("token-old", cred(7, "alice", "enc:v1:aaa", -1), at(0));
    store.store("token-new", cred(7, "alice", "enc:v1:bbb", 3600), at(0));
    assert_eq!(store.len(), 1, "the expired entry was pruned on store");
    assert!(store.get("token-new", 7, at(0)).is_some());
}

#[test]
fn remove_and_clear() {
    let mut store = SessionCredentialStore::new();
    store.store("token-a", cred(7, "alice", "enc:v1:aaa", 3600), at(0));
    assert!(store.remove("token-a"));
    assert!(!store.remove("token-a"));
    store.store("token-b", cred(7, "bob", "enc:v1:bbb", 3600), at(0));
    store.clear_all();
    assert!(store.is_empty());
}

#[test]
fn key_is_a_hash_not_the_token() {
    let mut store = SessionCredentialStore::new();
    store.store("secret-token-value", cred(7, "alice", "enc:v1:aaa", 3600), at(0));
    // The plaintext token must not be a key in the map.
    let keys = store.keys();
    assert!(!keys.iter().any(|k| k == "secret-token-value"));
    assert_eq!(keys.len(), 1);
    assert_eq!(keys[0], hex::encode(Sha256::digest(b"secret-token-value")));
}

#[test]
fn session_credentials_roundtrip_owning_session_only() {
    let mut mgr = manager();
    mgr.store_session_credentials(
        "session-token",
        7,
        "alice",
        "enc:v1:aaa".to_string(),
        3600,
        at(0),
    );
    // Same token, same user: resolved.
    let got = mgr
        .session_credentials("session-token", 7, at(0))
        .expect("owning session");
    assert_eq!(got.username, "alice");
    assert_eq!(got.password_enc, "enc:v1:aaa");
    // Different token or different user: fail closed.
    assert!(mgr.session_credentials("other-token", 7, at(0)).is_none());
    assert!(mgr.session_credentials("session-token", 8, at(0)).is_none());
}

#[test]
fn session_credentials_clear_on_logout_and_expire() {
    let mut mgr = manager();
    let enc = || "enc:v1:abc".to_string();
    mgr.store_session_credentials("session-token", 7, "alice", enc(), 3600, at(0));
    assert_eq!(mgr.session_credentials_len(), 1);

    // Logout clears the entry for that session.
    assert!(mgr.clear_session_credentials("session-token"));
    assert!(mgr.session_credentials("session-token", 7, at(0)).is_none());
    assert_eq!(mgr.session_credentials_len(), 0);

    // A zero-TTL entry is already expired: retrieval fails closed and the
    // prune removes it.
    mgr.store_session_credentials("expired-token", 7, "alice", enc(), 0, at(0));
    assert!(mgr.session_credentials("expired-token", 7, at(0)).is_none());
    mgr.prune_session_credentials(at(0));
    assert_eq!(mgr.session_credentials_len(), 0);
}

#[test]
fn prune_drops_credentials_whose_session_was_revoked() {
    let mut mgr = manager();
    mgr.store_session_credentials("tok", 7, "alice", "enc:v1:abc".to_string(), 3600, at(0));
    assert_eq!(mgr.session_credentials_len(), 1);

    // Live session: the prune keeps the entry.
    let hashes = mgr.prune_session_credentials(at(0));
    let live = hashes.clone();
    mgr.drop_revoked_credentials(&hashes, &live);
    assert_eq!(mgr.session_credentials_len(), 1);
    assert!(mgr.session_credentials("tok", 7, at(0)).is_some());

    // Revocation: the auth session is gone, so the next prune drops the
    // retained credential.
    let hashes = mgr.prune_session_credentials(at(0));
    mgr.drop_revoked_credentials(&hashes, &Vec::new());
    assert_eq!(mgr.session_credentials_len(), 0);
    assert!(mgr.session_credentials("tok", 7, at(0)).is_none());
}

#[test]
fn cleanup_prunes_retained_credentials() {
    let mut mgr = manager();
    let enc = || "enc:v1:abc".to_string();
    mgr.store_session_credentials("short", 7, "alice", enc(), 60, at(0));
    mgr.store_session_credentials("long", 8, "bob", enc(), 3600, at(0));
    assert_eq!(mgr.reap_completed_sessions(at(30)).2.len(), 2);
    let (_, cleaned, keys) = mgr.reap_completed_sessions(at(90));
    assert_eq!(cleaned, 0);
    assert_eq!(keys.len(), 1);
    assert_eq!(mgr.session_credentials_len(), 1);
    assert!(mgr.session_credentials("long", 8, at(90)).is_some());
    // Its auth session was revoked.
    mgr.drop_revoked_credentials(&keys, &Vec::new());
    assert_eq!(mgr.session_credentials_len(), 0);
}

#[test]
fn completing_a_disconnected_session_leaves_the_gauge() {
    let mut mgr = manager();
    let id = seed(&mut mgr, SessionStatus::Active);
    mgr.metrics.sessions_active = 1;
    mgr.disconnect_session(id, at(0));
    assert_eq!(mgr.metrics.sessions_active, 0);
    assert!(mgr.complete_session(id, at(1)).is_some());
    assert_eq!(mgr.metrics.sessions_active, 0);
    let other = seed(&mut mgr, SessionStatus::Active);
    mgr.metrics.sessions_active = 1;
    assert!(mgr.complete_session(other, at(1)).is_some());
    assert_eq!(mgr.metrics.sessions_active, 0);
}

#[test]
fn only_a_deleted_session_tells_its_viewers_to_stop() {
    let mut config = config();
    config.session_max_duration_secs = 60;
    let mut mgr = SessionManager::new(config, at(0));
    let id = seed(&mut mgr, SessionStatus::Active);
    assert!(!mgr.disconnect_session(id, at(0)).unwrap().cancel);
    assert!(!mgr.complete_session(id, at(0)).unwrap().cancel);
    assert!(mgr.delete_session(id, at(0)).unwrap().cancel);
    let id = seed(&mut mgr, SessionStatus::Active);
    assert!(!mgr.error_session(id, at(0)).unwrap().cancel);
    mgr.delete_session(id, at(0));
    seed(&mut mgr, SessionStatus::Active);
    let reaped = mgr.reap_expired_sessions(at(100));
    assert_eq!(reaped.len(), 1);
    assert!(reaped[0].closing.cancel);
}

#[test]
fn ages_of_rows_and_sessions() {
    let mut config = config();
    config.session_pending_timeout_secs = 10;
    config.session_max_duration_secs = 0;
    let cut = SessionManager::new(config, at(0)).sweep_cutoffs(at(0));
    assert_eq!((cut.pending, cut.terminal, cut.live), (NOW - 60, NOW - 86_400, None));
    let cut = manager().sweep_cutoffs(at(0));
    assert_eq!((cut.pending, cut.live), (NOW - 120, Some(NOW - 36_000)));
    // Lifetimes count whole seconds.
    let mut mgr = manager();
    let id = seed(&mut mgr, SessionStatus::Active);
    let later = |secs: i64, nanos: u32| Timestamp { secs: NOW + secs, nanos };
    assert!(mgr.get_expired_sessions(60, later(60, 999_999_999)).is_empty());
    assert_eq!(mgr.get_expired_sessions(60, later(61, 0)), vec![id]);
    // A session from the future, by less and by more than a second.
    assert_eq!(mgr.get_expired_sessions(-1, later(-1, 1)), vec![id]);
    assert!(mgr.get_expired_sessions(-1, later(-1, 0)).is_empty());
    assert_eq!(mgr.get_expired_sessions(-2, later(-1, 0)), vec![id]);
}

// ── Views ──

fn row(kind: &str, status: &str) -> SessionRegistryRow {
    SessionRegistryRow {
        session_id: "00000000-0000-0000-0000-000000000007".to_string(),
        owner_instance: "node-b".to_string(),
        owner_base_url: "https://b.example.com".to_string(),
        session_type: kind.to_string(),
        status: status.to_string(),
        hostname: "remote".to_string(),
        username: "bob".to_string(),
        created_by: "bob".to_string(),
        created_at: "2025-10-09 08:53:20".to_string(),
        shadow_token_hash: None,
        shadow_issued_by: None,
        shadow_expires_at: None,
    }
}

#[test]
fn active_session_count_matches_live_bucket() {
    let mut mgr = manager();
    // One session in each status.
    seed(&mut mgr, SessionStatus::Active);
    seed(&mut mgr, SessionStatus::Pending);
    let id_disconnected = seed(&mut mgr, SessionStatus::Active);
    seed(&mut mgr, SessionStatus::Completed);
    seed(&mut mgr, SessionStatus::Error);

    // Disconnect one session so it enters the Disconnected state.
    mgr.disconnect_session(id_disconnected, at(0));

    assert_eq!(
        mgr.active_session_count(&Vec::new(), at(0)),
        3,
        "active_session_count must count Active|Pending|Disconnected"
    );

    // Terminal sessions must not inflate the count.
    mgr.sessions.truncate(3);
    assert_eq!(mgr.active_session_count(&Vec::new(), at(0)), 3);
}

#[test]
fn registry_rows_become_remote_sessions() {
    let info = SessionInfo::from_registry(&row("RDP", "Active"), at(0)).unwrap();
    assert_eq!(info.session_id, 7);
    assert_eq!(info.session_type, SessionType::Rdp);
    assert_eq!(info.status, SessionStatus::Active);
    assert_eq!(info.created_at, Timestamp::at_second(1_760_000_000));
    assert!(info.remote);
    assert_eq!(info.owner_instance.as_deref(), Some("node-b"));
    let odd = SessionInfo::from_registry(&row("odd", "odd"), at(0)).unwrap();
    assert_eq!(odd.session_type, SessionType::Ssh);
    assert_eq!(odd.status, SessionStatus::Error);
    let mut bad = row("ssh", "active");
    bad.session_id = "not-an-id".to_string();
    assert!(SessionInfo::from_registry(&bad, at(0)).is_none());
    let mut undated = row("ssh", "active");
    undated.created_at = "yesterday".to_string();
    assert_eq!(SessionInfo::from_registry(&undated, at(5)).unwrap().created_at, at(5));
}

#[test]
fn local_sessions_are_listed_with_remote_ones() {
    let mut mgr = manager();
    let id = seed(&mut mgr, SessionStatus::Active);
    let rows = vec![row("ssh", "active")];
    assert_eq!(mgr.list_sessions(&rows, at(0)).len(), 2);
    assert_eq!(mgr.active_session_count(&rows, at(0)), 2);
    let info = mgr.get_session(id, None, at(0)).unwrap();
    assert_eq!(info.client_url, "/client/00000000-0000-0000-0000-000000000001");
    assert_eq!(mgr.get_session_creator(id).as_deref(), Some("alice"));
    assert!(!mgr.is_recording_enabled(id));
    assert!(mgr.get_recording_meta(id).is_some());
    assert_eq!(mgr.get_user_session_count("alice"), 1);
    assert!(mgr.check_concurrent_limit("alice", 2));
    assert!(!mgr.check_concurrent_limit("alice", 1));
    assert_eq!(mgr.instance_id(), "node-a");
    assert_eq!(mgr.owner_base_url(), None);
    assert_eq!(mgr.session_max_duration_secs(), 28_800);
    assert_eq!(mgr.recording_path(), "/var/lib/persea/recordings");
}

#[test]
fn shutdown_stops_live_sessions() {
    let mut mgr = manager();
    seed(&mut mgr, SessionStatus::Active);
    seed(&mut mgr, SessionStatus::Completed);
    mgr.initiate_shutdown();
    assert!(mgr.is_shutting_down());
    assert_eq!(mgr.cancel_all_sessions(), 1);
    assert!(mgr.sessions[0].cancelled);
    assert!(!mgr.sessions[1].cancelled);
}

#[test]
fn one_event_stream_per_identity() {
    let mut mgr = manager();
    assert!(mgr.try_claim_sse_subscription("alice"));
    assert!(!mgr.try_claim_sse_subscription("alice"));
    assert!(mgr.try_claim_sse_subscription("bob"));
    mgr.release_sse_subscription("alice");
    assert!(mgr.try_claim_sse_subscription("alice"));
}

fn event(session_id: u128) -> SessionEvent {
    SessionEvent {
        id: 0,
        event: SessionEventKind::SessionStarted,
        session_id,
        session_type: SessionType::Ssh,
        status: SessionStatus::Pending,
        created_by: "alice".to_string(),
        timestamp: at(0),
    }
}

#[test]
fn events_are_numbered_and_bounded() {
    let mut log = EventLog::new();
    for i in 0..600u128 {
        assert_eq!(log.publish(event(i)), i as u64 + 1);
    }
    let (last, all) = log.replay(0);
    assert_eq!(last, 600);
    assert_eq!(all.len(), 500);
    assert_eq!(all[0].id, 101);
    let (_, newer) = log.replay(598);
    assert_eq!(newer.iter().map(|e| e.id).collect::<Vec<_>>(), vec![599, 600]);
}

#[test]
fn errors_in_words_of_sessions() {
    assert_eq!(SessionError::NotFound.message(), "session not found");
    assert_eq!(SessionError::NotActive.message(), "session is not active");
    assert_eq!(
        SessionError::ValidationError("x".to_string()).message(),
        "validation error: x"
    );
    assert_eq!(
        SessionError::GuacdConnection("x".to_string()).message(),
        "guacd connection failed: x"
    );
    assert_eq!(
        SessionError::BrowserSpawn("x".to_string()).message(),
        "browser spawn failed: x"
    );
    assert_eq!(SessionError::VdiError("x".to_string()).message(), "VDI error: x");
}

#[test]
fn a_round_ends_idle_and_old_sessions() {
    let mut mgr = manager();
    let mut idle = session(1, SessionStatus::Active, "t");
    idle.last_activity = NOW - 600;
    let mut old = session(2, SessionStatus::Active, "t");
    old.created_at = at(-4000);
    mgr.sessions.push(idle);
    mgr.sessions.push(old);
    mgr.sessions.push(session(3, SessionStatus::Active, "t"));
    mgr.metrics.sessions_active = 3;
    let round = mgr.reap_round(300, 3600, at(0));
    assert_eq!(round.idle.iter().map(|r| r.id).collect::<Vec<_>>(), vec![1]);
    assert_eq!(round.expired.iter().map(|r| r.id).collect::<Vec<_>>(), vec![2]);
    assert_eq!(
        round.expired_history[0].session_id,
        "00000000-0000-0000-0000-000000000002"
    );
    assert_eq!(round.idle_history[0].session_type, "ssh");
    assert_eq!(mgr.sessions.len(), 1);
    // The gauge follows the sessions that are left.
    assert_eq!(mgr.metrics.sessions_active, 1);
    let none = mgr.reap_round(0, 0, at(100_000));
    assert!(none.idle.is_empty() && none.expired.is_empty());
    let row = save_session_metadata(&mgr.sessions[0]);
    assert_eq!((row.hostname.as_str(), row.created_by.as_str()), ("test-host", "alice"));
}

#[test]
fn the_gauge_counts_active_sessions() {
    let mut mgr = manager();
    let mut s = session(1, SessionStatus::Pending, "t");
    s.guacd_stream = Some(9);
    mgr.sessions.push(s);
    mgr.finish_connect(1, SessionStatus::Pending, None, None, at(1));
    assert_eq!(mgr.metrics.sessions_active, 1);
    mgr.disconnect_session(1, at(2));
    assert_eq!(mgr.metrics.sessions_active, 0);
}
