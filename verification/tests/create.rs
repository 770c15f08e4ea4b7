use persea::config::{Config, RdpConfig};
use persea::session::create::{
    check_session_type_enabled, count_live_sessions, protocol_label, protocol_toggle,
    ProtocolDefaults,
};
use persea::session::manager::SessionManager;
use persea::session::names::{
    expand_rdp_client_name_template, expand_typescript_name, sanitize, vdi_container_username,
    DEFAULT_TYPESCRIPT_NAME, RDP_CLIENT_NAME_MAX_CHARS,
};
use persea::session::network::{
    check_allowed_network, client_name_from, judge_host, judge_target, needs_lookup,
    reject_denied_target, resolve_client_host, IpNumber, Lookup, Network,
};
use persea::session::plan::parse_autofill_credentials;
use persea::session::resolve_rdp_auth_pkg;
use persea::session::types::{Session, SessionError, SessionStatus, SessionType};
use persea::time::Timestamp;

fn plain_config() -> Config {
    Config {
        instance_id: "node-a".to_string(),
        ha_base_url: None,
        guacd_addr: "127.0.0.1:4822".to_string(),
        recording_dir: "/rec".to_string(),
        recording_enabled: false,
        password_min_length: 15,
        password_history_len: 5,
        max_sessions: 2,
        max_sessions_per_user: 1,
        session_pending_timeout_secs: 60,
        session_max_duration_secs: 28_800,
        session_idle_timeout_secs: 0,
        session_cleanup_delay_secs: 300,
        ssh_allowed_networks: Vec::new(),
        rdp_allowed_networks: Vec::new(),
        vnc_allowed_networks: Vec::new(),
        web_allowed_networks: Vec::new(),
        ssh_scrollback: None,
        ssh_tmux_detach: false,
        ssh_typescript: None,
        drive: None,
        rdp: None,
        vdi: None,
    }
}

fn cfg(default_auth_pkg: Option<&str>) -> Config {
    Config {
        rdp: Some(RdpConfig {
            default_auth_pkg: default_auth_pkg.map(|s| s.to_string()),
            client_name_template: None,
        }),
        ..plain_config()
    }
}

#[test]
fn entry_value_wins_over_server_default() {
    let c = cfg(Some("ntlm"));
    assert_eq!(
        resolve_rdp_auth_pkg(Some("kerberos"), &c),
        Some("kerberos".into())
    );
}

#[test]
fn empty_entry_value_falls_through_to_server_default() {
    let c = cfg(Some("kerberos"));
    assert_eq!(resolve_rdp_auth_pkg(Some(""), &c), Some("kerberos".into()));
    assert_eq!(
        resolve_rdp_auth_pkg(Some("   "), &c),
        Some("kerberos".into())
    );
}

#[test]
fn no_entry_no_config_defaults_to_ntlm() {
    let c = plain_config();
    assert_eq!(resolve_rdp_auth_pkg(None, &c), Some("ntlm".into()));
}

#[test]
fn empty_config_default_falls_through_to_ntlm() {
    let c = cfg(Some(""));
    assert_eq!(resolve_rdp_auth_pkg(None, &c), Some("ntlm".into()));
}

#[test]
fn server_default_applies_when_entry_none() {
    let c = cfg(Some("negotiate"));
    assert_eq!(resolve_rdp_auth_pkg(None, &c), Some("negotiate".into()));
}

// ── Typescript names ──

/// 2026-06-10 14:30:22 UTC
const TS_WHEN: i64 = 1_781_101_822;

const TS_ID: u128 = 0x0123abcd_1111_2222_3333_444455556666;

#[test]
fn typescript_name_expands_all_tokens() {
    let got = expand_typescript_name(
        "{connection}-{user}-{date}-{time}-{host}-{session}",
        "alice",
        "switch01",
        "Core Switch 01",
        TS_ID,
        TS_WHEN,
    );
    assert_eq!(
        got,
        "Core-Switch-01-alice-20260610-143022-switch01-0123abcd"
    );
}

#[test]
fn typescript_name_default_template() {
    let got = expand_typescript_name(
        DEFAULT_TYPESCRIPT_NAME,
        "bob",
        "rtr-2",
        "Edge Router",
        TS_ID,
        TS_WHEN,
    );
    assert_eq!(got, "Edge-Router-bob-20260610-143022");
}

#[test]
fn typescript_name_sanitises_path_traversal_and_oidc_email() {
    // A crafted entry name must not escape the typescript dir, and an
    // OIDC email username must reduce to a safe basename.
    let got = expand_typescript_name(
        "{connection}-{user}",
        "alice@example.com",
        "h",
        "../../etc/cron.d/evil",
        TS_ID,
        TS_WHEN,
    );
    assert!(!got.contains('/'), "no path separators: {got}");
    assert!(!got.contains(".."), "no traversal: {got}");
    assert_eq!(got, "etc-cron-d-evil-alice-example-com");
}

#[test]
fn typescript_name_empty_value_falls_back_to_unknown() {
    let got = expand_typescript_name("{user}", "", "h", "c", TS_ID, TS_WHEN);
    assert_eq!(got, "unknown");
}

#[test]
fn typescript_name_unknown_token_left_literal() {
    let got = expand_typescript_name("pre-{bogus}-{user}", "x", "h", "c", TS_ID, TS_WHEN);
    assert_eq!(got, "pre-{bogus}-x");
}

// ── RDP client-name template ──

#[test]
fn rdp_client_name_expands_user_and_host() {
    let got = expand_rdp_client_name_template("{user}@{host}", "alice", "switch01");
    assert_eq!(got, "alice@switch01");
}

#[test]
fn rdp_client_name_custom_template_and_unknown_placeholder() {
    assert_eq!(
        expand_rdp_client_name_template("{user}:{host}", "bob", "192.0.2.5"),
        "bob:192.0.2.5"
    );
    assert_eq!(
        expand_rdp_client_name_template("persea-{bogus}-{user}", "carol", "h1"),
        "persea-{bogus}-carol"
    );
}

#[test]
fn rdp_client_name_truncates_to_guacd_32_char_limit() {
    let got = expand_rdp_client_name_template(
        "{user}@{host}",
        "alice",
        "very-long-fqdn.corp.example.com",
    );
    assert_eq!(got.chars().count(), RDP_CLIENT_NAME_MAX_CHARS);
    assert_eq!(got, "alice@very-long-fqdn.corp.exampl");
}

#[test]
fn rdp_client_name_empty_template_expands_to_empty() {
    assert_eq!(expand_rdp_client_name_template("", "alice", "h1"), "");
    assert_eq!(
        expand_rdp_client_name_template("   ", "alice", "h1"),
        "   ",
        "disable check happens on the trimmed template in the RDP branch"
    );
}

#[test]
fn resolve_client_host_missing_or_invalid_ip_falls_back() {
    assert_eq!(resolve_client_host(None, None), "unknown");
    assert_eq!(resolve_client_host(Some(""), None), "unknown");
    assert_eq!(resolve_client_host(Some("not-an-ip"), None), "not-an-ip");
}

#[test]
fn resolve_client_host_unresolvable_ip_returns_raw_ip() {
    // Nothing came back of the reverse lookup.
    assert_eq!(resolve_client_host(Some("203.0.113.7"), None), "203.0.113.7");
}

// ── Per-protocol global defaults ──

fn stored(rows: &[(&str, &str)]) -> Vec<(String, String)> {
    rows.iter()
        .map(|(k, v)| (k.to_string(), v.to_string()))
        .collect()
}

#[test]
fn protocol_defaults_unset_settings_match_code_defaults() {
    let d = ProtocolDefaults::from_settings(&SessionType::Rdp, &[]);
    assert_eq!((d.width, d.height, d.dpi), (1920, 1080, 96));
    assert_eq!(d.rdp_security, None);
    assert!(d.rdp_h264, "H.264 must default on");
    assert!(d.rdp_gfx, "GFX must default on");
    assert_eq!(d.rdp_drive, None);
    assert_eq!(d.vnc_color_depth, None);
    assert!(!d.vnc_disable_copy);
    assert!(!d.vnc_disable_paste);
}

#[test]
fn protocol_defaults_apply_per_protocol_settings() {
    let settings = stored(&[
        ("default_rdp_width", "1280"),
        ("default_rdp_height", "800"),
        ("default_rdp_dpi", "120"),
        ("default_rdp_security", "nla"),
        ("default_rdp_h264", "false"),
        ("default_rdp_gfx", "false"),
        ("default_rdp_drive", "true"),
        ("default_ssh_width", "200"),
        ("default_ssh_height", "60"),
        ("default_vnc_color_depth", "16"),
        ("default_vnc_disable_copy", "true"),
        ("default_vnc_disable_paste", "true"),
    ]);
    let rdp = ProtocolDefaults::from_settings(&SessionType::Rdp, &settings);
    assert_eq!((rdp.width, rdp.height, rdp.dpi), (1280, 800, 120));
    assert_eq!(rdp.rdp_security.as_deref(), Some("nla"));
    assert!(!rdp.rdp_h264);
    assert!(!rdp.rdp_gfx);
    assert_eq!(rdp.rdp_drive, Some(true));
    assert_eq!(
        rdp.vnc_color_depth,
        Some(16),
        "all groups are populated; only the session's protocol branch reads its own"
    );

    let ssh = ProtocolDefaults::from_settings(&SessionType::Ssh, &settings);
    assert_eq!(
        (ssh.width, ssh.height),
        (200, 60),
        "SSH width must come from default_ssh_width, not default_rdp_width"
    );
    assert_eq!(ssh.dpi, 96, "SSH has no per-protocol DPI setting");
    assert!(
        !ssh.rdp_h264,
        "the RDP H.264 default still populates the struct; only the RDP branch reads it"
    );

    let vnc = ProtocolDefaults::from_settings(&SessionType::Vnc, &settings);
    assert_eq!(vnc.vnc_color_depth, Some(16));
    assert!(vnc.vnc_disable_copy);
    assert!(vnc.vnc_disable_paste);
    assert_eq!(
        (vnc.width, vnc.height),
        (1920, 1080),
        "VNC has no per-protocol resolution settings"
    );
}

#[test]
fn protocol_defaults_other_types_stay_on_code_defaults() {
    for st in [
        SessionType::Web,
        SessionType::Spice,
        SessionType::Vdi,
        SessionType::Proxmox,
    ] {
        let d = ProtocolDefaults::from_settings(&st, &[]);
        assert_eq!((d.width, d.height, d.dpi), (1920, 1080, 96));
        assert!(d.rdp_h264);
        assert!(d.rdp_gfx);
    }
}

#[test]
fn protocol_defaults_garbage_stored_values_fall_back() {
    let settings = stored(&[
        ("default_rdp_width", "wide"),
        ("default_rdp_h264", "maybe"),
        ("default_rdp_security", ""),
        ("default_rdp_drive", "yes"),
        ("default_vnc_color_depth", "deep"),
    ]);
    let d = ProtocolDefaults::from_settings(&SessionType::Rdp, &settings);
    assert_eq!(d.width, 1920);
    assert!(d.rdp_h264);
    assert_eq!(d.rdp_security, None);
    assert_eq!(d.rdp_drive, None);
    assert_eq!(d.vnc_color_depth, None);
}

#[test]
fn protocol_defaults_unknown_security_mode_falls_back() {
    // A manually-edited DB value outside the accepted modes must not
    // reach guacd: fall back to the pass-through code default.
    let settings = stored(&[("default_rdp_security", "ssl3")]);
    let d = ProtocolDefaults::from_settings(&SessionType::Rdp, &settings);
    assert_eq!(d.rdp_security, None);
    let settings = stored(&[("default_rdp_security", "tls")]);
    let d = ProtocolDefaults::from_settings(&SessionType::Rdp, &settings);
    assert_eq!(d.rdp_security.as_deref(), Some("tls"));
}

// ── Networks ──

fn unresolved() -> Lookup {
    Lookup::Failed("not asked".to_string())
}

#[test]
fn test_check_allowed_network_ipv4_match() {
    assert!(check_allowed_network("127.0.0.1", &vec!["127.0.0.0/8".into()], &unresolved()).is_ok());
    assert!(check_allowed_network("10.1.2.3", &vec!["10.0.0.0/8".into()], &unresolved()).is_ok());
}

#[test]
fn test_check_allowed_network_ipv4_denied() {
    let err = check_allowed_network("8.8.8.8", &vec!["127.0.0.0/8".into()], &unresolved());
    assert!(err.is_err());
}

#[test]
fn test_check_allowed_network_empty_allowlist() {
    let err = check_allowed_network("127.0.0.1", &vec![], &unresolved());
    assert!(err.is_err());
    let msg = err.unwrap_err().message();
    assert!(msg.contains("no valid CIDR"), "got: {}", msg);
}

#[test]
fn test_check_allowed_network_multiple_cidrs() {
    let cidrs = vec!["10.0.0.0/8".into(), "192.168.0.0/16".into()];
    assert!(check_allowed_network("10.1.1.1", &cidrs, &unresolved()).is_ok());
    assert!(check_allowed_network("192.168.1.1", &cidrs, &unresolved()).is_ok());
    assert!(check_allowed_network("172.16.0.1", &cidrs, &unresolved()).is_err());
}

#[test]
fn test_check_allowed_network_localhost_resolves() {
    // "localhost" should resolve to 127.0.0.1 or ::1
    let cidrs = vec!["127.0.0.0/8".into(), "::1/128".into()];
    assert!(needs_lookup("localhost", &cidrs));
    for ip in [IpNumber::V4(0x7f00_0001), IpNumber::V6(1)] {
        let lookup = Lookup::Addresses(vec![ip]);
        assert!(check_allowed_network("localhost", &cidrs, &lookup).is_ok());
    }
}

#[test]
fn lookups_that_fail_are_refused() {
    let cidrs = vec!["10.0.0.0/8".to_string()];
    for lookup in [
        Lookup::Addresses(Vec::new()),
        Lookup::Addresses(vec![IpNumber::V4(0x0808_0808)]),
        Lookup::TimedOut,
        Lookup::TaskFailed("x".to_string()),
        unresolved(),
    ] {
        assert!(check_allowed_network("name", &cidrs, &lookup).is_err());
    }
    assert!(check_allowed_network("https://name", &cidrs, &unresolved()).is_err());
    assert!(!needs_lookup("10.0.0.1", &cidrs));
    let nets = vec![Network::V4(0x0a00_0000, 8)];
    assert!(judge_host("10.1.1.1", &nets, Some(IpNumber::V4(0x0a01_0101)), &unresolved()).is_ok());
    assert!(nets[0].contains(IpNumber::V4(0x0aff_ffff)));
    assert!(!nets[0].contains(IpNumber::V6(1)));
}

#[test]
fn metadata_addresses_are_denied() {
    let e = reject_denied_target("169.254.169.254").unwrap_err();
    assert_eq!(
        e.message(),
        "validation error: access to link-local / cloud metadata network 169.254.0.0/16 is blocked"
    );
    assert!(reject_denied_target("10.0.0.1").is_ok());
    assert!(reject_denied_target("some-name").is_ok());
    assert!(judge_target(Some(IpNumber::V4(0xa9fe_0000))).is_err());
    assert!(judge_target(Some(IpNumber::V4(0xa9fe_ffff))).is_err());
    assert!(judge_target(Some(IpNumber::V4(0xa9fd_ffff))).is_ok());
    assert!(judge_target(Some(IpNumber::V4(0xa9ff_0000))).is_ok());
    assert!(judge_target(Some(IpNumber::V6(0xa9fe_0000))).is_ok());
    assert!(judge_target(None).is_ok());
}

#[test]
fn test_parse_autofill_none() {
    assert!(parse_autofill_credentials(None, None, None).is_none());
}

#[test]
fn test_parse_autofill_empty_string() {
    assert!(parse_autofill_credentials(Some(""), None, None).is_none());
}

#[test]
fn test_parse_autofill_invalid_json() {
    assert!(parse_autofill_credentials(Some("not json"), None, None).is_none());
}

#[test]
fn test_parse_autofill_empty_array() {
    assert!(parse_autofill_credentials(Some("[]"), None, None).is_none());
}

#[test]
fn test_parse_autofill_basic() {
    let json = r#"[{"url":"https://example.com","username":"alice","password":"secret"}]"#;
    let creds = parse_autofill_credentials(Some(json), None, None).unwrap();
    assert_eq!(creds.len(), 1);
    assert_eq!(creds[0].0, "https://example.com");
    assert_eq!(creds[0].1, "alice");
    assert_eq!(creds[0].2, "secret");
}

#[test]
fn test_parse_autofill_placeholder_substitution() {
    let json = r#"[{"url":"https://ex.com","username":"$USERNAME","password":"$PASSWORD"}]"#;
    let creds = parse_autofill_credentials(Some(json), Some("bob"), Some("pass123")).unwrap();
    assert_eq!(creds[0].1, "bob");
    assert_eq!(creds[0].2, "pass123");
}

#[test]
fn test_parse_autofill_placeholder_no_credentials() {
    // Placeholders with no username/password should substitute empty strings
    let json = r#"[{"url":"https://ex.com","username":"$USERNAME","password":"$PASSWORD"}]"#;
    let creds = parse_autofill_credentials(Some(json), None, None).unwrap();
    assert_eq!(creds[0].1, "");
    assert_eq!(creds[0].2, "");
}

#[test]
fn test_parse_autofill_multiple_entries() {
    let json = r#"[
        {"url":"https://app.com","username":"$USERNAME","password":"$PASSWORD"},
        {"url":"https://idp.com","username":"$USERNAME","password":"$PASSWORD"}
    ]"#;
    let creds = parse_autofill_credentials(Some(json), Some("alice"), Some("secret")).unwrap();
    assert_eq!(creds.len(), 2);
    assert_eq!(creds[0].0, "https://app.com");
    assert_eq!(creds[1].0, "https://idp.com");
}

#[test]
fn test_parse_autofill_missing_fields_skipped() {
    // Entries missing required fields are silently skipped
    let json =
        r#"[{"url":"https://ex.com"},{"url":"https://ok.com","username":"a","password":"b"}]"#;
    let creds = parse_autofill_credentials(Some(json), None, None).unwrap();
    assert_eq!(creds.len(), 1);
    assert_eq!(creds[0].0, "https://ok.com");
}

// ── Protocol lockdown toggles ──

const ALL_TYPES: [SessionType; 7] = [
    SessionType::Ssh,
    SessionType::Web,
    SessionType::Rdp,
    SessionType::Vnc,
    SessionType::Vdi,
    SessionType::Spice,
    SessionType::Proxmox,
];

fn only_off<'a>(disabled: &'a [&'a str]) -> impl Fn(&str) -> bool + 'a {
    let disabled = disabled.to_vec();
    move |k: &str| !disabled.contains(&k)
}

#[test]
fn all_protocols_allowed_when_toggles_unset() {
    for st in ALL_TYPES {
        assert!(
            check_session_type_enabled(&st, None, |_| true).is_ok(),
            "{:?} should be allowed when everything is enabled",
            st
        );
    }
}

#[test]
fn rdp_disabled_blocks_rdp_sessions() {
    let err = check_session_type_enabled(&SessionType::Rdp, None, only_off(&["enable_rdp"]))
        .unwrap_err();
    assert!(
        err.message().contains("RDP sessions are disabled by an administrator"),
        "got: {}",
        err.message()
    );
}

#[test]
fn ssh_has_no_toggle_and_is_never_blocked() {
    assert!(check_session_type_enabled(&SessionType::Ssh, None, |_| false).is_ok());
}

#[test]
fn spice_proxmox_web_vdi_each_gated_by_own_toggle() {
    for (st, key, label) in [
        (SessionType::Spice, "enable_spice", "SPICE"),
        (SessionType::Proxmox, "enable_proxmox", "Proxmox VE"),
        (SessionType::Web, "enable_web_sessions", "Web browser"),
        (SessionType::Vdi, "enable_vdi", "VDI"),
    ] {
        let err = check_session_type_enabled(&st, None, only_off(&[key])).unwrap_err();
        assert!(
            err.message().contains(&format!(
                "{} sessions are disabled by an administrator",
                label
            )),
            "got: {}",
            err.message()
        );
    }
}

#[test]
fn a_disabled_toggle_only_blocks_its_own_protocol() {
    for st in ALL_TYPES {
        if st == SessionType::Spice {
            assert!(
                check_session_type_enabled(&st, None, only_off(&["enable_spice"])).is_err()
            );
        } else {
            assert!(
                check_session_type_enabled(&st, None, only_off(&["enable_spice"])).is_ok(),
                "{:?} must not be affected by enable_spice",
                st
            );
        }
    }
}

#[test]
fn vnc_has_no_toggle_and_is_never_blocked() {
    assert!(check_session_type_enabled(&SessionType::Vnc, None, |_| false).is_ok());
}

#[test]
fn vmware_entries_gated_by_enable_vmware() {
    let err = check_session_type_enabled(
        &SessionType::Rdp,
        Some("vsphere/webserver-01"),
        only_off(&["enable_vmware"]),
    )
    .unwrap_err();
    assert!(
        err.message().contains("VMware sessions are disabled by an administrator"),
        "got: {}",
        err.message()
    );
    assert!(check_session_type_enabled(
        &SessionType::Rdp,
        Some("vsphere/webserver-01"),
        |_| true
    )
    .is_ok());
    assert!(
        check_session_type_enabled(
            &SessionType::Rdp,
            Some("shared/folder/entry"),
            only_off(&["enable_vmware"]),
        )
        .is_ok(),
        "non-vSphere entries must not be gated by enable_vmware"
    );
}

// ── VDI container username sanitization ──

#[test]
fn vdi_username_derives_from_identity_without_domain() {
    assert_eq!(
        vdi_container_username(None, "Alice.Smith@corp.example").unwrap(),
        "alice_smith"
    );
    assert_eq!(
        vdi_container_username(None, "bob@example.com").unwrap(),
        "bob"
    );
}

#[test]
fn vdi_username_empty_override_falls_through_to_identity() {
    assert_eq!(vdi_container_username(Some(""), "alice").unwrap(), "alice");
    assert_eq!(
        vdi_container_username(Some(""), "alice@corp").unwrap(),
        "alice"
    );
}

#[test]
fn vdi_username_sanitizes_override_to_safe_charset() {
    assert_eq!(
        vdi_container_username(Some("Vdi-User@corp"), "alice").unwrap(),
        "vdi_user_corp"
    );
    assert_eq!(
        vdi_container_username(Some("bench001"), "alice").unwrap(),
        "bench001"
    );
}

#[test]
fn vdi_username_rejects_path_traversal_in_override() {
    // The override becomes part of the host bind-mount path; a
    // separator or traversal component must be rejected outright.
    for bad in ["../alice", "a/b", "a\\b", "..", "a..b", "sub/../../etc"] {
        let err = vdi_container_username(Some(bad), "alice").unwrap_err();
        assert!(
            err.message().contains("container_username must not contain"),
            "input {:?} got: {}",
            bad,
            err.message()
        );
    }
}

#[test]
fn vdi_username_rejects_override_with_no_alphanumerics() {
    let out = vdi_container_username(Some("@@@"), "alice").unwrap();
    assert_eq!(out, "___");
    assert!(vdi_container_username(Some("___"), "alice").is_ok());
    assert!(vdi_container_username(Some("../etc"), "alice").is_err());
    assert!(vdi_container_username(Some("a/b"), "alice").is_err());
}

// ── Session limits ──

fn session(id: u128, status: SessionStatus) -> Session {
    Session {
        id,
        session_type: SessionType::Ssh,
        status,
        created_at: Timestamp::at_second(1_760_000_000),
        hostname: "test-host".to_string(),
        username: "alice".to_string(),
        url: None,
        banner: None,
        guacd_stream: None,
        connection_id: "conn-test".to_string(),
        share_token: "share-token".to_string(),
        width: 1024,
        height: 768,
        active_connections: 0,
        created_by: "alice".to_string(),
        cancelled: false,
        browser_session: None,
        deferred_params: None,
        drive_path: None,
        drive_enabled: false,
        tunnels: None,
        container_id: None,
        container_name: None,
        recording_enabled: false,
        address_book_entry: None,
        address_book_folder: None,
        entry_display_name: None,
        max_recordings: None,
        login_script_handle: None,
        shadow_tokens: Vec::new(),
        share_allowed: true,
        fullscreen_on_connect: false,
        autohide_side_tabs: false,
        last_activity: 1_760_000_000,
        source_ip: None,
        user_id: Some("alice".to_string()),
    }
}

#[test]
fn live_session_count_excludes_terminal_states() {
    // The global cap must count only Pending|Active sessions; the terminal
    // states linger in the map until the cleanup reaper runs.
    let sessions: Vec<Session> = [
        SessionStatus::Pending,
        SessionStatus::Active,
        SessionStatus::Completed,
        SessionStatus::Error,
        SessionStatus::Expired,
        SessionStatus::Disconnected,
        SessionStatus::LoggedOut,
    ]
    .into_iter()
    .enumerate()
    .map(|(i, status)| session(i as u128, status))
    .collect();
    assert_eq!(count_live_sessions(&sessions), 2);
}

#[test]
fn live_session_count_empty_map_is_zero() {
    assert_eq!(count_live_sessions(&Vec::new()), 0);
}

#[test]
fn sessions_are_admitted_up_to_the_cap() {
    let now = Timestamp::at_second(1_760_000_000);
    let mut mgr = SessionManager::new(plain_config(), now);
    assert!(mgr.check_admission("alice").is_ok());
    let info = mgr.admit_session(session(1, SessionStatus::Pending), now).unwrap();
    assert_eq!(info.session_id, 1);
    let (_, events) = mgr.replay_events(0);
    assert_eq!(events.len(), 1);
    assert!(matches!(
        mgr.check_admission("alice"),
        Err(SessionError::ValidationError(_))
    ));
    assert!(mgr.check_admission("bob").is_ok());
    mgr.admit_session(session(2, SessionStatus::Pending), now).unwrap();
    assert!(matches!(
        mgr.admit_session(session(3, SessionStatus::Pending), now),
        Err(SessionError::ValidationError(_))
    ));
    assert_eq!(mgr.sessions.len(), 2);
}

#[test]
fn toggles_and_labels() {
    assert_eq!(protocol_toggle(&SessionType::Web), Some("enable_web_sessions"));
    assert_eq!(protocol_toggle(&SessionType::Ssh), None);
    assert_eq!(protocol_label(&SessionType::Proxmox), "Proxmox VE");
    assert_eq!(sanitize("a b//c"), "a-b-c");
    assert_eq!(client_name_from(Some("10.0.0.1"), true, Some(" pc.example. ")), "pc.example");
    assert_eq!(client_name_from(Some("10.0.0.1"), true, Some(".")), "10.0.0.1");
}

#[test]
fn container_users_are_lower_case() {
    for raw in ["\u{212a}elvin", "\u{130}STANBUL", "A.B-C", "\u{df}"] {
        let out = vdi_container_username(Some(raw), "alice").unwrap();
        assert!(!out.is_empty());
        assert!(out.chars().all(|c| c.is_ascii_lowercase() || c.is_ascii_digit() || c == '_'));
    }
}
