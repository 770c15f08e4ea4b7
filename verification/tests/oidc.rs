use base64::Engine;
use persea::oidc::{
    begin_flow, callback, check_state_cookie, claimed_identity, client_fingerprint_inputs,
    derive_fingerprint_key, effective_role, role_from_groups, GroupMapping, extract_groups_from_jwt, flag_set, login_answer,
    friendly_discovery_error, groups_from_claim, is_safe_redirect_path, login_cookies, login_gate,
    login_scopes, logout, parse_issuer_mismatch, redirect_target, redirect_with_pending_mfa,
    session_cookies, state_fingerprint, take_flow, truncate_group_name, CallbackCookies,
    CallbackParams, CallbackStep, ExchangeFailure, GroupsClaim, LoginGate, LoginParams, MfaStep,
    OidcProvider, OidcRegistry, OidcState, TotpEnforcement, MAX_OIDC_GROUPS, MAX_OIDC_GROUP_LEN,
};
use persea::time::Timestamp;

/// An unsigned token with this payload.
fn make_jwt(payload: &str) -> String {
    let header = base64::engine::general_purpose::URL_SAFE_NO_PAD
        .encode(br#"{"alg":"none","typ":"JWT"}"#);
    let payload = base64::engine::general_purpose::URL_SAFE_NO_PAD.encode(payload);
    format!("{}.{}.sig", header, payload)
}

#[test]
fn groups_missing_claim_returns_empty() {
    let jwt = make_jwt(r#"{"sub": "alice"}"#);
    assert!(extract_groups_from_jwt(&jwt, "groups").is_empty());
}

#[test]
fn groups_malformed_jwt_returns_empty() {
    assert!(extract_groups_from_jwt("not-a-jwt", "groups").is_empty());
    assert!(extract_groups_from_jwt("onlyone", "groups").is_empty());
    assert!(extract_groups_from_jwt("a.b", "groups").is_empty());
    assert!(extract_groups_from_jwt("a.!notbase64!.c", "groups").is_empty());
}

#[test]
fn groups_array_passed_through() {
    let jwt = make_jwt(r#"{"groups": ["admins", "ops"]}"#);
    let got = extract_groups_from_jwt(&jwt, "groups");
    assert_eq!(got, vec!["admins".to_string(), "ops".to_string()]);
}

#[test]
fn groups_single_string_wrapped() {
    let jwt = make_jwt(r#"{"groups": "admins"}"#);
    assert_eq!(extract_groups_from_jwt(&jwt, "groups"), vec!["admins"]);
}

#[test]
fn groups_non_string_values_filtered() {
    let jwt = make_jwt(r#"{"groups": ["ok", 42, null, {"nested": "x"}]}"#);
    assert_eq!(extract_groups_from_jwt(&jwt, "groups"), vec!["ok"]);
}

#[test]
fn groups_array_over_cap_truncated() {
    let many: Vec<String> = (0..MAX_OIDC_GROUPS + 50).map(|i| format!("g{i}")).collect();
    let jwt = make_jwt(&format!("{{\"groups\": {}}}", serde_json::to_string(&many).unwrap()));
    let got = extract_groups_from_jwt(&jwt, "groups");
    assert_eq!(got.len(), MAX_OIDC_GROUPS);
    assert_eq!(got[0], "g0");
}

#[test]
fn groups_long_names_truncated_on_utf8_boundary() {
    // Build a name with a multi-byte char straddling the 256-byte limit.
    // '€' is 3 bytes. Pad with ASCII up to position 254 then add two '€' —
    // naive byte-truncate at 256 would split the second '€'.
    let mut name = "a".repeat(254);
    name.push('€'); // bytes 254..257
    name.push('€'); // bytes 257..260
    let jwt = make_jwt(&format!("{{\"groups\": [\"{name}\"]}}"));
    let got = extract_groups_from_jwt(&jwt, "groups");
    assert_eq!(got.len(), 1);
    // Truncation must end on a valid UTF-8 boundary ≤ 256 bytes.
    assert!(got[0].len() <= MAX_OIDC_GROUP_LEN);
    assert!(std::str::from_utf8(got[0].as_bytes()).is_ok());
    // And must not exceed the original.
    assert!(name.starts_with(&got[0]));
}

#[test]
fn groups_short_names_pass_through_unchanged() {
    let jwt = make_jwt(r#"{"groups": ["alpha", "beta"]}"#);
    assert_eq!(
        extract_groups_from_jwt(&jwt, "groups"),
        vec!["alpha", "beta"]
    );
}

#[test]
fn groups_custom_claim_name_respected() {
    let jwt = make_jwt(r#"{"roles": ["r1", "r2"], "groups": ["g1"]}"#);
    assert_eq!(extract_groups_from_jwt(&jwt, "roles"), vec!["r1", "r2"]);
    assert_eq!(extract_groups_from_jwt(&jwt, "groups"), vec!["g1"]);
}

// ── State fingerprint ────────────────────────────────────────

#[test]
fn fingerprint_ignores_forged_forwarded_headers() {
    // Of the headers only the user agent goes in; the address is the
    // connection's own.
    let (ip, ua) = client_fingerprint_inputs(Some("UA"), "198.51.100.7");
    assert_eq!(
        ip, "198.51.100.7",
        "forwarded headers must not leak into the fingerprint"
    );
    assert_eq!(ua, "UA");
}

#[test]
fn fingerprint_deterministic_for_same_key_and_inputs() {
    let key = derive_fingerprint_key("s3cret");
    let a = state_fingerprint(&key, "10.0.0.5", "Mozilla/5.0 test");
    let b = state_fingerprint(&key, "10.0.0.5", "Mozilla/5.0 test");
    assert_eq!(a, b);
    assert_eq!(a.len(), 64, "hex HMAC-SHA256 is 64 chars");
}

#[test]
fn fingerprint_changes_with_ip_or_ua() {
    let key = derive_fingerprint_key("s3cret");
    let base = state_fingerprint(&key, "10.0.0.5", "UA");
    assert_ne!(base, state_fingerprint(&key, "10.0.0.6", "UA"));
    assert_ne!(base, state_fingerprint(&key, "10.0.0.5", "UA2"));
}

#[test]
fn forgery_with_guessed_key_fails() {
    // The attacker knows the flow's state token, the victim's IP and
    // User-Agent, but not the server-side fingerprint key (derived
    // from the client secret). A fingerprint computed with their
    // guessed key (e.g. the public state token) must
    // not match the server's.
    let server_key = derive_fingerprint_key("real-client-secret");
    let ip = "203.0.113.7";
    let ua = "Mozilla/5.0 (X11; Linux x86_64)";
    let server_fp = state_fingerprint(&server_key, ip, ua);

    let attacker_key = derive_fingerprint_key("guessed-secret");
    let attacker_fp = state_fingerprint(&attacker_key, ip, ua);
    assert_ne!(attacker_fp, server_fp, "guessed key must not forge");

    // Keyed by the public state token itself.
    let state_fp = state_fingerprint(&b"public-state-token".to_vec(), ip, ua);
    assert_ne!(state_fp, server_fp);
}

#[test]
fn fingerprint_key_differs_between_secrets() {
    assert_ne!(
        derive_fingerprint_key("secret-a"),
        derive_fingerprint_key("secret-b")
    );
    // And is stable across calls for the same secret (flows survive
    // restarts as long as the client secret is unchanged).
    assert_eq!(
        derive_fingerprint_key("secret-a"),
        derive_fingerprint_key("secret-a")
    );
}

#[test]
fn fingerprint_key_is_32_bytes() {
    // Any secret length must produce a fixed 32-byte key.
    for secret in ["", "short", "x".repeat(100).as_str()] {
        assert_eq!(derive_fingerprint_key(secret).len(), 32);
    }
}

// ── Discovery error wrapping ────────────────────────────────────────

#[test]
fn parse_issuer_mismatch_extracts_both_uris() {
    let raw = "Validation(\"unexpected issuer URI `https://oauth.jumpcloud.com` (expected `https://oauth.jumpcloud.com/`)\")";
    let (got, expected) = parse_issuer_mismatch(raw).expect("should parse");
    assert_eq!(got, "https://oauth.jumpcloud.com");
    assert_eq!(expected, "https://oauth.jumpcloud.com/");
}

#[test]
fn parse_issuer_mismatch_handles_opposite_slash_direction() {
    // JumpCloud's other endpoint: the mirror-image of the JumpCloud bug.
    let raw = "Validation(\"unexpected issuer URI `https://oauth.id.jumpcloud.com/` (expected `https://oauth.id.jumpcloud.com`)\")";
    let (got, expected) = parse_issuer_mismatch(raw).expect("should parse");
    assert_eq!(got, "https://oauth.id.jumpcloud.com/");
    assert_eq!(expected, "https://oauth.id.jumpcloud.com");
}

#[test]
fn parse_issuer_mismatch_returns_none_for_unrelated_errors() {
    assert!(parse_issuer_mismatch("Request(reqwest::Error { ... })").is_none());
    assert!(parse_issuer_mismatch("random string").is_none());
    assert!(parse_issuer_mismatch("").is_none());
}

#[test]
fn friendly_discovery_error_extra_slash_in_config() {
    // Config has trailing slash, provider advertises without.
    let raw = "Validation(\"unexpected issuer URI `https://oauth.jumpcloud.com` (expected `https://oauth.jumpcloud.com/`)\")";
    let msg = friendly_discovery_error(raw);
    assert!(msg.contains("issuer_url has an extra trailing slash"));
    assert!(msg.contains("config:   \"https://oauth.jumpcloud.com/\""));
    assert!(msg.contains("provider: \"https://oauth.jumpcloud.com\""));
    assert!(msg.contains("Fix: remove the trailing slash from issuer_url"));
}

#[test]
fn friendly_discovery_error_missing_slash_in_config() {
    // Provider advertises with trailing slash, config doesn't have one.
    let raw = "Validation(\"unexpected issuer URI `https://auth.example.com/realms/corp/` (expected `https://auth.example.com/realms/corp`)\")";
    let msg = friendly_discovery_error(raw);
    assert!(msg.contains("issuer_url is missing a trailing slash"));
    assert!(msg.contains("config:   \"https://auth.example.com/realms/corp\""));
    assert!(msg.contains("provider: \"https://auth.example.com/realms/corp/\""));
    assert!(msg.contains("Fix: add a trailing slash to issuer_url"));
}

#[test]
fn friendly_discovery_error_different_urls_entirely() {
    // Azure-AD-style: the v2.0 authority URL vs the actual issuer.
    // Works for any provider where the operator copy-pasted a wrong URL.
    let raw = "Validation(\"unexpected issuer URI `https://sts.windows.net/tenant-id/` (expected `https://login.microsoftonline.com/tenant-id/v2.0`)\")";
    let msg = friendly_discovery_error(raw);
    assert!(msg.contains("issuer_url does not match the provider's advertised value"));
    assert!(msg.contains("config:   \"https://login.microsoftonline.com/tenant-id/v2.0\""));
    assert!(msg.contains("provider: \"https://sts.windows.net/tenant-id/\""));
    assert!(msg.contains("Fix: set issuer_url = \"https://sts.windows.net/tenant-id/\""));
}

#[test]
fn friendly_discovery_error_passes_through_other_errors() {
    let raw = "Request(NetworkError(connect_timeout))";
    let msg = friendly_discovery_error(raw);
    assert_eq!(
        msg,
        "OIDC discovery failed: Request(NetworkError(connect_timeout))"
    );
}

// ── Redirect target validation ─────────────────────────────────────

#[test]
fn safe_redirect_path_accepts_relative_paths() {
    for p in ["/", "/connections.html", "/foo/bar?x=1", "/a/b/c"] {
        assert!(is_safe_redirect_path(p), "{p}");
    }
}

#[test]
fn safe_redirect_path_rejects_external_targets() {
    for p in [
        "//evil.com",
        "https://evil.com",
        "http://evil.com",
        "javascript:alert(1)",
        "evil.com",
        "",
    ] {
        assert!(!is_safe_redirect_path(p), "{p}");
    }
}

#[test]
fn safe_redirect_path_rejects_backslashes() {
    // Browsers normalize `\` to `/`, so `/\evil.com` and `\\evil.com`
    // become protocol-relative URLs.
    for p in ["/\\evil.com", "\\\\evil.com", "/foo\\bar", "/foo\\/bar"] {
        assert!(!is_safe_redirect_path(p), "{p}");
    }
}

#[test]
fn safe_redirect_path_rejects_control_characters() {
    for p in [
        "/foo\nbar",
        "/foo\r\nbar",
        "/foo\tbar",
        "/foo\x7fbar",
        "/foo\x00bar",
    ] {
        assert!(!is_safe_redirect_path(p), "{p}");
    }
}

#[test]
fn login_params_desktop_flag_is_tolerant() {
    assert!(flag_set(Some("1")));
    assert!(flag_set(Some("true")));
    assert!(flag_set(Some("on")));
    assert!(!flag_set(Some("0")));
    assert!(!flag_set(None));
    // Other parameters stand beside the flag.
    let p = LoginParams {
        next: Some("/connections.html".to_string()),
        provider: Some("corp".to_string()),
        desktop: flag_set(Some("1")),
    };
    assert!(p.desktop);
    assert_eq!(p.provider.as_deref(), Some("corp"));
    assert_eq!(p.next.as_deref(), Some("/connections.html"));
}

#[test]
fn fingerprints_and_their_key() {
    // Fingerprint is the keyed hash of address and agent.
    {
        assert_eq!(
            state_fingerprint(&b"key".to_vec(), "The quick brown fox ", "jumps over the lazy dog"),
            "f7bc83f430538424b13298e6aa6fb143ef4d59a14946175997479dbc2d1a3cd8"
        );
    }
    // Fingerprint key is the hash of label and secret.
    {
        assert_eq!(
            hex::encode(derive_fingerprint_key("s3cret")),
            "819e97ba0ea6c063eb307220790e50f89d3bf8276e9894d19add0bc91bf0254b"
        );
    }
}

#[test]
fn redirects_stay_on_the_site() {
    assert_eq!(redirect_target(Some("/reports.html")), "/reports.html");
    assert_eq!(redirect_target(Some("//evil.com")), "/addressbook.html");
    assert_eq!(redirect_target(None), "/addressbook.html");
}

fn state(pending_key: &str) -> OidcState {
    OidcState {
        groups_claim: "groups".to_string(),
        default_role: "viewer".to_string(),
        extra_scopes: Vec::new(),
        session_ttl_secs: 3600,
        pending: Vec::new(),
        fingerprint_key: derive_fingerprint_key(pending_key),
    }
}

fn two_providers() -> OidcRegistry {
    OidcRegistry {
        providers: vec![
            OidcProvider { name: "corp".to_string(), state: state("a") },
            OidcProvider { name: "guest".to_string(), state: state("b") },
        ],
    }
}

fn params(code: Option<&str>, state: Option<&str>, error: Option<&str>) -> CallbackParams {
    CallbackParams {
        code: code.map(|s| s.to_string()),
        state: state.map(|s| s.to_string()),
        error: error.map(|s| s.to_string()),
        error_description: None,
    }
}

fn cookies(provider: Option<&str>, state: Option<String>, desktop: Option<&str>) -> CallbackCookies {
    CallbackCookies {
        provider: provider.map(|s| s.to_string()),
        state,
        desktop: desktop.map(|s| s.to_string()),
    }
}

#[test]
fn providers_by_name() {
    let r = two_providers();
    assert_eq!(r.get(None).unwrap().name, "corp");
    assert_eq!(r.get(Some("guest")).unwrap().name, "guest");
    assert!(r.get(Some("other")).is_none());
    assert_eq!(r.position(Some("guest")), Some(1));
    assert!(OidcRegistry { providers: Vec::new() }.get(None).is_none());
}

#[test]
fn a_state_is_good_for_one_exchange() {
    let mut r = two_providers();
    let now = Timestamp::at_second(1_000);
    begin_flow(&mut r.providers[1].state.pending, "st", 7, now);
    let print = state_fingerprint(&derive_fingerprint_key("b"), "10.0.0.5", "UA");
    let c = cookies(Some("guest"), Some(format!("st:{print}")), Some("1"));
    let p = params(Some("code"), Some("st"), None);
    match callback(&mut r, &p, &c, "10.0.0.5", "UA") {
        CallbackStep::Exchange { provider, code, flow, desktop } => {
            assert_eq!(provider, 1);
            assert_eq!(code, "code");
            assert_eq!(flow, 7);
            assert!(desktop);
        }
        other => panic!("unexpected {other:?}"),
    }
    match callback(&mut r, &p, &c, "10.0.0.5", "UA") {
        CallbackStep::Refused(m) => assert_eq!(m, "invalid or expired OIDC state"),
        other => panic!("unexpected {other:?}"),
    }
}

#[test]
fn a_flow_stays_in_its_browser() {
    let mut r = two_providers();
    let now = Timestamp::at_second(1_000);
    begin_flow(&mut r.providers[0].state.pending, "st", 7, now);
    let print = state_fingerprint(&derive_fingerprint_key("a"), "10.0.0.5", "UA");
    let c = cookies(None, Some(format!("st:{print}")), None);
    let p = params(Some("code"), Some("st"), None);
    match callback(&mut r, &p, &c, "10.0.0.6", "UA") {
        CallbackStep::Refused(m) => assert_eq!(m, "OIDC state cookie mismatch"),
        other => panic!("unexpected {other:?}"),
    }
    assert_eq!(r.providers[0].state.pending.len(), 1);
    assert!(matches!(
        callback(&mut r, &p, &c, "10.0.0.5", "UA"),
        CallbackStep::Exchange { flow: 7, desktop: false, .. }
    ));
}

#[test]
fn callbacks_that_end_early() {
    let mut r = two_providers();
    let none = cookies(None, None, None);
    for p in [
        params(Some("c"), Some("s"), Some("access_denied")),
        params(None, Some("s"), None),
        params(Some("c"), None, None),
    ] {
        assert!(matches!(callback(&mut r, &p, &none, "ip", "ua"), CallbackStep::SsoError));
    }
    let p = params(Some("c"), Some("s"), None);
    match callback(&mut r, &p, &cookies(Some("x"), None, None), "ip", "ua") {
        CallbackStep::Refused(m) => assert_eq!(m, "no OIDC provider configured"),
        other => panic!("unexpected {other:?}"),
    }
}

#[test]
fn cookies_of_state_and_login() {
    // State cookies.
    {
        assert!(check_state_cookie(Some("st:print"), "st", "print"));
        assert!(check_state_cookie(Some("st:a:b"), "st", "a:b"));
        assert!(!check_state_cookie(Some("st"), "st", ""));
        assert!(!check_state_cookie(Some("other:print"), "st", "print"));
        assert!(!check_state_cookie(None, "st", "print"));
    }
    // Cookies of a login.
    {
        let p = LoginParams { next: Some("/a.html".to_string()), provider: None, desktop: true };
        assert_eq!(
            login_cookies("st", "print", "corp", &p, " Secure;"),
            vec![
                "persea_oidc_state=st:print; Path=/; HttpOnly; Secure; SameSite=Lax; Max-Age=600",
                "persea_oidc_provider=corp; Path=/; HttpOnly; Secure; SameSite=Lax; Max-Age=600",
                "persea_next=/a.html; Path=/; HttpOnly; Secure; SameSite=Lax; Max-Age=600",
                "persea_desktop=1; Path=/; HttpOnly; Secure; SameSite=Lax; Max-Age=600",
            ]
        );
        let plain = LoginParams { next: Some("//evil".to_string()), provider: None, desktop: false };
        assert_eq!(login_cookies("st", "print", "corp", &plain, "").len(), 2);
        assert_eq!(
            session_cookies("tok", 3600, "")[0],
            "persea_session=tok; Path=/; HttpOnly; SameSite=Lax; Max-Age=3600"
        );
        assert_eq!(session_cookies("tok", 3600, "").len(), 4);
        assert_eq!(
            logout(true),
            "persea_session=; Path=/; HttpOnly; Secure; SameSite=Lax; Max-Age=0"
        );
        let (page, set) = redirect_with_pending_mfa(MfaStep::Verify, "pend", 300, "");
        assert_eq!(page, "/auth/mfa");
        assert_eq!(
            set[0],
            "persea_mfa_pending=pend; Path=/auth/mfa; HttpOnly; SameSite=Lax; Max-Age=300"
        );
    }
}

#[test]
fn old_flows_are_dropped() {
    let mut pending = Vec::new();
    begin_flow(&mut pending, "old", 1, Timestamp::at_second(0));
    begin_flow(&mut pending, "new", 2, Timestamp::at_second(10_000));
    assert_eq!(take_flow(&mut pending, "old"), None);
    assert_eq!(take_flow(&mut pending, "new"), Some(2));
    assert_eq!(take_flow(&mut pending, "new"), None);
}

#[test]
fn second_factor_gate() {
    let (off, admins, all) = (
        TotpEnforcement::Off,
        TotpEnforcement::AdminsOnly,
        TotpEnforcement::All,
    );
    assert_eq!(login_gate(true, off, "admin", true), LoginGate::Disabled);
    assert_eq!(login_gate(false, off, "admin", true), LoginGate::Granted);
    assert_eq!(login_gate(false, admins, "viewer", false), LoginGate::Granted);
    assert_eq!(
        login_gate(false, admins, "admin", true),
        LoginGate::SecondFactor(MfaStep::Verify)
    );
    assert_eq!(
        login_gate(false, all, "viewer", false),
        LoginGate::SecondFactor(MfaStep::Enroll)
    );
}

#[test]
fn identity_role_and_groups() {
    // Identity and role of a login.
    {
        assert_eq!(
            claimed_identity("sub-1", Some("a@b.c"), Some("Al")),
            ("a@b.c".to_string(), "Al".to_string())
        );
        assert_eq!(claimed_identity("sub-1", None, None).0, "sub-1");
        assert_eq!(effective_role(Some("admin"), "viewer"), "admin");
        assert_eq!(effective_role(None, "viewer"), "viewer");
        let mapping = |group: &str, role: &str| GroupMapping {
            group: group.to_string(),
            role: role.to_string(),
        };
        let mappings = vec![
            mapping("staff", "operator"),
            mapping("admins", "admin"),
            mapping("ops", "poweruser"),
        ];
        let groups = |names: &[&str]| names.iter().map(|n| n.to_string()).collect::<Vec<_>>();
        let role = |names: &[&str]| role_from_groups(&mappings, &groups(names));
        assert_eq!(role(&["ops", "staff"]).as_deref(), Some("poweruser"));
        assert_eq!(role(&["ops", "admins", "staff"]).as_deref(), Some("admin"));
        assert_eq!(role(&["staff"]).as_deref(), Some("operator"));
        assert_eq!(role(&["other"]), None);
        assert_eq!(
            login_scopes(&vec!["groups".to_string()]),
            vec!["openid", "email", "profile", "groups"]
        );
        assert_eq!(
            ExchangeFailure::NoIdToken.message(),
            "no ID token in OIDC response"
        );
    }
    // Groups of a claim.
    {
        assert_eq!(
            groups_from_claim(GroupsClaim::List(vec![Some("a".to_string()), None])),
            vec!["a"]
        );
        assert_eq!(groups_from_claim(GroupsClaim::One("b".to_string())), vec!["b"]);
        assert!(groups_from_claim(GroupsClaim::Absent).is_empty());
        assert_eq!(truncate_group_name(&"x".repeat(300)), "x".repeat(256));
        let mut long = "a".repeat(254);
        long.push('€');
        assert_eq!(truncate_group_name(&long), "a".repeat(254));
    }
}

#[test]
fn answers_to_a_login() {
    let a = login_answer("tok", 60, "", Some("/reports.html"), false, false);
    assert_eq!(a.redirect.as_deref(), Some("/reports.html"));
    assert_eq!(a.cookies, session_cookies("tok", 60, ""));
    let failed = login_answer("tok", 60, "", None, true, false);
    assert_eq!(failed.redirect.as_deref(), Some("/addressbook.html"));
    assert!(login_answer("tok", 60, "", Some("/x"), true, true).redirect.is_none());
}
