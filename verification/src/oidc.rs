//! Single sign-on over OpenID Connect: the login flow's state, its gates, and
//! what goes into cookies.

use crate::outside::{hex_encode, hex_text, same_bytes};
use crate::json::{json_of, member, member_text, parse_json, read_string, string_in, Json, JsonText};
use crate::protocol::{byte_len, char_width, utf8_text};
use crate::role::{role_level, role_level_spec};
use crate::text::{
    borrow_opt, chars, contains, contains_char, decimal, digits, ends_with, find_char, find_first,
    first_at, has_control, has_sub, is_control, join2, join3, lemma_sub_at_is, list_has, occurs_at,
    opt_str, opt_text, same_opt, same_text, slice_text, split, split_on, starts_with, sub_at,
    texts, trim_end_char, without_trailing,
};
use crate::time::Timestamp;
use vstd::prelude::*;
use vstd::string::*;
use vstd::utf8::*;

verus! {

/// Max groups kept per login.
pub const MAX_OIDC_GROUPS: usize = 64;

/// Max bytes per group name.
pub const MAX_OIDC_GROUP_LEN: usize = 256;

/// Seconds after which a started flow is forgotten.
pub const PENDING_FLOW_SECS: u64 = 600;

/// Seconds that a second factor may take.
pub const PENDING_MFA_SECS: u64 = 300;

// ── Fingerprints ──
/// The SHA-256 digest of `data`, as `ring` computes it.
pub uninterp spec fn ring_sha256(data: Seq<u8>) -> Seq<u8>;

/// `ring::digest::digest` with SHA-256: the digest, which is 32 bytes long.
#[verifier::external_body]
fn ring_digest(data: &[u8]) -> (r: Vec<u8>)
    ensures
        r@ == ring_sha256(data@),
        r@.len() == 32,
{
    ring::digest::digest(&ring::digest::SHA256, data).as_ref().to_vec()
}

/// The HMAC-SHA256 of `data` under `key`.
pub uninterp spec fn hmac_sha256(key: Seq<u8>, data: Seq<u8>) -> Seq<u8>;

/// `ring::hmac::sign` with HMAC-SHA256: the tag, which is 32 bytes long.
#[verifier::external_body]
fn hmac_sign(key: &[u8], data: &[u8]) -> (r: Vec<u8>)
    ensures
        r@ == hmac_sha256(key@, data@),
        r@.len() == 32,
{
    let key = ring::hmac::Key::new(ring::hmac::HMAC_SHA256, key);
    ring::hmac::sign(&key, data).as_ref().to_vec()
}

/// Two byte slices, one behind the other.
fn concat_bytes(a: &[u8], b: &[u8]) -> (r: Vec<u8>)
    ensures
        r@ == a@ + b@,
{
    let mut r: Vec<u8> = Vec::new();
    let mut i: usize = 0;
    while i < a.len()
        invariant
            i <= a@.len(),
            r@ == a@.take(i as int),
        decreases a@.len() - i,
    {
        r.push(a[i]);
        proof {
            assert(a@.take(i + 1) =~= a@.take(i as int).push(a@[i as int]));
        }
        i = i + 1;
    }
    let mut k: usize = 0;
    proof {
        assert(a@.take(a@.len() as int) =~= a@);
        assert(a@ + b@.take(0) =~= a@);
    }
    while k < b.len()
        invariant
            k <= b@.len(),
            r@ == a@ + b@.take(k as int),
        decreases b@.len() - k,
    {
        r.push(b[k]);
        proof {
            assert(a@ + b@.take(k + 1) =~= (a@ + b@.take(k as int)).push(b@[k as int]));
        }
        k = k + 1;
    }
    proof {
        assert(b@.take(b@.len() as int) =~= b@);
    }
    r
}

/// The fingerprint key of a client secret.
pub open spec fn fingerprint_key(client_secret: Seq<char>) -> Seq<u8> {
    ring_sha256(encode_utf8("persea-oidc-fingerprint-v1"@) + encode_utf8(client_secret))
}

/// Derive the state-fingerprint key from the OIDC client secret: 32 bytes,
/// whatever the secret's length.
pub fn derive_fingerprint_key(client_secret: &str) -> (r: Vec<u8>)
    ensures
        r@ == fingerprint_key(client_secret@),
        r@.len() == 32,
{
    let data = concat_bytes("persea-oidc-fingerprint-v1".as_bytes(), client_secret.as_bytes());
    ring_digest(data.as_slice())
}

/// The fingerprint of a browser: address and user agent under the key.
pub open spec fn fingerprint(key: Seq<u8>, ip: Seq<char>, ua: Seq<char>) -> Seq<char> {
    hex_text(hmac_sha256(key, encode_utf8(ip) + encode_utf8(ua)))
}

/// Fingerprint of an address and a user agent under the server-side key, in
/// 64 hexadecimal digits.
pub fn state_fingerprint(key: &Vec<u8>, ip: &str, ua: &str) -> (r: String)
    ensures
        r@ == fingerprint(key@, ip@, ua@),
        r@.len() == 64,
{
    let data = concat_bytes(ip.as_bytes(), ua.as_bytes());
    let tag = hmac_sign(key.as_slice(), data.as_slice());
    hex_encode(tag.as_slice())
}

/// What a client is recognised by: its address, as the trusted proxies give
/// it, and its user agent. Forwarding headers play no part.
pub fn client_fingerprint_inputs(user_agent: Option<&str>, client_ip: &str) -> (r: (String, String))
    ensures
        r.0@ == client_ip@,
        r.1@ == match user_agent {
            Some(ua) => ua@,
            None => "unknown"@,
        },
{
    let ua = match user_agent {
        Some(ua) => ua.to_owned(),
        None => "unknown".to_owned(),
    };
    (client_ip.to_owned(), ua)
}

// ── Redirects ──
/// Whether a text is a path on the same origin: it starts with one slash, and
/// holds nothing that a browser could take for a host.
pub open spec fn safe_path(s: Seq<char>) -> bool {
    &&& "/"@.is_prefix_of(s)
    &&& !"//"@.is_prefix_of(s)
    &&& !has_sub(s, "://"@)
    &&& !s.contains('\\')
    &&& !exists|i: int| 0 <= i < s.len() && is_control(#[trigger] s[i])
}

/// Is `s` a safe same-origin redirect target?
///
/// Accepts only relative paths that start with a single `/`. Rejects
/// protocol-relative and absolute URLs, backslashes (browsers take them for
/// slashes), and control characters.
pub fn is_safe_redirect_path(s: &str) -> (r: bool)
    ensures
        r == safe_path(s@),
{
    if !starts_with(s, "/") || starts_with(s, "//") || contains(s, "://") {
        return false;
    }
    if contains_char(s, '\\') {
        return false;
    }
    !has_control(s)
}

/// A safe path leads with one slash and something else than a slash or a
/// backslash behind it: it names no host.
pub proof fn law_safe_path_stays(s: Seq<char>)
    requires
        safe_path(s),
    ensures
        s.len() > 0,
        s[0] == '/',
        s.len() > 1 ==> s[1] != '/' && s[1] != '\\',
{
    reveal_strlit("/");
    reveal_strlit("//");
    assert(s.subrange(0, 1)[0] == '/');
    if s.len() > 1 {
        if s[1] == '/' {
            assert(s.subrange(0, 2) =~= "//"@);
        }
        assert(s.contains(s[1]));
    }
}

/// Where a login leads: the wanted path if it is safe, else the address book.
pub open spec fn landing(next: Option<Seq<char>>) -> Seq<char> {
    match next {
        Some(n) => if safe_path(n) {
            n
        } else {
            "/addressbook.html"@
        },
        None => "/addressbook.html"@,
    }
}

/// Where a login leads: the wanted path if it is safe, else the address book.
pub fn redirect_target(next: Option<&str>) -> (r: String)
    ensures
        r@ == landing(opt_str(next)),
{
    match next {
        Some(n) => if is_safe_redirect_path(n) {
            n.to_owned()
        } else {
            "/addressbook.html".to_owned()
        },
        None => "/addressbook.html".to_owned(),
    }
}

// ── Cookies ──
/// A cookie as it is set. `sec` is the attribute that keeps it to HTTPS, or
/// nothing.
pub open spec fn cookie(
    name: Seq<char>,
    value: Seq<char>,
    path: Seq<char>,
    sec: Seq<char>,
    max_age: nat,
) -> Seq<char> {
    name + "="@ + value + "; Path="@ + path + "; HttpOnly;"@ + sec + " SameSite=Lax; Max-Age="@
        + digits(max_age)
}

fn set_cookie(name: &str, value: &str, path: &str, sec: &str, max_age: u64) -> (r: String)
    ensures
        r@ == cookie(name@, value@, path@, sec@, max_age as nat),
{
    let mut s = join3(name, "=", value);
    s.append("; Path=");
    s.append(path);
    s.append("; HttpOnly;");
    s.append(sec);
    s.append(" SameSite=Lax; Max-Age=");
    s.append(decimal(max_age).as_str());
    s
}

/// The cookies that end a flow: its state, its target and its desktop intent.
pub open spec fn cleared(sec: Seq<char>) -> Seq<Seq<char>> {
    seq![
        cookie("persea_oidc_state"@, ""@, "/"@, sec, 0),
        cookie("persea_next"@, ""@, "/"@, sec, 0),
        cookie("persea_desktop"@, ""@, "/"@, sec, 0),
    ]
}

fn push_cleared(out: &mut Vec<String>, sec: &str)
    ensures
        texts(final(out)@) == texts(old(out)@) + cleared(sec@),
{
    let ghost before = texts(out@);
    out.push(set_cookie("persea_oidc_state", "", "/", sec, 0));
    out.push(set_cookie("persea_next", "", "/", sec, 0));
    out.push(set_cookie("persea_desktop", "", "/", sec, 0));
    proof {
        assert(texts(out@) =~= before + cleared(sec@));
    }
}

/// Query parameters accepted by the login endpoint.
#[derive(Debug)]
pub struct LoginParams {
    /// Post-login redirect target; honored only when it is a same-origin path.
    pub next: Option<String>,
    /// OIDC provider name. Defaults to the first configured provider.
    pub provider: Option<String>,
    /// Desktop login intent: the callback mints a scoped desktop token.
    pub desktop: bool,
}

/// Whether a flag of a form or query is set: as `1`, `true` or `on`.
pub fn flag_set(value: Option<&str>) -> (r: bool)
    ensures
        r == (opt_str(value) == Some("1"@) || opt_str(value) == Some("true"@) || opt_str(value)
            == Some("on"@)),
{
    match value {
        Some(v) => same_text(v, "1") || same_text(v, "true") || same_text(v, "on"),
        None => false,
    }
}

/// The cookies of a login: the state with the browser's fingerprint, the
/// provider, the target where it is safe, and the desktop intent.
pub open spec fn login_cookies_of(
    state: Seq<char>,
    print: Seq<char>,
    provider: Seq<char>,
    next: Option<Seq<char>>,
    desktop: bool,
    sec: Seq<char>,
) -> Seq<Seq<char>> {
    let base = seq![
        cookie("persea_oidc_state"@, state + ":"@ + print, "/"@, sec, 600),
        cookie("persea_oidc_provider"@, provider, "/"@, sec, 600),
    ];
    let with_next = if next is Some && safe_path(next->0) {
        base.push(cookie("persea_next"@, next->0, "/"@, sec, 600))
    } else {
        base
    };
    if desktop {
        with_next.push(cookie("persea_desktop"@, "1"@, "/"@, sec, 600))
    } else {
        with_next
    }
}

/// The cookies of a login.
pub fn login_cookies(
    state: &str,
    print: &str,
    provider: &str,
    params: &LoginParams,
    sec: &str,
) -> (r: Vec<String>)
    ensures
        texts(r@) == login_cookies_of(
            state@,
            print@,
            provider@,
            opt_text(params.next),
            params.desktop,
            sec@,
        ),
{
    let value = join3(state, ":", print);
    let mut out: Vec<String> = Vec::new();
    out.push(set_cookie("persea_oidc_state", value.as_str(), "/", sec, 600));
    out.push(set_cookie("persea_oidc_provider", provider, "/", sec, 600));
    let ghost base = seq![
        cookie("persea_oidc_state"@, state@ + ":"@ + print@, "/"@, sec@, 600),
        cookie("persea_oidc_provider"@, provider@, "/"@, sec@, 600),
    ];
    proof {
        assert(texts(out@) =~= base);
    }
    if let Some(next) = &params.next {
        if is_safe_redirect_path(next.as_str()) {
            let ghost before = texts(out@);
            out.push(set_cookie("persea_next", next.as_str(), "/", sec, 600));
            proof {
                assert(texts(out@) =~= before.push(
                    cookie("persea_next"@, next@, "/"@, sec@, 600),
                ));
            }
        }
    }
    if params.desktop {
        let ghost before = texts(out@);
        out.push(set_cookie("persea_desktop", "1", "/", sec, 600));
        proof {
            assert(texts(out@) =~= before.push(cookie("persea_desktop"@, "1"@, "/"@, sec@, 600)));
        }
    }
    out
}

/// The cookies of a finished login: the session, and the end of the flow.
pub fn session_cookies(token: &str, ttl_secs: u64, sec: &str) -> (r: Vec<String>)
    ensures
        texts(r@) == seq![cookie("persea_session"@, token@, "/"@, sec@, ttl_secs as nat)]
            + cleared(sec@),
{
    let mut out: Vec<String> = Vec::new();
    out.push(set_cookie("persea_session", token, "/", sec, ttl_secs));
    proof {
        assert(texts(out@) =~= seq![
            cookie("persea_session"@, token@, "/"@, sec@, ttl_secs as nat),
        ]);
    }
    push_cleared(&mut out, sec);
    out
}

/// Where a login goes that still lacks its second factor, and where its
/// cookie is readable.
#[derive(Debug, Clone, Copy, PartialEq, Eq, Structural)]
pub enum MfaStep {
    /// The factor is verified.
    Verify,
    /// The factor is set up first.
    Enroll,
}

impl MfaStep {
    /// The page of the step.
    pub open spec fn page(self) -> Seq<char> {
        match self {
            MfaStep::Verify => "/auth/mfa"@,
            MfaStep::Enroll => "/auth/enroll"@,
        }
    }

    /// The path of the step's cookie: enrollment also needs the self-service
    /// API.
    pub open spec fn scope(self) -> Seq<char> {
        match self {
            MfaStep::Verify => "/auth/mfa"@,
            MfaStep::Enroll => "/"@,
        }
    }
}

/// The redirect of a login that still lacks its second factor: the page, and
/// the cookies that carry the pending login there and end the flow.
pub fn redirect_with_pending_mfa(step: MfaStep, pending_token: &str, ttl_secs: u64, sec: &str) -> (r:
    (String, Vec<String>))
    ensures
        r.0@ == step.page(),
        texts(r.1@) == seq![
            cookie("persea_mfa_pending"@, pending_token@, step.scope(), sec@, ttl_secs as nat),
        ] + cleared(sec@),
{
    let (page, scope): (&str, &str) = match step {
        MfaStep::Verify => ("/auth/mfa", "/auth/mfa"),
        MfaStep::Enroll => ("/auth/enroll", "/"),
    };
    let mut out: Vec<String> = Vec::new();
    out.push(set_cookie("persea_mfa_pending", pending_token, scope, sec, ttl_secs));
    proof {
        assert(texts(out@) =~= seq![
            cookie("persea_mfa_pending"@, pending_token@, step.scope(), sec@, ttl_secs as nat),
        ]);
    }
    push_cleared(&mut out, sec);
    (page.to_owned(), out)
}

/// The cookie of a logout.
pub fn logout(secure: bool) -> (r: String)
    ensures
        r@ == cookie(
            "persea_session"@,
            ""@,
            "/"@,
            if secure {
                " Secure;"@
            } else {
                ""@
            },
            0,
        ),
{
    let sec: &str = if secure {
        " Secure;"
    } else {
        ""
    };
    set_cookie("persea_session", "", "/", sec, 0)
}

// ── Providers and pending flows ──
/// A login that was started: its state, and the number under which the
/// process holds its verifier and nonce.
#[derive(Debug)]
pub struct PendingFlow {
    pub state: String,
    pub flow: u64,
    pub created: Timestamp,
}

/// The state of one provider.
#[derive(Debug)]
pub struct OidcState {
    /// The claim that lists a user's groups.
    pub groups_claim: String,
    /// The role of a user on their first login.
    pub default_role: String,
    /// Scopes to ask for beside the standard ones.
    pub extra_scopes: Vec<String>,
    /// Auth session TTL in seconds.
    pub session_ttl_secs: u64,
    /// Logins that were started, no two with one state.
    pub pending: Vec<PendingFlow>,
    /// The key of the browser fingerprint.
    pub fingerprint_key: Vec<u8>,
}

/// One named OIDC provider.
#[derive(Debug)]
pub struct OidcProvider {
    /// Provider name, used in the `?provider=` login parameter.
    pub name: String,
    /// Client and pending-flow state for this provider.
    pub state: OidcState,
}

/// All configured OIDC providers.
#[derive(Debug)]
pub struct OidcRegistry {
    /// All configured providers, in display order.
    pub providers: Vec<OidcProvider>,
}

/// The position of the provider with a name; the first without a name.
pub open spec fn provider_index(providers: Seq<OidcProvider>, name: Option<Seq<char>>) -> Option<int>
    decreases providers.len(),
{
    if providers.len() == 0 {
        None
    } else if name is None || providers[0].name@ == name->0 {
        Some(0)
    } else {
        match provider_index(providers.skip(1), name) {
            Some(i) => Some(i + 1),
            None => None,
        }
    }
}

impl OidcRegistry {
    /// The position of a provider by name. An absent name falls back to the
    /// first configured provider; an unknown name finds none.
    pub fn position(&self, name: Option<&str>) -> (r: Option<usize>)
        ensures
            match r {
                Some(i) => provider_index(self.providers@, opt_str(name)) == Some(i as int) && i
                    < self.providers@.len(),
                None => provider_index(self.providers@, opt_str(name)) is None,
            },
    {
        let mut i: usize = 0;
        proof {
            assert(self.providers@.skip(0) =~= self.providers@);
        }
        while i < self.providers.len()
            invariant
                i <= self.providers@.len(),
                provider_index(self.providers@, opt_str(name)) == match provider_index(
                    self.providers@.skip(i as int),
                    opt_str(name),
                ) {
                    Some(k) => Some(k + i),
                    None => None,
                },
            decreases self.providers@.len() - i,
        {
            proof {
                assert(self.providers@.skip(i as int).skip(1) =~= self.providers@.skip(i + 1));
                assert(self.providers@.skip(i as int)[0] == self.providers@[i as int]);
            }
            let hit = match name {
                Some(n) => same_text(self.providers[i].name.as_str(), n),
                None => true,
            };
            if hit {
                return Some(i);
            }
            i = i + 1;
        }
        None
    }

    /// Resolve a provider by name. An absent name falls back to the first
    /// configured provider; an unknown name returns `None`, so that a stale
    /// or mistyped name never signs the user into a different provider.
    pub fn get(&self, name: Option<&str>) -> (r: Option<&OidcProvider>)
        ensures
            match provider_index(self.providers@, opt_str(name)) {
                Some(i) => 0 <= i < self.providers@.len() && r == Some(&self.providers@[i]),
                None => r is None,
            },
    {
        match self.position(name) {
            Some(i) => Some(&self.providers[i]),
            None => None,
        }
    }
}

/// A provider that was named and found has that name.
pub proof fn law_named_provider_or_none(providers: Seq<OidcProvider>, name: Seq<char>)
    ensures
        match provider_index(providers, Some(name)) {
            Some(i) => 0 <= i < providers.len() && providers[i].name@ == name,
            None => forall|i: int| 0 <= i < providers.len() ==> (#[trigger] providers[i]).name@
                != name,
        },
    decreases providers.len(),
{
    if providers.len() > 0 && providers[0].name@ != name {
        law_named_provider_or_none(providers.skip(1), name);
        assert forall|i: int|
            0 < i < providers.len() && provider_index(
                providers,
                Some(name),
            ) is None implies (#[trigger] providers[i]).name@ != name by {
            assert(providers[i] == providers.skip(1)[i - 1]);
        }
    }
}

/// The flows that are not too old at `now`.
pub open spec fn fresh_flows(flows: Seq<PendingFlow>, now: Timestamp) -> Seq<PendingFlow>
    decreases flows.len(),
{
    if flows.len() == 0 {
        flows
    } else if now.ticks() - flows.last().created.ticks() < PENDING_FLOW_SECS * 1_000_000_000 {
        fresh_flows(flows.drop_last(), now).push(flows.last())
    } else {
        fresh_flows(flows.drop_last(), now)
    }
}

/// The flows without those with a state.
pub open spec fn flows_without(flows: Seq<PendingFlow>, state: Seq<char>) -> Seq<PendingFlow>
    decreases flows.len(),
{
    if flows.len() == 0 {
        flows
    } else if flows.last().state@ == state {
        flows_without(flows.drop_last(), state)
    } else {
        flows_without(flows.drop_last(), state).push(flows.last())
    }
}

/// The flow with a state.
pub open spec fn flow_of(flows: Seq<PendingFlow>, state: Seq<char>) -> Option<u64>
    decreases flows.len(),
{
    if flows.len() == 0 {
        None
    } else if flows.last().state@ == state {
        Some(flows.last().flow)
    } else {
        flow_of(flows.drop_last(), state)
    }
}

fn copy_flow(f: &PendingFlow) -> (r: PendingFlow)
    ensures
        r == *f,
{
    PendingFlow { state: f.state.clone(), flow: f.flow, created: f.created }
}

/// Whether a flow is still fresh.
fn is_fresh(f: &PendingFlow, now: &Timestamp) -> (r: bool)
    ensures
        r == (now.ticks() - f.created.ticks() < PENDING_FLOW_SECS * 1_000_000_000),
{
    !now.reaches(&f.created, PENDING_FLOW_SECS)
}

/// Remember a started login: flows that are too old are forgotten.
pub fn begin_flow(pending: &mut Vec<PendingFlow>, state: &str, flow: u64, now: Timestamp)
    ensures
        ({
            let kept = flows_without(fresh_flows(old(pending)@, now), state@);
            &&& final(pending)@.len() == kept.len() + 1
            &&& final(pending)@.drop_last() == kept
            &&& final(pending)@.last().state@ == state@
            &&& final(pending)@.last().flow == flow
            &&& final(pending)@.last().created == now
        }),
{
    let mut kept: Vec<PendingFlow> = Vec::new();
    let mut i: usize = 0;
    while i < pending.len()
        invariant
            i <= pending@.len(),
            pending@ == old(pending)@,
            kept@ == flows_without(fresh_flows(pending@.take(i as int), now), state@),
        decreases pending@.len() - i,
    {
        let ghost front = fresh_flows(pending@.take(i as int), now);
        proof {
            assert(pending@.take(i + 1).drop_last() =~= pending@.take(i as int));
        }
        if is_fresh(&pending[i], &now) {
            proof {
                assert(front.push(pending@[i as int]).drop_last() =~= front);
            }
            if !same_text(pending[i].state.as_str(), state) {
                kept.push(copy_flow(&pending[i]));
            }
        }
        i = i + 1;
    }
    proof {
        assert(pending@.take(i as int) =~= pending@);
    }
    let ghost k = kept@;
    kept.push(PendingFlow { state: state.to_owned(), flow, created: now });
    proof {
        assert(kept@.drop_last() =~= k);
    }
    *pending = kept;
}

/// Take a started login out by its state: it can be finished once.
pub fn take_flow(pending: &mut Vec<PendingFlow>, state: &str) -> (r: Option<u64>)
    ensures
        r == flow_of(old(pending)@, state@),
        final(pending)@ == flows_without(old(pending)@, state@),
{
    let mut kept: Vec<PendingFlow> = Vec::new();
    let mut found: Option<u64> = None;
    let mut i: usize = 0;
    while i < pending.len()
        invariant
            i <= pending@.len(),
            pending@ == old(pending)@,
            kept@ == flows_without(pending@.take(i as int), state@),
            found == flow_of(pending@.take(i as int), state@),
        decreases pending@.len() - i,
    {
        proof {
            assert(pending@.take(i + 1).drop_last() =~= pending@.take(i as int));
        }
        if same_text(pending[i].state.as_str(), state) {
            found = Some(pending[i].flow);
        } else {
            kept.push(copy_flow(&pending[i]));
        }
        i = i + 1;
    }
    proof {
        assert(pending@.take(i as int) =~= pending@);
    }
    *pending = kept;
    found
}

/// A state is good for one callback: once taken, it is unknown.
pub proof fn law_state_is_used_once(flows: Seq<PendingFlow>, state: Seq<char>)
    ensures
        flow_of(flows_without(flows, state), state) is None,
    decreases flows.len(),
{
    if flows.len() > 0 {
        law_state_is_used_once(flows.drop_last(), state);
        let f = flows_without(flows.drop_last(), state);
        assert(f.push(flows.last()).drop_last() =~= f);
    }
}

// ── Callback ──
/// Query parameters the provider sends back on the callback.
#[derive(Debug)]
pub struct CallbackParams {
    /// Authorization code to exchange for tokens.
    pub code: Option<String>,
    /// CSRF state echoed back from the login step.
    pub state: Option<String>,
    /// OAuth error code when the provider rejects the login.
    pub error: Option<String>,
    /// Human-readable error description from the provider.
    pub error_description: Option<String>,
}

/// The flow's cookies that a callback brings along.
#[derive(Debug)]
pub struct CallbackCookies {
    pub provider: Option<String>,
    pub state: Option<String>,
    pub desktop: Option<String>,
}

/// What a callback leads to.
#[derive(Debug)]
pub enum CallbackStep {
    /// Back to the login page, which shows that sign-on failed.
    SsoError,
    /// A bad request, with a message.
    Refused(String),
    /// The code is exchanged for tokens with a provider.
    Exchange {
        /// The provider, by its position.
        provider: usize,
        code: String,
        /// The number of the flow's verifier and nonce.
        flow: u64,
        /// Whether a desktop client is signing in.
        desktop: bool,
    },
}

/// Whether the state cookie binds the flow to this browser: it holds the
/// state and, behind the first colon, the browser's fingerprint.
pub open spec fn cookie_binds(
    value: Option<Seq<char>>,
    state: Seq<char>,
    print: Seq<char>,
) -> bool {
    match value {
        Some(v) => {
            let k = first_at(v, ':') as int;
            k < v.len() && v.take(k) == state && v.skip(k + 1) == print
        },
        None => false,
    }
}

/// Whether the state cookie binds the flow to this browser. Both comparisons
/// take constant time.
pub fn check_state_cookie(value: Option<&str>, state: &str, print: &str) -> (r: bool)
    ensures
        r == cookie_binds(opt_str(value), state@, print@),
{
    let text = match value {
        Some(v) => v,
        None => return false,
    };
    let v = chars(text);
    let k = find_char(&v, ':', 0);
    proof {
        assert(text@.skip(0) =~= text@);
    }
    let n: usize = v.len();
    if k >= n {
        return false;
    }
    let own_state = slice_text(&v, 0, k);
    let own_print = slice_text(&v, k + 1, n);
    proof {
        assert(text@.subrange(0, k as int) =~= text@.take(k as int));
        assert(text@.subrange(k + 1, n as int) =~= text@.skip(k + 1));
        encode_utf8_decode_utf8(own_state@);
        encode_utf8_decode_utf8(state@);
        encode_utf8_decode_utf8(own_print@);
        encode_utf8_decode_utf8(print@);
    }
    same_bytes(own_state.as_str().as_bytes(), state.as_bytes()) && same_bytes(
        own_print.as_str().as_bytes(),
        print.as_bytes(),
    )
}

/// Whether `after` is `before` with the flow of a state taken from one
/// provider.
pub open spec fn flow_taken(
    before: Seq<OidcProvider>,
    after: Seq<OidcProvider>,
    i: int,
    state: Seq<char>,
) -> bool {
    &&& after == before.update(i, after[i])
    &&& after[i].name == before[i].name
    &&& after[i].state == OidcState { pending: after[i].state.pending, ..before[i].state }
    &&& after[i].state.pending@ == flows_without(before[i].state.pending@, state)
}

/// Whether a callback's parameters fail before any provider is looked up.
pub open spec fn early_error(params: CallbackParams) -> bool {
    params.error is Some || params.code is None || params.state is None
}

/// GET /auth/callback, up to the exchange of the code: an error from the
/// provider or a missing parameter ends the sign-on; an unknown provider, a
/// state cookie that does not bind the flow to this browser, and an unknown
/// state are refused. A state is good for one exchange.
pub fn callback(
    registry: &mut OidcRegistry,
    params: &CallbackParams,
    cookies: &CallbackCookies,
    ip: &str,
    ua: &str,
) -> (r: CallbackStep)
    ensures
        ({
            let before = old(registry).providers@;
            let after = final(registry).providers@;
            if early_error(*params) {
                r is SsoError && after == before
            } else {
                let state = params.state->0@;
                match provider_index(before, opt_text(cookies.provider)) {
                    None => r is Refused && r->Refused_0@ == "no OIDC provider configured"@ && after
                        == before,
                    Some(i) => {
                        let oidc = before[i].state;
                        if !cookie_binds(
                            opt_text(cookies.state),
                            state,
                            fingerprint(oidc.fingerprint_key@, ip@, ua@),
                        ) {
                            r is Refused && r->Refused_0@ == "OIDC state cookie mismatch"@ && after
                                == before
                        } else {
                            flow_taken(before, after, i, state) && match flow_of(
                                oidc.pending@,
                                state,
                            ) {
                                None => r is Refused && r->Refused_0@
                                    == "invalid or expired OIDC state"@,
                                Some(flow) => r == (CallbackStep::Exchange {
                                    provider: i as usize,
                                    code: params.code->0,
                                    flow,
                                    desktop: opt_text(cookies.desktop) == Some("1"@),
                                }),
                            }
                        }
                    },
                }
            }
        }),
{
    if params.error.is_some() {
        return CallbackStep::SsoError;
    }
    let code = match &params.code {
        Some(c) => c.clone(),
        None => return CallbackStep::SsoError,
    };
    let state = match &params.state {
        Some(s) => s.clone(),
        None => return CallbackStep::SsoError,
    };
    let i: usize = match registry.position(borrow_opt(&cookies.provider)) {
        Some(i) => i,
        None => return CallbackStep::Refused("no OIDC provider configured".to_owned()),
    };
    let print = state_fingerprint(&registry.providers[i].state.fingerprint_key, ip, ua);
    if !check_state_cookie(borrow_opt(&cookies.state), state.as_str(), print.as_str()) {
        return CallbackStep::Refused("OIDC state cookie mismatch".to_owned());
    }
    let found = take_from(&mut registry.providers[i], state.as_str());
    let desktop = same_opt(borrow_opt(&cookies.desktop), Some("1"));
    match found {
        None => CallbackStep::Refused("invalid or expired OIDC state".to_owned()),
        Some(flow) => CallbackStep::Exchange { provider: i, code, flow, desktop },
    }
}

fn take_from(provider: &mut OidcProvider, state: &str) -> (r: Option<u64>)
    ensures
        final(provider).name == old(provider).name,
        final(provider).state == (OidcState {
            pending: final(provider).state.pending,
            ..old(provider).state
        }),
        final(provider).state.pending@ == flows_without(old(provider).state.pending@, state@),
        r == flow_of(old(provider).state.pending@, state@),
{
    take_flow(&mut provider.state.pending, state)
}

/// A flow that was started in one browser cannot be finished in another: an
/// exchange needs a state cookie with the fingerprint of the browser that
/// asks.
pub proof fn law_flow_stays_in_its_browser(
    value: Seq<char>,
    state: Seq<char>,
    started: Seq<char>,
    asking: Seq<char>,
)
    requires
        !state.contains(':'),
        value == state + ":"@ + started,
    ensures
        cookie_binds(Some(value), state, asking) <==> started == asking,
{
    reveal_strlit(":");
    let k = state.len() as int;
    assert forall|j: int| 0 <= j < k implies value[j] != ':' by {
        assert(value[j] == state[j]);
        assert(state.contains(state[j]));
    }
    assert(value[k] == ':');
    crate::text::lemma_first_at_is(value, ':', k);
    assert(value.take(k) =~= state);
    assert(value.skip(k + 1) =~= started);
}

/// The scopes that a login asks for.
pub fn login_scopes(extra: &Vec<String>) -> (r: Vec<String>)
    ensures
        texts(r@) == seq!["openid"@, "email"@, "profile"@] + texts(extra@),
{
    let mut out: Vec<String> = Vec::new();
    out.push("openid".to_owned());
    out.push("email".to_owned());
    out.push("profile".to_owned());
    let ghost base = seq!["openid"@, "email"@, "profile"@];
    let mut i: usize = 0;
    proof {
        assert(texts(out@) =~= base + texts(extra@).take(0));
    }
    while i < extra.len()
        invariant
            i <= extra@.len(),
            texts(out@) == base + texts(extra@).take(i as int),
        decreases extra@.len() - i,
    {
        let ghost before = texts(out@);
        out.push(extra[i].clone());
        proof {
            assert(texts(out@) =~= before.push(extra@[i as int]@));
            assert(base + texts(extra@).take(i + 1) =~= (base + texts(extra@).take(i as int)).push(
                texts(extra@)[i as int],
            ));
        }
        i = i + 1;
    }
    proof {
        assert(texts(extra@).take(i as int) =~= texts(extra@));
    }
    out
}

/// Why an exchange failed.
#[derive(Debug, Clone, Copy, PartialEq, Eq, Structural)]
pub enum ExchangeFailure {
    NoTokenEndpoint,
    ExchangeFailed,
    NoIdToken,
    InvalidIdToken,
}

impl ExchangeFailure {
    /// The message of each failure.
    pub open spec fn message_spec(self) -> Seq<char> {
        match self {
            ExchangeFailure::NoTokenEndpoint => "OIDC token endpoint not available"@,
            ExchangeFailure::ExchangeFailed => "OIDC token exchange failed"@,
            ExchangeFailure::NoIdToken => "no ID token in OIDC response"@,
            ExchangeFailure::InvalidIdToken => "ID token verification failed"@,
        }
    }

    /// The message of the failure; each is answered as a bad gateway.
    pub fn message(&self) -> (r: &'static str)
        ensures
            r@ == self.message_spec(),
    {
        match self {
            ExchangeFailure::NoTokenEndpoint => "OIDC token endpoint not available",
            ExchangeFailure::ExchangeFailed => "OIDC token exchange failed",
            ExchangeFailure::NoIdToken => "no ID token in OIDC response",
            ExchangeFailure::InvalidIdToken => "ID token verification failed",
        }
    }
}

/// The email and name of a user from the claims: without an email the subject
/// stands for it, without a name there is none.
pub fn claimed_identity(subject: &str, email: Option<&str>, name: Option<&str>) -> (r: (
    String,
    String,
))
    ensures
        r.0@ == match email {
            Some(e) => e@,
            None => subject@,
        },
        r.1@ == match name {
            Some(n) => n@,
            None => Seq::empty(),
        },
{
    let e = match email {
        Some(e) => e.to_owned(),
        None => subject.to_owned(),
    };
    let n = match name {
        Some(n) => n.to_owned(),
        None => String::new(),
    };
    (e, n)
}

/// When a second factor is asked for.
#[derive(Debug, Clone, Copy, PartialEq, Eq, Structural)]
pub enum TotpEnforcement {
    Off,
    AdminsOnly,
    All,
}

/// What a login leads to once the user is known.
#[derive(Debug, Clone, Copy, PartialEq, Eq)]
pub enum LoginGate {
    /// The account is disabled.
    Disabled,
    /// A second factor comes first; no session is made.
    SecondFactor(MfaStep),
    /// A session is made.
    Granted,
}

/// Whether enforcement reaches a role.
pub open spec fn enforced(enforcement: TotpEnforcement, role: Seq<char>) -> bool {
    match enforcement {
        TotpEnforcement::Off => false,
        TotpEnforcement::AdminsOnly => role == "admin"@,
        TotpEnforcement::All => true,
    }
}

/// What a login leads to: a disabled account gets nothing, and where a second
/// factor is enforced it is verified, or set up first.
pub fn login_gate(
    disabled: bool,
    enforcement: TotpEnforcement,
    role: &str,
    has_totp: bool,
) -> (r: LoginGate)
    ensures
        r == if disabled {
            LoginGate::Disabled
        } else if !enforced(enforcement, role@) {
            LoginGate::Granted
        } else if has_totp {
            LoginGate::SecondFactor(MfaStep::Verify)
        } else {
            LoginGate::SecondFactor(MfaStep::Enroll)
        },
{
    if disabled {
        return LoginGate::Disabled;
    }
    let ask = match enforcement {
        TotpEnforcement::Off => false,
        TotpEnforcement::AdminsOnly => same_text(role, "admin"),
        TotpEnforcement::All => true,
    };
    if !ask {
        LoginGate::Granted
    } else if has_totp {
        LoginGate::SecondFactor(MfaStep::Verify)
    } else {
        LoginGate::SecondFactor(MfaStep::Enroll)
    }
}

/// A role for the members of a provider's group.
#[derive(Debug)]
pub struct GroupMapping {
    pub group: String,
    pub role: String,
}

/// The role that group mappings give: the highest of those that match, and of
/// equals the first. Nothing where none matches.
pub open spec fn mapped_role(mappings: Seq<GroupMapping>, groups: Seq<Seq<char>>) -> Option<
    Seq<char>,
>
    decreases mappings.len(),
{
    if mappings.len() == 0 {
        None
    } else {
        let before = mapped_role(mappings.drop_last(), groups);
        let last = mappings.last();
        if groups.contains(last.group@) && (before is None || role_level_spec(last.role@) > role_level_spec(
            before->0,
        )) {
            Some(last.role@)
        } else {
            before
        }
    }
}

/// Resolve a role from group mappings: the highest that matches wins.
pub fn role_from_groups(mappings: &Vec<GroupMapping>, groups: &Vec<String>) -> (r: Option<String>)
    ensures
        opt_text(r) == mapped_role(mappings@, texts(groups@)),
{
    let mut best: Option<String> = None;
    let mut i: usize = 0;
    while i < mappings.len()
        invariant
            i <= mappings@.len(),
            opt_text(best) == mapped_role(mappings@.take(i as int), texts(groups@)),
        decreases mappings@.len() - i,
    {
        proof {
            assert(mappings@.take(i + 1).drop_last() =~= mappings@.take(i as int));
        }
        let m = &mappings[i];
        let higher = match &best {
            Some(b) => role_level(m.role.as_str()) > role_level(b.as_str()),
            None => true,
        };
        if higher && list_has(groups, m.group.as_str()) {
            best = Some(m.role.clone());
        }
        i = i + 1;
    }
    proof {
        assert(mappings@.take(i as int) =~= mappings@);
    }
    best
}

/// No mapping that matches gives a higher role than the one that is taken.
pub proof fn law_highest_mapping_wins(
    mappings: Seq<GroupMapping>,
    groups: Seq<Seq<char>>,
    i: int,
)
    requires
        0 <= i < mappings.len(),
        groups.contains(mappings[i].group@),
    ensures
        mapped_role(mappings, groups) is Some,
        role_level_spec(mappings[i].role@) <= role_level_spec(mapped_role(mappings, groups)->0),
    decreases mappings.len(),
{
    if i < mappings.len() - 1 {
        assert(mappings.drop_last()[i] == mappings[i]);
        law_highest_mapping_wins(mappings.drop_last(), groups, i);
    }
}

/// The role of a login: the one that a group mapping gives, else the stored.
pub fn effective_role(mapped: Option<&str>, stored: &str) -> (r: String)
    ensures
        r@ == match mapped {
            Some(m) => m@,
            None => stored@,
        },
{
    match mapped {
        Some(m) => m.to_owned(),
        None => stored.to_owned(),
    }
}

// ── Groups ──
/// How many characters of `s` fit into `n` bytes.
pub open spec fn chars_fitting(s: Seq<char>, n: nat) -> nat
    decreases s.len(),
{
    if s.len() == 0 || char_width(s[0]) > n {
        0
    } else {
        1 + chars_fitting(s.drop_first(), (n - char_width(s[0])) as nat)
    }
}

/// The longest beginning of `s` that fits into the bytes of a group name.
pub open spec fn short_name(s: Seq<char>) -> Seq<char> {
    s.take(chars_fitting(s, MAX_OIDC_GROUP_LEN as nat) as int)
}

proof fn lemma_chars_fitting(s: Seq<char>, n: nat)
    ensures
        chars_fitting(s, n) <= s.len(),
        byte_len(s.take(chars_fitting(s, n) as int)) <= n,
        chars_fitting(s, n) < s.len() ==> byte_len(s.take(chars_fitting(s, n) as int + 1)) > n,
    decreases s.len(),
{
    if s.len() == 0 {
        assert(s.take(0) =~= Seq::empty());
    } else if char_width(s[0]) > n {
        assert(s.take(0) =~= Seq::empty());
        assert(s.take(1)[0] == s[0]);
    } else {
        let m = (n - char_width(s[0])) as nat;
        let t = s.drop_first();
        lemma_chars_fitting(t, m);
        let k = chars_fitting(s, n) as int;
        assert(s.take(k).drop_first() =~= t.take(k - 1));
        if k < s.len() {
            assert(s.take(k + 1).drop_first() =~= t.take(k));
        }
    }
}

/// A shortened group name fits, is a beginning of the name, and one more
/// character would not fit; a name that fits is not shortened.
pub proof fn law_short_name(s: Seq<char>)
    ensures
        byte_len(short_name(s)) <= MAX_OIDC_GROUP_LEN,
        short_name(s).is_prefix_of(s),
        short_name(s).len() < s.len() ==> byte_len(s.take(short_name(s).len() as int + 1))
            > MAX_OIDC_GROUP_LEN,
        byte_len(s) <= MAX_OIDC_GROUP_LEN ==> short_name(s) == s,
{
    let n = MAX_OIDC_GROUP_LEN as nat;
    lemma_chars_fitting(s, n);
    let k = chars_fitting(s, n) as int;
    assert(s.take(k) =~= s.subrange(0, k));
    if byte_len(s) <= n && k < s.len() {
        lemma_byte_len_prefix(s, k + 1);
    }
    if k == s.len() {
        assert(s.take(k) =~= s);
    }
}

proof fn lemma_byte_len_prefix(s: Seq<char>, k: int)
    requires
        0 <= k <= s.len(),
    ensures
        byte_len(s.take(k)) <= byte_len(s),
    decreases s.len(),
{
    if k > 0 {
        lemma_byte_len_prefix(s.drop_first(), k - 1);
        assert(s.take(k).drop_first() =~= s.drop_first().take(k - 1));
    }
}

/// A group name, cut to its longest beginning that fits.
pub fn truncate_group_name(s: &str) -> (r: String)
    ensures
        r@ == short_name(s@),
{
    let v = chars(s);
    let mut left: usize = MAX_OIDC_GROUP_LEN;
    let mut i: usize = 0;
    proof {
        assert(s@.skip(0) =~= s@);
    }
    while i < v.len()
        invariant
            i <= v@.len(),
            v@ == s@,
            left <= MAX_OIDC_GROUP_LEN,
            chars_fitting(s@, MAX_OIDC_GROUP_LEN as nat) == i + chars_fitting(
                s@.skip(i as int),
                left as nat,
            ),
        decreases v@.len() - i,
    {
        let n: u32 = v[i] as u32;
        let w: usize = if n <= 0x7f {
            1
        } else if n <= 0x7ff {
            2
        } else if n <= 0xffff {
            3
        } else {
            4
        };
        proof {
            assert(s@.skip(i as int).drop_first() =~= s@.skip(i + 1));
            assert(s@.skip(i as int)[0] == s@[i as int]);
        }
        if w > left {
            proof {
                assert(s@.subrange(0, i as int) =~= short_name(s@));
            }
            return slice_text(&v, 0, i);
        }
        left = left - w;
        i = i + 1;
    }
    proof {
        assert(s@.subrange(0, i as int) =~= short_name(s@));
    }
    slice_text(&v, 0, i)
}

/// How a successful login is answered.
#[derive(Debug)]
pub struct LoginAnswer {
    pub cookies: Vec<String>,
    /// Where the browser goes; nothing where it is shown the page that hands a
    /// desktop client its token.
    pub redirect: Option<String>,
}

/// How a login with a new session is answered: the session's cookie is set and
/// the flow's are cleared. A desktop client whose token was minted gets it on
/// a page; every other browser goes to the wanted path, if it is safe.
pub fn login_answer(
    token: &str,
    ttl_secs: u64,
    sec: &str,
    next: Option<&str>,
    desktop: bool,
    minted: bool,
) -> (r: LoginAnswer)
    ensures
        texts(r.cookies@) == seq![
            cookie("persea_session"@, token@, "/"@, sec@, ttl_secs as nat),
        ] + cleared(sec@),
        opt_text(r.redirect) == if desktop && minted {
            None
        } else {
            Some(landing(opt_str(next)))
        },
{
    let cookies = session_cookies(token, ttl_secs, sec);
    let redirect = if desktop && minted {
        None
    } else {
        Some(redirect_target(next))
    };
    LoginAnswer { cookies, redirect }
}

/// The claim of an ID token that lists groups.
#[derive(Debug)]
pub enum GroupsClaim {
    /// A list, with the members that are texts.
    List(Vec<Option<String>>),
    /// One group as a text.
    One(String),
    /// Anything else, or nothing.
    Absent,
}

/// The claim over character sequences.
pub ghost enum GroupsText {
    List(Seq<Option<Seq<char>>>),
    One(Seq<char>),
    Absent,
}

impl GroupsClaim {
    /// The claim over character sequences.
    pub open spec fn texts(&self) -> GroupsText {
        match self {
            GroupsClaim::List(v) => GroupsText::List(
                Seq::new(v@.len(), |i: int| opt_text(v@[i])),
            ),
            GroupsClaim::One(s) => GroupsText::One(s@),
            GroupsClaim::Absent => GroupsText::Absent,
        }
    }
}

/// The bytes that a text encodes in the URL-safe alphabet without padding.
pub uninterp spec fn base64_url(text: Seq<char>) -> Option<Seq<u8>>;

/// `base64`'s `URL_SAFE_NO_PAD` engine: the decoded bytes, if the text is an
/// encoding.
#[verifier::external_body]
fn decode_base64(text: &str) -> (r: Option<Vec<u8>>)
    ensures
        match r {
            Some(v) => base64_url(text@) == Some(v@),
            None => base64_url(text@) is None,
        },
{
    base64::Engine::decode(&base64::engine::general_purpose::URL_SAFE_NO_PAD, text).ok()
}

/// The texts in the items of a JSON list, nothing for an item that is no
/// string.
pub open spec fn strings_in(items: Seq<Seq<char>>) -> Seq<Option<Seq<char>>> {
    Seq::new(items.len(), |i: int| string_in(items[i]))
}

/// The claim from its JSON text.
pub open spec fn claim_in(json: Seq<char>) -> GroupsText {
    match json_of(json) {
        Ok(JsonText::List(v)) => GroupsText::List(strings_in(v)),
        Ok(JsonText::Text(s)) => GroupsText::One(s),
        _ => GroupsText::Absent,
    }
}

/// The claim with a name in a JSON object, given as bytes.
pub open spec fn claim_of(json: Seq<u8>, name: Seq<char>) -> GroupsText {
    if !valid_utf8(json) {
        GroupsText::Absent
    } else {
        match json_of(decode_utf8(json)) {
            Err(_) => GroupsText::Absent,
            Ok(v) => match member_text(v, name) {
                Some(t) => claim_in(t),
                None => GroupsText::Absent,
            },
        }
    }
}

fn read_strings(items: &Vec<String>) -> (r: Vec<Option<String>>)
    ensures
        r@.len() == items@.len(),
        forall|i: int|
            0 <= i < items@.len() ==> opt_text(#[trigger] r@[i]) == string_in(items@[i]@),
{
    let mut out: Vec<Option<String>> = Vec::new();
    let mut i: usize = 0;
    while i < items.len()
        invariant
            i <= items@.len(),
            out@.len() == i,
            forall|j: int| 0 <= j < i ==> opt_text(#[trigger] out@[j]) == string_in(items@[j]@),
        decreases items@.len() - i,
    {
        out.push(read_string(items[i].as_str()));
        i = i + 1;
    }
    out
}

/// The claim with a name in a JSON object, given as bytes.
fn read_claim(json: &[u8], name: &str) -> (r: GroupsClaim)
    ensures
        r.texts() == claim_of(json@, name@),
{
    let text = match utf8_text(json) {
        Some(s) => s,
        None => return GroupsClaim::Absent,
    };
    proof {
        encode_utf8_decode_utf8(text@);
    }
    let claim = match parse_json(text) {
        Ok(v) => match member(&v, name) {
            Some(t) => t,
            None => return GroupsClaim::Absent,
        },
        Err(_) => return GroupsClaim::Absent,
    };
    match parse_json(claim.as_str()) {
        Ok(Json::List(v)) => {
            let names = read_strings(&v);
            proof {
                assert(Seq::new(names@.len(), |i: int| opt_text(names@[i])) =~= strings_in(
                    texts(v@),
                ));
            }
            GroupsClaim::List(names)
        },
        Ok(Json::Text(s)) => GroupsClaim::One(s),
        _ => GroupsClaim::Absent,
    }
}

/// The texts of a list, each shortened.
pub open spec fn short_names(v: Seq<Option<Seq<char>>>) -> Seq<Seq<char>>
    decreases v.len(),
{
    if v.len() == 0 {
        Seq::empty()
    } else {
        match v.last() {
            Some(s) => short_names(v.drop_last()).push(short_name(s)),
            None => short_names(v.drop_last()),
        }
    }
}

/// The groups of a claim: shortened names, and not too many.
pub open spec fn groups_of(claim: GroupsText) -> Seq<Seq<char>> {
    let all = match claim {
        GroupsText::List(v) => short_names(v),
        GroupsText::One(s) => seq![short_name(s)],
        GroupsText::Absent => Seq::empty(),
    };
    if all.len() > MAX_OIDC_GROUPS {
        all.take(MAX_OIDC_GROUPS as int)
    } else {
        all
    }
}

/// The groups of a claim.
pub fn groups_from_claim(claim: GroupsClaim) -> (r: Vec<String>)
    ensures
        texts(r@) == groups_of(claim.texts()),
{
    let mut out: Vec<String> = Vec::new();
    match claim {
        GroupsClaim::Absent => {
            proof {
                assert(texts(out@) =~= Seq::empty());
            }
        },
        GroupsClaim::One(s) => {
            out.push(truncate_group_name(s.as_str()));
            proof {
                assert(texts(out@) =~= seq![short_name(s@)]);
            }
        },
        GroupsClaim::List(v) => {
            let ghost t: Seq<Option<Seq<char>>> = Seq::new(v@.len(), |i: int| opt_text(v@[i]));
            let mut i: usize = 0;
            proof {
                assert(texts(out@) =~= short_names(t.take(0)));
            }
            while i < v.len()
                invariant
                    i <= v@.len(),
                    t == Seq::new(v@.len(), |i: int| opt_text(v@[i])),
                    texts(out@) == short_names(t.take(i as int)),
                decreases v@.len() - i,
            {
                let ghost before = texts(out@);
                proof {
                    assert(t.take(i + 1).drop_last() =~= t.take(i as int));
                    assert(t.take(i + 1).last() == t[i as int]);
                }
                if let Some(s) = &v[i] {
                    out.push(truncate_group_name(s.as_str()));
                    proof {
                        assert(texts(out@) =~= before.push(short_name(s@)));
                    }
                }
                i = i + 1;
            }
            proof {
                assert(t.take(i as int) =~= t);
            }
        },
    }
    let ghost all = texts(out@);
    if out.len() > MAX_OIDC_GROUPS {
        out.truncate(MAX_OIDC_GROUPS);
        proof {
            assert(texts(out@) =~= all.take(MAX_OIDC_GROUPS as int));
        }
    }
    out
}

/// The groups claim of a token: its second part, decoded.
pub open spec fn token_claim(token: Seq<char>, name: Seq<char>) -> GroupsText {
    let parts = split_on(token, '.');
    if parts.len() < 2 {
        GroupsText::Absent
    } else {
        match base64_url(parts[1]) {
            Some(bytes) => claim_of(bytes, name),
            None => GroupsText::Absent,
        }
    }
}

/// Extract group memberships from a JWT by decoding its payload. A token that
/// cannot be read, and one without the claim, has no groups.
pub fn extract_groups_from_jwt(token_str: &str, groups_claim: &str) -> (r: Vec<String>)
    ensures
        texts(r@) == groups_of(token_claim(token_str@, groups_claim@)),
{
    let parts = split(token_str, '.');
    if parts.len() < 2 {
        return groups_from_claim(GroupsClaim::Absent);
    }
    proof {
        assert(texts(parts@)[1] == parts@[1]@);
    }
    match decode_base64(parts[1].as_str()) {
        None => groups_from_claim(GroupsClaim::Absent),
        Some(bytes) => groups_from_claim(read_claim(bytes.as_slice(), groups_claim)),
    }
}

/// A login never brings more than the maximum of groups, and no name that is
/// too long.
pub proof fn law_groups_are_bounded(claim: GroupsText, i: int)
    requires
        0 <= i < groups_of(claim).len(),
    ensures
        groups_of(claim).len() <= MAX_OIDC_GROUPS,
        byte_len(groups_of(claim)[i]) <= MAX_OIDC_GROUP_LEN,
{
    match claim {
        GroupsText::List(v) => {
            lemma_short_names(v, i);
        },
        GroupsText::One(s) => {
            law_short_name(s);
        },
        GroupsText::Absent => {},
    }
}

proof fn lemma_short_names(v: Seq<Option<Seq<char>>>, i: int)
    requires
        0 <= i < short_names(v).len(),
    ensures
        byte_len(short_names(v)[i]) <= MAX_OIDC_GROUP_LEN,
    decreases v.len(),
{
    let front = short_names(v.drop_last());
    if i < front.len() {
        lemma_short_names(v.drop_last(), i);
    } else {
        law_short_name(v.last()->0);
    }
}

// ── Discovery ──
/// The issuer that a provider advertises and the one that was expected, in an
/// error that names both.
pub open spec fn issuer_mismatch(raw: Seq<char>) -> Option<(Seq<char>, Seq<char>)> {
    match sub_at(raw, "unexpected issuer URI `"@) {
        None => None,
        Some(i) => {
            let after = raw.skip(i + 23);
            match sub_at(after, "`"@) {
                None => None,
                Some(k) => {
                    let rest = after.skip(k + 1);
                    match sub_at(rest, "(expected `"@) {
                        None => None,
                        Some(m) => {
                            let tail = rest.skip(m + 11);
                            match sub_at(tail, "`"@) {
                                None => None,
                                Some(n) => Some((after.take(k), tail.take(n))),
                            }
                        },
                    }
                },
            }
        },
    }
}

/// Extract the advertised and the expected issuer from an error of the shape
/// ``unexpected issuer URI `GOT` (expected `EXPECTED`)``. `None` for any other
/// shape.
pub fn parse_issuer_mismatch(raw: &str) -> (r: Option<(String, String)>)
    ensures
        match r {
            Some((got, expected)) => issuer_mismatch(raw@) == Some((got@, expected@)),
            None => issuer_mismatch(raw@) is None,
        },
{
    proof {
        reveal_strlit("unexpected issuer URI `");
        reveal_strlit("(expected `");
        reveal_strlit("`");
        assert("unexpected issuer URI `"@.len() == 23);
        assert("(expected `"@.len() == 11);
        assert("`"@.len() == 1);
    }
    let v = chars(raw);
    let total: usize = v.len();
    proof {
        assert(raw@.skip(0) =~= raw@);
        assert(raw@.len() == total);
    }
    let a: usize = match find_first(&v, 0, "unexpected issuer URI `") {
        Some(i) => i + 23,
        None => return None,
    };
    let ghost after = raw@.skip(a as int);
    let k: usize = match find_first(&v, a, "`") {
        Some(k) => k,
        None => return None,
    };
    let b: usize = a + k + 1;
    let ghost rest = after.skip(k + 1);
    proof {
        assert(rest =~= raw@.skip(b as int));
    }
    let m: usize = match find_first(&v, b, "(expected `") {
        Some(m) => m,
        None => return None,
    };
    let c: usize = b + m + 11;
    let ghost tail = rest.skip(m + 11);
    proof {
        assert(tail =~= raw@.skip(c as int));
    }
    let n: usize = match find_first(&v, c, "`") {
        Some(n) => n,
        None => return None,
    };
    proof {
        assert(raw@.subrange(a as int, a + k) =~= after.take(k as int));
        assert(raw@.subrange(c as int, c + n) =~= tail.take(n as int));
    }
    Some((slice_text(&v, a, a + k), slice_text(&v, c, c + n)))
}

/// A pattern that ends in a backtick does not stand before the first one.
proof fn lemma_not_before(s: Seq<char>, pat: Seq<char>, first: int, j: int)
    requires
        pat.len() > 0,
        pat[pat.len() - 1] == '`',
        forall|i: int| 0 <= i < first ==> s[i] != '`',
        j + pat.len() - 1 < first,
    ensures
        !occurs_at(s, pat, j),
{
    if occurs_at(s, pat, j) {
        assert(s.subrange(j, j + pat.len() as int)[pat.len() - 1] == s[j + pat.len() - 1]);
    }
}

/// A pattern that ends in its only backtick is found behind a text without
/// one.
proof fn lemma_found_behind(before: Seq<char>, pat: Seq<char>, behind: Seq<char>)
    requires
        pat.len() > 0,
        pat[pat.len() - 1] == '`',
        forall|i: int| 0 <= i < pat.len() - 1 ==> pat[i] != '`',
        forall|i: int| 0 <= i < before.len() ==> before[i] != '`',
    ensures
        sub_at(before + pat + behind, pat) == Some(before.len() as int),
{
    let s = before + pat + behind;
    let k = before.len() as int;
    assert(s.subrange(k, k + pat.len() as int) =~= pat);
    assert forall|i: int| 0 <= i < k + pat.len() - 1 implies s[i] != '`' by {
        if i < k {
            assert(s[i] == before[i]);
        } else {
            assert(s[i] == pat[i - k]);
        }
    }
    assert forall|j: int| 0 <= j < k implies !#[trigger] occurs_at(s, pat, j) by {
        lemma_not_before(s, pat, k + pat.len() - 1, j);
    }
    lemma_sub_at_is(s, pat, k);
}

/// Of an error that reads ``unexpected issuer URI `GOT` (expected `EXPECTED`)``
/// both issuers are read, whatever stands around it, as long as no backtick
/// comes before.
pub proof fn law_issuer_mismatch_is_read(
    before: Seq<char>,
    got: Seq<char>,
    expected: Seq<char>,
    behind: Seq<char>,
)
    requires
        forall|i: int| 0 <= i < before.len() ==> before[i] != '`',
        forall|i: int| 0 <= i < got.len() ==> got[i] != '`',
        forall|i: int| 0 <= i < expected.len() ==> expected[i] != '`',
    ensures
        issuer_mismatch(
            before + "unexpected issuer URI `"@ + got + "` (expected `"@ + expected + "`"@
                + behind,
        ) == Some((got, expected)),
{
    reveal_strlit("unexpected issuer URI `");
    reveal_strlit("` (expected `");
    reveal_strlit("(expected `");
    reveal_strlit("`");
    let raw = before + "unexpected issuer URI `"@ + got + "` (expected `"@ + expected + "`"@
        + behind;
    let tail = expected + "`"@ + behind;
    let gap = seq![' '];
    let rest = gap + "(expected `"@ + tail;
    let after = got + "`"@ + rest;
    assert(raw =~= before + "unexpected issuer URI `"@ + after);
    lemma_found_behind(before, "unexpected issuer URI `"@, after);
    assert(raw.skip((before.len() + 23) as int) =~= after);
    lemma_found_behind(got, "`"@, rest);
    assert(after.skip((got.len() + 1) as int) =~= rest);
    lemma_found_behind(gap, "(expected `"@, tail);
    assert(rest.skip(12) =~= tail);
    lemma_found_behind(expected, "`"@, behind);
    assert(after.take(got.len() as int) =~= got);
    assert(tail.take(expected.len() as int) =~= expected);
}

/// What is said of an issuer mismatch.
pub open spec fn mismatch_text(
    headline: Seq<char>,
    expected: Seq<char>,
    got: Seq<char>,
    fix: Seq<char>,
) -> Seq<char> {
    "OIDC discovery failed: "@ + headline + ".\n  config:   \""@ + expected
        + "\"\n  provider: \""@ + got + "\"\n  Fix: "@ + fix + "."@
}

/// What an operator is told of a failed discovery: an issuer mismatch with its
/// fix, anything else as it is.
pub open spec fn discovery_text(raw: Seq<char>) -> Seq<char> {
    match issuer_mismatch(raw) {
        None => "OIDC discovery failed: "@ + raw,
        Some((got, expected)) => if without_trailing(got, '/') != without_trailing(
            expected,
            '/',
        ) {
            mismatch_text(
                "issuer_url does not match the provider's advertised value"@,
                expected,
                got,
                "set issuer_url = \""@ + got + "\" in your [oidc] config"@,
            )
        } else if "/"@.is_suffix_of(expected) && !"/"@.is_suffix_of(got) {
            mismatch_text(
                "issuer_url has an extra trailing slash"@,
                expected,
                got,
                "remove the trailing slash from issuer_url"@,
            )
        } else {
            mismatch_text(
                "issuer_url is missing a trailing slash"@,
                expected,
                got,
                "add a trailing slash to issuer_url"@,
            )
        },
    }
}

fn mismatch_message(headline: &str, expected: &str, got: &str, fix: &str) -> (r: String)
    ensures
        r@ == mismatch_text(headline@, expected@, got@, fix@),
{
    let mut s = join3("OIDC discovery failed: ", headline, ".\n  config:   \"");
    s.append(expected);
    s.append("\"\n  provider: \"");
    s.append(got);
    s.append("\"\n  Fix: ");
    s.append(fix);
    s.append(".");
    s
}

/// Reshape a discovery error into something an operator can act on: where the
/// issuer in the configuration and the provider's own differ, both are shown
/// and the fix is named.
pub fn friendly_discovery_error(raw: &str) -> (r: String)
    ensures
        r@ == discovery_text(raw@),
{
    let (got, expected): (String, String) = match parse_issuer_mismatch(raw) {
        Some(pair) => pair,
        None => return join2("OIDC discovery failed: ", raw),
    };
    let a = trim_end_char(got.as_str(), '/');
    let b = trim_end_char(expected.as_str(), '/');
    if !same_text(a.as_str(), b.as_str()) {
        let fix = join3("set issuer_url = \"", got.as_str(), "\" in your [oidc] config");
        return mismatch_message(
            "issuer_url does not match the provider's advertised value",
            expected.as_str(),
            got.as_str(),
            fix.as_str(),
        );
    }
    if ends_with(expected.as_str(), "/") && !ends_with(got.as_str(), "/") {
        mismatch_message(
            "issuer_url has an extra trailing slash",
            expected.as_str(),
            got.as_str(),
            "remove the trailing slash from issuer_url",
        )
    } else {
        mismatch_message(
            "issuer_url is missing a trailing slash",
            expected.as_str(),
            got.as_str(),
            "add a trailing slash to issuer_url",
        )
    }
}

} // verus!
