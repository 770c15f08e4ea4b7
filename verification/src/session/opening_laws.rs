//! Who may open a session and to where, in which steps it is opened, and what
//! is shown of it.

use crate::config::Config;
use crate::guacd::{handshake_elements, join_arg, ConnectionParams, RdpParams, SshParams, VncParams};
use crate::net_util::{url_of, UrlParts};
use crate::outside::{hex_text, sha256, uuid_text};
use crate::session::create::{
    admission_refusal, created_count, either, label_of, security_mode, setting, stored_flag,
    stored_number, stored_size, toggle_of, toggle_said, type_verdict, ProtocolDefaults,
};
use crate::session::credentials::{
    dropped, key_at, lookup, owned, stored, token_key, unexpired, Entries,
    RetainedSessionCredential,
};
use crate::session::events::{later, EventWindow};
use crate::session::flow::{request_hops, Setup, SetupStep};
use crate::session::lifecycle_laws::law_picking_is_exact;
use crate::session::manager::{
    event_of, find, lemma_find, lemma_find_after_update, lemma_find_is, ManagerState,
};
use crate::session::names::{
    container_user, escapes_path, first_chars, hyphened, local_part, non_empty, safe_name,
    underscored,
};
use crate::session::network::{
    any_holds, client_name, denial, denied, host_name, host_refusal, ip_of, network_of, networks_of,
    target_refusal, url_like, verdict_is, IpNumber, Lookup, Network,
};
use crate::session::plan::{tunnelled_url, web_tunnel_target};
use crate::session::reaper::{
    idle_limit, is_idle, looked_at, round_log, round_removed, ManagedContainer,
};
use crate::session::types::{
    named_status, named_type, CreateSessionRequest, JumpHost, Session, SessionError, SessionEvent,
    SessionEventKind, SessionInfo, SessionRegistryRow, SessionStatus, SessionType,
};
use crate::session::{filled, or_else};
use crate::text::{
    digits, has_sub, is_alnum, joined, lemma_split_at, lemma_split_one, split_on, texts, trimmed,
    unsigned_upto,
};
use crate::time::{MAX_UTC_SECS, Timestamp};
use vstd::arithmetic::power2::pow2;
use vstd::prelude::*;
use vstd::string::*;
use vstd::utf8::*;

verus! {

// ── Settings and toggles ──
/// A setting has the value of the first row with its key.
pub proof fn law_first_setting_counts(settings: Seq<(String, String)>, key: Seq<char>, k: int)
    requires
        0 <= k <= settings.len(),
        forall|i: int| 0 <= i < k ==> (#[trigger] settings[i]).0@ != key,
    ensures
        k < settings.len() && settings[k].0@ == key ==> setting(settings, key) == Some(
            settings[k].1@,
        ),
        k == settings.len() ==> setting(settings, key) is None,
    decreases k,
{
    if k > 0 {
        assert(settings[0].0@ != key);
        let t = settings.skip(1);
        assert forall|i: int| 0 <= i < k - 1 implies (#[trigger] t[i]).0@ != key by {
            assert(t[i] == settings[i + 1]);
        }
        law_first_setting_counts(t, key, k - 1);
    }
}

/// What a setting writes: a number that fits, or a flag; anything else counts
/// for nothing.
pub proof fn law_settings_are_read_strictly(
    settings: Seq<(String, String)>,
    key: Seq<char>,
    max: nat,
    code: u32,
)
    ensures
        setting(settings, key) is None ==> stored_number(settings, key, max) is None && stored_flag(
            settings,
            key,
        ) is None && stored_size(settings, key, code) == code,
        setting(settings, key) is Some ==> stored_number(settings, key, max) == unsigned_upto(
            setting(settings, key)->0,
            max,
        ),
        stored_flag(settings, key) == Some(true) <==> setting(settings, key) == Some("true"@),
        stored_flag(settings, key) == Some(false) <==> setting(settings, key) == Some("false"@),
        setting(settings, key) is Some && unsigned_upto(setting(settings, key)->0, 0xffff_ffff)
            is Some ==> stored_size(settings, key, code) == unsigned_upto(
            setting(settings, key)->0,
            0xffff_ffff,
        )->0,
        setting(settings, key) is Some && unsigned_upto(setting(settings, key)->0, 0xffff_ffff)
            is None ==> stored_size(settings, key, code) == code,
{
    reveal_strlit("true");
    reveal_strlit("false");
    assert("true"@.len() == 4 && "false"@.len() == 5);
}

/// The defaults of a session are the administrator's settings for its type, as
/// far as they are sound.
pub proof fn law_defaults_are_the_settings(
    d: ProtocolDefaults,
    kind: SessionType,
    settings: Seq<(String, String)>,
)
    requires
        d.given_by(kind, settings),
    ensures
        kind == SessionType::Ssh ==> d.width == stored_size(settings, "default_ssh_width"@, 1920)
            && d.height == stored_size(settings, "default_ssh_height"@, 1080) && d.dpi == 96,
        kind == SessionType::Rdp ==> d.width == stored_size(settings, "default_rdp_width"@, 1920)
            && d.height == stored_size(settings, "default_rdp_height"@, 1080) && d.dpi
            == stored_size(settings, "default_rdp_dpi"@, 96),
        kind != SessionType::Ssh && kind != SessionType::Rdp ==> d.width == 1920 && d.height == 1080
            && d.dpi == 96,
        ({
            let s = setting(settings, "default_rdp_security"@);
            let sound = s == Some("any"@) || s == Some("rdp"@) || s == Some("tls"@) || s == Some(
                "nla"@,
            );
            &&& sound ==> d.rdp_security is Some && d.rdp_security->0@ == s->0
            &&& !sound ==> d.rdp_security is None
        }),
        d.rdp_h264 <==> setting(settings, "default_rdp_h264"@) != Some("false"@),
        d.rdp_gfx <==> setting(settings, "default_rdp_gfx"@) != Some("false"@),
        d.rdp_drive == Some(true) <==> setting(settings, "default_rdp_drive"@) == Some("true"@),
        d.rdp_drive == Some(false) <==> setting(settings, "default_rdp_drive"@) == Some("false"@),
        d.vnc_disable_copy <==> setting(settings, "default_vnc_disable_copy"@) == Some("true"@),
        d.vnc_disable_paste <==> setting(settings, "default_vnc_disable_paste"@) == Some("true"@),
        ({
            let n = stored_number(settings, "default_vnc_color_depth"@, 255);
            &&& n is Some ==> d.vnc_color_depth is Some && d.vnc_color_depth->0 == n->0
            &&& n is None ==> d.vnc_color_depth is None
        }),
{
    reveal_strlit("true");
    reveal_strlit("false");
    assert("true"@.len() == 4 && "false"@.len() == 5);
    lemma_upto(settings, "default_vnc_color_depth"@, 255);
}

proof fn lemma_upto(settings: Seq<(String, String)>, key: Seq<char>, max: nat)
    ensures
        stored_number(settings, key, max) is Some ==> stored_number(settings, key, max)->0 <= max,
{
}

/// Each protocol that can be switched off is gated by its own toggle; SSH and
/// VNC cannot.
pub proof fn law_toggles_of_each_protocol()
    ensures
        toggle_of(SessionType::Rdp) == Some("enable_rdp"@),
        toggle_of(SessionType::Spice) == Some("enable_spice"@),
        toggle_of(SessionType::Proxmox) == Some("enable_proxmox"@),
        toggle_of(SessionType::Web) == Some("enable_web_sessions"@),
        toggle_of(SessionType::Vdi) == Some("enable_vdi"@),
        toggle_of(SessionType::Ssh) is None,
        toggle_of(SessionType::Vnc) is None,
        label_of(SessionType::Rdp) == "RDP"@ && label_of(SessionType::Spice) == "SPICE"@
            && label_of(SessionType::Proxmox) == "Proxmox VE"@ && label_of(SessionType::Web)
            == "Web browser"@ && label_of(SessionType::Vdi) == "VDI"@,
{
}

/// A type that is switched off is refused, and one that is on passes; a machine
/// that was routed from vSphere needs its own toggle too.
pub proof fn law_toggles_decide<F: Fn(&str) -> bool>(
    r: Result<(), SessionError>,
    kind: SessionType,
    entry: Option<Seq<char>>,
    toggle: F,
)
    requires
        type_verdict(r, kind, entry, toggle),
    ensures
        toggle_of(kind) is Some && !toggle_said(toggle, toggle_of(kind)->0, true) ==> r is Err,
        entry is Some && "vsphere/"@.is_prefix_of(entry->0) && !toggle_said(
            toggle,
            "enable_vmware"@,
            true,
        ) ==> r is Err,
        (toggle_of(kind) is Some ==> !toggle_said(toggle, toggle_of(kind)->0, false)) && (entry
            is None || !"vsphere/"@.is_prefix_of(entry->0) || !toggle_said(
            toggle,
            "enable_vmware"@,
            false,
        )) ==> r is Ok,
        r is Err ==> r->Err_0 is ValidationError && ({
            let m = r->Err_0->ValidationError_0@;
            ||| toggle_of(kind) is Some && toggle_said(toggle, toggle_of(kind)->0, false) && m
                == label_of(kind) + " sessions are disabled by an administrator"@
            ||| entry is Some && "vsphere/"@.is_prefix_of(entry->0) && toggle_said(
                toggle,
                "enable_vmware"@,
                false,
            ) && m == "VMware sessions are disabled by an administrator"@
        }),
{
}

// ── Limits ──
/// A user may create a session below their own limit and while the server runs;
/// a limit of 0 is none. Only live sessions that they created count.
pub proof fn law_users_are_admitted_below_their_limit(
    m: ManagerState,
    max: usize,
    user: Seq<char>,
)
    ensures
        admission_refusal(m, max, user) is None <==> !m.shutdown && (max == 0 || m.sessions.filter(
            |s: Session|
                s.created_by@ == user && (s.status == SessionStatus::Pending || s.status
                    == SessionStatus::Active),
        ).len() < max),
{
    lemma_created(m.sessions, user);
}

proof fn lemma_created(sessions: Seq<Session>, user: Seq<char>)
    ensures
        created_count(sessions, user) == sessions.filter(
            |s: Session|
                s.created_by@ == user && (s.status == SessionStatus::Pending || s.status
                    == SessionStatus::Active),
        ).len(),
    decreases sessions.len(),
{
    reveal(Seq::filter);
    if sessions.len() > 0 {
        lemma_created(sessions.drop_last(), user);
    }
}

/// Below the cap on live sessions, where there is one, a session is let in: it
/// is found under its id, the feed hears of it, the total grows by one, and no
/// other session changes.
pub proof fn law_sessions_are_let_in_below_the_cap(
    m: ManagerState,
    s: Session,
    max: usize,
    now: Timestamp,
    other: u128,
)
    requires
        m.wf(),
        m.has_room(1),
    ensures
        m.below_cap(max) <==> max == 0 || m.sessions.filter(
            |x: Session|
                x.status == SessionStatus::Pending || x.status == SessionStatus::Active,
        ).len() < max,
        m.started(s, now).session(s.id) == Some(s),
        other != s.id ==> m.started(s, now).session(other) == m.session(other),
        m.started(s, now).events == m.events.appended(
            event_of(SessionEventKind::SessionStarted, s, now),
        ),
        m.metrics.sessions_total < u64::MAX ==> m.started(s, now).metrics.sessions_total
            == m.metrics.sessions_total + 1,
        m.started(s, now).metrics.sessions_active == m.metrics.sessions_active,
        m.started(s, now).owner_connected == m.owner_connected,
{
    let p = |x: Session| x.status.live();
    let q = |x: Session| x.status == SessionStatus::Pending || x.status == SessionStatus::Active;
    assert(p =~= q);
    law_picking_is_exact(m.sessions, p);
    lemma_find(m.sessions, s.id);
    lemma_find(m.sessions, other);
    let n = m.started(s, now);
    match find(m.sessions, s.id) {
        Some(i) => {
            lemma_find_after_update(m.sessions, i, s, s.id);
            lemma_find_after_update(m.sessions, i, s, other);
        },
        None => {
            let k = m.sessions.len() as int;
            assert forall|j: int| 0 <= j < k implies (#[trigger] n.sessions[j]).id != s.id by {
                assert(m.sessions[j].id != s.id);
            }
            lemma_find_is(n.sessions, s.id, k);
            lemma_find(n.sessions, other);
            if other != s.id {
                match find(m.sessions, other) {
                    Some(j) => {
                        assert forall|x: int| 0 <= x < j implies (#[trigger] n.sessions[x]).id
                            != other by {
                            assert(m.sessions[x].id != other);
                        }
                        lemma_find_is(n.sessions, other, j);
                    },
                    None => {
                        if let Some(j) = find(n.sessions, other) {
                            if j < k {
                                assert(m.sessions[j].id == other);
                            }
                        }
                    },
                }
            }
        },
    }
}

// ── Networks ──
/// An address is of a network exactly where both lie in one block of as many
/// addresses as the prefix leaves, of the same family.
pub proof fn law_networks_are_blocks(base: u32, prefix: u8, n: u32, k: nat, wide: u128)
    requires
        prefix <= 32,
        k * pow2((32 - prefix) as nat) <= base < (k + 1) * pow2((32 - prefix) as nat),
    ensures
        (Network::V4(base, prefix)).holds(IpNumber::V4(n)) <==> k * pow2((32 - prefix) as nat) <= n
            < (k + 1) * pow2((32 - prefix) as nat),
        !(Network::V4(base, prefix)).holds(IpNumber::V6(wide)),
{
    let size = pow2((32 - prefix) as nat);
    vstd::arithmetic::power2::lemma_pow2_pos((32 - prefix) as nat);
    lemma_block(base as nat, size, k);
    if k * size <= n < (k + 1) * size {
        lemma_block(n as nat, size, k);
    }
    if n as nat / size == k {
        vstd::arithmetic::div_mod::lemma_fundamental_div_mod(n as int, size as int);
        vstd::arithmetic::div_mod::lemma_mod_bound(n as int, size as int);
        assert(n == size * k + n as int % size as int);
        assert((k + 1) * size == k * size + size) by (nonlinear_arith);
        assert(size * k == k * size) by (nonlinear_arith);
    }
}

/// The same for long addresses.
pub proof fn law_long_networks_are_blocks(base: u128, prefix: u8, n: u128, k: nat, short: u32)
    requires
        prefix <= 128,
        k * pow2((128 - prefix) as nat) <= base < (k + 1) * pow2((128 - prefix) as nat),
    ensures
        (Network::V6(base, prefix)).holds(IpNumber::V6(n)) <==> k * pow2((128 - prefix) as nat)
            <= n < (k + 1) * pow2((128 - prefix) as nat),
        !(Network::V6(base, prefix)).holds(IpNumber::V4(short)),
{
    let size = pow2((128 - prefix) as nat);
    vstd::arithmetic::power2::lemma_pow2_pos((128 - prefix) as nat);
    lemma_block(base as nat, size, k);
    if k * size <= n < (k + 1) * size {
        lemma_block(n as nat, size, k);
    }
    if n as nat / size == k {
        vstd::arithmetic::div_mod::lemma_fundamental_div_mod(n as int, size as int);
        vstd::arithmetic::div_mod::lemma_mod_bound(n as int, size as int);
        assert(n == size * k + n as int % size as int);
        assert((k + 1) * size == k * size + size) by (nonlinear_arith);
        assert(size * k == k * size) by (nonlinear_arith);
    }
}

proof fn lemma_block(n: nat, size: nat, k: nat)
    requires
        size > 0,
        k * size <= n < (k + 1) * size,
    ensures
        n / size == k,
{
    let r = n - k * size;
    assert((k + 1) * size == k * size + size) by (nonlinear_arith);
    assert(n == k * size + r);
    vstd::arithmetic::div_mod::lemma_fundamental_div_mod_converse(
        n as int,
        size as int,
        k as int,
        r,
    );
}

/// The networks of an allowlist are those that its entries write.
pub proof fn law_allowlist_is_what_it_writes(allowed: Seq<Seq<char>>)
    ensures
        networks_of(allowed) == allowed.filter(
            |t: Seq<char>| network_of(t) is Some,
        ).map_values(|t: Seq<char>| network_of(t)->0),
    decreases allowed.len(),
{
    reveal(Seq::filter);
    let sound = |t: Seq<char>| network_of(t) is Some;
    let net = |t: Seq<char>| network_of(t)->0;
    if allowed.len() > 0 {
        let front = allowed.drop_last();
        law_allowlist_is_what_it_writes(front);
        let f = front.filter(sound);
        if sound(allowed.last()) {
            assert(f.push(allowed.last()).map_values(net) =~= f.map_values(net).push(
                net(allowed.last()),
            ));
        }
    } else {
        assert(allowed.filter(sound).map_values(net) =~= Seq::empty());
    }
}

/// A host is let through exactly where its own address, or else one of those
/// that it resolves to, is of an allowed network, and it is no link-local
/// address. A host that is written as a URL never is.
pub proof fn law_targets_are_in_the_allowlist(
    host: Seq<char>,
    allowed: Seq<Seq<char>>,
    lookup: Lookup,
)
    ensures
        ({
            let nets = networks_of(allowed);
            let reached = match ip_of(host) {
                Some(n) => exists|i: int| 0 <= i < nets.len() && (#[trigger] nets[i]).holds(n),
                None => lookup is Addresses && exists|a: int, i: int|
                    0 <= a < lookup->Addresses_0@.len() && 0 <= i < nets.len() && (
                    #[trigger] nets[i]).holds(#[trigger] lookup->Addresses_0@[a]),
            };
            target_refusal(host, allowed, lookup) is None <==> {
                &&& reached
                &&& !has_sub(host, "://"@) && !"http"@.is_prefix_of(host)
                &&& match ip_of(host) {
                    Some(IpNumber::V4(n)) => n < 0xa9fe_0000 || n > 0xa9fe_ffff,
                    _ => true,
                }
            }
        }),
{
    let nets = networks_of(allowed);
    if ip_of(host) is None && lookup is Addresses {
        let v = lookup->Addresses_0@;
        if exists|i: int| 0 <= i < v.len() && any_holds(nets, #[trigger] v[i]) {
            let a = choose|i: int| 0 <= i < v.len() && any_holds(nets, #[trigger] v[i]);
            let i = choose|i: int| 0 <= i < nets.len() && (#[trigger] nets[i]).holds(v[a]);
            assert(nets[i].holds(v[a]));
        }
        if exists|a: int, i: int|
            0 <= a < v.len() && 0 <= i < nets.len() && (#[trigger] nets[i]).holds(
                #[trigger] v[a],
            ) {
            let (a, i) = choose|a: int, i: int|
                0 <= a < v.len() && 0 <= i < nets.len() && (#[trigger] nets[i]).holds(
                    #[trigger] v[a],
                );
            assert(any_holds(nets, v[a]));
        }
    }
}

/// A verdict refuses exactly where there is a reason, and gives it.
pub proof fn law_verdicts_give_the_reason(r: Result<(), SessionError>, why: Option<Seq<char>>)
    requires
        verdict_is(r, why),
    ensures
        r is Err <==> why is Some,
        r is Err ==> r->Err_0 is ValidationError && r->Err_0->ValidationError_0@ == why->0,
{
}

/// A client is called by its resolved name without the trailing dots, or by its
/// address, or it is unknown.
pub proof fn law_clients_are_named(ip: Seq<char>, is_ip: bool, name: Seq<char>)
    ensures
        client_name(None, is_ip, Some(name)) == "unknown"@,
        ip.len() == 0 ==> client_name(Some(ip), is_ip, Some(name)) == "unknown"@,
        ip.len() > 0 ==> client_name(Some(ip), is_ip, None) == ip,
        ip.len() > 0 && !is_ip ==> client_name(Some(ip), is_ip, Some(name)) == ip,
        ip.len() > 0 && is_ip && host_name(name).len() > 0 ==> client_name(
            Some(ip),
            is_ip,
            Some(name),
        ) == host_name(name),
        ip.len() > 0 && is_ip && host_name(name).len() == 0 ==> client_name(
            Some(ip),
            is_ip,
            Some(name),
        ) == ip,
{
}

// ── Steps ──
/// What a session lacks decides its next step: first the tunnel, to what guacd
/// or the browser is to reach; then the browser, on the page or on the tunnel
/// to it; then the check of the target; and then guacd, or its user.
pub proof fn law_setup_goes_step_by_step(s: Setup, r: Result<SetupStep, SessionError>)
    requires
        s.step_is(r),
    ensures
        ({
            let tunnel = s.has_hops && s.session_type != SessionType::Proxmox && s.tunnel is None;
            let browser = s.plan.url is Some && !s.browser_up;
            let check = s.plan.net_check is Some && !s.checked;
            let meanwhile = check && s.plan.banner is None && ip_of(
                match s.plan.net_check {
                    Some((host, _)) => host@,
                    None => Seq::empty(),
                },
            ) is None;
            &&& tunnel && s.plan.url is None ==> r is Ok && r->Ok_0 is OpenTunnel && (
            r->Ok_0->OpenTunnel_host@, r->Ok_0->OpenTunnel_port) == s.plan.params.target_spec()
            &&& tunnel && s.plan.url is Some ==> match url_of(s.plan.url->0@) {
                Ok(u) => r is Ok && r->Ok_0 is OpenTunnel && (
                r->Ok_0->OpenTunnel_host@, r->Ok_0->OpenTunnel_port) == web_tunnel_target(u),
                Err(_) => r is Err,
            }
            &&& !tunnel && browser && s.tunnel is None ==> r is Ok && r->Ok_0 is SpawnBrowser
                && r->Ok_0->url@ == s.plan.url->0@
            &&& !tunnel && browser && s.tunnel is Some ==> match (url_of(s.plan.url->0@), s.tunnel) {
                (Ok(u), Some((_, port))) => r is Ok && r->Ok_0 is SpawnBrowser && r->Ok_0->url@
                    == tunnelled_url(u, port),
                _ => r is Err,
            }
            &&& !tunnel && !browser && check && !meanwhile ==> r is Ok && r->Ok_0 is CheckTarget
                && s.plan.net_check == Some(
                (r->Ok_0->CheckTarget_host, r->Ok_0->CheckTarget_port),
            )
            &&& !tunnel && !browser && (!check || meanwhile) && s.plan.banner is Some ==> r is Ok
                && r->Ok_0 is Wait
            &&& !tunnel && !browser && meanwhile ==> r is Ok && r->Ok_0 is Connect
                && r->Ok_0->check == s.plan.net_check
            &&& !tunnel && !browser && !check && s.plan.banner is None ==> r is Ok
                && r->Ok_0 is Connect && r->Ok_0->check is None
        }),
{
}

/// The target is refused by the allowlist of its own protocol.
pub proof fn law_setup_checks_its_own_allowlist(s: Setup, config: Config, lookup: Lookup)
    ensures
        s.plan.net_check is Some && s.session_type == SessionType::Ssh ==> s.refusal(config, lookup)
            == target_refusal(s.checked_host(), texts(config.ssh_allowed_networks@), lookup),
        s.plan.net_check is Some && s.session_type == SessionType::Rdp ==> s.refusal(config, lookup)
            == target_refusal(s.checked_host(), texts(config.rdp_allowed_networks@), lookup),
        s.plan.net_check is Some && s.session_type == SessionType::Vnc ==> s.refusal(config, lookup)
            == target_refusal(s.checked_host(), texts(config.vnc_allowed_networks@), lookup),
        match s.plan.net_check {
            Some((host, _)) => s.checked_host() == host@,
            None => true,
        },
{
}

/// guacd dials the host and port of the parameters; SPICE over TLS its TLS port.
/// Through a tunnel it dials the local end, with everything else unchanged.
pub proof fn law_tunnels_change_the_address_only(
    p: ConnectionParams,
    host: String,
    port: u16,
)
    ensures
        match p {
            ConnectionParams::Ssh(q) => p.target_spec() == (q.hostname@, q.port) && p.through_spec(
                host,
                port,
            ) == ConnectionParams::Ssh(SshParams { hostname: host, port, ..q }),
            ConnectionParams::Rdp(q) => p.target_spec() == (q.hostname@, q.port) && p.through_spec(
                host,
                port,
            ) == ConnectionParams::Rdp(RdpParams { hostname: host, port, ..q }),
            ConnectionParams::Vnc(q) => p.target_spec() == (q.hostname@, q.port) && p.through_spec(
                host,
                port,
            ) == ConnectionParams::Vnc(VncParams { hostname: host, port, ..q }),
            ConnectionParams::Spice(q) => {
                &&& p.target_spec().0 == q.hostname@
                &&& q.tls && q.tls_port is Some ==> p.target_spec().1 == q.tls_port->0
                &&& !q.tls || q.tls_port is None ==> p.target_spec().1 == q.port
                &&& p.through_spec(host, port) is Spice
                &&& p.through_spec(host, port)->Spice_0.password == q.password
                &&& p.through_spec(host, port)->Spice_0.ca_cert == q.ca_cert
                &&& p.through_spec(host, port)->Spice_0.ignore_cert == q.ignore_cert
                &&& p.through_spec(host, port)->Spice_0.tls == q.tls
                &&& p.through_spec(host, port)->Spice_0.proxy == q.proxy
            },
        },
        p.through_spec(host, port).target_spec() == (host@, port),
{
}

/// The hops of a request are judged by its own fields.
pub proof fn law_request_hops(r: Result<Vec<JumpHost>, SessionError>, req: CreateSessionRequest)
    requires
        request_hops(r, req),
    ensures
        r is Ok && req.jump_hosts is Some ==> r->Ok_0 == req.jump_hosts->0,
        req.jump_hosts is None && req.jump_host is Some && req.jump_host->0@.len() > 0 ==> r is Ok
            && r->Ok_0@.len() == 1 && r->Ok_0@[0].hostname == req.jump_host->0
            && r->Ok_0@[0].password == req.jump_password && r->Ok_0@[0].private_key
            == req.jump_private_key,
        req.jump_hosts is None && (req.jump_host is None || req.jump_host->0@.len() == 0) ==> r
            is Ok && r->Ok_0@.len() == 0,
{
}

// ── Joining ──
/// A join asks guacd for nothing but whether it may write: the read-only
/// argument says so, and every other is left to the connection.
pub proof fn law_joins_say_whether_they_write(name: Seq<char>)
    ensures
        join_arg("read-only"@, true) == "true"@,
        join_arg("read-only"@, false) == "false"@,
        name != "read-only"@ ==> join_arg(name, true).len() == 0 && join_arg(name, false).len()
            == 0,
{
    reveal_strlit("");
}

/// A join shows the size that it was asked for, before anything else.
pub proof fn law_joins_ask_for_their_size(width: u32, height: u32, dpi: u32)
    ensures
        ({
            let v = handshake_elements(width, height, dpi);
            &&& v.len() == 5
            &&& v[0] == seq![
                "size"@,
                digits(width as nat),
                digits(height as nat),
                digits(dpi as nat),
            ]
            &&& v[1] == seq!["audio"@, "audio/L16"@, "audio/L8"@]
            &&& v[2] == seq!["video"@]
            &&& v[3] == seq!["image"@, "image/png"@, "image/jpeg"@, "image/webp"@]
            &&& v[4] == seq!["timezone"@, "Australia/Brisbane"@]
        }),
{
}

// ── Names ──
/// At most so many characters are kept, from the front.
pub proof fn law_first_chars(s: Seq<char>, n: int)
    requires
        n >= 0,
    ensures
        first_chars(s, n).is_prefix_of(s),
        s.len() <= n ==> first_chars(s, n) == s,
        s.len() > n ==> first_chars(s, n).len() == n,
{
    if s.len() > n {
        assert(s.subrange(0, n) =~= s.take(n));
    } else {
        assert(s.subrange(0, s.len() as int) =~= s);
    }
}

/// A value that is already fit for a file name is kept: letters, digits,
/// underscores, and single hyphens between them.
pub proof fn law_fit_names_are_kept(s: Seq<char>)
    requires
        s.len() > 0,
        forall|i: int|
            0 <= i < s.len() ==> ('a' <= #[trigger] s[i] && s[i] <= 'z') || ('A' <= s[i] && s[i]
                <= 'Z') || ('0' <= s[i] && s[i] <= '9') || s[i] == '_',
    ensures
        safe_name(s) == s,
{
    assert(hyphened(s) =~= s);
    assert forall|i: int| 0 <= i < s.len() implies s[i] != '-' by {}
    crate::text::lemma_split_one(s, '-');
    let v = seq![s];
    assert(v.drop_last() =~= Seq::empty());
    assert(v.last() == s);
    assert(non_empty(v.drop_last()) =~= Seq::empty());
    assert(non_empty(v) =~= v);
    assert(joined(v, "-"@) == s);
}

/// What may not stand in a file name parts words, and one hyphen stands between
/// two of them; where no word is left, the name is unknown.
pub proof fn law_words_are_hyphened(a: Seq<char>, b: Seq<char>, c: char)
    requires
        a.len() > 0,
        b.len() > 0,
        forall|i: int| 0 <= i < a.len() ==> is_alnum(#[trigger] a[i]) || a[i] == '_',
        forall|i: int| 0 <= i < b.len() ==> is_alnum(#[trigger] b[i]) || b[i] == '_',
        !is_alnum(c) && c != '_',
    ensures
        safe_name(a.push(c) + b) == a + "-"@ + b,
        safe_name(seq![c]) == "unknown"@,
        safe_name(seq![c] + a) == a,
        safe_name(a.push(c)) == a,
{
    reveal_strlit("-");
    let none = Seq::<char>::empty();
    assert forall|i: int| 0 <= i < a.len() implies a[i] != '-' by {
        assert(is_alnum(a[i]) || a[i] == '_');
    }
    assert forall|i: int| 0 <= i < b.len() implies b[i] != '-' by {
        assert(is_alnum(b[i]) || b[i] == '_');
    }
    lemma_split_one(a, '-');
    lemma_split_one(b, '-');
    lemma_split_one(none, '-');
    reveal_with_fuel(non_empty, 4);
    reveal_with_fuel(joined, 4);
    let one = seq![a];
    assert(one.drop_last() =~= Seq::empty());
    assert(Seq::<Seq<char>>::empty().push(a) =~= one);
    assert(non_empty(one) =~= one);
    assert(hyphened(a.push(c) + b) =~= a.push('-') + b);
    lemma_split_at(a, '-', b);
    let two = seq![a, b];
    assert(split_on(a.push('-') + b, '-') =~= two);
    assert(two.drop_last() =~= one);
    assert(one.push(b) =~= two);
    assert(non_empty(two) =~= two);
    assert(joined(one, "-"@) == a);
    assert(joined(two, "-"@) == a + "-"@ + b);
    assert((a + "-"@ + b).len() > 0);
    assert(hyphened(seq![c]) =~= none.push('-') + none);
    lemma_split_at(none, '-', none);
    let blank = seq![none, none];
    assert(split_on(none.push('-') + none, '-') =~= blank);
    assert(blank.drop_last() =~= seq![none]);
    assert(seq![none].drop_last() =~= Seq::empty());
    assert(non_empty(blank) =~= Seq::empty());
    assert(hyphened(seq![c] + a) =~= none.push('-') + a);
    lemma_split_at(none, '-', a);
    let front = seq![none, a];
    assert(split_on(none.push('-') + a, '-') =~= front);
    assert(front.drop_last() =~= seq![none]);
    assert(non_empty(front) =~= one);
    assert(hyphened(a.push(c)) =~= a.push('-') + none);
    lemma_split_at(a, '-', none);
    let end = seq![a, none];
    assert(split_on(a.push('-') + none, '-') =~= end);
    assert(end.drop_last() =~= one);
    assert(non_empty(end) =~= one);
}

/// A URL that cannot be read leads nowhere, and the reason is given.
pub proof fn law_unread_urls_are_told(s: Setup, e: Seq<char>)
    requires
        s.plan.url is Some,
        url_of(s.plan.url->0@) == Err::<UrlParts, Seq<char>>(e),
    ensures
        s.tunnel_target() == Err::<(Seq<char>, u16), Seq<char>>("invalid URL: "@ + e),
        s.tunnel is Some ==> s.browser_address() == Err::<Seq<char>, Seq<char>>(
            "invalid URL: "@ + e,
        ),
{
}

/// A container runs under the override, or under the identity without its
/// domain, character by character: letters and digits stay, anything else
/// becomes an underscore.
pub proof fn law_container_users(over: Seq<char>, who: Seq<char>, domain: Seq<char>, i: int)
    ensures
        container_user(None, who) == container_user(Some(Seq::empty()), who),
        container_user(None, who) is Ok,
        (forall|k: int| 0 <= k < who.len() ==> who[k] != '@') ==> container_user(
            None,
            who + "@"@ + domain,
        ) == container_user(None, who),
        over.len() > 0 && escapes_path(over) ==> container_user(Some(over), who) == Err::<
            Seq<char>,
            Seq<char>,
        >("container_username must not contain '/', '\\', or '..'"@),
        over.len() > 0 && !escapes_path(over) && crate::outside::lowercase(over).len() > 0
            ==> container_user(Some(over), who) == Ok::<Seq<char>, Seq<char>>(
            underscored(crate::outside::lowercase(over)),
        ),
        escapes_path(over) <==> over.contains('/') || over.contains('\\') || has_sub(over, ".."@),
        0 <= i < over.len() ==> underscored(over)[i] == (if ('a' <= over[i] && over[i] <= 'z') || (
        'A' <= over[i] && over[i] <= 'Z') || ('0' <= over[i] && over[i] <= '9') {
            over[i]
        } else {
            '_'
        }),
{
    if forall|k: int| 0 <= k < who.len() ==> who[k] != '@' {
        reveal_strlit("@");
        let all = who + "@"@ + domain;
        assert(all[who.len() as int] == '@');
        assert forall|k: int| 0 <= k < who.len() implies all[k] != '@' by {
            assert(all[k] == who[k]);
        }
        crate::text::lemma_first_at_is(all, '@', who.len() as int);
        crate::text::lemma_first_at_is(who, '@', who.len() as int);
        assert(local_part(all) =~= who);
        assert(local_part(who) =~= who);
    }
}

/// A text that is not blank counts without the white space around it.
pub proof fn law_filled(o: Option<Seq<char>>, a: Option<int>, b: Option<int>)
    ensures
        filled(o) is Some <==> o is Some && trimmed(o->0).len() > 0,
        filled(o) is Some ==> filled(o)->0 == trimmed(o->0),
        a is Some ==> or_else(a, b) == a && either(a, 0) == a->0,
        a is None ==> or_else(a, b) == b && either(a, 0) == 0,
{
}

// ── Showing ──
/// What is shown of a session is its own, and its share link is shown exactly
/// where sharing is allowed, with its token.
pub proof fn law_sessions_are_shown_as_they_are(s: Session, info: SessionInfo)
    requires
        s.shown_by(info),
    ensures
        info.session_id == s.id && info.session_type == s.session_type && info.status == s.status,
        info.created_at == s.created_at && info.created_by == s.created_by,
        info.hostname == s.hostname && info.username == s.username && info.url == s.url
            && info.banner == s.banner,
        info.active_connections == s.active_connections,
        info.client_url@ == "/client/"@ + uuid_text(s.id),
        info.ws_url@ == "/ws/"@ + uuid_text(s.id),
        info.share_url is Some <==> s.share_allowed,
        info.share_url is Some ==> info.share_url->0@ == "/client/"@ + uuid_text(s.id) + "?token="@
            + s.share_token@,
        info.thumbnail_url is Some && info.thumbnail_url->0@ == "/api/sessions/"@ + uuid_text(s.id)
            + "/thumbnail"@,
        info.address_book_entry == s.address_book_entry && info.address_book_folder
            == s.address_book_folder && info.entry_display_name == s.entry_display_name,
        info.drive_enabled == s.drive_enabled && info.fullscreen_on_connect
            == s.fullscreen_on_connect && info.autohide_side_tabs == s.autohide_side_tabs,
        !info.remote && info.owner_instance is None && info.owner_base_url is None,
        s.last_activity <= 0 ==> info.last_activity is None,
        0 < s.last_activity <= MAX_UTC_SECS ==> info.last_activity == Some(
            Timestamp { secs: s.last_activity, nanos: 0 },
        ),
{
}

/// A row of another instance is shown by what the row says, under its own
/// instance, and nothing that only the owner knows is made up for it.
pub proof fn law_rows_are_shown_as_they_are(
    row: SessionRegistryRow,
    info: SessionInfo,
    id: u128,
    kind_name: Option<Seq<char>>,
    status_name: Option<Seq<char>>,
    created: Option<i64>,
    now: Timestamp,
)
    requires
        row.shown_by(info, id, kind_name, status_name, created, now),
    ensures
        info.session_id == id,
        info.session_type == named_type(kind_name) && info.status == named_status(status_name),
        created is Some ==> info.created_at.ticks() == created->0 * 1_000_000_000,
        created is None ==> info.created_at == now,
        info.client_url@ == "/client/"@ + uuid_text(id) && info.ws_url@ == "/ws/"@ + uuid_text(id),
        info.hostname == row.hostname && info.username == row.username && info.created_by
            == row.created_by,
        info.remote && info.owner_instance == Some(row.owner_instance),
        row.owner_base_url@.len() > 0 ==> info.owner_base_url == Some(row.owner_base_url),
        row.owner_base_url@.len() == 0 ==> info.owner_base_url is None,
        info.active_connections == 0 && info.last_activity is None && info.ended_at is None,
        info.share_url is None && info.thumbnail_url is None && info.banner is None && info.url
            is None,
        info.address_book_entry is None && info.address_book_folder is None
            && info.entry_display_name is None,
        !info.fullscreen_on_connect && !info.autohide_side_tabs && !info.drive_enabled,
{
}

/// A user at their limit is told it, and everyone that the server is shutting
/// down.
pub proof fn law_admission_refusals_in_words(m: ManagerState, max: usize, user: Seq<char>)
    ensures
        max > 0 && created_count(m.sessions, user) >= max ==> admission_refusal(m, max, user)
            == Some("maximum sessions per user reached ("@ + digits(max as nat) + ")"@),
        (max == 0 || created_count(m.sessions, user) < max) && m.shutdown ==> admission_refusal(
            m,
            max,
            user,
        ) == Some("server is shutting down — new sessions are not accepted"@),
{
}

/// Every refusal of a target says what is wrong with it.
pub proof fn law_refusals_say_why(
    host: Seq<char>,
    nets: Seq<Network>,
    ip: Option<IpNumber>,
    lookup: Lookup,
)
    ensures
        url_like(host) <==> has_sub(host, "://"@) || "http"@.is_prefix_of(host),
        url_like(host) ==> host_refusal(host, nets, ip, lookup) == Some(
            "hostname must be a host or IP address, not a URL (use a Web entry for browser sessions)"@,
        ),
        !url_like(host) && nets.len() == 0 ==> host_refusal(host, nets, ip, lookup) == Some(
            "no valid CIDR networks configured in allowlist"@,
        ),
        !url_like(host) && nets.len() > 0 && ip is Some && !any_holds(nets, ip->0) ==> host_refusal(
            host,
            nets,
            ip,
            lookup,
        ) == Some("host "@ + host + " is not in the allowed network list"@),
        !url_like(host) && nets.len() > 0 && ip is Some && any_holds(nets, ip->0) ==> host_refusal(
            host,
            nets,
            ip,
            lookup,
        ) is None,
        !url_like(host) && nets.len() > 0 && ip is None ==> match lookup {
            Lookup::TimedOut => host_refusal(host, nets, ip, lookup) == Some(
                "DNS resolution for host '"@ + host + "' timed out"@,
            ),
            Lookup::TaskFailed(e) => host_refusal(host, nets, ip, lookup) == Some(
                "DNS task join error: "@ + e@,
            ),
            Lookup::Failed(e) => host_refusal(host, nets, ip, lookup) == Some(
                "failed to resolve host '"@ + host + "': "@ + e@,
            ),
            Lookup::Addresses(v) => {
                let some = exists|i: int| 0 <= i < v@.len() && any_holds(nets, #[trigger] v@[i]);
                &&& v@.len() == 0 ==> host_refusal(host, nets, ip, lookup) == Some(
                    "host '"@ + host + "' did not resolve to any addresses"@,
                )
                &&& some ==> host_refusal(host, nets, ip, lookup) is None
                &&& v@.len() > 0 && !some ==> host_refusal(host, nets, ip, lookup) == Some(
                    "host '"@ + host + "' resolves to addresses not in the allowed network list"@,
                )
            },
        },
        denial(ip) is Some <==> denied(ip),
        denied(ip) ==> denial(ip) == Some(
            "access to link-local / cloud metadata network 169.254.0.0/16 is blocked"@,
        ),
        denied(ip) <==> match ip {
            Some(IpNumber::V4(n)) => n / 0x1_0000 == 0xa9fe,
            _ => false,
        },
{
}

/// The security modes of RDP.
pub proof fn law_security_modes(s: Seq<char>)
    ensures
        security_mode(s) <==> s == "any"@ || s == "rdp"@ || s == "tls"@ || s == "nla"@,
{
}

/// How each error of a session reads.
pub proof fn law_session_errors_in_words(m: String, viewers: u32, max: u32)
    ensures
        SessionError::GuacdConnection(m).message_spec() == "guacd connection failed: "@ + m@,
        SessionError::NotFound.message_spec() == "session not found"@,
        SessionError::NotActive.message_spec() == "session is not active"@,
        SessionError::ValidationError(m).message_spec() == "validation error: "@ + m@,
        SessionError::BrowserSpawn(m).message_spec() == "browser spawn failed: "@ + m@,
        SessionError::VdiError(m).message_spec() == "VDI error: "@ + m@,
        (SessionError::ViewerLimit { viewers, max }).message_spec() == "viewer limit reached ("@
            + digits(viewers as nat) + " of "@ + digits(max as nat) + ")"@,
{
}

/// Types and statuses are found again by their names; an unknown type counts as
/// SSH, and an unknown status as an error.
pub proof fn law_types_and_statuses_by_name(t: SessionType)
    ensures
        named_type(Some(t.name())) == t,
        named_type(None) == SessionType::Ssh,
        named_status(None) == SessionStatus::Error,
        named_status(Some("pending"@)) == SessionStatus::Pending,
        named_status(Some("active"@)) == SessionStatus::Active,
        named_status(Some("completed"@)) == SessionStatus::Completed,
        named_status(Some("expired"@)) == SessionStatus::Expired,
        named_status(Some("disconnected"@)) == SessionStatus::Disconnected,
        named_status(Some("loggedout"@)) == SessionStatus::LoggedOut,
        named_status(Some("error"@)) == SessionStatus::Error,
        SessionType::Ssh.name() == "ssh"@ && SessionType::Rdp.name() == "rdp"@
            && SessionType::Vnc.name() == "vnc"@ && SessionType::Web.name() == "web"@
            && SessionType::Vdi.name() == "vdi"@ && SessionType::Spice.name() == "spice"@
            && SessionType::Proxmox.name() == "proxmox"@,
{
    reveal_strlit("ssh");
    reveal_strlit("web");
    reveal_strlit("rdp");
    reveal_strlit("vnc");
    reveal_strlit("vdi");
    reveal_strlit("spice");
    reveal_strlit("proxmox");
    reveal_strlit("pending");
    reveal_strlit("active");
    reveal_strlit("completed");
    reveal_strlit("expired");
    reveal_strlit("disconnected");
    reveal_strlit("loggedout");
    reveal_strlit("error");
    assert("web"@[0] == 'w' && "rdp"@[0] == 'r' && "vnc"@[0] == 'v' && "vdi"@[0] == 'v'
        && "ssh"@[0] == 's' && "spice"@[0] == 's' && "proxmox"@[0] == 'p');
    assert("vnc"@[1] == 'n' && "vdi"@[1] == 'd');
    assert("ssh"@.len() == 3 && "spice"@.len() == 5);
    assert("pending"@[0] == 'p' && "active"@[0] == 'a' && "completed"@[0] == 'c' && "expired"@[0]
        == 'e' && "disconnected"@[0] == 'd' && "loggedout"@[0] == 'l' && "error"@[0] == 'e');
    assert("expired"@[1] == 'x' && "error"@[1] == 'r');
}

// ── Events ──
/// A published event is the newest of the window, under the next number, with
/// all that it tells; at most 500 are kept, and it is the oldest that go.
pub proof fn law_events_are_appended(w: EventWindow, e: SessionEvent, since: u64)
    requires
        w.wf(),
        w.next_id < u64::MAX,
    ensures
        w.appended(e).events.last() == (SessionEvent { id: w.next_id, ..e }),
        w.appended(e).next_id == w.next_id + 1,
        w.events.len() < 500 ==> w.appended(e).events.drop_last() == w.events,
        w.events.len() == 500 ==> w.appended(e).events.drop_last() == w.events.skip(1)
            && w.appended(e).events.len() == 500,
        w.after(since) == w.events.filter(|x: SessionEvent| x.id > since),
{
    let p = w.events.push(SessionEvent { id: w.next_id, ..e });
    if w.events.len() < 500 {
        assert(p.drop_last() =~= w.events);
    } else {
        assert(p.skip(1).drop_last() =~= w.events.skip(1));
    }
    lemma_later_is(w.events, since);
}

proof fn lemma_later_is(events: Seq<SessionEvent>, since: u64)
    ensures
        later(events, since) == events.filter(|x: SessionEvent| x.id > since),
    decreases events.len(),
{
    reveal(Seq::filter);
    if events.len() > 0 {
        lemma_later_is(events.drop_last(), since);
    }
}

// ── Retained logins ──
/// A login is kept under the digest of its token, never the token; the entry
/// that is found under a key is the first that has it, entries go exactly at
/// their end, and only their own user gets them.
pub proof fn law_retained_logins(
    s: Entries,
    key: Seq<char>,
    token: Seq<char>,
    now: Timestamp,
    k: int,
    user: i64,
    cred: RetainedSessionCredential,
)
    requires
        0 <= k <= s.len(),
        forall|i: int| 0 <= i < k ==> (#[trigger] s[i]).0 != key,
    ensures
        token_key(token) == hex_text(sha256(encode_utf8(token))),
        k < s.len() && s[k].0 == key ==> lookup(s, key) == Some(s[k].1),
        k == s.len() ==> lookup(s, key) is None,
        unexpired(s, now) == s.filter(
            |e: (Seq<char>, RetainedSessionCredential)| e.1.expires_at.ticks() > now.ticks(),
        ),
        owned(Some(cred), user) == (if cred.user_id == user {
            Some(cred)
        } else {
            None
        }),
        owned(None, user) is None,
        k < s.len() && s[k].0 == key ==> stored(s, key, cred) == s.update(k, (key, cred))
            && dropped(s, key) == s.remove(k),
        k == s.len() ==> stored(s, key, cred) == s.push((key, cred)) && dropped(s, key) == s,
{
    lemma_key_first(s, key, k);
    lemma_unexpired_is(s, now);
}

proof fn lemma_key_first(s: Entries, key: Seq<char>, k: int)
    requires
        0 <= k <= s.len(),
        forall|i: int| 0 <= i < k ==> (#[trigger] s[i]).0 != key,
    ensures
        k == s.len() || s[k].0 == key ==> key_at(s, key) == k,
    decreases k,
{
    if k > 0 {
        assert(s[0].0 != key);
        let t = s.skip(1);
        assert forall|i: int| 0 <= i < k - 1 implies (#[trigger] t[i]).0 != key by {
            assert(t[i] == s[i + 1]);
        }
        lemma_key_first(t, key, k - 1);
    }
}

proof fn lemma_unexpired_is(s: Entries, now: Timestamp)
    ensures
        unexpired(s, now) == s.filter(
            |e: (Seq<char>, RetainedSessionCredential)| e.1.expires_at.ticks() > now.ticks(),
        ),
    decreases s.len(),
{
    reveal(Seq::filter);
    if s.len() > 0 {
        lemma_unexpired_is(s.drop_last(), now);
    }
}

// ── Containers ──
/// A container is removed once it has not been used for longer than its own
/// timeout, or the general one; being used, or being seen for the first time,
/// starts the time anew.
pub proof fn law_idle_containers(
    seen: Map<Seq<char>, Timestamp>,
    c: ManagedContainer,
    active: bool,
    default_mins: u64,
    now: Timestamp,
)
    ensures
        c.idle_timeout_mins is Some ==> idle_limit(c, default_mins) == c.idle_timeout_mins->0 * 60,
        c.idle_timeout_mins is None ==> idle_limit(c, default_mins) == default_mins * 60,
        is_idle(seen, c, active, default_mins, now) <==> !active && seen.contains_key(
            c.container_id@,
        ) && now.ticks() - seen[c.container_id@].ticks() > idle_limit(c, default_mins)
            * 1_000_000_000,
        active || !seen.contains_key(c.container_id@) ==> looked_at(
            seen,
            c,
            active,
            default_mins,
            now,
        ) == seen.insert(c.container_id@, now),
        is_idle(seen, c, active, default_mins, now) ==> looked_at(
            seen,
            c,
            active,
            default_mins,
            now,
        ) == seen.remove(c.container_id@),
        !active && seen.contains_key(c.container_id@) && !is_idle(
            seen,
            c,
            active,
            default_mins,
            now,
        ) ==> looked_at(seen, c, active, default_mins, now) == seen,
{
}

/// In a round over distinct containers each is judged by what was known of it
/// before the round: exactly the idle ones are removed.
pub proof fn law_rounds_remove_the_idle(
    seen: Map<Seq<char>, Timestamp>,
    containers: Seq<ManagedContainer>,
    active: Seq<bool>,
    default_mins: u64,
    now: Timestamp,
    n: int,
    k: int,
)
    requires
        0 <= n <= containers.len(),
        containers.len() == active.len(),
        containers.len() <= usize::MAX,
        0 <= k < n,
        forall|i: int, j: int|
            0 <= i < j < containers.len() ==> (#[trigger] containers[i]).container_id@ != (
            #[trigger] containers[j]).container_id@,
    ensures
        round_removed(seen, containers, active, default_mins, now, n).contains(k as usize)
            <==> is_idle(seen, containers[k], active[k], default_mins, now),
    decreases n,
{
    let before = round_removed(seen, containers, active, default_mins, now, n - 1);
    let all = round_removed(seen, containers, active, default_mins, now, n);
    let log = round_log(seen, containers, active, default_mins, now, n - 1);
    lemma_round_keeps(seen, containers, active, default_mins, now, n - 1, n - 1);
    let own = is_idle(log, containers[n - 1], active[n - 1], default_mins, now);
    lemma_round_bound(seen, containers, active, default_mins, now, n - 1);
    if k < n - 1 {
        law_rounds_remove_the_idle(seen, containers, active, default_mins, now, n - 1, k);
        if before.contains(k as usize) {
            let x = choose|x: int| 0 <= x < before.len() && before[x] == k as usize;
            assert(all[x] == k as usize);
        }
        if all.contains(k as usize) {
            let x = choose|x: int| 0 <= x < all.len() && all[x] == k as usize;
            if x < before.len() {
                assert(before[x] == k as usize);
            }
        }
    } else {
        if own {
            assert(all[all.len() - 1] == k as usize);
        }
        if all.contains(k as usize) && !own {
            let x = choose|x: int| 0 <= x < before.len() && before[x] == k as usize;
            assert(before[x] < n - 1);
        }
    }
}

proof fn lemma_round_bound(
    seen: Map<Seq<char>, Timestamp>,
    containers: Seq<ManagedContainer>,
    active: Seq<bool>,
    default_mins: u64,
    now: Timestamp,
    n: int,
)
    requires
        n <= usize::MAX,
    ensures
        forall|x: int|
            0 <= x < round_removed(seen, containers, active, default_mins, now, n).len()
                ==> #[trigger] round_removed(seen, containers, active, default_mins, now, n)[x] < n,
    decreases n,
{
    if n > 0 {
        lemma_round_bound(seen, containers, active, default_mins, now, n - 1);
        let before = round_removed(seen, containers, active, default_mins, now, n - 1);
        let all = round_removed(seen, containers, active, default_mins, now, n);
        assert forall|x: int| 0 <= x < all.len() implies #[trigger] all[x] < n by {
            if x < before.len() {
                assert(all[x] == before[x]);
            }
        }
    }
}

/// What is known of a container stays until its turn.
proof fn lemma_round_keeps(
    seen: Map<Seq<char>, Timestamp>,
    containers: Seq<ManagedContainer>,
    active: Seq<bool>,
    default_mins: u64,
    now: Timestamp,
    n: int,
    k: int,
)
    requires
        0 <= n <= k < containers.len(),
        forall|i: int, j: int|
            0 <= i < j < containers.len() ==> (#[trigger] containers[i]).container_id@ != (
            #[trigger] containers[j]).container_id@,
    ensures
        ({
            let log = round_log(seen, containers, active, default_mins, now, n);
            let id = containers[k].container_id@;
            &&& log.contains_key(id) == seen.contains_key(id)
            &&& seen.contains_key(id) ==> log[id] == seen[id]
        }),
    decreases n,
{
    if n > 0 {
        lemma_round_keeps(seen, containers, active, default_mins, now, n - 1, k);
        assert(containers[n - 1].container_id@ != containers[k].container_id@);
    }
}

} // verus!
