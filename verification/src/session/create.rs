//! Session creation: who may create which session.

use crate::metrics::{bumped, session_total_inc, Metrics};
use crate::session::manager::{
    count_where, find, lemma_find, lemma_update_distinct, ManagerState, SessionManager,
};
use crate::session::network::verdict_is;
use crate::session::types::{
    invalid, validation_error, Session, SessionError, SessionEventKind, SessionInfo, SessionType,
};
use crate::text::{
    chars, decimal, digits, join2, opt_str, opt_text, parse_upto, same_text, starts_with,
    unsigned_upto,
};
use crate::time::Timestamp;
use vstd::prelude::*;
use vstd::string::*;

verus! {

// ── Stored settings ──
/// The value of the first setting with a given key.
pub open spec fn setting(settings: Seq<(String, String)>, key: Seq<char>) -> Option<Seq<char>>
    decreases settings.len(),
{
    if settings.len() == 0 {
        None
    } else if settings[0].0@ == key {
        Some(settings[0].1@)
    } else {
        setting(settings.skip(1), key)
    }
}

fn find_setting<'a>(settings: &'a [(String, String)], key: &str) -> (r: Option<&'a str>)
    ensures
        opt_str(r) == setting(settings@, key@),
{
    let mut i: usize = 0;
    proof {
        assert(settings@.skip(0) =~= settings@);
    }
    while i < settings.len()
        invariant
            i <= settings@.len(),
            setting(settings@, key@) == setting(settings@.skip(i as int), key@),
        decreases settings@.len() - i,
    {
        proof {
            assert(settings@.skip(i as int).skip(1) =~= settings@.skip(i + 1));
            assert(settings@.skip(i as int)[0] == settings@[i as int]);
        }
        if same_text(settings[i].0.as_str(), key) {
            return Some(settings[i].1.as_str());
        }
        i = i + 1;
    }
    None
}

/// The number that a setting writes, of at most `max`.
pub open spec fn stored_number(
    settings: Seq<(String, String)>,
    key: Seq<char>,
    max: nat,
) -> Option<nat> {
    match setting(settings, key) {
        Some(v) => unsigned_upto(v, max),
        None => None,
    }
}

/// The flag that a setting writes: `true` or `false`.
pub open spec fn stored_flag(settings: Seq<(String, String)>, key: Seq<char>) -> Option<bool> {
    if setting(settings, key) == Some("true"@) {
        Some(true)
    } else if setting(settings, key) == Some("false"@) {
        Some(false)
    } else {
        None
    }
}

fn read_number(settings: &[(String, String)], key: &str, max: u64) -> (r: Option<u64>)
    ensures
        match r {
            Some(n) => stored_number(settings@, key@, max as nat) == Some(n as nat) && n <= max,
            None => stored_number(settings@, key@, max as nat) is None,
        },
{
    match find_setting(settings, key) {
        None => None,
        Some(v) => {
            let c = chars(v);
            proof {
                assert(c@.subrange(0, c@.len() as int) =~= v@);
            }
            parse_upto(&c, 0, c.len(), max)
        },
    }
}

fn read_flag(settings: &[(String, String)], key: &str) -> (r: Option<bool>)
    ensures
        r == stored_flag(settings@, key@),
{
    proof {
        reveal_strlit("true");
        reveal_strlit("false");
    }
    match find_setting(settings, key) {
        None => None,
        Some(v) => {
            if same_text(v, "true") {
                Some(true)
            } else if same_text(v, "false") {
                Some(false)
            } else {
                None
            }
        },
    }
}

/// A value or, where there is none, another.
pub open spec fn either<T>(a: Option<T>, b: T) -> T {
    match a {
        Some(x) => x,
        None => b,
    }
}

/// Effective per-protocol global defaults for one session creation: the
/// stored setting, then the code default. The request or entry value wins
/// over both.
#[derive(Debug)]
pub struct ProtocolDefaults {
    pub width: u32,
    pub height: u32,
    pub dpi: u32,
    pub rdp_security: Option<String>,
    pub rdp_h264: bool,
    pub rdp_gfx: bool,
    pub rdp_drive: Option<bool>,
    pub vnc_color_depth: Option<u8>,
    pub vnc_disable_copy: bool,
    pub vnc_disable_paste: bool,
}

/// Whether a text names an RDP security mode.
pub open spec fn security_mode(s: Seq<char>) -> bool {
    s == "any"@ || s == "rdp"@ || s == "tls"@ || s == "nla"@
}

/// A number of pixels or dots per inch from the settings.
pub open spec fn stored_size(settings: Seq<(String, String)>, key: Seq<char>, code: u32) -> u32 {
    match stored_number(settings, key, u32::MAX as nat) {
        Some(n) => n as u32,
        None => code,
    }
}

fn read_size(settings: &[(String, String)], key: &str, code: u32) -> (r: u32)
    ensures
        r == stored_size(settings@, key@, code),
{
    match read_number(settings, key, u32::MAX as u64) {
        Some(n) => n as u32,
        None => code,
    }
}

impl ProtocolDefaults {
    /// Whether these are the defaults that the settings give a session type.
    pub open spec fn given_by(
        &self,
        session_type: SessionType,
        settings: Seq<(String, String)>,
    ) -> bool {
        &&& self.width == match session_type {
            SessionType::Ssh => stored_size(settings, "default_ssh_width"@, 1920),
            SessionType::Rdp => stored_size(settings, "default_rdp_width"@, 1920),
            _ => 1920,
        }
        &&& self.height == match session_type {
            SessionType::Ssh => stored_size(settings, "default_ssh_height"@, 1080),
            SessionType::Rdp => stored_size(settings, "default_rdp_height"@, 1080),
            _ => 1080,
        }
        &&& self.dpi == match session_type {
            SessionType::Rdp => stored_size(settings, "default_rdp_dpi"@, 96),
            _ => 96,
        }
        &&& opt_text(self.rdp_security) == match setting(settings, "default_rdp_security"@) {
            Some(s) => if security_mode(s) {
                Some(s)
            } else {
                None
            },
            None => None,
        }
        &&& self.rdp_h264 == either(stored_flag(settings, "default_rdp_h264"@), true)
        &&& self.rdp_gfx == either(stored_flag(settings, "default_rdp_gfx"@), true)
        &&& self.rdp_drive == stored_flag(settings, "default_rdp_drive"@)
        &&& self.vnc_color_depth == match stored_number(
            settings,
            "default_vnc_color_depth"@,
            u8::MAX as nat,
        ) {
            Some(n) => Some(n as u8),
            None => None,
        }
        &&& self.vnc_disable_copy == either(
            stored_flag(settings, "default_vnc_disable_copy"@),
            false,
        )
        &&& self.vnc_disable_paste == either(
            stored_flag(settings, "default_vnc_disable_paste"@),
            false,
        )
    }

    /// The defaults that the settings give a session type.
    pub fn from_settings(session_type: &SessionType, settings: &[(String, String)]) -> (r: Self)
        ensures
            r.given_by(*session_type, settings@),
    {
        let width: u32 = match session_type {
            SessionType::Ssh => read_size(settings, "default_ssh_width", 1920),
            SessionType::Rdp => read_size(settings, "default_rdp_width", 1920),
            _ => 1920,
        };
        let height: u32 = match session_type {
            SessionType::Ssh => read_size(settings, "default_ssh_height", 1080),
            SessionType::Rdp => read_size(settings, "default_rdp_height", 1080),
            _ => 1080,
        };
        let dpi: u32 = match session_type {
            SessionType::Rdp => read_size(settings, "default_rdp_dpi", 96),
            _ => 96,
        };
        let rdp_security = match find_setting(settings, "default_rdp_security") {
            Some(s) => if same_text(s, "any") || same_text(s, "rdp") || same_text(s, "tls")
                || same_text(s, "nla") {
                Some(s.to_owned())
            } else {
                None
            },
            None => None,
        };
        let vnc_color_depth: Option<u8> = match read_number(
            settings,
            "default_vnc_color_depth",
            u8::MAX as u64,
        ) {
            Some(n) => Some(n as u8),
            None => None,
        };
        ProtocolDefaults {
            width,
            height,
            dpi,
            rdp_security,
            rdp_h264: read_flag(settings, "default_rdp_h264").unwrap_or(true),
            rdp_gfx: read_flag(settings, "default_rdp_gfx").unwrap_or(true),
            rdp_drive: read_flag(settings, "default_rdp_drive"),
            vnc_color_depth,
            vnc_disable_copy: read_flag(settings, "default_vnc_disable_copy").unwrap_or(false),
            vnc_disable_paste: read_flag(settings, "default_vnc_disable_paste").unwrap_or(false),
        }
    }
}

/// Without stored settings every session type gets the code defaults.
pub proof fn law_defaults_without_settings(
    d: ProtocolDefaults,
    session_type: SessionType,
    settings: Seq<(String, String)>,
)
    requires
        d.given_by(session_type, settings),
        settings.len() == 0,
    ensures
        d.width == 1920 && d.height == 1080 && d.dpi == 96,
        d.rdp_security is None && d.rdp_h264 && d.rdp_gfx && d.rdp_drive is None,
        d.vnc_color_depth is None && !d.vnc_disable_copy && !d.vnc_disable_paste,
{
}

// ── Lockdown toggles ──
/// Which lockdown toggle gates a session type. VNC and SSH have none.
pub open spec fn toggle_of(session_type: SessionType) -> Option<Seq<char>> {
    match session_type {
        SessionType::Rdp => Some("enable_rdp"@),
        SessionType::Ssh => None,
        SessionType::Spice => Some("enable_spice"@),
        SessionType::Proxmox => Some("enable_proxmox"@),
        SessionType::Web => Some("enable_web_sessions"@),
        SessionType::Vdi => Some("enable_vdi"@),
        SessionType::Vnc => None,
    }
}

/// Which lockdown toggle gates a session type.
pub fn protocol_toggle(session_type: &SessionType) -> (r: Option<&'static str>)
    ensures
        opt_str(r) == toggle_of(*session_type),
{
    match session_type {
        SessionType::Rdp => Some("enable_rdp"),
        SessionType::Ssh => None,
        SessionType::Spice => Some("enable_spice"),
        SessionType::Proxmox => Some("enable_proxmox"),
        SessionType::Web => Some("enable_web_sessions"),
        SessionType::Vdi => Some("enable_vdi"),
        SessionType::Vnc => None,
    }
}

/// Human label of a session type.
pub open spec fn label_of(session_type: SessionType) -> Seq<char> {
    match session_type {
        SessionType::Rdp => "RDP"@,
        SessionType::Ssh => "SSH"@,
        SessionType::Spice => "SPICE"@,
        SessionType::Proxmox => "Proxmox VE"@,
        SessionType::Web => "Web browser"@,
        SessionType::Vdi => "VDI"@,
        SessionType::Vnc => "VNC"@,
    }
}

/// Human label for the disabled-protocol error message.
pub fn protocol_label(session_type: &SessionType) -> (r: &'static str)
    ensures
        r@ == label_of(*session_type),
{
    match session_type {
        SessionType::Rdp => "RDP",
        SessionType::Ssh => "SSH",
        SessionType::Spice => "SPICE",
        SessionType::Proxmox => "Proxmox VE",
        SessionType::Web => "Web browser",
        SessionType::Vdi => "VDI",
        SessionType::Vnc => "VNC",
    }
}

/// Whether an address book entry is a VM routed from vSphere.
pub open spec fn from_vsphere(entry: Option<Seq<char>>) -> bool {
    entry is Some && "vsphere/"@.is_prefix_of(entry->0)
}

/// Whether a toggle, asked by its name, may have answered `on`.
pub open spec fn toggle_said<F: Fn(&str) -> bool>(toggle: F, key: Seq<char>, on: bool) -> bool {
    exists|k: &str| k@ == key && #[trigger] call_ensures(toggle, (k,), on)
}

/// Whether the toggles let a session of a type and entry pass, or which of
/// them refuses it.
pub open spec fn type_verdict<F: Fn(&str) -> bool>(
    r: Result<(), SessionError>,
    session_type: SessionType,
    entry: Option<Seq<char>>,
    toggle: F,
) -> bool {
    match r {
        Ok(_) => {
            &&& toggle_of(session_type) is Some ==> toggle_said(
                toggle,
                toggle_of(session_type)->0,
                true,
            )
            &&& from_vsphere(entry) ==> toggle_said(toggle, "enable_vmware"@, true)
        },
        Err(e) => {
            ||| toggle_of(session_type) is Some && toggle_said(
                toggle,
                toggle_of(session_type)->0,
                false,
            ) && invalid(e, label_of(session_type) + " sessions are disabled by an administrator"@)
            ||| from_vsphere(entry) && toggle_said(toggle, "enable_vmware"@, false) && invalid(
                e,
                "VMware sessions are disabled by an administrator"@,
            ) && (toggle_of(session_type) is Some ==> toggle_said(
                toggle,
                toggle_of(session_type)->0,
                true,
            ))
        },
    }
}

/// Enforce the admin lockdown toggles at session creation. VMware sessions
/// are plain sessions with an entry under `vsphere/`; they additionally
/// require `enable_vmware`.
pub fn check_session_type_enabled<F: Fn(&str) -> bool>(
    session_type: &SessionType,
    address_book_entry: Option<&str>,
    toggle: F,
) -> (r: Result<(), SessionError>)
    requires
        forall|k: &str| #[trigger] call_requires(toggle, (k,)),
    ensures
        type_verdict(r, *session_type, opt_str(address_book_entry), toggle),
{
    if let Some(key) = protocol_toggle(session_type) {
        if !toggle(key) {
            return Err(
                SessionError::ValidationError(
                    join2(
                        protocol_label(session_type),
                        " sessions are disabled by an administrator",
                    ),
                ),
            );
        }
    }
    if let Some(entry) = address_book_entry {
        if starts_with(entry, "vsphere/") {
            if !toggle("enable_vmware") {
                return Err(validation_error("VMware sessions are disabled by an administrator"));
            }
        }
    }
    Ok(())
}

// ── Limits ──
/// Count sessions in Pending or Active state: the only ones that count
/// against the global session cap.
pub fn count_live_sessions(sessions: &Vec<Session>) -> (r: usize)
    ensures
        r == count_where(sessions@, |s: Session| s.status.live()),
{
    let ghost p = |s: Session| s.status.live();
    let mut n: usize = 0;
    let mut i: usize = 0;
    while i < sessions.len()
        invariant
            i <= sessions@.len(),
            n <= i,
            p == (|s: Session| s.status.live()),
            n == count_where(sessions@.take(i as int), p),
        decreases sessions@.len() - i,
    {
        proof {
            assert(sessions@.take(i + 1).drop_last() =~= sessions@.take(i as int));
        }
        if sessions[i].status.is_live() {
            n = n + 1;
        }
        i = i + 1;
    }
    proof {
        assert(sessions@.take(i as int) =~= sessions@);
    }
    n
}

/// The number of live sessions that a user created.
pub open spec fn created_count(sessions: Seq<Session>, user: Seq<char>) -> nat {
    count_where(sessions, |s: Session| s.created_by@ == user && s.status.live())
}

fn count_created(sessions: &Vec<Session>, user: &str) -> (r: usize)
    ensures
        r == created_count(sessions@, user@),
{
    let ghost p = |s: Session| s.created_by@ == user@ && s.status.live();
    let mut n: usize = 0;
    let mut i: usize = 0;
    while i < sessions.len()
        invariant
            i <= sessions@.len(),
            n <= i,
            p == (|s: Session| s.created_by@ == user@ && s.status.live()),
            n == count_where(sessions@.take(i as int), p),
        decreases sessions@.len() - i,
    {
        proof {
            assert(sessions@.take(i + 1).drop_last() =~= sessions@.take(i as int));
        }
        if same_text(sessions[i].created_by.as_str(), user) && sessions[i].status.is_live() {
            n = n + 1;
        }
        i = i + 1;
    }
    proof {
        assert(sessions@.take(i as int) =~= sessions@);
    }
    n
}

/// Why a user may not create a session now, if there is a reason: the
/// per-user limit (0 is none), or a shutdown.
pub open spec fn admission_refusal(m: ManagerState, max_per_user: usize, user: Seq<char>) -> Option<
    Seq<char>,
> {
    if max_per_user > 0 && created_count(m.sessions, user) >= max_per_user {
        Some("maximum sessions per user reached ("@ + digits(max_per_user as nat) + ")"@)
    } else if m.shutdown {
        Some("server is shutting down — new sessions are not accepted"@)
    } else {
        None
    }
}

/// The map with a session in it, in place of one with its id.
pub open spec fn inserted(sessions: Seq<Session>, s: Session) -> Seq<Session> {
    match find(sessions, s.id) {
        Some(i) => sessions.update(i, s),
        None => sessions.push(s),
    }
}

impl ManagerState {
    /// Whether the global cap (0 is none) leaves room for a session.
    pub open spec fn below_cap(self, max_sessions: usize) -> bool {
        max_sessions == 0 || count_where(self.sessions, |s: Session| s.status.live())
            < max_sessions
    }

    /// After a new session landed in the map: the event feed hears of it, and
    /// the total goes up.
    pub open spec fn started(self, s: Session, now: Timestamp) -> ManagerState {
        let m = ManagerState { sessions: inserted(self.sessions, s), ..self }.published(
            SessionEventKind::SessionStarted,
            s,
            now,
        );
        ManagerState {
            metrics: Metrics {
                sessions_total: bumped(m.metrics.sessions_total),
                ..m.metrics
            },
            ..m
        }
    }
}

impl SessionManager {
    /// Whether a user may create a session now: the per-user limit, then the
    /// shutdown.
    pub fn check_admission(&self, created_by: &str) -> (r: Result<(), SessionError>)
        ensures
            verdict_is(
                r,
                admission_refusal(self@, self.config.max_sessions_per_user, created_by@),
            ),
    {
        let max: usize = self.config.max_sessions_per_user;
        if max > 0 {
            let n = count_created(&self.sessions, created_by);
            if n >= max {
                let mut m = join2(
                    "maximum sessions per user reached (",
                    decimal(max as u64).as_str(),
                );
                m.append(")");
                return Err(SessionError::ValidationError(m));
            }
        }
        if self.shutdown {
            return Err(
                validation_error("server is shutting down — new sessions are not accepted"),
            );
        }
        Ok(())
    }

    /// Put a new session into the map, unless the global cap is reached. Only
    /// sessions with a live connection count against the cap.
    pub fn admit_session(&mut self, session: Session, now: Timestamp) -> (r: Result<
        SessionInfo,
        SessionError,
    >)
        requires
            old(self).wf(),
            old(self)@.has_room(1),
        ensures
            final(self).config == old(self).config,
            final(self).wf(),
            match r {
                Ok(info) => old(self)@.below_cap(old(self).config.max_sessions) && session.shown_by(
                    info,
                ) && info.ended_at is None && final(self)@ == old(self)@.started(session, now),
                Err(e) => !old(self)@.below_cap(old(self).config.max_sessions) && invalid(
                    e,
                    "maximum concurrent sessions reached ("@ + digits(
                        old(self).config.max_sessions as nat,
                    ) + ")"@,
                ) && final(self)@ == old(self)@,
            },
    {
        let max: usize = self.config.max_sessions;
        if max > 0 {
            let n = count_live_sessions(&self.sessions);
            if n >= max {
                let mut m = join2(
                    "maximum concurrent sessions reached (",
                    decimal(max as u64).as_str(),
                );
                m.append(")");
                return Err(SessionError::ValidationError(m));
            }
        }
        let info = session.info();
        let i: usize = match self.position(session.id) {
            Some(i) => {
                proof {
                    lemma_update_distinct(self.sessions@, i as int, session);
                }
                self.sessions[i] = session;
                i
            },
            None => {
                proof {
                    lemma_find(self.sessions@, session.id);
                }
                let i: usize = self.sessions.len();
                self.sessions.push(session);
                i
            },
        };
        proof {
            assert(self.sessions@ == inserted(old(self).sessions@, session));
        }
        self.publish_event(SessionEventKind::SessionStarted, i, now);
        session_total_inc(&mut self.metrics);
        Ok(info)
    }
}

/// The cap is never passed: a session is only admitted below it.
pub proof fn law_cap_holds(m: ManagerState, s: Session, max_sessions: usize, now: Timestamp)
    requires
        m.wf(),
        max_sessions > 0,
        m.below_cap(max_sessions),
        find(m.sessions, s.id) is None,
    ensures
        count_where(m.started(s, now).sessions, |s: Session| s.status.live()) <= max_sessions,
{
    assert(m.sessions.push(s).drop_last() =~= m.sessions);
}

} // verus!
