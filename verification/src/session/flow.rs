//! The way from a request to a running session: what is settled before
//! anything is opened, and the steps that follow one another from there.

use crate::config::Config;
use crate::guacd::ConnectionParams;
use crate::net_util::{parse_url, url_of};
use crate::session::create::{
    admission_refusal, check_session_type_enabled, type_verdict, ProtocolDefaults,
};
use crate::session::filled;
use crate::session::manager::SessionManager;
use crate::session::network::{check_target, denied, ip_of, parse_ip, target_refusal, Lookup};
use crate::session::plan::{
    allowed_for, allowed_networks, browser_url, display_size, hops_verdict, normalized_reason, resolve_jump_hosts,
    set_display_port, tunnelled_url, web_tunnel, web_tunnel_target, DisplaySize, SessionPlan,
};
use crate::session::types::{invalid, CreateSessionRequest, JumpHost, SessionError, SessionType};
use crate::text::{borrow_opt, join2, opt_text, texts};
use vstd::prelude::*;
use vstd::string::*;

verus! {

// ── After the plan ──
/// A session on its way: its plan, and what has been set up for it.
#[derive(Debug)]
pub struct Setup {
    pub session_type: SessionType,
    pub plan: SessionPlan,
    /// Whether the target is reached through jump hosts.
    pub has_hops: bool,
    /// The local end of the tunnel, once it is up.
    pub tunnel: Option<(String, u16)>,
    /// Whether the browser of a web session runs.
    pub browser_up: bool,
    /// Whether the target was held against the allowlist and the deny list.
    pub checked: bool,
}

/// What is to be done next for a session.
#[derive(Debug)]
pub enum SetupStep {
    /// Open a tunnel chain to a target.
    OpenTunnel { host: String, port: u16 },
    /// Start a browser on an address.
    SpawnBrowser { url: String },
    /// Hold a target against the allowlist and the deny list.
    CheckTarget { host: String, port: u16 },
    /// Connect guacd, and hold a target against the allowlist meanwhile.
    Connect { check: Option<(String, u16)> },
    /// Nothing: guacd is connected once the user is ready.
    Wait,
}

impl Setup {
    /// Whether the session shows a page in a browser.
    pub open spec fn is_web(self) -> bool {
        self.plan.url is Some
    }

    /// Whether a tunnel is still to be opened. Proxmox sessions tunnel their
    /// own hops.
    pub open spec fn lacks_tunnel(self) -> bool {
        self.has_hops && self.session_type != SessionType::Proxmox && self.tunnel is None
    }

    /// Whether a browser is still to be started.
    pub open spec fn lacks_browser(self) -> bool {
        self.is_web() && !self.browser_up
    }

    /// Whether a target is still to be held against the allowlist.
    pub open spec fn lacks_check(self) -> bool {
        self.plan.net_check is Some && !self.checked
    }

    /// The host that is held against the allowlist.
    pub open spec fn checked_host(self) -> Seq<char> {
        match self.plan.net_check {
            Some((host, _)) => host@,
            None => Seq::empty(),
        }
    }

    /// Why the target is refused, if it is: by the networks that its protocol
    /// is allowed, then by the deny list.
    pub open spec fn refusal(self, config: Config, lookup: Lookup) -> Option<Seq<char>> {
        target_refusal(
            self.checked_host(),
            texts(allowed_for(config, self.session_type)@),
            lookup,
        )
    }

    /// Whether the target's check needs the resolver, and guacd is connected
    /// meanwhile.
    pub open spec fn overlaps(self) -> bool {
        self.lacks_check() && self.plan.banner is None && ip_of(self.checked_host()) is None
    }

    /// How many steps are left before the last one.
    pub open spec fn left(self) -> nat {
        (if self.lacks_tunnel() {
            1nat
        } else {
            0nat
        }) + (if self.lacks_browser() {
            1nat
        } else {
            0nat
        }) + (if self.lacks_check() && !self.overlaps() {
            1nat
        } else {
            0nat
        })
    }

    /// The target that a tunnel leads to: of a web session what its URL names,
    /// of any other what guacd dials. The reason where the URL cannot be read.
    pub open spec fn tunnel_target(self) -> Result<(Seq<char>, u16), Seq<char>> {
        match self.plan.url {
            Some(url) => match url_of(url@) {
                Ok(u) => Ok(web_tunnel_target(u)),
                Err(e) => Err("invalid URL: "@ + e),
            },
            None => Ok(self.plan.params.target_spec()),
        }
    }

    /// The address that the browser opens.
    pub open spec fn browser_address(self) -> Result<Seq<char>, Seq<char>> {
        match self.tunnel {
            None => Ok(self.plan.url->0@),
            Some((_, port)) => match url_of(self.plan.url->0@) {
                Ok(u) => Ok(tunnelled_url(u, port)),
                Err(e) => Err("invalid URL: "@ + e),
            },
        }
    }

    /// What is to be done next.
    pub open spec fn step_is(self, r: Result<SetupStep, SessionError>) -> bool {
        if self.lacks_tunnel() {
            match self.tunnel_target() {
                Ok((host, port)) => r is Ok && r->Ok_0 is OpenTunnel && r->Ok_0->OpenTunnel_host@
                    == host && r->Ok_0->OpenTunnel_port == port,
                Err(e) => r is Err && invalid(r->Err_0, e),
            }
        } else if self.lacks_browser() {
            match self.browser_address() {
                Ok(url) => r is Ok && r->Ok_0 is SpawnBrowser && r->Ok_0->url@ == url,
                Err(e) => r is Err && invalid(r->Err_0, e),
            }
        } else if self.lacks_check() && !self.overlaps() {
            r is Ok && r->Ok_0 is CheckTarget && self.plan.net_check == Some(
                (r->Ok_0->CheckTarget_host, r->Ok_0->CheckTarget_port),
            )
        } else if self.plan.banner is Some {
            r is Ok && r->Ok_0 is Wait
        } else {
            r is Ok && r->Ok_0 is Connect && r->Ok_0->check == if self.overlaps() {
                self.plan.net_check
            } else {
                None
            }
        }
    }

    /// A session at the beginning of its setup.
    pub fn new(session_type: SessionType, plan: SessionPlan, has_hops: bool) -> (r: Setup)
        ensures
            r == (Setup {
                session_type,
                plan,
                has_hops,
                tunnel: None,
                browser_up: false,
                checked: false,
            }),
            r.left() <= 3,
    {
        Setup { session_type, plan, has_hops, tunnel: None, browser_up: false, checked: false }
    }

    /// What is to be done next: the tunnel first, then the browser, then the
    /// check of the target, and guacd last. A target given by name is checked
    /// while guacd connects; a session that waits for its user is checked, and
    /// connected later.
    pub fn next(&self) -> (r: Result<SetupStep, SessionError>)
        ensures
            self.step_is(r),
    {
        if self.has_hops && self.session_type != SessionType::Proxmox && self.tunnel.is_none() {
            return match &self.plan.url {
                Some(url) => match parse_url(url.as_str()) {
                    Ok(u) => {
                        let (host, port): (String, u16) = web_tunnel(&u);
                        Ok(SetupStep::OpenTunnel { host, port })
                    },
                    Err(e) => Err(
                        SessionError::ValidationError(join2("invalid URL: ", e.as_str())),
                    ),
                },
                None => {
                    let (host, port): (String, u16) = self.plan.params.target();
                    Ok(SetupStep::OpenTunnel { host, port })
                },
            };
        }
        if let Some(url) = &self.plan.url {
            if !self.browser_up {
                let port: Option<u16> = match &self.tunnel {
                    Some(end) => Some(end.1),
                    None => None,
                };
                return match browser_url(url.as_str(), port) {
                    Ok(url) => Ok(SetupStep::SpawnBrowser { url }),
                    Err(e) => Err(e),
                };
            }
        }
        let waits = self.plan.banner.is_some();
        if !self.checked {
            if let Some(target) = &self.plan.net_check {
                let host = target.0.clone();
                let port: u16 = target.1;
                if !waits && parse_ip(host.as_str()).is_none() {
                    return Ok(SetupStep::Connect { check: Some((host, port)) });
                }
                return Ok(SetupStep::CheckTarget { host, port });
            }
        }
        if waits {
            Ok(SetupStep::Wait)
        } else {
            Ok(SetupStep::Connect { check: None })
        }
    }

    /// The tunnel is up: guacd dials its local end. A web session's browser
    /// will go through it instead. What is checked stays the target itself.
    pub fn tunnelled(self, host: String, port: u16) -> (r: Setup)
        requires
            self.lacks_tunnel(),
        ensures
            r == (Setup {
                tunnel: Some((host, port)),
                plan: SessionPlan {
                    params: if self.is_web() {
                        self.plan.params
                    } else {
                        self.plan.params.through_spec(host, port)
                    },
                    ..self.plan
                },
                ..self
            }),
            r.left() + 1 == self.left(),
            r.plan.net_check == self.plan.net_check,
    {
        let mut r = self;
        if r.plan.url.is_none() {
            r.plan.params = r.plan.params.through(host.clone(), port);
        }
        r.tunnel = Some((host, port));
        r
    }

    /// The browser runs, and shows its display at a port.
    pub fn browsing(self, display_port: u16) -> (r: Setup)
        requires
            self.lacks_browser(),
        ensures
            r == (Setup {
                browser_up: true,
                plan: SessionPlan {
                    params: match self.plan.params {
                        ConnectionParams::Vnc(p) => ConnectionParams::Vnc(
                            crate::guacd::VncParams { port: display_port, ..p },
                        ),
                        other => other,
                    },
                    ..self.plan
                },
                ..self
            }),
            r.left() + 1 == self.left(),
    {
        let mut r = self;
        r.plan.params = set_display_port(r.plan.params, display_port);
        r.browser_up = true;
        r
    }

    /// Hold the target against the networks that its protocol is allowed, and
    /// against the deny list, by what the resolver said; a refusal ends the
    /// setup.
    pub fn target_checked(self, config: &Config, lookup: &Lookup) -> (r: Result<
        Setup,
        SessionError,
    >)
        requires
            self.lacks_check(),
        ensures
            match self.refusal(*config, *lookup) {
                None => r is Ok && r->Ok_0 == (Setup { checked: true, ..self }) && (
                !self.overlaps() ==> r->Ok_0.left() + 1 == self.left()),
                Some(e) => r is Err && invalid(r->Err_0, e),
            },
    {
        let allowed = allowed_networks(config, &self.session_type);
        let verdict = match &self.plan.net_check {
            Some(target) => check_target(target.0.as_str(), allowed, lookup),
            None => Ok(()),
        };
        match verdict {
            Ok(_) => {
                let mut r = self;
                r.checked = true;
                Ok(r)
            },
            Err(e) => Err(e),
        }
    }
}

impl Setup {
    /// guacd was asked to connect; where the target was looked up meanwhile, it
    /// is checked now.
    pub fn guacd_answered(
        self,
        config: &Config,
        lookup: Option<&Lookup>,
        connection: Result<(u64, String), String>,
    ) -> (r: Result<(Setup, (u64, String)), SessionError>)
        requires
            lookup is Some ==> self.lacks_check(),
        ensures
            match lookup {
                Some(l) if self.refusal(*config, *l) is Some => r is Err
                    && r->Err_0 is GuacdConnection && exists|e: SessionError|
                    invalid(e, self.refusal(*config, *l)->0) && r->Err_0->GuacdConnection_0@
                        == #[trigger] e.message_spec(),
                _ => match connection {
                    Ok(c) => r == Ok::<(Setup, (u64, String)), SessionError>(
                        ((Setup { checked: self.checked || lookup is Some, ..self }), c),
                    ),
                    Err(e) => r == Err::<(Setup, (u64, String)), SessionError>(
                        SessionError::GuacdConnection(e),
                    ),
                },
            },
    {
        let (setup, verdict): (Option<Setup>, Option<Result<(), SessionError>>) = match lookup {
            None => (Some(self), None),
            Some(l) => match self.target_checked(config, l) {
                Ok(s) => (Some(s), Some(Ok(()))),
                Err(e) => (None, Some(Err(e))),
            },
        };
        match connected(verdict, connection) {
            Err(e) => Err(e),
            Ok(c) => {
                let s = setup.unwrap();
                Ok((s, c))
            },
        }
    }
}

/// A session to a link-local address is refused when its target is checked,
/// whatever the allowlist says.
pub proof fn law_link_local_ends_setup(s: Setup, config: Config, lookup: Lookup)
    requires
        s.plan.net_check is Some,
        denied(ip_of(s.checked_host())),
    ensures
        s.refusal(config, lookup) is Some,
{
}

/// guacd is not connected to an address, and no user is waited for to connect
/// to it, before the check.
pub proof fn law_addresses_are_checked_first(s: Setup, r: Result<SetupStep, SessionError>)
    requires
        s.step_is(r),
        s.lacks_check(),
        ip_of(s.checked_host()) is Some,
    ensures
        r is Ok ==> !(r->Ok_0 is Connect) && !(r->Ok_0 is Wait),
{
}

/// What comes of connecting guacd, with the verdict on the target where it was
/// checked meanwhile: a refused target is a failed connection.
pub fn connected(
    verdict: Option<Result<(), SessionError>>,
    connection: Result<(u64, String), String>,
) -> (r: Result<(u64, String), SessionError>)
    ensures
        match verdict {
            Some(Err(e)) => r is Err && r->Err_0 is GuacdConnection && r->Err_0->GuacdConnection_0@
                == e.message_spec(),
            _ => match connection {
                Ok(c) => r == Ok::<(u64, String), SessionError>(c),
                Err(e) => r == Err::<(u64, String), SessionError>(SessionError::GuacdConnection(e)),
            },
        },
{
    if let Some(Err(e)) = verdict {
        return Err(SessionError::GuacdConnection(e.message()));
    }
    match connection {
        Ok(c) => Ok(c),
        Err(e) => Err(SessionError::GuacdConnection(e)),
    }
}

/// guacd is connected last: the tunnel is up where there are jump hosts, the
/// browser runs where there is a page to show, no user is waited for, and the
/// target was checked or is being checked.
pub proof fn law_guacd_is_last(s: Setup, r: Result<SetupStep, SessionError>)
    requires
        s.step_is(r),
        r is Ok,
        r->Ok_0 is Connect,
    ensures
        s.left() == 0,
        s.has_hops && s.session_type != SessionType::Proxmox ==> s.tunnel is Some,
        s.is_web() ==> s.browser_up,
        s.plan.banner is None,
        s.plan.net_check is Some ==> s.checked || r->Ok_0->check == s.plan.net_check,
{
}

/// A session that waits for its user is never connected during setup, and its
/// target is checked before it waits.
pub proof fn law_waiting_sessions_are_checked(s: Setup, r: Result<SetupStep, SessionError>)
    requires
        s.step_is(r),
        s.plan.banner is Some,
    ensures
        r is Ok ==> !(r->Ok_0 is Connect),
        r is Ok && r->Ok_0 is Wait ==> (s.plan.net_check is Some ==> s.checked),
{
}

// ── Before the plan ──
/// What is settled for a request before a plan is made.
#[derive(Debug)]
pub struct Preflight {
    pub defaults: ProtocolDefaults,
    pub size: DisplaySize,
    /// Why the user connects.
    pub reason: Option<String>,
    pub hops: Vec<JumpHost>,
}

impl SessionManager {
    /// What is settled for a request before a plan is made, in this order: the
    /// user's limit and a shutdown, the administrator's toggles, the defaults
    /// and the display, and the jump hosts, which leave the request.
    pub fn preflight<F: Fn(&str) -> bool>(
        &self,
        req: &mut CreateSessionRequest,
        created_by: &str,
        settings: &[(String, String)],
        toggle: F,
    ) -> (r: Result<Preflight, SessionError>)
        requires
            forall|k: &str| #[trigger] call_requires(toggle, (k,)),
        ensures
            ({
                let limit = admission_refusal(
                    self@,
                    self.config.max_sessions_per_user,
                    created_by@,
                );
                let kind = old(req).session_type;
                let entry = opt_text(old(req).address_book_entry);
                match r {
                    Ok(p) => {
                        &&& limit is None
                        &&& type_verdict(Ok::<(), SessionError>(()), kind, entry, toggle)
                        &&& p.defaults.given_by(kind, settings@)
                        &&& p.size.suits(*old(req), p.defaults)
                        &&& opt_text(p.reason) == filled(opt_text(old(req).reason))
                        &&& request_hops(Ok::<Vec<JumpHost>, SessionError>(p.hops), *old(req))
                        &&& *final(req) == (CreateSessionRequest { jump_hosts: None, ..*old(req) })
                    },
                    Err(e) => {
                        ||| limit is Some && invalid(e, limit->0)
                        ||| limit is None && type_verdict(
                            Err::<(), SessionError>(e),
                            kind,
                            entry,
                            toggle,
                        )
                        ||| limit is None && type_verdict(
                            Ok::<(), SessionError>(()),
                            kind,
                            entry,
                            toggle,
                        ) && request_hops(Err::<Vec<JumpHost>, SessionError>(e), *old(req))
                    },
                }
            }),
    {
        match self.check_admission(created_by) {
            Ok(_) => {},
            Err(e) => return Err(e),
        }
        match check_session_type_enabled(
            &req.session_type,
            borrow_opt(&req.address_book_entry),
            toggle,
        ) {
            Ok(_) => {},
            Err(e) => return Err(e),
        }
        let defaults = ProtocolDefaults::from_settings(&req.session_type, settings);
        let size = display_size(req, &defaults);
        let reason = normalized_reason(borrow_opt(&req.reason));
        let chain = req.jump_hosts.take();
        match resolve_jump_hosts(
            chain,
            &req.jump_host,
            req.jump_port,
            &req.jump_username,
            &req.jump_password,
            &req.jump_private_key,
        ) {
            Ok(hops) => Ok(Preflight { defaults, size, reason, hops }),
            Err(e) => Err(e),
        }
    }
}

/// Whether `r` is what a request's jump hosts come to.
pub open spec fn request_hops(
    r: Result<Vec<JumpHost>, SessionError>,
    req: CreateSessionRequest,
) -> bool {
    hops_verdict(
        r,
        req.jump_hosts,
        req.jump_host,
        req.jump_port,
        req.jump_username,
        req.jump_password,
        req.jump_private_key,
    )
}

} // verus!
