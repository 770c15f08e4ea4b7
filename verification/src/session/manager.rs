//! The sessions of one server and their lifecycle.

use crate::config::Config;
use crate::guacd::ConnectionParams;
use crate::metrics::{bumped, dropped, metrics, session_active_dec, session_active_inc, Metrics};
use crate::outside::{
    hex_encode, hex_text, parse_registry_time, registry_second, same_bytes, sha256, sha256_digest,
    uuid_of, uuid_string, uuid_text,
};
use crate::session::credentials::{
    dropped as dropped_entry, lookup, owned, session_key, stored, token_key, unexpired, Entries,
    RetainedSessionCredential, SessionCredentialStore,
};
use crate::session::events::{EventLog, EventWindow};
use crate::session::types::{
    row_name, Session, SessionError, SessionEvent, SessionEventKind, SessionInfo,
    SessionRegistryRow, SessionStatus, SessionType, ShadowToken, ShareTokenValidation,
};
use crate::session::{
    check_share_token_match, cleaned, cleanup_browser, drive_cleanup, drive_cleanup_settings,
    generate_share_token, teardown_of, token_verdict, Teardown,
};
use crate::text::{copy_opt, join3, list_has, same_text, texts};
use crate::time::{elapsed_seconds, Timestamp};
use std::collections::{HashMap, HashSet};
use vstd::prelude::*;
use vstd::string::*;
use vstd::utf8::*;

verus! {

broadcast use vstd::std_specs::hash::group_hash_axioms;

/// Manages all active sessions.
pub struct SessionManager {
    /// The sessions, in the order of their creation; no two with one id.
    pub sessions: Vec<Session>,
    pub config: Config,
    /// Set when a shutdown signal is received: no new sessions from then on.
    pub shutdown: bool,
    /// Session lifecycle event feed.
    pub events: EventLog,
    /// Who holds a live event stream (at most one per identity).
    pub sse_subscribers: Vec<String>,
    /// When each session entered a terminal state.
    pub ended_at: HashMap<u128, Timestamp>,
    /// Sessions whose owner currently holds the guacd stream.
    pub owner_connected: HashSet<u128>,
    /// When each session entered `Disconnected`: the reconnect window is
    /// measured from there.
    pub disconnected_at: HashMap<u128, Timestamp>,
    /// Retained login credentials.
    pub session_credentials: SessionCredentialStore,
    pub metrics: Metrics,
}

/// The state of a manager.
pub ghost struct ManagerState {
    pub sessions: Seq<Session>,
    pub config: Config,
    pub shutdown: bool,
    pub events: EventWindow,
    pub subscribers: Seq<Seq<char>>,
    pub ended_at: Map<u128, Timestamp>,
    pub owner_connected: Set<u128>,
    pub disconnected_at: Map<u128, Timestamp>,
    pub credentials: Entries,
    pub metrics: Metrics,
}

impl View for SessionManager {
    type V = ManagerState;

    open spec fn view(&self) -> ManagerState {
        ManagerState {
            sessions: self.sessions@,
            config: self.config,
            shutdown: self.shutdown,
            events: self.events@,
            subscribers: texts(self.sse_subscribers@),
            ended_at: self.ended_at@,
            owner_connected: self.owner_connected@,
            disconnected_at: self.disconnected_at@,
            credentials: self.session_credentials@,
            metrics: self.metrics,
        }
    }
}

/// The position of the session with a given id.
pub open spec fn find(s: Seq<Session>, id: u128) -> Option<int>
    decreases s.len(),
{
    if s.len() == 0 {
        None
    } else if s[0].id == id {
        Some(0)
    } else {
        match find(s.skip(1), id) {
            Some(i) => Some(i + 1),
            None => None,
        }
    }
}

/// No two sessions have the same id.
pub open spec fn distinct_ids(s: Seq<Session>) -> bool {
    forall|i: int, j: int| 0 <= i < j < s.len() ==> s[i].id != s[j].id
}

/// `find` finds what its words say.
pub proof fn lemma_find(s: Seq<Session>, id: u128)
    ensures
        match find(s, id) {
            Some(i) => 0 <= i < s.len() && s[i].id == id && forall|j: int|
                0 <= j < i ==> (#[trigger] s[j]).id != id,
            None => forall|j: int| 0 <= j < s.len() ==> (#[trigger] s[j]).id != id,
        },
    decreases s.len(),
{
    if s.len() > 0 && s[0].id != id {
        lemma_find(s.skip(1), id);
        assert forall|j: int|
            0 <= j < (match find(s, id) {
                Some(i) => i,
                None => s.len() as int,
            }) implies (#[trigger] s[j]).id != id by {
            if j > 0 {
                assert(s[j] == s.skip(1)[j - 1]);
            }
        }
    }
}

/// The only session with an id is the one that is found.
pub proof fn lemma_find_is(s: Seq<Session>, id: u128, k: int)
    requires
        0 <= k < s.len(),
        s[k].id == id,
        forall|j: int| 0 <= j < k ==> (#[trigger] s[j]).id != id,
    ensures
        find(s, id) == Some(k),
{
    lemma_find(s, id);
}

/// The event of a session, before it has a number.
pub open spec fn event_of(kind: SessionEventKind, s: Session, now: Timestamp) -> SessionEvent {
    SessionEvent {
        id: 0,
        event: kind,
        session_id: s.id,
        session_type: s.session_type,
        status: s.status,
        created_by: s.created_by,
        timestamp: now,
    }
}

/// What a session gave up when it was closed.
#[derive(Debug)]
pub struct Closing {
    /// Whether whoever is connected to it is told to stop.
    pub cancel: bool,
    /// The guacd stream that it still held, to be dropped.
    pub stream: Option<u64>,
    /// What else is to be stopped.
    pub teardown: Teardown,
}

/// What a session gives up under a `[drive]` section.
pub open spec fn closing_of(s: Session, config: Config) -> Closing {
    Closing {
        cancel: false,
        stream: s.guacd_stream,
        teardown: teardown_of(s, drive_cleanup(config.drive).0, drive_cleanup(config.drive).1),
    }
}

/// What a session gives up when it is taken out while others may still be
/// connected to it: they are told to stop.
pub open spec fn ending_of(s: Session, config: Config) -> Closing {
    Closing { cancel: true, ..closing_of(s, config) }
}

/// A session that was ended by a reaper, for the session history.
#[derive(Debug)]
pub struct Reaped {
    pub id: u128,
    /// Seconds that the session lived.
    pub duration_secs: u64,
    pub recording: bool,
    pub closing: Closing,
}

/// A disconnected session whose reconnect window is over.
#[derive(Debug)]
pub struct Finalized {
    pub id: u128,
    /// Seconds that the session lived.
    pub duration_secs: u64,
    pub recording: bool,
    /// A VDI container to stop.
    pub container_id: Option<String>,
}

/// A new connection for an owner is to be prepared.
#[derive(Debug)]
pub struct ConnectStart {
    /// Parameters of the guacd connection to make first, if there is one.
    pub deferred: Option<ConnectionParams>,
}

/// What a viewer joins.
#[derive(Debug)]
pub struct JoinTarget {
    pub connection_id: String,
    pub width: u32,
    pub height: u32,
}

/// A shadow token for a session of another instance.
#[derive(Debug)]
pub struct RemoteShadowToken {
    /// The token, for the admin.
    pub raw: String,
    /// Its hash, for the registry.
    pub hash: String,
    pub expires_at: Timestamp,
}

/// A session in another status, without what runs for it, and without its
/// guacd stream where `drop_stream` says so.
pub open spec fn closed(s: Session, status: SessionStatus, drop_stream: bool) -> Session {
    Session {
        status,
        guacd_stream: if drop_stream {
            None
        } else {
            s.guacd_stream
        },
        ..cleaned(s)
    }
}

/// Move a session to `status` and take from it what runs for it.
fn close(
    session: &mut Session,
    status: SessionStatus,
    drop_stream: bool,
    cleanup_on_close: bool,
    retention_secs: u64,
) -> (r: Closing)
    ensures
        *final(session) == closed(*old(session), status, drop_stream),
        !r.cancel,
        r.teardown == teardown_of(*old(session), cleanup_on_close, retention_secs),
        r.stream == if drop_stream {
            old(session).guacd_stream
        } else {
            None
        },
{
    session.status = status;
    let stream = if drop_stream {
        session.guacd_stream.take()
    } else {
        None
    };
    let teardown = cleanup_browser(session, cleanup_on_close, retention_secs);
    Closing { cancel: false, stream, teardown }
}

impl ManagerState {
    /// Ids are distinct and the event window is sound.
    pub open spec fn wf(self) -> bool {
        distinct_ids(self.sessions) && self.events.wf()
    }

    /// Whether `n` more events can be numbered.
    pub open spec fn has_room(self, n: int) -> bool {
        self.events.next_id + n <= u64::MAX
    }

    /// After publishing an event of a session.
    pub open spec fn published(
        self,
        kind: SessionEventKind,
        s: Session,
        now: Timestamp,
    ) -> ManagerState {
        ManagerState { events: self.events.appended(event_of(kind, s, now)), ..self }
    }

    /// After publishing the transition of a session from status `was`: one
    /// event for a real transition, none where the status did not change.
    /// A terminal status also records the end.
    pub open spec fn transitioned(
        self,
        was: SessionStatus,
        s: Session,
        now: Timestamp,
    ) -> ManagerState {
        if was == s.status {
            self
        } else if s.status.terminal() {
            ManagerState { ended_at: self.ended_at.insert(s.id, now), ..self }.published(
                SessionEventKind::SessionEnded,
                s,
                now,
            )
        } else {
            self.published(SessionEventKind::StatusChanged, s, now)
        }
    }

    /// With another session in slot `i`.
    pub open spec fn with(self, i: int, s: Session) -> ManagerState {
        ManagerState { sessions: self.sessions.update(i, s), ..self }
    }

    /// With one active session more on the gauge.
    pub open spec fn active_up(self) -> ManagerState {
        ManagerState {
            metrics: Metrics {
                sessions_active: bumped(self.metrics.sessions_active),
                ..self.metrics
            },
            ..self
        }
    }

    /// With one active session less on the gauge.
    pub open spec fn active_down(self) -> ManagerState {
        ManagerState {
            metrics: Metrics {
                sessions_active: dropped(self.metrics.sessions_active),
                ..self.metrics
            },
            ..self
        }
    }

    /// With the owner of a session gone.
    pub open spec fn owner_gone(self, id: u128) -> ManagerState {
        ManagerState { owner_connected: self.owner_connected.remove(id), ..self }
    }

    /// The session with a given id.
    pub open spec fn session(self, id: u128) -> Option<Session> {
        match find(self.sessions, id) {
            Some(i) => Some(self.sessions[i]),
            None => None,
        }
    }

    /// Whether the session is there with one of two statuses.
    pub open spec fn in_status(self, id: u128, a: SessionStatus, b: SessionStatus) -> bool {
        match self.session(id) {
            Some(s) => s.status == a || s.status == b,
            None => false,
        }
    }

    /// After the session in slot `i` moved to `status`: it drops its guacd
    /// stream where `drop_stream` says so, and everything that runs for it.
    pub open spec fn moved(
        self,
        i: int,
        status: SessionStatus,
        drop_stream: bool,
        now: Timestamp,
    ) -> ManagerState {
        let s = self.sessions[i];
        let t = closed(s, status, drop_stream);
        self.with(i, t).transitioned(s.status, t, now)
    }

    /// After `complete_session`. A disconnected session has left the gauge
    /// before.
    pub open spec fn completed(self, id: u128, now: Timestamp) -> ManagerState {
        if self.in_status(id, SessionStatus::Active, SessionStatus::Disconnected) {
            let m = self.moved(
                find(self.sessions, id)->0,
                SessionStatus::Completed,
                false,
                now,
            ).owner_gone(id);
            if self.session(id)->0.status == SessionStatus::Active {
                m.active_down()
            } else {
                m
            }
        } else {
            self
        }
    }

    /// After `disconnect_session`.
    pub open spec fn disconnected(self, id: u128, now: Timestamp) -> ManagerState {
        if self.in_status(id, SessionStatus::Active, SessionStatus::Active) {
            let m = self.moved(
                find(self.sessions, id)->0,
                SessionStatus::Disconnected,
                true,
                now,
            ).active_down().owner_gone(id);
            ManagerState { disconnected_at: m.disconnected_at.insert(id, now), ..m }
        } else {
            self
        }
    }

    /// After `error_session`.
    pub open spec fn errored(self, id: u128, now: Timestamp) -> ManagerState {
        match self.session(id) {
            Some(s) => if s.status == SessionStatus::Error {
                self
            } else {
                let m = self.moved(
                    find(self.sessions, id)->0,
                    SessionStatus::Error,
                    true,
                    now,
                ).owner_gone(id);
                if s.status == SessionStatus::Active {
                    m.active_down()
                } else {
                    m
                }
            },
            None => self,
        }
    }

    /// After the pending window of a session has lapsed.
    pub open spec fn lapsed(self, id: u128, now: Timestamp) -> ManagerState {
        if self.in_status(id, SessionStatus::Pending, SessionStatus::Pending) {
            self.moved(find(self.sessions, id)->0, SessionStatus::Expired, true, now)
        } else {
            self
        }
    }

    /// After a session left the map, with all that is kept beside it.
    pub open spec fn without(self, id: u128) -> ManagerState {
        let m = ManagerState {
            ended_at: self.ended_at.remove(id),
            disconnected_at: self.disconnected_at.remove(id),
            ..self
        }.owner_gone(id);
        match find(self.sessions, id) {
            Some(i) => ManagerState { sessions: self.sessions.remove(i), ..m },
            None => m,
        }
    }

    /// After `delete_session`.
    pub open spec fn deleted(self, id: u128, now: Timestamp) -> ManagerState {
        match self.session(id) {
            Some(s) => {
                let m = self.transitioned(
                    s.status,
                    Session { status: SessionStatus::Completed, ..s },
                    now,
                ).without(id);
                if s.status == SessionStatus::Active {
                    m.active_down()
                } else {
                    m
                }
            },
            None => self,
        }
    }

    /// After `delete_session` for each id in turn.
    pub open spec fn deleted_all(self, ids: Seq<u128>, now: Timestamp) -> ManagerState
        decreases ids.len(),
    {
        if ids.len() == 0 {
            self
        } else {
            self.deleted_all(ids.drop_last(), now).deleted(ids.last(), now)
        }
    }

    /// After a disconnected session was finalized: it expires, and its
    /// container is let go.
    pub open spec fn finalized(self, id: u128, now: Timestamp) -> ManagerState {
        match find(self.sessions, id) {
            Some(i) => {
                let s = self.sessions[i];
                let t = if s.status == SessionStatus::Disconnected {
                    Session { status: SessionStatus::Expired, ..s }
                } else {
                    s
                };
                self.with(i, Session { container_id: None, ..t }).transitioned(s.status, t, now)
            },
            None => self,
        }
    }

    /// After each of the ids was finalized in turn.
    pub open spec fn finalized_all(self, ids: Seq<u128>, now: Timestamp) -> ManagerState
        decreases ids.len(),
    {
        if ids.len() == 0 {
            self
        } else {
            self.finalized_all(ids.drop_last(), now).finalized(ids.last(), now)
        }
    }

    /// After retained credentials past their end were dropped.
    pub open spec fn pruned(self, now: Timestamp) -> ManagerState {
        ManagerState { credentials: unexpired(self.credentials, now), ..self }
    }

    /// After each of the ids left the map in turn.
    pub open spec fn without_all(self, ids: Seq<u128>) -> ManagerState
        decreases ids.len(),
    {
        if ids.len() == 0 {
            self
        } else {
            self.without_all(ids.drop_last()).without(ids.last())
        }
    }
}

/// The ids of the sessions that `p` holds of, in order.
pub open spec fn ids_where(s: Seq<Session>, p: spec_fn(Session) -> bool) -> Seq<u128>
    decreases s.len(),
{
    if s.len() == 0 {
        Seq::empty()
    } else if p(s.last()) {
        ids_where(s.drop_last(), p).push(s.last().id)
    } else {
        ids_where(s.drop_last(), p)
    }
}

/// The number of sessions that `p` holds of.
pub open spec fn count_where(s: Seq<Session>, p: spec_fn(Session) -> bool) -> nat
    decreases s.len(),
{
    if s.len() == 0 {
        0
    } else if p(s.last()) {
        count_where(s.drop_last(), p) + 1
    } else {
        count_where(s.drop_last(), p)
    }
}

pub proof fn lemma_count_bound(s: Seq<Session>, p: spec_fn(Session) -> bool)
    ensures
        count_where(s, p) <= s.len(),
    decreases s.len(),
{
    if s.len() > 0 {
        lemma_count_bound(s.drop_last(), p);
    }
}

/// Whether a session has outlived its maximum duration.
pub open spec fn overdue(s: Session, max_secs: u64, now: Timestamp) -> bool {
    s.status.live() && now.ticks() - s.created_at.ticks() > max_secs * 1_000_000_000
}

/// Whether a live session has lived for more than so many whole seconds.
pub open spec fn lived_longer(s: Session, max_secs: i64, now: Timestamp) -> bool {
    s.status.live() && now.whole_seconds_since(s.created_at) > max_secs
}

/// Whether a session has been idle for longer than allowed.
pub open spec fn idle(s: Session, timeout_secs: i64, now: Timestamp) -> bool {
    s.status.live() && s.last_activity > 0 && now.secs - s.last_activity > timeout_secs
}

/// Whether a session belongs to a user: by its user id, or by its creator
/// where it has none.
pub open spec fn belongs_to(s: Session, user: Seq<char>) -> bool {
    match s.user_id {
        Some(u) => u@ == user,
        None => s.created_by@ == user,
    }
}

impl SessionManager {
    /// Ids are distinct and the event window is sound.
    pub open spec fn wf(&self) -> bool {
        self@.wf()
    }

    /// Build a manager without sessions.
    pub fn new(config: Config, now: Timestamp) -> (r: Self)
        ensures
            r.wf(),
            r@ == (ManagerState {
                sessions: Seq::empty(),
                config,
                shutdown: false,
                events: EventWindow { events: Seq::empty(), next_id: 1 },
                subscribers: Seq::empty(),
                ended_at: Map::empty(),
                owner_connected: Set::empty(),
                disconnected_at: Map::empty(),
                credentials: Entries::empty(),
                metrics: r.metrics,
            }),
            r.metrics.sessions_active == 0,
            r.metrics.sessions_total == 0,
            r.metrics.requests_total == 0,
            r.metrics.request_errors == 0,
            r.metrics.start_time == now,
    {
        let r = SessionManager {
            sessions: Vec::new(),
            config,
            shutdown: false,
            events: EventLog::new(),
            sse_subscribers: Vec::new(),
            ended_at: HashMap::new(),
            owner_connected: HashSet::new(),
            disconnected_at: HashMap::new(),
            session_credentials: SessionCredentialStore::new(),
            metrics: metrics(now),
        };
        proof {
            assert(texts(r.sse_subscribers@) =~= Seq::empty());
        }
        r
    }

    /// The position of a session.
    pub(crate) fn position(&self, id: u128) -> (r: Option<usize>)
        ensures
            match r {
                Some(i) => find(self.sessions@, id) == Some(i as int) && i < self.sessions@.len()
                    && self.sessions@[i as int].id == id,
                None => find(self.sessions@, id) is None,
            },
    {
        let mut i: usize = 0;
        while i < self.sessions.len()
            invariant
                i <= self.sessions@.len(),
                forall|j: int| 0 <= j < i ==> (#[trigger] self.sessions@[j]).id != id,
            decreases self.sessions@.len() - i,
        {
            if self.sessions[i].id == id {
                proof {
                    lemma_find_is(self.sessions@, id, i as int);
                }
                return Some(i);
            }
            i = i + 1;
        }
        proof {
            lemma_find(self.sessions@, id);
        }
        None
    }

    /// Publish one lifecycle event for the session in slot `i`.
    pub(crate) fn publish_event(&mut self, kind: SessionEventKind, i: usize, now: Timestamp)
        requires
            old(self).wf(),
            old(self)@.has_room(1),
            i < old(self).sessions@.len(),
        ensures
            final(self)@ == old(self)@.published(kind, old(self).sessions@[i as int], now),
            final(self).wf(),
    {
        let event = SessionEvent {
            id: 0,
            event: kind,
            session_id: self.sessions[i].id,
            session_type: self.sessions[i].session_type,
            status: self.sessions[i].status,
            created_by: self.sessions[i].created_by.clone(),
            timestamp: now,
        };
        self.events.publish(event);
    }

    /// Publish a status transition of the session in slot `i`: exactly one
    /// event per real transition, nothing when the status did not change.
    /// Terminal statuses publish `session_ended` and record the end;
    /// everything else publishes `status_changed`.
    pub(crate) fn publish_transition(&mut self, was: SessionStatus, i: usize, now: Timestamp)
        requires
            old(self).wf(),
            old(self)@.has_room(1),
            i < old(self).sessions@.len(),
        ensures
            final(self)@ == old(self)@.transitioned(was, old(self).sessions@[i as int], now),
            final(self).wf(),
    {
        let status = self.sessions[i].status;
        if was == status {
            return;
        }
        let kind = if status.is_terminal() {
            let id: u128 = self.sessions[i].id;
            self.ended_at.insert(id, now);
            SessionEventKind::SessionEnded
        } else {
            SessionEventKind::StatusChanged
        };
        self.publish_event(kind, i, now);
    }

    /// Move the session in slot `i` to `status` and take from it what runs
    /// for it.
    fn move_to(&mut self, i: usize, status: SessionStatus, drop_stream: bool, now: Timestamp) -> (r:
        Closing)
        requires
            old(self).wf(),
            old(self)@.has_room(1),
            i < old(self).sessions@.len(),
        ensures
            final(self)@ == old(self)@.moved(i as int, status, drop_stream, now),
            final(self).wf(),
            !r.cancel,
            r.teardown == closing_of(old(self).sessions@[i as int], old(self).config).teardown,
            r.stream == if drop_stream {
                old(self).sessions@[i as int].guacd_stream
            } else {
                None
            },
    {
        let was = self.sessions[i].status;
        let (c, r): (bool, u64) = drive_cleanup_settings(&self.config.drive);
        let closing = close(&mut self.sessions[i], status, drop_stream, c, r);
        proof {
            let s = old(self).sessions@[i as int];
            assert(self.sessions@ == old(self).sessions@.update(
                i as int,
                closed(s, status, drop_stream),
            ));
            assert forall|j: int, k: int|
                0 <= j < k < self.sessions@.len() implies self.sessions@[j].id
                != self.sessions@[k].id by {
                assert(old(self).sessions@[j].id != old(self).sessions@[k].id);
            }
        }
        self.publish_transition(was, i, now);
        closing
    }

    // ── Transitions ──
    /// Mark a session as completed (terminal: cannot be reconnected).
    /// Returns what it gave up where it was active or disconnected.
    pub fn complete_session(&mut self, id: u128, now: Timestamp) -> (r: Option<Closing>)
        requires
            old(self).wf(),
            old(self)@.has_room(1),
        ensures
            final(self)@ == old(self)@.completed(id, now),
            final(self).wf(),
            r is Some <==> old(self)@.in_status(
                id,
                SessionStatus::Active,
                SessionStatus::Disconnected,
            ),
            r is Some ==> r->0 == (Closing {
                stream: None,
                ..closing_of(old(self)@.session(id)->0, old(self).config)
            }),
    {
        match self.position(id) {
            None => None,
            Some(i) => {
                let was = self.sessions[i].status;
                if was == SessionStatus::Active || was == SessionStatus::Disconnected {
                    let c = self.move_to(i, SessionStatus::Completed, false, now);
                    if was == SessionStatus::Active {
                        session_active_dec(&mut self.metrics);
                    }
                    self.owner_connected.remove(&id);
                    Some(c)
                } else {
                    None
                }
            },
        }
    }

    /// Mark a session as disconnected: the browser closed the WebSocket but
    /// the session remains in the manager and can be reconnected.
    pub fn disconnect_session(&mut self, id: u128, now: Timestamp) -> (r: Option<Closing>)
        requires
            old(self).wf(),
            old(self)@.has_room(1),
        ensures
            final(self)@ == old(self)@.disconnected(id, now),
            final(self).wf(),
            r is Some <==> old(self)@.in_status(id, SessionStatus::Active, SessionStatus::Active),
            r is Some ==> r->0 == closing_of(old(self)@.session(id)->0, old(self).config),
    {
        match self.position(id) {
            None => None,
            Some(i) => {
                if self.sessions[i].status == SessionStatus::Active {
                    let c = self.move_to(i, SessionStatus::Disconnected, true, now);
                    session_active_dec(&mut self.metrics);
                    self.disconnected_at.insert(id, now);
                    self.owner_connected.remove(&id);
                    Some(c)
                } else {
                    None
                }
            },
        }
    }

    /// Mark a session as errored.
    pub fn error_session(&mut self, id: u128, now: Timestamp) -> (r: Option<Closing>)
        requires
            old(self).wf(),
            old(self)@.has_room(1),
        ensures
            final(self)@ == old(self)@.errored(id, now),
            final(self).wf(),
            r is Some <==> old(self)@.session(id) is Some && old(self)@.session(id)->0.status
                != SessionStatus::Error,
            r is Some ==> r->0 == closing_of(old(self)@.session(id)->0, old(self).config),
    {
        match self.position(id) {
            None => None,
            Some(i) => {
                let was = self.sessions[i].status;
                if was == SessionStatus::Error {
                    return None;
                }
                let c = self.move_to(i, SessionStatus::Error, true, now);
                if was == SessionStatus::Active {
                    session_active_dec(&mut self.metrics);
                }
                self.owner_connected.remove(&id);
                Some(c)
            },
        }
    }

    /// The pending window of a session is over: a session that is still
    /// pending expires. Returns what it gave up then.
    pub fn expire_pending(&mut self, id: u128, now: Timestamp) -> (r: Option<Closing>)
        requires
            old(self).wf(),
            old(self)@.has_room(1),
        ensures
            final(self)@ == old(self)@.lapsed(id, now),
            final(self).wf(),
            r is Some <==> old(self)@.in_status(id, SessionStatus::Pending, SessionStatus::Pending),
            r is Some ==> r->0 == closing_of(old(self)@.session(id)->0, old(self).config),
    {
        match self.position(id) {
            None => None,
            Some(i) => {
                if self.sessions[i].status == SessionStatus::Pending {
                    Some(self.move_to(i, SessionStatus::Expired, true, now))
                } else {
                    None
                }
            },
        }
    }

    /// Mark a session `Error` after its connect failed, but only if it is
    /// still in `from`: it may have moved on while the connect was in flight.
    pub fn mark_connect_failed(&mut self, id: u128, from: SessionStatus, now: Timestamp)
        requires
            old(self).wf(),
            old(self)@.has_room(1),
        ensures
            final(self).wf(),
            final(self)@ == old(self)@.connect_failed(id, from, now),
    {
        if let Some(i) = self.position(id) {
            if self.sessions[i].status == from {
                set_status(&mut self.sessions[i], SessionStatus::Error);
                proof {
                    lemma_update_distinct(
                        old(self).sessions@,
                        i as int,
                        self.sessions@[i as int],
                    );
                }
                self.publish_transition(from, i, now);
            }
        }
    }

    /// Begin to hand the guacd stream to the session's owner: only from
    /// status `from`. The parameters of a deferred connection are taken out
    /// while the connect runs.
    fn begin_connect(&mut self, id: u128, from: SessionStatus) -> (r: Option<ConnectStart>)
        requires
            old(self).wf(),
        ensures
            final(self).wf(),
            final(self)@ == old(self)@.connecting(id, from),
            r is Some <==> old(self)@.in_status(id, from, from),
            r is Some ==> r->0.deferred == old(self)@.session(id)->0.deferred_params,
    {
        match self.position(id) {
            None => None,
            Some(i) => {
                if self.sessions[i].status != from {
                    return None;
                }
                let deferred = take_deferred(&mut self.sessions[i]);
                proof {
                    lemma_update_distinct(
                        old(self).sessions@,
                        i as int,
                        self.sessions@[i as int],
                    );
                }
                Some(ConnectStart { deferred })
            },
        }
    }

    /// Take the guacd stream from a session for its owner's first WebSocket
    /// connection: the first step. Where it returns parameters, the caller
    /// makes that connection; then `finish_connect` or `mark_connect_failed`
    /// follows, both with `Pending`.
    pub fn take_guacd_stream(&mut self, id: u128) -> (r: Option<ConnectStart>)
        requires
            old(self).wf(),
        ensures
            final(self).wf(),
            final(self)@ == old(self)@.connecting(id, SessionStatus::Pending),
            r is Some <==> old(self)@.in_status(id, SessionStatus::Pending, SessionStatus::Pending),
            r is Some ==> r->0.deferred == old(self)@.session(id)->0.deferred_params,
    {
        self.begin_connect(id, SessionStatus::Pending)
    }

    /// Attempt to reconnect an owner to a disconnected session: the first
    /// step, as in `take_guacd_stream`; `Disconnected` stands for `Pending`.
    pub fn reconnect_session(&mut self, id: u128) -> (r: Option<ConnectStart>)
        requires
            old(self).wf(),
        ensures
            final(self).wf(),
            final(self)@ == old(self)@.connecting(id, SessionStatus::Disconnected),
            r is Some <==> old(self)@.in_status(
                id,
                SessionStatus::Disconnected,
                SessionStatus::Disconnected,
            ),
            r is Some ==> r->0.deferred == old(self)@.session(id)->0.deferred_params,
    {
        self.begin_connect(id, SessionStatus::Disconnected)
    }

    /// The last step of handing the guacd stream to the owner: install the
    /// new connection, if one was made, restore the deferred parameters so
    /// that a later reconnect can use them, and hand out the stream. The
    /// session becomes active. Nothing is handed out where the session left
    /// `from` meanwhile or has no stream.
    pub fn finish_connect(
        &mut self,
        id: u128,
        from: SessionStatus,
        deferred: Option<ConnectionParams>,
        made: Option<(u64, String)>,
        now: Timestamp,
    ) -> (r: Option<u64>)
        requires
            old(self).wf(),
            old(self)@.has_room(1),
            old(self)@.session(id) is Some ==> old(self)@.session(id)->0.active_connections
                < u32::MAX,
        ensures
            final(self).wf(),
            final(self)@ == old(self)@.connected(id, from, deferred, made, now),
            r == if old(self)@.in_status(id, from, from) {
                installed(old(self)@.session(id)->0, deferred, made).guacd_stream
            } else {
                None
            },
    {
        match self.position(id) {
            None => None,
            Some(i) => {
                if self.sessions[i].status != from {
                    return None;
                }
                let stream = install(&mut self.sessions[i], deferred, made);
                proof {
                    lemma_update_distinct(
                        old(self).sessions@,
                        i as int,
                        self.sessions@[i as int],
                    );
                }
                if stream.is_none() {
                    return None;
                }
                self.publish_transition(from, i, now);
                session_active_inc(&mut self.metrics);
                if from == SessionStatus::Disconnected {
                    self.disconnected_at.remove(&id);
                }
                self.owner_connected.insert(id);
                stream
            },
        }
    }

    /// Record that the session's owner holds the guacd stream (the viewer
    /// cap counts viewers only).
    pub fn mark_owner_connected(&mut self, id: u128)
        ensures
            final(self)@ == (ManagerState {
                owner_connected: old(self)@.owner_connected.insert(id),
                ..old(self)@
            }),
    {
        self.owner_connected.insert(id);
    }

    /// Record that the session's owner connection ended.
    pub fn mark_owner_disconnected(&mut self, id: u128)
        ensures
            final(self)@ == old(self)@.owner_gone(id),
    {
        self.owner_connected.remove(&id);
    }

    /// Whether the session's owner currently holds the guacd stream.
    pub fn owner_is_connected(&self, id: u128) -> (r: bool)
        ensures
            r == self@.owner_connected.contains(id),
    {
        self.owner_connected.contains(&id)
    }

    /// Reserve a viewer slot for a share/shadow join: counts viewers only
    /// (the owner's connection is excluded) and rejects at the cap; a cap of
    /// 0 is none. The reservation is the increment.
    pub fn reserve_viewer_slot(&mut self, id: u128, max_viewers: u32) -> (r: Result<
        (),
        SessionError,
    >)
        requires
            old(self).wf(),
            old(self)@.session(id) is Some ==> old(self)@.session(id)->0.active_connections
                < u32::MAX,
        ensures
            final(self).wf(),
            final(self)@ == old(self)@.viewer_added(id, max_viewers),
            join_refusal(old(self)@, id, max_viewers) == match r {
                Ok(_) => None,
                Err(e) => Some(e),
            },
    {
        let i: usize = match self.position(id) {
            Some(i) => i,
            None => return Err(SessionError::NotFound),
        };
        if self.sessions[i].status != SessionStatus::Active {
            return Err(SessionError::NotActive);
        }
        let all: u32 = self.sessions[i].active_connections;
        let viewers: u32 = if self.owner_is_connected(id) && all > 0 {
            all - 1
        } else {
            all
        };
        if max_viewers > 0 && viewers >= max_viewers {
            return Err(SessionError::ViewerLimit { viewers, max: max_viewers });
        }
        set_connections(&mut self.sessions[i], all + 1);
        proof {
            lemma_update_distinct(old(self).sessions@, i as int, self.sessions@[i as int]);
        }
        Ok(())
    }

    /// Join an active session as a viewer: reserves the slot and says what to
    /// join. Where the join then fails, `disconnect_viewer` gives the slot
    /// back.
    pub fn join_session_as_viewer(&mut self, id: u128, max_viewers: u32) -> (r: Result<
        JoinTarget,
        SessionError,
    >)
        requires
            old(self).wf(),
            old(self)@.session(id) is Some ==> old(self)@.session(id)->0.active_connections
                < u32::MAX,
        ensures
            final(self).wf(),
            final(self)@ == old(self)@.viewer_added(id, max_viewers),
            match r {
                Ok(t) => join_refusal(old(self)@, id, max_viewers) is None && ({
                    let s = old(self)@.session(id)->0;
                    t == (JoinTarget {
                        connection_id: s.connection_id,
                        width: s.width,
                        height: s.height,
                    })
                }),
                Err(e) => join_refusal(old(self)@, id, max_viewers) == Some(e),
            },
    {
        let target = match self.position(id) {
            Some(i) => Some(
                JoinTarget {
                    connection_id: self.sessions[i].connection_id.clone(),
                    width: self.sessions[i].width,
                    height: self.sessions[i].height,
                },
            ),
            None => None,
        };
        match self.reserve_viewer_slot(id, max_viewers) {
            Err(e) => Err(e),
            Ok(_) => match target {
                Some(t) => Ok(t),
                None => Err(SessionError::NotFound),
            },
        }
    }

    /// Decrement the connection count when a WebSocket disconnects.
    pub fn disconnect_viewer(&mut self, id: u128)
        requires
            old(self).wf(),
        ensures
            final(self).wf(),
            final(self)@ == match find(old(self)@.sessions, id) {
                Some(i) => old(self)@.with(i, one_viewer_less(old(self)@.sessions[i])),
                None => old(self)@,
            },
    {
        if let Some(i) = self.position(id) {
            let n: u32 = self.sessions[i].active_connections;
            let less: u32 = if n > 0 {
                n - 1
            } else {
                0
            };
            set_connections(&mut self.sessions[i], less);
            proof {
                lemma_update_distinct(old(self).sessions@, i as int, self.sessions@[i as int]);
            }
        }
    }

    /// Terminate a session: it leaves the map, everything that runs for it
    /// is told to stop, and the event feed hears of its end. Returns what it
    /// gave up, or nothing where there is no such session.
    pub fn delete_session(&mut self, id: u128, now: Timestamp) -> (r: Option<Closing>)
        requires
            old(self).wf(),
            old(self)@.has_room(1),
        ensures
            final(self)@ == old(self)@.deleted(id, now),
            final(self).wf(),
            r is Some <==> old(self)@.session(id) is Some,
            r is Some ==> r->0 == ending_of(old(self)@.session(id)->0, old(self).config),
    {
        let i: usize = match self.position(id) {
            Some(i) => i,
            None => return None,
        };
        let was = self.sessions[i].status;
        let (c, r): (bool, u64) = drive_cleanup_settings(&self.config.drive);
        let mut closing = close(&mut self.sessions[i], SessionStatus::Completed, true, c, r);
        closing.cancel = true;
        let ghost mid = self.sessions@;
        proof {
            lemma_update_distinct(old(self).sessions@, i as int, self.sessions@[i as int]);
        }
        self.publish_transition(was, i, now);
        self.sessions.remove(i);
        self.ended_at.remove(&id);
        self.disconnected_at.remove(&id);
        self.owner_connected.remove(&id);
        if was == SessionStatus::Active {
            session_active_dec(&mut self.metrics);
        }
        proof {
            assert(mid.remove(i as int) =~= old(self).sessions@.remove(i as int));
            lemma_remove_distinct(old(self).sessions@, i as int);
        }
        Some(closing)
    }
}

/// Distinct ids stay distinct where one session is replaced by another with
/// its id.
pub proof fn lemma_update_distinct(s: Seq<Session>, i: int, t: Session)
    requires
        distinct_ids(s),
        0 <= i < s.len(),
        t.id == s[i].id,
    ensures
        distinct_ids(s.update(i, t)),
{
    let u = s.update(i, t);
    assert forall|j: int, k: int| 0 <= j < k < u.len() implies u[j].id != u[k].id by {
        assert(s[j].id != s[k].id);
    }
}

/// Distinct ids stay distinct where one session leaves.
pub proof fn lemma_remove_distinct(s: Seq<Session>, i: int)
    requires
        distinct_ids(s),
        0 <= i < s.len(),
    ensures
        distinct_ids(s.remove(i)),
{
    let u = s.remove(i);
    assert forall|j: int, k: int| 0 <= j < k < u.len() implies u[j].id != u[k].id by {
        let a = if j < i {
            j
        } else {
            j + 1
        };
        let b = if k < i {
            k
        } else {
            k + 1
        };
        assert(u[j] == s[a] && u[k] == s[b]);
    }
}

fn set_status(session: &mut Session, status: SessionStatus)
    ensures
        *final(session) == (Session { status, ..*old(session) }),
{
    session.status = status;
}

fn set_connections(session: &mut Session, n: u32)
    ensures
        *final(session) == (Session { active_connections: n, ..*old(session) }),
{
    session.active_connections = n;
}

fn take_deferred(session: &mut Session) -> (r: Option<ConnectionParams>)
    ensures
        *final(session) == (Session { deferred_params: None, ..*old(session) }),
        r == old(session).deferred_params,
{
    session.deferred_params.take()
}

/// A session with a connection that was made for it, if one was, and with
/// its deferred parameters back.
pub open spec fn installed(
    s: Session,
    deferred: Option<ConnectionParams>,
    made: Option<(u64, String)>,
) -> Session {
    match made {
        Some((stream, connection_id)) => Session {
            guacd_stream: Some(stream),
            connection_id,
            deferred_params: deferred,
            ..s
        },
        None => Session { deferred_params: deferred, ..s },
    }
}

/// A session whose owner has the stream.
pub open spec fn handed_out(s: Session) -> Session {
    if s.guacd_stream is Some {
        Session {
            guacd_stream: None,
            status: SessionStatus::Active,
            active_connections: (s.active_connections + 1) as u32,
            ..s
        }
    } else {
        s
    }
}

/// Install a connection and hand out the stream.
fn install(
    session: &mut Session,
    deferred: Option<ConnectionParams>,
    made: Option<(u64, String)>,
) -> (r: Option<u64>)
    requires
        old(session).active_connections < u32::MAX,
    ensures
        *final(session) == handed_out(installed(*old(session), deferred, made)),
        r == installed(*old(session), deferred, made).guacd_stream,
{
    if let Some((stream, connection_id)) = made {
        session.guacd_stream = Some(stream);
        session.connection_id = connection_id;
    }
    session.deferred_params = deferred;
    let stream = session.guacd_stream.take();
    if stream.is_some() {
        session.status = SessionStatus::Active;
        session.active_connections = session.active_connections + 1;
    }
    stream
}

/// A session with one connection less, if it has any.
pub open spec fn one_viewer_less(s: Session) -> Session {
    Session {
        active_connections: if s.active_connections > 0 {
            (s.active_connections - 1) as u32
        } else {
            0
        },
        ..s
    }
}

/// The number of viewers of a session: its connections without the owner's.
pub open spec fn viewers(m: ManagerState, s: Session) -> u32 {
    if m.owner_connected.contains(s.id) && s.active_connections > 0 {
        (s.active_connections - 1) as u32
    } else {
        s.active_connections
    }
}

/// Why a viewer cannot join, if there is a reason.
pub open spec fn join_refusal(m: ManagerState, id: u128, max_viewers: u32) -> Option<
    SessionError,
> {
    match m.session(id) {
        None => Some(SessionError::NotFound),
        Some(s) => if s.status != SessionStatus::Active {
            Some(SessionError::NotActive)
        } else if max_viewers > 0 && viewers(m, s) >= max_viewers {
            Some(SessionError::ViewerLimit { viewers: viewers(m, s), max: max_viewers })
        } else {
            None
        },
    }
}

impl ManagerState {
    /// After a connect failed.
    pub open spec fn connect_failed(
        self,
        id: u128,
        from: SessionStatus,
        now: Timestamp,
    ) -> ManagerState {
        if self.in_status(id, from, from) {
            let i = find(self.sessions, id)->0;
            let t = Session { status: SessionStatus::Error, ..self.sessions[i] };
            self.with(i, t).transitioned(from, t, now)
        } else {
            self
        }
    }

    /// While a connect for the owner runs.
    pub open spec fn connecting(self, id: u128, from: SessionStatus) -> ManagerState {
        if self.in_status(id, from, from) {
            let i = find(self.sessions, id)->0;
            self.with(i, Session { deferred_params: None, ..self.sessions[i] })
        } else {
            self
        }
    }

    /// After the connect for the owner.
    pub open spec fn connected(
        self,
        id: u128,
        from: SessionStatus,
        deferred: Option<ConnectionParams>,
        made: Option<(u64, String)>,
        now: Timestamp,
    ) -> ManagerState {
        if self.in_status(id, from, from) {
            let i = find(self.sessions, id)->0;
            let s = installed(self.sessions[i], deferred, made);
            let t = handed_out(s);
            if s.guacd_stream is None {
                self.with(i, t)
            } else {
                let m = self.with(i, t).transitioned(from, t, now).active_up();
                ManagerState {
                    owner_connected: m.owner_connected.insert(id),
                    disconnected_at: if from == SessionStatus::Disconnected {
                        m.disconnected_at.remove(id)
                    } else {
                        m.disconnected_at
                    },
                    ..m
                }
            }
        } else {
            self
        }
    }

    /// After a viewer asked for a slot.
    pub open spec fn viewer_added(self, id: u128, max_viewers: u32) -> ManagerState {
        if join_refusal(self, id, max_viewers) is None {
            let i = find(self.sessions, id)->0;
            let s = self.sessions[i];
            self.with(
                i,
                Session { active_connections: (s.active_connections + 1) as u32, ..s },
            )
        } else {
            self
        }
    }
}

// ── Reaping ──
/// A session that is no longer wanted: terminal for longer than `delay`
/// seconds, from its end or, where none was recorded, from its creation.
pub open spec fn stale(
    s: Session,
    ended_at: Map<u128, Timestamp>,
    delay: u64,
    now: Timestamp,
) -> bool {
    s.status.terminal() && now.ticks() - since(s, ended_at).ticks() > delay * 1_000_000_000
}

/// A disconnected session whose reconnect window of `delay` seconds is over,
/// from the disconnect or, where none was recorded, from its creation.
pub open spec fn past_window(
    s: Session,
    disconnected_at: Map<u128, Timestamp>,
    delay: u64,
    now: Timestamp,
) -> bool {
    s.status == SessionStatus::Disconnected && now.ticks() - since(s, disconnected_at).ticks()
        > delay * 1_000_000_000
}

/// The time recorded for a session, or its creation.
pub open spec fn since(s: Session, times: Map<u128, Timestamp>) -> Timestamp {
    if times.contains_key(s.id) {
        times[s.id]
    } else {
        s.created_at
    }
}

/// No id occurs twice.
pub open spec fn no_repeats(ids: Seq<u128>) -> bool {
    forall|i: int, j: int| 0 <= i < j < ids.len() ==> ids[i] != ids[j]
}

/// Whether a session that `p` holds of has the id.
pub open spec fn has_listed(s: Seq<Session>, p: spec_fn(Session) -> bool, id: u128) -> bool {
    exists|i: int| 0 <= i < s.len() && (#[trigger] s[i]).id == id && p(s[i])
}

/// `ids_where` lists exactly the sessions that `p` holds of, each once.
pub proof fn lemma_ids_where(s: Seq<Session>, p: spec_fn(Session) -> bool)
    ensures
        ids_where(s, p).len() <= s.len(),
        forall|k: int|
            0 <= k < ids_where(s, p).len() ==> has_listed(s, p, #[trigger] ids_where(s, p)[k]),
        forall|i: int|
            0 <= i < s.len() && p(#[trigger] s[i]) ==> ids_where(s, p).contains(s[i].id),
        distinct_ids(s) ==> no_repeats(ids_where(s, p)),
    decreases s.len(),
{
    if s.len() > 0 {
        let front = s.drop_last();
        let f = ids_where(front, p);
        let all = ids_where(s, p);
        lemma_ids_where(front, p);
        assert forall|k: int| 0 <= k < all.len() implies has_listed(s, p, #[trigger] all[k]) by {
            if k < f.len() {
                assert(all[k] == f[k]);
                assert(has_listed(front, p, f[k]));
                let i = choose|i: int|
                    0 <= i < front.len() && (#[trigger] front[i]).id == f[k] && p(front[i]);
                assert(s[i] == front[i]);
            } else {
                assert(s[s.len() - 1].id == all[k]);
            }
        }
        assert forall|i: int| 0 <= i < s.len() && p(#[trigger] s[i]) implies all.contains(
            s[i].id,
        ) by {
            if i < front.len() {
                assert(front[i] == s[i]);
                let k = choose|k: int| 0 <= k < f.len() && f[k] == s[i].id;
                assert(all[k] == s[i].id);
            } else {
                assert(all[all.len() - 1] == s[i].id);
            }
        }
        if distinct_ids(s) {
            assert forall|i: int, j: int| 0 <= i < j < front.len() implies front[i].id
                != front[j].id by {
                assert(s[i].id != s[j].id);
            }
            assert forall|i: int, j: int| 0 <= i < j < all.len() implies all[i] != all[j] by {
                if j < f.len() {
                    assert(f[i] != f[j]);
                } else {
                    assert(all[i] == f[i]);
                    assert(has_listed(front, p, f[i]));
                    let k = choose|k: int|
                        0 <= k < front.len() && (#[trigger] front[k]).id == f[i] && p(front[k]);
                    assert(s[k].id != s[s.len() - 1].id);
                }
            }
        }
    }
}

/// Every other session is found as before once one has left.
pub proof fn lemma_find_after_remove(s: Seq<Session>, i: int, id: u128)
    requires
        distinct_ids(s),
        0 <= i < s.len(),
    ensures
        id == s[i].id ==> find(s.remove(i), id) is None,
        id != s[i].id ==> match find(s, id) {
            Some(k) => find(s.remove(i), id) == Some(
                if k < i {
                    k
                } else {
                    k - 1
                },
            ) && s.remove(i)[find(s.remove(i), id)->0] == s[k],
            None => find(s.remove(i), id) is None,
        },
{
    let u = s.remove(i);
    lemma_find(s, id);
    lemma_find(u, id);
    lemma_remove_distinct(s, i);
    match find(u, id) {
        Some(k) => {
            let a = if k < i {
                k
            } else {
                k + 1
            };
            assert(u[k] == s[a]);
            if id == s[i].id {
                if a < i {
                    assert(s[a].id != s[i].id);
                } else {
                    assert(s[i].id != s[a].id);
                }
            } else {
                match find(s, id) {
                    Some(b) => {
                        if a < b {
                            assert(s[a].id != s[b].id);
                        } else if b < a {
                            assert(s[b].id != s[a].id);
                        }
                    },
                    None => {},
                }
            }
        },
        None => {
            match find(s, id) {
                Some(k) => {
                    if k != i {
                        let b = if k < i {
                            k
                        } else {
                            k - 1
                        };
                        assert(u[b] == s[k]);
                    }
                },
                None => {},
            }
        },
    }
}

/// What deleting one session does to the others: nothing.
pub proof fn lemma_deleted(m: ManagerState, id: u128, other: u128, now: Timestamp)
    requires
        m.wf(),
        m.has_room(1),
    ensures
        m.deleted(id, now).wf(),
        m.deleted(id, now).events.next_id <= m.events.next_id + 1,
        m.deleted(id, now).session(id) is None,
        other != id ==> m.deleted(id, now).session(other) == m.session(other),
{
    lemma_find(m.sessions, id);
    match find(m.sessions, id) {
        Some(i) => {
            lemma_remove_distinct(m.sessions, i);
            lemma_find_after_remove(m.sessions, i, id);
            lemma_find_after_remove(m.sessions, i, other);
        },
        None => {},
    }
}

/// Deleting a list of sessions leaves the others as they were.
pub proof fn lemma_deleted_all(m: ManagerState, ids: Seq<u128>, other: u128, now: Timestamp)
    requires
        m.wf(),
        m.has_room(ids.len() as int),
    ensures
        m.deleted_all(ids, now).wf(),
        m.deleted_all(ids, now).events.next_id <= m.events.next_id + ids.len(),
        ids.contains(other) ==> m.deleted_all(ids, now).session(other) is None,
        !ids.contains(other) ==> m.deleted_all(ids, now).session(other) == m.session(other),
    decreases ids.len(),
{
    if ids.len() > 0 {
        let front = ids.drop_last();
        lemma_deleted_all(m, front, other, now);
        let n = m.deleted_all(front, now);
        lemma_deleted(n, ids.last(), other, now);
        if ids.contains(other) {
            let k = choose|k: int| 0 <= k < ids.len() && ids[k] == other;
            if k < front.len() {
                assert(front[k] == other);
            }
        } else {
            assert(ids[ids.len() - 1] != other);
            assert forall|k: int| 0 <= k < front.len() implies front[k] != other by {
                assert(ids[k] == front[k]);
            }
        }
    }
}

/// What a reaper reports of a session.
pub open spec fn reaped_as(r: Reaped, s: Session, config: Config, now: Timestamp) -> bool {
    &&& r.id == s.id
    &&& r.duration_secs == elapsed_seconds(s.created_at, now)
    &&& r.recording == s.recording_enabled
    &&& r.closing == ending_of(s, config)
}

/// Whether reaping `ids` turned `before` into `after` and reported `out`.
pub open spec fn reaped_all(
    before: ManagerState,
    after: ManagerState,
    ids: Seq<u128>,
    out: Seq<Reaped>,
    config: Config,
    now: Timestamp,
) -> bool {
    &&& after == before.deleted_all(ids, now)
    &&& out.len() == ids.len()
    &&& forall|k: int|
        0 <= k < ids.len() ==> before.session(ids[k]) is Some && reaped_as(
            #[trigger] out[k],
            before.session(ids[k])->0,
            config,
            now,
        )
}

impl SessionManager {
    /// End each of the listed sessions in turn.
    pub(crate) fn reap(&mut self, ids: &Vec<u128>, now: Timestamp) -> (r: Vec<Reaped>)
        requires
            old(self).wf(),
            old(self)@.has_room(ids@.len() as int),
            no_repeats(ids@),
            forall|k: int| 0 <= k < ids@.len() ==> old(self)@.session(#[trigger] ids@[k]) is Some,
        ensures
            final(self).config == old(self).config,
            final(self).wf(),
            reaped_all(old(self)@, final(self)@, ids@, r@, old(self).config, now),
    {
        let mut out: Vec<Reaped> = Vec::new();
        let mut k: usize = 0;
        proof {
            assert(ids@.take(0) =~= Seq::empty());
        }
        while k < ids.len()
            invariant
                k <= ids@.len(),
                old(self).wf(),
                old(self)@.has_room(ids@.len() as int),
                no_repeats(ids@),
                forall|k: int|
                    0 <= k < ids@.len() ==> old(self)@.session(#[trigger] ids@[k]) is Some,
                self.config == old(self).config,
                self@ == old(self)@.deleted_all(ids@.take(k as int), now),
                self.wf(),
                out@.len() == k,
                forall|j: int|
                    0 <= j < k ==> reaped_as(
                        #[trigger] out@[j],
                        old(self)@.session(ids@[j])->0,
                        old(self).config,
                        now,
                    ),
            decreases ids@.len() - k,
        {
            let id: u128 = ids[k];
            proof {
                let front = ids@.take(k as int);
                assert forall|j: int| 0 <= j < front.len() implies front[j] != id by {
                    assert(ids@[j] != ids@[k as int]);
                }
                lemma_deleted_all(old(self)@, front, id, now);
                assert(self@.session(id) == old(self)@.session(id));
                assert(ids@.take(k + 1).drop_last() =~= front);
                assert(old(self)@.session(ids@[k as int]) is Some);
            }
            if let Some(i) = self.position(id) {
                let created_at = self.sessions[i].created_at;
                let recording = self.sessions[i].recording_enabled;
                let duration_secs: u64 = now.seconds_since(&created_at);
                if let Some(closing) = self.delete_session(id, now) {
                    out.push(Reaped { id, duration_secs, recording, closing });
                }
            }
            k = k + 1;
        }
        proof {
            assert(ids@.take(k as int) =~= ids@);
        }
        out
    }

    /// Reap sessions that have exceeded the maximum duration; a maximum of 0
    /// disables this. The reports are for the session history, under the
    /// status "max-duration".
    pub fn reap_expired_sessions(&mut self, now: Timestamp) -> (r: Vec<Reaped>)
        requires
            old(self).wf(),
            old(self)@.has_room(old(self).sessions@.len() as int),
        ensures
            final(self).config == old(self).config,
            final(self).wf(),
            old(self).config.session_max_duration_secs == 0 ==> final(self)@ == old(self)@
                && r@.len() == 0,
            old(self).config.session_max_duration_secs != 0 ==> reaped_all(
                old(self)@,
                final(self)@,
                ids_where(
                    old(self).sessions@,
                    |s: Session| overdue(s, old(self).config.session_max_duration_secs, now),
                ),
                r@,
                old(self).config,
                now,
            ),
    {
        let max: u64 = self.config.session_max_duration_secs;
        if max == 0 {
            return Vec::new();
        }
        let ghost p = |s: Session| overdue(s, max, now);
        let mut ids: Vec<u128> = Vec::new();
        let mut i: usize = 0;
        while i < self.sessions.len()
            invariant
                i <= self.sessions@.len(),
                *self == *old(self),
                p == (|s: Session| overdue(s, max, now)),
                ids@ == ids_where(self.sessions@.take(i as int), p),
            decreases self.sessions@.len() - i,
        {
            proof {
                assert(self.sessions@.take(i + 1).drop_last() =~= self.sessions@.take(i as int));
            }
            let s = &self.sessions[i];
            if s.status.is_live() && now.exceeds(&s.created_at, max) {
                ids.push(s.id);
            }
            i = i + 1;
        }
        proof {
            assert(self.sessions@.take(i as int) =~= self.sessions@);
            lemma_ids_where(self.sessions@, p);
            lemma_listed_are_there(self@, p);
        }
        self.reap(&ids, now)
    }

    /// Reap sessions idle past the configured timeout; a timeout of 0
    /// disables this. The reports are for the session history, under the
    /// status "idle-timeout".
    pub fn reap_idle_sessions(&mut self, now: Timestamp) -> (r: Vec<Reaped>)
        requires
            old(self).wf(),
            old(self)@.has_room(old(self).sessions@.len() as int),
            old(self).config.session_idle_timeout_secs <= i64::MAX,
        ensures
            final(self).config == old(self).config,
            final(self).wf(),
            old(self).config.session_idle_timeout_secs == 0 ==> final(self)@ == old(self)@
                && r@.len() == 0,
            old(self).config.session_idle_timeout_secs != 0 ==> reaped_all(
                old(self)@,
                final(self)@,
                ids_where(
                    old(self).sessions@,
                    |s: Session| idle(s, old(self).config.session_idle_timeout_secs as i64, now),
                ),
                r@,
                old(self).config,
                now,
            ),
    {
        let timeout: u64 = self.config.session_idle_timeout_secs;
        if timeout == 0 {
            return Vec::new();
        }
        let ids = self.get_idle_sessions(timeout as i64, now);
        proof {
            let p = |s: Session| idle(s, timeout as i64, now);
            lemma_ids_where(self.sessions@, p);
            lemma_listed_are_there(self@, p);
        }
        self.reap(&ids, now)
    }

    /// The sessions whose last activity is more than `idle_timeout_secs`
    /// ago. Only active or pending sessions count.
    pub fn get_idle_sessions(&self, idle_timeout_secs: i64, now: Timestamp) -> (r: Vec<u128>)
        ensures
            r@ == ids_where(self.sessions@, |s: Session| idle(s, idle_timeout_secs, now)),
    {
        let ghost p = |s: Session| idle(s, idle_timeout_secs, now);
        let mut ids: Vec<u128> = Vec::new();
        let mut i: usize = 0;
        while i < self.sessions.len()
            invariant
                i <= self.sessions@.len(),
                p == (|s: Session| idle(s, idle_timeout_secs, now)),
                ids@ == ids_where(self.sessions@.take(i as int), p),
            decreases self.sessions@.len() - i,
        {
            proof {
                assert(self.sessions@.take(i + 1).drop_last() =~= self.sessions@.take(i as int));
            }
            let s = &self.sessions[i];
            let last: i64 = s.last_activity_secs();
            if s.status.is_live() && last > 0 && (now.secs as i128) - (last as i128) > (
            idle_timeout_secs as i128) {
                ids.push(s.id);
            }
            i = i + 1;
        }
        proof {
            assert(self.sessions@.take(i as int) =~= self.sessions@);
        }
        ids
    }

    /// The sessions that have been alive for more than `max_duration_secs`
    /// whole seconds. Only active or pending sessions count.
    pub fn get_expired_sessions(&self, max_duration_secs: i64, now: Timestamp) -> (r: Vec<u128>)
        ensures
            r@ == ids_where(
                self.sessions@,
                |s: Session| lived_longer(s, max_duration_secs, now),
            ),
    {
        let ghost p = |s: Session| lived_longer(s, max_duration_secs, now);
        let mut ids: Vec<u128> = Vec::new();
        let mut i: usize = 0;
        while i < self.sessions.len()
            invariant
                i <= self.sessions@.len(),
                p == (|s: Session| lived_longer(s, max_duration_secs, now)),
                ids@ == ids_where(self.sessions@.take(i as int), p),
            decreases self.sessions@.len() - i,
        {
            proof {
                assert(self.sessions@.take(i + 1).drop_last() =~= self.sessions@.take(i as int));
            }
            let s = &self.sessions[i];
            let long: bool = now.whole_seconds_exceed(&s.created_at, max_duration_secs);
            if s.status.is_live() && long {
                ids.push(s.id);
            }
            i = i + 1;
        }
        proof {
            assert(self.sessions@.take(i as int) =~= self.sessions@);
        }
        ids
    }
}

/// Every listed id is the id of a session.
pub proof fn lemma_listed_are_there(m: ManagerState, p: spec_fn(Session) -> bool)
    ensures
        forall|k: int|
            0 <= k < ids_where(m.sessions, p).len() ==> m.session(
                #[trigger] ids_where(m.sessions, p)[k],
            ) is Some,
{
    let ids = ids_where(m.sessions, p);
    lemma_ids_where(m.sessions, p);
    assert forall|k: int| 0 <= k < ids.len() implies m.session(#[trigger] ids[k]) is Some by {
        assert(has_listed(m.sessions, p, ids[k]));
        let i = choose|i: int|
            0 <= i < m.sessions.len() && (#[trigger] m.sessions[i]).id == ids[k] && p(
                m.sessions[i],
            );
        lemma_find(m.sessions, ids[k]);
    }
}

/// Once the sessions that `p` holds of are reaped, none of them is left, and
/// every other session is there as it was.
pub proof fn law_reaped_are_gone(
    m: ManagerState,
    p: spec_fn(Session) -> bool,
    id: u128,
    now: Timestamp,
)
    requires
        m.wf(),
        m.has_room(m.sessions.len() as int),
    ensures
        m.deleted_all(ids_where(m.sessions, p), now).session(id) == match m.session(id) {
            Some(s) => if p(s) {
                None
            } else {
                Some(s)
            },
            None => None,
        },
{
    let ids = ids_where(m.sessions, p);
    lemma_ids_where(m.sessions, p);
    lemma_deleted_all(m, ids, id, now);
    lemma_find(m.sessions, id);
    if ids.contains(id) {
        let k = choose|k: int| 0 <= k < ids.len() && ids[k] == id;
        assert(has_listed(m.sessions, p, ids[k]));
        let i = choose|i: int|
            0 <= i < m.sessions.len() && (#[trigger] m.sessions[i]).id == ids[k] && p(
                m.sessions[i],
            );
        let f = find(m.sessions, id)->0;
        if f < i {
            assert(m.sessions[f].id != m.sessions[i].id);
        } else if i < f {
            assert(m.sessions[i].id != m.sessions[f].id);
        }
    } else {
        match find(m.sessions, id) {
            Some(f) => {
                if p(m.sessions[f]) {
                    assert(ids.contains(m.sessions[f].id));
                }
            },
            None => {},
        }
    }
}

// ── Cleanup of ended sessions ──
fn finalize(session: &mut Session) -> (r: Option<String>)
    ensures
        *final(session) == finalized_session(*old(session)),
        r == old(session).container_id,
{
    if session.status == SessionStatus::Disconnected {
        session.status = SessionStatus::Expired;
    }
    session.container_id.take()
}

/// A finalized session: expired where it was disconnected, and without its
/// container.
pub open spec fn finalized_session(s: Session) -> Session {
    Session {
        status: if s.status == SessionStatus::Disconnected {
            SessionStatus::Expired
        } else {
            s.status
        },
        container_id: None,
        ..s
    }
}

/// What is reported of a finalized session.
pub open spec fn finalized_as(r: Finalized, s: Session, now: Timestamp) -> bool {
    &&& r.id == s.id
    &&& r.duration_secs == elapsed_seconds(s.created_at, now)
    &&& r.recording == s.recording_enabled
    &&& r.container_id == s.container_id
}

/// What finalizing one session does to the others: nothing.
proof fn lemma_finalized(m: ManagerState, id: u128, other: u128, now: Timestamp)
    requires
        m.wf(),
        m.has_room(1),
    ensures
        m.finalized(id, now).wf(),
        m.finalized(id, now).events.next_id <= m.events.next_id + 1,
        m.finalized(id, now).sessions.len() == m.sessions.len(),
        other != id ==> m.finalized(id, now).session(other) == m.session(other),
        m.finalized(id, now).session(other) is Some <==> m.session(other) is Some,
{
    lemma_find(m.sessions, id);
    match find(m.sessions, id) {
        Some(i) => {
            let t = finalized_session(m.sessions[i]);
            lemma_update_distinct(m.sessions, i, t);
            lemma_find_after_update(m.sessions, i, t, other);
            lemma_find(m.sessions, other);
        },
        None => {},
    }
}

/// Sessions are found where they were once one is replaced under its id.
pub proof fn lemma_find_after_update(s: Seq<Session>, i: int, t: Session, id: u128)
    requires
        0 <= i < s.len(),
        t.id == s[i].id,
    ensures
        find(s.update(i, t), id) == find(s, id),
{
    let u = s.update(i, t);
    lemma_find(s, id);
    lemma_find(u, id);
    match find(s, id) {
        Some(k) => {
            assert forall|j: int| 0 <= j < k implies (#[trigger] u[j]).id != id by {
                assert(s[j].id != id);
            }
            lemma_find_is(u, id, k);
        },
        None => {
            match find(u, id) {
                Some(k) => {
                    assert(s[k].id == id);
                },
                None => {},
            }
        },
    }
}

/// Finalizing a list of sessions leaves the others as they were.
proof fn lemma_finalized_all(m: ManagerState, ids: Seq<u128>, other: u128, now: Timestamp)
    requires
        m.wf(),
        m.has_room(ids.len() as int),
    ensures
        m.finalized_all(ids, now).wf(),
        m.finalized_all(ids, now).events.next_id <= m.events.next_id + ids.len(),
        m.finalized_all(ids, now).sessions.len() == m.sessions.len(),
        !ids.contains(other) ==> m.finalized_all(ids, now).session(other) == m.session(other),
    decreases ids.len(),
{
    if ids.len() > 0 {
        let front = ids.drop_last();
        lemma_finalized_all(m, front, other, now);
        lemma_finalized(m.finalized_all(front, now), ids.last(), other, now);
        if !ids.contains(other) {
            assert(ids[ids.len() - 1] != other);
            assert forall|k: int| 0 <= k < front.len() implies front[k] != other by {
                assert(ids[k] == front[k]);
            }
        }
    }
}

impl SessionManager {
    /// Expire each of the listed sessions in turn and let go of its
    /// container.
    fn finalize_each(&mut self, ids: &Vec<u128>, now: Timestamp) -> (r: Vec<Finalized>)
        requires
            old(self).wf(),
            old(self)@.has_room(ids@.len() as int),
            no_repeats(ids@),
            forall|k: int| 0 <= k < ids@.len() ==> old(self)@.session(#[trigger] ids@[k]) is Some,
        ensures
            final(self).wf(),
            final(self)@ == old(self)@.finalized_all(ids@, now),
            r@.len() == ids@.len(),
            forall|k: int|
                0 <= k < ids@.len() ==> finalized_as(
                    #[trigger] r@[k],
                    old(self)@.session(ids@[k])->0,
                    now,
                ),
    {
        let mut out: Vec<Finalized> = Vec::new();
        let mut k: usize = 0;
        proof {
            assert(ids@.take(0) =~= Seq::empty());
        }
        while k < ids.len()
            invariant
                k <= ids@.len(),
                old(self).wf(),
                old(self)@.has_room(ids@.len() as int),
                no_repeats(ids@),
                forall|k: int|
                    0 <= k < ids@.len() ==> old(self)@.session(#[trigger] ids@[k]) is Some,
                self.config == old(self).config,
                self@ == old(self)@.finalized_all(ids@.take(k as int), now),
                self.wf(),
                out@.len() == k,
                forall|j: int|
                    0 <= j < k ==> finalized_as(
                        #[trigger] out@[j],
                        old(self)@.session(ids@[j])->0,
                        now,
                    ),
            decreases ids@.len() - k,
        {
            let id: u128 = ids[k];
            let ghost m = self@;
            proof {
                let front = ids@.take(k as int);
                assert forall|j: int| 0 <= j < front.len() implies front[j] != id by {
                    assert(ids@[j] != ids@[k as int]);
                }
                lemma_finalized_all(old(self)@, front, id, now);
                assert(self@.session(id) == old(self)@.session(id));
                assert(ids@.take(k + 1).drop_last() =~= front);
                assert(old(self)@.session(ids@[k as int]) is Some);
            }
            if let Some(i) = self.position(id) {
                let was = self.sessions[i].status;
                let recording = self.sessions[i].recording_enabled;
                let created_at = self.sessions[i].created_at;
                let duration_secs: u64 = now.seconds_since(&created_at);
                let container_id = finalize(&mut self.sessions[i]);
                proof {
                    lemma_update_distinct(m.sessions, i as int, self.sessions@[i as int]);
                }
                self.publish_transition(was, i, now);
                out.push(Finalized { id, duration_secs, recording, container_id });
            }
            k = k + 1;
        }
        proof {
            assert(ids@.take(k as int) =~= ids@);
        }
        out
    }

    /// Take each of the listed sessions out of the map, with all that is
    /// kept beside it.
    fn remove_each(&mut self, ids: &Vec<u128>)
        requires
            old(self).wf(),
        ensures
            final(self).wf(),
            final(self)@ == old(self)@.without_all(ids@),
    {
        let mut k: usize = 0;
        proof {
            assert(ids@.take(0) =~= Seq::empty());
        }
        while k < ids.len()
            invariant
                k <= ids@.len(),
                self.config == old(self).config,
                self@ == old(self)@.without_all(ids@.take(k as int)),
                self.wf(),
            decreases ids@.len() - k,
        {
            let id: u128 = ids[k];
            let ghost m = self@;
            proof {
                assert(ids@.take(k + 1).drop_last() =~= ids@.take(k as int));
            }
            if let Some(i) = self.position(id) {
                proof {
                    lemma_remove_distinct(m.sessions, i as int);
                }
                self.sessions.remove(i);
            }
            self.ended_at.remove(&id);
            self.disconnected_at.remove(&id);
            self.owner_connected.remove(&id);
            k = k + 1;
        }
        proof {
            assert(ids@.take(k as int) =~= ids@);
        }
    }

    /// Remove sessions that have been in a terminal state for longer than the
    /// cleanup delay, and finalize disconnected sessions past the reconnect
    /// window. A disconnected session can be reconnected until the delay has
    /// passed since the disconnect; then it expires, its container is let go,
    /// and it is removed too. The reports are for the session history, under
    /// the status "expired"; the number counts all removed sessions.
    ///
    /// Retained credentials past their end leave memory in the same round; the
    /// keys of the others come back, for `drop_revoked_credentials` once their
    /// auth sessions have been looked up.
    pub fn reap_completed_sessions(&mut self, now: Timestamp) -> (r: (
        Vec<Finalized>,
        usize,
        Vec<String>,
    ))
        requires
            old(self).wf(),
            old(self)@.has_room(old(self).sessions@.len() as int),
        ensures
            final(self).config == old(self).config,
            final(self).wf(),
            ({
                let delay = old(self).config.session_cleanup_delay_secs;
                let ended = ids_where(
                    old(self).sessions@,
                    |s: Session| stale(s, old(self)@.ended_at, delay, now),
                );
                let lapsed = ids_where(
                    old(self).sessions@,
                    |s: Session| past_window(s, old(self)@.disconnected_at, delay, now),
                );
                &&& final(self)@ == old(self)@.finalized_all(lapsed, now).without_all(
                    ended + lapsed,
                ).pruned(now)
                &&& final(self)@.credentials == unexpired(old(self)@.credentials, now)
                &&& r.2@.len() == final(self)@.credentials.len()
                &&& forall|i: int|
                    0 <= i < r.2@.len() ==> (#[trigger] r.2@[i])@ == final(self)@.credentials[i].0
                &&& r.1 == ended.len() + lapsed.len()
                &&& r.0@.len() == lapsed.len()
                &&& forall|k: int|
                    0 <= k < lapsed.len() ==> finalized_as(
                        #[trigger] r.0@[k],
                        old(self)@.session(lapsed[k])->0,
                        now,
                    )
            }),
    {
        let delay: u64 = self.config.session_cleanup_delay_secs;
        let ghost p = |s: Session| stale(s, old(self)@.ended_at, delay, now);
        let ghost q = |s: Session| past_window(s, old(self)@.disconnected_at, delay, now);
        let mut ended: Vec<u128> = Vec::new();
        let mut lapsed: Vec<u128> = Vec::new();
        let mut i: usize = 0;
        while i < self.sessions.len()
            invariant
                i <= self.sessions@.len(),
                *self == *old(self),
                p == (|s: Session| stale(s, old(self)@.ended_at, delay, now)),
                q == (|s: Session| past_window(s, old(self)@.disconnected_at, delay, now)),
                ended@ == ids_where(self.sessions@.take(i as int), p),
                lapsed@ == ids_where(self.sessions@.take(i as int), q),
                ended@.len() + lapsed@.len() <= i,
            decreases self.sessions@.len() - i,
        {
            proof {
                assert(self.sessions@.take(i + 1).drop_last() =~= self.sessions@.take(i as int));
            }
            let s = &self.sessions[i];
            if s.status.is_terminal() {
                let start = match self.ended_at.get(&s.id) {
                    Some(t) => *t,
                    None => s.created_at,
                };
                if now.exceeds(&start, delay) {
                    ended.push(s.id);
                }
            } else if s.status == SessionStatus::Disconnected {
                let start = match self.disconnected_at.get(&s.id) {
                    Some(t) => *t,
                    None => s.created_at,
                };
                if now.exceeds(&start, delay) {
                    lapsed.push(s.id);
                }
            }
            i = i + 1;
        }
        proof {
            assert(self.sessions@.take(i as int) =~= self.sessions@);
            lemma_ids_where(self.sessions@, q);
            lemma_listed_are_there(self@, q);
        }
        let out = self.finalize_each(&lapsed, now);
        let total: usize = ended.len() + lapsed.len();
        proof {
            lemma_removing_keeps_the_rest(self@, ended@ + lapsed@);
            lemma_finalizing_keeps_the_rest(old(self)@, lapsed@, now);
        }
        ended.append(&mut lapsed);
        self.remove_each(&ended);
        let keys = self.prune_session_credentials(now);
        (out, total, keys)
    }
}

proof fn lemma_removing_keeps_the_rest(m: ManagerState, ids: Seq<u128>)
    ensures
        m.without_all(ids).credentials == m.credentials,
        m.without_all(ids).config == m.config,
    decreases ids.len(),
{
    if ids.len() > 0 {
        lemma_removing_keeps_the_rest(m, ids.drop_last());
    }
}

proof fn lemma_finalizing_keeps_the_rest(m: ManagerState, ids: Seq<u128>, now: Timestamp)
    ensures
        m.finalized_all(ids, now).credentials == m.credentials,
        m.finalized_all(ids, now).config == m.config,
    decreases ids.len(),
{
    if ids.len() > 0 {
        lemma_finalizing_keeps_the_rest(m, ids.drop_last(), now);
    }
}

/// What taking one session out does to the others: nothing.
proof fn lemma_without(m: ManagerState, id: u128, other: u128)
    requires
        m.wf(),
    ensures
        m.without(id).wf(),
        m.without(id).session(id) is None,
        other != id ==> m.without(id).session(other) == m.session(other),
{
    lemma_find(m.sessions, id);
    match find(m.sessions, id) {
        Some(i) => {
            lemma_remove_distinct(m.sessions, i);
            lemma_find_after_remove(m.sessions, i, id);
            lemma_find_after_remove(m.sessions, i, other);
        },
        None => {},
    }
}

proof fn lemma_without_all(m: ManagerState, ids: Seq<u128>, other: u128)
    requires
        m.wf(),
    ensures
        m.without_all(ids).wf(),
        ids.contains(other) ==> m.without_all(ids).session(other) is None,
        !ids.contains(other) ==> m.without_all(ids).session(other) == m.session(other),
    decreases ids.len(),
{
    if ids.len() > 0 {
        let front = ids.drop_last();
        lemma_without_all(m, front, other);
        lemma_without(m.without_all(front), ids.last(), other);
        if ids.contains(other) {
            let k = choose|k: int| 0 <= k < ids.len() && ids[k] == other;
            if k < front.len() {
                assert(front[k] == other);
            }
        } else {
            assert(ids[ids.len() - 1] != other);
            assert forall|k: int| 0 <= k < front.len() implies front[k] != other by {
                assert(ids[k] == front[k]);
            }
        }
    }
}

/// Cleanup removes exactly the sessions that are stale or past their
/// reconnect window; every other session, a disconnected one within its
/// window among them, is there as it was. Of the retained credentials exactly
/// those within their time are left.
pub proof fn law_cleanup_is_exact(m: ManagerState, id: u128, delay: u64, now: Timestamp)
    requires
        m.wf(),
        m.has_room(m.sessions.len() as int),
    ensures
        ({
            let ended = ids_where(m.sessions, |s: Session| stale(s, m.ended_at, delay, now));
            let lapsed = ids_where(
                m.sessions,
                |s: Session| past_window(s, m.disconnected_at, delay, now),
            );
            let after = m.finalized_all(lapsed, now).without_all(ended + lapsed).pruned(now);
            &&& after.credentials == unexpired(m.credentials, now)
            &&& after.session(id) == match m.session(id) {
                Some(s) => if stale(s, m.ended_at, delay, now) || past_window(
                    s,
                    m.disconnected_at,
                    delay,
                    now,
                ) {
                    None
                } else {
                    Some(s)
                },
                None => None,
            }
        }),
{
    let p = |s: Session| stale(s, m.ended_at, delay, now);
    let q = |s: Session| past_window(s, m.disconnected_at, delay, now);
    let ended = ids_where(m.sessions, p);
    let lapsed = ids_where(m.sessions, q);
    lemma_ids_where(m.sessions, p);
    lemma_ids_where(m.sessions, q);
    lemma_listed_exactly(m, p, id);
    lemma_listed_exactly(m, q, id);
    lemma_finalized_all(m, lapsed, id, now);
    lemma_without_all(m.finalized_all(lapsed, now), ended + lapsed, id);
    lemma_removing_keeps_the_rest(m.finalized_all(lapsed, now), ended + lapsed);
    lemma_finalizing_keeps_the_rest(m, lapsed, now);
    let both = ended + lapsed;
    if ended.contains(id) {
        let k = choose|k: int| 0 <= k < ended.len() && ended[k] == id;
        assert(both[k] == id);
    }
    if lapsed.contains(id) {
        let k = choose|k: int| 0 <= k < lapsed.len() && lapsed[k] == id;
        assert(both[ended.len() + k] == id);
    }
    if both.contains(id) {
        let k = choose|k: int| 0 <= k < both.len() && both[k] == id;
        if k < ended.len() {
            assert(ended[k] == id);
        } else {
            assert(lapsed[k - ended.len()] == id);
        }
    }
}

/// An id is listed exactly where its session has the property.
proof fn lemma_listed_exactly(m: ManagerState, p: spec_fn(Session) -> bool, id: u128)
    requires
        m.wf(),
    ensures
        ids_where(m.sessions, p).contains(id) <==> m.session(id) is Some && p(m.session(id)->0),
{
    let ids = ids_where(m.sessions, p);
    lemma_ids_where(m.sessions, p);
    lemma_find(m.sessions, id);
    if ids.contains(id) {
        let k = choose|k: int| 0 <= k < ids.len() && ids[k] == id;
        assert(has_listed(m.sessions, p, ids[k]));
        let i = choose|i: int|
            0 <= i < m.sessions.len() && (#[trigger] m.sessions[i]).id == ids[k] && p(
                m.sessions[i],
            );
        let f = find(m.sessions, id)->0;
        if f < i {
            assert(m.sessions[f].id != m.sessions[i].id);
        } else if i < f {
            assert(m.sessions[i].id != m.sessions[f].id);
        }
    }
    match find(m.sessions, id) {
        Some(f) => {
            if p(m.sessions[f]) {
                assert(ids.contains(m.sessions[f].id));
            }
        },
        None => {},
    }
}

// ── Reading ──
/// Whether a registry row is a session that can still be joined.
pub open spec fn row_live(row: SessionRegistryRow) -> bool {
    row.status@ != "completed"@ && row.status@ != "error"@ && row.status@ != "expired"@
}

/// Whether a registry row is the row of one of the sessions.
pub open spec fn row_local(sessions: Seq<Session>, row: SessionRegistryRow) -> bool {
    exists|i: int|
        0 <= i < sessions.len() && uuid_text((#[trigger] sessions[i]).id) == row.session_id@
}

/// The rows that are listed beside the local sessions, by position: those of
/// other instances that can still be joined and have an id.
pub open spec fn remote_rows(sessions: Seq<Session>, rows: Seq<SessionRegistryRow>) -> Seq<int>
    decreases rows.len(),
{
    if rows.len() == 0 {
        Seq::empty()
    } else {
        let front = remote_rows(sessions, rows.drop_last());
        let row = rows.last();
        if !row_local(sessions, row) && row_live(row) && uuid_of(row.session_id@) is Some {
            front.push(rows.len() - 1)
        } else {
            front
        }
    }
}

proof fn lemma_remote_rows(sessions: Seq<Session>, rows: Seq<SessionRegistryRow>)
    ensures
        forall|k: int|
            0 <= k < remote_rows(sessions, rows).len() ==> 0 <= #[trigger] remote_rows(
                sessions,
                rows,
            )[k] < rows.len(),
    decreases rows.len(),
{
    if rows.len() > 0 {
        let front = remote_rows(sessions, rows.drop_last());
        let all = remote_rows(sessions, rows);
        lemma_remote_rows(sessions, rows.drop_last());
        assert forall|k: int| 0 <= k < all.len() implies 0 <= #[trigger] all[k] < rows.len() by {
            if k < front.len() {
                assert(all[k] == front[k]);
            }
        }
    }
}

/// Whether `info` shows a local session together with its recorded end.
pub open spec fn shows_local(m: ManagerState, info: SessionInfo, s: Session) -> bool {
    s.shown_by(info) && info.ended_at == if m.ended_at.contains_key(s.id) {
        Some(m.ended_at[s.id])
    } else {
        None
    }
}

/// Whether `info` shows a registry row.
pub open spec fn shows_row(info: SessionInfo, row: SessionRegistryRow, now: Timestamp) -> bool {
    uuid_of(row.session_id@) is Some && row.shown_by(
        info,
        uuid_of(row.session_id@)->0,
        row_name(row.session_type@),
        row_name(row.status@),
        registry_second(row.created_at@),
        now,
    )
}

/// Whether `infos` lists the sessions: the local ones in order, and behind
/// them the rows of other instances in order.
pub open spec fn lists(
    m: ManagerState,
    rows: Seq<SessionRegistryRow>,
    infos: Seq<SessionInfo>,
    now: Timestamp,
) -> bool {
    let remote = remote_rows(m.sessions, rows);
    &&& infos.len() == m.sessions.len() + remote.len()
    &&& forall|i: int|
        0 <= i < m.sessions.len() ==> shows_local(m, #[trigger] infos[i], m.sessions[i])
    &&& forall|k: int|
        m.sessions.len() <= k < infos.len() ==> shows_row(
            #[trigger] infos[k],
            rows[remote[k - m.sessions.len()]],
            now,
        )
}

/// Whether a status is in the bucket that counts as live: disconnected
/// sessions are still within their reconnect window.
pub open spec fn in_bucket(s: SessionStatus) -> bool {
    s == SessionStatus::Active || s == SessionStatus::Pending || s == SessionStatus::Disconnected
}

/// The number of shown sessions in the live bucket.
pub open spec fn bucket_count(infos: Seq<SessionInfo>) -> nat
    decreases infos.len(),
{
    if infos.len() == 0 {
        0
    } else {
        bucket_count(infos.drop_last()) + if in_bucket(infos.last().status) {
            1nat
        } else {
            0nat
        }
    }
}

impl SessionManager {
    fn row_is_live(row: &SessionRegistryRow) -> (r: bool)
        ensures
            r == row_live(*row),
    {
        !(same_text(row.status.as_str(), "completed") || same_text(row.status.as_str(), "error")
            || same_text(row.status.as_str(), "expired"))
    }

    fn row_is_local(&self, row: &SessionRegistryRow) -> (r: bool)
        ensures
            r == row_local(self.sessions@, *row),
    {
        let mut i: usize = 0;
        while i < self.sessions.len()
            invariant
                i <= self.sessions@.len(),
                forall|j: int|
                    0 <= j < i ==> uuid_text((#[trigger] self.sessions@[j]).id) != row.session_id@,
            decreases self.sessions@.len() - i,
        {
            let text = uuid_string(self.sessions[i].id);
            if same_text(text.as_str(), row.session_id.as_str()) {
                return true;
            }
            i = i + 1;
        }
        false
    }

    fn info_at(&self, i: usize) -> (r: SessionInfo)
        requires
            i < self.sessions@.len(),
        ensures
            shows_local(self@, r, self.sessions@[i as int]),
    {
        let mut info = self.sessions[i].info();
        info.ended_at = match self.ended_at.get(&self.sessions[i].id) {
            Some(t) => Some(*t),
            None => None,
        };
        info
    }

    /// List all sessions: the local ones, and the live sessions of other
    /// instances among the registry rows (none without a shared registry).
    pub fn list_sessions(&self, rows: &Vec<SessionRegistryRow>, now: Timestamp) -> (r: Vec<
        SessionInfo,
    >)
        ensures
            lists(self@, rows@, r@, now),
    {
        let mut out: Vec<SessionInfo> = Vec::new();
        let mut i: usize = 0;
        while i < self.sessions.len()
            invariant
                i <= self.sessions@.len(),
                out@.len() == i,
                forall|j: int|
                    0 <= j < i ==> shows_local(self@, #[trigger] out@[j], self.sessions@[j]),
            decreases self.sessions@.len() - i,
        {
            out.push(self.info_at(i));
            i = i + 1;
        }
        let mut k: usize = 0;
        proof {
            assert(rows@.take(0) =~= Seq::empty());
        }
        while k < rows.len()
            invariant
                k <= rows@.len(),
                lists(self@, rows@.take(k as int), out@, now),
            decreases rows@.len() - k,
        {
            let ghost before = out@;
            let row = &rows[k];
            proof {
                assert(rows@.take(k + 1).drop_last() =~= rows@.take(k as int));
                lemma_remote_rows(self.sessions@, rows@.take(k as int));
            }
            if !self.row_is_local(row) && SessionManager::row_is_live(row) {
                if let Some(info) = SessionInfo::from_registry(row, now) {
                    out.push(info);
                }
            }
            proof {
                let n = self.sessions@.len();
                let remote = remote_rows(self.sessions@, rows@.take(k + 1));
                assert(out@.len() == n + remote.len());
                assert forall|j: int| 0 <= j < n implies shows_local(
                    self@,
                    #[trigger] out@[j],
                    self.sessions@[j],
                ) by {
                    assert(out@[j] == before[j]);
                }
                assert forall|j: int| n <= j < out@.len() implies shows_row(
                    #[trigger] out@[j],
                    rows@.take(k + 1)[remote[j - n]],
                    now,
                ) by {
                    if j < before.len() {
                        assert(out@[j] == before[j]);
                        let old_remote = remote_rows(self.sessions@, rows@.take(k as int));
                        assert(remote[j - n] == old_remote[j - n]);
                        assert(rows@.take(k as int)[old_remote[j - n]] == rows@.take(k + 1)[remote[j
                            - n]]);
                    }
                }
            }
            k = k + 1;
        }
        proof {
            assert(rows@.take(k as int) =~= rows@);
        }
        out
    }

    /// Count live sessions: active, pending or disconnected, the live
    /// sessions of other instances included.
    pub fn active_session_count(&self, rows: &Vec<SessionRegistryRow>, now: Timestamp) -> (r: usize)
        ensures
            exists|infos: Seq<SessionInfo>|
                #[trigger] lists(self@, rows@, infos, now) && r == bucket_count(infos),
            forall|infos: Seq<SessionInfo>|
                #[trigger] lists(self@, rows@, infos, now) ==> r == bucket_count(infos),
    {
        let infos = self.list_sessions(rows, now);
        let mut n: usize = 0;
        let mut i: usize = 0;
        while i < infos.len()
            invariant
                i <= infos@.len(),
                n <= i,
                n == bucket_count(infos@.take(i as int)),
            decreases infos@.len() - i,
        {
            proof {
                assert(infos@.take(i + 1).drop_last() =~= infos@.take(i as int));
            }
            if matches!(
                infos[i].status,
                SessionStatus::Active | SessionStatus::Pending | SessionStatus::Disconnected
            ) {
                n = n + 1;
            }
            i = i + 1;
        }
        proof {
            assert(infos@.take(i as int) =~= infos@);
            assert forall|other: Seq<SessionInfo>| #[trigger]
                lists(self@, rows@, other, now) implies n == bucket_count(other) by {
                lemma_lists_agree(self@, rows@, infos@, other, now);
            }
        }
        n
    }

    /// A session's info: the local one first, then the registry row (sessions
    /// of other instances). Terminal remote sessions are reported as absent.
    pub fn get_session(&self, id: u128, row: Option<&SessionRegistryRow>, now: Timestamp) -> (r:
        Option<SessionInfo>)
        ensures
            match self@.session(id) {
                Some(s) => r is Some && shows_local(self@, r->0, s),
                None => match row {
                    Some(w) => (r is Some <==> row_live(*w) && uuid_of(w.session_id@) is Some) && (r
                        is Some ==> shows_row(r->0, *w, now)),
                    None => r is None,
                },
            },
    {
        if let Some(i) = self.position(id) {
            return Some(self.info_at(i));
        }
        match row {
            Some(w) => if SessionManager::row_is_live(w) {
                SessionInfo::from_registry(w, now)
            } else {
                None
            },
            None => None,
        }
    }

    /// Check if a session is in Pending status (owner not yet connected).
    pub fn is_session_pending(&self, id: u128) -> (r: bool)
        ensures
            r == self@.in_status(id, SessionStatus::Pending, SessionStatus::Pending),
    {
        match self.position(id) {
            Some(i) => self.sessions[i].status == SessionStatus::Pending,
            None => false,
        }
    }

    /// Check if a session is in Disconnected status (reconnection possible).
    pub fn is_session_disconnected(&self, id: u128) -> (r: bool)
        ensures
            r == self@.in_status(id, SessionStatus::Disconnected, SessionStatus::Disconnected),
    {
        match self.position(id) {
            Some(i) => self.sessions[i].status == SessionStatus::Disconnected,
            None => false,
        }
    }

    /// Get the creator of a session.
    pub fn get_session_creator(&self, id: u128) -> (r: Option<String>)
        ensures
            r == match self@.session(id) {
                Some(s) => Some(s.created_by),
                None => None,
            },
    {
        match self.position(id) {
            Some(i) => Some(self.sessions[i].created_by.clone()),
            None => None,
        }
    }

    /// Get session type and container metadata for a session.
    pub fn get_vdi_info(&self, id: u128) -> (r: Option<
        (SessionType, Option<String>, Option<String>),
    >)
        ensures
            r == match self@.session(id) {
                Some(s) => Some((s.session_type, s.container_id, s.container_name)),
                None => None,
            },
    {
        match self.position(id) {
            Some(i) => Some(
                (
                    self.sessions[i].session_type,
                    copy_opt(&self.sessions[i].container_id),
                    copy_opt(&self.sessions[i].container_name),
                ),
            ),
            None => None,
        }
    }

    /// Let go of the VDI container of a session, for the caller to stop.
    pub fn stop_vdi_container(&mut self, id: u128) -> (r: Option<String>)
        requires
            old(self).wf(),
        ensures
            final(self).wf(),
            r == match old(self)@.session(id) {
                Some(s) => s.container_id,
                None => None,
            },
            final(self)@ == match find(old(self)@.sessions, id) {
                Some(i) => old(self)@.with(
                    i,
                    Session { container_id: None, ..old(self)@.sessions[i] },
                ),
                None => old(self)@,
            },
    {
        match self.position(id) {
            Some(i) => {
                let c = take_container(&mut self.sessions[i]);
                proof {
                    lemma_update_distinct(old(self).sessions@, i as int, self.sessions@[i as int]);
                }
                c
            },
            None => None,
        }
    }

    /// Check if recording is enabled for a given session.
    pub fn is_recording_enabled(&self, id: u128) -> (r: bool)
        ensures
            r == match self@.session(id) {
                Some(s) => s.recording_enabled,
                None => false,
            },
    {
        match self.position(id) {
            Some(i) => self.sessions[i].recording_enabled,
            None => false,
        }
    }

    /// Get recording metadata for a session (address book entry, maximum).
    pub fn get_recording_meta(&self, id: u128) -> (r: Option<(Option<String>, Option<u32>)>)
        ensures
            r == match self@.session(id) {
                Some(s) => Some((s.address_book_entry, s.max_recordings)),
                None => None,
            },
    {
        match self.position(id) {
            Some(i) => Some(
                (copy_opt(&self.sessions[i].address_book_entry), self.sessions[i].max_recordings),
            ),
            None => None,
        }
    }

    /// Check if any active or pending session runs in the given container.
    pub fn has_active_vdi_session(&self, container_id: &str) -> (r: bool)
        ensures
            r == exists|i: int|
                0 <= i < self.sessions@.len() && (#[trigger] self.sessions@[i]).status.live()
                    && crate::text::opt_text(self.sessions@[i].container_id) == Some(container_id@),
    {
        let mut i: usize = 0;
        while i < self.sessions.len()
            invariant
                i <= self.sessions@.len(),
                forall|j: int|
                    0 <= j < i ==> !((#[trigger] self.sessions@[j]).status.live()
                        && crate::text::opt_text(self.sessions@[j].container_id) == Some(
                        container_id@,
                    )),
            decreases self.sessions@.len() - i,
        {
            let s = &self.sessions[i];
            if s.status.is_live() {
                if let Some(c) = &s.container_id {
                    if same_text(c.as_str(), container_id) {
                        return true;
                    }
                }
            }
            i = i + 1;
        }
        false
    }

    /// Configured maximum session lifetime in seconds (0 = unlimited).
    pub fn session_max_duration_secs(&self) -> (r: u64)
        ensures
            r == self.config.session_max_duration_secs,
    {
        self.config.session_max_duration_secs
    }

    /// Note client activity of a session.
    pub fn update_activity(&mut self, id: u128, now: Timestamp)
        requires
            old(self).wf(),
        ensures
            final(self).wf(),
            final(self)@ == match find(old(self)@.sessions, id) {
                Some(i) => old(self)@.with(
                    i,
                    Session { last_activity: now.secs, ..old(self)@.sessions[i] },
                ),
                None => old(self)@,
            },
    {
        if let Some(i) = self.position(id) {
            self.sessions[i].touch_activity(now);
            proof {
                lemma_update_distinct(old(self).sessions@, i as int, self.sessions@[i as int]);
            }
        }
    }

    /// Replay retained lifecycle events behind the cursor `since`, plus the
    /// latest cursor.
    pub fn replay_events(&self, since: u64) -> (r: (u64, Vec<SessionEvent>))
        ensures
            r.0 == if self@.events.next_id == 0 {
                0
            } else {
                (self@.events.next_id - 1) as u64
            },
            r.1@ == self@.events.after(since),
    {
        self.events.replay(since)
    }

    /// Count active/pending sessions belonging to a user.
    pub fn get_user_session_count(&self, user_id: &str) -> (r: usize)
        ensures
            r == count_where(
                self.sessions@,
                |s: Session| belongs_to(s, user_id@) && s.status.live(),
            ),
    {
        let ghost p = |s: Session| belongs_to(s, user_id@) && s.status.live();
        let mut n: usize = 0;
        let mut i: usize = 0;
        while i < self.sessions.len()
            invariant
                i <= self.sessions@.len(),
                n <= i,
                p == (|s: Session| belongs_to(s, user_id@) && s.status.live()),
                n == count_where(self.sessions@.take(i as int), p),
            decreases self.sessions@.len() - i,
        {
            proof {
                assert(self.sessions@.take(i + 1).drop_last() =~= self.sessions@.take(i as int));
            }
            let s = &self.sessions[i];
            let own = match &s.user_id {
                Some(u) => same_text(u.as_str(), user_id),
                None => same_text(s.created_by.as_str(), user_id),
            };
            if own && s.status.is_live() {
                n = n + 1;
            }
            i = i + 1;
        }
        proof {
            assert(self.sessions@.take(i as int) =~= self.sessions@);
        }
        n
    }

    /// Returns true if a user has fewer than `limit` active/pending sessions.
    /// A limit of 0 means unlimited.
    pub fn check_concurrent_limit(&self, user_id: &str, limit: usize) -> (r: bool)
        ensures
            r == (limit == 0 || count_where(
                self.sessions@,
                |s: Session| belongs_to(s, user_id@) && s.status.live(),
            ) < limit),
    {
        limit == 0 || self.get_user_session_count(user_id) < limit
    }

    /// Mark the server as shutting down. Returns `false` if it already was.
    pub fn initiate_shutdown(&mut self) -> (r: bool)
        ensures
            final(self)@ == (ManagerState { shutdown: true, ..old(self)@ }),
            r == !old(self).shutdown,
    {
        let was = self.shutdown;
        self.shutdown = true;
        !was
    }

    /// Returns `true` if a shutdown signal has been received.
    pub fn is_shutting_down(&self) -> (r: bool)
        ensures
            r == self.shutdown,
    {
        self.shutdown
    }

    /// Tell all active and pending sessions to stop and return how many were
    /// told.
    pub fn cancel_all_sessions(&mut self) -> (r: usize)
        requires
            old(self).wf(),
        ensures
            final(self).wf(),
            final(self)@ == (ManagerState {
                sessions: old(self)@.sessions.map_values(|s: Session| stopped(s)),
                ..old(self)@
            }),
            r == count_where(old(self)@.sessions, |s: Session| s.status.live()),
    {
        let ghost p = |s: Session| s.status.live();
        let ghost all = self.sessions@;
        let mut n: usize = 0;
        let mut i: usize = 0;
        while i < self.sessions.len()
            invariant
                i <= self.sessions@.len(),
                n <= i,
                all == old(self).sessions@,
                self.sessions@.len() == all.len(),
                p == (|s: Session| s.status.live()),
                n == count_where(all.take(i as int), p),
                forall|j: int| 0 <= j < i ==> #[trigger] self.sessions@[j] == stopped(all[j]),
                forall|j: int| i <= j < all.len() ==> #[trigger] self.sessions@[j] == all[j],
                self@ == (ManagerState { sessions: self.sessions@, ..old(self)@ }),
                self.config == old(self).config,
            decreases self.sessions@.len() - i,
        {
            proof {
                assert(all.take(i + 1).drop_last() =~= all.take(i as int));
                assert(self.sessions@[i as int] == all[i as int]);
            }
            if self.sessions[i].status.is_live() {
                cancel(&mut self.sessions[i]);
                n = n + 1;
            }
            i = i + 1;
        }
        proof {
            assert(all.take(i as int) =~= all);
            assert(self.sessions@ =~= all.map_values(|s: Session| stopped(s)));
            assert forall|j: int, k: int| 0 <= j < k < all.len() implies self.sessions@[j].id
                != self.sessions@[k].id by {
                assert(all[j].id != all[k].id);
            }
        }
        n
    }

    /// Claim the live-stream slot of an identity. Returns false when it is
    /// already taken.
    pub fn try_claim_sse_subscription(&mut self, identity: &str) -> (r: bool)
        ensures
            r == !old(self)@.subscribers.contains(identity@),
            final(self)@ == (ManagerState {
                subscribers: if r {
                    old(self)@.subscribers.push(identity@)
                } else {
                    old(self)@.subscribers
                },
                ..old(self)@
            }),
    {
        if list_has(&self.sse_subscribers, identity) {
            return false;
        }
        self.sse_subscribers.push(identity.to_owned());
        proof {
            assert(texts(self.sse_subscribers@) =~= old(self)@.subscribers.push(identity@));
        }
        true
    }

    /// Release a claimed live-stream slot.
    pub fn release_sse_subscription(&mut self, identity: &str)
        ensures
            final(self)@ == (ManagerState {
                subscribers: others(old(self)@.subscribers, identity@),
                ..old(self)@
            }),
    {
        let mut kept: Vec<String> = Vec::new();
        let mut i: usize = 0;
        proof {
            assert(texts(kept@) =~= others(texts(self.sse_subscribers@).take(0), identity@));
        }
        while i < self.sse_subscribers.len()
            invariant
                i <= self.sse_subscribers@.len(),
                *self == *old(self),
                texts(kept@) == others(texts(self.sse_subscribers@).take(i as int), identity@),
            decreases self.sse_subscribers@.len() - i,
        {
            let ghost t = texts(self.sse_subscribers@);
            let ghost before = kept@;
            proof {
                assert(t.take(i + 1).drop_last() =~= t.take(i as int));
                assert(t.take(i + 1).last() == self.sse_subscribers@[i as int]@);
            }
            if !same_text(self.sse_subscribers[i].as_str(), identity) {
                let name = self.sse_subscribers[i].clone();
                kept.push(name);
                proof {
                    assert(texts(kept@) =~= texts(before).push(t[i as int]));
                }
            }
            i = i + 1;
        }
        proof {
            let t = texts(self.sse_subscribers@);
            assert(t.take(i as int) =~= t);
        }
        self.sse_subscribers = kept;
    }
}

/// The texts of `s` that are not `x`.
pub open spec fn others(s: Seq<Seq<char>>, x: Seq<char>) -> Seq<Seq<char>>
    decreases s.len(),
{
    if s.len() == 0 {
        s
    } else if s.last() == x {
        others(s.drop_last(), x)
    } else {
        others(s.drop_last(), x).push(s.last())
    }
}

/// A released slot can be claimed again: the identity is no longer among the
/// subscribers.
pub proof fn law_released_slot_is_free(s: Seq<Seq<char>>, x: Seq<char>)
    ensures
        !others(s, x).contains(x),
        !s.contains(x) ==> others(s.push(x), x) == s,
    decreases s.len(),
{
    if s.len() > 0 {
        let front = s.drop_last();
        law_released_slot_is_free(front, x);
        assert forall|i: int| 0 <= i < others(s, x).len() implies others(s, x)[i] != x by {
            if i < others(front, x).len() {
                assert(others(front, x).contains(others(front, x)[i]));
            }
        }
        if !s.contains(x) {
            assert(s[s.len() - 1] != x);
            assert(!front.contains(x)) by {
                if front.contains(x) {
                    let i = choose|i: int| 0 <= i < front.len() && front[i] == x;
                    assert(s[i] == x);
                }
            }
            assert(front.push(x).drop_last() =~= front);
            assert(others(front, x) == front);
            assert(others(s, x) =~= s);
        }
    }
    assert(s.push(x).drop_last() =~= s);
    if !s.contains(x) && s.len() == 0 {
        assert(others(s, x) =~= s);
    }
}

/// A session that was told to stop, if it was live.
pub open spec fn stopped(s: Session) -> Session {
    if s.status.live() {
        Session { cancelled: true, ..s }
    } else {
        s
    }
}

fn cancel(session: &mut Session)
    ensures
        *final(session) == (Session { cancelled: true, ..*old(session) }),
{
    session.cancelled = true;
}

fn take_container(session: &mut Session) -> (r: Option<String>)
    ensures
        *final(session) == (Session { container_id: None, ..*old(session) }),
        r == old(session).container_id,
{
    session.container_id.take()
}

/// Two lists of the same sessions have the same statuses.
proof fn lemma_lists_agree(
    m: ManagerState,
    rows: Seq<SessionRegistryRow>,
    a: Seq<SessionInfo>,
    b: Seq<SessionInfo>,
    now: Timestamp,
)
    requires
        lists(m, rows, a, now),
        lists(m, rows, b, now),
    ensures
        bucket_count(a) == bucket_count(b),
{
    assert forall|i: int| 0 <= i < a.len() implies (#[trigger] a[i]).status == b[i].status by {
        if i < m.sessions.len() {
            assert(shows_local(m, a[i], m.sessions[i]));
            assert(shows_local(m, b[i], m.sessions[i]));
        } else {
            let row = rows[remote_rows(m.sessions, rows)[i - m.sessions.len()]];
            assert(shows_row(a[i], row, now));
            assert(shows_row(b[i], row, now));
        }
    }
    lemma_bucket_by_status(a, b);
}

proof fn lemma_bucket_by_status(a: Seq<SessionInfo>, b: Seq<SessionInfo>)
    requires
        a.len() == b.len(),
        forall|i: int| 0 <= i < a.len() ==> (#[trigger] a[i]).status == b[i].status,
    ensures
        bucket_count(a) == bucket_count(b),
    decreases a.len(),
{
    if a.len() > 0 {
        lemma_bucket_by_status(a.drop_last(), b.drop_last());
        assert(a[a.len() - 1].status == b[b.len() - 1].status);
    }
}

// ── Tokens ──
/// Seconds that a shadow token is valid.
pub const SHADOW_TOKEN_SECS: i64 = 600;

/// The shadow tokens that have not reached their end at `now`.
pub open spec fn live_tokens(tokens: Seq<ShadowToken>, now: Timestamp) -> Seq<ShadowToken>
    decreases tokens.len(),
{
    if tokens.len() == 0 {
        tokens
    } else if tokens.last().expires_at.ticks() > now.ticks() {
        live_tokens(tokens.drop_last(), now).push(tokens.last())
    } else {
        live_tokens(tokens.drop_last(), now)
    }
}

/// Drop the expired tokens and add one.
fn add_token(
    tokens: &Vec<ShadowToken>,
    token_hash: String,
    issued_by: String,
    expires_at: Timestamp,
    now: Timestamp,
) -> (r: Vec<ShadowToken>)
    ensures
        r@ == live_tokens(tokens@, now).push(ShadowToken { token_hash, issued_by, expires_at }),
{
    let mut kept: Vec<ShadowToken> = Vec::new();
    let mut i: usize = 0;
    while i < tokens.len()
        invariant
            i <= tokens@.len(),
            kept@ == live_tokens(tokens@.take(i as int), now),
        decreases tokens@.len() - i,
    {
        proof {
            assert(tokens@.take(i + 1).drop_last() =~= tokens@.take(i as int));
        }
        let t = &tokens[i];
        if t.expires_at.is_after(&now) {
            kept.push(
                ShadowToken {
                    token_hash: t.token_hash.clone(),
                    issued_by: t.issued_by.clone(),
                    expires_at: t.expires_at,
                },
            );
        }
        i = i + 1;
    }
    proof {
        assert(tokens@.take(i as int) =~= tokens@);
    }
    kept.push(ShadowToken { token_hash, issued_by, expires_at });
    kept
}

fn set_tokens(session: &mut Session, tokens: Vec<ShadowToken>)
    ensures
        *final(session) == (Session { shadow_tokens: tokens, ..*old(session) }),
{
    session.shadow_tokens = tokens;
}

/// Whether `after` is `before` with one shadow token more for a session: the
/// hash of `raw`, issued by `issued_by`, for ten minutes; the session's
/// expired tokens are gone, and nothing else changed.
pub open spec fn minted(
    before: ManagerState,
    after: ManagerState,
    id: u128,
    issued_by: Seq<char>,
    raw: Seq<char>,
    now: Timestamp,
) -> bool {
    match find(before.sessions, id) {
        None => after == before,
        Some(i) => {
            let s = before.sessions[i];
            let t = after.sessions[i];
            let live = live_tokens(s.shadow_tokens@, now);
            &&& after == before.with(i, t)
            &&& t == Session { shadow_tokens: t.shadow_tokens, ..s }
            &&& t.shadow_tokens@.len() == live.len() + 1
            &&& t.shadow_tokens@.drop_last() == live
            &&& t.shadow_tokens@.last().token_hash@ == token_key(raw)
            &&& t.shadow_tokens@.last().issued_by@ == issued_by
            &&& t.shadow_tokens@.last().expires_at.ticks() == now.ticks() + SHADOW_TOKEN_SECS
                * 1_000_000_000
        },
    }
}

/// What a registry row says of a presented token with the given digest.
pub open spec fn row_verdict(
    r: ShareTokenValidation,
    row: SessionRegistryRow,
    expires: Option<i64>,
    provided: Seq<u8>,
    now: Timestamp,
) -> bool {
    if row.shadow_token_hash is Some && row.shadow_issued_by is Some && row.shadow_expires_at
        is Some && expires is Some && (Timestamp { secs: expires->0, nanos: 0 }).ticks()
        > now.ticks() && row.shadow_token_hash->0@ == hex_text(provided) {
        r == (ShareTokenValidation::Shadow { issued_by: row.shadow_issued_by->0 })
    } else {
        r is Invalid
    }
}

/// The end that a registry row gives its shadow token.
pub open spec fn row_expiry(row: SessionRegistryRow) -> Option<i64> {
    match row.shadow_expires_at {
        Some(t) => registry_second(t@),
        None => None,
    }
}

/// What a registry row says of a presented token: its shadow token, while
/// that is live; anything unreadable counts as expired.
pub fn match_row(
    row: &SessionRegistryRow,
    expires: Option<i64>,
    provided: &[u8],
    now: Timestamp,
) -> (r: ShareTokenValidation)
    requires
        2 * provided@.len() <= isize::MAX,
    ensures
        row_verdict(r, *row, expires, provided@, now),
{
    let live = match expires {
        Some(secs) => Timestamp::at_second(secs).is_after(&now),
        None => false,
    };
    if !live || row.shadow_expires_at.is_none() {
        return ShareTokenValidation::Invalid;
    }
    let provided_hex = hex_encode(provided);
    if let Some(hash) = &row.shadow_token_hash {
        if let Some(issued_by) = &row.shadow_issued_by {
            proof {
                encode_utf8_decode_utf8(hash@);
                encode_utf8_decode_utf8(provided_hex@);
            }
            if same_bytes(hash.as_str().as_bytes(), provided_hex.as_str().as_bytes()) {
                return ShareTokenValidation::Shadow { issued_by: issued_by.clone() };
            }
        }
    }
    ShareTokenValidation::Invalid
}

impl SessionManager {
    /// Validate a share-or-shadow token for a session: against the local
    /// session first, then against the registry row of a session that is
    /// hosted elsewhere. Unknown sessions have no valid tokens.
    pub fn validate_share_token(
        &self,
        id: u128,
        token: &str,
        row: Option<&SessionRegistryRow>,
        now: Timestamp,
    ) -> (r: ShareTokenValidation)
        ensures
            ({
                let digest = sha256(encode_utf8(token@));
                let local = |v: ShareTokenValidation|
                    match self@.session(id) {
                        Some(s) => token_verdict(
                            v,
                            sha256(encode_utf8(s.share_token@)),
                            s.shadow_tokens@,
                            digest,
                            now,
                        ),
                        None => v is Invalid,
                    };
                if local(ShareTokenValidation::Invalid) {
                    match row {
                        Some(w) => row_verdict(r, *w, row_expiry(*w), digest, now),
                        None => r is Invalid,
                    }
                } else {
                    local(r)
                }
            }),
    {
        if let Some(i) = self.position(id) {
            let v = check_share_token_match(
                self.sessions[i].share_token.as_str(),
                &self.sessions[i].shadow_tokens,
                token,
                now,
            );
            if v.is_valid() {
                return v;
            }
        }
        match row {
            None => ShareTokenValidation::Invalid,
            Some(w) => {
                let expires = match &w.shadow_expires_at {
                    Some(t) => parse_registry_time(t.as_str()),
                    None => None,
                };
                let digest = sha256_digest(token.as_bytes());
                match_row(w, expires, digest.as_slice(), now)
            },
        }
    }

    /// Give a session the shadow token `raw`. Its expired tokens are pruned.
    pub fn add_shadow_token(&mut self, id: u128, issued_by: &str, raw: &str, now: Timestamp) -> (r:
        Option<Timestamp>)
        requires
            old(self).wf(),
            now.secs + SHADOW_TOKEN_SECS <= i64::MAX,
        ensures
            final(self).config == old(self).config,
            final(self).wf(),
            minted(old(self)@, final(self)@, id, issued_by@, raw@, now),
            r is Some <==> old(self)@.session(id) is Some,
            r is Some ==> r->0.ticks() == now.ticks() + SHADOW_TOKEN_SECS * 1_000_000_000,
    {
        match self.position(id) {
            None => None,
            Some(i) => {
                let expires_at = now.plus_seconds(SHADOW_TOKEN_SECS);
                let hash = session_key(raw);
                let ghost h = hash;
                let by = issued_by.to_owned();
                let ghost b = by;
                let tokens = add_token(
                    &self.sessions[i].shadow_tokens,
                    hash,
                    by,
                    expires_at,
                    now,
                );
                let ghost live = live_tokens(self.sessions@[i as int].shadow_tokens@, now);
                proof {
                    assert(tokens@.drop_last() =~= live);
                }
                set_tokens(&mut self.sessions[i], tokens);
                proof {
                    lemma_update_distinct(old(self).sessions@, i as int, self.sessions@[i as int]);
                }
                Some(expires_at)
            },
        }
    }

    /// Mint a new short-lived (10 min) shadow token for a session. Returns
    /// the raw token (for the admin, once) and its expiry.
    pub fn mint_shadow_token(&mut self, id: u128, issued_by: &str, now: Timestamp) -> (r: Option<
        (String, Timestamp),
    >)
        requires
            old(self).wf(),
            now.secs + SHADOW_TOKEN_SECS <= i64::MAX,
        ensures
            final(self).config == old(self).config,
            final(self).wf(),
            r is Some <==> old(self)@.session(id) is Some,
            match r {
                Some((raw, expires_at)) => minted(
                    old(self)@,
                    final(self)@,
                    id,
                    issued_by@,
                    raw@,
                    now,
                ) && raw@.len() == 32 && expires_at.ticks() == now.ticks() + SHADOW_TOKEN_SECS
                    * 1_000_000_000,
                None => final(self)@ == old(self)@,
            },
    {
        let raw = generate_share_token();
        match self.add_shadow_token(id, issued_by, raw.as_str(), now) {
            Some(expires_at) => Some((raw, expires_at)),
            None => None,
        }
    }

    /// Mint a shadow token for a session hosted by another instance: its
    /// hash goes to the registry row, so that the owner can validate it.
    pub fn mint_remote_shadow_token(&self, now: Timestamp) -> (r: RemoteShadowToken)
        requires
            now.secs + SHADOW_TOKEN_SECS <= i64::MAX,
        ensures
            r.raw@.len() == 32,
            r.hash@ == token_key(r.raw@),
            r.expires_at.ticks() == now.ticks() + SHADOW_TOKEN_SECS * 1_000_000_000,
    {
        let raw = generate_share_token();
        let hash = session_key(raw.as_str());
        RemoteShadowToken { raw, hash, expires_at: now.plus_seconds(SHADOW_TOKEN_SECS) }
    }
}

/// Tokens that are not there do not appear where expired ones are dropped.
proof fn lemma_live_tokens_miss(
    tokens: Seq<ShadowToken>,
    hash: Seq<char>,
    now: Timestamp,
    later: Timestamp,
)
    requires
        crate::session::shadow_hit(tokens, hash, later) is None,
    ensures
        crate::session::shadow_hit(live_tokens(tokens, now), hash, later) is None,
    decreases tokens.len(),
{
    if tokens.len() > 0 {
        let front = live_tokens(tokens.drop_last(), now);
        lemma_live_tokens_miss(tokens.drop_last(), hash, now, later);
        if tokens.last().expires_at.ticks() > now.ticks() {
            assert(live_tokens(tokens, now).drop_last() =~= front);
        }
    }
}


/// A freshly minted shadow token opens its session as a shadow token of its
/// issuer, unless it is the owner's token or was minted before.
pub proof fn law_minted_token_opens(
    before: ManagerState,
    after: ManagerState,
    id: u128,
    issued_by: Seq<char>,
    raw: Seq<char>,
    now: Timestamp,
    r: ShareTokenValidation,
)
    requires
        minted(before, after, id, issued_by, raw, now),
        before.session(id) is Some,
        sha256(encode_utf8(raw)) != sha256(encode_utf8(before.session(id)->0.share_token@)),
        crate::session::shadow_hit(
            before.session(id)->0.shadow_tokens@,
            token_key(raw),
            now,
        ) is None,
        token_verdict(
            r,
            sha256(encode_utf8(after.session(id)->0.share_token@)),
            after.session(id)->0.shadow_tokens@,
            sha256(encode_utf8(raw)),
            now,
        ),
    ensures
        r is Shadow,
        r->issued_by@ == issued_by,
{
    lemma_find(before.sessions, id);
    let i = find(before.sessions, id)->0;
    let t = after.sessions[i];
    lemma_find_after_update(before.sessions, i, t, id);
    lemma_live_tokens_miss(before.sessions[i].shadow_tokens@, token_key(raw), now, now);
    let tokens = t.shadow_tokens@;
    assert(crate::session::shadow_hit(tokens.drop_last(), token_key(raw), now) is None);
    assert(crate::session::shadow_hit(tokens, token_key(raw), now) == Some(tokens.len() - 1));
}

/// Ten minutes after it was minted a shadow token opens nothing any more,
/// unless it is the owner's token or was minted before.
pub proof fn law_minted_token_lapses(
    before: ManagerState,
    after: ManagerState,
    id: u128,
    issued_by: Seq<char>,
    raw: Seq<char>,
    now: Timestamp,
    later: Timestamp,
    r: ShareTokenValidation,
)
    requires
        minted(before, after, id, issued_by, raw, now),
        before.session(id) is Some,
        later.ticks() >= now.ticks() + SHADOW_TOKEN_SECS * 1_000_000_000,
        sha256(encode_utf8(raw)) != sha256(encode_utf8(before.session(id)->0.share_token@)),
        crate::session::shadow_hit(
            before.session(id)->0.shadow_tokens@,
            token_key(raw),
            later,
        ) is None,
        token_verdict(
            r,
            sha256(encode_utf8(after.session(id)->0.share_token@)),
            after.session(id)->0.shadow_tokens@,
            sha256(encode_utf8(raw)),
            later,
        ),
    ensures
        r is Invalid,
{
    lemma_find(before.sessions, id);
    let i = find(before.sessions, id)->0;
    let t = after.sessions[i];
    lemma_find_after_update(before.sessions, i, t, id);
    lemma_live_tokens_miss(before.sessions[i].shadow_tokens@, token_key(raw), now, later);
    let tokens = t.shadow_tokens@;
    assert(crate::session::shadow_hit(tokens.drop_last(), token_key(raw), later) is None);
    assert(crate::session::shadow_hit(tokens, token_key(raw), later) is None);
}

/// A shadow token is scoped to its session: minting it changes nothing of
/// any other session.
pub proof fn law_minted_token_is_scoped(
    before: ManagerState,
    after: ManagerState,
    id: u128,
    other: u128,
    issued_by: Seq<char>,
    raw: Seq<char>,
    now: Timestamp,
)
    requires
        minted(before, after, id, issued_by, raw, now),
        other != id,
    ensures
        after.session(other) == before.session(other),
{
    lemma_find(before.sessions, id);
    lemma_find(before.sessions, other);
    match find(before.sessions, id) {
        Some(i) => {
            lemma_find_after_update(before.sessions, i, after.sessions[i], other);
        },
        None => {},
    }
}

// ── Retained credentials ──
/// The entries without those whose key is among `hashes` but not among
/// `live`.
pub open spec fn without_dead(
    s: Entries,
    hashes: Seq<Seq<char>>,
    live: Seq<Seq<char>>,
) -> Entries
    decreases hashes.len(),
{
    if hashes.len() == 0 {
        s
    } else {
        let rest = without_dead(s, hashes.drop_last(), live);
        if live.contains(hashes.last()) {
            rest
        } else {
            dropped_entry(rest, hashes.last())
        }
    }
}

impl SessionManager {
    /// Store an encrypted login credential for an auth session, for
    /// `ttl_secs` seconds. Replaces any previous entry of the session.
    pub fn store_session_credentials(
        &mut self,
        session_token: &str,
        user_id: i64,
        username: &str,
        password_enc: String,
        ttl_secs: u64,
        now: Timestamp,
    )
        requires
            now.secs + ttl_secs <= i64::MAX,
            ttl_secs <= i64::MAX,
        ensures
            final(self).config == old(self).config,
            exists|cred: RetainedSessionCredential| #[trigger]
                stored_credential(cred, user_id, username@, password_enc, ttl_secs, now)
                    && final(self)@ == (ManagerState {
                    credentials: stored(
                        unexpired(unexpired(old(self)@.credentials, now), now),
                        token_key(session_token@),
                        cred,
                    ),
                    ..old(self)@
                }),
    {
        self.session_credentials.prune_expired(now);
        let cred = RetainedSessionCredential {
            user_id,
            username: username.to_owned(),
            password_enc,
            expires_at: now.plus_seconds(ttl_secs as i64),
        };
        proof {
            assert(stored_credential(cred, user_id, username@, password_enc, ttl_secs, now));
        }
        self.session_credentials.store(session_token, cred, now);
    }

    /// Owning-session lookup: the retained credential for `session_token`,
    /// only when it exists, is unexpired, and belongs to `user_id`.
    pub fn session_credentials(&mut self, session_token: &str, user_id: i64, now: Timestamp) -> (r:
        Option<RetainedSessionCredential>)
        ensures
            final(self)@ == (ManagerState {
                credentials: unexpired(old(self)@.credentials, now),
                ..old(self)@
            }),
            r == owned(
                lookup(unexpired(old(self)@.credentials, now), token_key(session_token@)),
                user_id,
            ),
    {
        self.session_credentials.get(session_token, user_id, now)
    }

    /// Remove the retained credential for a session (logout/revocation
    /// paths). Returns true when an entry was removed.
    pub fn clear_session_credentials(&mut self, session_token: &str) -> (r: bool)
        ensures
            final(self)@ == (ManagerState {
                credentials: dropped_entry(old(self)@.credentials, token_key(session_token@)),
                ..old(self)@
            }),
            r == lookup(old(self)@.credentials, token_key(session_token@)) is Some,
    {
        self.session_credentials.remove(session_token)
    }

    /// Drop retained credentials past their end and return the keys of the
    /// others, whose auth sessions the caller looks up.
    pub fn prune_session_credentials(&mut self, now: Timestamp) -> (r: Vec<String>)
        ensures
            final(self)@ == (ManagerState {
                credentials: unexpired(old(self)@.credentials, now),
                ..old(self)@
            }),
            r@.len() == final(self)@.credentials.len(),
            forall|i: int|
                0 <= i < r@.len() ==> (#[trigger] r@[i])@ == final(self)@.credentials[i].0,
    {
        self.session_credentials.prune_expired(now);
        self.session_credentials.keys()
    }

    /// Drop the credentials under `hashes` whose auth session is not among
    /// `live` (logout, revocation, expiry).
    pub fn drop_revoked_credentials(&mut self, hashes: &Vec<String>, live: &Vec<String>)
        ensures
            final(self)@ == (ManagerState {
                credentials: without_dead(
                    old(self)@.credentials,
                    texts(hashes@),
                    texts(live@),
                ),
                ..old(self)@
            }),
    {
        let mut i: usize = 0;
        proof {
            assert(texts(hashes@).take(0) =~= Seq::empty());
        }
        while i < hashes.len()
            invariant
                i <= hashes@.len(),
                self.config == old(self).config,
                self@ == (ManagerState {
                    credentials: without_dead(
                        old(self)@.credentials,
                        texts(hashes@).take(i as int),
                        texts(live@),
                    ),
                    ..old(self)@
                }),
            decreases hashes@.len() - i,
        {
            let ghost t = texts(hashes@);
            proof {
                assert(t.take(i + 1).drop_last() =~= t.take(i as int));
                assert(t.take(i + 1).last() == hashes@[i as int]@);
            }
            if !list_has(live, hashes[i].as_str()) {
                self.session_credentials.remove_key(hashes[i].as_str());
            }
            i = i + 1;
        }
        proof {
            assert(texts(hashes@).take(i as int) =~= texts(hashes@));
        }
    }

    /// Number of retained session credentials.
    pub fn session_credentials_len(&self) -> (r: usize)
        ensures
            r == self@.credentials.len(),
    {
        self.session_credentials.len()
    }
}

/// Whether `cred` is the credential that is retained for a login.
pub open spec fn stored_credential(
    cred: RetainedSessionCredential,
    user_id: i64,
    username: Seq<char>,
    password_enc: String,
    ttl_secs: u64,
    now: Timestamp,
) -> bool {
    &&& cred.user_id == user_id
    &&& cred.username@ == username
    &&& cred.password_enc == password_enc
    &&& cred.expires_at == Timestamp { secs: (now.secs + ttl_secs) as i64, nanos: now.nanos }
}

// ── Shared registry ──
/// Before which second a registry row can no longer be live.
#[derive(Debug)]
pub struct SweepCutoffs {
    /// Rows still pending from before this second.
    pub pending: i64,
    /// Rows in a terminal state from before this second.
    pub terminal: i64,
    /// Live rows of other instances from before this second, if age tells.
    pub live: Option<i64>,
}

impl SessionManager {
    /// When registry rows are stale: pending rows after twice the pending
    /// timeout and at least a minute, terminal rows after a day, and live rows
    /// of other instances two hours after the maximum duration, if there is
    /// one.
    pub fn sweep_cutoffs(&self, now: Timestamp) -> (r: SweepCutoffs)
        requires
            self.config.session_pending_timeout_secs * 2 <= i64::MAX,
            self.config.session_max_duration_secs + 7200 <= i64::MAX,
            i64::MIN <= now.secs - self.config.session_pending_timeout_secs * 2,
            i64::MIN <= now.secs - (self.config.session_max_duration_secs + 7200),
            i64::MIN <= now.secs - 86400,
        ensures
            r.pending == now.secs - (if self.config.session_pending_timeout_secs * 2 > 60 {
                self.config.session_pending_timeout_secs * 2
            } else {
                60
            }),
            r.terminal == now.secs - 86400,
            r.live == if self.config.session_max_duration_secs > 0 {
                Some((now.secs - (self.config.session_max_duration_secs + 7200)) as i64)
            } else {
                None
            },
    {
        let twice: u64 = self.config.session_pending_timeout_secs * 2;
        let pending: u64 = if twice > 60 {
            twice
        } else {
            60
        };
        let max: u64 = self.config.session_max_duration_secs;
        SweepCutoffs {
            pending: now.secs - (pending as i64),
            terminal: now.secs - 86400,
            live: if max > 0 {
                Some(now.secs - (max as i64 + 7200))
            } else {
                None
            },
        }
    }

    /// This instance's stable identifier.
    pub fn instance_id(&self) -> (r: &str)
        ensures
            r@ == self.config.instance_id@,
    {
        self.config.instance_id.as_str()
    }

    /// This instance's public base URL, if configured.
    pub fn owner_base_url(&self) -> (r: Option<&str>)
        ensures
            crate::text::opt_str(r) == crate::text::opt_text(self.config.ha_base_url),
    {
        crate::text::borrow_opt(&self.config.ha_base_url)
    }

    /// Read-only access to the config.
    pub fn config(&self) -> (r: &Config)
        ensures
            *r == self.config,
    {
        &self.config
    }

    /// Directory where recordings and thumbnails are stored.
    pub fn recording_path(&self) -> (r: &str)
        ensures
            r@ == self.config.recording_dir@,
    {
        self.config.recording_dir.as_str()
    }

    /// Path to the thumbnails directory (under the recording path).
    pub fn thumbnails_dir(&self) -> (r: String)
        ensures
            r@ == path_join(self.config.recording_dir@, "thumbnails"@),
    {
        join_path(self.config.recording_dir.as_str(), "thumbnails")
    }

    /// Path to a specific session's thumbnail file.
    pub fn thumbnail_path(&self, session_id: u128) -> (r: String)
        ensures
            r@ == path_join(
                path_join(self.config.recording_dir@, "thumbnails"@),
                uuid_text(session_id) + ".jpg"@,
            ),
    {
        let id = uuid_string(session_id);
        let file = crate::text::join2(id.as_str(), ".jpg");
        join_path(self.thumbnails_dir().as_str(), file.as_str())
    }

    /// Path to a VDI container's thumbnail (persists across sessions).
    pub fn vdi_thumbnail_path(&self, container_name: &str) -> (r: String)
        ensures
            r@ == path_join(
                path_join(self.config.recording_dir@, "thumbnails"@),
                "vdi-"@ + container_name@ + ".jpg"@,
            ),
    {
        let file = join3("vdi-", container_name, ".jpg");
        join_path(self.thumbnails_dir().as_str(), file.as_str())
    }
}

/// The recording file of a session, for the session history.
pub fn recording_file(id: u128, recording: bool) -> (r: Option<String>)
    ensures
        crate::text::opt_text(r) == if recording {
            Some(uuid_text(id) + ".guac"@)
        } else {
            None
        },
{
    if recording {
        let text = uuid_string(id);
        Some(crate::text::join2(text.as_str(), ".guac"))
    } else {
        None
    }
}

/// A relative path under a directory.
pub open spec fn path_join(base: Seq<char>, rel: Seq<char>) -> Seq<char> {
    if base.len() == 0 {
        rel
    } else if base.last() == '/' {
        base + rel
    } else {
        base + "/"@ + rel
    }
}

/// A relative path under a directory.
pub fn join_path(base: &str, rel: &str) -> (r: String)
    ensures
        r@ == path_join(base@, rel@),
{
    if base.is_empty() {
        return rel.to_owned();
    }
    let v = crate::text::chars(base);
    if v[v.len() - 1] == '/' {
        crate::text::join2(base, rel)
    } else {
        join3(base, "/", rel)
    }
}

// ── What every operation keeps ──
/// A viewer who gets a slot and leaves again leaves the manager as it was.
pub proof fn law_viewer_slot_returns(m: ManagerState, id: u128, max_viewers: u32)
    requires
        m.wf(),
        m.session(id) is Some ==> m.session(id)->0.active_connections < u32::MAX,
        join_refusal(m, id, max_viewers) is None,
    ensures
        ({
            let n = m.viewer_added(id, max_viewers);
            let i = find(n.sessions, id)->0;
            n.with(i, one_viewer_less(n.sessions[i])) == m
        }),
{
    let i = find(m.sessions, id)->0;
    let s = m.sessions[i];
    let t = Session { active_connections: (s.active_connections + 1) as u32, ..s };
    lemma_find(m.sessions, id);
    lemma_find_after_update(m.sessions, i, t, id);
    assert(m.sessions.update(i, t).update(i, one_viewer_less(t)) =~= m.sessions);
}

/// A viewer cap is never passed: where a slot is given, there were fewer
/// viewers than the cap allows.
pub proof fn law_viewer_cap_holds(m: ManagerState, id: u128, max_viewers: u32)
    requires
        m.wf(),
        max_viewers > 0,
        m.session(id) is Some ==> m.session(id)->0.active_connections < u32::MAX,
        join_refusal(m, id, max_viewers) is None,
        m.owner_connected.contains(id) ==> m.session(id)->0.active_connections > 0,
    ensures
        ({
            let n = m.viewer_added(id, max_viewers);
            viewers(n, n.session(id)->0) <= max_viewers
        }),
{
    let i = find(m.sessions, id)->0;
    let s = m.sessions[i];
    let t = Session { active_connections: (s.active_connections + 1) as u32, ..s };
    lemma_find(m.sessions, id);
    lemma_find_after_update(m.sessions, i, t, id);
}

/// A real transition publishes exactly one event, with the next number; an
/// unchanged status publishes none.
pub proof fn law_one_event_per_transition(
    m: ManagerState,
    was: SessionStatus,
    s: Session,
    now: Timestamp,
)
    requires
        m.wf(),
        m.has_room(1),
    ensures
        was == s.status ==> m.transitioned(was, s, now) == m,
        was != s.status ==> m.transitioned(was, s, now).events.next_id == m.events.next_id + 1
            && m.transitioned(was, s, now).events.after((m.events.next_id - 1) as u64).len() == 1,
        was != s.status ==> (m.transitioned(was, s, now).events.events.last().event
            == SessionEventKind::SessionEnded <==> s.status.terminal()),
{
    if was != s.status {
        let kind = if s.status.terminal() {
            SessionEventKind::SessionEnded
        } else {
            SessionEventKind::StatusChanged
        };
        crate::session::events::law_replay_follows_publish(m.events, event_of(kind, s, now));
        let p = m.events.events.push(SessionEvent { id: m.events.next_id, ..event_of(kind, s, now) });
        assert(m.transitioned(was, s, now).events.events.last() == p.last());
    }
}

/// A session in a terminal state never becomes live again: the owner cannot
/// connect, viewers cannot join, no timer moves it, and an error that is still
/// reported leaves it in a terminal state.
pub proof fn law_terminal_stays(
    m: ManagerState,
    id: u128,
    deferred: Option<ConnectionParams>,
    made: Option<(u64, String)>,
    max_viewers: u32,
    now: Timestamp,
)
    requires
        m.wf(),
        m.session(id) is Some,
        m.session(id)->0.status.terminal(),
    ensures
        m.completed(id, now) == m,
        m.disconnected(id, now) == m,
        m.lapsed(id, now) == m,
        m.connecting(id, SessionStatus::Pending) == m,
        m.connecting(id, SessionStatus::Disconnected) == m,
        m.connected(id, SessionStatus::Pending, deferred, made, now) == m,
        m.connected(id, SessionStatus::Disconnected, deferred, made, now) == m,
        join_refusal(m, id, max_viewers) == Some(SessionError::NotActive),
        m.errored(id, now).session(id) is Some,
        m.errored(id, now).session(id)->0.status == SessionStatus::Error,
{
    let after = m.errored(id, now);
    lemma_find(m.sessions, id);
    if m.session(id)->0.status != SessionStatus::Error {
        let k = find(m.sessions, id)->0;
        let t = closed(m.sessions[k], SessionStatus::Error, true);
        assert(after.sessions == m.sessions.update(k, t));
        assert forall|j: int| 0 <= j < k implies (#[trigger] after.sessions[j]).id != id by {
            assert(after.sessions[j] == m.sessions[j]);
        }
        lemma_find_is(after.sessions, id, k);
    }
}

/// Whether every owner who holds a stream holds that of an active session.
pub open spec fn owners_hold_active(m: ManagerState) -> bool {
    forall|o: u128|
        #[trigger] m.owner_connected.contains(o) ==> m.in_status(
            o,
            SessionStatus::Active,
            SessionStatus::Active,
        )
}

/// What happens to one session leaves owners of others alone: where its own
/// owner is gone or it is active, every owner still holds an active session.
proof fn lemma_owners_after_update(m: ManagerState, n: ManagerState, i: int, t: Session)
    requires
        m.wf(),
        owners_hold_active(m),
        0 <= i < m.sessions.len(),
        t.id == m.sessions[i].id,
        n.sessions == m.sessions.update(i, t),
        forall|o: u128|
            #[trigger] n.owner_connected.contains(o) && o != t.id
                ==> m.owner_connected.contains(o),
        n.owner_connected.contains(t.id) ==> t.status == SessionStatus::Active,
    ensures
        owners_hold_active(n),
{
    assert forall|o: u128| #[trigger] n.owner_connected.contains(o) implies n.in_status(
        o,
        SessionStatus::Active,
        SessionStatus::Active,
    ) by {
        lemma_find_after_update(m.sessions, i, t, o);
        lemma_find(m.sessions, o);
        if o == t.id {
            let k = find(m.sessions, o)->0;
            if k != i {
                assert(m.sessions[k].id == m.sessions[i].id);
            }
        } else {
            assert(m.owner_connected.contains(o));
        }
    }
}

/// An owner holds the stream of an active session only: every way in which a
/// session stops being active also lets its owner go.
pub proof fn law_owners_hold_active_sessions(
    m: ManagerState,
    id: u128,
    from: SessionStatus,
    deferred: Option<ConnectionParams>,
    made: Option<(u64, String)>,
    now: Timestamp,
)
    requires
        m.wf(),
        m.has_room(1),
        owners_hold_active(m),
        from == SessionStatus::Pending || from == SessionStatus::Disconnected,
    ensures
        owners_hold_active(m.connected(id, from, deferred, made, now)),
        owners_hold_active(m.connect_failed(id, from, now)),
        owners_hold_active(m.disconnected(id, now)),
        owners_hold_active(m.completed(id, now)),
        owners_hold_active(m.errored(id, now)),
        owners_hold_active(m.lapsed(id, now)),
        owners_hold_active(m.finalized(id, now)),
        owners_hold_active(m.deleted(id, now)),
{
    lemma_find(m.sessions, id);
    if let Some(i) = find(m.sessions, id) {
        let s = m.sessions[i];
        assert(m.owner_connected.contains(id) ==> s.status == SessionStatus::Active);
        if s.status == from {
            let w = handed_out(installed(s, deferred, made));
            lemma_owners_after_update(m, m.connected(id, from, deferred, made, now), i, w);
            let f = Session { status: SessionStatus::Error, ..s };
            lemma_owners_after_update(m, m.connect_failed(id, from, now), i, f);
        }
        if s.status == SessionStatus::Active {
            let t = closed(s, SessionStatus::Disconnected, true);
            lemma_owners_after_update(m, m.disconnected(id, now), i, t);
        }
        if s.status == SessionStatus::Active || s.status == SessionStatus::Disconnected {
            let t = closed(s, SessionStatus::Completed, false);
            lemma_owners_after_update(m, m.completed(id, now), i, t);
        }
        if s.status != SessionStatus::Error {
            let t = closed(s, SessionStatus::Error, true);
            lemma_owners_after_update(m, m.errored(id, now), i, t);
        }
        if s.status == SessionStatus::Pending {
            let t = closed(s, SessionStatus::Expired, true);
            lemma_owners_after_update(m, m.lapsed(id, now), i, t);
        }
        let e = if s.status == SessionStatus::Disconnected {
            Session { status: SessionStatus::Expired, ..s }
        } else {
            s
        };
        lemma_owners_after_update(
            m,
            m.finalized(id, now),
            i,
            Session { container_id: None, ..e },
        );
        let n = m.deleted(id, now);
        assert forall|o: u128| #[trigger] n.owner_connected.contains(o) implies n.in_status(
            o,
            SessionStatus::Active,
            SessionStatus::Active,
        ) by {
            lemma_deleted(m, id, o, now);
            assert(m.owner_connected.contains(o));
        }
    }
}

} // verus!
