//! What becomes of a session: by whom it can be joined, what every step
//! changes and keeps, and when it ends.

use crate::config::Config;
use crate::guacd::ConnectionParams;
use crate::metrics::Metrics;
use crate::outside::{registry_second, uuid_of, uuid_text};
use crate::session::credentials::{
    distinct_keys, law_removed_is_gone, lookup, token_key, Entries, RetainedSessionCredential,
};
use crate::session::manager::{
    belongs_to, bucket_count, closed, closing_of, count_where, ending_of, event_of, finalized_as,
    find, handed_out, idle, ids_where, installed, join_refusal, lemma_deleted, lemma_deleted_all,
    lemma_find, lemma_find_after_update, lemma_find_is, lists, live_tokens, lived_longer, minted,
    one_viewer_less, others, overdue, past_window, path_join, reaped_all, reaped_as, remote_rows,
    row_expiry, row_verdict, shows_local, shows_row, stale, stopped, stored_credential, viewers,
    without_dead, Finalized, ManagerState, Reaped,
};
use crate::session::sweep::{row_of, rows_of, HistoryRow};
use crate::session::types::{
    Session, SessionError, SessionEventKind, SessionInfo, SessionRegistryRow, SessionStatus,
    ShadowToken, ShareTokenValidation,
};
use crate::session::{shadow_hit, token_verdict};
use crate::time::{elapsed_seconds, Timestamp};
use vstd::prelude::*;
use vstd::string::*;

verus! {

// ── Finding sessions ──
/// A session is found by its id.
pub proof fn law_session_is_found_by_id(m: ManagerState, id: u128, k: int)
    requires
        m.wf(),
        0 <= k < m.sessions.len(),
    ensures
        m.sessions[k].id == id ==> m.session(id) == Some(m.sessions[k]),
        m.session(id) is Some ==> m.session(id)->0.id == id && m.sessions.contains(
            m.session(id)->0,
        ),
        (forall|i: int| 0 <= i < m.sessions.len() ==> (#[trigger] m.sessions[i]).id != id)
            ==> m.session(id) is None,
{
    lemma_find(m.sessions, id);
    if m.sessions[k].id == id {
        assert forall|j: int| 0 <= j < k implies (#[trigger] m.sessions[j]).id != id by {}
        lemma_find_is(m.sessions, id, k);
    }
}

/// What replacing one session does: it is replaced, and no other changes.
proof fn lemma_replaced(
    m: ManagerState,
    n: ManagerState,
    i: int,
    t: Session,
    id: u128,
    other: u128,
)
    requires
        find(m.sessions, id) == Some(i),
        t.id == id,
        n.sessions == m.sessions.update(i, t),
    ensures
        n.session(id) == Some(t),
        other != id ==> n.session(other) == m.session(other),
{
    lemma_find(m.sessions, id);
    lemma_find(m.sessions, other);
    lemma_find_after_update(m.sessions, i, t, id);
    lemma_find_after_update(m.sessions, i, t, other);
}

// ── Connecting ──
/// A connection that was made for an owner is the session's: its stream is
/// handed out, and the next viewer is sent to that connection and to no other.
/// The session becomes active, with one connection more and its owner counted,
/// and it keeps the parameters for the next time.
pub proof fn law_owner_gets_the_made_connection(
    m: ManagerState,
    id: u128,
    from: SessionStatus,
    deferred: Option<ConnectionParams>,
    stream: u64,
    connection: String,
    now: Timestamp,
    other: u128,
)
    requires
        m.wf(),
        m.has_room(1),
        m.session(id) is Some,
        m.session(id)->0.status == from,
        from == SessionStatus::Pending || from == SessionStatus::Disconnected,
        m.session(id)->0.active_connections < u32::MAX,
    ensures
        ({
            let s = m.session(id)->0;
            let n = m.connected(id, from, deferred, Some((stream, connection)), now);
            &&& installed(s, deferred, Some((stream, connection))).guacd_stream == Some(stream)
            &&& n.session(id) is Some
            &&& n.session(id)->0.connection_id == connection
            &&& n.session(id)->0.status == SessionStatus::Active
            &&& n.session(id)->0.guacd_stream is None
            &&& n.session(id)->0.deferred_params == deferred
            &&& n.session(id)->0.active_connections == s.active_connections + 1
            &&& n.session(id)->0.share_token == s.share_token
            &&& n.session(id)->0.width == s.width && n.session(id)->0.height == s.height
            &&& n.session(id)->0.created_at == s.created_at
            &&& n.owner_connected == m.owner_connected.insert(id)
            &&& from == SessionStatus::Disconnected ==> !n.disconnected_at.contains_key(id)
            &&& from == SessionStatus::Pending ==> n.disconnected_at == m.disconnected_at
            &&& other != id ==> n.session(other) == m.session(other)
            &&& n.credentials == m.credentials && n.config == m.config && n.ended_at == m.ended_at
        }),
{
    lemma_find(m.sessions, id);
    let i = find(m.sessions, id)->0;
    let n = m.connected(id, from, deferred, Some((stream, connection)), now);
    let t = handed_out(installed(m.sessions[i], deferred, Some((stream, connection))));
    lemma_replaced(m, n, i, t, id, other);
}

/// Without a new connection the owner gets the stream that the session holds,
/// and the session stays where it was connected. Without any stream nothing is
/// handed out and the session does not become active.
pub proof fn law_owner_gets_the_held_stream(
    m: ManagerState,
    id: u128,
    from: SessionStatus,
    deferred: Option<ConnectionParams>,
    now: Timestamp,
    other: u128,
)
    requires
        m.wf(),
        m.has_room(1),
        m.session(id) is Some,
        m.session(id)->0.status == from,
        from == SessionStatus::Pending || from == SessionStatus::Disconnected,
        m.session(id)->0.active_connections < u32::MAX,
    ensures
        ({
            let s = m.session(id)->0;
            let n = m.connected(id, from, deferred, None, now);
            &&& installed(s, deferred, None).guacd_stream == s.guacd_stream
            &&& n.session(id) is Some
            &&& n.session(id)->0.connection_id == s.connection_id
            &&& n.session(id)->0.guacd_stream is None
            &&& n.session(id)->0.deferred_params == deferred
            &&& s.guacd_stream is Some ==> n.session(id)->0.status == SessionStatus::Active
                && n.owner_connected.contains(id)
            &&& s.guacd_stream is None ==> n.session(id)->0.status == from && n.owner_connected
                == m.owner_connected && n.metrics == m.metrics && n.events == m.events
            &&& other != id ==> n.session(other) == m.session(other)
        }),
{
    lemma_find(m.sessions, id);
    let i = find(m.sessions, id)->0;
    let n = m.connected(id, from, deferred, None, now);
    let t = handed_out(installed(m.sessions[i], deferred, None));
    lemma_replaced(m, n, i, t, id, other);
}

/// A session that is not in the status from which its owner connects is not
/// touched; while a connect runs only the deferred parameters are out; and a
/// failed one leaves an error and nothing else changed.
pub proof fn law_connects_start_and_fail_cleanly(
    m: ManagerState,
    id: u128,
    from: SessionStatus,
    deferred: Option<ConnectionParams>,
    made: Option<(u64, String)>,
    now: Timestamp,
    other: u128,
)
    requires
        m.wf(),
        m.has_room(1),
        from == SessionStatus::Pending || from == SessionStatus::Disconnected,
    ensures
        m.session(id) is None || m.session(id)->0.status != from ==> m.connecting(id, from) == m
            && m.connected(id, from, deferred, made, now) == m && m.connect_failed(id, from, now)
            == m,
        m.session(id) is Some && m.session(id)->0.status == from ==> {
            let s = m.session(id)->0;
            &&& m.connecting(id, from).session(id) == Some(Session { deferred_params: None, ..s })
            &&& m.connect_failed(id, from, now).session(id) == Some(
                Session { status: SessionStatus::Error, ..s },
            )
            &&& m.connect_failed(id, from, now).metrics == m.metrics
            &&& m.connect_failed(id, from, now).ended_at == m.ended_at.insert(id, now)
            &&& other != id ==> m.connecting(id, from).session(other) == m.session(other)
                && m.connect_failed(id, from, now).session(other) == m.session(other)
        },
{
    lemma_find(m.sessions, id);
    if m.session(id) is Some && m.session(id)->0.status == from {
        let i = find(m.sessions, id)->0;
        let s = m.sessions[i];
        lemma_replaced(
            m,
            m.connecting(id, from),
            i,
            Session { deferred_params: None, ..s },
            id,
            other,
        );
        lemma_replaced(
            m,
            m.connect_failed(id, from, now),
            i,
            Session { status: SessionStatus::Error, ..s },
            id,
            other,
        );
    }
}

// ── Viewers ──
/// Viewers can join an active session as long as there are fewer than the
/// maximum, the owner not counted; a maximum of 0 is none. One who joins counts,
/// and changes nothing else.
pub proof fn law_viewers_join_active_sessions(
    m: ManagerState,
    id: u128,
    max_viewers: u32,
    other: u128,
)
    requires
        m.wf(),
        m.session(id) is Some ==> m.session(id)->0.active_connections < u32::MAX,
    ensures
        m.session(id) is None ==> join_refusal(m, id, max_viewers) == Some(SessionError::NotFound),
        m.session(id) is Some && m.session(id)->0.status != SessionStatus::Active ==> join_refusal(
            m,
            id,
            max_viewers,
        ) == Some(SessionError::NotActive),
        m.session(id) is Some && m.session(id)->0.status == SessionStatus::Active ==> {
            let n = m.session(id)->0.active_connections;
            let others = if m.owner_connected.contains(id) && n > 0 {
                n - 1
            } else {
                n as int
            };
            &&& join_refusal(m, id, max_viewers) is None <==> max_viewers == 0 || others
                < max_viewers
            &&& join_refusal(m, id, max_viewers) is Some ==> join_refusal(m, id, max_viewers)->0
                == (SessionError::ViewerLimit { viewers: others as u32, max: max_viewers })
        },
        join_refusal(m, id, max_viewers) is Some ==> m.viewer_added(id, max_viewers) == m,
        join_refusal(m, id, max_viewers) is None ==> {
            let s = m.session(id)->0;
            let n = m.viewer_added(id, max_viewers);
            &&& n.session(id) == Some(
                Session { active_connections: (s.active_connections + 1) as u32, ..s },
            )
            &&& other != id ==> n.session(other) == m.session(other)
            &&& n.owner_connected == m.owner_connected && n.metrics == m.metrics && n.events
                == m.events
        },
{
    lemma_find(m.sessions, id);
    if join_refusal(m, id, max_viewers) is None {
        let i = find(m.sessions, id)->0;
        let s = m.sessions[i];
        let t = Session { active_connections: (s.active_connections + 1) as u32, ..s };
        lemma_replaced(m, m.viewer_added(id, max_viewers), i, t, id, other);
    }
}

/// One connection less, and never less than none.
pub proof fn law_leaving_counts_down(s: Session)
    ensures
        s.active_connections > 0 ==> one_viewer_less(s).active_connections + 1
            == s.active_connections,
        s.active_connections == 0 ==> one_viewer_less(s).active_connections == 0,
        one_viewer_less(s) == (Session {
            active_connections: one_viewer_less(s).active_connections,
            ..s
        }),
{
}

// ── Ending ──
/// A session that is closed keeps who it is and how it is reached again: only
/// its status, its stream and what ran for it change.
pub proof fn law_closing_keeps_the_record(s: Session, status: SessionStatus, drop_stream: bool)
    ensures
        ({
            let t = closed(s, status, drop_stream);
            &&& t.status == status
            &&& drop_stream ==> t.guacd_stream is None
            &&& !drop_stream ==> t.guacd_stream == s.guacd_stream
            &&& t.login_script_handle is None && t.browser_session is None && t.drive_path is None
                && t.tunnels is None
            &&& t == Session {
                status,
                guacd_stream: t.guacd_stream,
                login_script_handle: None,
                browser_session: None,
                drive_path: None,
                tunnels: None,
                ..s
            }
        }),
{
}

/// Closing a session hands over all that ran for it: its stream, its login
/// script, its browser, its tunnels, and its directory where that is to go.
/// Whoever is connected is told to stop exactly where the session is ended.
pub proof fn law_closing_hands_over_everything(s: Session, config: Config)
    ensures
        closing_of(s, config).stream == s.guacd_stream,
        closing_of(s, config).teardown.login_script == s.login_script_handle,
        closing_of(s, config).teardown.browser == s.browser_session,
        closing_of(s, config).teardown.tunnels == s.tunnels,
        closing_of(s, config).teardown.drive is Some <==> s.drive_path is Some && (config.drive
            is None || config.drive->0.cleanup_on_close),
        closing_of(s, config).teardown.drive is Some ==> closing_of(s, config).teardown.drive->0.path
            == s.drive_path->0 && closing_of(s, config).teardown.drive->0.retention_secs == (if config.drive
            is Some {
            config.drive->0.retention_secs
        } else {
            0
        }),
        !closing_of(s, config).cancel && ending_of(s, config).cancel,
        ending_of(s, config).stream == s.guacd_stream,
        ending_of(s, config).teardown == closing_of(s, config).teardown,
{
}

/// An active session whose browser goes away can be reconnected: it waits
/// without a stream, from now on, with its parameters, its tokens and its
/// container. No other session is.
pub proof fn law_disconnected_sessions_wait(m: ManagerState, id: u128, now: Timestamp, other: u128)
    requires
        m.wf(),
        m.has_room(1),
    ensures
        m.session(id) is None || m.session(id)->0.status != SessionStatus::Active
            ==> m.disconnected(id, now) == m,
        m.session(id) is Some && m.session(id)->0.status == SessionStatus::Active ==> {
            let s = m.session(id)->0;
            let n = m.disconnected(id, now);
            &&& n.session(id) is Some
            &&& n.session(id)->0.status == SessionStatus::Disconnected
            &&& n.session(id)->0.guacd_stream is None
            &&& n.session(id)->0.deferred_params == s.deferred_params
            &&& n.session(id)->0.share_token == s.share_token && n.session(id)->0.shadow_tokens
                == s.shadow_tokens
            &&& n.session(id)->0.container_id == s.container_id
            &&& n.disconnected_at == m.disconnected_at.insert(id, now)
            &&& n.owner_connected == m.owner_connected.remove(id)
            &&& n.ended_at == m.ended_at
            &&& other != id ==> n.session(other) == m.session(other)
        },
{
    lemma_find(m.sessions, id);
    if m.session(id) is Some && m.session(id)->0.status == SessionStatus::Active {
        let i = find(m.sessions, id)->0;
        let t = closed(m.sessions[i], SessionStatus::Disconnected, true);
        lemma_replaced(m, m.disconnected(id, now), i, t, id, other);
    }
}

/// A session that was active or disconnected can be completed, one that waits
/// for its owner can expire, and any can fail; each is an end that is noted and
/// lets the owner go. Nothing else changes.
pub proof fn law_sessions_end_once(m: ManagerState, id: u128, now: Timestamp, other: u128)
    requires
        m.wf(),
        m.has_room(1),
    ensures
        ({
            let can = m.session(id) is Some && (m.session(id)->0.status == SessionStatus::Active
                || m.session(id)->0.status == SessionStatus::Disconnected);
            let n = m.completed(id, now);
            &&& !can ==> n == m
            &&& can ==> n.session(id) is Some && n.session(id)->0.status
                == SessionStatus::Completed && n.ended_at == m.ended_at.insert(id, now)
                && n.owner_connected == m.owner_connected.remove(id)
            &&& other != id ==> n.session(other) == m.session(other)
        }),
        ({
            let can = m.session(id) is Some && m.session(id)->0.status == SessionStatus::Pending;
            let n = m.lapsed(id, now);
            &&& !can ==> n == m
            &&& can ==> n.session(id) is Some && n.session(id)->0.status == SessionStatus::Expired
                && n.session(id)->0.guacd_stream is None && n.ended_at == m.ended_at.insert(id, now)
            &&& other != id ==> n.session(other) == m.session(other)
        }),
        ({
            let can = m.session(id) is Some && m.session(id)->0.status != SessionStatus::Error;
            let n = m.errored(id, now);
            &&& !can ==> n == m
            &&& can ==> n.session(id) is Some && n.session(id)->0.status == SessionStatus::Error
                && n.session(id)->0.guacd_stream is None && n.ended_at == m.ended_at.insert(id, now)
                && n.owner_connected == m.owner_connected.remove(id)
            &&& other != id ==> n.session(other) == m.session(other)
        }),
{
    lemma_find(m.sessions, id);
    if let Some(i) = find(m.sessions, id) {
        let s = m.sessions[i];
        if s.status == SessionStatus::Active || s.status == SessionStatus::Disconnected {
            lemma_replaced(
                m,
                m.completed(id, now),
                i,
                closed(s, SessionStatus::Completed, false),
                id,
                other,
            );
        }
        if s.status == SessionStatus::Pending {
            lemma_replaced(
                m,
                m.lapsed(id, now),
                i,
                closed(s, SessionStatus::Expired, true),
                id,
                other,
            );
        }
        if s.status != SessionStatus::Error {
            lemma_replaced(
                m,
                m.errored(id, now),
                i,
                closed(s, SessionStatus::Error, true),
                id,
                other,
            );
        }
    }
}

/// No step of a session touches the configuration, the shutdown, the
/// subscribers, the retained logins or any counter but the gauge of active
/// sessions.
pub proof fn law_steps_leave_the_rest(
    m: ManagerState,
    id: u128,
    from: SessionStatus,
    deferred: Option<ConnectionParams>,
    made: Option<(u64, String)>,
    now: Timestamp,
)
    ensures
        leaves_the_rest(m, m.completed(id, now)),
        leaves_the_rest(m, m.disconnected(id, now)),
        leaves_the_rest(m, m.errored(id, now)),
        leaves_the_rest(m, m.lapsed(id, now)),
        leaves_the_rest(m, m.finalized(id, now)),
        leaves_the_rest(m, m.deleted(id, now)),
        leaves_the_rest(m, m.connected(id, from, deferred, made, now)),
        m.completed(id, now).disconnected_at == m.disconnected_at,
        m.lapsed(id, now).metrics == m.metrics && m.lapsed(id, now).owner_connected
            == m.owner_connected && m.lapsed(id, now).disconnected_at == m.disconnected_at,
        m.errored(id, now).disconnected_at == m.disconnected_at,
        m.finalized(id, now).metrics == m.metrics,
{
}

/// Whether a step left everything that is not of sessions.
pub open spec fn leaves_the_rest(m: ManagerState, n: ManagerState) -> bool {
    &&& n.config == m.config && n.shutdown == m.shutdown && n.subscribers == m.subscribers
    &&& n.credentials == m.credentials
    &&& n.metrics == (Metrics { sessions_active: n.metrics.sessions_active, ..m.metrics })
}

/// A deleted session is gone with all that was kept beside it, its end is told
/// as completed unless it had completed before, and no other session changes.
pub proof fn law_deleted_sessions_are_gone(m: ManagerState, id: u128, now: Timestamp, other: u128)
    requires
        m.wf(),
        m.has_room(1),
    ensures
        m.session(id) is None ==> m.deleted(id, now) == m,
        m.session(id) is Some ==> {
            let s = m.session(id)->0;
            let n = m.deleted(id, now);
            &&& n.session(id) is None
            &&& n.sessions.len() + 1 == m.sessions.len()
            &&& !n.ended_at.contains_key(id) && !n.disconnected_at.contains_key(id)
                && !n.owner_connected.contains(id)
            &&& s.status != SessionStatus::Completed ==> n.events == m.events.appended(
                event_of(
                    SessionEventKind::SessionEnded,
                    Session { status: SessionStatus::Completed, ..s },
                    now,
                ),
            )
            &&& s.status == SessionStatus::Completed ==> n.events == m.events
            &&& other != id ==> n.session(other) == m.session(other)
            &&& n.credentials == m.credentials && n.config == m.config
        },
{
    lemma_find(m.sessions, id);
    lemma_deleted(m, id, other, now);
}

/// Expiring a disconnected session lets its container go and tells its end;
/// its report names that container.
pub proof fn law_finalized_sessions_expire(
    m: ManagerState,
    id: u128,
    now: Timestamp,
    other: u128,
    r: Finalized,
    s: Session,
)
    requires
        m.wf(),
        m.has_room(1),
    ensures
        m.session(id) is Some ==> m.finalized(id, now).session(id) == Some(
            Session {
                status: if m.session(id)->0.status == SessionStatus::Disconnected {
                    SessionStatus::Expired
                } else {
                    m.session(id)->0.status
                },
                container_id: None,
                ..m.session(id)->0
            },
        ),
        m.session(id) is None ==> m.finalized(id, now) == m,
        other != id ==> m.finalized(id, now).session(other) == m.session(other),
        finalized_as(r, s, now) ==> r.id == s.id && r.container_id == s.container_id
            && r.recording == s.recording_enabled && r.duration_secs == elapsed_seconds(
            s.created_at,
            now,
        ),
{
    lemma_find(m.sessions, id);
    if let Some(i) = find(m.sessions, id) {
        let s = m.sessions[i];
        let t = Session {
            status: if s.status == SessionStatus::Disconnected {
                SessionStatus::Expired
            } else {
                s.status
            },
            container_id: None,
            ..s
        };
        assert(m.finalized(id, now).sessions =~= m.sessions.update(i, t));
        lemma_replaced(m, m.finalized(id, now), i, t, id, other);
    }
}

/// The event of a session tells which session it is, of what kind and whose,
/// and what status it has now.
pub proof fn law_events_tell_the_session(kind: SessionEventKind, s: Session, now: Timestamp)
    ensures
        event_of(kind, s, now).event == kind,
        event_of(kind, s, now).session_id == s.id,
        event_of(kind, s, now).session_type == s.session_type,
        event_of(kind, s, now).status == s.status,
        event_of(kind, s, now).created_by == s.created_by,
        event_of(kind, s, now).timestamp == now,
{
}

// ── Reaping ──
/// Only sessions that wait for their owner or are active are reaped: for their
/// age, counted from their creation, or for silence, counted from the last
/// activity, where there was any.
pub proof fn law_reaping_is_by_age_and_silence(
    s: Session,
    max: u64,
    limit: i64,
    now: Timestamp,
)
    ensures
        overdue(s, max, now) <==> (s.status == SessionStatus::Active || s.status
            == SessionStatus::Pending) && now.ticks() - s.created_at.ticks() > max * 1_000_000_000,
        idle(s, limit, now) <==> (s.status == SessionStatus::Active || s.status
            == SessionStatus::Pending) && s.last_activity > 0 && now.secs - s.last_activity > limit,
        limit >= 0 ==> (lived_longer(s, limit, now) <==> (s.status == SessionStatus::Active
            || s.status == SessionStatus::Pending) && now.ticks() - s.created_at.ticks() >= (limit
            + 1) * 1_000_000_000),
{
    let d = now.ticks() - s.created_at.ticks();
    if limit >= 0 {
        assert(d / 1_000_000_000 > limit <==> d >= (limit + 1) * 1_000_000_000);
        if d < 0 {
            assert((-d) / 1_000_000_000 >= 0);
        }
    }
}

/// Clean-up waits its delay from the end of a session, or for one that can be
/// reconnected from the disconnect; where neither was noted, from the creation.
pub proof fn law_cleanup_waits_its_delay(
    s: Session,
    times: Map<u128, Timestamp>,
    delay: u64,
    now: Timestamp,
)
    ensures
        ({
            let start = if times.contains_key(s.id) {
                times[s.id]
            } else {
                s.created_at
            };
            let over = now.ticks() - start.ticks() > delay * 1_000_000_000;
            &&& stale(s, times, delay, now) <==> over && (s.status == SessionStatus::Completed
                || s.status == SessionStatus::Error || s.status == SessionStatus::Expired)
            &&& past_window(s, times, delay, now) <==> over && s.status
                == SessionStatus::Disconnected
        }),
{
}

/// Sessions are picked by what holds of them, in order, and counted the same
/// way.
pub proof fn law_picking_is_exact(s: Seq<Session>, p: spec_fn(Session) -> bool)
    ensures
        ids_where(s, p) == s.filter(p).map_values(|x: Session| x.id),
        count_where(s, p) == s.filter(p).len(),
    decreases s.len(),
{
    reveal(Seq::filter);
    let id = |x: Session| x.id;
    if s.len() > 0 {
        let front = s.drop_last();
        law_picking_is_exact(front, p);
        let f = front.filter(p);
        if p(s.last()) {
            assert(f.push(s.last()).map_values(id) =~= f.map_values(id).push(s.last().id));
        }
    } else {
        assert(s.filter(p).map_values(id) =~= Seq::empty());
    }
}

/// A reaper's report is of the session that it ended: its id, whether it was
/// recorded, and all that it gave up, with the word to stop.
pub proof fn law_reports_are_of_the_session(
    r: Reaped,
    s: Session,
    config: Config,
    now: Timestamp,
)
    requires
        reaped_as(r, s, config, now),
    ensures
        r.id == s.id && r.recording == s.recording_enabled,
        r.duration_secs == elapsed_seconds(s.created_at, now),
        r.closing == ending_of(s, config),
        now.ticks() >= s.created_at.ticks() ==> r.duration_secs * 1_000_000_000 <= now.ticks()
            - s.created_at.ticks() < (r.duration_secs + 1) * 1_000_000_000 || r.duration_secs
            == u64::MAX,
        r.closing.cancel && r.closing.stream == s.guacd_stream && r.closing.teardown.browser
            == s.browser_session && r.closing.teardown.tunnels == s.tunnels,
{
}

/// A session belongs to its user, or without one to its creator.
pub proof fn law_sessions_have_one_user(s: Session, user: Seq<char>)
    ensures
        s.user_id is Some ==> (belongs_to(s, user) <==> s.user_id->0@ == user),
        s.user_id is None ==> (belongs_to(s, user) <==> s.created_by@ == user),
{
}

/// A shutdown tells exactly the live sessions to stop.
pub proof fn law_shutdown_stops_the_live(s: Session)
    ensures
        s.status == SessionStatus::Active || s.status == SessionStatus::Pending ==> stopped(s) == (
        Session { cancelled: true, ..s }),
        s.status != SessionStatus::Active && s.status != SessionStatus::Pending ==> stopped(s) == s,
{
}

/// A round that reaps sessions deletes each of them, reports each in its order,
/// and leaves the others.
pub proof fn law_reaping_reports_each(
    before: ManagerState,
    after: ManagerState,
    ids: Seq<u128>,
    out: Seq<Reaped>,
    config: Config,
    now: Timestamp,
    k: int,
    other: u128,
)
    requires
        before.wf(),
        before.has_room(ids.len() as int),
        reaped_all(before, after, ids, out, config, now),
    ensures
        out.len() == ids.len(),
        0 <= k < ids.len() ==> before.session(ids[k]) is Some && out[k].id == ids[k]
            && after.session(ids[k]) is None && out[k].recording
            == before.session(ids[k])->0.recording_enabled && out[k].duration_secs
            == elapsed_seconds(before.session(ids[k])->0.created_at, now) && out[k].closing
            == ending_of(before.session(ids[k])->0, config),
        !ids.contains(other) ==> after.session(other) == before.session(other),
{
    lemma_deleted_all(before, ids, other, now);
    if 0 <= k < ids.len() {
        assert(reaped_as(out[k], before.session(ids[k])->0, config, now));
        lemma_find(before.sessions, ids[k]);
        lemma_deleted_all(before, ids, ids[k], now);
        assert(ids.contains(ids[k]));
    }
}

/// The history keeps who had which session where, and nothing of credentials.
pub proof fn law_history_rows(
    row: HistoryRow,
    s: Session,
    rows: Seq<HistoryRow>,
    m: ManagerState,
    ids: Seq<u128>,
    k: int,
)
    ensures
        row_of(row, s) ==> row.session_id@ == uuid_text(s.id) && row.session_type@
            == s.session_type.name() && row.hostname == s.hostname && row.username == s.username
            && row.created_by == s.created_by && row.address_book_entry == s.address_book_entry
            && row.address_book_folder == s.address_book_folder && row.entry_display_name
            == s.entry_display_name && row.source_ip == s.source_ip,
        rows_of(rows, m, ids) ==> rows.len() == ids.len(),
        rows_of(rows, m, ids) && 0 <= k < ids.len() && m.session(ids[k]) is Some
            ==> rows[k].session_id@ == uuid_text(m.session(ids[k])->0.id) && rows[k].hostname
            == m.session(ids[k])->0.hostname,
{
    if rows_of(rows, m, ids) && 0 <= k < ids.len() {
        assert(row_of(rows[k], m.session(ids[k])->0));
    }
}

/// A retained login is the user's own, and expires with its token.
pub proof fn law_retained_login(
    cred: RetainedSessionCredential,
    user_id: i64,
    username: Seq<char>,
    password_enc: String,
    ttl_secs: u64,
    now: Timestamp,
)
    requires
        now.secs + ttl_secs <= i64::MAX,
        stored_credential(cred, user_id, username, password_enc, ttl_secs, now),
    ensures
        cred.user_id == user_id,
        cred.username@ == username,
        cred.password_enc == password_enc,
        cred.expires_at.ticks() == now.ticks() + ttl_secs * 1_000_000_000,
{
}

/// Of the logins retained for tokens that are gone none is left, and every
/// other stays.
pub proof fn law_logins_end_with_their_tokens(
    s: Entries,
    hashes: Seq<Seq<char>>,
    live: Seq<Seq<char>>,
    key: Seq<char>,
)
    requires
        distinct_keys(s),
    ensures
        distinct_keys(without_dead(s, hashes, live)),
        hashes.contains(key) && !live.contains(key) ==> lookup(
            without_dead(s, hashes, live),
            key,
        ) is None,
        !hashes.contains(key) || live.contains(key) ==> lookup(without_dead(s, hashes, live), key)
            == lookup(s, key),
    decreases hashes.len(),
{
    if hashes.len() > 0 {
        let front = hashes.drop_last();
        law_logins_end_with_their_tokens(s, front, live, key);
        let rest = without_dead(s, front, live);
        law_removed_is_gone(rest, hashes.last(), key);
        if hashes.contains(key) && key != hashes.last() {
            let q = choose|q: int| 0 <= q < hashes.len() && hashes[q] == key;
            assert(front[q] == key);
        }
        if front.contains(key) {
            let q = choose|q: int| 0 <= q < front.len() && front[q] == key;
            assert(hashes[q] == key);
        }
        assert(hashes[hashes.len() - 1] == hashes.last());
    }
}

// ── Tokens ──
/// The owner's token is the owner's, and a live shadow token shows who issued
/// it; any other opens nothing.
pub proof fn law_tokens_open_what_they_are_for(
    r: ShareTokenValidation,
    expected: Seq<u8>,
    tokens: Seq<ShadowToken>,
    provided: Seq<u8>,
    now: Timestamp,
    k: int,
)
    requires
        token_verdict(r, expected, tokens, provided, now),
        0 <= k <= tokens.len(),
        forall|j: int|
            0 <= j < k ==> (#[trigger] tokens[j]).expires_at.ticks() <= now.ticks()
                || tokens[j].token_hash@ != crate::outside::hex_text(provided),
    ensures
        r is Owner <==> expected == provided,
        expected != provided && k < tokens.len() && tokens[k].expires_at.ticks() > now.ticks()
            && tokens[k].token_hash@ == crate::outside::hex_text(provided) ==> r == (
        ShareTokenValidation::Shadow { issued_by: tokens[k].issued_by }),
        expected != provided && k == tokens.len() ==> r is Invalid,
{
    lemma_first_hit(tokens, crate::outside::hex_text(provided), now, k);
}

proof fn lemma_first_hit(tokens: Seq<ShadowToken>, hash: Seq<char>, now: Timestamp, k: int)
    requires
        0 <= k <= tokens.len(),
        forall|j: int|
            0 <= j < k ==> (#[trigger] tokens[j]).expires_at.ticks() <= now.ticks()
                || tokens[j].token_hash@ != hash,
    ensures
        k < tokens.len() && tokens[k].expires_at.ticks() > now.ticks() && tokens[k].token_hash@
            == hash ==> shadow_hit(tokens, hash, now) == Some(k),
        k == tokens.len() ==> shadow_hit(tokens, hash, now) is None,
    decreases tokens.len(),
{
    if tokens.len() > 0 {
        let front = tokens.drop_last();
        let j = if k == tokens.len() {
            k - 1
        } else {
            k
        };
        assert forall|i: int| 0 <= i < j implies (#[trigger] front[i]).expires_at.ticks()
            <= now.ticks() || front[i].token_hash@ != hash by {
            assert(front[i] == tokens[i]);
        }
        lemma_first_hit(front, hash, now, j);
        if k == tokens.len() {
            assert(tokens[k - 1] == tokens.last());
        }
    }
}

/// Minting adds one token for its session, good for ten minutes from now under
/// the name of its issuer; tokens that are still good stay, others go, and no
/// other session changes.
pub proof fn law_minting_is_exact(
    before: ManagerState,
    after: ManagerState,
    id: u128,
    issued_by: Seq<char>,
    raw: Seq<char>,
    now: Timestamp,
    other: u128,
)
    requires
        before.wf(),
        minted(before, after, id, issued_by, raw, now),
    ensures
        before.session(id) is None ==> after == before,
        before.session(id) is Some ==> {
            let s = before.session(id)->0;
            let t = after.session(id)->0;
            &&& after.session(id) is Some
            &&& t == Session { shadow_tokens: t.shadow_tokens, ..s }
            &&& t.shadow_tokens@.len() > 0
            &&& t.shadow_tokens@.drop_last() == s.shadow_tokens@.filter(
                |x: ShadowToken| x.expires_at.ticks() > now.ticks(),
            )
            &&& t.shadow_tokens@.last().token_hash@ == token_key(raw)
            &&& t.shadow_tokens@.last().issued_by@ == issued_by
            &&& t.shadow_tokens@.last().expires_at.ticks() == now.ticks() + 600_000_000_000
            &&& other != id ==> after.session(other) == before.session(other)
        },
{
    lemma_find(before.sessions, id);
    if let Some(i) = find(before.sessions, id) {
        lemma_live_tokens(before.sessions[i].shadow_tokens@, now);
        assert(after.sessions == before.sessions.update(i, after.sessions[i]));
        lemma_replaced(before, after, i, after.sessions[i], id, other);
    }
}

proof fn lemma_live_tokens(tokens: Seq<ShadowToken>, now: Timestamp)
    ensures
        live_tokens(tokens, now) == tokens.filter(
            |x: ShadowToken| x.expires_at.ticks() > now.ticks(),
        ),
    decreases tokens.len(),
{
    reveal(Seq::filter);
    if tokens.len() > 0 {
        lemma_live_tokens(tokens.drop_last(), now);
    }
}

/// A registry row opens its session to the one token that was issued for it,
/// until that ends.
pub proof fn law_rows_open_to_their_token(
    r: ShareTokenValidation,
    row: SessionRegistryRow,
    provided: Seq<u8>,
    now: Timestamp,
)
    requires
        row_verdict(r, row, row_expiry(row), provided, now),
    ensures
        !(r is Owner),
        r is Shadow <==> {
            &&& row.shadow_token_hash is Some && row.shadow_token_hash->0@
                == crate::outside::hex_text(provided)
            &&& row.shadow_issued_by is Some
            &&& row.shadow_expires_at is Some && registry_second(row.shadow_expires_at->0@) is Some
                && registry_second(row.shadow_expires_at->0@)->0 * 1_000_000_000 > now.ticks()
        },
        r is Shadow ==> r->issued_by == row.shadow_issued_by->0,
{
}

// ── Showing sessions ──
/// A listing shows every session of this instance, in order, and behind them
/// those of others that can still be joined and are not here too.
pub proof fn law_listing_is_complete(
    m: ManagerState,
    rows: Seq<SessionRegistryRow>,
    infos: Seq<SessionInfo>,
    now: Timestamp,
    i: int,
)
    requires
        lists(m, rows, infos, now),
    ensures
        0 <= i < m.sessions.len() ==> infos[i].session_id == m.sessions[i].id && infos[i].status
            == m.sessions[i].status && infos[i].created_by == m.sessions[i].created_by
            && !infos[i].remote,
        0 <= i < m.sessions.len() ==> infos[i].ended_at == (if m.ended_at.contains_key(
            m.sessions[i].id,
        ) {
            Some(m.ended_at[m.sessions[i].id])
        } else {
            None
        }),
        m.sessions.len() <= i < infos.len() ==> infos[i].remote && infos[i].share_url is None
            && exists|k: int|
            0 <= k < rows.len() && uuid_of((#[trigger] rows[k]).session_id@) == Some(
                infos[i].session_id,
            ) && infos[i].owner_instance == Some(rows[k].owner_instance),
        infos.len() == m.sessions.len() + rows.filter(
            |w: SessionRegistryRow|
                w.status@ != "completed"@ && w.status@ != "error"@ && w.status@ != "expired"@
                    && uuid_of(w.session_id@) is Some && !exists|j: int|
                    0 <= j < m.sessions.len() && uuid_text((#[trigger] m.sessions[j]).id)
                        == w.session_id@,
        ).len(),
{
    lemma_remote(m.sessions, rows);
    if 0 <= i < m.sessions.len() {
        assert(shows_local(m, infos[i], m.sessions[i]));
    }
    if m.sessions.len() <= i < infos.len() {
        let remote = remote_rows(m.sessions, rows);
        let k = remote[i - m.sessions.len()];
        assert(shows_row(infos[i], rows[k], now));
        assert(uuid_of(rows[k].session_id@) == Some(infos[i].session_id));
    }
}

proof fn lemma_remote(sessions: Seq<Session>, rows: Seq<SessionRegistryRow>)
    ensures
        remote_rows(sessions, rows).len() == rows.filter(
            |w: SessionRegistryRow|
                w.status@ != "completed"@ && w.status@ != "error"@ && w.status@ != "expired"@
                    && uuid_of(w.session_id@) is Some && !exists|j: int|
                    0 <= j < sessions.len() && uuid_text((#[trigger] sessions[j]).id)
                        == w.session_id@,
        ).len(),
        forall|k: int|
            0 <= k < remote_rows(sessions, rows).len() ==> 0 <= #[trigger] remote_rows(
                sessions,
                rows,
            )[k] < rows.len(),
    decreases rows.len(),
{
    reveal(Seq::filter);
    if rows.len() > 0 {
        let front = rows.drop_last();
        lemma_remote(sessions, front);
        let f = remote_rows(sessions, front);
        let all = remote_rows(sessions, rows);
        assert forall|k: int| 0 <= k < all.len() implies 0 <= #[trigger] all[k] < rows.len() by {
            if k < f.len() {
                assert(all[k] == f[k]);
            }
        }
    }
}

/// Sessions that are shown count as live until they end: also those that can
/// still be reconnected.
pub proof fn law_live_count(infos: Seq<SessionInfo>)
    ensures
        bucket_count(infos) == infos.filter(
            |x: SessionInfo|
                x.status == SessionStatus::Active || x.status == SessionStatus::Pending || x.status
                    == SessionStatus::Disconnected,
        ).len(),
    decreases infos.len(),
{
    reveal(Seq::filter);
    if infos.len() > 0 {
        law_live_count(infos.drop_last());
    }
}

/// An identity that lets go of its event stream lets go of no other's.
pub proof fn law_release_is_exact(s: Seq<Seq<char>>, x: Seq<char>)
    ensures
        others(s, x) == s.filter(|y: Seq<char>| y != x),
    decreases s.len(),
{
    reveal(Seq::filter);
    if s.len() > 0 {
        law_release_is_exact(s.drop_last(), x);
    }
}

/// A path under a directory is the directory, a slash and the rest.
pub proof fn law_paths_are_joined(base: Seq<char>, rel: Seq<char>)
    ensures
        base.len() == 0 ==> path_join(base, rel) == rel,
        base.len() > 0 && base.last() != '/' ==> path_join(base, rel) == base + "/"@ + rel,
        base.len() > 0 && base.last() == '/' ==> path_join(base, rel) == base + rel,
{
}

} // verus!
