//! The gauge of active sessions holds the number of active sessions.

use crate::guacd::ConnectionParams;
use crate::session::manager::{
    closed, count_where, find, handed_out, installed, lemma_count_bound, lemma_find, ManagerState,
};
use crate::session::types::{Session, SessionStatus};
use crate::time::Timestamp;
use vstd::prelude::*;

verus! {

/// Whether a session is active.
pub open spec fn is_active() -> spec_fn(Session) -> bool {
    |s: Session| s.status == SessionStatus::Active
}

/// Whether the gauge holds the number of active sessions.
pub open spec fn gauge_right(m: ManagerState) -> bool {
    m.metrics.sessions_active == count_where(m.sessions, is_active())
}

/// What a replaced session does to a count.
proof fn lemma_count_update(s: Seq<Session>, p: spec_fn(Session) -> bool, i: int, t: Session)
    requires
        0 <= i < s.len(),
    ensures
        count_where(s.update(i, t), p) + (if p(s[i]) {
            1int
        } else {
            0int
        }) == count_where(s, p) + (if p(t) {
            1int
        } else {
            0int
        }),
    decreases s.len(),
{
    let u = s.update(i, t);
    if i == s.len() - 1 {
        assert(u.drop_last() =~= s.drop_last());
    } else {
        assert(u.drop_last() =~= s.drop_last().update(i, t));
        lemma_count_update(s.drop_last(), p, i, t);
    }
}

/// What a removed session does to a count.
proof fn lemma_count_remove(s: Seq<Session>, p: spec_fn(Session) -> bool, i: int)
    requires
        0 <= i < s.len(),
    ensures
        count_where(s.remove(i), p) + (if p(s[i]) {
            1int
        } else {
            0int
        }) == count_where(s, p),
    decreases s.len(),
{
    let u = s.remove(i);
    if i == s.len() - 1 {
        assert(u =~= s.drop_last());
    } else {
        assert(u.drop_last() =~= s.drop_last().remove(i));
        assert(u.last() == s.last());
        lemma_count_remove(s.drop_last(), p, i);
    }
}

/// Connecting, disconnecting, completing, failing, expiring, finalizing and
/// deleting a session keep the gauge right.
pub proof fn law_gauge_counts_active_sessions(
    m: ManagerState,
    id: u128,
    from: SessionStatus,
    deferred: Option<ConnectionParams>,
    made: Option<(u64, String)>,
    now: Timestamp,
)
    requires
        m.wf(),
        gauge_right(m),
        m.sessions.len() < u64::MAX,
        from == SessionStatus::Pending || from == SessionStatus::Disconnected,
    ensures
        gauge_right(m.connected(id, from, deferred, made, now)),
        gauge_right(m.disconnected(id, now)),
        gauge_right(m.errored(id, now)),
        gauge_right(m.lapsed(id, now)),
        gauge_right(m.finalized(id, now)),
        gauge_right(m.deleted(id, now)),
        gauge_right(m.completed(id, now)),
{
    let p = is_active();
    lemma_find(m.sessions, id);
    lemma_count_bound(m.sessions, p);
    if let Some(i) = find(m.sessions, id) {
        let s = m.sessions[i];
        lemma_count_remove(m.sessions, p, i);
        lemma_count_update(m.sessions, p, i, closed(s, SessionStatus::Error, true));
        lemma_count_update(m.sessions, p, i, closed(s, SessionStatus::Completed, false));
        lemma_count_update(m.sessions, p, i, closed(s, SessionStatus::Disconnected, true));
        lemma_count_update(m.sessions, p, i, closed(s, SessionStatus::Expired, true));
        let t = if s.status == SessionStatus::Disconnected {
            Session { status: SessionStatus::Expired, ..s }
        } else {
            s
        };
        lemma_count_update(m.sessions, p, i, Session { container_id: None, ..t });
        let w = installed(s, deferred, made);
        lemma_count_update(m.sessions, p, i, w);
        lemma_count_update(m.sessions, p, i, handed_out(w));
    }
}

} // verus!
