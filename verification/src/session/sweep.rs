//! One round of the reaper: sessions that idled or lived too long end, and the
//! history keeps a row of each.

use crate::outside::{uuid_string, uuid_text};
use crate::session::manager::{
    idle, ids_where, lemma_deleted_all, lemma_find, lemma_ids_where, lemma_listed_are_there,
    lived_longer, reaped_all, ManagerState, Reaped, SessionManager,
};
use crate::session::types::Session;
use crate::text::copy_opt;
use crate::time::Timestamp;
use vstd::prelude::*;
use vstd::string::*;

verus! {

/// A row of the session history. Credentials are never stored.
#[derive(Debug)]
pub struct HistoryRow {
    pub session_id: String,
    pub session_type: String,
    pub hostname: String,
    pub username: String,
    pub created_by: String,
    pub address_book_entry: Option<String>,
    pub address_book_folder: Option<String>,
    pub entry_display_name: Option<String>,
    pub source_ip: Option<String>,
}

/// Whether `row` is the history row of a session.
pub open spec fn row_of(row: HistoryRow, s: Session) -> bool {
    &&& row.session_id@ == uuid_text(s.id)
    &&& row.session_type@ == s.session_type.name()
    &&& row.hostname == s.hostname
    &&& row.username == s.username
    &&& row.created_by == s.created_by
    &&& row.address_book_entry == s.address_book_entry
    &&& row.address_book_folder == s.address_book_folder
    &&& row.entry_display_name == s.entry_display_name
    &&& row.source_ip == s.source_ip
}

/// The history row of a session.
pub fn save_session_metadata(session: &Session) -> (r: HistoryRow)
    ensures
        row_of(r, *session),
{
    HistoryRow {
        session_id: uuid_string(session.id),
        session_type: session.session_type.as_str().to_owned(),
        hostname: session.hostname.clone(),
        username: session.username.clone(),
        created_by: session.created_by.clone(),
        address_book_entry: copy_opt(&session.address_book_entry),
        address_book_folder: copy_opt(&session.address_book_folder),
        entry_display_name: copy_opt(&session.entry_display_name),
        source_ip: copy_opt(&session.source_ip),
    }
}

/// What a round of the reaper did.
#[derive(Debug)]
pub struct Round {
    /// The sessions that idled too long, each with its history row.
    pub idle: Vec<Reaped>,
    pub idle_history: Vec<HistoryRow>,
    /// The sessions that lived too long, each with its history row.
    pub expired: Vec<Reaped>,
    pub expired_history: Vec<HistoryRow>,
}

/// The sessions that idled too long; a limit of 0 or less is none.
pub open spec fn idle_ids(m: ManagerState, idle_secs: i64, now: Timestamp) -> Seq<u128> {
    if idle_secs > 0 {
        ids_where(m.sessions, |s: Session| idle(s, idle_secs, now))
    } else {
        Seq::empty()
    }
}

/// The sessions that lived too long; a limit of 0 or less is none.
pub open spec fn expired_ids(m: ManagerState, max_secs: i64, now: Timestamp) -> Seq<u128> {
    if max_secs > 0 {
        ids_where(m.sessions, |s: Session| lived_longer(s, max_secs, now))
    } else {
        Seq::empty()
    }
}

/// Whether `rows` are the history rows of the sessions with these ids.
pub open spec fn rows_of(rows: Seq<HistoryRow>, m: ManagerState, ids: Seq<u128>) -> bool {
    &&& rows.len() == ids.len()
    &&& forall|k: int|
        0 <= k < ids.len() ==> row_of(#[trigger] rows[k], m.session(ids[k])->0)
}

/// Deleting sessions adds none.
proof fn lemma_deleted_len(m: ManagerState, ids: Seq<u128>, now: Timestamp)
    ensures
        m.deleted_all(ids, now).sessions.len() <= m.sessions.len(),
    decreases ids.len(),
{
    if ids.len() > 0 {
        lemma_deleted_len(m, ids.drop_last(), now);
        lemma_find(m.deleted_all(ids.drop_last(), now).sessions, ids.last());
    }
}

impl SessionManager {
    fn history_rows(&self, ids: &Vec<u128>) -> (r: Vec<HistoryRow>)
        requires
            forall|k: int| 0 <= k < ids@.len() ==> self@.session(#[trigger] ids@[k]) is Some,
        ensures
            rows_of(r@, self@, ids@),
    {
        let mut r: Vec<HistoryRow> = Vec::new();
        let mut k: usize = 0;
        while k < ids.len()
            invariant
                k <= ids@.len(),
                forall|k: int| 0 <= k < ids@.len() ==> self@.session(#[trigger] ids@[k]) is Some,
                r@.len() == k,
                forall|j: int| 0 <= j < k ==> row_of(#[trigger] r@[j], self@.session(ids@[j])->0),
            decreases ids@.len() - k,
        {
            proof {
                assert(self@.session(ids@[k as int]) is Some);
            }
            if let Some(i) = self.position(ids[k]) {
                r.push(save_session_metadata(&self.sessions[i]));
            }
            k = k + 1;
        }
        r
    }

    /// One round: sessions idle for longer than `idle_secs` end, then those
    /// older than `max_secs`; a limit of 0 or less is none. The history rows
    /// are taken before a session goes.
    pub fn reap_round(&mut self, idle_secs: i64, max_secs: i64, now: Timestamp) -> (r: Round)
        requires
            old(self).wf(),
            old(self)@.has_room(2 * old(self).sessions@.len() as int),
        ensures
            final(self).config == old(self).config,
            final(self).wf(),
            ({
                let first = idle_ids(old(self)@, idle_secs, now);
                let mid = old(self)@.deleted_all(first, now);
                let second = expired_ids(mid, max_secs, now);
                &&& reaped_all(old(self)@, mid, first, r.idle@, old(self).config, now)
                &&& rows_of(r.idle_history@, old(self)@, first)
                &&& reaped_all(mid, final(self)@, second, r.expired@, old(self).config, now)
                &&& rows_of(r.expired_history@, mid, second)
            }),
    {
        let ghost before = self@;
        let ids: Vec<u128> = if idle_secs > 0 {
            self.get_idle_sessions(idle_secs, now)
        } else {
            Vec::new()
        };
        let ghost first = idle_ids(before, idle_secs, now);
        proof {
            let p = |s: Session| idle(s, idle_secs, now);
            lemma_ids_where(before.sessions, p);
            lemma_listed_are_there(before, p);
            assert(ids@ =~= first);
        }
        let idle_history = self.history_rows(&ids);
        let idle = self.reap(&ids, now);
        let ghost mid = self@;
        proof {
            lemma_deleted_all(before, first, 0, now);
            lemma_deleted_len(before, first, now);
        }
        let ids: Vec<u128> = if max_secs > 0 {
            self.get_expired_sessions(max_secs, now)
        } else {
            Vec::new()
        };
        let ghost second = expired_ids(mid, max_secs, now);
        proof {
            let p = |s: Session| lived_longer(s, max_secs, now);
            lemma_ids_where(mid.sessions, p);
            lemma_listed_are_there(mid, p);
            assert(ids@ =~= second);
        }
        let expired_history = self.history_rows(&ids);
        let expired = self.reap(&ids, now);
        Round { idle, idle_history, expired, expired_history }
    }
}

/// After a round no session is left that idled or lived too long, and every
/// other session is there as it was.
pub proof fn law_round_leaves_the_others(
    m: ManagerState,
    idle_secs: i64,
    max_secs: i64,
    id: u128,
    now: Timestamp,
)
    requires
        m.wf(),
        m.has_room(2 * m.sessions.len() as int),
    ensures
        ({
            let mid = m.deleted_all(idle_ids(m, idle_secs, now), now);
            let after = mid.deleted_all(expired_ids(mid, max_secs, now), now);
            after.session(id) == match m.session(id) {
                Some(s) => if (idle_secs > 0 && idle(s, idle_secs, now)) || (max_secs > 0
                    && lived_longer(s, max_secs, now)) {
                    None
                } else {
                    Some(s)
                },
                None => None,
            }
        }),
{
    let p = |s: Session| idle(s, idle_secs, now);
    let q = |s: Session| lived_longer(s, max_secs, now);
    let first = idle_ids(m, idle_secs, now);
    let mid = m.deleted_all(first, now);
    lemma_ids_where(m.sessions, p);
    lemma_deleted_all(m, first, id, now);
    lemma_deleted_len(m, first, now);
    lemma_ids_where(mid.sessions, q);
    if idle_secs > 0 {
        crate::session::manager::law_reaped_are_gone(m, p, id, now);
    }
    if max_secs > 0 {
        crate::session::manager::law_reaped_are_gone(mid, q, id, now);
    }
}

} // verus!
