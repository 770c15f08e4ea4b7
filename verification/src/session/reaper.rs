//! Idle desktop containers: when each was last seen in use, and which are
//! removed.

use crate::text::{list_has, same_text, texts};
use crate::time::Timestamp;
use vstd::prelude::*;
use vstd::string::*;

verus! {

/// A container that the gateway started.
#[derive(Debug)]
pub struct ManagedContainer {
    pub container_id: String,
    pub container_name: String,
    /// The container's own idle timeout, in minutes.
    pub idle_timeout_mins: Option<u64>,
}

/// When a container was last seen in use.
#[derive(Debug)]
pub struct ContainerSeen {
    pub container_id: String,
    pub at: Timestamp,
}

/// When each known container was last seen in use.
#[derive(Debug)]
pub struct ActivityLog {
    pub entries: Vec<ContainerSeen>,
}

/// The entries as a map from identifiers.
pub open spec fn seen_map(entries: Seq<ContainerSeen>) -> Map<Seq<char>, Timestamp>
    decreases entries.len(),
{
    if entries.len() == 0 {
        Map::empty()
    } else {
        seen_map(entries.drop_last()).insert(entries.last().container_id@, entries.last().at)
    }
}

/// Whether no two entries are of one container.
pub open spec fn distinct(entries: Seq<ContainerSeen>) -> bool {
    forall|i: int, j: int|
        0 <= i < j < entries.len() ==> (#[trigger] entries[i]).container_id@ != (
        #[trigger] entries[j]).container_id@
}

proof fn lemma_seen(entries: Seq<ContainerSeen>)
    requires
        distinct(entries),
    ensures
        forall|i: int|
            #![trigger entries[i]]
            0 <= i < entries.len() ==> seen_map(entries).contains_key(entries[i].container_id@)
                && seen_map(entries)[entries[i].container_id@] == entries[i].at,
        forall|id: Seq<char>| #[trigger]
            seen_map(entries).contains_key(id) ==> exists|i: int|
                0 <= i < entries.len() && (#[trigger] entries[i]).container_id@ == id,
    decreases entries.len(),
{
    if entries.len() > 0 {
        let front = entries.drop_last();
        lemma_seen(front);
        assert forall|i: int|
            #![trigger entries[i]]
            0 <= i < entries.len() implies seen_map(entries).contains_key(entries[i].container_id@)
            && seen_map(entries)[entries[i].container_id@] == entries[i].at by {
            if i < front.len() {
                assert(front[i] == entries[i]);
                assert(entries[i].container_id@ != entries.last().container_id@);
            }
        }
        assert forall|id: Seq<char>| #[trigger] seen_map(entries).contains_key(id) implies exists|
            i: int,
        | 0 <= i < entries.len() && (#[trigger] entries[i]).container_id@ == id by {
            if id == entries.last().container_id@ {
                assert(entries[entries.len() - 1].container_id@ == id);
            } else {
                assert(seen_map(front).contains_key(id));
                let i = choose|i: int|
                    0 <= i < front.len() && (#[trigger] front[i]).container_id@ == id;
                assert(entries[i].container_id@ == id);
            }
        }
    }
}

/// Two lists with the same entries, as far as containers go, have one map.
proof fn lemma_same_map(a: Seq<ContainerSeen>, m: Map<Seq<char>, Timestamp>)
    requires
        distinct(a),
        forall|i: int|
            #![trigger a[i]]
            0 <= i < a.len() ==> m.contains_key(a[i].container_id@) && m[a[i].container_id@]
                == a[i].at,
        forall|id: Seq<char>| #[trigger]
            m.contains_key(id) ==> exists|i: int|
                0 <= i < a.len() && (#[trigger] a[i]).container_id@ == id,
    ensures
        seen_map(a) == m,
{
    lemma_seen(a);
    assert forall|id: Seq<char>| seen_map(a).contains_key(id) == m.contains_key(id) && (
    m.contains_key(id) ==> seen_map(a)[id] == m[id]) by {
        if seen_map(a).contains_key(id) {
            let i = choose|i: int| 0 <= i < a.len() && (#[trigger] a[i]).container_id@ == id;
            assert(m.contains_key(a[i].container_id@));
        }
        if m.contains_key(id) {
            let i = choose|i: int| 0 <= i < a.len() && (#[trigger] a[i]).container_id@ == id;
            assert(seen_map(a).contains_key(a[i].container_id@));
        }
    }
    assert(seen_map(a) =~= m);
}

impl View for ActivityLog {
    type V = Map<Seq<char>, Timestamp>;

    open spec fn view(&self) -> Map<Seq<char>, Timestamp> {
        seen_map(self.entries@)
    }
}

impl ActivityLog {
    /// No two entries are of one container.
    pub open spec fn wf(self) -> bool {
        distinct(self.entries@)
    }

    /// A log without entries.
    pub fn new() -> (r: ActivityLog)
        ensures
            r.wf(),
            r@ == Map::<Seq<char>, Timestamp>::empty(),
    {
        ActivityLog { entries: Vec::new() }
    }

    fn position(&self, id: &str) -> (r: Option<usize>)
        requires
            self.wf(),
        ensures
            match r {
                Some(i) => i < self.entries@.len() && self.entries@[i as int].container_id@ == id@
                    && self@.contains_key(id@) && self@[id@] == self.entries@[i as int].at,
                None => !self@.contains_key(id@),
            },
    {
        proof {
            lemma_seen(self.entries@);
        }
        let mut i: usize = 0;
        while i < self.entries.len()
            invariant
                i <= self.entries@.len(),
                forall|j: int| 0 <= j < i ==> (#[trigger] self.entries@[j]).container_id@ != id@,
                forall|j: int|
                    #![trigger self.entries@[j]]
                    0 <= j < self.entries@.len() ==> self@.contains_key(
                        self.entries@[j].container_id@,
                    ) && self@[self.entries@[j].container_id@] == self.entries@[j].at,
            decreases self.entries@.len() - i,
        {
            if same_text(self.entries[i].container_id.as_str(), id) {
                return Some(i);
            }
            i = i + 1;
        }
        None
    }

    /// When a container was last seen in use.
    pub fn last_seen(&self, id: &str) -> (r: Option<Timestamp>)
        requires
            self.wf(),
        ensures
            match r {
                Some(t) => self@.contains_key(id@) && self@[id@] == t,
                None => !self@.contains_key(id@),
            },
    {
        match self.position(id) {
            Some(i) => Some(self.entries[i].at),
            None => None,
        }
    }

    /// Notes that a container is in use.
    fn note(&mut self, id: &str, at: Timestamp)
        requires
            old(self).wf(),
        ensures
            final(self).wf(),
            final(self)@ == old(self)@.insert(id@, at),
    {
        let ghost before = self.entries@;
        proof {
            lemma_seen(before);
        }
        match self.position(id) {
            Some(i) => {
                let entry = ContainerSeen { container_id: id.to_owned(), at };
                self.entries.set(i, entry);
                proof {
                    let after = self.entries@;
                    let m = seen_map(before).insert(id@, at);
                    assert forall|a: int, b: int| 0 <= a < b < after.len() implies (
                    #[trigger] after[a]).container_id@ != (#[trigger] after[b]).container_id@ by {
                        assert(before[a].container_id@ != before[b].container_id@);
                    }
                    assert forall|k: int|
                        #![trigger after[k]]
                        0 <= k < after.len() implies m.contains_key(after[k].container_id@)
                        && m[after[k].container_id@] == after[k].at by {
                        if k != i {
                            assert(after[k] == before[k]);
                            if k < i {
                                assert(before[k].container_id@ != before[i as int].container_id@);
                            } else {
                                assert(before[i as int].container_id@ != before[k].container_id@);
                            }
                        }
                    }
                    assert forall|x: Seq<char>| #[trigger] m.contains_key(x) implies exists|k: int|
                        0 <= k < after.len() && (#[trigger] after[k]).container_id@ == x by {
                        if x == id@ {
                            assert(after[i as int].container_id@ == x);
                        } else {
                            let k = choose|k: int|
                                0 <= k < before.len() && (#[trigger] before[k]).container_id@ == x;
                            assert(after[k].container_id@ == x);
                        }
                    }
                    lemma_same_map(after, m);
                }
            },
            None => {
                self.entries.push(ContainerSeen { container_id: id.to_owned(), at });
                proof {
                    let after = self.entries@;
                    assert(after.drop_last() =~= before);
                    assert forall|a: int, b: int| 0 <= a < b < after.len() implies (
                    #[trigger] after[a]).container_id@ != (#[trigger] after[b]).container_id@ by {
                        assert(after[a] == before[a]);
                        assert(seen_map(before).contains_key(before[a].container_id@));
                        if b < before.len() {
                            assert(after[b] == before[b]);
                        }
                    }
                }
            },
        }
    }

    /// Forgets a container.
    fn forget(&mut self, id: &str)
        requires
            old(self).wf(),
        ensures
            final(self).wf(),
            final(self)@ == old(self)@.remove(id@),
    {
        let ghost before = self.entries@;
        proof {
            lemma_seen(before);
        }
        match self.position(id) {
            Some(i) => {
                let gone = self.entries.remove(i);
                proof {
                    let after = self.entries@;
                    let m = seen_map(before).remove(id@);
                    assert(after =~= before.remove(i as int));
                    assert forall|k: int| 0 <= k < after.len() implies #[trigger] after[k] == (
                    if k < i {
                        before[k]
                    } else {
                        before[k + 1]
                    }) by {
                    }
                    assert forall|a: int, b: int| 0 <= a < b < after.len() implies (
                    #[trigger] after[a]).container_id@ != (#[trigger] after[b]).container_id@ by {
                        let c: int = if a < i {
                            a
                        } else {
                            a + 1
                        };
                        let d: int = if b < i {
                            b
                        } else {
                            b + 1
                        };
                        assert(before[c].container_id@ != before[d].container_id@);
                    }
                    assert forall|k: int|
                        #![trigger after[k]]
                        0 <= k < after.len() implies m.contains_key(after[k].container_id@)
                        && m[after[k].container_id@] == after[k].at by {
                        if k < i {
                            assert(before[k].container_id@ != before[i as int].container_id@);
                        } else {
                            assert(before[i as int].container_id@ != before[k + 1].container_id@);
                        }
                    }
                    assert forall|x: Seq<char>| #[trigger] m.contains_key(x) implies exists|k: int|
                        0 <= k < after.len() && (#[trigger] after[k]).container_id@ == x by {
                        assert(seen_map(before).contains_key(x));
                        let k = choose|k: int|
                            0 <= k < before.len() && (#[trigger] before[k]).container_id@ == x;
                        if k < i {
                            assert(after[k].container_id@ == x);
                        } else {
                            assert(after[k - 1].container_id@ == x);
                        }
                    }
                    lemma_same_map(after, m);
                }
            },
            None => {
                proof {
                    assert(seen_map(before).remove(id@) =~= seen_map(before));
                }
            },
        }
    }

    /// Forgets every container but those listed.
    fn retain(&mut self, ids: &Vec<String>)
        requires
            old(self).wf(),
        ensures
            final(self).wf(),
            final(self)@ == old(self)@.restrict(texts(ids@).to_set()),
    {
        let ghost before = self.entries@;
        let mut kept: Vec<ContainerSeen> = Vec::new();
        let ghost mut from: Seq<int> = Seq::empty();
        let mut i: usize = 0;
        while i < self.entries.len()
            invariant
                i <= self.entries@.len(),
                self.entries@ == before,
                kept@.len() == from.len(),
                forall|k: int|
                    #![trigger kept@[k]]
                    #![trigger from[k]]
                    0 <= k < kept@.len() ==> 0 <= from[k] < i && kept@[k] == before[from[k]]
                        && texts(ids@).contains(kept@[k].container_id@),
                forall|a: int, b: int| 0 <= a < b < from.len() ==> from[a] < from[b],
                forall|j: int|
                    0 <= j < i && texts(ids@).contains((#[trigger] before[j]).container_id@)
                        ==> exists|k: int| 0 <= k < kept@.len() && #[trigger] kept@[k] == before[j],
            decreases self.entries@.len() - i,
        {
            if list_has(ids, self.entries[i].container_id.as_str()) {
                let ghost was = kept@;
                let entry = ContainerSeen {
                    container_id: self.entries[i].container_id.clone(),
                    at: self.entries[i].at,
                };
                kept.push(entry);
                proof {
                    from = from.push(i as int);
                    assert(kept@[was.len() as int] == before[i as int]);
                    assert forall|j: int|
                        0 <= j < i + 1 && texts(ids@).contains(
                            (#[trigger] before[j]).container_id@,
                        ) implies exists|k: int|
                        0 <= k < kept@.len() && #[trigger] kept@[k] == before[j] by {
                        if j < i {
                            let k = choose|k: int|
                                0 <= k < was.len() && #[trigger] was[k] == before[j];
                            assert(kept@[k] == before[j]);
                        }
                    }
                }
            }
            i = i + 1;
        }
        proof {
            lemma_seen(before);
            let m = seen_map(before).restrict(texts(ids@).to_set());
            let after = kept@;
            assert forall|a: int, b: int| 0 <= a < b < after.len() implies (
            #[trigger] after[a]).container_id@ != (#[trigger] after[b]).container_id@ by {
                assert(before[from[a]].container_id@ != before[from[b]].container_id@);
            }
            assert forall|k: int|
                #![trigger after[k]]
                0 <= k < after.len() implies m.contains_key(after[k].container_id@)
                && m[after[k].container_id@] == after[k].at by {
                assert(after[k] == before[from[k]]);
            }
            assert forall|x: Seq<char>| #[trigger] m.contains_key(x) implies exists|k: int|
                0 <= k < after.len() && (#[trigger] after[k]).container_id@ == x by {
                assert(seen_map(before).contains_key(x));
                let j = choose|j: int|
                    0 <= j < before.len() && (#[trigger] before[j]).container_id@ == x;
                let k = choose|k: int| 0 <= k < after.len() && #[trigger] after[k] == before[j];
                assert(after[k].container_id@ == x);
            }
            lemma_same_map(after, m);
        }
        self.entries = kept;
    }
}

// ── One round ──
/// The idle timeout of a container, in seconds: its own, or the general one.
pub open spec fn idle_limit(c: ManagedContainer, default_mins: u64) -> int {
    match c.idle_timeout_mins {
        Some(m) => m * 60,
        None => default_mins * 60,
    }
}

/// Whether a container is removed: it is not in use, and was last seen in use
/// longer ago than its timeout.
pub open spec fn is_idle(
    seen: Map<Seq<char>, Timestamp>,
    c: ManagedContainer,
    active: bool,
    default_mins: u64,
    now: Timestamp,
) -> bool {
    &&& !active
    &&& seen.contains_key(c.container_id@)
    &&& now.ticks() - seen[c.container_id@].ticks() > idle_limit(c, default_mins) * 1_000_000_000
}

/// The log after a container was looked at.
pub open spec fn looked_at(
    seen: Map<Seq<char>, Timestamp>,
    c: ManagedContainer,
    active: bool,
    default_mins: u64,
    now: Timestamp,
) -> Map<Seq<char>, Timestamp> {
    if active || !seen.contains_key(c.container_id@) {
        seen.insert(c.container_id@, now)
    } else if is_idle(seen, c, active, default_mins, now) {
        seen.remove(c.container_id@)
    } else {
        seen
    }
}

/// The log after the first `n` containers were looked at.
pub open spec fn round_log(
    seen: Map<Seq<char>, Timestamp>,
    containers: Seq<ManagedContainer>,
    active: Seq<bool>,
    default_mins: u64,
    now: Timestamp,
    n: int,
) -> Map<Seq<char>, Timestamp>
    decreases n,
{
    if n <= 0 {
        seen
    } else {
        looked_at(
            round_log(seen, containers, active, default_mins, now, n - 1),
            containers[n - 1],
            active[n - 1],
            default_mins,
            now,
        )
    }
}

/// The positions below `n` of the containers that are removed.
pub open spec fn round_removed(
    seen: Map<Seq<char>, Timestamp>,
    containers: Seq<ManagedContainer>,
    active: Seq<bool>,
    default_mins: u64,
    now: Timestamp,
    n: int,
) -> Seq<usize>
    decreases n,
{
    if n <= 0 {
        Seq::empty()
    } else {
        let before = round_removed(seen, containers, active, default_mins, now, n - 1);
        let log = round_log(seen, containers, active, default_mins, now, n - 1);
        if is_idle(log, containers[n - 1], active[n - 1], default_mins, now) {
            before.push((n - 1) as usize)
        } else {
            before
        }
    }
}

/// The identifiers of the containers.
pub open spec fn container_ids(containers: Seq<ManagedContainer>) -> Seq<Seq<char>> {
    Seq::new(containers.len(), |i: int| containers[i].container_id@)
}

/// Looks at every container once: those in use, and those seen for the first
/// time, are noted; those idle for longer than their timeout are handed back
/// by position, to be removed. What is no longer listed is forgotten.
pub fn reap_idle_containers(
    log: &mut ActivityLog,
    containers: &Vec<ManagedContainer>,
    active: &Vec<bool>,
    default_mins: u64,
    now: Timestamp,
) -> (r: Vec<usize>)
    requires
        old(log).wf(),
        active@.len() == containers@.len(),
        default_mins * 60 <= u64::MAX,
        forall|i: int|
            0 <= i < containers@.len() ==> idle_limit(#[trigger] containers@[i], default_mins)
                <= u64::MAX,
    ensures
        final(log).wf(),
        r@ == round_removed(
            old(log)@,
            containers@,
            active@,
            default_mins,
            now,
            containers@.len() as int,
        ),
        final(log)@ == round_log(
            old(log)@,
            containers@,
            active@,
            default_mins,
            now,
            containers@.len() as int,
        ).restrict(container_ids(containers@).to_set()),
{
    let ghost seen = log@;
    let mut removed: Vec<usize> = Vec::new();
    let mut ids: Vec<String> = Vec::new();
    let mut i: usize = 0;
    while i < containers.len()
        invariant
            i <= containers@.len(),
            active@.len() == containers@.len(),
            default_mins * 60 <= u64::MAX,
            forall|k: int|
                0 <= k < containers@.len() ==> idle_limit(#[trigger] containers@[k], default_mins)
                    <= u64::MAX,
            log.wf(),
            log@ == round_log(seen, containers@, active@, default_mins, now, i as int),
            removed@ == round_removed(seen, containers@, active@, default_mins, now, i as int),
            ids@.len() == i,
            forall|k: int|
                0 <= k < i ==> (#[trigger] ids@[k])@ == containers@[k].container_id@,
        decreases containers@.len() - i,
    {
        let c = &containers[i];
        proof {
            assert(idle_limit(containers@[i as int], default_mins) <= u64::MAX);
        }
        ids.push(c.container_id.clone());
        if active[i] {
            log.note(c.container_id.as_str(), now);
        } else {
            match log.last_seen(c.container_id.as_str()) {
                None => {
                    log.note(c.container_id.as_str(), now);
                },
                Some(last) => {
                    let limit: u64 = match c.idle_timeout_mins {
                        Some(m) => m * 60,
                        None => default_mins * 60,
                    };
                    if now.exceeds(&last, limit) {
                        log.forget(c.container_id.as_str());
                        removed.push(i);
                    }
                },
            }
        }
        i = i + 1;
    }
    proof {
        assert(texts(ids@) =~= container_ids(containers@));
    }
    log.retain(&ids);
    removed
}

/// A container in use is never removed, and neither is one that was not known
/// before the round.
pub proof fn law_used_containers_stay(
    seen: Map<Seq<char>, Timestamp>,
    containers: Seq<ManagedContainer>,
    active: Seq<bool>,
    default_mins: u64,
    now: Timestamp,
    n: int,
)
    requires
        0 <= n <= containers.len(),
        containers.len() == active.len(),
        containers.len() <= usize::MAX,
        forall|i: int, j: int|
            0 <= i < j < containers.len() ==> (#[trigger] containers[i]).container_id@ != (
            #[trigger] containers[j]).container_id@,
    ensures
        forall|k: int|
            #![trigger round_removed(seen, containers, active, default_mins, now, n)[k]]
            0 <= k < round_removed(seen, containers, active, default_mins, now, n).len() ==> {
                let i = round_removed(seen, containers, active, default_mins, now, n)[k] as int;
                &&& 0 <= i < n
                &&& !active[i]
                &&& seen.contains_key(containers[i].container_id@)
            },
        forall|id: Seq<char>|
            (forall|i: int| 0 <= i < n ==> (#[trigger] containers[i]).container_id@ != id)
                ==> (#[trigger] round_log(
                seen,
                containers,
                active,
                default_mins,
                now,
                n,
            ).contains_key(id) == seen.contains_key(id)),
    decreases n,
{
    if n > 0 {
        law_used_containers_stay(seen, containers, active, default_mins, now, n - 1);
        let before = round_removed(seen, containers, active, default_mins, now, n - 1);
        let all = round_removed(seen, containers, active, default_mins, now, n);
        let log = round_log(seen, containers, active, default_mins, now, n - 1);
        let c = containers[n - 1];
        assert(log.contains_key(c.container_id@) == seen.contains_key(c.container_id@));
        assert forall|k: int| #![trigger all[k]] 0 <= k < all.len() implies ({
            let i = all[k] as int;
            &&& 0 <= i < n
            &&& !active[i]
            &&& seen.contains_key(containers[i].container_id@)
        }) by {
            if k < before.len() {
                assert(all[k] == before[k]);
            }
        }
        assert forall|id: Seq<char>|
            (forall|i: int| 0 <= i < n ==> (#[trigger] containers[i]).container_id@
                != id) implies #[trigger] round_log(
            seen,
            containers,
            active,
            default_mins,
            now,
            n,
        ).contains_key(id) == seen.contains_key(id) by {
            assert(containers[n - 1].container_id@ != id);
            assert(log.contains_key(id) == seen.contains_key(id));
        }
    }
}

} // verus!
