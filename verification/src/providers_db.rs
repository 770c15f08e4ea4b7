//! Auth provider configuration: the stored providers, their order in the auth
//! chain, and what each type requires.

use crate::json::{json_of, parse_json, Json, JsonText};
use crate::text::{is_blank, join2, join3, same_text, trimmed};
use vstd::prelude::*;
use vstd::string::*;

verus! {

/// A stored provider.
#[derive(Debug)]
pub struct DbProvider {
    pub id: i64,
    pub name: String,
    /// Provider type, by its name.
    pub provider_type: String,
    pub enabled: bool,
    /// Chain order; lower runs first.
    pub position: i64,
    /// Free-form JSON config object (may contain secrets).
    pub config: String,
    pub created_at: String,
    pub updated_at: String,
}

impl DbProvider {
    /// A copy of the provider.
    pub fn copy(&self) -> (r: Self)
        ensures
            r == *self,
    {
        DbProvider {
            id: self.id,
            name: self.name.clone(),
            provider_type: self.provider_type.clone(),
            enabled: self.enabled,
            position: self.position,
            config: self.config.clone(),
            created_at: self.created_at.clone(),
            updated_at: self.updated_at.clone(),
        }
    }
}

/// Direction for [`move_provider`].
#[derive(Debug, Clone, Copy, PartialEq, Eq, Structural)]
pub enum MoveDirection {
    /// Earlier in the chain.
    Up,
    /// Later in the chain.
    Down,
}

/// A provider with that name is already there.
#[derive(Debug, Clone, Copy, PartialEq, Eq, Structural)]
pub struct NameTaken;

/// The stored providers. Ids are given out once.
pub struct ProviderStore {
    pub rows: Vec<DbProvider>,
    pub next_id: i64,
}

/// Whether `a` runs before `b`: by position, then by id.
pub open spec fn runs_before(a: DbProvider, b: DbProvider) -> bool {
    a.position < b.position || (a.position == b.position && a.id < b.id)
}

/// Ids are distinct, below the next one, and names are distinct.
pub open spec fn sound(rows: Seq<DbProvider>, next_id: i64) -> bool {
    &&& forall|i: int, j: int| 0 <= i < j < rows.len() ==> rows[i].id != rows[j].id
    &&& forall|i: int, j: int| 0 <= i < j < rows.len() ==> rows[i].name@ != rows[j].name@
    &&& forall|i: int| 0 <= i < rows.len() ==> (#[trigger] rows[i]).id < next_id
}

/// The position of a provider by its id.
pub open spec fn provider_at(rows: Seq<DbProvider>, id: i64) -> Option<int>
    decreases rows.len(),
{
    if rows.len() == 0 {
        None
    } else if rows[0].id == id {
        Some(0)
    } else {
        match provider_at(rows.skip(1), id) {
            Some(i) => Some(i + 1),
            None => None,
        }
    }
}

proof fn lemma_provider_at(rows: Seq<DbProvider>, id: i64)
    ensures
        match provider_at(rows, id) {
            Some(i) => 0 <= i < rows.len() && rows[i].id == id && forall|j: int|
                0 <= j < i ==> (#[trigger] rows[j]).id != id,
            None => forall|j: int| 0 <= j < rows.len() ==> (#[trigger] rows[j]).id != id,
        },
    decreases rows.len(),
{
    if rows.len() > 0 && rows[0].id != id {
        lemma_provider_at(rows.skip(1), id);
        assert forall|j: int|
            0 <= j < (match provider_at(rows, id) {
                Some(i) => i,
                None => rows.len() as int,
            }) implies (#[trigger] rows[j]).id != id by {
            if j > 0 {
                assert(rows[j] == rows.skip(1)[j - 1]);
            }
        }
    }
}

fn find_provider(rows: &Vec<DbProvider>, id: i64) -> (r: Option<usize>)
    ensures
        match r {
            Some(i) => provider_at(rows@, id) == Some(i as int) && i < rows@.len()
                && rows@[i as int].id == id,
            None => provider_at(rows@, id) is None,
        },
{
    let mut i: usize = 0;
    while i < rows.len()
        invariant
            i <= rows@.len(),
            forall|j: int| 0 <= j < i ==> (#[trigger] rows@[j]).id != id,
        decreases rows@.len() - i,
    {
        if rows[i].id == id {
            proof {
                lemma_provider_at(rows@, id);
            }
            return Some(i);
        }
        i = i + 1;
    }
    proof {
        lemma_provider_at(rows@, id);
    }
    None
}

impl ProviderStore {
    /// Ids and names are distinct, and the next id is fresh.
    pub open spec fn wf(&self) -> bool {
        sound(self.rows@, self.next_id)
    }

    /// A store without providers.
    pub fn new() -> (r: Self)
        ensures
            r.wf(),
            r.rows@.len() == 0,
            r.next_id == 1,
    {
        ProviderStore { rows: Vec::new(), next_id: 1 }
    }
}

// ── Reading ──
/// Providers in chain order.
pub open spec fn in_chain_order(v: Seq<DbProvider>) -> bool {
    forall|i: int, j: int| 0 <= i < j < v.len() ==> !runs_before(v[j], v[i])
}

/// Whether a list is that of the stored providers, in chain order.
pub open spec fn loaded(rows: Seq<DbProvider>, list: Seq<DbProvider>) -> bool {
    in_chain_order(list) && list.to_multiset() == rows.to_multiset()
}

fn before(a: &DbProvider, b: &DbProvider) -> (r: bool)
    ensures
        r == runs_before(*a, *b),
{
    a.position < b.position || (a.position == b.position && a.id < b.id)
}

proof fn lemma_chain_insert(v: Seq<DbProvider>, at: int, x: DbProvider)
    requires
        in_chain_order(v),
        0 <= at <= v.len(),
        forall|j: int| 0 <= j < at ==> !runs_before(x, #[trigger] v[j]),
        at < v.len() ==> runs_before(x, v[at]),
    ensures
        in_chain_order(v.insert(at, x)),
        v.insert(at, x).to_multiset() == v.to_multiset().insert(x),
{
    let o = v.insert(at, x);
    assert forall|a: int, b: int| 0 <= a < b < o.len() implies !runs_before(o[b], o[a]) by {
        if b < at {
            assert(!runs_before(v[b], v[a]));
        } else if b == at {
            assert(!runs_before(x, v[a]));
        } else if a < at {
            assert(!runs_before(v[b - 1], v[a]));
        } else if a == at {
            if b - 1 > at {
                assert(!runs_before(v[b - 1], v[at]));
            }
        } else {
            assert(!runs_before(v[b - 1], v[a - 1]));
        }
    }
    broadcast use vstd::seq_lib::group_to_multiset_ensures;

    let p = v.take(at);
    let s = v.skip(at);
    assert(v =~= p + s);
    assert(o =~= p.push(x) + s);
    vstd::seq_lib::lemma_multiset_commutative(p, s);
    vstd::seq_lib::lemma_multiset_commutative(p.push(x), s);
    assert(o.to_multiset() =~= v.to_multiset().insert(x));
}

/// Load all providers in chain order (position, then id).
pub fn load_providers(db: &ProviderStore) -> (r: Vec<DbProvider>)
    ensures
        loaded(db.rows@, r@),
{
    let mut out: Vec<DbProvider> = Vec::new();
    let mut i: usize = 0;
    proof {
        assert(db.rows@.take(0) =~= out@);
    }
    while i < db.rows.len()
        invariant
            i <= db.rows@.len(),
            in_chain_order(out@),
            out@.to_multiset() == db.rows@.take(i as int).to_multiset(),
        decreases db.rows@.len() - i,
    {
        let g = db.rows[i].copy();
        let ghost was = out@;
        let mut at: usize = 0;
        while at < out.len() && !before(&g, &out[at])
            invariant
                at <= out@.len(),
                out@ == was,
                forall|j: int| 0 <= j < at ==> !runs_before(g, #[trigger] was[j]),
            decreases out@.len() - at,
        {
            at = at + 1;
        }
        out.insert(at, g);
        proof {
            broadcast use vstd::seq_lib::group_to_multiset_ensures;

            lemma_chain_insert(was, at as int, g);
            assert(db.rows@.take(i + 1) =~= db.rows@.take(i as int).push(g));
        }
        i = i + 1;
    }
    proof {
        assert(db.rows@.take(i as int) =~= db.rows@);
    }
    out
}

/// Fetch a single provider by id, or `None` if it does not exist.
pub fn get_provider(db: &ProviderStore, id: i64) -> (r: Option<DbProvider>)
    ensures
        r == match provider_at(db.rows@, id) {
            Some(i) => Some(db.rows@[i]),
            None => None,
        },
{
    match find_provider(&db.rows, id) {
        Some(i) => Some(db.rows[i].copy()),
        None => None,
    }
}

// ── Changing ──
/// The position behind all others; 0 where there are none.
pub open spec fn next_position(rows: Seq<DbProvider>) -> int
    decreases rows.len(),
{
    if rows.len() == 0 {
        0
    } else {
        let front = next_position(rows.drop_last());
        let own = rows.last().position + 1;
        if rows.len() == 1 || own > front {
            own
        } else {
            front
        }
    }
}

/// Whether a name is in use.
pub open spec fn name_taken(rows: Seq<DbProvider>, name: Seq<char>) -> bool {
    exists|i: int| 0 <= i < rows.len() && (#[trigger] rows[i]).name@ == name
}

/// Insert a new provider at the end of the chain, enabled. Returns the
/// inserted row. Names are unique.
pub fn insert_provider(
    db: &mut ProviderStore,
    name: &str,
    provider_type: &str,
    config: &str,
    now: &str,
) -> (r: Result<DbProvider, NameTaken>)
    requires
        old(db).wf(),
        old(db).next_id < i64::MAX,
        forall|i: int| 0 <= i < old(db).rows@.len() ==> (#[trigger] old(db).rows@[i]).position
            < i64::MAX,
    ensures
        final(db).wf(),
        match r {
            Ok(p) => {
                &&& !name_taken(old(db).rows@, name@)
                &&& final(db).rows@ == old(db).rows@.push(p)
                &&& final(db).next_id == old(db).next_id + 1
                &&& p.id == old(db).next_id
                &&& p.name@ == name@
                &&& p.provider_type@ == provider_type@
                &&& p.enabled
                &&& p.position == next_position(old(db).rows@)
                &&& p.config@ == config@
                &&& p.created_at@ == now@
                &&& p.updated_at@ == now@
            },
            Err(_) => name_taken(old(db).rows@, name@) && *final(db) == *old(db),
        },
{
    let mut position: i64 = 0;
    let mut i: usize = 0;
    while i < db.rows.len()
        invariant
            i <= db.rows@.len(),
            *db == *old(db),
            old(db).wf(),
            forall|j: int| 0 <= j < i ==> (#[trigger] db.rows@[j]).name@ != name@,
            forall|j: int| 0 <= j < db.rows@.len() ==> (#[trigger] db.rows@[j]).position < i64::MAX,
            position == next_position(db.rows@.take(i as int)),
        decreases db.rows@.len() - i,
    {
        if same_text(db.rows[i].name.as_str(), name) {
            return Err(NameTaken);
        }
        proof {
            assert(db.rows@.take(i + 1).drop_last() =~= db.rows@.take(i as int));
        }
        let own: i64 = db.rows[i].position + 1;
        if i == 0 || own > position {
            position = own;
        }
        i = i + 1;
    }
    proof {
        assert(db.rows@.take(i as int) =~= db.rows@);
    }
    let p = DbProvider {
        id: db.next_id,
        name: name.to_owned(),
        provider_type: provider_type.to_owned(),
        enabled: true,
        position,
        config: config.to_owned(),
        created_at: now.to_owned(),
        updated_at: now.to_owned(),
    };
    db.next_id = db.next_id + 1;
    let out = p.copy();
    db.rows.push(p);
    Ok(out)
}

proof fn lemma_next_position(rows: Seq<DbProvider>, i: int)
    requires
        0 <= i < rows.len(),
    ensures
        rows[i].position < next_position(rows),
    decreases rows.len(),
{
    if i < rows.len() - 1 {
        lemma_next_position(rows.drop_last(), i);
    }
}

/// A new provider runs behind every other.
pub proof fn law_insert_appends(rows: Seq<DbProvider>, p: DbProvider, i: int)
    requires
        0 <= i < rows.len(),
        p.position == next_position(rows),
    ensures
        runs_before(rows[i], p),
{
    lemma_next_position(rows, i);
}

fn touch_config(p: &mut DbProvider, config: &str, now: &str)
    ensures
        final(p).config@ == config@,
        final(p).updated_at@ == now@,
        *final(p) == (DbProvider {
            config: final(p).config,
            updated_at: final(p).updated_at,
            ..*old(p)
        }),
{
    p.config = config.to_owned();
    p.updated_at = now.to_owned();
}

fn touch_enabled(p: &mut DbProvider, enabled: bool, now: &str)
    ensures
        final(p).updated_at@ == now@,
        *final(p) == (DbProvider { enabled, updated_at: final(p).updated_at, ..*old(p) }),
{
    p.enabled = enabled;
    p.updated_at = now.to_owned();
}

fn touch_position(p: &mut DbProvider, position: i64, now: &str)
    ensures
        final(p).updated_at@ == now@,
        *final(p) == (DbProvider { position, updated_at: final(p).updated_at, ..*old(p) }),
{
    p.position = position;
    p.updated_at = now.to_owned();
}

/// A sound store stays sound where a row keeps its id and name.
proof fn lemma_sound_update(rows: Seq<DbProvider>, next_id: i64, i: int, p: DbProvider)
    requires
        sound(rows, next_id),
        0 <= i < rows.len(),
        p.id == rows[i].id,
        p.name == rows[i].name,
    ensures
        sound(rows.update(i, p), next_id),
{
    let u = rows.update(i, p);
    assert forall|a: int, b: int| 0 <= a < b < u.len() implies u[a].id != u[b].id by {
        assert(rows[a].id != rows[b].id);
    }
    assert forall|a: int, b: int| 0 <= a < b < u.len() implies u[a].name@ != u[b].name@ by {
        assert(rows[a].name@ != rows[b].name@);
    }
    assert forall|a: int| 0 <= a < u.len() implies (#[trigger] u[a]).id < next_id by {
        assert(rows[a].id < next_id);
    }
}

/// Replace a provider's config. Returns `false` if the id is unknown.
pub fn update_config(db: &mut ProviderStore, id: i64, config: &str, now: &str) -> (r: bool)
    requires
        old(db).wf(),
    ensures
        final(db).wf(),
        final(db).next_id == old(db).next_id,
        match provider_at(old(db).rows@, id) {
            None => !r && final(db).rows@ == old(db).rows@,
            Some(i) => {
                let p = final(db).rows@[i];
                &&& r
                &&& final(db).rows@ == old(db).rows@.update(i, p)
                &&& p.config@ == config@
                &&& p.updated_at@ == now@
                &&& p == DbProvider {
                    config: p.config,
                    updated_at: p.updated_at,
                    ..old(db).rows@[i]
                }
            },
        },
{
    match find_provider(&db.rows, id) {
        None => false,
        Some(i) => {
            touch_config(&mut db.rows[i], config, now);
            proof {
                lemma_sound_update(old(db).rows@, db.next_id, i as int, db.rows@[i as int]);
            }
            true
        },
    }
}

/// Flip a provider's `enabled` flag. Returns `false` if the id is unknown.
pub fn set_enabled(db: &mut ProviderStore, id: i64, enabled: bool, now: &str) -> (r: bool)
    requires
        old(db).wf(),
    ensures
        final(db).wf(),
        final(db).next_id == old(db).next_id,
        match provider_at(old(db).rows@, id) {
            None => !r && final(db).rows@ == old(db).rows@,
            Some(i) => {
                let p = final(db).rows@[i];
                &&& r
                &&& final(db).rows@ == old(db).rows@.update(i, p)
                &&& p.updated_at@ == now@
                &&& p == DbProvider { enabled, updated_at: p.updated_at, ..old(db).rows@[i] }
            },
        },
{
    match find_provider(&db.rows, id) {
        None => false,
        Some(i) => {
            touch_enabled(&mut db.rows[i], enabled, now);
            proof {
                lemma_sound_update(old(db).rows@, db.next_id, i as int, db.rows@[i as int]);
            }
            true
        },
    }
}

/// Delete a provider. Returns `false` if the id is unknown.
pub fn delete_provider(db: &mut ProviderStore, id: i64) -> (r: bool)
    requires
        old(db).wf(),
    ensures
        final(db).wf(),
        final(db).next_id == old(db).next_id,
        match provider_at(old(db).rows@, id) {
            None => !r && final(db).rows@ == old(db).rows@,
            Some(i) => r && final(db).rows@ == old(db).rows@.remove(i),
        },
{
    match find_provider(&db.rows, id) {
        None => false,
        Some(i) => {
            let ghost rows = db.rows@;
            db.rows.remove(i);
            proof {
                let u = db.rows@;
                assert forall|a: int| 0 <= a < u.len() implies #[trigger] u[a] == rows[if a < i {
                    a
                } else {
                    a + 1
                }] by {}
                assert forall|a: int, b: int| 0 <= a < b < u.len() implies u[a].id != u[b].id
                    && u[a].name@ != u[b].name@ by {
                    let x = if a < i {
                        a
                    } else {
                        a + 1
                    };
                    let y = if b < i {
                        b
                    } else {
                        b + 1
                    };
                    assert(u[a] == rows[x] && u[b] == rows[y]);
                    assert(rows[x].id != rows[y].id && rows[x].name@ != rows[y].name@);
                }
                assert forall|a: int| 0 <= a < u.len() implies (#[trigger] u[a]).id
                    < db.next_id by {
                    let x = if a < i {
                        a
                    } else {
                        a + 1
                    };
                    assert(rows[x].id < db.next_id);
                }
            }
            true
        },
    }
}

/// Whether row `j` is the neighbour of row `i` in a direction: nothing runs
/// between them.
pub open spec fn neighbour(
    rows: Seq<DbProvider>,
    i: int,
    direction: MoveDirection,
    j: int,
) -> bool {
    0 <= j < rows.len() && match direction {
        MoveDirection::Up => runs_before(rows[j], rows[i]) && forall|k: int|
            0 <= k < rows.len() && runs_before(#[trigger] rows[k], rows[i]) && k != j
                ==> runs_before(rows[k], rows[j]),
        MoveDirection::Down => runs_before(rows[i], rows[j]) && forall|k: int|
            0 <= k < rows.len() && runs_before(rows[i], #[trigger] rows[k]) && k != j
                ==> runs_before(rows[j], rows[k]),
    }
}

/// Whether row `i` is at the end of the chain in a direction.
pub open spec fn at_edge(rows: Seq<DbProvider>, i: int, direction: MoveDirection) -> bool {
    forall|k: int|
        0 <= k < rows.len() ==> match direction {
            MoveDirection::Up => !runs_before(#[trigger] rows[k], rows[i]),
            MoveDirection::Down => !runs_before(rows[i], #[trigger] rows[k]),
        }
}

fn find_neighbour(rows: &Vec<DbProvider>, i: usize, direction: MoveDirection) -> (r: Option<usize>)
    requires
        i < rows@.len(),
        forall|a: int, b: int| 0 <= a < b < rows@.len() ==> rows@[a].id != rows@[b].id,
    ensures
        match r {
            Some(j) => j < rows@.len() && j != i && neighbour(rows@, i as int, direction, j as int),
            None => at_edge(rows@, i as int, direction),
        },
{
    let mut best: Option<usize> = None;
    let mut k: usize = 0;
    while k < rows.len()
        invariant
            i < rows@.len(),
            k <= rows@.len(),
            forall|a: int, b: int| 0 <= a < b < rows@.len() ==> rows@[a].id != rows@[b].id,
            match best {
                Some(j) => {
                    &&& j < k
                    &&& match direction {
                        MoveDirection::Up => runs_before(rows@[j as int], rows@[i as int])
                            && forall|m: int|
                            0 <= m < k && runs_before(#[trigger] rows@[m], rows@[i as int]) && m != j
                                ==> runs_before(rows@[m], rows@[j as int]),
                        MoveDirection::Down => runs_before(rows@[i as int], rows@[j as int])
                            && forall|m: int|
                            0 <= m < k && runs_before(rows@[i as int], #[trigger] rows@[m]) && m != j
                                ==> runs_before(rows@[j as int], rows@[m]),
                    }
                },
                None => forall|m: int|
                    0 <= m < k ==> match direction {
                        MoveDirection::Up => !runs_before(#[trigger] rows@[m], rows@[i as int]),
                        MoveDirection::Down => !runs_before(rows@[i as int], #[trigger] rows@[m]),
                    },
            },
        decreases rows@.len() - k,
    {
        let fits = match direction {
            MoveDirection::Up => before(&rows[k], &rows[i]),
            MoveDirection::Down => before(&rows[i], &rows[k]),
        };
        if fits {
            let better = match best {
                None => true,
                Some(j) => match direction {
                    MoveDirection::Up => before(&rows[j], &rows[k]),
                    MoveDirection::Down => before(&rows[k], &rows[j]),
                },
            };
            proof {
                if let Some(j) = best {
                    assert(rows@[j as int].id != rows@[k as int].id);
                }
            }
            if better {
                best = Some(k);
            }
        }
        k = k + 1;
    }
    best
}

/// Whether `after` is `before` with the positions of two rows exchanged.
pub open spec fn swapped(
    before: Seq<DbProvider>,
    after: Seq<DbProvider>,
    i: int,
    j: int,
    now: Seq<char>,
) -> bool {
    &&& after.len() == before.len()
    &&& after == before.update(i, after[i]).update(j, after[j])
    &&& after[i] == DbProvider {
        position: before[j].position,
        updated_at: after[i].updated_at,
        ..before[i]
    }
    &&& after[j] == DbProvider {
        position: before[i].position,
        updated_at: after[j].updated_at,
        ..before[j]
    }
    &&& after[i].updated_at@ == now
    &&& after[j].updated_at@ == now
}

/// Whether `after` is `before` with a provider moved: its position and that of
/// its neighbour are exchanged, and nothing changes where it has none or is
/// not there.
pub open spec fn moves(
    before: Seq<DbProvider>,
    after: Seq<DbProvider>,
    id: i64,
    direction: MoveDirection,
    now: Seq<char>,
) -> bool {
    match provider_at(before, id) {
        None => after == before,
        Some(i) => {
            &&& at_edge(before, i, direction) ==> after == before
            &&& !at_edge(before, i, direction) ==> exists|j: int|
                j != i && #[trigger] neighbour(before, i, direction, j) && swapped(
                    before,
                    after,
                    i,
                    j,
                    now,
                )
        },
    }
}

/// Swap a provider's position with its neighbour (`Up` = earlier in the
/// chain, `Down` = later). Moving the first provider up or the last one down
/// is a no-op that still returns the provider. Returns `None` if the id is
/// unknown.
pub fn move_provider(
    db: &mut ProviderStore,
    id: i64,
    direction: MoveDirection,
    now: &str,
) -> (r: Option<DbProvider>)
    requires
        old(db).wf(),
    ensures
        final(db).wf(),
        final(db).next_id == old(db).next_id,
        moves(old(db).rows@, final(db).rows@, id, direction, now@),
        r == match provider_at(old(db).rows@, id) {
            Some(i) => Some(final(db).rows@[i]),
            None => None,
        },
{
    let i: usize = match find_provider(&db.rows, id) {
        Some(i) => i,
        None => return None,
    };
    match find_neighbour(&db.rows, i, direction) {
        None => Some(db.rows[i].copy()),
        Some(j) => {
            let ghost rows = db.rows@;
            let a: i64 = db.rows[i].position;
            let b: i64 = db.rows[j].position;
            touch_position(&mut db.rows[i], b, now);
            proof {
                lemma_sound_update(rows, db.next_id, i as int, db.rows@[i as int]);
            }
            let ghost mid = db.rows@;
            touch_position(&mut db.rows[j], a, now);
            proof {
                lemma_sound_update(mid, db.next_id, j as int, db.rows@[j as int]);
                assert(db.rows@ =~= rows.update(i as int, db.rows@[i as int]).update(
                    j as int,
                    db.rows@[j as int],
                ));
                assert(neighbour(rows, i as int, direction, j as int));
                assert(swapped(rows, db.rows@, i as int, j as int, now@));
                match direction {
                    MoveDirection::Up => {
                        assert(runs_before(rows[j as int], rows[i as int]));
                    },
                    MoveDirection::Down => {
                        assert(runs_before(rows[i as int], rows[j as int]));
                    },
                }
            }
            Some(db.rows[i].copy())
        },
    }
}

/// No two providers have the same position.
pub open spec fn distinct_positions(rows: Seq<DbProvider>) -> bool {
    forall|i: int, j: int| 0 <= i < j < rows.len() ==> rows[i].position != rows[j].position
}

/// A move is undone by the opposite move: where positions are distinct, the
/// neighbour that was passed is the neighbour on the way back.
pub proof fn law_move_back(
    rows: Seq<DbProvider>,
    moved: Seq<DbProvider>,
    i: int,
    j: int,
    direction: MoveDirection,
    now: Seq<char>,
)
    requires
        distinct_positions(rows),
        0 <= i < rows.len(),
        i != j,
        neighbour(rows, i, direction, j),
        swapped(rows, moved, i, j, now),
    ensures
        neighbour(
            moved,
            i,
            opposite(direction),
            j,
        ),
        moved[i].position == rows[j].position,
        moved[j].position == rows[i].position,
{
    assert(rows[i].position != rows[j].position) by {
        if i < j {
            assert(rows[i].position != rows[j].position);
        } else {
            assert(rows[j].position != rows[i].position);
        }
    }
    assert forall|k: int| 0 <= k < rows.len() && k != i && k != j implies #[trigger] moved[k]
        == rows[k] && rows[k].position != rows[i].position && rows[k].position
        != rows[j].position by {
        assert(moved[k] == rows.update(i, moved[i]).update(j, moved[j])[k]);
        if k < i {
            assert(rows[k].position != rows[i].position);
        } else {
            assert(rows[i].position != rows[k].position);
        }
        if k < j {
            assert(rows[k].position != rows[j].position);
        } else {
            assert(rows[j].position != rows[k].position);
        }
    }
    match direction {
        MoveDirection::Up => {
            assert forall|k: int|
                0 <= k < moved.len() && runs_before(moved[i], #[trigger] moved[k]) && k
                    != j implies runs_before(moved[j], moved[k]) by {
                if k != i {
                    if runs_before(rows[k], rows[i]) {
                        assert(runs_before(rows[k], rows[j]));
                    }
                }
            }
        },
        MoveDirection::Down => {
            assert forall|k: int|
                0 <= k < moved.len() && runs_before(#[trigger] moved[k], moved[i]) && k
                    != j implies runs_before(moved[k], moved[j]) by {
                if k != i {
                    if runs_before(rows[i], rows[k]) {
                        assert(runs_before(rows[j], rows[k]));
                    }
                }
            }
        },
    }
}

/// Each runs before all that follow.
pub open spec fn runs_in_order(list: Seq<DbProvider>) -> bool {
    forall|a: int, b: int| 0 <= a < b < list.len() ==> runs_before(list[a], list[b])
}

/// A loaded list holds each stored provider once, in strict order.
proof fn lemma_loaded(rows: Seq<DbProvider>, next_id: i64, list: Seq<DbProvider>)
    requires
        sound(rows, next_id),
        loaded(rows, list),
    ensures
        runs_in_order(list),
        list.len() == rows.len(),
        forall|p: DbProvider|
            #![trigger list.contains(p)]
            #![trigger rows.contains(p)]
            list.contains(p) <==> rows.contains(p),
{
    broadcast use vstd::seq_lib::group_to_multiset_ensures;

    assert(rows.no_duplicates());
    rows.lemma_multiset_has_no_duplicates();
    list.lemma_multiset_has_no_duplicates_conv();
    assert(list.len() == list.to_multiset().len());
    assert(rows.len() == rows.to_multiset().len());
    assert forall|p: DbProvider|
            #![trigger list.contains(p)]
            #![trigger rows.contains(p)]
            list.contains(p) <==> rows.contains(p) by {
        assert(list.contains(p) <==> list.to_multiset().count(p) > 0);
        assert(rows.contains(p) <==> rows.to_multiset().count(p) > 0);
    }
    assert forall|a: int, b: int| 0 <= a < b < list.len() implies runs_before(
        list[a],
        list[b],
    ) by {
        assert(!runs_before(list[b], list[a]));
        assert(list.contains(list[a]) && list.contains(list[b]));
        let i = choose|i: int| 0 <= i < rows.len() && rows[i] == list[a];
        let j = choose|j: int| 0 <= j < rows.len() && rows[j] == list[b];
        assert(list[a] != list[b]);
        if i < j {
            assert(rows[i].id != rows[j].id);
        } else {
            assert(rows[j].id != rows[i].id);
        }
    }
}

/// Two lists in strict order with the same members are the same.
proof fn lemma_one_order(x: Seq<DbProvider>, y: Seq<DbProvider>)
    requires
        runs_in_order(x),
        runs_in_order(y),
        x.len() == y.len(),
        forall|p: DbProvider|
            #![trigger x.contains(p)]
            #![trigger y.contains(p)]
            x.contains(p) <==> y.contains(p),
    ensures
        x == y,
    decreases x.len(),
{
    if x.len() > 0 {
        assert(x.contains(x[0]) && y.contains(y[0]));
        assert(y.contains(x[0]) && x.contains(y[0]));
        let k = choose|k: int| 0 <= k < y.len() && y[k] == x[0];
        let m = choose|m: int| 0 <= m < x.len() && x[m] == y[0];
        if k > 0 && m > 0 {
            assert(runs_before(y[0], y[k]));
            assert(runs_before(x[0], x[m]));
        }
        assert(x[0] == y[0]);
        let u = x.drop_first();
        let v = y.drop_first();
        assert forall|a: int, b: int| 0 <= a < b < u.len() implies runs_before(u[a], u[b]) by {
            assert(runs_before(x[a + 1], x[b + 1]));
        }
        assert forall|a: int, b: int| 0 <= a < b < v.len() implies runs_before(v[a], v[b]) by {
            assert(runs_before(y[a + 1], y[b + 1]));
        }
        assert forall|p: DbProvider|
            #![trigger u.contains(p)]
            #![trigger v.contains(p)]
            u.contains(p) <==> v.contains(p) by {
            if u.contains(p) {
                let a = choose|a: int| 0 <= a < u.len() && u[a] == p;
                assert(x[a + 1] == p && runs_before(x[0], x[a + 1]));
                assert(x.contains(p));
                assert(y.contains(p));
                let b = choose|b: int| 0 <= b < y.len() && y[b] == p;
                assert(v[b - 1] == p);
            }
            if v.contains(p) {
                let a = choose|a: int| 0 <= a < v.len() && v[a] == p;
                assert(y[a + 1] == p && runs_before(y[0], y[a + 1]));
                assert(y.contains(p));
                assert(x.contains(p));
                let b = choose|b: int| 0 <= b < x.len() && x[b] == p;
                assert(u[b - 1] == p);
            }
        }
        lemma_one_order(u, v);
        assert(x =~= seq![x[0]] + u);
        assert(y =~= seq![y[0]] + v);
    } else {
        assert(x =~= y);
    }
}

/// A provider has one place in a loaded list, and its neighbour the one beside
/// it.
proof fn lemma_neighbour_in_list(
    rows: Seq<DbProvider>,
    next_id: i64,
    list: Seq<DbProvider>,
    i: int,
    direction: MoveDirection,
    n: int,
)
    requires
        sound(rows, next_id),
        loaded(rows, list),
        0 <= i < rows.len(),
        0 <= n < list.len(),
        list[n] == rows[i],
    ensures
        ({
            let to = beside(n, direction);
            &&& at_edge(rows, i, direction) <==> !(0 <= to < list.len())
            &&& forall|j: int|
                j != i && #[trigger] neighbour(rows, i, direction, j) ==> 0 <= to < list.len()
                    && list[to] == rows[j]
        }),
{
    lemma_loaded(rows, next_id, list);
    let to = beside(n, direction);
    if 0 <= to < list.len() {
        assert(list.contains(list[to]));
        let k = choose|k: int| 0 <= k < rows.len() && rows[k] == list[to];
        match direction {
            MoveDirection::Up => {
                assert(runs_before(list[to], list[n]));
                assert(runs_before(rows[k], rows[i]));
            },
            MoveDirection::Down => {
                assert(runs_before(list[n], list[to]));
                assert(runs_before(rows[i], rows[k]));
            },
        }
        assert forall|j: int| j != i && #[trigger] neighbour(rows, i, direction, j) implies list[to]
            == rows[j] by {
            assert(rows.contains(rows[j]));
            assert(list.contains(rows[j]));
            let q = choose|q: int| 0 <= q < list.len() && list[q] == rows[j];
            if q < n {
                assert(runs_before(list[q], list[n]));
            }
            if n < q {
                assert(runs_before(list[n], list[q]));
            }
            if q < to {
                assert(runs_before(list[q], list[to]));
            }
            if to < q {
                assert(runs_before(list[to], list[q]));
            }
        }
    } else {
        assert forall|k: int| 0 <= k < rows.len() implies match direction {
            MoveDirection::Up => !runs_before(#[trigger] rows[k], rows[i]),
            MoveDirection::Down => !runs_before(rows[i], #[trigger] rows[k]),
        } by {
            assert(rows.contains(rows[k]));
            assert(list.contains(rows[k]));
            let q = choose|q: int| 0 <= q < list.len() && list[q] == rows[k];
            if q < n {
                assert(runs_before(list[q], list[n]));
            }
            if n < q {
                assert(runs_before(list[n], list[q]));
            }
        }
    }
}

/// The place beside another in a direction.
pub open spec fn beside(n: int, direction: MoveDirection) -> int {
    match direction {
        MoveDirection::Up => n - 1,
        MoveDirection::Down => n + 1,
    }
}

/// Whether `after` is `before` with the providers at two places exchanged; the
/// places keep their positions.
pub open spec fn exchanged(
    before: Seq<DbProvider>,
    after: Seq<DbProvider>,
    n: int,
    to: int,
    now: Seq<char>,
) -> bool {
    &&& after.len() == before.len()
    &&& after == before.update(n, after[n]).update(to, after[to])
    &&& after[to] == DbProvider {
        position: before[to].position,
        updated_at: after[to].updated_at,
        ..before[n]
    }
    &&& after[n] == DbProvider {
        position: before[n].position,
        updated_at: after[n].updated_at,
        ..before[to]
    }
    &&& after[to].updated_at@ == now
    &&& after[n].updated_at@ == now
}

/// Exchanging the positions of two neighbours exchanges their places in the
/// loaded list.
proof fn lemma_exchange(
    rows: Seq<DbProvider>,
    next_id: i64,
    after: Seq<DbProvider>,
    list: Seq<DbProvider>,
    list_after: Seq<DbProvider>,
    i: int,
    j: int,
    n: int,
    to: int,
    now: Seq<char>,
)
    requires
        sound(rows, next_id),
        sound(after, next_id),
        distinct_positions(rows),
        loaded(rows, list),
        loaded(after, list_after),
        0 <= i < rows.len(),
        0 <= j < rows.len(),
        i != j,
        swapped(rows, after, i, j, now),
        0 <= n < list.len(),
        0 <= to < list.len(),
        n - to == 1 || to - n == 1,
        list[n] == rows[i],
        list[to] == rows[j],
    ensures
        exchanged(list, list_after, n, to, now),
{
    lemma_loaded(rows, next_id, list);
    lemma_loaded(after, next_id, list_after);
    let c = list.update(to, after[i]).update(n, after[j]);
    assert forall|a: int, b: int| 0 <= a < b < list.len() implies list[a].position
        < list[b].position by {
        assert(runs_before(list[a], list[b]));
        assert(list.contains(list[a]) && list.contains(list[b]));
        let x = choose|x: int| 0 <= x < rows.len() && rows[x] == list[a];
        let y = choose|y: int| 0 <= y < rows.len() && rows[y] == list[b];
        if x < y {
            assert(rows[x].position != rows[y].position);
        } else if y < x {
            assert(rows[y].position != rows[x].position);
        }
    }
    assert forall|a: int| 0 <= a < c.len() implies (#[trigger] c[a]).position
        == list[a].position by {}
    assert forall|a: int, b: int| 0 <= a < b < c.len() implies runs_before(c[a], c[b]) by {
        assert(list[a].position < list[b].position);
        assert(c[a].position == list[a].position && c[b].position == list[b].position);
    }
    assert forall|k: int| 0 <= k < rows.len() && k != i && k != j implies #[trigger] after[k]
        == rows[k] by {
        assert(after[k] == rows.update(i, after[i]).update(j, after[j])[k]);
    }
    assert forall|p: DbProvider|
        #![trigger c.contains(p)]
        #![trigger list_after.contains(p)]
        c.contains(p) <==> list_after.contains(p) by {
        assert(list_after.contains(p) <==> after.contains(p));
        if c.contains(p) {
            let a = choose|a: int| 0 <= a < c.len() && c[a] == p;
            if a == to {
                assert(after[i] == p);
            } else if a == n {
                assert(after[j] == p);
            } else {
                assert(list.contains(list[a]));
                assert(rows.contains(list[a]));
                let k = choose|k: int| 0 <= k < rows.len() && rows[k] == list[a];
                if a < n {
                    assert(runs_before(list[a], list[n]));
                } else {
                    assert(runs_before(list[n], list[a]));
                }
                if a < to {
                    assert(runs_before(list[a], list[to]));
                } else {
                    assert(runs_before(list[to], list[a]));
                }
                assert(after[k] == p);
            }
        }
        if after.contains(p) {
            let k = choose|k: int| 0 <= k < after.len() && after[k] == p;
            if k == i {
                assert(c[to] == p);
            } else if k == j {
                assert(c[n] == p);
            } else {
                assert(rows.contains(rows[k]));
                assert(list.contains(rows[k]));
                let a = choose|a: int| 0 <= a < list.len() && list[a] == rows[k];
                if k < i {
                    assert(rows[k].id != rows[i].id);
                } else {
                    assert(rows[i].id != rows[k].id);
                }
                if k < j {
                    assert(rows[k].id != rows[j].id);
                } else {
                    assert(rows[j].id != rows[k].id);
                }
                assert(c[a] == p);
            }
        }
    }
    lemma_one_order(c, list_after);
    assert(list_after =~= list.update(n, list_after[n]).update(to, list_after[to]));
}

/// Over the loaded lists before and after: a provider that is not there
/// changes nothing. One that is there changes places with the one beside it,
/// and nothing changes where there is none; no other provider and no position
/// changes.
pub proof fn law_move_in_loaded_list(
    rows: Seq<DbProvider>,
    after: Seq<DbProvider>,
    next_id: i64,
    list: Seq<DbProvider>,
    list_after: Seq<DbProvider>,
    id: i64,
    direction: MoveDirection,
    now: Seq<char>,
    n: int,
)
    requires
        sound(rows, next_id),
        sound(after, next_id),
        distinct_positions(rows),
        loaded(rows, list),
        loaded(after, list_after),
        moves(rows, after, id, direction, now),
    ensures
        (forall|k: int| 0 <= k < list.len() ==> (#[trigger] list[k]).id != id) ==> list_after
            == list,
        0 <= n < list.len() && list[n].id == id ==> if 0 <= beside(n, direction) < list.len() {
            exchanged(list, list_after, n, beside(n, direction), now)
        } else {
            list_after == list
        },
{
    lemma_loaded(rows, next_id, list);
    lemma_loaded(after, next_id, list_after);
    lemma_provider_at(rows, id);
    if after == rows {
        lemma_one_order(list, list_after);
    }
    if let Some(i) = provider_at(rows, id) {
        assert(rows.contains(rows[i]));
        assert(list.contains(rows[i]));
        let q = choose|q: int| 0 <= q < list.len() && list[q] == rows[i];
        assert(list[q].id == id);
        if 0 <= n < list.len() && list[n].id == id {
            assert(list.contains(list[n]));
            let k = choose|k: int| 0 <= k < rows.len() && rows[k] == list[n];
            if k < i {
                assert(rows[k].id != rows[i].id);
            } else if i < k {
                assert(rows[i].id != rows[k].id);
            }
            lemma_neighbour_in_list(rows, next_id, list, i, direction, n);
            if !at_edge(rows, i, direction) {
                let j = choose|j: int|
                    j != i && #[trigger] neighbour(rows, i, direction, j) && swapped(
                        rows,
                        after,
                        i,
                        j,
                        now,
                    );
                let to = beside(n, direction);
                lemma_exchange(rows, next_id, after, list, list_after, i, j, n, to, now);
            }
        }
    } else if 0 <= n < list.len() && list[n].id == id {
        assert(list.contains(list[n]));
        let k = choose|k: int| 0 <= k < rows.len() && rows[k] == list[n];
    }
}

/// The other direction.
pub open spec fn opposite(direction: MoveDirection) -> MoveDirection {
    match direction {
        MoveDirection::Up => MoveDirection::Down,
        MoveDirection::Down => MoveDirection::Up,
    }
}

/// A move and the opposite move restore the order, wherever there is a
/// neighbour to pass: every place of the loaded list holds the provider, with
/// the position, that it held.
pub proof fn law_moves_restore_the_order(
    rows: Seq<DbProvider>,
    moved: Seq<DbProvider>,
    after: Seq<DbProvider>,
    next_id: i64,
    list: Seq<DbProvider>,
    list_moved: Seq<DbProvider>,
    list_after: Seq<DbProvider>,
    direction: MoveDirection,
    now: Seq<char>,
    later: Seq<char>,
    n: int,
)
    requires
        sound(rows, next_id),
        sound(moved, next_id),
        sound(after, next_id),
        distinct_positions(rows),
        loaded(rows, list),
        loaded(moved, list_moved),
        loaded(after, list_after),
        0 <= n < list.len(),
        0 <= beside(n, direction) < list.len(),
        moves(rows, moved, list[n].id, direction, now),
        moves(moved, after, list[n].id, opposite(direction), later),
    ensures
        list_after.len() == list.len(),
        forall|k: int|
            0 <= k < list.len() ==> #[trigger] list_after[k] == (DbProvider {
                updated_at: list_after[k].updated_at,
                ..list[k]
            }),
{
    let to = beside(n, direction);
    law_move_in_loaded_list(
        rows,
        moved,
        next_id,
        list,
        list_moved,
        list[n].id,
        direction,
        now,
        n,
    );
    lemma_loaded(rows, next_id, list);
    lemma_loaded(moved, next_id, list_moved);
    assert forall|a: int, b: int| 0 <= a < b < moved.len() implies moved[a].position
        != moved[b].position by {
        assert(moved.contains(moved[a]) && moved.contains(moved[b]));
        let x = choose|x: int| 0 <= x < list_moved.len() && list_moved[x] == moved[a];
        let y = choose|y: int| 0 <= y < list_moved.len() && list_moved[y] == moved[b];
        assert(moved[a].id != moved[b].id);
        assert(list_moved[x].position == list[x].position);
        assert(list_moved[y].position == list[y].position);
        assert(list.contains(list[x]) && list.contains(list[y]));
        let u = choose|u: int| 0 <= u < rows.len() && rows[u] == list[x];
        let v = choose|v: int| 0 <= v < rows.len() && rows[v] == list[y];
        if x < y {
            assert(runs_before(list[x], list[y]));
        } else {
            assert(runs_before(list[y], list[x]));
        }
        if u < v {
            assert(rows[u].position != rows[v].position);
        } else if v < u {
            assert(rows[v].position != rows[u].position);
        }
    }
    assert(list_moved[to].id == list[n].id);
    law_move_in_loaded_list(
        moved,
        after,
        next_id,
        list_moved,
        list_after,
        list[n].id,
        opposite(direction),
        later,
        to,
    );
    assert(beside(to, opposite(direction)) == n);
}

// ── Validation ──
/// A member of a config object, as far as validation goes.
#[derive(Debug)]
pub enum ConfigValue {
    Text(String),
    Number,
    Other,
}

/// A member of a config object over character sequences.
pub ghost enum ConfigText {
    Text(Seq<char>),
    Number,
    Other,
}

/// The members of a config object over character sequences.
pub open spec fn member_texts(v: Seq<(String, ConfigValue)>) -> Seq<(Seq<char>, ConfigText)> {
    Seq::new(
        v.len(),
        |i: int|
            (
                v[i].0@,
                match v[i].1 {
                    ConfigValue::Text(s) => ConfigText::Text(s@),
                    ConfigValue::Number => ConfigText::Number,
                    ConfigValue::Other => ConfigText::Other,
                },
            ),
    )
}

/// A member of a config object from its JSON text.
pub open spec fn config_value(json: Seq<char>) -> ConfigText {
    match json_of(json) {
        Ok(JsonText::Text(s)) => ConfigText::Text(s),
        Ok(JsonText::Number(_)) => ConfigText::Number,
        _ => ConfigText::Other,
    }
}

/// The members of a JSON object, none for anything else.
pub open spec fn config_members(json: Seq<char>) -> Seq<(Seq<char>, ConfigText)> {
    match json_of(json) {
        Ok(JsonText::Object(m)) => Seq::new(m.len(), |i: int| (m[i].0, config_value(m[i].1))),
        _ => Seq::empty(),
    }
}

/// The members of a JSON object, none for anything else.
fn read_config(json: &str) -> (r: Vec<(String, ConfigValue)>)
    ensures
        member_texts(r@) == config_members(json@),
{
    let mut out: Vec<(String, ConfigValue)> = Vec::new();
    if let Ok(Json::Object(m)) = parse_json(json) {
        let mut i: usize = 0;
        while i < m.len()
            invariant
                i <= m@.len(),
                out@.len() == i,
                forall|j: int|
                    0 <= j < i ==> #[trigger] member_texts(out@)[j] == (
                        m@[j].0@,
                        config_value(m@[j].1@),
                    ),
            decreases m@.len() - i,
        {
            let value = match parse_json(m[i].1.as_str()) {
                Ok(Json::Text(s)) => ConfigValue::Text(s),
                Ok(Json::Number(_)) => ConfigValue::Number,
                _ => ConfigValue::Other,
            };
            let ghost before = out@;
            out.push((m[i].0.clone(), value));
            proof {
                assert forall|j: int| 0 <= j < i + 1 implies #[trigger] member_texts(out@)[j] == (
                    m@[j].0@,
                    config_value(m@[j].1@),
                ) by {
                    if j < i {
                        assert(member_texts(before)[j] == member_texts(out@)[j]);
                    }
                }
            }
            i = i + 1;
        }
        proof {
            assert(member_texts(out@) =~= config_members(json@));
        }
    } else {
        proof {
            assert(member_texts(out@) =~= config_members(json@));
        }
    }
    out
}

/// Whether a required field counts as present: a text that is not blank, or
/// any number.
pub open spec fn field_set(v: Seq<(Seq<char>, ConfigText)>, key: Seq<char>) -> bool {
    exists|i: int|
        0 <= i < v.len() && (#[trigger] v[i]).0 == key && match v[i].1 {
            ConfigText::Text(s) => trimmed(s).len() > 0,
            ConfigText::Number => true,
            ConfigText::Other => false,
        }
}

/// Whether a required field counts as present.
pub fn field_present(config: &Vec<(String, ConfigValue)>, key: &str) -> (r: bool)
    ensures
        r == field_set(member_texts(config@), key@),
{
    let ghost t = member_texts(config@);
    let mut i: usize = 0;
    while i < config.len()
        invariant
            i <= config@.len(),
            t == member_texts(config@),
            forall|j: int|
                0 <= j < i ==> !((#[trigger] t[j]).0 == key@ && match t[j].1 {
                    ConfigText::Text(s) => trimmed(s).len() > 0,
                    ConfigText::Number => true,
                    ConfigText::Other => false,
                }),
        decreases config@.len() - i,
    {
        let own = same_text(config[i].0.as_str(), key);
        let set = match &config[i].1 {
            ConfigValue::Text(s) => !is_blank(s.as_str()),
            ConfigValue::Number => true,
            ConfigValue::Other => false,
        };
        proof {
            assert(t[i as int].0 == config@[i as int].0@);
        }
        if own && set {
            return true;
        }
        i = i + 1;
    }
    false
}

/// The fields that a provider type requires; nothing for an unknown type.
pub open spec fn required_fields(provider_type: Seq<char>) -> Option<Seq<Seq<char>>> {
    if provider_type == "oidc"@ {
        Some(seq!["issuer_url"@, "client_id"@, "client_secret"@, "redirect_uri"@])
    } else if provider_type == "ldap"@ {
        Some(seq!["url"@, "bind_dn"@, "search_base"@])
    } else if provider_type == "saml"@ {
        Some(seq!["idp_metadata_url"@, "entity_id"@, "acs_url"@])
    } else if provider_type == "radius"@ {
        Some(seq!["hostname"@, "auth_port"@, "secret"@])
    } else if provider_type == "database"@ || provider_type == "totp"@ {
        Some(Seq::empty())
    } else {
        None
    }
}

/// The first of the fields that is not set.
pub open spec fn first_missing(
    fields: Seq<Seq<char>>,
    config: Seq<(Seq<char>, ConfigText)>,
) -> Option<Seq<char>>
    decreases fields.len(),
{
    if fields.len() == 0 {
        None
    } else if !field_set(config, fields[0]) {
        Some(fields[0])
    } else {
        first_missing(fields.skip(1), config)
    }
}

/// Why a config is refused, if there is a reason.
pub open spec fn config_refusal(
    provider_type: Seq<char>,
    config: Seq<(Seq<char>, ConfigText)>,
) -> Option<Seq<char>> {
    match required_fields(provider_type) {
        None => Some("unknown provider type: "@ + provider_type),
        Some(fields) => match first_missing(fields, config) {
            Some(key) => Some(
                "provider type '"@ + provider_type + "' requires '"@ + key + "'"@,
            ),
            None => None,
        },
    }
}

/// Whether an outcome says what a refusal says.
pub open spec fn refused_as(r: Result<(), String>, refusal: Option<Seq<char>>) -> bool {
    match r {
        Ok(_) => refusal is None,
        Err(e) => refusal == Some(e@),
    }
}

fn fields_of(provider_type: &str) -> (r: Option<Vec<&'static str>>)
    ensures
        match r {
            Some(v) => required_fields(provider_type@) is Some && v@.len() == required_fields(
                provider_type@,
            )->0.len() && forall|i: int|
                0 <= i < v@.len() ==> (#[trigger] v@[i])@ == required_fields(provider_type@)->0[i],
            None => required_fields(provider_type@) is None,
        },
{
    let mut v: Vec<&'static str> = Vec::new();
    if same_text(provider_type, "oidc") {
        v.push("issuer_url");
        v.push("client_id");
        v.push("client_secret");
        v.push("redirect_uri");
    } else if same_text(provider_type, "ldap") {
        v.push("url");
        v.push("bind_dn");
        v.push("search_base");
    } else if same_text(provider_type, "saml") {
        v.push("idp_metadata_url");
        v.push("entity_id");
        v.push("acs_url");
    } else if same_text(provider_type, "radius") {
        v.push("hostname");
        v.push("auth_port");
        v.push("secret");
    } else if !same_text(provider_type, "database") && !same_text(provider_type, "totp") {
        return None;
    }
    Some(v)
}

/// Validate the members of a config object against the fields that a provider
/// type requires.
pub fn validate_members(provider_type: &str, config: &Vec<(String, ConfigValue)>) -> (r: Result<
    (),
    String,
>)
    ensures
        refused_as(r, config_refusal(provider_type@, member_texts(config@))),
{
    let fields = match fields_of(provider_type) {
        Some(v) => v,
        None => return Err(join2("unknown provider type: ", provider_type)),
    };
    let ghost f = required_fields(provider_type@)->0;
    let mut i: usize = 0;
    proof {
        assert(f.skip(0) =~= f);
    }
    while i < fields.len()
        invariant
            i <= fields@.len(),
            required_fields(provider_type@) == Some(f),
            fields@.len() == f.len(),
            forall|k: int| 0 <= k < fields@.len() ==> (#[trigger] fields@[k])@ == f[k],
            first_missing(f, member_texts(config@)) == first_missing(
                f.skip(i as int),
                member_texts(config@),
            ),
        decreases fields@.len() - i,
    {
        proof {
            assert(f.skip(i as int)[0] == f[i as int]);
            assert(f.skip(i as int).skip(1) =~= f.skip(i + 1));
        }
        if !field_present(config, fields[i]) {
            let mut m = join3("provider type '", provider_type, "' requires '");
            m.append(fields[i]);
            m.append("'");
            return Err(m);
        }
        i = i + 1;
    }
    Ok(())
}

/// Validate a config JSON object against the required fields for a provider
/// type.
///
/// * `oidc` requires `issuer_url`, `client_id`, `client_secret`,
///   `redirect_uri`.
/// * `ldap` requires `url`, `bind_dn`, `search_base`.
/// * `saml` requires `idp_metadata_url`, `entity_id`, `acs_url`.
/// * `radius` requires `hostname`, `auth_port`, `secret`.
/// * `database` and `totp` have no required fields.
pub fn validate_config(provider_type: &str, config: &str) -> (r: Result<(), String>)
    ensures
        refused_as(r, config_refusal(provider_type@, config_members(config@))),
{
    let members = read_config(config);
    validate_members(provider_type, &members)
}

} // verus!
