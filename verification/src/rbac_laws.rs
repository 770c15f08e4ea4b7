//! What grants, groups, folders and roles mean to a user, over the stored rows.

use crate::rbac::{
    bundle_of, chain, connection_folder, entity_of, entries_on, entries_ordered, entry_of,
    folder_ancestors, folder_part, grant_added, granted, granted_to_user, grants_to, grants_without,
    group_names, group_taken, groups_without, has_custom, has_object, has_on_connection,
    has_on_group, inherits, last_slash, lists_roles, member, memberships_without, parent_of, passes,
    reaches, role_at, role_cleared, role_names, role_set, role_taken, same_but_grants,
    same_but_groups, same_but_memberships, same_but_roles, same_role, seed, unparented,
    user_by_email, AuthIdentity, ConnectionGroup, CustomRole, EntityType, Grant, Membership,
    ObjectPermission, ObjectType, PermissionEntry, Query, Rbac, RbacUser, SystemPermission,
};
use crate::text::{
    joined, lemma_split_at, lemma_split_one, ordered, signed_digits, split_on, text_less, texts,
};
use vstd::prelude::*;
use vstd::string::*;

verus! {

// ── Grants ──
/// A reference with a prefix names a user or a group by what follows, and one
/// without names a user.
pub proof fn law_entity_references(id: Seq<char>)
    ensures
        entity_of("u:"@ + id) == (EntityType::User, id),
        entity_of("g:"@ + id) == (EntityType::Group, id),
        id.len() < 2 || id[1] != ':' ==> entity_of(id) == (EntityType::User, id),
{
    reveal_strlit("u:");
    reveal_strlit("g:");
    let u = "u:"@ + id;
    let g = "g:"@ + id;
    assert(u.subrange(0, 2) =~= "u:"@);
    assert(u.skip(2) =~= id);
    assert(g.subrange(0, 2) =~= "g:"@);
    assert(g.skip(2) =~= id);
    assert(g[0] == 'g' && "u:"@[0] == 'u');
    if "u:"@.is_prefix_of(g) {
        assert(g.subrange(0, 2)[0] == "u:"@[0]);
    }
    if id.len() >= 2 {
        if "u:"@.is_prefix_of(id) {
            assert(id.subrange(0, 2)[1] == "u:"@[1]);
        }
        if "g:"@.is_prefix_of(id) {
            assert(id.subrange(0, 2)[1] == "g:"@[1]);
        }
    }
}

/// After a grant there is a row that says so, every row that was there still
/// is, in its place, and at most one is new.
pub proof fn law_grant_is_stored(
    before: Seq<Grant>,
    after: Seq<Grant>,
    entity: (EntityType, Seq<char>),
    object_type: ObjectType,
    object_id: Seq<char>,
    permission: Seq<char>,
)
    requires
        grant_added(before, after, entity, object_type, object_id, permission),
    ensures
        exists|i: int|
            0 <= i < after.len() && (#[trigger] after[i]).entity_type == entity.0
                && after[i].entity_id@ == entity.1 && after[i].object_type == object_type
                && after[i].object_id@ == object_id && after[i].permission@ == permission,
        before.len() <= after.len() <= before.len() + 1,
        forall|i: int| 0 <= i < before.len() ==> #[trigger] after[i] == before[i],
{
    if granted(before, entity, object_type, object_id, permission) {
        let i = choose|i: int|
            0 <= i < before.len() && grants_to(
                #[trigger] before[i],
                entity,
                object_type,
                object_id,
                permission,
            );
        assert(after[i].entity_type == entity.0);
    } else {
        assert(after[after.len() - 1].entity_type == entity.0);
        assert forall|i: int| 0 <= i < before.len() implies #[trigger] after[i] == before[i] by {
            assert(after.drop_last()[i] == after[i]);
        }
    }
}

/// Revoking takes out the rows that say so, and keeps all others in order.
pub proof fn law_revoking_is_exact(
    grants: Seq<Grant>,
    entity: (EntityType, Seq<char>),
    object_type: ObjectType,
    object_id: Seq<char>,
    permission: Seq<char>,
)
    ensures
        grants_without(grants, entity, object_type, object_id, permission) == grants.filter(
            |g: Grant|
                g.entity_type != entity.0 || g.entity_id@ != entity.1 || g.object_type
                    != object_type || g.object_id@ != object_id || g.permission@ != permission,
        ),
    decreases grants.len(),
{
    reveal(Seq::filter);
    if grants.len() > 0 {
        law_revoking_is_exact(grants.drop_last(), entity, object_type, object_id, permission);
    }
}

/// Changing the rows of one kind changes those of no other.
pub proof fn law_other_rows_stay(a: Rbac, b: Rbac)
    ensures
        same_but_grants(a, b) ==> a.groups == b.groups && a.memberships == b.memberships
            && a.folders == b.folders && a.roles == b.roles && a.users == b.users,
        same_but_groups(a, b) ==> a.grants == b.grants && a.memberships == b.memberships
            && a.folders == b.folders && a.roles == b.roles && a.users == b.users,
        same_but_memberships(a, b) ==> a.grants == b.grants && a.groups == b.groups && a.folders
            == b.folders && a.roles == b.roles && a.users == b.users,
        same_but_roles(a, b) ==> a.grants == b.grants && a.groups == b.groups && a.memberships
            == b.memberships && a.folders == b.folders,
{
}

// ── Folders ──
proof fn lemma_joined_push(v: Seq<Seq<char>>, x: Seq<char>, sep: Seq<char>)
    requires
        v.len() > 0,
    ensures
        joined(v.push(x), sep) == joined(v, sep) + sep + x,
{
    assert(v.push(x).drop_last() =~= v);
}

proof fn lemma_joined_front(x: Seq<char>, v: Seq<Seq<char>>, sep: Seq<char>)
    requires
        v.len() > 0,
    ensures
        joined(seq![x] + v, sep) == x + sep + joined(v, sep),
    decreases v.len(),
{
    let all = seq![x] + v;
    assert(all.drop_last() =~= seq![x] + v.drop_last());
    assert(all.last() == v.last());
    if v.len() == 1 {
        assert(all.drop_last() =~= seq![x]);
        assert(joined(seq![x], sep) == x);
        assert(joined(v, sep) == v[0]);
    } else {
        lemma_joined_front(x, v.drop_last(), sep);
        assert(x + sep + joined(v.drop_last(), sep) + sep + v.last() =~= x + sep + (joined(
            v.drop_last(),
            sep,
        ) + sep + v.last()));
    }
}

/// A text is its pieces with the separator between them.
proof fn lemma_joined_pieces(s: Seq<char>, c: char)
    ensures
        joined(split_on(s, c), seq![c]) == s,
        split_on(s, c).len() > 0,
    decreases s.len(),
{
    let v = split_on(s, c);
    if s.len() == 0 {
        assert(v =~= seq![Seq::<char>::empty()]);
        assert(s =~= Seq::empty());
    } else {
        let t = s.drop_last();
        let w = split_on(t, c);
        lemma_joined_pieces(t, c);
        assert(s =~= t.push(s.last()));
        if s.last() == c {
            lemma_joined_push(w, Seq::empty(), seq![c]);
            assert(joined(w, seq![c]) + seq![c] + Seq::<char>::empty() =~= s);
        } else {
            let last = w.last().push(s.last());
            if w.len() == 1 {
                assert(w.drop_last().push(last) =~= seq![last]);
                assert(joined(w, seq![c]) == w[0]);
                assert(joined(seq![last], seq![c]) == last);
                assert(last =~= s);
            } else {
                lemma_joined_push(w.drop_last(), last, seq![c]);
                assert(joined(w, seq![c]) == joined(w.drop_last(), seq![c]) + seq![c] + w.last());
                assert(joined(w.drop_last(), seq![c]) + seq![c] + last =~= s);
            }
        }
    }
}

/// A connection in a folder of the address book is in that folder: its id is
/// the folder's scope, its path and the entry's name.
pub proof fn law_connection_is_in_its_folder(
    db: Rbac,
    scope: Seq<char>,
    path: Seq<char>,
    name: Seq<char>,
)
    requires
        scope.len() > 0,
        path.len() > 0,
        name.len() > 0,
        forall|i: int| 0 <= i < scope.len() ==> scope[i] != '/',
        forall|i: int| 0 <= i < name.len() ==> name[i] != '/',
    ensures
        ({
            let id = scope + "/"@ + path + "/"@ + name;
            let known = exists|i: int|
                0 <= i < db.folders@.len() && (#[trigger] db.folders@[i]).scope@ == scope
                    && db.folders@[i].path@ == path;
            &&& known ==> connection_folder(db, id) == Some(path)
            &&& !known ==> connection_folder(db, id) is None
        }),
{
    reveal_strlit("/");
    assert("/"@ =~= seq!['/']);
    let id = scope + "/"@ + path + "/"@ + name;
    let rest = path.push('/') + name;
    assert(id =~= scope.push('/') + rest);
    lemma_split_at(scope, '/', rest);
    lemma_split_at(path, '/', name);
    lemma_split_one(scope, '/');
    lemma_split_one(name, '/');
    lemma_joined_pieces(path, '/');
    let mid = split_on(path, '/');
    let parts = split_on(id, '/');
    assert(parts =~= seq![scope] + mid + seq![name]);
    assert(parts.subrange(1, parts.len() - 1) =~= mid);
    assert(parts[0] == scope && parts.last() == name);
    assert(folder_part(id) == Some((scope, path)));
}

/// Where a connection is said to be in a folder, the address book has that
/// folder, and the id begins with its scope and path.
pub proof fn law_folder_of_a_connection_is_real(db: Rbac, id: Seq<char>)
    requires
        connection_folder(db, id) is Some,
    ensures
        exists|i: int, name: Seq<char>|
            #![trigger db.folders@[i], id.subrange(0, name.len() as int)]
            0 <= i < db.folders@.len() && db.folders@[i].path@ == connection_folder(db, id)->0
                && name.len() > 0 && id == db.folders@[i].scope@ + "/"@ + db.folders@[i].path@
                + "/"@ + name,
{
    reveal_strlit("/");
    assert("/"@ =~= seq!['/']);
    let parts = split_on(id, '/');
    let (scope, path) = folder_part(id)->0;
    lemma_joined_pieces(id, '/');
    let mid = parts.subrange(1, parts.len() - 1);
    let name = parts.last();
    assert(parts =~= seq![scope] + mid.push(name));
    lemma_joined_front(scope, mid.push(name), "/"@);
    lemma_joined_push(mid, name, "/"@);
    assert(id =~= scope + "/"@ + path + "/"@ + name);
    let i = choose|i: int|
        0 <= i < db.folders@.len() && (#[trigger] db.folders@[i]).scope@ == scope
            && db.folders@[i].path@ == path;
    assert(id.subrange(0, name.len() as int).len() == name.len());
    assert(db.folders@[i].path@ == path);
}

/// The folders above a folder are what stands before its slashes.
pub proof fn law_ancestors_end_at_slashes(s: Seq<char>, q: Seq<char>)
    ensures
        folder_ancestors(s).contains(q) <==> exists|i: int|
            0 < i < s.len() && #[trigger] s[i] == '/' && q == s.take(i),
    decreases s.len(),
{
    lemma_last_slash_at(s);
    match last_slash(s) {
        None => {
            if exists|i: int| 0 < i < s.len() && #[trigger] s[i] == '/' && q == s.take(i) {
                let i = choose|i: int| 0 < i < s.len() && #[trigger] s[i] == '/' && q == s.take(i);
                assert(s[i] == '/');
            }
        },
        Some(k) => {
            if k > 0 {
                let t = s.take(k);
                law_ancestors_end_at_slashes(t, q);
                let up = seq![t] + folder_ancestors(t);
                if up.contains(q) {
                    let n = choose|n: int| 0 <= n < up.len() && up[n] == q;
                    if n == 0 {
                        assert(s[k] == '/' && q == s.take(k));
                    } else {
                        assert(folder_ancestors(t)[n - 1] == q);
                        let i = choose|i: int|
                            0 < i < t.len() && #[trigger] t[i] == '/' && q == t.take(i);
                        assert(s[i] == '/');
                        assert(s.take(i) =~= t.take(i));
                    }
                }
                if exists|i: int| 0 < i < s.len() && #[trigger] s[i] == '/' && q == s.take(i) {
                    let i = choose|i: int|
                        0 < i < s.len() && #[trigger] s[i] == '/' && q == s.take(i);
                    if i == k {
                        assert(up[0] == q);
                    } else {
                        assert(i < k);
                        assert(t[i] == '/');
                        assert(s.take(i) =~= t.take(i));
                        assert(folder_ancestors(t).contains(q));
                        let n = choose|n: int|
                            0 <= n < folder_ancestors(t).len() && folder_ancestors(t)[n] == q;
                        assert(up[n + 1] == q);
                    }
                }
            }
        },
    }
}

proof fn lemma_last_slash_at(s: Seq<char>)
    ensures
        match last_slash(s) {
            Some(i) => 0 <= i < s.len() && s[i] == '/' && forall|j: int|
                i < j < s.len() ==> s[j] != '/',
            None => forall|j: int| 0 <= j < s.len() ==> s[j] != '/',
        },
    decreases s.len(),
{
    if s.len() > 0 && s.last() != '/' {
        let f = s.drop_last();
        lemma_last_slash_at(f);
        assert forall|j: int| 0 <= j < f.len() implies s[j] == f[j] by {}
    }
}

// ── What a user may do ──
/// A user's own grant on a connection is enough.
pub proof fn law_own_grant_opens(
    db: Rbac,
    user_id: i64,
    connection_id: Seq<char>,
    permission: Seq<char>,
    i: int,
)
    requires
        0 <= i < db.grants@.len(),
        db.grants@[i].entity_type == EntityType::User,
        db.grants@[i].entity_id@ == signed_digits(user_id as int),
        db.grants@[i].object_type == ObjectType::Connection,
        db.grants@[i].object_id@ == connection_id,
        db.grants@[i].permission@ == permission,
    ensures
        has_on_connection(db, user_id, connection_id, permission),
{
    let g = db.grants@[i];
    assert(grants_to(
        g,
        (EntityType::User, signed_digits(user_id as int)),
        ObjectType::Connection,
        connection_id,
        permission,
    ));
    assert(granted_to_user(db, user_id, ObjectType::Connection, connection_id, permission));
}

/// A user's own grant on a folder reaches every connection in the folder and in
/// the folders below it, and the folder itself.
pub proof fn law_own_folder_grant_cascades(
    db: Rbac,
    user_id: i64,
    connection_id: Seq<char>,
    permission: Seq<char>,
    i: int,
)
    requires
        0 <= i < db.grants@.len(),
        db.grants@[i].entity_type == EntityType::User,
        db.grants@[i].entity_id@ == signed_digits(user_id as int),
        db.grants@[i].object_type == ObjectType::ConnectionGroup,
        db.grants@[i].permission@ == permission,
        connection_folder(db, connection_id) is Some,
        ({
            let folder = connection_folder(db, connection_id)->0;
            let on = db.grants@[i].object_id@;
            on == folder || exists|k: int|
                0 < k < folder.len() && #[trigger] folder[k] == '/' && on == folder.take(k)
        }),
    ensures
        has_on_connection(db, user_id, connection_id, permission),
        has_on_group(db, user_id, db.grants@[i].object_id@, permission),
{
    let g = db.grants@[i];
    let folder = connection_folder(db, connection_id)->0;
    let on = g.object_id@;
    assert(grants_to(
        g,
        (EntityType::User, signed_digits(user_id as int)),
        ObjectType::ConnectionGroup,
        on,
        permission,
    ));
    assert(granted_to_user(db, user_id, ObjectType::ConnectionGroup, on, permission));
    if on != folder {
        law_ancestors_end_at_slashes(folder, on);
        let up = folder_ancestors(folder);
        let k = choose|k: int| 0 <= k < up.len() && up[k] == on;
        assert(has_on_group(db, user_id, up[k], permission));
    }
}

/// The same, from the rows: a folder of the address book, a grant on it to a
/// user, and a connection in it.
pub proof fn law_granted_folder_opens_its_connections(
    db: Rbac,
    user_id: i64,
    permission: Seq<char>,
    name: Seq<char>,
    i: int,
    j: int,
)
    requires
        0 <= i < db.grants@.len(),
        0 <= j < db.folders@.len(),
        db.grants@[i].entity_type == EntityType::User,
        db.grants@[i].entity_id@ == signed_digits(user_id as int),
        db.grants@[i].object_type == ObjectType::ConnectionGroup,
        db.grants@[i].object_id@ == db.folders@[j].path@,
        db.grants@[i].permission@ == permission,
        db.folders@[j].scope@.len() > 0,
        db.folders@[j].path@.len() > 0,
        name.len() > 0,
        forall|k: int| 0 <= k < db.folders@[j].scope@.len() ==> db.folders@[j].scope@[k] != '/',
        forall|k: int| 0 <= k < name.len() ==> name[k] != '/',
    ensures
        has_on_connection(
            db,
            user_id,
            db.folders@[j].scope@ + "/"@ + db.folders@[j].path@ + "/"@ + name,
            permission,
        ),
{
    law_connection_is_in_its_folder(db, db.folders@[j].scope@, db.folders@[j].path@, name);
    law_own_folder_grant_cascades(
        db,
        user_id,
        db.folders@[j].scope@ + "/"@ + db.folders@[j].path@ + "/"@ + name,
        permission,
        i,
    );
}

proof fn lemma_seed_reaches(db: Rbac, q: Query, a: Seq<char>)
    requires
        seed(db, q, a),
    ensures
        reaches(db, q, a),
{
    let p = seq![a];
    assert(chain(db, q, p) && p.last() == a);
}

proof fn lemma_step_reaches(db: Rbac, q: Query, a: Seq<char>, b: Seq<char>)
    requires
        reaches(db, q, a),
        passes(db, q, a, b),
    ensures
        reaches(db, q, b),
{
    let p = choose|p: Seq<Seq<char>>| #[trigger] chain(db, q, p) && p.last() == a;
    let r = p.push(b);
    assert forall|k: int| 0 <= k < r.len() - 1 implies passes(db, q, #[trigger] r[k], r[k + 1]) by {
        if k < p.len() - 1 {
            assert(passes(db, q, p[k], p[k + 1]));
        }
    }
    assert(chain(db, q, r) && r.last() == b);
}

/// A grant to a group is held by its members: on the connection, on its folder
/// or on a folder above.
pub proof fn law_members_hold_group_grants(
    db: Rbac,
    user_id: i64,
    connection_id: Seq<char>,
    permission: Seq<char>,
    i: int,
    m: int,
)
    requires
        0 <= i < db.grants@.len(),
        0 <= m < db.memberships@.len(),
        db.grants@[i].entity_type == EntityType::Group,
        db.grants@[i].permission@ == permission,
        db.memberships@[m].user_id == user_id,
        db.memberships@[m].group_id@ == db.grants@[i].entity_id@,
    ensures
        db.grants@[i].object_type == ObjectType::Connection && db.grants@[i].object_id@
            == connection_id ==> has_on_connection(db, user_id, connection_id, permission),
        db.grants@[i].object_type == ObjectType::ConnectionGroup ==> has_on_group(
            db,
            user_id,
            db.grants@[i].object_id@,
            permission,
        ),
        db.grants@[i].object_type == ObjectType::ConnectionGroup && connection_folder(
            db,
            connection_id,
        ) is Some && ({
            let folder = connection_folder(db, connection_id)->0;
            let on = db.grants@[i].object_id@;
            on == folder || exists|k: int|
                0 < k < folder.len() && #[trigger] folder[k] == '/' && on == folder.take(k)
        }) ==> has_on_connection(db, user_id, connection_id, permission),
{
    let g = db.grants@[i];
    let group = g.entity_id@;
    assert(grants_to(g, (EntityType::Group, group), g.object_type, g.object_id@, permission));
    assert(granted(
        db.grants@,
        (EntityType::Group, group),
        g.object_type,
        g.object_id@,
        permission,
    ));
    assert(member(db, user_id, group)) by {
        assert(db.memberships@[m].user_id == user_id);
    }
    let folder = connection_folder(db, connection_id);
    let whole = Query {
        connection: Some(connection_id),
        folder: if folder is Some {
            folder->0
        } else {
            Seq::empty()
        },
        permission,
    };
    if g.object_type == ObjectType::Connection {
        if g.object_id@ == connection_id {
            lemma_seed_reaches(db, whole, group);
            assert(inherits(db, user_id, whole));
        }
    } else {
        let q = Query { connection: None, folder: g.object_id@, permission };
        lemma_seed_reaches(db, q, group);
        assert(inherits(db, user_id, q));
        if folder is Some {
            if g.object_id@ == folder->0 {
                lemma_seed_reaches(db, whole, group);
                assert(inherits(db, user_id, whole));
            } else {
                law_ancestors_end_at_slashes(folder->0, g.object_id@);
                let up = folder_ancestors(folder->0);
                if up.contains(g.object_id@) {
                    let k = choose|k: int| 0 <= k < up.len() && up[k] == g.object_id@;
                    assert(has_on_group(db, user_id, up[k], permission));
                }
            }
        }
    }
}

/// What a group holds passes to its parent; for a connection it also passes to
/// the groups that were granted the permission on it.
pub proof fn law_permissions_pass_between_groups(
    db: Rbac,
    q: Query,
    a: Seq<char>,
    b: Seq<char>,
    i: int,
)
    requires
        reaches(db, q, a),
    ensures
        0 <= i < db.groups@.len() && db.groups@[i].id@ == a && db.groups@[i].parent_id is Some
            && db.groups@[i].parent_id->0@ == b ==> reaches(db, q, b),
        q.connection is Some && 0 <= i < db.grants@.len() && db.grants@[i].entity_type
            == EntityType::Group && db.grants@[i].entity_id@ == b && db.grants@[i].object_type
            == ObjectType::ConnectionGroup && db.grants@[i].object_id@ == a
            && db.grants@[i].permission@ == q.permission ==> reaches(db, q, b),
{
    if 0 <= i < db.groups@.len() && db.groups@[i].id@ == a && db.groups@[i].parent_id is Some
        && db.groups@[i].parent_id->0@ == b {
        assert(parent_of(db.groups@, a, b)) by {
            assert(db.groups@[i].id@ == a);
        }
        lemma_step_reaches(db, q, a, b);
    }
    if q.connection is Some && 0 <= i < db.grants@.len() && db.grants@[i].entity_type
        == EntityType::Group && db.grants@[i].entity_id@ == b && db.grants@[i].object_type
        == ObjectType::ConnectionGroup && db.grants@[i].object_id@ == a
        && db.grants@[i].permission@ == q.permission {
        assert(grants_to(
            db.grants@[i],
            (EntityType::Group, b),
            ObjectType::ConnectionGroup,
            a,
            q.permission,
        ));
        lemma_step_reaches(db, q, a, b);
    }
}

/// Whoever has a permission through a group is in a group to which it was
/// granted or passed on: any set of groups that holds all grantees, and with a
/// group its parent and those that were granted the permission on it, holds a
/// group of the user.
pub proof fn law_inheritance_has_a_source(
    db: Rbac,
    user_id: i64,
    q: Query,
    holds: spec_fn(Seq<char>) -> bool,
)
    requires
        inherits(db, user_id, q),
        forall|i: int|
            0 <= i < db.grants@.len() && (#[trigger] db.grants@[i]).entity_type == EntityType::Group
                && db.grants@[i].permission@ == q.permission && ((db.grants@[i].object_type
                == ObjectType::ConnectionGroup && db.grants@[i].object_id@ == q.folder) || (
            q.connection is Some && db.grants@[i].object_type == ObjectType::Connection
                && db.grants@[i].object_id@ == q.connection->0)) ==> holds(
                db.grants@[i].entity_id@,
            ),
        forall|i: int|
            0 <= i < db.groups@.len() && (#[trigger] db.groups@[i]).parent_id is Some && holds(
                db.groups@[i].id@,
            ) ==> holds(db.groups@[i].parent_id->0@),
        forall|i: int|
            q.connection is Some && 0 <= i < db.grants@.len() && (
            #[trigger] db.grants@[i]).entity_type == EntityType::Group && db.grants@[i].permission@
                == q.permission && db.grants@[i].object_type == ObjectType::ConnectionGroup
                && holds(db.grants@[i].object_id@) ==> holds(db.grants@[i].entity_id@),
    ensures
        exists|m: int|
            0 <= m < db.memberships@.len() && (#[trigger] db.memberships@[m]).user_id == user_id
                && holds(db.memberships@[m].group_id@),
{
    let g = choose|g: Seq<char>| #[trigger] reaches(db, q, g) && member(db, user_id, g);
    let p = choose|p: Seq<Seq<char>>| #[trigger] chain(db, q, p) && p.last() == g;
    lemma_chain_held(db, q, p, holds, p.len() - 1);
    let m = choose|m: int|
        0 <= m < db.memberships@.len() && (#[trigger] db.memberships@[m]).user_id == user_id
            && db.memberships@[m].group_id@ == g;
    assert(holds(db.memberships@[m].group_id@));
}

proof fn lemma_chain_held(
    db: Rbac,
    q: Query,
    p: Seq<Seq<char>>,
    holds: spec_fn(Seq<char>) -> bool,
    n: int,
)
    requires
        chain(db, q, p),
        0 <= n < p.len(),
        forall|i: int|
            0 <= i < db.grants@.len() && (#[trigger] db.grants@[i]).entity_type == EntityType::Group
                && db.grants@[i].permission@ == q.permission && ((db.grants@[i].object_type
                == ObjectType::ConnectionGroup && db.grants@[i].object_id@ == q.folder) || (
            q.connection is Some && db.grants@[i].object_type == ObjectType::Connection
                && db.grants@[i].object_id@ == q.connection->0)) ==> holds(
                db.grants@[i].entity_id@,
            ),
        forall|i: int|
            0 <= i < db.groups@.len() && (#[trigger] db.groups@[i]).parent_id is Some && holds(
                db.groups@[i].id@,
            ) ==> holds(db.groups@[i].parent_id->0@),
        forall|i: int|
            q.connection is Some && 0 <= i < db.grants@.len() && (
            #[trigger] db.grants@[i]).entity_type == EntityType::Group && db.grants@[i].permission@
                == q.permission && db.grants@[i].object_type == ObjectType::ConnectionGroup
                && holds(db.grants@[i].object_id@) ==> holds(db.grants@[i].entity_id@),
    ensures
        holds(p[n]),
    decreases n,
{
    if n == 0 {
        if q.connection is Some && granted(
            db.grants@,
            (EntityType::Group, p[0]),
            ObjectType::Connection,
            q.connection->0,
            q.permission,
        ) {
            let i = choose|i: int|
                0 <= i < db.grants@.len() && grants_to(
                    #[trigger] db.grants@[i],
                    (EntityType::Group, p[0]),
                    ObjectType::Connection,
                    q.connection->0,
                    q.permission,
                );
            assert(holds(db.grants@[i].entity_id@));
        } else {
            let i = choose|i: int|
                0 <= i < db.grants@.len() && grants_to(
                    #[trigger] db.grants@[i],
                    (EntityType::Group, p[0]),
                    ObjectType::ConnectionGroup,
                    q.folder,
                    q.permission,
                );
            assert(holds(db.grants@[i].entity_id@));
        }
    } else {
        lemma_chain_held(db, q, p, holds, n - 1);
        let a = p[n - 1];
        let b = p[n];
        assert(passes(db, q, p[n - 1], p[(n - 1) + 1]));
        if parent_of(db.groups@, a, b) {
            let i = choose|i: int|
                0 <= i < db.groups@.len() && (#[trigger] db.groups@[i]).id@ == a
                    && crate::text::opt_text(db.groups@[i].parent_id) == Some(b);
            assert(holds(db.groups@[i].parent_id->0@));
        } else {
            let i = choose|i: int|
                0 <= i < db.grants@.len() && grants_to(
                    #[trigger] db.grants@[i],
                    (EntityType::Group, b),
                    ObjectType::ConnectionGroup,
                    a,
                    q.permission,
                );
            assert(holds(db.grants@[i].entity_id@));
        }
    }
}

/// Whoever may use a connection was granted that: themselves or a group, and on
/// the connection, its folder or a folder above. Who is in no group has only
/// grants of their own.
pub proof fn law_every_permission_was_granted(
    db: Rbac,
    user_id: i64,
    connection_id: Seq<char>,
    permission: Seq<char>,
)
    requires
        has_on_connection(db, user_id, connection_id, permission),
    ensures
        exists|i: int|
            0 <= i < db.grants@.len() && (#[trigger] db.grants@[i]).permission@ == permission && ((
            db.grants@[i].entity_type == EntityType::User && db.grants@[i].entity_id@
                == signed_digits(user_id as int)) || (db.grants@[i].entity_type == EntityType::Group
                && exists|m: int|
                0 <= m < db.memberships@.len() && (#[trigger] db.memberships@[m]).user_id
                    == user_id)) && match connection_folder(db, connection_id) {
                None => (db.grants@[i].object_type == ObjectType::Connection
                    && db.grants@[i].object_id@ == connection_id) || (db.grants@[i].object_type
                    == ObjectType::ConnectionGroup && db.grants@[i].object_id@.len() == 0),
                Some(folder) => (db.grants@[i].object_type == ObjectType::Connection
                    && db.grants@[i].object_id@ == connection_id) || (db.grants@[i].object_type
                    == ObjectType::ConnectionGroup && (db.grants@[i].object_id@ == folder
                    || exists|k: int|
                    0 < k < folder.len() && #[trigger] folder[k] == '/' && db.grants@[i].object_id@
                        == folder.take(k))),
            },
{
    let folder = connection_folder(db, connection_id);
    let whole = Query {
        connection: Some(connection_id),
        folder: if folder is Some {
            folder->0
        } else {
            Seq::empty()
        },
        permission,
    };
    if granted_to_user(db, user_id, ObjectType::Connection, connection_id, permission) {
        lemma_granted_row(
            db,
            (EntityType::User, signed_digits(user_id as int)),
            ObjectType::Connection,
            connection_id,
            permission,
        );
    } else if folder is Some && granted_to_user(
        db,
        user_id,
        ObjectType::ConnectionGroup,
        folder->0,
        permission,
    ) {
        lemma_granted_row(
            db,
            (EntityType::User, signed_digits(user_id as int)),
            ObjectType::ConnectionGroup,
            folder->0,
            permission,
        );
    } else if inherits(db, user_id, whole) {
        lemma_seed_row(db, user_id, whole);
    } else {
        let up = folder_ancestors(folder->0);
        let k = choose|k: int|
            0 <= k < up.len() && #[trigger] has_on_group(db, user_id, up[k], permission);
        law_ancestors_end_at_slashes(folder->0, up[k]);
        if granted_to_user(db, user_id, ObjectType::ConnectionGroup, up[k], permission) {
            lemma_granted_row(
                db,
                (EntityType::User, signed_digits(user_id as int)),
                ObjectType::ConnectionGroup,
                up[k],
                permission,
            );
        } else {
            let q = Query { connection: None, folder: up[k], permission };
            lemma_seed_row(db, user_id, q);
        }
    }
}

proof fn lemma_granted_row(
    db: Rbac,
    entity: (EntityType, Seq<char>),
    object_type: ObjectType,
    object_id: Seq<char>,
    permission: Seq<char>,
)
    requires
        granted(db.grants@, entity, object_type, object_id, permission),
    ensures
        exists|i: int|
            0 <= i < db.grants@.len() && (#[trigger] db.grants@[i]).permission@ == permission
                && db.grants@[i].entity_type == entity.0 && db.grants@[i].entity_id@ == entity.1
                && db.grants@[i].object_type == object_type && db.grants@[i].object_id@
                == object_id,
{
    let i = choose|i: int|
        0 <= i < db.grants@.len() && grants_to(
            #[trigger] db.grants@[i],
            entity,
            object_type,
            object_id,
            permission,
        );
    assert(db.grants@[i].permission@ == permission);
}

proof fn lemma_seed_row(db: Rbac, user_id: i64, q: Query)
    requires
        inherits(db, user_id, q),
    ensures
        exists|m: int|
            0 <= m < db.memberships@.len() && (#[trigger] db.memberships@[m]).user_id == user_id,
        exists|i: int|
            0 <= i < db.grants@.len() && (#[trigger] db.grants@[i]).permission@ == q.permission
                && db.grants@[i].entity_type == EntityType::Group && ((db.grants@[i].object_type
                == ObjectType::ConnectionGroup && db.grants@[i].object_id@ == q.folder) || (
            q.connection is Some && db.grants@[i].object_type == ObjectType::Connection
                && db.grants@[i].object_id@ == q.connection->0)),
{
    let g = choose|g: Seq<char>| #[trigger] reaches(db, q, g) && member(db, user_id, g);
    let p = choose|p: Seq<Seq<char>>| #[trigger] chain(db, q, p) && p.last() == g;
    let m = choose|m: int|
        0 <= m < db.memberships@.len() && (#[trigger] db.memberships@[m]).user_id == user_id
            && db.memberships@[m].group_id@ == g;
    assert(db.memberships@[m].user_id == user_id);
    if q.connection is Some && granted(
        db.grants@,
        (EntityType::Group, p[0]),
        ObjectType::Connection,
        q.connection->0,
        q.permission,
    ) {
        lemma_granted_row(
            db,
            (EntityType::Group, p[0]),
            ObjectType::Connection,
            q.connection->0,
            q.permission,
        );
    } else {
        lemma_granted_row(
            db,
            (EntityType::Group, p[0]),
            ObjectType::ConnectionGroup,
            q.folder,
            q.permission,
        );
    }
}

// ── Groups and members ──
/// Taking a user out of a group takes out those rows, and keeps all others in
/// order.
pub proof fn law_leaving_is_exact(v: Seq<Membership>, user_id: i64, group_id: Seq<char>)
    ensures
        memberships_without(v, user_id, group_id) == v.filter(
            |m: Membership| m.user_id != user_id || m.group_id@ != group_id,
        ),
    decreases v.len(),
{
    reveal(Seq::filter);
    if v.len() > 0 {
        law_leaving_is_exact(v.drop_last(), user_id, group_id);
    }
}

/// A deleted group is gone; every other stays, and is a top-level group if it
/// was a child of it.
pub proof fn law_deleting_a_group_is_exact(groups: Seq<ConnectionGroup>, id: Seq<char>)
    ensures
        groups_without(groups, id) == groups.filter(
            |g: ConnectionGroup| g.id@ != id,
        ).map_values(
            |g: ConnectionGroup|
                if g.parent_id is Some && g.parent_id->0@ == id {
                    ConnectionGroup { parent_id: None, ..g }
                } else {
                    g
                },
        ),
    decreases groups.len(),
{
    reveal(Seq::filter);
    let other = |g: ConnectionGroup| g.id@ != id;
    let lifted = |g: ConnectionGroup|
        if g.parent_id is Some && g.parent_id->0@ == id {
            ConnectionGroup { parent_id: None, ..g }
        } else {
            g
        };
    if groups.len() > 0 {
        let front = groups.drop_last();
        law_deleting_a_group_is_exact(front, id);
        let f = front.filter(other);
        if other(groups.last()) {
            assert(unparented(groups.last(), id) == lifted(groups.last()));
            assert(f.push(groups.last()).map_values(lifted) =~= f.map_values(lifted).push(
                lifted(groups.last()),
            ));
        }
    } else {
        assert(groups.filter(other).map_values(lifted) =~= groups);
    }
}

/// An id or a name is taken exactly where a row has it, and lists go by name.
pub proof fn law_groups_and_roles_by_name(
    groups: Seq<ConnectionGroup>,
    roles: Seq<CustomRole>,
    id: Seq<char>,
    name: Seq<char>,
    i: int,
    j: int,
)
    ensures
        0 <= i < groups.len() && (groups[i].id@ == id || groups[i].name@ == name) ==> group_taken(
            groups,
            id,
            name,
        ),
        group_taken(groups, id, name) ==> exists|k: int|
            0 <= k < groups.len() && ((#[trigger] groups[k]).id@ == id || groups[k].name@ == name),
        0 <= i < roles.len() && (roles[i].id@ == id || roles[i].name@ == name) ==> role_taken(
            roles,
            None,
            id,
            name,
        ),
        role_taken(roles, None, id, name) ==> exists|k: int|
            0 <= k < roles.len() && ((#[trigger] roles[k]).id@ == id || roles[k].name@ == name),
        ordered(group_names(groups)) && 0 <= i < j < groups.len() ==> !text_less(
            groups[j].name@,
            groups[i].name@,
        ),
        ordered(role_names(roles)) && 0 <= i < j < roles.len() ==> !text_less(
            roles[j].name@,
            roles[i].name@,
        ),
{
    if ordered(group_names(groups)) && 0 <= i < j < groups.len() {
        assert(!text_less(group_names(groups)[j], group_names(groups)[i]));
    }
    if ordered(role_names(roles)) && 0 <= i < j < roles.len() {
        assert(!text_less(role_names(roles)[j], role_names(roles)[i]));
    }
}

/// The permissions on a connection are listed by those who hold them: one entry
/// for each grant on the connection, with its holder.
pub proof fn law_listing_shows_every_grant(grants: Seq<Grant>, connection_id: Seq<char>)
    ensures
        entries_on(grants, connection_id) == grants.filter(
            |g: Grant|
                g.object_type == ObjectType::Connection && g.object_id@ == connection_id,
        ).map_values(|g: Grant| entry_of(g)),
    decreases grants.len(),
{
    reveal(Seq::filter);
    let on = |g: Grant| g.object_type == ObjectType::Connection && g.object_id@ == connection_id;
    let entry = |g: Grant| entry_of(g);
    if grants.len() > 0 {
        let front = grants.drop_last();
        law_listing_shows_every_grant(front, connection_id);
        let f = front.filter(on);
        if on(grants.last()) {
            assert(f.push(grants.last()).map_values(entry) =~= f.map_values(entry).push(
                entry(grants.last()),
            ));
        }
    } else {
        assert(grants.filter(on).map_values(entry) =~= Seq::empty());
    }
}

/// An entry shows the holder and the permission of its grant, groups come
/// before users, and among either ids rise.
pub proof fn law_entries_show_their_grants(
    g: Grant,
    p: ObjectPermission,
    v: Seq<PermissionEntry>,
    i: int,
    j: int,
)
    ensures
        entry_of(g).entity_id == g.entity_id && entry_of(g).entity_type == g.entity_type,
        g.permission@ == p.name() ==> entry_of(g).permission == p,
        entries_ordered(v) && 0 <= i < j < v.len() ==> !(v[i].entity_type == EntityType::User
            && v[j].entity_type == EntityType::Group) && (v[i].entity_type == v[j].entity_type
            ==> !text_less(v[j].entity_id@, v[i].entity_id@)),
{
    crate::rbac::law_object_permission_names(p);
    if entries_ordered(v) && 0 <= i < j < v.len() {
        assert(!crate::rbac::entry_less(v[j], v[i]));
    }
}

/// The names under which permissions are stored.
pub proof fn law_stored_permission_names()
    ensures
        ObjectPermission::Read.name() == "read"@,
        ObjectPermission::Connect.name() == "connect"@,
        ObjectPermission::Update.name() == "update"@,
        ObjectPermission::Delete.name() == "delete"@,
        ObjectPermission::Administer.name() == "administer"@,
        SystemPermission::Administer.name() == "administer"@,
        SystemPermission::CreateSession.name() == "create_session"@,
        SystemPermission::CreateConnection.name() == "create_connection"@,
        SystemPermission::CreateConnectionGroup.name() == "create_connection_group"@,
        SystemPermission::CreateUserGroup.name() == "create_user_group"@,
        SystemPermission::Audit.name() == "audit"@,
{
}

// ── Roles ──
/// A role is found by its id, at the first row that has it.
pub proof fn law_role_is_found_by_id(roles: Seq<CustomRole>, id: Seq<char>, k: int)
    requires
        0 <= k <= roles.len(),
        forall|i: int| 0 <= i < k ==> (#[trigger] roles[i]).id@ != id,
    ensures
        k < roles.len() && roles[k].id@ == id ==> role_at(roles, id) == Some(k),
        k == roles.len() ==> role_at(roles, id) is None,
    decreases k,
{
    if k > 0 {
        assert(roles[0].id@ != id);
        assert forall|i: int| 0 <= i < k - 1 implies (#[trigger] roles.skip(1)[i]).id@ != id by {
            assert(roles.skip(1)[i] == roles[i + 1]);
        }
        law_role_is_found_by_id(roles.skip(1), id, k - 1);
    }
}

/// A copy of a role has all that it has, and a list of roles lacks none.
pub proof fn law_roles_are_whole(
    r: CustomRole,
    role: CustomRole,
    list: Seq<CustomRole>,
    roles: Seq<CustomRole>,
    k: int,
)
    ensures
        same_role(r, role) ==> r.id == role.id && r.name == role.name && r.description
            == role.description && r.permissions@ == role.permissions@ && r.created_at
            == role.created_at,
        lists_roles(list, roles) ==> list.len() == roles.len(),
        lists_roles(list, roles) && 0 <= k < roles.len() ==> exists|i: int|
            0 <= i < list.len() && (#[trigger] list[i]).id == roles[k].id && list[i].name
                == roles[k].name && list[i].permissions@ == roles[k].permissions@,
        lists_roles(list, roles) && 0 <= k < list.len() ==> exists|i: int|
            0 <= i < roles.len() && list[k].id == (#[trigger] roles[i]).id && list[k].name
                == roles[i].name && list[k].description == roles[i].description
                && list[k].permissions@ == roles[i].permissions@,
{
    if lists_roles(list, roles) && 0 <= k < list.len() {
        assert(crate::rbac::copied(list[k], roles));
        let i = choose|i: int| 0 <= i < roles.len() && same_role(list[k], #[trigger] roles[i]);
        assert(list[k].id == roles[i].id);
    }
    if lists_roles(list, roles) && 0 <= k < roles.len() {
        assert(crate::rbac::has_copy(list, roles[k]));
        let i = choose|i: int| 0 <= i < list.len() && same_role(#[trigger] list[i], roles[k]);
        assert(list[i].id == roles[k].id);
    }
}

/// A bundle holds each of its permissions once, and no other.
pub proof fn law_bundle_is_its_permissions(
    bundle: Seq<String>,
    permissions: Seq<String>,
    k: int,
    n: int,
    m: int,
)
    requires
        bundle_of(bundle, permissions),
    ensures
        0 <= k < permissions.len() ==> exists|i: int|
            0 <= i < bundle.len() && (#[trigger] bundle[i])@ == permissions[k]@,
        0 <= n < bundle.len() ==> exists|i: int|
            0 <= i < permissions.len() && (#[trigger] permissions[i])@ == bundle[n]@,
        0 <= n < m < bundle.len() ==> bundle[n]@ != bundle[m]@,
{
    let b = texts(bundle);
    let t = texts(permissions);
    if 0 <= k < permissions.len() {
        assert(t[k] == permissions[k]@);
        assert(t.contains(t[k]));
        assert(b.contains(t[k]));
        let i = choose|i: int| 0 <= i < b.len() && b[i] == t[k];
        assert(bundle[i]@ == permissions[k]@);
    }
    if 0 <= n < bundle.len() {
        assert(b[n] == bundle[n]@);
        assert(b.contains(b[n]));
        assert(t.contains(b[n]));
        let i = choose|i: int| 0 <= i < t.len() && t[i] == b[n];
        assert(permissions[i]@ == bundle[n]@);
        if n < m < bundle.len() {
            assert(text_less(b[n], b[m]));
            crate::text::lemma_text_total(b[n], b[n]);
        }
    }
}

/// A user has what the bundle of their custom role holds, and by a role nothing
/// else.
pub proof fn law_custom_role_gives_its_bundle(db: Rbac, user_id: i64, permission: Seq<char>)
    ensures
        has_custom(db, user_id, permission) <==> exists|i: int, k: int, n: int|
            #![trigger db.users@[i], db.roles@[k].permissions@[n]]
            0 <= i < db.users@.len() && 0 <= k < db.roles@.len() && 0 <= n
                < db.roles@[k].permissions@.len() && db.users@[i].id == user_id
                && db.users@[i].custom_role_id is Some && db.users@[i].custom_role_id->0@
                == db.roles@[k].id@ && db.roles@[k].permissions@[n]@ == permission,
{
    if has_custom(db, user_id, permission) {
        let (i, k) = choose|i: int, k: int|
            0 <= i < db.users@.len() && 0 <= k < db.roles@.len() && (#[trigger] db.users@[i]).id
                == user_id && crate::text::opt_text(db.users@[i].custom_role_id) == Some(
                (#[trigger] db.roles@[k]).id@,
            ) && texts(db.roles@[k].permissions@).contains(permission);
        let t = texts(db.roles@[k].permissions@);
        let n = choose|n: int| 0 <= n < t.len() && t[n] == permission;
        assert(db.users@[i].id == user_id && db.roles@[k].permissions@[n]@ == permission);
    }
    if exists|i: int, k: int, n: int|
        #![trigger db.users@[i], db.roles@[k].permissions@[n]]
        0 <= i < db.users@.len() && 0 <= k < db.roles@.len() && 0 <= n
            < db.roles@[k].permissions@.len() && db.users@[i].id == user_id
            && db.users@[i].custom_role_id is Some && db.users@[i].custom_role_id->0@
            == db.roles@[k].id@ && db.roles@[k].permissions@[n]@ == permission {
        let (i, k, n) = choose|i: int, k: int, n: int|
            #![trigger db.users@[i], db.roles@[k].permissions@[n]]
            0 <= i < db.users@.len() && 0 <= k < db.roles@.len() && 0 <= n
                < db.roles@[k].permissions@.len() && db.users@[i].id == user_id
                && db.users@[i].custom_role_id is Some && db.users@[i].custom_role_id->0@
                == db.roles@[k].id@ && db.roles@[k].permissions@[n]@ == permission;
        assert(texts(db.roles@[k].permissions@)[n] == permission);
        assert(db.users@[i].id == user_id && db.roles@[k].id@
            == db.users@[i].custom_role_id->0@);
    }
}

/// What a user may do with an object is what their role and their grants give,
/// together; of an object of another type it is what the role gives.
pub proof fn law_object_permissions_add_up(
    db: Rbac,
    user_id: i64,
    object_type: Seq<char>,
    object_id: Seq<char>,
    p: ObjectPermission,
)
    ensures
        has_custom(db, user_id, p.name()) ==> has_object(db, user_id, object_type, object_id, p),
        has_on_connection(db, user_id, object_id, p.name()) ==> has_object(
            db,
            user_id,
            "connection"@,
            object_id,
            p,
        ),
        has_on_group(db, user_id, object_id, p.name()) ==> has_object(
            db,
            user_id,
            "connection_group"@,
            object_id,
            p,
        ),
        has_object(db, user_id, object_type, object_id, p) && !has_custom(db, user_id, p.name())
            ==> (object_type == "connection"@ && has_on_connection(
            db,
            user_id,
            object_id,
            p.name(),
        )) || (object_type == "connection_group"@ && has_on_group(
            db,
            user_id,
            object_id,
            p.name(),
        )),
{
}

/// Deleting a role takes it from exactly those who have it, and assigning one
/// changes exactly the user with the email; nobody's id or email changes.
pub proof fn law_roles_come_and_go(
    u: RbacUser,
    after: RbacUser,
    id: Seq<char>,
    email: Seq<char>,
    role: Option<Seq<char>>,
)
    ensures
        role_cleared(u, id).id == u.id && role_cleared(u, id).email == u.email,
        u.custom_role_id is Some && u.custom_role_id->0@ == id ==> role_cleared(
            u,
            id,
        ).custom_role_id is None,
        u.custom_role_id is None || u.custom_role_id->0@ != id ==> role_cleared(u, id) == u,
        role_set(u, after, email, role) ==> after.id == u.id && after.email == u.email,
        role_set(u, after, email, role) && u.email@ != email ==> after.custom_role_id
            == u.custom_role_id,
        role_set(u, after, email, role) && u.email@ == email && role is None
            ==> after.custom_role_id is None,
        role_set(u, after, email, role) && u.email@ == email && role is Some
            ==> after.custom_role_id is Some && after.custom_role_id->0@ == role->0,
{
}

/// An identity is the first user with its email; an API key is no user.
pub proof fn law_identity_is_its_user(
    db: Rbac,
    email: String,
    is_admin: bool,
    k: int,
)
    requires
        0 <= k <= db.users@.len(),
        forall|i: int| 0 <= i < k ==> (#[trigger] db.users@[i]).email@ != email@,
    ensures
        ({
            let who = AuthIdentity::User { is_admin, email };
            let key = AuthIdentity::ApiKey { is_admin };
            &&& k < db.users@.len() && db.users@[k].email@ == email@ ==> who.known_user(db) == Some(
                db.users@[k].id,
            )
            &&& k == db.users@.len() ==> who.known_user(db) is None
            &&& key.known_user(db) is None
            &&& who.admin() == is_admin && key.admin() == is_admin
        }),
{
    lemma_user_by_email(db.users@, email@, k);
}

proof fn lemma_user_by_email(users: Seq<RbacUser>, email: Seq<char>, k: int)
    requires
        0 <= k <= users.len(),
        forall|i: int| 0 <= i < k ==> (#[trigger] users[i]).email@ != email,
    ensures
        k < users.len() && users[k].email@ == email ==> user_by_email(users, email) == Some(
            users[k].id,
        ),
        k == users.len() ==> user_by_email(users, email) is None,
    decreases k,
{
    if k > 0 {
        assert(users[0].email@ != email);
        assert forall|i: int| 0 <= i < k - 1 implies (#[trigger] users.skip(1)[i]).email@
            != email by {
            assert(users.skip(1)[i] == users[i + 1]);
        }
        lemma_user_by_email(users.skip(1), email, k - 1);
    }
}

} // verus!
