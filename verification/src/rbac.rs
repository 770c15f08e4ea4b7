//! Connection-level RBAC permissions.
//!
//! Group-based access control for connections:
//! - Connection groups (hierarchical, scoped)
//! - User and group membership
//! - Per-connection permission grants (direct and inherited via groups)
//! - Custom roles: named bundles of global permissions

use crate::text::{
    borrow_opt, comes_before, copy_opt, copy_texts, join, joined, lemma_ordered_insert, list_has,
    opt_str, opt_text, ordered, own_opt, rising, same_opt, same_text, signed_decimal, signed_digits,
    sorted_set, split, split_on, starts_with, text_less, texts,
};
use vstd::prelude::*;
use vstd::string::*;

verus! {

// ── Permission enums ──
/// System-wide permissions (not tied to a specific object).
#[derive(Debug, Clone, Copy, PartialEq, Eq, Structural)]
pub enum SystemPermission {
    /// Full system administration; bypasses the other checks.
    Administer,
    /// Create ad-hoc sessions outside the address book.
    CreateSession,
    /// Create and edit connections.
    CreateConnection,
    /// Create connection groups.
    CreateConnectionGroup,
    /// Create user groups.
    CreateUserGroup,
    /// View audit logs and reports.
    Audit,
}

impl SystemPermission {
    /// Snake-case string form used in storage and the API.
    pub open spec fn name(self) -> Seq<char> {
        match self {
            SystemPermission::Administer => "administer"@,
            SystemPermission::CreateSession => "create_session"@,
            SystemPermission::CreateConnection => "create_connection"@,
            SystemPermission::CreateConnectionGroup => "create_connection_group"@,
            SystemPermission::CreateUserGroup => "create_user_group"@,
            SystemPermission::Audit => "audit"@,
        }
    }

    /// Snake-case string form used in storage and the API.
    pub fn as_str(&self) -> (r: &'static str)
        ensures
            r@ == self.name(),
    {
        match self {
            SystemPermission::Administer => "administer",
            SystemPermission::CreateSession => "create_session",
            SystemPermission::CreateConnection => "create_connection",
            SystemPermission::CreateConnectionGroup => "create_connection_group",
            SystemPermission::CreateUserGroup => "create_user_group",
            SystemPermission::Audit => "audit",
        }
    }

    /// Parse the snake-case string form; `None` for unknown names.
    pub fn parse(s: &str) -> (r: Option<Self>)
        ensures
            match r {
                Some(p) => s@ == p.name(),
                None => forall|p: SystemPermission| s@ != #[trigger] p.name(),
            },
    {
        if same_text(s, "administer") {
            Some(SystemPermission::Administer)
        } else if same_text(s, "create_session") {
            Some(SystemPermission::CreateSession)
        } else if same_text(s, "create_connection") {
            Some(SystemPermission::CreateConnection)
        } else if same_text(s, "create_connection_group") {
            Some(SystemPermission::CreateConnectionGroup)
        } else if same_text(s, "create_user_group") {
            Some(SystemPermission::CreateUserGroup)
        } else if same_text(s, "audit") {
            Some(SystemPermission::Audit)
        } else {
            None
        }
    }
}

/// Object-level permissions (applied to a specific connection or group).
#[derive(Debug, Clone, Copy, PartialEq, Eq, Structural)]
pub enum ObjectPermission {
    /// See the connection's metadata.
    Read,
    /// Open a session to the connection.
    Connect,
    /// Modify the connection.
    Update,
    /// Delete the connection.
    Delete,
    /// Grant and revoke permissions on the connection.
    Administer,
}

impl ObjectPermission {
    /// Snake-case string form used in storage and the API.
    pub open spec fn name(self) -> Seq<char> {
        match self {
            ObjectPermission::Read => "read"@,
            ObjectPermission::Connect => "connect"@,
            ObjectPermission::Update => "update"@,
            ObjectPermission::Delete => "delete"@,
            ObjectPermission::Administer => "administer"@,
        }
    }

    /// Snake-case string form used in storage and the API.
    pub fn as_str(&self) -> (r: &'static str)
        ensures
            r@ == self.name(),
    {
        match self {
            ObjectPermission::Read => "read",
            ObjectPermission::Connect => "connect",
            ObjectPermission::Update => "update",
            ObjectPermission::Delete => "delete",
            ObjectPermission::Administer => "administer",
        }
    }

    /// Parse the snake-case string form; `None` for unknown names.
    pub fn parse(s: &str) -> (r: Option<Self>)
        ensures
            r == object_permission(s@),
    {
        if same_text(s, "read") {
            Some(ObjectPermission::Read)
        } else if same_text(s, "connect") {
            Some(ObjectPermission::Connect)
        } else if same_text(s, "update") {
            Some(ObjectPermission::Update)
        } else if same_text(s, "delete") {
            Some(ObjectPermission::Delete)
        } else if same_text(s, "administer") {
            Some(ObjectPermission::Administer)
        } else {
            None
        }
    }
}

/// The object permission with a given name.
pub open spec fn object_permission(s: Seq<char>) -> Option<ObjectPermission> {
    if s == "read"@ {
        Some(ObjectPermission::Read)
    } else if s == "connect"@ {
        Some(ObjectPermission::Connect)
    } else if s == "update"@ {
        Some(ObjectPermission::Update)
    } else if s == "delete"@ {
        Some(ObjectPermission::Delete)
    } else if s == "administer"@ {
        Some(ObjectPermission::Administer)
    } else {
        None
    }
}

/// Every object permission is found again by its name.
pub proof fn law_object_permission_names(p: ObjectPermission)
    ensures
        object_permission(p.name()) == Some(p),
{
    reveal_strlit("read");
    reveal_strlit("connect");
    reveal_strlit("update");
    reveal_strlit("delete");
    reveal_strlit("administer");
    assert("read"@.len() == 4 && "connect"@.len() == 7 && "administer"@.len() == 10);
    assert("update"@.len() == 6 && "delete"@.len() == 6);
    assert("update"@[0] == 'u' && "delete"@[0] == 'd');
}

/// No two system permissions share a name.
pub proof fn law_system_permission_names(a: SystemPermission, b: SystemPermission)
    ensures
        a.name() == b.name() ==> a == b,
{
    reveal_strlit("administer");
    reveal_strlit("create_session");
    reveal_strlit("create_connection");
    reveal_strlit("create_connection_group");
    reveal_strlit("create_user_group");
    reveal_strlit("audit");
    assert("administer"@.len() == 10 && "create_session"@.len() == 14 && "audit"@.len() == 5);
    assert("create_connection"@.len() == 17 && "create_user_group"@.len() == 17);
    assert("create_connection_group"@.len() == 23);
    assert("create_connection"@[7] == 'c' && "create_user_group"@[7] == 'u');
}

/// Entity that can receive permissions.
#[derive(Debug, Clone, Copy, PartialEq, Eq, Structural)]
pub enum EntityType {
    /// A direct grant to one user.
    User,
    /// A grant inherited by all group members.
    Group,
}

impl EntityType {
    /// The name of each kind.
    pub open spec fn name(self) -> Seq<char> {
        match self {
            EntityType::User => "user"@,
            EntityType::Group => "group"@,
        }
    }

    /// The name by which grants are stored.
    pub fn as_str(&self) -> (r: &'static str)
        ensures
            r@ == self.name(),
    {
        match self {
            EntityType::User => "user",
            EntityType::Group => "group",
        }
    }
}

/// What a permission is granted on.
#[derive(Debug, Clone, Copy, PartialEq, Eq, Structural)]
pub enum ObjectType {
    /// One connection.
    Connection,
    /// A connection group or an address-book folder.
    ConnectionGroup,
}

// ── Stored rows ──
/// A connection group (hierarchical container for connections).
#[derive(Debug)]
pub struct ConnectionGroup {
    /// UUID of the group.
    pub id: String,
    /// Display name, unique among groups.
    pub name: String,
    /// Parent group ID; `None` for top-level groups.
    pub parent_id: Option<String>,
    /// Optional human-readable description.
    pub description: Option<String>,
    /// Group scope, e.g. shared or a per-user scope.
    pub scope: String,
}

/// A permission entry listing who has what on a connection.
#[derive(Debug)]
pub struct PermissionEntry {
    /// ID of the user or group holding the grant.
    pub entity_id: String,
    /// Whether the holder is a user or a group.
    pub entity_type: EntityType,
    /// The granted permission.
    pub permission: ObjectPermission,
}

/// One granted permission.
#[derive(Debug)]
pub struct Grant {
    pub entity_id: String,
    pub entity_type: EntityType,
    pub object_type: ObjectType,
    pub object_id: String,
    /// The permission by its name.
    pub permission: String,
}

/// A user in a group.
#[derive(Debug)]
pub struct Membership {
    pub user_id: i64,
    pub group_id: String,
}

/// A user, as far as roles go.
#[derive(Debug)]
pub struct RbacUser {
    pub id: i64,
    pub email: String,
    pub custom_role_id: Option<String>,
}

/// An address-book folder.
#[derive(Debug)]
pub struct AbFolder {
    pub scope: String,
    pub path: String,
}

/// A named permission bundle assignable to a user.
#[derive(Debug)]
pub struct CustomRole {
    /// UUID of the role.
    pub id: String,
    /// Display name, unique among roles.
    pub name: String,
    /// Optional description shown in the admin UI.
    pub description: Option<String>,
    /// Snake-case permission names in the bundle, in order.
    pub permissions: Vec<String>,
    /// Creation timestamp.
    pub created_at: String,
}

/// Who may do what.
pub struct Rbac {
    pub groups: Vec<ConnectionGroup>,
    pub memberships: Vec<Membership>,
    pub grants: Vec<Grant>,
    pub folders: Vec<AbFolder>,
    pub roles: Vec<CustomRole>,
    pub users: Vec<RbacUser>,
}

/// A row with that id or name is already there.
#[derive(Debug, Clone, Copy, PartialEq, Eq, Structural)]
pub struct Duplicate;

// ── Entity references ──
/// The kind and the bare id of an entity reference.
pub open spec fn entity_of(s: Seq<char>) -> (EntityType, Seq<char>) {
    if "u:"@.is_prefix_of(s) {
        (EntityType::User, s.skip(2))
    } else if "g:"@.is_prefix_of(s) {
        (EntityType::Group, s.skip(2))
    } else {
        (EntityType::User, s)
    }
}

/// Parse an entity reference like "u:123" or "g:abc-def" into its kind and
/// bare id. A reference without a prefix is a user.
pub fn parse_entity_ref(entity_id: &str) -> (r: (EntityType, &str))
    ensures
        (r.0, r.1@) == entity_of(entity_id@),
{
    proof {
        reveal_strlit("u:");
        reveal_strlit("g:");
    }
    let v = crate::text::chars(entity_id);
    let n: usize = v.len();
    if starts_with(entity_id, "u:") {
        proof {
            assert(entity_id@.subrange(2, n as int) =~= entity_id@.skip(2));
        }
        (EntityType::User, entity_id.substring_char(2, n))
    } else if starts_with(entity_id, "g:") {
        proof {
            assert(entity_id@.subrange(2, n as int) =~= entity_id@.skip(2));
        }
        (EntityType::Group, entity_id.substring_char(2, n))
    } else {
        (EntityType::User, entity_id)
    }
}

// ── Grants ──
/// Whether a grant says that an entity has a permission on an object.
pub open spec fn grants_to(
    g: Grant,
    entity: (EntityType, Seq<char>),
    object_type: ObjectType,
    object_id: Seq<char>,
    permission: Seq<char>,
) -> bool {
    &&& g.entity_type == entity.0
    &&& g.entity_id@ == entity.1
    &&& g.object_type == object_type
    &&& g.object_id@ == object_id
    &&& g.permission@ == permission
}

/// Whether an entity was granted a permission on an object.
pub open spec fn granted(
    grants: Seq<Grant>,
    entity: (EntityType, Seq<char>),
    object_type: ObjectType,
    object_id: Seq<char>,
    permission: Seq<char>,
) -> bool {
    exists|i: int|
        0 <= i < grants.len() && grants_to(
            #[trigger] grants[i],
            entity,
            object_type,
            object_id,
            permission,
        )
}

fn find_grant(
    grants: &Vec<Grant>,
    entity_type: EntityType,
    entity_id: &str,
    object_type: ObjectType,
    object_id: &str,
    permission: &str,
) -> (r: Option<usize>)
    ensures
        match r {
            Some(i) => i < grants@.len() && grants_to(
                grants@[i as int],
                (entity_type, entity_id@),
                object_type,
                object_id@,
                permission@,
            ) && forall|j: int|
                0 <= j < i ==> !grants_to(
                    #[trigger] grants@[j],
                    (entity_type, entity_id@),
                    object_type,
                    object_id@,
                    permission@,
                ),
            None => !granted(
                grants@,
                (entity_type, entity_id@),
                object_type,
                object_id@,
                permission@,
            ),
        },
{
    let mut i: usize = 0;
    while i < grants.len()
        invariant
            i <= grants@.len(),
            forall|j: int|
                0 <= j < i ==> !grants_to(
                    #[trigger] grants@[j],
                    (entity_type, entity_id@),
                    object_type,
                    object_id@,
                    permission@,
                ),
        decreases grants@.len() - i,
    {
        let g = &grants[i];
        if g.entity_type == entity_type && g.object_type == object_type && same_text(
            g.entity_id.as_str(),
            entity_id,
        ) && same_text(g.object_id.as_str(), object_id) && same_text(
            g.permission.as_str(),
            permission,
        ) {
            return Some(i);
        }
        i = i + 1;
    }
    None
}

/// Whether `after` is `before` with the grant in it.
pub open spec fn grant_added(
    before: Seq<Grant>,
    after: Seq<Grant>,
    entity: (EntityType, Seq<char>),
    object_type: ObjectType,
    object_id: Seq<char>,
    permission: Seq<char>,
) -> bool {
    if granted(before, entity, object_type, object_id, permission) {
        after == before
    } else {
        &&& after.len() == before.len() + 1
        &&& after.drop_last() == before
        &&& grants_to(after.last(), entity, object_type, object_id, permission)
    }
}

/// All rows but the grants are the same.
pub open spec fn same_but_grants(a: Rbac, b: Rbac) -> bool {
    a.groups == b.groups && a.memberships == b.memberships && a.folders == b.folders && a.roles
        == b.roles && a.users == b.users
}

fn grant(db: &mut Rbac, entity_id: &str, object_type: ObjectType, object_id: &str, permission: &str)
    ensures
        same_but_grants(*old(db), *final(db)),
        grant_added(
            old(db).grants@,
            final(db).grants@,
            entity_of(entity_id@),
            object_type,
            object_id@,
            permission@,
        ),
{
    let (kind, bare): (EntityType, &str) = parse_entity_ref(entity_id);
    let ghost before = db.grants@;
    if find_grant(&db.grants, kind, bare, object_type, object_id, permission).is_none() {
        db.grants.push(
            Grant {
                entity_id: bare.to_owned(),
                entity_type: kind,
                object_type,
                object_id: object_id.to_owned(),
                permission: permission.to_owned(),
            },
        );
        proof {
            assert(db.grants@.drop_last() =~= before);
        }
    } else {
        proof {
            assert(granted(before, (kind, bare@), object_type, object_id@, permission@));
        }
    }
}

/// Grant a connection permission to a user or group. Idempotent.
pub fn grant_connection_permission(
    db: &mut Rbac,
    entity_id: &str,
    connection_id: &str,
    permission: ObjectPermission,
)
    ensures
        same_but_grants(*old(db), *final(db)),
        grant_added(
            old(db).grants@,
            final(db).grants@,
            entity_of(entity_id@),
            ObjectType::Connection,
            connection_id@,
            permission.name(),
        ),
{
    grant(db, entity_id, ObjectType::Connection, connection_id, permission.as_str());
}

/// Grant a connection-group-level permission. Idempotent.
pub fn grant_group_permission(
    db: &mut Rbac,
    entity_id: &str,
    group_id: &str,
    permission: ObjectPermission,
)
    ensures
        same_but_grants(*old(db), *final(db)),
        grant_added(
            old(db).grants@,
            final(db).grants@,
            entity_of(entity_id@),
            ObjectType::ConnectionGroup,
            group_id@,
            permission.name(),
        ),
{
    grant(db, entity_id, ObjectType::ConnectionGroup, group_id, permission.as_str());
}

/// The grants without those that give an entity a permission on an object.
pub open spec fn grants_without(
    grants: Seq<Grant>,
    entity: (EntityType, Seq<char>),
    object_type: ObjectType,
    object_id: Seq<char>,
    permission: Seq<char>,
) -> Seq<Grant>
    decreases grants.len(),
{
    if grants.len() == 0 {
        grants
    } else {
        let front = grants_without(grants.drop_last(), entity, object_type, object_id, permission);
        if grants_to(grants.last(), entity, object_type, object_id, permission) {
            front
        } else {
            front.push(grants.last())
        }
    }
}

/// Revoke a connection permission. Returns true if a row was removed.
pub fn revoke_connection_permission(
    db: &mut Rbac,
    entity_id: &str,
    connection_id: &str,
    permission: ObjectPermission,
) -> (r: bool)
    ensures
        same_but_grants(*old(db), *final(db)),
        final(db).grants@ == grants_without(
            old(db).grants@,
            entity_of(entity_id@),
            ObjectType::Connection,
            connection_id@,
            permission.name(),
        ),
        r == granted(
            old(db).grants@,
            entity_of(entity_id@),
            ObjectType::Connection,
            connection_id@,
            permission.name(),
        ),
{
    let (kind, bare): (EntityType, &str) = parse_entity_ref(entity_id);
    let name = permission.as_str();
    let ghost all = db.grants@;
    let mut removed = false;
    let mut k: usize = 0;
    let mut at: usize = 0;
    let n: usize = db.grants.len();
    proof {
        assert(all.take(0) =~= Seq::empty());
        assert(all.skip(0) =~= all);
    }
    while k < n
        invariant
            n == all.len(),
            k <= n,
            at <= k,
            all == old(db).grants@,
            same_but_grants(*old(db), *db),
            db.grants@.len() == at + (n - k),
            db.grants@.take(at as int) == grants_without(
                all.take(k as int),
                (kind, bare@),
                ObjectType::Connection,
                connection_id@,
                name@,
            ),
            db.grants@.skip(at as int) == all.skip(k as int),
            removed == granted(
                all.take(k as int),
                (kind, bare@),
                ObjectType::Connection,
                connection_id@,
                name@,
            ),
        decreases n - k,
    {
        let ghost before = db.grants@;
        let ghost t = all.take(k + 1);
        proof {
            assert(t.drop_last() =~= all.take(k as int));
            assert(before[at as int] == before.skip(at as int)[0]);
            assert(all.skip(k as int)[0] == all[k as int]);
            assert(t.last() == before[at as int]);
            lemma_granted_push(
                all.take(k as int),
                t,
                (kind, bare@),
                ObjectType::Connection,
                connection_id@,
                name@,
            );
        }
        let g = &db.grants[at];
        let hit = g.entity_type == kind && g.object_type == ObjectType::Connection && same_text(
            g.entity_id.as_str(),
            bare,
        ) && same_text(g.object_id.as_str(), connection_id) && same_text(
            g.permission.as_str(),
            name,
        );
        if hit {
            db.grants.remove(at);
            removed = true;
            proof {
                assert(db.grants@.take(at as int) =~= before.take(at as int));
                assert(db.grants@.skip(at as int) =~= before.skip(at as int).skip(1));
                assert(all.skip(k as int).skip(1) =~= all.skip(k + 1));
            }
        } else {
            proof {
                assert(before.take(at + 1) =~= before.take(at as int).push(before[at as int]));
                assert(before.skip(at + 1) =~= before.skip(at as int).skip(1));
                assert(all.skip(k as int).skip(1) =~= all.skip(k + 1));
            }
            at = at + 1;
        }
        k = k + 1;
    }
    proof {
        assert(all.take(k as int) =~= all);
        assert(db.grants@.take(at as int) =~= db.grants@);
    }
    removed
}

proof fn lemma_granted_push(
    front: Seq<Grant>,
    all: Seq<Grant>,
    entity: (EntityType, Seq<char>),
    object_type: ObjectType,
    object_id: Seq<char>,
    permission: Seq<char>,
)
    requires
        all.len() > 0,
        all.drop_last() == front,
    ensures
        granted(all, entity, object_type, object_id, permission) == (granted(
            front,
            entity,
            object_type,
            object_id,
            permission,
        ) || grants_to(all.last(), entity, object_type, object_id, permission)),
{
    if granted(front, entity, object_type, object_id, permission) {
        let i = choose|i: int|
            0 <= i < front.len() && grants_to(
                #[trigger] front[i],
                entity,
                object_type,
                object_id,
                permission,
            );
        assert(all[i] == front[i]);
    }
    if grants_to(all.last(), entity, object_type, object_id, permission) {
        assert(grants_to(all[all.len() - 1], entity, object_type, object_id, permission));
    }
    if granted(all, entity, object_type, object_id, permission) {
        let i = choose|i: int|
            0 <= i < all.len() && grants_to(
                #[trigger] all[i],
                entity,
                object_type,
                object_id,
                permission,
            );
        if i < front.len() {
            assert(front[i] == all[i]);
        }
    }
}

/// A revoked permission is gone, and no other grant is.
pub proof fn law_revoked_is_gone(
    grants: Seq<Grant>,
    entity: (EntityType, Seq<char>),
    object_type: ObjectType,
    object_id: Seq<char>,
    permission: Seq<char>,
    g: Grant,
)
    ensures
        !granted(
            grants_without(grants, entity, object_type, object_id, permission),
            entity,
            object_type,
            object_id,
            permission,
        ),
        grants_without(grants, entity, object_type, object_id, permission).contains(g) <==> (
        grants.contains(g) && !grants_to(g, entity, object_type, object_id, permission)),
    decreases grants.len(),
{
    if grants.len() > 0 {
        let front = grants.drop_last();
        let f = grants_without(front, entity, object_type, object_id, permission);
        let all = grants_without(grants, entity, object_type, object_id, permission);
        law_revoked_is_gone(front, entity, object_type, object_id, permission, g);
        if !grants_to(grants.last(), entity, object_type, object_id, permission) {
            assert(all.drop_last() =~= f);
            lemma_granted_push(f, all, entity, object_type, object_id, permission);
        }
        if front.contains(g) {
            let i = choose|i: int| 0 <= i < front.len() && front[i] == g;
            assert(grants[i] == g);
        }
        if grants.contains(g) {
            let i = choose|i: int| 0 <= i < grants.len() && grants[i] == g;
            if i < front.len() {
                assert(front[i] == g);
            }
        }
        if grants.last() == g {
            assert(grants[grants.len() - 1] == g);
        }
        if f.contains(g) && all.len() > f.len() {
            let i = choose|i: int| 0 <= i < f.len() && f[i] == g;
            assert(all[i] == g);
        }
        if all.contains(g) && all.len() > f.len() {
            let i = choose|i: int| 0 <= i < all.len() && all[i] == g;
            if i < f.len() {
                assert(f[i] == g);
            }
        }
        if all.len() > f.len() {
            assert(all[all.len() - 1] == grants.last());
        }
    }
}

// ── Inheritance ──
/// Whether group `a` has the parent `b`.
pub open spec fn parent_of(groups: Seq<ConnectionGroup>, a: Seq<char>, b: Seq<char>) -> bool {
    exists|i: int|
        0 <= i < groups.len() && (#[trigger] groups[i]).id@ == a && opt_text(groups[i].parent_id)
            == Some(b)
}

/// What an inherited permission is looked for on: a connection together with
/// its folder, or one folder or group alone.
pub ghost struct Query {
    pub connection: Option<Seq<char>>,
    pub folder: Seq<char>,
    pub permission: Seq<char>,
}

/// Whether a group was granted the permission on the connection or folder.
pub open spec fn seed(db: Rbac, q: Query, g: Seq<char>) -> bool {
    (q.connection is Some && granted(
        db.grants@,
        (EntityType::Group, g),
        ObjectType::Connection,
        q.connection->0,
        q.permission,
    )) || granted(
        db.grants@,
        (EntityType::Group, g),
        ObjectType::ConnectionGroup,
        q.folder,
        q.permission,
    )
}

/// Whether the permission passes from group `a` to `b`: to its parent and,
/// for a connection, to the groups that were granted it on `a`.
pub open spec fn passes(db: Rbac, q: Query, a: Seq<char>, b: Seq<char>) -> bool {
    parent_of(db.groups@, a, b) || (q.connection is Some && granted(
        db.grants@,
        (EntityType::Group, b),
        ObjectType::ConnectionGroup,
        a,
        q.permission,
    ))
}

/// A chain of groups through which the permission passes.
pub open spec fn chain(db: Rbac, q: Query, p: Seq<Seq<char>>) -> bool {
    &&& p.len() > 0
    &&& seed(db, q, p[0])
    &&& forall|k: int| 0 <= k < p.len() - 1 ==> passes(db, q, #[trigger] p[k], p[k + 1])
}

/// Whether a group has the permission, directly or by inheritance.
pub open spec fn reaches(db: Rbac, q: Query, g: Seq<char>) -> bool {
    exists|p: Seq<Seq<char>>| #[trigger] chain(db, q, p) && p.last() == g
}

/// Whether a user is in a group.
pub open spec fn member(db: Rbac, user_id: i64, g: Seq<char>) -> bool {
    exists|i: int|
        0 <= i < db.memberships@.len() && (#[trigger] db.memberships@[i]).user_id == user_id
            && db.memberships@[i].group_id@ == g
}

/// Whether a user has the permission through a group.
pub open spec fn inherits(db: Rbac, user_id: i64, q: Query) -> bool {
    exists|g: Seq<char>| #[trigger] reaches(db, q, g) && member(db, user_id, g)
}

/// The groups that could ever be found: all grantees and all parents.
spec fn candidates(db: Rbac) -> Seq<Seq<char>> {
    Seq::new(db.grants@.len(), |i: int| db.grants@[i].entity_id@) + Seq::new(
        db.groups@.len(),
        |i: int|
            match db.groups@[i].parent_id {
                Some(p) => p@,
                None => Seq::empty(),
            },
    )
}

proof fn lemma_reach_step(db: Rbac, q: Query, a: Seq<char>, b: Seq<char>)
    requires
        reaches(db, q, a),
        passes(db, q, a, b),
    ensures
        reaches(db, q, b),
{
    let p = choose|p: Seq<Seq<char>>| #[trigger] chain(db, q, p) && p.last() == a;
    let r = p.push(b);
    assert forall|k: int| 0 <= k < r.len() - 1 implies passes(db, q, #[trigger] r[k], r[k + 1]) by {
        if k < p.len() - 1 {
            assert(r[k] == p[k] && r[k + 1] == p[k + 1]);
            assert(passes(db, q, p[k], p[k + 1]));
        } else {
            assert(r[k] == a && r[k + 1] == b);
        }
    }
    assert(chain(db, q, r));
    assert(r.last() == b);
}

proof fn lemma_reach_seed(db: Rbac, q: Query, a: Seq<char>)
    requires
        seed(db, q, a),
    ensures
        reaches(db, q, a),
{
    let p = seq![a];
    assert(chain(db, q, p));
    assert(p.last() == a);
}

/// What is found is a candidate.
proof fn lemma_seed_candidate(db: Rbac, q: Query, a: Seq<char>)
    requires
        seed(db, q, a),
    ensures
        candidates(db).contains(a),
{
    let i = choose|i: int|
        0 <= i < db.grants@.len() && (#[trigger] db.grants@[i]).entity_id@ == a;
    assert(candidates(db)[i] == a);
}

proof fn lemma_pass_candidate(db: Rbac, q: Query, a: Seq<char>, b: Seq<char>)
    requires
        passes(db, q, a, b),
    ensures
        candidates(db).contains(b),
{
    if parent_of(db.groups@, a, b) {
        let i = choose|i: int|
            0 <= i < db.groups@.len() && (#[trigger] db.groups@[i]).id@ == a && opt_text(
                db.groups@[i].parent_id,
            ) == Some(b);
        assert(candidates(db)[db.grants@.len() + i] == b);
    } else {
        let i = choose|i: int|
            0 <= i < db.grants@.len() && (#[trigger] db.grants@[i]).entity_id@ == b;
        assert(candidates(db)[i] == b);
    }
}

/// A list without repeats, all of whose members are candidates, is no longer
/// than the candidates.
proof fn lemma_pigeonhole(found: Seq<Seq<char>>, c: Seq<Seq<char>>)
    requires
        found.no_duplicates(),
        forall|i: int| 0 <= i < found.len() ==> c.contains(#[trigger] found[i]),
    ensures
        found.len() <= c.len(),
{
    found.unique_seq_to_set();
    vstd::seq_lib::seq_to_set_is_finite(c);
    assert(found.to_set().subset_of(c.to_set())) by {
        assert forall|x: Seq<char>| found.to_set().contains(x) implies c.to_set().contains(x) by {
            let i = choose|i: int| 0 <= i < found.len() && found[i] == x;
            assert(c.contains(found[i]));
        }
    }
    vstd::set_lib::lemma_len_subset(found.to_set(), c.to_set());
    c.lemma_cardinality_of_set();
}

/// A closed list that holds all seeds holds everything that is reached.
proof fn lemma_closed(db: Rbac, q: Query, found: Seq<Seq<char>>, p: Seq<Seq<char>>, k: int)
    requires
        chain(db, q, p),
        0 <= k < p.len(),
        forall|x: Seq<char>| #[trigger] seed(db, q, x) ==> found.contains(x),
        forall|a: Seq<char>, b: Seq<char>|
            found.contains(a) && #[trigger] passes(db, q, a, b) ==> found.contains(b),
    ensures
        found.contains(p[k]),
    decreases k,
{
    if k > 0 {
        lemma_closed(db, q, found, p, k - 1);
        assert(passes(db, q, p[k - 1], p[k - 1 + 1]));
    }
}

/// Add a name to a list that does not hold it yet.
fn add_name(found: &mut Vec<String>, name: &str)
    ensures
        texts(final(found)@) == if texts(old(found)@).contains(name@) {
            texts(old(found)@)
        } else {
            texts(old(found)@).push(name@)
        },
{
    let ghost before = found@;
    if !list_has(found, name) {
        found.push(name.to_owned());
        proof {
            assert(texts(found@) =~= texts(before).push(name@));
        }
    }
}

/// Whether the list is what the search may have found so far.
spec fn sound(db: Rbac, q: Query, found: Seq<Seq<char>>) -> bool {
    &&& found.no_duplicates()
    &&& forall|i: int| 0 <= i < found.len() ==> reaches(db, q, #[trigger] found[i])
    &&& forall|i: int| 0 <= i < found.len() ==> candidates(db).contains(#[trigger] found[i])
}

proof fn lemma_sound_push(db: Rbac, q: Query, found: Seq<Seq<char>>, x: Seq<char>)
    requires
        sound(db, q, found),
        !found.contains(x),
        reaches(db, q, x),
        candidates(db).contains(x),
    ensures
        sound(db, q, found.push(x)),
        forall|y: Seq<char>| found.contains(y) ==> found.push(x).contains(y),
        found.push(x).contains(x),
{
    let f = found.push(x);
    assert forall|i: int, j: int| 0 <= i < f.len() && 0 <= j < f.len() && i != j implies f[i]
        != f[j] by {
        if i < found.len() && j < found.len() {
            assert(found[i] != found[j]);
        } else if i < found.len() {
            assert(found.contains(found[i]));
        } else if j < found.len() {
            assert(found.contains(found[j]));
        }
    }
    assert forall|i: int| 0 <= i < f.len() implies reaches(db, q, #[trigger] f[i]) by {
        if i < found.len() {
            assert(f[i] == found[i]);
        }
    }
    assert forall|i: int| 0 <= i < f.len() implies candidates(db).contains(#[trigger] f[i]) by {
        if i < found.len() {
            assert(f[i] == found[i]);
        }
    }
    assert forall|y: Seq<char>| found.contains(y) implies f.contains(y) by {
        let i = choose|i: int| 0 <= i < found.len() && found[i] == y;
        assert(f[i] == y);
    }
    assert(f[found.len() as int] == x);
}

/// Add every group that was granted the permission on an object.
fn add_granted(
    db: &Rbac,
    found: &mut Vec<String>,
    object_type: ObjectType,
    object_id: &str,
    permission: &str,
    Ghost(q): Ghost<Query>,
)
    requires
        sound(*db, q, texts(old(found)@)),
        permission@ == q.permission,
        forall|b: Seq<char>|
            #[trigger] granted(
                db.grants@,
                (EntityType::Group, b),
                object_type,
                object_id@,
                q.permission,
            ) ==> reaches(*db, q, b) && candidates(*db).contains(b),
    ensures
        sound(*db, q, texts(final(found)@)),
        texts(old(found)@).is_prefix_of(texts(final(found)@)),
        forall|b: Seq<char>|
            #[trigger] granted(
                db.grants@,
                (EntityType::Group, b),
                object_type,
                object_id@,
                q.permission,
            ) ==> texts(final(found)@).contains(b),
{
    let ghost start = texts(found@);
    let mut i: usize = 0;
    while i < db.grants.len()
        invariant
            i <= db.grants@.len(),
            sound(*db, q, texts(found@)),
            start.is_prefix_of(texts(found@)),
            permission@ == q.permission,
            forall|b: Seq<char>|
                #[trigger] granted(
                    db.grants@,
                    (EntityType::Group, b),
                    object_type,
                    object_id@,
                    q.permission,
                ) ==> reaches(*db, q, b) && candidates(*db).contains(b),
            forall|j: int|
                0 <= j < i && grants_to(
                    #[trigger] db.grants@[j],
                    (EntityType::Group, db.grants@[j].entity_id@),
                    object_type,
                    object_id@,
                    q.permission,
                ) ==> texts(found@).contains(db.grants@[j].entity_id@),
        decreases db.grants@.len() - i,
    {
        let g = &db.grants[i];
        let ghost before = texts(found@);
        if g.entity_type == EntityType::Group && g.object_type == object_type && same_text(
            g.object_id.as_str(),
            object_id,
        ) && same_text(g.permission.as_str(), permission) {
            proof {
                let b = g.entity_id@;
                assert(grants_to(
                    db.grants@[i as int],
                    (EntityType::Group, b),
                    object_type,
                    object_id@,
                    q.permission,
                ));
                assert(granted(
                    db.grants@,
                    (EntityType::Group, b),
                    object_type,
                    object_id@,
                    q.permission,
                ));
                if !before.contains(b) {
                    lemma_sound_push(*db, q, before, b);
                }
            }
            add_name(found, g.entity_id.as_str());
        }
        i = i + 1;
    }
    proof {
        assert forall|b: Seq<char>|
            #[trigger] granted(
                db.grants@,
                (EntityType::Group, b),
                object_type,
                object_id@,
                q.permission,
            ) implies texts(found@).contains(b) by {
            let j = choose|j: int|
                0 <= j < db.grants@.len() && grants_to(
                    #[trigger] db.grants@[j],
                    (EntityType::Group, b),
                    object_type,
                    object_id@,
                    q.permission,
                );
            assert(db.grants@[j].entity_id@ == b);
        }
    }
}

/// Add the parents of a group.
fn add_parents(db: &Rbac, found: &mut Vec<String>, group: &str, Ghost(q): Ghost<Query>)
    requires
        sound(*db, q, texts(old(found)@)),
        reaches(*db, q, group@),
    ensures
        sound(*db, q, texts(final(found)@)),
        texts(old(found)@).is_prefix_of(texts(final(found)@)),
        forall|b: Seq<char>|
            #[trigger] parent_of(db.groups@, group@, b) ==> texts(final(found)@).contains(b),
{
    let ghost start = texts(found@);
    let mut i: usize = 0;
    while i < db.groups.len()
        invariant
            i <= db.groups@.len(),
            sound(*db, q, texts(found@)),
            start.is_prefix_of(texts(found@)),
            reaches(*db, q, group@),
            forall|j: int|
                0 <= j < i && (#[trigger] db.groups@[j]).id@ == group@ && db.groups@[j].parent_id
                    is Some ==> texts(found@).contains(db.groups@[j].parent_id->0@),
        decreases db.groups@.len() - i,
    {
        let g = &db.groups[i];
        let ghost before = texts(found@);
        if same_text(g.id.as_str(), group) {
            if let Some(p) = &g.parent_id {
                proof {
                    let b = p@;
                    assert(parent_of(db.groups@, group@, b)) by {
                        assert(db.groups@[i as int].id@ == group@);
                    }
                    lemma_reach_step(*db, q, group@, b);
                    lemma_pass_candidate(*db, q, group@, b);
                    if !before.contains(b) {
                        lemma_sound_push(*db, q, before, b);
                    }
                }
                add_name(found, p.as_str());
            }
        }
        i = i + 1;
    }
    proof {
        assert forall|b: Seq<char>| #[trigger]
            parent_of(db.groups@, group@, b) implies texts(found@).contains(b) by {
            let j = choose|j: int|
                0 <= j < db.groups@.len() && (#[trigger] db.groups@[j]).id@ == group@ && opt_text(
                    db.groups@[j].parent_id,
                ) == Some(b);
            assert(db.groups@[j].parent_id is Some);
        }
    }
}

/// Whether a user is in one of the groups.
fn member_of_any(db: &Rbac, user_id: i64, groups: &Vec<String>) -> (r: bool)
    ensures
        r == exists|g: Seq<char>| texts(groups@).contains(g) && #[trigger] member(*db, user_id, g),
{
    let mut i: usize = 0;
    while i < db.memberships.len()
        invariant
            i <= db.memberships@.len(),
            forall|j: int|
                0 <= j < i && (#[trigger] db.memberships@[j]).user_id == user_id ==> !texts(
                    groups@,
                ).contains(db.memberships@[j].group_id@),
        decreases db.memberships@.len() - i,
    {
        let m = &db.memberships[i];
        if m.user_id == user_id {
            if list_has(groups, m.group_id.as_str()) {
                proof {
                    assert(member(*db, user_id, m.group_id@)) by {
                        assert(db.memberships@[i as int].user_id == user_id);
                    }
                }
                return true;
            }
        }
        i = i + 1;
    }
    proof {
        assert forall|g: Seq<char>| texts(groups@).contains(g) implies !#[trigger] member(
            *db,
            user_id,
            g,
        ) by {
            if member(*db, user_id, g) {
                let j = choose|j: int|
                    0 <= j < db.memberships@.len() && (#[trigger] db.memberships@[j]).user_id
                        == user_id && db.memberships@[j].group_id@ == g;
                assert(db.memberships@[j].user_id == user_id);
            }
        }
    }
    false
}

/// Whether a user has a permission through a group: all groups that have it
/// are found, each once, and the user's memberships are compared with them.
fn check_inherited(
    db: &Rbac,
    user_id: i64,
    connection: Option<&str>,
    folder: &str,
    permission: &str,
) -> (r: bool)
    ensures
        r == inherits(
            *db,
            user_id,
            Query {
                connection: opt_str(connection),
                folder: folder@,
                permission: permission@,
            },
        ),
{
    let ghost q = Query {
        connection: opt_str(connection),
        folder: folder@,
        permission: permission@,
    };
    let mut found: Vec<String> = Vec::new();
    proof {
        assert(texts(found@) =~= Seq::empty());
        assert(sound(*db, q, texts(found@)));
        assert forall|b: Seq<char>|
            #[trigger] granted(
                db.grants@,
                (EntityType::Group, b),
                ObjectType::ConnectionGroup,
                folder@,
                q.permission,
            ) implies reaches(*db, q, b) && candidates(*db).contains(b) by {
            assert(seed(*db, q, b));
            lemma_reach_seed(*db, q, b);
            lemma_seed_candidate(*db, q, b);
        }
    }
    if let Some(c) = connection {
        proof {
            assert forall|b: Seq<char>|
                #[trigger] granted(
                    db.grants@,
                    (EntityType::Group, b),
                    ObjectType::Connection,
                    c@,
                    q.permission,
                ) implies reaches(*db, q, b) && candidates(*db).contains(b) by {
                assert(seed(*db, q, b));
                lemma_reach_seed(*db, q, b);
                lemma_seed_candidate(*db, q, b);
            }
        }
        add_granted(db, &mut found, ObjectType::Connection, c, permission, Ghost(q));
    }
    let ghost first = texts(found@);
    add_granted(db, &mut found, ObjectType::ConnectionGroup, folder, permission, Ghost(q));
    proof {
        lemma_prefix_contains(first, texts(found@));
        assert forall|x: Seq<char>| #[trigger] seed(*db, q, x) implies texts(found@).contains(
            x,
        ) by {}
        lemma_pigeonhole(texts(found@), candidates(*db));
    }
    let mut i: usize = 0;
    while i < found.len()
        invariant
            i <= found@.len(),
            q == (Query {
                connection: opt_str(connection),
                folder: folder@,
                permission: permission@,
            }),
            sound(*db, q, texts(found@)),
            found@.len() <= candidates(*db).len(),
            forall|x: Seq<char>| #[trigger] seed(*db, q, x) ==> texts(found@).contains(x),
            forall|j: int, b: Seq<char>|
                0 <= j < i && #[trigger] passes(*db, q, texts(found@)[j], b) ==> texts(
                    found@,
                ).contains(b),
        decreases candidates(*db).len() - i,
    {
        let name = found[i].clone();
        let ghost a = name@;
        let ghost before = texts(found@);
        proof {
            assert(before[i as int] == a);
            assert(reaches(*db, q, before[i as int]));
        }
        add_parents(db, &mut found, name.as_str(), Ghost(q));
        let ghost mid = texts(found@);
        if connection.is_some() {
            proof {
                assert forall|b: Seq<char>|
                    #[trigger] granted(
                        db.grants@,
                        (EntityType::Group, b),
                        ObjectType::ConnectionGroup,
                        a,
                        q.permission,
                    ) implies reaches(*db, q, b) && candidates(*db).contains(b) by {
                    assert(passes(*db, q, a, b));
                    lemma_reach_step(*db, q, a, b);
                    lemma_pass_candidate(*db, q, a, b);
                }
            }
            add_granted(
                db,
                &mut found,
                ObjectType::ConnectionGroup,
                name.as_str(),
                permission,
                Ghost(q),
            );
        }
        proof {
            let after = texts(found@);
            lemma_prefix_contains(before, mid);
            lemma_prefix_contains(mid, after);
            lemma_pigeonhole(after, candidates(*db));
            assert forall|j: int, b: Seq<char>|
                0 <= j < i + 1 && #[trigger] passes(*db, q, after[j], b) implies after.contains(
                b,
            ) by {
                assert(after[j] == before[j]);
                if j < i {
                    assert(passes(*db, q, before[j], b));
                    assert(before.contains(b));
                } else {
                    assert(passes(*db, q, a, b));
                    if parent_of(db.groups@, a, b) {
                        assert(mid.contains(b));
                    }
                }
            }
        }
        i = i + 1;
    }
    let r = member_of_any(db, user_id, &found);
    proof {
        let f = texts(found@);
        assert forall|a: Seq<char>, b: Seq<char>|
            f.contains(a) && #[trigger] passes(*db, q, a, b) implies f.contains(b) by {
            let j = choose|j: int| 0 <= j < f.len() && f[j] == a;
            assert(passes(*db, q, f[j], b));
        }
        assert forall|g: Seq<char>| #[trigger] reaches(*db, q, g) implies f.contains(g) by {
            let p = choose|p: Seq<Seq<char>>| #[trigger] chain(*db, q, p) && p.last() == g;
            lemma_closed(*db, q, f, p, p.len() - 1);
        }
        if r {
            let g = choose|g: Seq<char>| f.contains(g) && #[trigger] member(*db, user_id, g);
            let j = choose|j: int| 0 <= j < f.len() && f[j] == g;
            assert(reaches(*db, q, f[j]));
        }
        if inherits(*db, user_id, q) {
            let g = choose|g: Seq<char>| #[trigger] reaches(*db, q, g) && member(*db, user_id, g);
            assert(f.contains(g));
        }
    }
    r
}

proof fn lemma_prefix_contains(a: Seq<Seq<char>>, b: Seq<Seq<char>>)
    requires
        a.is_prefix_of(b),
    ensures
        forall|x: Seq<char>| a.contains(x) ==> b.contains(x),
        a.len() <= b.len(),
        forall|i: int| 0 <= i < a.len() ==> a[i] == b[i],
{
    assert forall|i: int| 0 <= i < a.len() implies a[i] == b[i] by {
        assert(b.subrange(0, a.len() as int)[i] == b[i]);
    }
    assert forall|x: Seq<char>| a.contains(x) implies b.contains(x) by {
        let i = choose|i: int| 0 <= i < a.len() && a[i] == x;
        assert(b[i] == x);
    }
}

// ── Folders ──
/// The position of the last slash in `s`.
pub open spec fn last_slash(s: Seq<char>) -> Option<int>
    decreases s.len(),
{
    if s.len() == 0 {
        None
    } else if s.last() == '/' {
        Some(s.len() - 1)
    } else {
        last_slash(s.drop_last())
    }
}

/// Slash-path ancestors of a folder, deepest first, without the folder.
pub open spec fn folder_ancestors(s: Seq<char>) -> Seq<Seq<char>>
    decreases s.len(),
    via folder_ancestors_decreases
{
    match last_slash(s) {
        None => Seq::empty(),
        Some(i) => if i == 0 {
            Seq::empty()
        } else {
            seq![s.take(i)] + folder_ancestors(s.take(i))
        },
    }
}

#[via_fn]
proof fn folder_ancestors_decreases(s: Seq<char>) {
    lemma_last_slash(s);
}

proof fn lemma_last_slash(s: Seq<char>)
    ensures
        match last_slash(s) {
            Some(i) => 0 <= i < s.len() && s[i] == '/' && forall|j: int|
                i < j < s.len() ==> s[j] != '/',
            None => !s.contains('/'),
        },
    decreases s.len(),
{
    if s.len() > 0 && s.last() != '/' {
        let f = s.drop_last();
        lemma_last_slash(f);
        match last_slash(s) {
            Some(i) => {
                assert(s[i] == f[i]);
                assert forall|j: int| i < j < s.len() implies s[j] != '/' by {
                    if j < f.len() {
                        assert(s[j] == f[j]);
                    }
                }
            },
            None => {
                assert forall|j: int| 0 <= j < s.len() implies s[j] != '/' by {
                    if j < f.len() {
                        assert(f.contains(f[j]));
                    }
                }
            },
        }
    }
}

proof fn lemma_last_slash_is(s: Seq<char>, i: int)
    requires
        0 <= i < s.len(),
        s[i] == '/',
        forall|j: int| i < j < s.len() ==> s[j] != '/',
    ensures
        last_slash(s) == Some(i),
{
    lemma_last_slash(s);
    match last_slash(s) {
        Some(k) => {},
        None => {
            assert(s.contains(s[i]));
        },
    }
}

/// Slash-path ancestors of a folder, deepest first, excluding the folder
/// itself: "Clients/Acme" has the ancestor "Clients".
pub fn ab_folder_ancestors(folder: &str) -> (r: Vec<String>)
    ensures
        texts(r@) == folder_ancestors(folder@),
{
    let v = crate::text::chars(folder);
    let mut out: Vec<String> = Vec::new();
    let mut end: usize = v.len();
    proof {
        assert(folder@.take(end as int) =~= folder@);
        assert(texts(out@) + folder_ancestors(folder@) =~= folder_ancestors(folder@));
    }
    loop
        invariant
            end <= v@.len(),
            v@ == folder@,
            texts(out@) + folder_ancestors(folder@.take(end as int)) == folder_ancestors(folder@),
        decreases end,
    {
        let ghost cur = folder@.take(end as int);
        let mut i: usize = end;
        while i > 0 && v[i - 1] != '/'
            invariant
                i <= end <= v@.len(),
                v@ == folder@,
                forall|j: int| i <= j < end ==> folder@[j] != '/',
            decreases i,
        {
            i = i - 1;
        }
        if i <= 1 {
            proof {
                if i == 0 {
                    assert(!cur.contains('/')) by {
                        assert forall|j: int| 0 <= j < cur.len() implies cur[j] != '/' by {
                            assert(cur[j] == folder@[j]);
                        }
                    }
                    lemma_last_slash(cur);
                } else {
                    assert forall|j: int| 0 < j < cur.len() implies cur[j] != '/' by {
                        assert(cur[j] == folder@[j]);
                    }
                    assert(cur[0] == '/');
                    lemma_last_slash_is(cur, 0);
                }
                assert(texts(out@) + folder_ancestors(cur) =~= texts(out@));
            }
            return out;
        }
        let ghost at = i - 1;
        let ghost before = texts(out@);
        proof {
            assert forall|j: int| at < j < cur.len() implies cur[j] != '/' by {
                assert(cur[j] == folder@[j]);
            }
            assert(cur[at] == '/');
            lemma_last_slash_is(cur, at);
            assert(cur.take(at) =~= folder@.take(at));
            assert(folder@.subrange(0, at) =~= folder@.take(at));
        }
        out.push(crate::text::slice_text(&v, 0, i - 1));
        end = i - 1;
        proof {
            assert(texts(out@) =~= before.push(folder@.take(at)));
            assert(before + (seq![folder@.take(at)] + folder_ancestors(folder@.take(at)))
                =~= texts(out@) + folder_ancestors(folder@.take(at)));
        }
    }
}

/// The folder part of a connection id: what stands between the scope and the
/// entry, where all three are there.
pub open spec fn folder_part(connection_id: Seq<char>) -> Option<(Seq<char>, Seq<char>)> {
    let parts = split_on(connection_id, '/');
    if parts.len() < 3 || parts[0].len() == 0 || parts.last().len() == 0 {
        None
    } else {
        let folder = joined(parts.subrange(1, parts.len() - 1), "/"@);
        if folder.len() == 0 {
            None
        } else {
            Some((parts[0], folder))
        }
    }
}

/// Whether the address book has a folder.
pub open spec fn has_folder(db: Rbac, scope: Seq<char>, path: Seq<char>) -> bool {
    exists|i: int|
        0 <= i < db.folders@.len() && (#[trigger] db.folders@[i]).scope@ == scope
            && db.folders@[i].path@ == path
}

/// The address-book folder of a connection id, if there is such a folder.
pub open spec fn connection_folder(db: Rbac, connection_id: Seq<char>) -> Option<Seq<char>> {
    match folder_part(connection_id) {
        Some((scope, path)) => if has_folder(db, scope, path) {
            Some(path)
        } else {
            None
        },
        None => None,
    }
}

fn folder_exists(db: &Rbac, scope: &str, path: &str) -> (r: bool)
    ensures
        r == has_folder(*db, scope@, path@),
{
    let mut i: usize = 0;
    while i < db.folders.len()
        invariant
            i <= db.folders@.len(),
            forall|j: int|
                0 <= j < i ==> !((#[trigger] db.folders@[j]).scope@ == scope@
                    && db.folders@[j].path@ == path@),
        decreases db.folders@.len() - i,
    {
        if same_text(db.folders[i].scope.as_str(), scope) && same_text(
            db.folders[i].path.as_str(),
            path,
        ) {
            return true;
        }
        i = i + 1;
    }
    false
}

/// Address-book folder path for a connection id ("scope/folder/entry"),
/// resolved against the address book so that only real folders count. `None`
/// for other connection ids.
pub fn ab_folder_path_for_connection(db: &Rbac, connection_id: &str) -> (r: Option<String>)
    ensures
        opt_text(r) == connection_folder(*db, connection_id@),
{
    let mut parts = split(connection_id, '/');
    let ghost all = split_on(connection_id@, '/');
    if parts.len() < 3 {
        return None;
    }
    let last: usize = parts.len() - 1;
    proof {
        assert(texts(parts@)[0] == all[0]);
        assert(texts(parts@)[last as int] == all[last as int]);
    }
    if parts[0].as_str().is_empty() || parts[last].as_str().is_empty() {
        return None;
    }
    let mut middle: Vec<String> = Vec::new();
    let mut i: usize = 1;
    proof {
        assert(texts(middle@) =~= all.subrange(1, 1));
    }
    while i < last
        invariant
            1 <= i <= last,
            last == parts@.len() - 1,
            texts(parts@) == all,
            texts(middle@) == all.subrange(1, i as int),
        decreases last - i,
    {
        let ghost before = texts(middle@);
        middle.push(parts[i].clone());
        proof {
            assert(texts(parts@)[i as int] == parts@[i as int]@);
            assert(texts(middle@) =~= before.push(all[i as int]));
            assert(all.subrange(1, i + 1) =~= all.subrange(1, i as int).push(all[i as int]));
        }
        i = i + 1;
    }
    let folder = join(&middle, "/");
    if folder.as_str().is_empty() {
        return None;
    }
    if folder_exists(db, parts[0].as_str(), folder.as_str()) {
        Some(folder)
    } else {
        None
    }
}

// ── Checks ──
/// Whether a user was granted a permission directly.
pub open spec fn granted_to_user(
    db: Rbac,
    user_id: i64,
    object_type: ObjectType,
    object_id: Seq<char>,
    permission: Seq<char>,
) -> bool {
    granted(
        db.grants@,
        (EntityType::User, signed_digits(user_id as int)),
        object_type,
        object_id,
        permission,
    )
}

fn check_direct(
    db: &Rbac,
    user_id: i64,
    object_type: ObjectType,
    object_id: &str,
    permission: &str,
) -> (r: bool)
    ensures
        r == granted_to_user(*db, user_id, object_type, object_id@, permission@),
{
    let id = signed_decimal(user_id);
    match find_grant(
        &db.grants,
        EntityType::User,
        id.as_str(),
        object_type,
        object_id,
        permission,
    ) {
        Some(i) => {
            proof {
                assert(grants_to(
                    db.grants@[i as int],
                    (EntityType::User, signed_digits(user_id as int)),
                    object_type,
                    object_id@,
                    permission@,
                ));
            }
            true
        },
        None => false,
    }
}

/// Whether a user has a permission on a folder or group: by a grant of their
/// own, or through a group.
pub open spec fn has_on_group(
    db: Rbac,
    user_id: i64,
    object_id: Seq<char>,
    permission: Seq<char>,
) -> bool {
    granted_to_user(db, user_id, ObjectType::ConnectionGroup, object_id, permission) || inherits(
        db,
        user_id,
        Query { connection: None, folder: object_id, permission },
    )
}

/// Group-object permission check (folder-level grants): direct user grant on
/// the object, or a group the user belongs to granted on the object or below
/// it in the group hierarchy.
pub fn check_group_object_permission(
    db: &Rbac,
    user_id: i64,
    object_id: &str,
    permission: ObjectPermission,
) -> (r: bool)
    ensures
        r == has_on_group(*db, user_id, object_id@, permission.name()),
{
    check_direct(db, user_id, ObjectType::ConnectionGroup, object_id, permission.as_str())
        || check_inherited(db, user_id, None, object_id, permission.as_str())
}

/// Whether a user has a permission on a connection. The folder of the
/// connection and the folders above it pass their grants down.
pub open spec fn has_on_connection(
    db: Rbac,
    user_id: i64,
    connection_id: Seq<char>,
    permission: Seq<char>,
) -> bool {
    let folder = connection_folder(db, connection_id);
    ||| granted_to_user(db, user_id, ObjectType::Connection, connection_id, permission)
    ||| folder is Some && granted_to_user(
        db,
        user_id,
        ObjectType::ConnectionGroup,
        folder->0,
        permission,
    )
    ||| inherits(
        db,
        user_id,
        Query {
            connection: Some(connection_id),
            folder: if folder is Some {
                folder->0
            } else {
                Seq::empty()
            },
            permission,
        },
    )
    ||| folder is Some && exists|k: int|
        0 <= k < folder_ancestors(folder->0).len() && #[trigger] has_on_group(
            db,
            user_id,
            folder_ancestors(folder->0)[k],
            permission,
        )
}

/// Check if a user has a specific permission on a connection.
///
/// Resolution order (fail-closed):
/// 1. Direct user permission on the connection
/// 2. Direct user permission on the connection's address-book folder
/// 3. Group permission on the connection (user must be member of the group)
/// 4. Group permission on the connection's address-book folder
/// 5. Group permission on any ancestor connection group
/// 6. Folder grants on every ancestor folder
/// 7. Denied if none match
pub fn check_connection_permission(
    db: &Rbac,
    user_id: i64,
    connection_id: &str,
    permission: ObjectPermission,
) -> (r: bool)
    ensures
        r == has_on_connection(*db, user_id, connection_id@, permission.name()),
{
    let name = permission.as_str();
    if check_direct(db, user_id, ObjectType::Connection, connection_id, name) {
        return true;
    }
    let folder = ab_folder_path_for_connection(db, connection_id);
    if let Some(f) = &folder {
        if check_direct(db, user_id, ObjectType::ConnectionGroup, f.as_str(), name) {
            return true;
        }
    }
    let walk: &str = match &folder {
        Some(f) => f.as_str(),
        None => "",
    };
    proof {
        reveal_strlit("");
        assert(""@ =~= Seq::empty());
    }
    if check_inherited(db, user_id, Some(connection_id), walk, name) {
        return true;
    }
    if let Some(f) = &folder {
        let up = ab_folder_ancestors(f.as_str());
        let mut k: usize = 0;
        while k < up.len()
            invariant
                k <= up@.len(),
                texts(up@) == folder_ancestors(f@),
                name@ == permission.name(),
                connection_folder(*db, connection_id@) == Some(f@),
                forall|j: int|
                    0 <= j < k ==> !#[trigger] has_on_group(
                        *db,
                        user_id,
                        folder_ancestors(f@)[j],
                        permission.name(),
                    ),
            decreases up@.len() - k,
        {
            proof {
                assert(texts(up@)[k as int] == up@[k as int]@);
            }
            if check_group_object_permission(db, user_id, up[k].as_str(), permission) {
                proof {
                    assert(has_on_group(
                        *db,
                        user_id,
                        folder_ancestors(f@)[k as int],
                        permission.name(),
                    ));
                }
                return true;
            }
            k = k + 1;
        }
    }
    false
}

/// A permission that is granted on a folder to a group is held by its members
/// on every connection in the folder and in the folders below it.
pub proof fn law_folder_grants_cascade(
    db: Rbac,
    user_id: i64,
    group: Seq<char>,
    granted_folder: Seq<char>,
    connection_id: Seq<char>,
    permission: Seq<char>,
)
    requires
        granted(
            db.grants@,
            (EntityType::Group, group),
            ObjectType::ConnectionGroup,
            granted_folder,
            permission,
        ),
        member(db, user_id, group),
        connection_folder(db, connection_id) is Some,
        connection_folder(db, connection_id)->0 == granted_folder || folder_ancestors(
            connection_folder(db, connection_id)->0,
        ).contains(granted_folder),
    ensures
        has_on_connection(db, user_id, connection_id, permission),
{
    let folder = connection_folder(db, connection_id)->0;
    if folder == granted_folder {
        let q = Query { connection: Some(connection_id), folder, permission };
        lemma_reach_seed(db, q, group);
        assert(inherits(db, user_id, q));
    } else {
        let up = folder_ancestors(folder);
        let k = choose|k: int| 0 <= k < up.len() && up[k] == granted_folder;
        let q = Query { connection: None, folder: up[k], permission };
        lemma_reach_seed(db, q, group);
        assert(inherits(db, user_id, q));
        assert(has_on_group(db, user_id, up[k], permission));
    }
}

/// Nothing is allowed without a grant: without any grant of a permission no
/// user has it on any connection or group.
pub proof fn law_denied_by_default(
    db: Rbac,
    user_id: i64,
    object_id: Seq<char>,
    permission: Seq<char>,
)
    requires
        forall|i: int| 0 <= i < db.grants@.len() ==> (#[trigger] db.grants@[i]).permission@
            != permission,
    ensures
        !has_on_connection(db, user_id, object_id, permission),
        !has_on_group(db, user_id, object_id, permission),
{
    assert forall|e: (EntityType, Seq<char>), t: ObjectType, o: Seq<char>| !#[trigger] granted(
        db.grants@,
        e,
        t,
        o,
        permission,
    ) by {
        if granted(db.grants@, e, t, o, permission) {
            let i = choose|i: int|
                0 <= i < db.grants@.len() && grants_to(
                    #[trigger] db.grants@[i],
                    e,
                    t,
                    o,
                    permission,
                );
            assert(db.grants@[i].permission@ == permission);
        }
    }
    assert forall|q: Query| q.permission == permission implies !#[trigger] inherits(
        db,
        user_id,
        q,
    ) by {
        assert forall|g: Seq<char>| !#[trigger] reaches(db, q, g) by {
            if reaches(db, q, g) {
                let p = choose|p: Seq<Seq<char>>| #[trigger] chain(db, q, p) && p.last() == g;
                assert(seed(db, q, p[0]));
            }
        }
    }
}

/// A direct grant on a connection is enough.
pub proof fn law_direct_grant_suffices(
    db: Rbac,
    user_id: i64,
    connection_id: Seq<char>,
    permission: Seq<char>,
)
    requires
        granted_to_user(db, user_id, ObjectType::Connection, connection_id, permission),
    ensures
        has_on_connection(db, user_id, connection_id, permission),
{
}

// ── Groups ──
/// Whether a group with the id or the name is there.
pub open spec fn group_taken(groups: Seq<ConnectionGroup>, id: Seq<char>, name: Seq<char>) -> bool {
    exists|i: int|
        0 <= i < groups.len() && ((#[trigger] groups[i]).id@ == id || groups[i].name@ == name)
}

/// All rows but the groups are the same.
pub open spec fn same_but_groups(a: Rbac, b: Rbac) -> bool {
    a.grants == b.grants && a.memberships == b.memberships && a.folders == b.folders && a.roles
        == b.roles && a.users == b.users
}

/// Create a connection group under a fresh id, in the shared scope. Ids and
/// names are unique.
pub fn create_group(
    db: &mut Rbac,
    id: String,
    name: &str,
    parent_id: Option<&str>,
    description: Option<&str>,
) -> (r: Result<(), Duplicate>)
    ensures
        same_but_groups(*old(db), *final(db)),
        match r {
            Ok(_) => {
                &&& !group_taken(old(db).groups@, id@, name@)
                &&& final(db).groups@.len() == old(db).groups@.len() + 1
                &&& final(db).groups@.drop_last() == old(db).groups@
                &&& final(db).groups@.last().id == id
                &&& final(db).groups@.last().name@ == name@
                &&& opt_text(final(db).groups@.last().parent_id) == opt_str(parent_id)
                &&& opt_text(final(db).groups@.last().description) == opt_str(description)
                &&& final(db).groups@.last().scope@ == "shared"@
            },
            Err(_) => group_taken(old(db).groups@, id@, name@) && final(db).groups@
                == old(db).groups@,
        },
{
    let mut i: usize = 0;
    while i < db.groups.len()
        invariant
            i <= db.groups@.len(),
            *db == *old(db),
            forall|j: int|
                0 <= j < i ==> (#[trigger] db.groups@[j]).id@ != id@ && db.groups@[j].name@ != name@,
        decreases db.groups@.len() - i,
    {
        if same_text(db.groups[i].id.as_str(), id.as_str()) || same_text(
            db.groups[i].name.as_str(),
            name,
        ) {
            return Err(Duplicate);
        }
        i = i + 1;
    }
    let ghost before = db.groups@;
    db.groups.push(
        ConnectionGroup {
            id,
            name: name.to_owned(),
            parent_id: own_opt(parent_id),
            description: own_opt(description),
            scope: "shared".to_owned(),
        },
    );
    proof {
        assert(db.groups@.drop_last() =~= before);
    }
    Ok(())
}

/// A group that is no longer the child of a deleted one.
pub open spec fn unparented(g: ConnectionGroup, gone: Seq<char>) -> ConnectionGroup {
    if opt_text(g.parent_id) == Some(gone) {
        ConnectionGroup { parent_id: None, ..g }
    } else {
        g
    }
}

/// The groups without a deleted one, its children at the top.
pub open spec fn groups_without(groups: Seq<ConnectionGroup>, id: Seq<char>) -> Seq<ConnectionGroup>
    decreases groups.len(),
{
    if groups.len() == 0 {
        groups
    } else {
        let front = groups_without(groups.drop_last(), id);
        if groups.last().id@ == id {
            front
        } else {
            front.push(unparented(groups.last(), id))
        }
    }
}

fn copy_group(g: &ConnectionGroup) -> (r: ConnectionGroup)
    ensures
        r == *g,
{
    ConnectionGroup {
        id: g.id.clone(),
        name: g.name.clone(),
        parent_id: copy_opt(&g.parent_id),
        description: copy_opt(&g.description),
        scope: g.scope.clone(),
    }
}

/// Delete a connection group by ID. Returns true if deleted. Its children
/// move to the top.
pub fn delete_group(db: &mut Rbac, group_id: &str) -> (r: bool)
    ensures
        same_but_groups(*old(db), *final(db)),
        final(db).groups@ == groups_without(old(db).groups@, group_id@),
        r == exists|i: int|
            0 <= i < old(db).groups@.len() && (#[trigger] old(db).groups@[i]).id@ == group_id@,
{
    let mut kept: Vec<ConnectionGroup> = Vec::new();
    let mut removed = false;
    let mut i: usize = 0;
    while i < db.groups.len()
        invariant
            i <= db.groups@.len(),
            *db == *old(db),
            kept@ == groups_without(db.groups@.take(i as int), group_id@),
            removed == exists|j: int| 0 <= j < i && (#[trigger] db.groups@[j]).id@ == group_id@,
        decreases db.groups@.len() - i,
    {
        proof {
            assert(db.groups@.take(i + 1).drop_last() =~= db.groups@.take(i as int));
        }
        if same_text(db.groups[i].id.as_str(), group_id) {
            removed = true;
            proof {
                assert(db.groups@[i as int].id@ == group_id@);
            }
        } else {
            let mut g = copy_group(&db.groups[i]);
            if same_opt(borrow_opt(&g.parent_id), Some(group_id)) {
                g.parent_id = None;
            }
            kept.push(g);
        }
        i = i + 1;
    }
    proof {
        assert(db.groups@.take(i as int) =~= db.groups@);
    }
    db.groups = kept;
    removed
}

/// The names of groups.
pub open spec fn group_names(v: Seq<ConnectionGroup>) -> Seq<Seq<char>> {
    Seq::new(v.len(), |i: int| v[i].name@)
}

/// List all connection groups, by name.
pub fn list_groups(db: &Rbac) -> (r: Vec<ConnectionGroup>)
    ensures
        ordered(group_names(r@)),
        r@.to_multiset() == db.groups@.to_multiset(),
{
    let mut out: Vec<ConnectionGroup> = Vec::new();
    let mut i: usize = 0;
    proof {
        assert(db.groups@.take(0) =~= out@);
    }
    while i < db.groups.len()
        invariant
            i <= db.groups@.len(),
            ordered(group_names(out@)),
            out@.to_multiset() == db.groups@.take(i as int).to_multiset(),
        decreases db.groups@.len() - i,
    {
        let g = copy_group(&db.groups[i]);
        let ghost before = out@;
        let mut at: usize = 0;
        while at < out.len() && !comes_before(g.name.as_str(), out[at].name.as_str())
            invariant
                at <= out@.len(),
                out@ == before,
                forall|j: int| 0 <= j < at ==> !text_less(g.name@, (#[trigger] before[j]).name@),
            decreases out@.len() - at,
        {
            at = at + 1;
        }
        out.insert(at, g);
        proof {
            broadcast use vstd::seq_lib::group_to_multiset_ensures;

            assert(db.groups@.take(i + 1) =~= db.groups@.take(i as int).push(g));
            lemma_insert_multiset(before, at as int, g);
            let names = group_names(before);
            assert forall|j: int| 0 <= j < at implies !text_less(g.name@, #[trigger] names[j]) by {
                assert(!text_less(g.name@, before[j].name@));
            }
            lemma_ordered_insert(names, at as int, g.name@);
            assert(group_names(out@) =~= names.insert(at as int, g.name@));
        }
        i = i + 1;
    }
    proof {
        assert(db.groups@.take(i as int) =~= db.groups@);
    }
    out
}

proof fn lemma_insert_multiset<T>(s: Seq<T>, at: int, x: T)
    requires
        0 <= at <= s.len(),
    ensures
        s.insert(at, x).to_multiset() == s.to_multiset().insert(x),
{
    broadcast use vstd::seq_lib::group_to_multiset_ensures;

    let a = s.take(at);
    let b = s.skip(at);
    assert(s =~= a + b);
    assert(s.insert(at, x) =~= a.push(x) + b);
    vstd::seq_lib::lemma_multiset_commutative(a, b);
    vstd::seq_lib::lemma_multiset_commutative(a.push(x), b);
    assert(a.push(x).to_multiset() == a.to_multiset().insert(x));
    assert(s.insert(at, x).to_multiset() =~= s.to_multiset().insert(x));
}

// ── Membership ──
/// All rows but the memberships are the same.
pub open spec fn same_but_memberships(a: Rbac, b: Rbac) -> bool {
    a.grants == b.grants && a.groups == b.groups && a.folders == b.folders && a.roles == b.roles
        && a.users == b.users
}

/// Add a user to a group. Idempotent.
pub fn add_user_to_group(db: &mut Rbac, user_id: i64, group_id: &str)
    ensures
        same_but_memberships(*old(db), *final(db)),
        if member(*old(db), user_id, group_id@) {
            final(db).memberships@ == old(db).memberships@
        } else {
            &&& final(db).memberships@.len() == old(db).memberships@.len() + 1
            &&& final(db).memberships@.drop_last() == old(db).memberships@
            &&& final(db).memberships@.last().user_id == user_id
            &&& final(db).memberships@.last().group_id@ == group_id@
        },
{
    let mut i: usize = 0;
    while i < db.memberships.len()
        invariant
            i <= db.memberships@.len(),
            *db == *old(db),
            forall|j: int|
                0 <= j < i ==> !((#[trigger] db.memberships@[j]).user_id == user_id
                    && db.memberships@[j].group_id@ == group_id@),
        decreases db.memberships@.len() - i,
    {
        if db.memberships[i].user_id == user_id && same_text(
            db.memberships[i].group_id.as_str(),
            group_id,
        ) {
            proof {
                assert(member(*old(db), user_id, group_id@)) by {
                    assert(db.memberships@[i as int].user_id == user_id);
                }
            }
            return;
        }
        i = i + 1;
    }
    let ghost before = db.memberships@;
    db.memberships.push(Membership { user_id, group_id: group_id.to_owned() });
    proof {
        assert(db.memberships@.drop_last() =~= before);
    }
}

/// The memberships without those of a user in a group.
pub open spec fn memberships_without(
    v: Seq<Membership>,
    user_id: i64,
    group_id: Seq<char>,
) -> Seq<Membership>
    decreases v.len(),
{
    if v.len() == 0 {
        v
    } else {
        let front = memberships_without(v.drop_last(), user_id, group_id);
        if v.last().user_id == user_id && v.last().group_id@ == group_id {
            front
        } else {
            front.push(v.last())
        }
    }
}

/// Remove a user from a group.
pub fn remove_user_from_group(db: &mut Rbac, user_id: i64, group_id: &str)
    ensures
        same_but_memberships(*old(db), *final(db)),
        final(db).memberships@ == memberships_without(old(db).memberships@, user_id, group_id@),
{
    let mut kept: Vec<Membership> = Vec::new();
    let mut i: usize = 0;
    while i < db.memberships.len()
        invariant
            i <= db.memberships@.len(),
            *db == *old(db),
            kept@ == memberships_without(db.memberships@.take(i as int), user_id, group_id@),
        decreases db.memberships@.len() - i,
    {
        proof {
            assert(db.memberships@.take(i + 1).drop_last() =~= db.memberships@.take(i as int));
        }
        let m = &db.memberships[i];
        if !(m.user_id == user_id && same_text(m.group_id.as_str(), group_id)) {
            kept.push(Membership { user_id: m.user_id, group_id: m.group_id.clone() });
        }
        i = i + 1;
    }
    proof {
        assert(db.memberships@.take(i as int) =~= db.memberships@);
    }
    db.memberships = kept;
}
/// A user who was taken out of a group is no member of it, and every other
/// membership is as it was.
pub proof fn law_removed_is_no_member(
    v: Seq<Membership>,
    user_id: i64,
    group_id: Seq<char>,
    m: Membership,
)
    ensures
        memberships_without(v, user_id, group_id).contains(m) <==> v.contains(m) && !(m.user_id
            == user_id && m.group_id@ == group_id),
    decreases v.len(),
{
    if v.len() > 0 {
        let front = v.drop_last();
        let f = memberships_without(front, user_id, group_id);
        let all = memberships_without(v, user_id, group_id);
        law_removed_is_no_member(front, user_id, group_id, m);
        if v.contains(m) {
            let k = choose|k: int| 0 <= k < v.len() && v[k] == m;
            if k < front.len() {
                assert(front[k] == m);
            }
        }
        if front.contains(m) {
            let k = choose|k: int| 0 <= k < front.len() && front[k] == m;
            assert(v[k] == m);
        }
        if f.contains(m) {
            let k = choose|k: int| 0 <= k < f.len() && f[k] == m;
            assert(all[k] == m);
        }
        if all.contains(m) {
            let k = choose|k: int| 0 <= k < all.len() && all[k] == m;
            if k < f.len() {
                assert(f[k] == m);
            } else {
                assert(v[v.len() - 1] == m);
            }
        }
        if v.last() == m && !(m.user_id == user_id && m.group_id@ == group_id) {
            assert(all[f.len() as int] == m);
        }
    }
}


// ── Listing grants ──
/// The entry of a grant on a connection; an unknown permission shows as
/// `Read`.
pub open spec fn entry_of(g: Grant) -> PermissionEntry {
    PermissionEntry {
        entity_id: g.entity_id,
        entity_type: g.entity_type,
        permission: match object_permission(g.permission@) {
            Some(p) => p,
            None => ObjectPermission::Read,
        },
    }
}

/// The entries of all grants on a connection.
pub open spec fn entries_on(grants: Seq<Grant>, connection_id: Seq<char>) -> Seq<PermissionEntry>
    decreases grants.len(),
{
    if grants.len() == 0 {
        Seq::empty()
    } else {
        let front = entries_on(grants.drop_last(), connection_id);
        let g = grants.last();
        if g.object_type == ObjectType::Connection && g.object_id@ == connection_id {
            front.push(entry_of(g))
        } else {
            front
        }
    }
}

/// Whether entry `a` comes before `b`: groups before users, then by id.
pub open spec fn entry_less(a: PermissionEntry, b: PermissionEntry) -> bool {
    if a.entity_type == b.entity_type {
        text_less(a.entity_id@, b.entity_id@)
    } else {
        a.entity_type == EntityType::Group
    }
}

/// Entries in order.
pub open spec fn entries_ordered(v: Seq<PermissionEntry>) -> bool {
    forall|i: int, j: int| 0 <= i < j < v.len() ==> !entry_less(v[j], v[i])
}

fn entry_before(a: &PermissionEntry, b: &PermissionEntry) -> (r: bool)
    ensures
        r == entry_less(*a, *b),
{
    if a.entity_type == b.entity_type {
        comes_before(a.entity_id.as_str(), b.entity_id.as_str())
    } else {
        a.entity_type == EntityType::Group
    }
}

proof fn lemma_entry_order(a: PermissionEntry, b: PermissionEntry, c: PermissionEntry)
    ensures
        !entry_less(a, a),
        entry_less(a, b) && entry_less(b, c) ==> entry_less(a, c),
{
    crate::text::lemma_text_total(a.entity_id@, a.entity_id@);
    if entry_less(a, b) && entry_less(b, c) && a.entity_type == b.entity_type && b.entity_type
        == c.entity_type {
        crate::text::lemma_text_transitive(a.entity_id@, b.entity_id@, c.entity_id@);
    }
}

/// List all permissions for a connection: groups before users, each by id.
pub fn list_connection_permissions(db: &Rbac, connection_id: &str) -> (r: Vec<PermissionEntry>)
    ensures
        entries_ordered(r@),
        r@.to_multiset() == entries_on(db.grants@, connection_id@).to_multiset(),
{
    let mut out: Vec<PermissionEntry> = Vec::new();
    let mut i: usize = 0;
    while i < db.grants.len()
        invariant
            i <= db.grants@.len(),
            entries_ordered(out@),
            out@.to_multiset() == entries_on(
                db.grants@.take(i as int),
                connection_id@,
            ).to_multiset(),
        decreases db.grants@.len() - i,
    {
        let g = &db.grants[i];
        proof {
            assert(db.grants@.take(i + 1).drop_last() =~= db.grants@.take(i as int));
        }
        if g.object_type == ObjectType::Connection && same_text(
            g.object_id.as_str(),
            connection_id,
        ) {
            let e = PermissionEntry {
                entity_id: g.entity_id.clone(),
                entity_type: g.entity_type,
                permission: match ObjectPermission::parse(g.permission.as_str()) {
                    Some(p) => p,
                    None => ObjectPermission::Read,
                },
            };
            let ghost before = out@;
            let mut at: usize = 0;
            while at < out.len() && !entry_before(&e, &out[at])
                invariant
                    at <= out@.len(),
                    out@ == before,
                    forall|j: int| 0 <= j < at ==> !entry_less(e, #[trigger] before[j]),
                decreases out@.len() - at,
            {
                at = at + 1;
            }
            out.insert(at, e);
            proof {
                broadcast use vstd::seq_lib::group_to_multiset_ensures;

                lemma_insert_multiset(before, at as int, e);
                let o = out@;
                assert(o == before.insert(at as int, e));
                assert forall|a: int, b: int| 0 <= a < b < o.len() implies !entry_less(
                    o[b],
                    o[a],
                ) by {
                    if b < at {
                        assert(!entry_less(before[b], before[a]));
                    } else if b == at {
                        assert(!entry_less(e, before[a]));
                    } else if a < at {
                        assert(!entry_less(before[b - 1], before[a]));
                    } else if a == at {
                        assert(entry_less(e, before[at as int]));
                        lemma_entry_order(before[b - 1], e, before[at as int]);
                        lemma_entry_order(before[at as int], e, e);
                        if b - 1 > at {
                            assert(!entry_less(before[b - 1], before[at as int]));
                        }
                    } else {
                        assert(!entry_less(before[b - 1], before[a - 1]));
                    }
                }
            }
        }
        i = i + 1;
    }
    proof {
        assert(db.grants@.take(i as int) =~= db.grants@);
    }
    out
}

// ── Custom roles ──
/// The position of a role by its id.
pub open spec fn role_at(roles: Seq<CustomRole>, id: Seq<char>) -> Option<int>
    decreases roles.len(),
{
    if roles.len() == 0 {
        None
    } else if roles[0].id@ == id {
        Some(0)
    } else {
        match role_at(roles.skip(1), id) {
            Some(i) => Some(i + 1),
            None => None,
        }
    }
}

/// Whether a role other than the one at `except` has the id or the name.
pub open spec fn role_taken(
    roles: Seq<CustomRole>,
    except: Option<int>,
    id: Seq<char>,
    name: Seq<char>,
) -> bool {
    exists|i: int|
        0 <= i < roles.len() && except != Some(i) && ((#[trigger] roles[i]).id@ == id
            || roles[i].name@ == name)
}

proof fn lemma_role_at(roles: Seq<CustomRole>, id: Seq<char>)
    ensures
        match role_at(roles, id) {
            Some(i) => 0 <= i < roles.len() && roles[i].id@ == id && forall|j: int|
                0 <= j < i ==> (#[trigger] roles[j]).id@ != id,
            None => forall|j: int| 0 <= j < roles.len() ==> (#[trigger] roles[j]).id@ != id,
        },
    decreases roles.len(),
{
    if roles.len() > 0 && roles[0].id@ != id {
        lemma_role_at(roles.skip(1), id);
        assert forall|j: int|
            0 <= j < (match role_at(roles, id) {
                Some(i) => i,
                None => roles.len() as int,
            }) implies (#[trigger] roles[j]).id@ != id by {
            if j > 0 {
                assert(roles[j] == roles.skip(1)[j - 1]);
            }
        }
    }
}

fn find_role(roles: &Vec<CustomRole>, id: &str) -> (r: Option<usize>)
    ensures
        match r {
            Some(i) => role_at(roles@, id@) == Some(i as int) && i < roles@.len()
                && roles@[i as int].id@ == id@,
            None => role_at(roles@, id@) is None,
        },
{
    let mut i: usize = 0;
    while i < roles.len()
        invariant
            i <= roles@.len(),
            forall|j: int| 0 <= j < i ==> (#[trigger] roles@[j]).id@ != id@,
        decreases roles@.len() - i,
    {
        if same_text(roles[i].id.as_str(), id) {
            proof {
                lemma_role_at(roles@, id@);
            }
            return Some(i);
        }
        i = i + 1;
    }
    proof {
        lemma_role_at(roles@, id@);
    }
    None
}

/// Whether `r` is a copy of `role`.
pub open spec fn same_role(r: CustomRole, role: CustomRole) -> bool {
    r.id == role.id && r.name == role.name && r.description == role.description
        && r.permissions@ == role.permissions@ && r.created_at == role.created_at
}

fn copy_role(role: &CustomRole) -> (r: CustomRole)
    ensures
        same_role(r, *role),
{
    CustomRole {
        id: role.id.clone(),
        name: role.name.clone(),
        description: copy_opt(&role.description),
        permissions: copy_texts(&role.permissions),
        created_at: role.created_at.clone(),
    }
}

/// Fetch one custom role by id (None when it does not exist).
pub fn get_custom_role(db: &Rbac, id: &str) -> (r: Option<CustomRole>)
    ensures
        match role_at(db.roles@, id@) {
            Some(i) => r is Some && same_role(r->0, db.roles@[i]),
            None => r is None,
        },
{
    match find_role(&db.roles, id) {
        Some(i) => Some(copy_role(&db.roles[i])),
        None => None,
    }
}

/// Fetch one custom role by name (None when it does not exist).
pub fn get_custom_role_by_name(db: &Rbac, name: &str) -> (r: Option<CustomRole>)
    ensures
        match r {
            Some(role) => exists|i: int|
                0 <= i < db.roles@.len() && (#[trigger] db.roles@[i]).name@ == name@ && same_role(
                    role,
                    db.roles@[i],
                ),
            None => forall|i: int|
                0 <= i < db.roles@.len() ==> (#[trigger] db.roles@[i]).name@ != name@,
        },
{
    let mut i: usize = 0;
    while i < db.roles.len()
        invariant
            i <= db.roles@.len(),
            forall|j: int| 0 <= j < i ==> (#[trigger] db.roles@[j]).name@ != name@,
        decreases db.roles@.len() - i,
    {
        if same_text(db.roles[i].name.as_str(), name) {
            return Some(copy_role(&db.roles[i]));
        }
        i = i + 1;
    }
    None
}

/// The names of roles.
pub open spec fn role_names(v: Seq<CustomRole>) -> Seq<Seq<char>> {
    Seq::new(v.len(), |i: int| v[i].name@)
}

/// Whether `r` lists the roles: each is a copy of one, and each has a copy.
pub open spec fn lists_roles(r: Seq<CustomRole>, roles: Seq<CustomRole>) -> bool {
    &&& r.len() == roles.len()
    &&& forall|i: int| 0 <= i < r.len() ==> copied(#[trigger] r[i], roles)
    &&& forall|k: int| 0 <= k < roles.len() ==> has_copy(r, #[trigger] roles[k])
}

/// Whether a role is a copy of one of the list.
pub open spec fn copied(r: CustomRole, roles: Seq<CustomRole>) -> bool {
    exists|k: int| 0 <= k < roles.len() && same_role(r, #[trigger] roles[k])
}

/// Whether the list has a copy of a role.
pub open spec fn has_copy(r: Seq<CustomRole>, role: CustomRole) -> bool {
    exists|i: int| 0 <= i < r.len() && same_role(#[trigger] r[i], role)
}

/// A list of copies stays one where a role and its copy are added.
proof fn lemma_lists_insert(
    r: Seq<CustomRole>,
    roles: Seq<CustomRole>,
    at: int,
    g: CustomRole,
    role: CustomRole,
)
    requires
        lists_roles(r, roles),
        0 <= at <= r.len(),
        same_role(g, role),
    ensures
        lists_roles(r.insert(at, g), roles.push(role)),
{
    let o = r.insert(at, g);
    let t = roles.push(role);
    assert forall|k: int| 0 <= k < o.len() implies copied(#[trigger] o[k], t) by {
        if k == at {
            assert(same_role(o[k], t[roles.len() as int]));
        } else {
            let b = if k < at {
                k
            } else {
                k - 1
            };
            assert(o[k] == r[b]);
            assert(copied(r[b], roles));
            let m = choose|m: int| 0 <= m < roles.len() && same_role(r[b], #[trigger] roles[m]);
            assert(t[m] == roles[m]);
        }
    }
    assert forall|k: int| 0 <= k < t.len() implies has_copy(o, #[trigger] t[k]) by {
        if k < roles.len() {
            assert(t[k] == roles[k]);
            assert(has_copy(r, roles[k]));
            let m = choose|m: int| 0 <= m < r.len() && same_role(#[trigger] r[m], roles[k]);
            let n = if m < at {
                m
            } else {
                m + 1
            };
            assert(o[n] == r[m]);
        } else {
            assert(same_role(o[at], t[k]));
        }
    }
}

/// Put a role into a list that is ordered by name.
fn insert_by_name(out: &mut Vec<CustomRole>, g: CustomRole) -> (at: usize)
    requires
        ordered(role_names(old(out)@)),
    ensures
        at <= old(out)@.len(),
        final(out)@ == old(out)@.insert(at as int, g),
        ordered(role_names(final(out)@)),
{
    let ghost before = out@;
    let mut at: usize = 0;
    while at < out.len() && !comes_before(g.name.as_str(), out[at].name.as_str())
        invariant
            at <= out@.len(),
            out@ == before,
            forall|j: int| 0 <= j < at ==> !text_less(g.name@, #[trigger] role_names(before)[j]),
        decreases out@.len() - at,
    {
        at = at + 1;
    }
    out.insert(at, g);
    proof {
        let names = role_names(before);
        lemma_ordered_insert(names, at as int, g.name@);
        assert(role_names(out@) =~= names.insert(at as int, g.name@));
    }
    at
}

/// List all custom roles with their permission bundles, by name.
pub fn list_custom_roles(db: &Rbac) -> (r: Vec<CustomRole>)
    ensures
        ordered(role_names(r@)),
        lists_roles(r@, db.roles@),
{
    let mut out: Vec<CustomRole> = Vec::new();
    let mut i: usize = 0;
    while i < db.roles.len()
        invariant
            i <= db.roles@.len(),
            ordered(role_names(out@)),
            lists_roles(out@, db.roles@.take(i as int)),
        decreases db.roles@.len() - i,
    {
        let g = copy_role(&db.roles[i]);
        let ghost before = out@;
        let at = insert_by_name(&mut out, g);
        proof {
            let t0 = db.roles@.take(i as int);
            assert(db.roles@.take(i + 1) =~= t0.push(db.roles@[i as int]));
            lemma_lists_insert(before, t0, at as int, g, db.roles@[i as int]);
        }
        i = i + 1;
    }
    proof {
        assert(db.roles@.take(i as int) =~= db.roles@);
    }
    out
}

/// Whether a permission bundle is the distinct names of a list, in order.
pub open spec fn bundle_of(bundle: Seq<String>, permissions: Seq<String>) -> bool {
    rising(texts(bundle)) && forall|x: Seq<char>|
        texts(bundle).contains(x) <==> texts(permissions).contains(x)
}

/// All rows but the roles are the same.
pub open spec fn same_but_roles(a: Rbac, b: Rbac) -> bool {
    a.grants == b.grants && a.groups == b.groups && a.memberships == b.memberships && a.folders
        == b.folders
}

fn role_is_taken(roles: &Vec<CustomRole>, except: Option<usize>, id: &str, name: &str) -> (r: bool)
    ensures
        r == role_taken(
            roles@,
            match except {
                Some(e) => Some(e as int),
                None => None,
            },
            id@,
            name@,
        ),
{
    let ghost skip: Option<int> = match except {
        Some(e) => Some(e as int),
        None => None,
    };
    let mut i: usize = 0;
    while i < roles.len()
        invariant
            i <= roles@.len(),
            skip == (match except {
                Some(e) => Some(e as int),
                None => None,
            }),
            forall|j: int|
                0 <= j < i && skip != Some(j) ==> (#[trigger] roles@[j]).id@ != id@
                    && roles@[j].name@ != name@,
        decreases roles@.len() - i,
    {
        let own = match except {
            Some(e) => e == i,
            None => false,
        };
        if !own && (same_text(roles[i].id.as_str(), id) || same_text(roles[i].name.as_str(), name)) {
            proof {
                assert(skip != Some(i as int));
                assert(roles@[i as int].id@ == id@ || roles@[i as int].name@ == name@);
            }
            return true;
        }
        i = i + 1;
    }
    false
}

/// Create a custom role under a fresh id. Ids and names are unique; repeated
/// permissions count once.
pub fn create_custom_role(
    db: &mut Rbac,
    id: String,
    name: &str,
    description: Option<&str>,
    permissions: &Vec<String>,
    created_at: String,
) -> (r: Result<(), Duplicate>)
    ensures
        same_but_roles(*old(db), *final(db)),
        final(db).users == old(db).users,
        match r {
            Ok(_) => {
                &&& !role_taken(old(db).roles@, None, id@, name@)
                &&& final(db).roles@.len() == old(db).roles@.len() + 1
                &&& final(db).roles@.drop_last() == old(db).roles@
                &&& final(db).roles@.last().id == id
                &&& final(db).roles@.last().name@ == name@
                &&& opt_text(final(db).roles@.last().description) == opt_str(description)
                &&& bundle_of(final(db).roles@.last().permissions@, permissions@)
                &&& final(db).roles@.last().created_at == created_at
            },
            Err(_) => role_taken(old(db).roles@, None, id@, name@) && final(db).roles@
                == old(db).roles@,
        },
{
    if role_is_taken(&db.roles, None, id.as_str(), name) {
        return Err(Duplicate);
    }
    let bundle = sorted_set(permissions);
    let ghost before = db.roles@;
    db.roles.push(
        CustomRole {
            id,
            name: name.to_owned(),
            description: own_opt(description),
            permissions: bundle,
            created_at,
        },
    );
    proof {
        assert(db.roles@.drop_last() =~= before);
    }
    Ok(())
}

/// Update a custom role's name and description and replace its permission
/// bundle. Returns false when the role does not exist.
pub fn update_custom_role(
    db: &mut Rbac,
    id: &str,
    name: &str,
    description: Option<&str>,
    permissions: &Vec<String>,
) -> (r: Result<bool, Duplicate>)
    ensures
        same_but_roles(*old(db), *final(db)),
        final(db).users == old(db).users,
        match role_at(old(db).roles@, id@) {
            None => r == Ok::<bool, Duplicate>(false) && final(db).roles@ == old(db).roles@,
            Some(i) => if exists|k: int|
                0 <= k < old(db).roles@.len() && k != i && (#[trigger] old(db).roles@[k]).name@
                    == name@ {
                r is Err && final(db).roles@ == old(db).roles@
            } else {
                &&& r == Ok::<bool, Duplicate>(true)
                &&& final(db).roles@ == old(db).roles@.update(i, final(db).roles@[i])
                &&& final(db).roles@[i].id == old(db).roles@[i].id
                &&& final(db).roles@[i].name@ == name@
                &&& opt_text(final(db).roles@[i].description) == opt_str(description)
                &&& bundle_of(final(db).roles@[i].permissions@, permissions@)
                &&& final(db).roles@[i].created_at == old(db).roles@[i].created_at
            },
        },
{
    let i: usize = match find_role(&db.roles, id) {
        Some(i) => i,
        None => return Ok(false),
    };
    let mut k: usize = 0;
    while k < db.roles.len()
        invariant
            k <= db.roles@.len(),
            *db == *old(db),
            role_at(old(db).roles@, id@) == Some(i as int),
            forall|j: int|
                0 <= j < k && j != i ==> (#[trigger] old(db).roles@[j]).name@ != name@,
        decreases db.roles@.len() - k,
    {
        if k != i && same_text(db.roles[k].name.as_str(), name) {
            proof {
                assert(old(db).roles@[k as int].name@ == name@);
            }
            return Err(Duplicate);
        }
        k = k + 1;
    }
    let bundle = sorted_set(permissions);
    let role = CustomRole {
        id: db.roles[i].id.clone(),
        name: name.to_owned(),
        description: own_opt(description),
        permissions: bundle,
        created_at: db.roles[i].created_at.clone(),
    };
    db.roles[i] = role;
    Ok(true)
}

/// A user without a deleted role.
pub open spec fn role_cleared(u: RbacUser, id: Seq<char>) -> RbacUser {
    if opt_text(u.custom_role_id) == Some(id) {
        RbacUser { custom_role_id: None, ..u }
    } else {
        u
    }
}

fn copy_user(u: &RbacUser) -> (r: RbacUser)
    ensures
        r == *u,
{
    RbacUser { id: u.id, email: u.email.clone(), custom_role_id: copy_opt(&u.custom_role_id) }
}

/// Delete a custom role: no user has it afterwards. Returns false when the
/// role does not exist.
pub fn delete_custom_role(db: &mut Rbac, id: &str) -> (r: bool)
    ensures
        same_but_roles(*old(db), *final(db)),
        final(db).users@ == old(db).users@.map_values(|u: RbacUser| role_cleared(u, id@)),
        match role_at(old(db).roles@, id@) {
            Some(i) => r && final(db).roles@ == old(db).roles@.remove(i),
            None => !r && final(db).roles@ == old(db).roles@,
        },
{
    let mut kept: Vec<RbacUser> = Vec::new();
    let mut i: usize = 0;
    while i < db.users.len()
        invariant
            i <= db.users@.len(),
            *db == *old(db),
            kept@.len() == i,
            forall|j: int| 0 <= j < i ==> #[trigger] kept@[j] == role_cleared(db.users@[j], id@),
        decreases db.users@.len() - i,
    {
        let mut u = copy_user(&db.users[i]);
        if same_opt(borrow_opt(&u.custom_role_id), Some(id)) {
            u.custom_role_id = None;
        }
        kept.push(u);
        i = i + 1;
    }
    proof {
        assert(kept@ =~= db.users@.map_values(|u: RbacUser| role_cleared(u, id@)));
    }
    db.users = kept;
    match find_role(&db.roles, id) {
        Some(at) => {
            db.roles.remove(at);
            true
        },
        None => false,
    }
}

/// A user with another role.
pub open spec fn role_set(
    u: RbacUser,
    after: RbacUser,
    email: Seq<char>,
    role: Option<Seq<char>>,
) -> bool {
    if u.email@ == email {
        after.id == u.id && after.email == u.email && opt_text(after.custom_role_id) == role
    } else {
        after == u
    }
}

/// Assign (or clear, with `None`) a user's custom role by email. Returns
/// false when the user does not exist.
pub fn set_user_custom_role(db: &mut Rbac, email: &str, role_id: Option<&str>) -> (r: bool)
    ensures
        same_but_roles(*old(db), *final(db)),
        final(db).roles == old(db).roles,
        final(db).users@.len() == old(db).users@.len(),
        forall|i: int|
            0 <= i < final(db).users@.len() ==> role_set(
                old(db).users@[i],
                #[trigger] final(db).users@[i],
                email@,
                opt_str(role_id),
            ),
        r == exists|i: int|
            0 <= i < old(db).users@.len() && (#[trigger] old(db).users@[i]).email@ == email@,
{
    let mut kept: Vec<RbacUser> = Vec::new();
    let mut hit = false;
    let mut i: usize = 0;
    while i < db.users.len()
        invariant
            i <= db.users@.len(),
            *db == *old(db),
            kept@.len() == i,
            forall|j: int|
                0 <= j < i ==> role_set(
                    db.users@[j],
                    #[trigger] kept@[j],
                    email@,
                    opt_str(role_id),
                ),
            hit == exists|j: int| 0 <= j < i && (#[trigger] db.users@[j]).email@ == email@,
        decreases db.users@.len() - i,
    {
        let mut u = copy_user(&db.users[i]);
        if same_text(u.email.as_str(), email) {
            u.custom_role_id = own_opt(role_id);
            hit = true;
            proof {
                assert(db.users@[i as int].email@ == email@);
            }
        }
        kept.push(u);
        i = i + 1;
    }
    db.users = kept;
    hit
}

/// Whether a user's custom role has a permission.
pub open spec fn has_custom(db: Rbac, user_id: i64, permission: Seq<char>) -> bool {
    exists|i: int, k: int|
        0 <= i < db.users@.len() && 0 <= k < db.roles@.len() && (#[trigger] db.users@[i]).id
            == user_id && opt_text(db.users@[i].custom_role_id) == Some(
            (#[trigger] db.roles@[k]).id@,
        ) && texts(db.roles@[k].permissions@).contains(permission)
}

/// Fetch the custom role assigned to a user (None when unassigned).
pub fn user_custom_role(db: &Rbac, user_id: i64) -> (r: Option<CustomRole>)
    ensures
        match r {
            Some(role) => exists|i: int, k: int|
                0 <= i < db.users@.len() && 0 <= k < db.roles@.len() && (#[trigger] db.users@[i]).id
                    == user_id && opt_text(db.users@[i].custom_role_id) == Some(
                    (#[trigger] db.roles@[k]).id@,
                ) && same_role(role, db.roles@[k]),
            None => forall|i: int, k: int|
                0 <= i < db.users@.len() && 0 <= k < db.roles@.len() && (#[trigger] db.users@[i]).id
                    == user_id ==> opt_text(db.users@[i].custom_role_id) != Some(
                    (#[trigger] db.roles@[k]).id@,
                ),
        },
{
    let mut i: usize = 0;
    while i < db.users.len()
        invariant
            i <= db.users@.len(),
            forall|j: int, k: int|
                0 <= j < i && 0 <= k < db.roles@.len() && (#[trigger] db.users@[j]).id == user_id
                    ==> opt_text(db.users@[j].custom_role_id) != Some(
                    (#[trigger] db.roles@[k]).id@,
                ),
        decreases db.users@.len() - i,
    {
        if db.users[i].id == user_id {
            if let Some(id) = &db.users[i].custom_role_id {
                if let Some(k) = find_role(&db.roles, id.as_str()) {
                    return Some(copy_role(&db.roles[k]));
                }
                proof {
                    lemma_role_at(db.roles@, id@);
                }
            }
        }
        i = i + 1;
    }
    None
}

/// True when the user's custom role bundle contains the permission.
pub fn user_has_custom_permission(db: &Rbac, user_id: i64, permission: &str) -> (r: bool)
    ensures
        r == has_custom(*db, user_id, permission@),
{
    let mut i: usize = 0;
    while i < db.users.len()
        invariant
            i <= db.users@.len(),
            forall|j: int, k: int|
                0 <= j < i && 0 <= k < db.roles@.len() && (#[trigger] db.users@[j]).id == user_id
                    && opt_text(db.users@[j].custom_role_id) == Some((#[trigger] db.roles@[k]).id@)
                    ==> !texts(db.roles@[k].permissions@).contains(permission@),
        decreases db.users@.len() - i,
    {
        if db.users[i].id == user_id {
            if let Some(id) = &db.users[i].custom_role_id {
                let mut k: usize = 0;
                while k < db.roles.len()
                    invariant
                        i < db.users@.len(),
                        k <= db.roles@.len(),
                        db.users@[i as int].id == user_id,
                        db.users@[i as int].custom_role_id == Some(*id),
                        forall|m: int|
                            0 <= m < k && (#[trigger] db.roles@[m]).id@ == id@ ==> !texts(
                                db.roles@[m].permissions@,
                            ).contains(permission@),
                    decreases db.roles@.len() - k,
                {
                    if same_text(db.roles[k].id.as_str(), id.as_str()) && list_has(
                        &db.roles[k].permissions,
                        permission,
                    ) {
                        proof {
                            assert(db.users@[i as int].id == user_id);
                            assert(db.roles@[k as int].id@ == id@);
                        }
                        return true;
                    }
                    k = k + 1;
                }
            }
        }
        i = i + 1;
    }
    false
}

/// Whether a user has a permission on an object: by their custom role, or by
/// a grant.
pub open spec fn has_object(
    db: Rbac,
    user_id: i64,
    object_type: Seq<char>,
    object_id: Seq<char>,
    permission: ObjectPermission,
) -> bool {
    ||| has_custom(db, user_id, permission.name())
    ||| object_type == "connection"@ && has_on_connection(
        db,
        user_id,
        object_id,
        permission.name(),
    )
    ||| object_type == "connection_group"@ && has_on_group(
        db,
        user_id,
        object_id,
        permission.name(),
    )
}

/// Effective object-permission check: union of the custom role bundle and the
/// grants. Objects of an unknown type have none.
pub fn user_has_object_permission(
    db: &Rbac,
    user_id: i64,
    object_type: &str,
    object_id: &str,
    permission: ObjectPermission,
) -> (r: bool)
    ensures
        r == has_object(*db, user_id, object_type@, object_id@, permission),
{
    proof {
        reveal_strlit("connection");
        reveal_strlit("connection_group");
        assert("connection"@.len() == 10 && "connection_group"@.len() == 16);
    }
    if user_has_custom_permission(db, user_id, permission.as_str()) {
        return true;
    }
    if same_text(object_type, "connection") {
        check_connection_permission(db, user_id, object_id, permission)
    } else if same_text(object_type, "connection_group") {
        check_group_object_permission(db, user_id, object_id, permission)
    } else {
        false
    }
}

/// System-permission check: only the custom role bundle can carry system
/// permissions.
pub fn user_has_system_permission(db: &Rbac, user_id: i64, permission: SystemPermission) -> (r: bool)
    ensures
        r == has_custom(*db, user_id, permission.name()),
{
    user_has_custom_permission(db, user_id, permission.as_str())
}

// ── Identities ──
/// The id of the first user with an email.
pub open spec fn user_by_email(users: Seq<RbacUser>, email: Seq<char>) -> Option<i64>
    decreases users.len(),
{
    if users.len() == 0 {
        None
    } else if users[0].email@ == email {
        Some(users[0].id)
    } else {
        user_by_email(users.skip(1), email)
    }
}

/// Who makes a request.
#[derive(Debug)]
pub enum AuthIdentity {
    /// A user, by email.
    User { is_admin: bool, email: String },
    /// An API key.
    ApiKey { is_admin: bool },
}

impl AuthIdentity {
    /// Whether the identity is an administrator.
    pub open spec fn admin(self) -> bool {
        match self {
            AuthIdentity::User { is_admin, .. } => is_admin,
            AuthIdentity::ApiKey { is_admin } => is_admin,
        }
    }

    /// The user id of the identity, if it is a known user.
    pub open spec fn known_user(self, db: Rbac) -> Option<i64> {
        match self {
            AuthIdentity::User { email, .. } => user_by_email(db.users@, email@),
            AuthIdentity::ApiKey { .. } => None,
        }
    }

    fn is_admin(&self) -> (r: bool)
        ensures
            r == self.admin(),
    {
        match self {
            AuthIdentity::User { is_admin, .. } => *is_admin,
            AuthIdentity::ApiKey { is_admin } => *is_admin,
        }
    }
}

/// Numeric id for a user identity (None for API keys and unknown users).
pub fn identity_user_id(db: &Rbac, identity: &AuthIdentity) -> (r: Option<i64>)
    ensures
        r == identity.known_user(*db),
{
    let email = match identity {
        AuthIdentity::User { email, .. } => email.as_str(),
        AuthIdentity::ApiKey { .. } => return None,
    };
    let mut i: usize = 0;
    proof {
        assert(db.users@.skip(0) =~= db.users@);
    }
    while i < db.users.len()
        invariant
            i <= db.users@.len(),
            identity.known_user(*db) == user_by_email(db.users@.skip(i as int), email@),
        decreases db.users@.len() - i,
    {
        proof {
            assert(db.users@.skip(i as int).skip(1) =~= db.users@.skip(i + 1));
        }
        if same_text(db.users[i].email.as_str(), email) {
            return Some(db.users[i].id);
        }
        i = i + 1;
    }
    None
}

/// Identity-level system-permission check: admin short-circuits, otherwise
/// the user's custom role bundle decides (fail closed for unknown users).
pub fn identity_has_system_permission(
    db: &Rbac,
    identity: &AuthIdentity,
    permission: SystemPermission,
) -> (r: bool)
    ensures
        r == (identity.admin() || (identity.known_user(*db) is Some && has_custom(
            *db,
            identity.known_user(*db)->0,
            permission.name(),
        ))),
{
    if identity.is_admin() {
        return true;
    }
    match identity_user_id(db, identity) {
        Some(user_id) => user_has_system_permission(db, user_id, permission),
        None => false,
    }
}

/// Identity-level effective object-permission check; admin short-circuits.
pub fn identity_has_object_permission(
    db: &Rbac,
    identity: &AuthIdentity,
    object_type: &str,
    object_id: &str,
    permission: ObjectPermission,
) -> (r: bool)
    ensures
        r == (identity.admin() || (identity.known_user(*db) is Some && has_object(
            *db,
            identity.known_user(*db)->0,
            object_type@,
            object_id@,
            permission,
        ))),
{
    if identity.is_admin() {
        return true;
    }
    match identity_user_id(db, identity) {
        Some(user_id) => user_has_object_permission(
            db,
            user_id,
            object_type,
            object_id,
            permission,
        ),
        None => false,
    }
}

/// Identity-level custom-bundle check; admin short-circuits.
pub fn identity_has_custom_permission(
    db: &Rbac,
    identity: &AuthIdentity,
    permission: &str,
) -> (r: bool)
    ensures
        r == (identity.admin() || (identity.known_user(*db) is Some && has_custom(
            *db,
            identity.known_user(*db)->0,
            permission@,
        ))),
{
    if identity.is_admin() {
        return true;
    }
    match identity_user_id(db, identity) {
        Some(user_id) => user_has_custom_permission(db, user_id, permission),
        None => false,
    }
}

/// Once a custom role is deleted nobody has a permission by it: no user
/// refers to its id any more.
pub proof fn law_deleted_role_gives_nothing(users: Seq<RbacUser>, id: Seq<char>, i: int)
    requires
        0 <= i < users.len(),
    ensures
        opt_text(users.map_values(|u: RbacUser| role_cleared(u, id))[i].custom_role_id) != Some(id),
{
}

} // verus!
