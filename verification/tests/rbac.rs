use persea::rbac::{
    ab_folder_ancestors, ab_folder_path_for_connection, add_user_to_group,
    check_connection_permission, check_group_object_permission, create_custom_role, create_group,
    delete_custom_role, delete_group, get_custom_role, get_custom_role_by_name,
    grant_connection_permission, grant_group_permission, identity_has_object_permission,
    identity_has_system_permission, identity_user_id, list_connection_permissions,
    list_custom_roles, list_groups, parse_entity_ref, remove_user_from_group,
    revoke_connection_permission, set_user_custom_role, update_custom_role, user_custom_role,
    user_has_custom_permission, user_has_object_permission, user_has_system_permission, AbFolder,
    AuthIdentity, Duplicate, EntityType, ObjectPermission, Rbac, RbacUser, SystemPermission,
};

fn rbac() -> Rbac {
    Rbac {
        groups: Vec::new(),
        memberships: Vec::new(),
        grants: Vec::new(),
        folders: Vec::new(),
        roles: Vec::new(),
        users: Vec::new(),
    }
}

const MEMBER: i64 = 1;
const OUTSIDER: i64 = 2;

fn with_users() -> Rbac {
    let mut db = rbac();
    for (id, email) in [(MEMBER, "member@test.com"), (OUTSIDER, "outsider@test.com")] {
        db.users.push(RbacUser { id, email: email.to_string(), custom_role_id: None });
    }
    db
}

fn folder(db: &mut Rbac, scope: &str, path: &str) {
    db.folders.push(AbFolder { scope: scope.to_string(), path: path.to_string() });
}

#[test]
fn test_permission_as_str_roundtrip() {
    for perm in [
        ObjectPermission::Read,
        ObjectPermission::Connect,
        ObjectPermission::Update,
        ObjectPermission::Delete,
        ObjectPermission::Administer,
    ] {
        assert_eq!(ObjectPermission::parse(perm.as_str()), Some(perm));
    }
}

#[test]
fn test_system_permission_as_str_roundtrip() {
    for perm in [
        SystemPermission::Administer,
        SystemPermission::CreateSession,
        SystemPermission::CreateConnection,
        SystemPermission::CreateConnectionGroup,
        SystemPermission::CreateUserGroup,
        SystemPermission::Audit,
    ] {
        assert_eq!(SystemPermission::parse(perm.as_str()), Some(perm));
    }
}

#[test]
fn custom_roles_and_permissions() {
    // Unknown permission names.
    {
        assert_eq!(ObjectPermission::parse("Read"), None);
        assert_eq!(SystemPermission::parse("create"), None);
    }
    // Custom roles.
    {
        let mut db = with_users();
        let bundle = vec!["audit".to_string(), "create_session".to_string()];
        create_custom_role(
            &mut db,
            "r1".to_string(),
            "auditor",
            Some("reads"),
            &bundle,
            "2026-01-01".to_string(),
        )
        .unwrap();
        assert_eq!(
            create_custom_role(&mut db, "r2".to_string(), "auditor", None, &bundle, String::new()),
            Err(Duplicate)
        );
        assert_eq!(get_custom_role(&db, "r1").unwrap().permissions, bundle);
        assert_eq!(get_custom_role_by_name(&db, "auditor").unwrap().id, "r1");
        assert!(get_custom_role(&db, "r9").is_none());
        assert_eq!(list_custom_roles(&db).len(), 1);

        assert!(!user_has_system_permission(&db, MEMBER, SystemPermission::Audit));
        assert!(set_user_custom_role(&mut db, "member@test.com", Some("r1")));
        assert!(!set_user_custom_role(&mut db, "nobody@test.com", Some("r1")));
        assert_eq!(user_custom_role(&db, MEMBER).unwrap().name, "auditor");
        assert!(user_has_system_permission(&db, MEMBER, SystemPermission::Audit));
        assert!(user_has_custom_permission(&db, MEMBER, "create_session"));
        assert!(!user_has_system_permission(&db, OUTSIDER, SystemPermission::Audit));

        assert_eq!(
            update_custom_role(&mut db, "r1", "auditor", None, &vec!["audit".to_string()]),
            Ok(true)
        );
        assert_eq!(update_custom_role(&mut db, "r9", "x", None, &Vec::new()), Ok(false));
        assert!(!user_has_custom_permission(&db, MEMBER, "create_session"));

        assert!(delete_custom_role(&mut db, "r1"));
        assert!(!user_has_system_permission(&db, MEMBER, SystemPermission::Audit));
        assert!(user_custom_role(&db, MEMBER).is_none());
    }
}

#[test]
fn test_parse_entity_ref() {
    let named = |s: &'static str| {
        let (kind, id) = parse_entity_ref(s);
        (kind.as_str(), id)
    };
    assert_eq!(named("u:42"), ("user", "42"));
    assert_eq!(named("g:abc"), ("group", "abc"));
    assert_eq!(named("bare"), ("user", "bare"));
}

#[test]
fn folder_connect_grant_cascades_to_entries() {
    let mut db = with_users();
    folder(&mut db, "shared", "Clients");
    create_group(&mut db, "gid".to_string(), "devops", None, None).unwrap();
    add_user_to_group(&mut db, MEMBER, "gid");
    grant_group_permission(&mut db, "g:gid", "Clients", ObjectPermission::Connect);

    assert!(
        check_connection_permission(
            &db,
            MEMBER,
            "shared/Clients/web1",
            ObjectPermission::Connect
        ),
        "a Connect grant on the folder must cascade to entries beneath it"
    );
    assert!(
        !check_connection_permission(
            &db,
            OUTSIDER,
            "shared/Clients/web1",
            ObjectPermission::Connect
        ),
        "a user outside the granted group stays denied"
    );
}

#[test]
fn folder_connect_grant_cascades_to_subfolder_entries() {
    let mut db = with_users();
    folder(&mut db, "shared", "Clients");
    folder(&mut db, "shared", "Clients/Acme");
    create_group(&mut db, "gid".to_string(), "devops", None, None).unwrap();
    add_user_to_group(&mut db, MEMBER, "gid");
    grant_group_permission(&mut db, "g:gid", "Clients", ObjectPermission::Connect);

    assert!(
        check_connection_permission(
            &db,
            MEMBER,
            "shared/Clients/Acme/web1",
            ObjectPermission::Connect
        ),
        "a Connect grant on a parent folder must cascade to entries in subfolders"
    );
    assert!(
        !check_connection_permission(
            &db,
            OUTSIDER,
            "shared/Clients/Acme/web1",
            ObjectPermission::Connect
        ),
        "a user outside the granted group stays denied in subfolders"
    );
}

#[test]
fn folders_of_connections() {
    let mut db = rbac();
    folder(&mut db, "shared", "Clients/Acme");
    assert_eq!(
        ab_folder_path_for_connection(&db, "shared/Clients/Acme/web1").as_deref(),
        Some("Clients/Acme")
    );
    assert_eq!(ab_folder_path_for_connection(&db, "shared/Other/web1"), None);
    assert_eq!(ab_folder_path_for_connection(&db, "no-folder"), None);
    assert_eq!(ab_folder_ancestors("a/b/c"), vec!["a/b", "a"]);
    assert!(ab_folder_ancestors("a").is_empty());
}

#[test]
fn grants_come_and_go() {
    let mut db = with_users();
    assert!(!check_connection_permission(&db, MEMBER, "c1", ObjectPermission::Read));
    grant_connection_permission(&mut db, "u:1", "c1", ObjectPermission::Read);
    assert!(check_connection_permission(&db, MEMBER, "c1", ObjectPermission::Read));
    assert!(!check_connection_permission(&db, MEMBER, "c1", ObjectPermission::Update));
    assert!(!check_connection_permission(&db, MEMBER, "c2", ObjectPermission::Read));
    // A second grant of the same permission adds nothing.
    grant_connection_permission(&mut db, "u:1", "c1", ObjectPermission::Read);
    assert_eq!(db.grants.len(), 1);
    assert!(revoke_connection_permission(&mut db, "u:1", "c1", ObjectPermission::Read));
    assert!(!check_connection_permission(&db, MEMBER, "c1", ObjectPermission::Read));
    assert!(!revoke_connection_permission(&mut db, "u:1", "c1", ObjectPermission::Read));
}

#[test]
fn membership_carries_grants() {
    let mut db = with_users();
    create_group(&mut db, "g1".to_string(), "ops", None, Some("on call")).unwrap();
    grant_connection_permission(&mut db, "g:g1", "c1", ObjectPermission::Connect);
    add_user_to_group(&mut db, MEMBER, "g1");
    assert!(check_connection_permission(&db, MEMBER, "c1", ObjectPermission::Connect));
    grant_group_permission(&mut db, "u:2", "folder", ObjectPermission::Read);
    assert!(check_group_object_permission(&db, OUTSIDER, "folder", ObjectPermission::Read));
    remove_user_from_group(&mut db, MEMBER, "g1");
    assert!(!check_connection_permission(&db, MEMBER, "c1", ObjectPermission::Connect));
}

#[test]
fn groups_are_listed_by_name() {
    let mut db = rbac();
    create_group(&mut db, "2".to_string(), "b", None, None).unwrap();
    create_group(&mut db, "1".to_string(), "a", Some("2"), None).unwrap();
    assert_eq!(
        create_group(&mut db, "3".to_string(), "a", None, None),
        Err(Duplicate)
    );
    let names: Vec<String> = list_groups(&db).iter().map(|g| g.name.clone()).collect();
    assert_eq!(names, vec!["a", "b"]);
    assert!(delete_group(&mut db, "1"));
    assert!(!delete_group(&mut db, "1"));
}

#[test]
fn permissions_of_a_connection() {
    let mut db = rbac();
    grant_connection_permission(&mut db, "u:2", "c1", ObjectPermission::Read);
    grant_connection_permission(&mut db, "g:1", "c1", ObjectPermission::Connect);
    grant_connection_permission(&mut db, "u:2", "c2", ObjectPermission::Delete);
    let entries = list_connection_permissions(&db, "c1");
    assert_eq!(entries.len(), 2);
    assert!(entries
        .iter()
        .any(|e| e.entity_type == EntityType::Group && e.permission == ObjectPermission::Connect));
}

#[test]
fn identities() {
    let mut db = with_users();
    grant_connection_permission(&mut db, "u:1", "c1", ObjectPermission::Read);
    let admin = AuthIdentity::ApiKey { is_admin: true };
    let key = AuthIdentity::ApiKey { is_admin: false };
    let member = AuthIdentity::User { is_admin: false, email: "member@test.com".to_string() };
    let stranger = AuthIdentity::User { is_admin: false, email: "nobody@x".to_string() };
    assert_eq!(identity_user_id(&db, &member), Some(MEMBER));
    assert_eq!(identity_user_id(&db, &stranger), None);
    assert_eq!(identity_user_id(&db, &key), None);
    assert!(identity_has_system_permission(&db, &admin, SystemPermission::Audit));
    assert!(!identity_has_system_permission(&db, &member, SystemPermission::Audit));
    let reads = |id: &AuthIdentity| {
        identity_has_object_permission(&db, id, "connection", "c1", ObjectPermission::Read)
    };
    assert!(reads(&admin));
    assert!(reads(&member));
    assert!(!reads(&key));
    assert!(!reads(&stranger));
    assert!(user_has_object_permission(&db, MEMBER, "connection", "c1", ObjectPermission::Read));
    assert!(!user_has_object_permission(&db, MEMBER, "other", "c1", ObjectPermission::Read));
}
