use persea::role::{is_valid_role, role_level, Role};

#[test]
fn roles_by_name() {
    for (role, name, level) in [
        (Role::Admin, "admin", 4),
        (Role::PowerUser, "poweruser", 3),
        (Role::Operator, "operator", 2),
        (Role::Viewer, "viewer", 1),
    ] {
        assert_eq!(role.as_str(), name);
        assert_eq!(role.level(), level);
        assert_eq!(Role::from_name(name), Ok(role));
        assert_eq!(role_level(name), level);
        assert!(is_valid_role(name));
        assert!(Role::is_valid(name));
    }
    assert_eq!(role_level("root"), 0);
    assert!(!is_valid_role("Admin"));
    assert_eq!(Role::from_name("root"), Err("unknown role: root".to_string()));
}
