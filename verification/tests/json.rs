use persea::json::{member, read_member, read_string, Json};

#[test]
fn strings_and_members() {
    // Strings are unescaped.
    {
        assert_eq!(read_string(r#""a\n\u00e9""#).as_deref(), Some("a\n\u{e9}"));
        assert_eq!(read_string("1"), None);
        assert_eq!(read_string("not json"), None);
    }
    // Members of objects.
    {
        let v = Json::Object(vec![
            ("a".to_string(), r#""x""#.to_string()),
            ("b".to_string(), "[1,2]".to_string()),
        ]);
        assert_eq!(member(&v, "b").as_deref(), Some("[1,2]"));
        assert_eq!(read_member(&v, "a").as_deref(), Some("x"));
        assert_eq!(read_member(&v, "b"), None);
        assert_eq!(member(&v, "c"), None);
        assert_eq!(member(&Json::Null, "a"), None);
    }
}
