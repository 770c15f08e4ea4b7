use persea::branding::{html_escape, page_key, rewrite_branding, wants_html};

#[test]
fn test_rewrite_branding_title() {
    let html = "<title>persea - Sessions</title>";
    assert_eq!(
        rewrite_branding(html, "MyGateway", None),
        "<title>MyGateway - Sessions</title>"
    );
}

#[test]
fn test_rewrite_branding_h1() {
    let html = r#"<h1 style="display:inline">persea</h1>"#;
    assert_eq!(
        rewrite_branding(html, "MyGateway", None),
        r#"<h1 style="display:inline">MyGateway</h1>"#
    );
}

#[test]
fn test_rewrite_branding_logo() {
    let html = r#"<img id="site-logo" src="/logo.svg" style="max-height:40px">"#;
    assert_eq!(
        rewrite_branding(html, "persea", Some("https://example.com/logo.png")),
        r#"<img id="site-logo" src="https://example.com/logo.png" style="max-height:40px">"#
    );
}

#[test]
fn test_rewrite_branding_noop() {
    let html = "<title>persea</title><h1>persea</h1>";
    assert_eq!(rewrite_branding(html, "persea", None), html);
}

#[test]
fn pages_in_their_brand() {
    // Titles are escaped.
    {
        assert_eq!(
            html_escape("a & b <c> \"d\" 'e'"),
            "a &amp; b &lt;c&gt; &quot;d&quot; &#x27;e&#x27;"
        );
        assert_eq!(html_escape("&lt;"), "&amp;lt;");
        assert_eq!(
            rewrite_branding("<title>persea</title>", "<b>", None),
            "<title>&lt;b&gt;</title>"
        );
    }
    // Page keys.
    {
        assert_eq!(page_key("/"), "index.html");
        assert_eq!(page_key(""), "index.html");
        assert_eq!(page_key("//index.html"), "index.html");
        assert_eq!(page_key("/admin/users.html"), "admin/users.html");
    }
    // Error pages are for browsers.
    {
        assert!(wants_html("/page.html", Some("text/html")));
        assert!(wants_html("/page.html", Some("application/xml,text/html;q=0.9")));
        assert!(!wants_html("/page.html", Some("application/json")));
        assert!(!wants_html("/page.html", None));
        assert!(!wants_html("/api/data", Some("text/html")));
        assert!(wants_html("/api", Some("text/html")));
    }
}
