//! Site title and logo in the pages that are served from memory.

use crate::text::{chars, join3, opt_str, replace_all, replaced, same_text};
use vstd::prelude::*;
use vstd::string::*;

verus! {

/// A character as it is written into HTML.
pub open spec fn escaped_char(c: char) -> Seq<char> {
    if c == '&' {
        "&amp;"@
    } else if c == '<' {
        "&lt;"@
    } else if c == '>' {
        "&gt;"@
    } else if c == '"' {
        "&quot;"@
    } else if c == '\'' {
        "&#x27;"@
    } else {
        seq![c]
    }
}

/// A text as it is written into HTML.
pub open spec fn escaped(s: Seq<char>) -> Seq<char>
    decreases s.len(),
{
    if s.len() == 0 {
        Seq::empty()
    } else {
        escaped(s.drop_last()) + escaped_char(s.last())
    }
}

/// HTML-escape a string, so that configured values stay text when they are put
/// into HTML.
pub fn html_escape(s: &str) -> (r: String)
    ensures
        r@ == escaped(s@),
{
    let v = chars(s);
    let mut out = String::new();
    let mut i: usize = 0;
    while i < v.len()
        invariant
            i <= v@.len(),
            v@ == s@,
            out@ == escaped(s@.take(i as int)),
        decreases v@.len() - i,
    {
        let c = v[i];
        proof {
            assert(s@.take(i + 1).drop_last() =~= s@.take(i as int));
        }
        if c == '&' {
            out.append("&amp;");
        } else if c == '<' {
            out.append("&lt;");
        } else if c == '>' {
            out.append("&gt;");
        } else if c == '"' {
            out.append("&quot;");
        } else if c == '\'' {
            out.append("&#x27;");
        } else {
            let ghost before = out@;
            out.push(c);
            proof {
                assert(before.push(c) =~= before + seq![c]);
            }
        }
        i = i + 1;
    }
    proof {
        assert(s@.take(s@.len() as int) =~= s@);
    }
    out
}

/// Whether a character opens or closes a tag or an attribute value.
pub open spec fn is_markup(c: char) -> bool {
    c == '<' || c == '>' || c == '"' || c == '\''
}

/// An escaped text holds no character that opens or closes a tag or an
/// attribute value.
pub proof fn law_escaped_is_text(s: Seq<char>)
    ensures
        forall|i: int| 0 <= i < escaped(s).len() ==> !is_markup(#[trigger] escaped(s)[i]),
    decreases s.len(),
{
    if s.len() > 0 {
        law_escaped_is_text(s.drop_last());
        reveal_strlit("&amp;");
        reveal_strlit("&lt;");
        reveal_strlit("&gt;");
        reveal_strlit("&quot;");
        reveal_strlit("&#x27;");
        let last = escaped_char(s.last());
        assert forall|i: int| 0 <= i < last.len() implies !is_markup(#[trigger] last[i]) by {
        }
        let front = escaped(s.drop_last());
        assert forall|i: int| 0 <= i < escaped(s).len() implies !is_markup(
            #[trigger] escaped(s)[i],
        ) by {
            if i < front.len() {
                assert(escaped(s)[i] == front[i]);
            } else {
                assert(escaped(s)[i] == last[i - front.len()]);
            }
        }
    }
}

/// A text without special characters is written as it is.
pub proof fn law_plain_text_is_kept(s: Seq<char>)
    requires
        forall|i: int| 0 <= i < s.len() ==> !is_markup(#[trigger] s[i]) && s[i] != '&',
    ensures
        escaped(s) == s,
    decreases s.len(),
{
    if s.len() > 0 {
        law_plain_text_is_kept(s.drop_last());
        assert(escaped(s) =~= s.drop_last() + seq![s.last()]);
    }
    assert(escaped(s) =~= s);
}

/// A page with a title in the place of the default one.
pub open spec fn titled(html: Seq<char>, title: Seq<char>) -> Seq<char> {
    let safe = escaped(title);
    let whole = replaced(html, "<title>persea</title>"@, "<title>"@ + safe + "</title>"@);
    let prefix = replaced(whole, "<title>persea - "@, "<title>"@ + safe + " - "@);
    replaced(prefix, ">persea</h1>"@, ">"@ + safe + "</h1>"@)
}

/// A page with a logo in the place of the default one.
pub open spec fn with_logo(html: Seq<char>, url: Seq<char>) -> Seq<char> {
    replaced(html, "src=\"/logo.svg\""@, "src=\""@ + escaped(url) + "\""@)
}

/// A page with the site's branding.
pub open spec fn branded(html: Seq<char>, title: Seq<char>, logo: Option<Seq<char>>) -> Seq<char> {
    let page = if title == "persea"@ {
        html
    } else {
        titled(html, title)
    };
    match logo {
        Some(url) => with_logo(page, url),
        None => page,
    }
}

/// Rewrite branding in HTML: replace the default site title and logo.
pub fn rewrite_branding(html: &str, site_title: &str, logo_url: Option<&str>) -> (r: String)
    ensures
        r@ == branded(html@, site_title@, opt_str(logo_url)),
{
    let mut out = html.to_owned();
    if !same_text(site_title, "persea") {
        let safe_title = html_escape(site_title);
        proof {
            reveal_strlit("<title>persea</title>");
            reveal_strlit("<title>persea - ");
            reveal_strlit(">persea</h1>");
        }
        out = replace_all(
            out.as_str(),
            "<title>persea</title>",
            join3("<title>", safe_title.as_str(), "</title>").as_str(),
        );
        out = replace_all(
            out.as_str(),
            "<title>persea - ",
            join3("<title>", safe_title.as_str(), " - ").as_str(),
        );
        out = replace_all(
            out.as_str(),
            ">persea</h1>",
            join3(">", safe_title.as_str(), "</h1>").as_str(),
        );
    }
    if let Some(url) = logo_url {
        let safe_url = html_escape(url);
        proof {
            reveal_strlit("src=\"/logo.svg\"");
        }
        out = replace_all(
            out.as_str(),
            "src=\"/logo.svg\"",
            join3("src=\"", safe_url.as_str(), "\"").as_str(),
        );
    }
    out
}

/// The default title without a logo leaves every page as it is.
pub proof fn law_default_branding_changes_nothing(html: Seq<char>)
    ensures
        branded(html, "persea"@, None) == html,
{
}

// ── Pages ──
/// A path without its leading slashes.
pub open spec fn without_leading_slashes(path: Seq<char>) -> Seq<char>
    decreases path.len(),
{
    if path.len() > 0 && path[0] == '/' {
        without_leading_slashes(path.skip(1))
    } else {
        path
    }
}

/// The page that a path names; the bare root names the index.
pub open spec fn page_of(path: Seq<char>) -> Seq<char> {
    let name = without_leading_slashes(path);
    if name.len() == 0 {
        "index.html"@
    } else {
        name
    }
}

/// The page that a request's path names.
pub fn page_key(path: &str) -> (r: String)
    ensures
        r@ == page_of(path@),
{
    let v = chars(path);
    let mut i: usize = 0;
    proof {
        assert(path@.skip(0) =~= path@);
    }
    while i < v.len() && v[i] == '/'
        invariant
            i <= v@.len(),
            v@ == path@,
            without_leading_slashes(path@.skip(i as int)) == without_leading_slashes(path@),
        decreases v@.len() - i,
    {
        proof {
            assert(path@.skip(i as int).skip(1) =~= path@.skip(i + 1));
        }
        i = i + 1;
    }
    proof {
        assert(path@.subrange(i as int, path@.len() as int) =~= path@.skip(i as int));
    }
    if i == v.len() {
        "index.html".to_owned()
    } else {
        crate::text::slice_text(&v, i, v.len())
    }
}

/// Whether a failed request is answered with a page: not below `/api/`, and
/// only where the client accepts HTML.
pub open spec fn html_wanted(path: Seq<char>, accept: Option<Seq<char>>) -> bool {
    !"/api/"@.is_prefix_of(path) && accept is Some && crate::text::has_sub(
        accept->0,
        "text/html"@,
    )
}

/// Whether a request that fails gets a styled page (a browser) or JSON (an API
/// client).
pub fn wants_html(path: &str, accept: Option<&str>) -> (r: bool)
    ensures
        r == html_wanted(path@, opt_str(accept)),
{
    match accept {
        Some(a) => !crate::text::starts_with(path, "/api/") && crate::text::contains(
            a,
            "text/html",
        ),
        None => false,
    }
}

} // verus!
