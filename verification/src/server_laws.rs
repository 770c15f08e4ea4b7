//! What the server's decisions and the pages it serves come to.

use crate::branding::{branded, escaped, escaped_char, html_wanted, page_of};
use crate::guacd::{listed, quoted};
use crate::providers_db::DbProvider;
use crate::server::{
    at_least, backend_usable, base_methods, certificate_names, header_texts, is_saml, padded,
    padded_cells, security_header_texts, sign_on_positions, stored_key, stored_keys,
    stored_positions, with_name, Header,
};
use crate::text::{has_sub, replaced};
use vstd::prelude::*;
use vstd::string::*;

verus! {

// ── Providers ──
/// The sign-on buttons are those of the enabled OpenID Connect providers, each
/// once and in their order.
pub proof fn law_sign_on_buttons(providers: Seq<DbProvider>, n: int, k: int, i: int, j: int)
    requires
        0 <= n <= providers.len() <= usize::MAX,
    ensures
        0 <= k < n && k <= usize::MAX ==> (sign_on_positions(providers, n).contains(k as usize)
            <==> providers[k].enabled && providers[k].provider_type@ == "oidc"@),
        0 <= i < sign_on_positions(providers, n).len() ==> sign_on_positions(providers, n)[i] < n,
        0 <= i < j < sign_on_positions(providers, n).len() ==> sign_on_positions(providers, n)[i]
            < sign_on_positions(providers, n)[j],
    decreases n,
{
    if n > 0 {
        law_sign_on_buttons(providers, n - 1, k, i, j);
        let before = sign_on_positions(providers, n - 1);
        let all = sign_on_positions(providers, n);
        law_sign_on_buttons(providers, n - 1, k, before.len() - 1, j);
        law_sign_on_buttons(providers, n - 1, k, i, j);
        if all.len() > before.len() {
            assert(all.last() == n - 1);
            if 0 <= k < n && before.contains(k as usize) {
                let q = choose|q: int| 0 <= q < before.len() && before[q] == k as usize;
                assert(all[q] == k as usize);
            }
            if 0 <= k < n - 1 && all.contains(k as usize) {
                let q = choose|q: int| 0 <= q < all.len() && all[q] == k as usize;
                assert(before[q] == k as usize);
            }
            if k == n - 1 {
                assert(all[before.len() as int] == k as usize);
            }
        }
        if k == n - 1 && before.contains(k as usize) {
            let q = choose|q: int| 0 <= q < before.len() && before[q] == k as usize;
            law_sign_on_buttons(providers, n - 1, k, q, j);
        }
    }
}

/// Every stored provider that is enabled and can be set up is in the chain
/// under its name, unless the configuration or an earlier provider has the
/// name; and only such providers are.
pub proof fn law_chain_is_complete(
    methods: Seq<Seq<char>>,
    providers: Seq<DbProvider>,
    loads: Seq<bool>,
    n: int,
    k: int,
    i: int,
)
    requires
        0 <= n <= providers.len() <= usize::MAX,
        providers.len() == loads.len(),
    ensures
        ({
            let stored = stored_positions(methods, providers, loads, n);
            let keys = stored_keys(providers, stored);
            let t = providers[k].provider_type@;
            &&& keys.len() == stored.len()
            &&& 0 <= i < keys.len() ==> keys[i] == "db-provider-"@
                + providers[stored[i] as int].name@
            &&& 0 <= k < n && providers[k].enabled && (t == "database"@ || (loads[k] && (t
                == "ldap"@ || t == "radius"@ || t == "saml"@))) ==> methods.contains(
                "db-provider-"@ + providers[k].name@,
            ) || keys.contains("db-provider-"@ + providers[k].name@)
        }),
    decreases n,
{
    reveal_strlit("database");
    reveal_strlit("ldap");
    reveal_strlit("radius");
    reveal_strlit("saml");
    assert("database"@.len() == 8 && "ldap"@.len() == 4 && "radius"@.len() == 6 && "saml"@.len()
        == 4);
    if n > 0 {
        law_chain_is_complete(methods, providers, loads, n - 1, k, i);
        let before = stored_positions(methods, providers, loads, n - 1);
        let stored = stored_positions(methods, providers, loads, n);
        let old_keys = stored_keys(providers, before);
        let keys = stored_keys(providers, stored);
        assert forall|key: Seq<char>| old_keys.contains(key) implies keys.contains(key) by {
            let q = choose|q: int| 0 <= q < old_keys.len() && old_keys[q] == key;
            assert(keys[q] == key);
        }
        if k == n - 1 && stored.len() > before.len() {
            assert(keys[before.len() as int] == stored_key(providers[k].name@));
        }
    }
}

/// A provider in the chain is enabled, and of a type that the chain takes: the
/// database, or one of the others where its configuration can be read.
pub proof fn law_chain_is_usable(
    methods: Seq<Seq<char>>,
    providers: Seq<DbProvider>,
    loads: Seq<bool>,
    n: int,
    i: int,
)
    requires
        0 <= n <= providers.len() <= usize::MAX,
        providers.len() == loads.len(),
        0 <= i < stored_positions(methods, providers, loads, n).len(),
    ensures
        ({
            let p = stored_positions(methods, providers, loads, n)[i] as int;
            let t = providers[p].provider_type@;
            &&& 0 <= p < n
            &&& providers[p].enabled
            &&& t == "database"@ || (loads[p] && (t == "ldap"@ || t == "radius"@ || t == "saml"@))
        }),
    decreases n,
{
    if n > 0 {
        let before = stored_positions(methods, providers, loads, n - 1);
        if i < before.len() {
            law_chain_is_usable(methods, providers, loads, n - 1, i);
        }
    }
}

/// Without configured methods the database is the only one; else they are as
/// configured.
pub proof fn law_configured_methods(m: Vec<String>, i: int, p: DbProvider)
    ensures
        base_methods(None) == seq!["database"@],
        base_methods(Some(m)).len() == m@.len(),
        0 <= i < m@.len() ==> base_methods(Some(m))[i] == m@[i]@,
        is_saml(p) <==> p.enabled && p.provider_type@ == "saml"@,
{
}

/// A secret store is connected where it is configured with a secret; an
/// interval is never below its floor and else as asked.
pub proof fn law_backends_and_intervals(
    configured: bool,
    secret: Option<Seq<char>>,
    n: u64,
    floor: u64,
)
    ensures
        backend_usable(configured, secret) <==> configured && secret is Some && secret->0.len()
            != 0,
        at_least(n, floor) >= n && at_least(n, floor) >= floor,
        at_least(n, floor) == n || at_least(n, floor) == floor,
{
}

// ── Answers ──
/// The headers of every answer, and the one that only an encrypted one has.
pub proof fn law_headers(nonce: Seq<char>, headers: Seq<Header>, i: int)
    ensures
        header_texts(headers).len() == headers.len(),
        0 <= i < headers.len() ==> header_texts(headers)[i].0 == headers[i].name@ && header_texts(
            headers,
        )[i].1 == headers[i].value@,
        security_header_texts(nonce, false) == seq![
            ("X-Content-Type-Options"@, "nosniff"@),
            ("X-Frame-Options"@, "DENY"@),
            ("Referrer-Policy"@, "strict-origin-when-cross-origin"@),
            ("Permissions-Policy"@, "camera=(), microphone=(), geolocation=()"@),
            (
                "Content-Security-Policy"@,
                "default-src 'self'; script-src 'self' 'nonce-"@ + nonce
                    + "'; style-src 'self' 'unsafe-inline'; connect-src 'self' wss: ws:; img-src 'self' data: https:; font-src 'self'"@,
            ),
        ],
        security_header_texts(nonce, true) == security_header_texts(nonce, false).push(
            ("Strict-Transport-Security"@, "max-age=31536000; includeSubDomains"@),
        ),
{
}

/// A certificate names each host once, and no host that was not asked for but
/// the local one.
pub proof fn law_certificate_names_are_asked_for(
    hostname: Seq<char>,
    extra: Seq<Seq<char>>,
    i: int,
    v: Seq<Seq<char>>,
    x: Seq<char>,
)
    requires
        3 <= i < certificate_names(hostname, extra).len(),
    ensures
        extra.contains(certificate_names(hostname, extra)[i]),
        forall|j: int|
            0 <= j < i ==> (#[trigger] certificate_names(hostname, extra)[j]) != certificate_names(
                hostname,
                extra,
            )[i],
        v.contains(x) ==> with_name(v, x) == v,
        !v.contains(x) ==> with_name(v, x) == v.push(x),
    decreases extra.len(),
{
    let front = extra.drop_last();
    let before = certificate_names(hostname, front);
    let all = certificate_names(hostname, extra);
    if i < before.len() {
        law_certificate_names_are_asked_for(hostname, front, i, v, x);
        assert(all[i] == before[i]);
        let q = choose|q: int| 0 <= q < front.len() && front[q] == before[i];
        assert(extra[q] == all[i]);
        assert forall|j: int| 0 <= j < i implies (#[trigger] all[j]) != all[i] by {
            assert(all[j] == before[j]);
        }
    } else {
        assert(all[i] == extra.last());
        assert(extra[extra.len() - 1] == all[i]);
        assert forall|j: int| 0 <= j < i implies (#[trigger] all[j]) != all[i] by {
            assert(all[j] == before[j]);
            assert(before.contains(before[j]));
        }
    }
}

/// A cell begins with its text and is filled with blanks, to its width and no
/// further.
pub proof fn law_cells(
    s: Seq<char>,
    width: nat,
    i: int,
    cells: Seq<Seq<char>>,
    widths: Seq<usize>,
    k: int,
)
    ensures
        s.is_prefix_of(padded(s, width)),
        s.len() <= width ==> padded(s, width).len() == width,
        s.len() > width ==> padded(s, width) == s,
        s.len() <= i < padded(s, width).len() ==> padded(s, width)[i] == ' ',
        padded_cells(cells, widths).len() == cells.len(),
        0 <= k < cells.len() ==> padded_cells(cells, widths)[k] == padded(
            cells[k],
            widths[k] as nat,
        ),
{
    assert(padded(s, width).subrange(0, s.len() as int) =~= s);
}

/// A list of texts is their quoted forms with a comma and a blank between them.
pub proof fn law_quoted_list(v: Seq<Seq<char>>, x: Seq<char>)
    ensures
        listed(Seq::empty()).len() == 0,
        listed(seq![x]) == quoted(x),
        v.len() > 0 ==> listed(v.push(x)) == listed(v) + ", "@ + quoted(x),
{
    assert(seq![x].drop_last() =~= Seq::empty());
    assert(v.push(x).drop_last() =~= v);
}

// ── Pages ──
/// Each special character is written as its entity, every other one as it is,
/// and texts are escaped piece by piece.
pub proof fn law_escaping(s: Seq<char>, t: Seq<char>, c: char)
    ensures
        escaped(seq!['&']) == "&amp;"@,
        escaped(seq!['<']) == "&lt;"@,
        escaped(seq!['>']) == "&gt;"@,
        escaped(seq!['"']) == "&quot;"@,
        escaped(seq!['\'']) == "&#x27;"@,
        c != '&' && c != '<' && c != '>' && c != '"' && c != '\'' ==> escaped(seq![c]) == seq![c],
        escaped(s + t) == escaped(s) + escaped(t),
    decreases t.len(),
{
    lemma_escaped_one('&');
    lemma_escaped_one('<');
    lemma_escaped_one('>');
    lemma_escaped_one('"');
    lemma_escaped_one('\'');
    lemma_escaped_one(c);
    if t.len() == 0 {
        assert(s + t =~= s);
        assert(escaped(s) + escaped(t) =~= escaped(s));
    } else {
        law_escaping(s, t.drop_last(), c);
        assert((s + t).drop_last() =~= s + t.drop_last());
        assert((s + t).last() == t.last());
        assert(escaped(s) + (escaped(t.drop_last()) + escaped_char(t.last())) =~= (escaped(s)
            + escaped(t.drop_last())) + escaped_char(t.last()));
    }
}

proof fn lemma_escaped_one(c: char)
    ensures
        escaped(seq![c]) == escaped_char(c),
{
    assert(seq![c].drop_last() =~= Seq::empty());
    assert(escaped(Seq::<char>::empty()) =~= Seq::empty());
    assert(Seq::<char>::empty() + escaped_char(c) =~= escaped_char(c));
}

/// Branding puts the escaped title in the place of the default one, in the
/// title and the heading, and the escaped logo in the place of the default one.
pub proof fn law_branding(html: Seq<char>, title: Seq<char>, url: Seq<char>)
    ensures
        ({
            let safe = escaped(title);
            let page = replaced(
                replaced(
                    replaced(html, "<title>persea</title>"@, "<title>"@ + safe + "</title>"@),
                    "<title>persea - "@,
                    "<title>"@ + safe + " - "@,
                ),
                ">persea</h1>"@,
                ">"@ + safe + "</h1>"@,
            );
            &&& title != "persea"@ ==> branded(html, title, None) == page
            &&& title != "persea"@ ==> branded(html, title, Some(url)) == replaced(
                page,
                "src=\"/logo.svg\""@,
                "src=\""@ + escaped(url) + "\""@,
            )
            &&& branded(html, "persea"@, Some(url)) == replaced(
                html,
                "src=\"/logo.svg\""@,
                "src=\""@ + escaped(url) + "\""@,
            )
        }),
{
}

/// A path names a page by what follows its leading slashes, and the bare root
/// the index. A failed request is answered with a page exactly where the path
/// is not below `/api/` and HTML is accepted.
pub proof fn law_pages(path: Seq<char>, accept: Option<Seq<char>>)
    ensures
        page_of(seq!['/'] + path) == page_of(path),
        path.len() > 0 && path[0] != '/' ==> page_of(path) == path,
        page_of(Seq::empty()) == "index.html"@,
        html_wanted(path, accept) <==> !"/api/"@.is_prefix_of(path) && match accept {
            Some(a) => has_sub(a, "text/html"@),
            None => false,
        },
{
    assert((seq!['/'] + path).skip(1) =~= path);
}

} // verus!
