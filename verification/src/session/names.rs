//! Names that are built from templates and identities.

use crate::outside::{
    format_clock, format_date, lowercase, to_lowercase, utc_clock, utc_date, uuid_digits,
    uuid_simple,
};
use crate::session::types::{invalid, validation_error, SessionError};
use crate::text::{
    alnum, chars, contains, contains_char, find_char, first_at, has_sub, is_alnum, join, joined,
    opt_str, replace_all, replaced, slice_text, split, split_on, texts,
};
use crate::time::{MAX_UTC_SECS, MIN_UTC_SECS};
use vstd::prelude::*;
use vstd::string::*;

verus! {

/// Maximum length of the RDP `client-name` value.
pub const RDP_CLIENT_NAME_MAX_CHARS: usize = 32;

/// The first `n` characters of `s`.
pub open spec fn first_chars(s: Seq<char>, n: int) -> Seq<char> {
    if s.len() <= n {
        s
    } else {
        s.take(n)
    }
}

/// The first `n` characters of `s`.
fn truncate_chars(s: &str, n: usize) -> (r: String)
    ensures
        r@ == first_chars(s@, n as int),
{
    let v = chars(s);
    let end: usize = if v.len() <= n {
        v.len()
    } else {
        n
    };
    proof {
        assert(s@.subrange(0, end as int) =~= first_chars(s@, n as int));
    }
    slice_text(&v, 0, end)
}

/// Expand the RDP client-name template: `{user}` is the identity that created
/// the session, `{host}` the client's host name. Any other placeholder passes
/// through. The result is cut to what guacd keeps.
pub fn expand_rdp_client_name_template(template: &str, user: &str, host: &str) -> (r: String)
    ensures
        r@ == first_chars(
            replaced(replaced(template@, "{user}"@, user@), "{host}"@, host@),
            32,
        ),
        r@.len() <= RDP_CLIENT_NAME_MAX_CHARS,
{
    proof {
        reveal_strlit("{user}");
        reveal_strlit("{host}");
    }
    let a = replace_all(template, "{user}", user);
    let b = replace_all(a.as_str(), "{host}", host);
    truncate_chars(b.as_str(), RDP_CLIENT_NAME_MAX_CHARS)
}

/// A template without placeholders is kept, up to what guacd keeps.
pub proof fn law_client_name_without_placeholders(
    template: Seq<char>,
    user: Seq<char>,
    host: Seq<char>,
)
    requires
        !has_sub(template, "{user}"@),
        !has_sub(template, "{host}"@),
    ensures
        first_chars(replaced(replaced(template, "{user}"@, user), "{host}"@, host), 32)
            == first_chars(template, 32),
{
    crate::text::lemma_replaced_absent(template, "{user}"@, user);
    crate::text::lemma_replaced_absent(template, "{host}"@, host);
}

// ── Typescript names ──
/// Typescript filename template where none is configured.
pub const DEFAULT_TYPESCRIPT_NAME: &'static str = "{connection}-{user}-{date}-{time}";

/// Whether a character may stand in a file name as it is.
pub open spec fn plain_char(c: char) -> bool {
    is_alnum(c) || c == '_' || c == '-'
}

/// `s` with a hyphen for every character that may not stand in a file name.
pub open spec fn hyphened(s: Seq<char>) -> Seq<char> {
    s.map_values(
        |c: char|
            if plain_char(c) {
                c
            } else {
                '-'
            },
    )
}

/// The texts that are not empty.
pub open spec fn non_empty(v: Seq<Seq<char>>) -> Seq<Seq<char>>
    decreases v.len(),
{
    if v.len() == 0 {
        v
    } else if v.last().len() > 0 {
        non_empty(v.drop_last()).push(v.last())
    } else {
        non_empty(v.drop_last())
    }
}

/// A value made safe for a file name: letters, digits, underscores, and
/// single hyphens between them; "unknown" where nothing is left.
pub open spec fn safe_name(s: Seq<char>) -> Seq<char> {
    let j = joined(non_empty(split_on(hyphened(s), '-')), "-"@);
    if j.len() == 0 {
        "unknown"@
    } else {
        j
    }
}

fn hyphen(s: &str) -> (r: String)
    ensures
        r@ == hyphened(s@),
{
    let v = chars(s);
    let mut out = String::new();
    let mut i: usize = 0;
    proof {
        assert(out@ =~= hyphened(s@.take(0)));
    }
    while i < v.len()
        invariant
            i <= v@.len(),
            v@ == s@,
            out@ == hyphened(s@.take(i as int)),
        decreases v@.len() - i,
    {
        let c = v[i];
        let ghost before = out@;
        if alnum(c) || c == '_' || c == '-' {
            out.push(c);
        } else {
            out.push('-');
        }
        proof {
            assert(out@ =~= hyphened(s@.take(i + 1)));
        }
        i = i + 1;
    }
    proof {
        assert(s@.take(i as int) =~= s@);
    }
    out
}

fn drop_empty(v: &Vec<String>) -> (r: Vec<String>)
    ensures
        texts(r@) == non_empty(texts(v@)),
{
    let mut r: Vec<String> = Vec::new();
    let mut i: usize = 0;
    proof {
        assert(texts(r@) =~= non_empty(texts(v@).take(0)));
    }
    while i < v.len()
        invariant
            i <= v@.len(),
            texts(r@) == non_empty(texts(v@).take(i as int)),
        decreases v@.len() - i,
    {
        let ghost before = r@;
        let ghost t = texts(v@);
        proof {
            assert(t.take(i + 1).drop_last() =~= t.take(i as int));
            assert(t.take(i + 1).last() == v@[i as int]@);
        }
        if !v[i].as_str().is_empty() {
            r.push(v[i].clone());
            proof {
                assert(texts(r@) =~= texts(before).push(v@[i as int]@));
            }
        }
        i = i + 1;
    }
    proof {
        assert(texts(v@).take(i as int) =~= texts(v@));
    }
    r
}

/// Make a value safe for a file name.
pub fn sanitize(s: &str) -> (r: String)
    ensures
        r@ == safe_name(s@),
{
    let mapped = hyphen(s);
    let pieces = split(mapped.as_str(), '-');
    let kept = drop_empty(&pieces);
    let collapsed = join(&kept, "-");
    if collapsed.as_str().is_empty() {
        "unknown".to_owned()
    } else {
        collapsed
    }
}

/// A typescript name: the tokens of the template, each replaced in turn.
pub open spec fn typescript_name(
    template: Seq<char>,
    username: Seq<char>,
    hostname: Seq<char>,
    connection: Seq<char>,
    date: Seq<char>,
    time: Seq<char>,
    session: Seq<char>,
) -> Seq<char> {
    let a = replaced(template, "{user}"@, safe_name(username));
    let b = replaced(a, "{connection}"@, safe_name(connection));
    let c = replaced(b, "{host}"@, safe_name(hostname));
    let d = replaced(c, "{date}"@, date);
    let e = replaced(d, "{time}"@, time);
    replaced(e, "{session}"@, session)
}

/// Expand the tokens of a typescript filename template. Unknown braces are
/// left untouched.
pub fn fill_typescript_name(
    template: &str,
    username: &str,
    hostname: &str,
    connection: &str,
    date: &str,
    time: &str,
    session: &str,
) -> (r: String)
    ensures
        r@ == typescript_name(
            template@,
            username@,
            hostname@,
            connection@,
            date@,
            time@,
            session@,
        ),
{
    proof {
        reveal_strlit("{user}");
        reveal_strlit("{connection}");
        reveal_strlit("{host}");
        reveal_strlit("{date}");
        reveal_strlit("{time}");
        reveal_strlit("{session}");
    }
    let user = sanitize(username);
    let conn = sanitize(connection);
    let host = sanitize(hostname);
    let a = replace_all(template, "{user}", user.as_str());
    let b = replace_all(a.as_str(), "{connection}", conn.as_str());
    let c = replace_all(b.as_str(), "{host}", host.as_str());
    let d = replace_all(c.as_str(), "{date}", date);
    let e = replace_all(d.as_str(), "{time}", time);
    replace_all(e.as_str(), "{session}", session)
}

/// Expand a typescript filename template: `{user}`, `{connection}`, `{host}`
/// (all made safe for a file name), `{date}` and `{time}` of `secs` in UTC,
/// and `{session}`, the first 8 digits of the session id.
pub fn expand_typescript_name(
    template: &str,
    username: &str,
    hostname: &str,
    connection: &str,
    session_id: u128,
    secs: i64,
) -> (r: String)
    requires
        MIN_UTC_SECS <= secs <= MAX_UTC_SECS,
    ensures
        r@ == typescript_name(
            template@,
            username@,
            hostname@,
            connection@,
            utc_date(secs as int),
            utc_clock(secs as int),
            first_chars(uuid_digits(session_id), 8),
        ),
{
    let id = uuid_simple(session_id);
    let short = truncate_chars(id.as_str(), 8);
    let date = format_date(secs);
    let time = format_clock(secs);
    fill_typescript_name(
        template,
        username,
        hostname,
        connection,
        date.as_str(),
        time.as_str(),
        short.as_str(),
    )
}

/// Whether every character of `s` may stand in a file name.
pub open spec fn all_plain(s: Seq<char>) -> bool {
    forall|i: int| 0 <= i < s.len() ==> plain_char(#[trigger] s[i])
}

proof fn lemma_split_plain(s: Seq<char>, sep: char)
    requires
        all_plain(s),
    ensures
        split_on(s, sep).len() > 0,
        forall|i: int| 0 <= i < split_on(s, sep).len() ==> all_plain(#[trigger] split_on(s, sep)[i]),
    decreases s.len(),
{
    if s.len() > 0 {
        let front = s.drop_last();
        assert forall|i: int| 0 <= i < front.len() implies plain_char(#[trigger] front[i]) by {
            assert(s[i] == front[i]);
        }
        lemma_split_plain(front, sep);
        let f = split_on(front, sep);
        let all = split_on(s, sep);
        assert(plain_char(s[s.len() - 1]));
        assert forall|i: int| 0 <= i < all.len() implies all_plain(#[trigger] all[i]) by {
            if s.last() == sep {
                if i < f.len() {
                    assert(all[i] == f[i]);
                }
            } else if i < f.len() - 1 {
                assert(all[i] == f[i]);
            } else {
                assert(all_plain(f[f.len() - 1]));
                assert(all[i] == f.last().push(s.last()));
            }
        }
    }
}

proof fn lemma_join_plain(v: Seq<Seq<char>>)
    requires
        forall|i: int| 0 <= i < v.len() ==> all_plain(#[trigger] v[i]),
    ensures
        all_plain(joined(non_empty(v), "-"@)),
    decreases v.len(),
{
    reveal_strlit("-");
    if v.len() > 0 {
        let front = v.drop_last();
        assert forall|i: int| 0 <= i < front.len() implies all_plain(#[trigger] front[i]) by {
            assert(v[i] == front[i]);
        }
        lemma_join_plain(front);
        assert(all_plain(v[v.len() - 1]));
        if v.last().len() > 0 {
            let n = non_empty(v);
            assert(n.drop_last() =~= non_empty(front));
            assert(n.last() == v.last());
        }
    }
}

/// A value that goes into a typescript name is a safe part of a file name:
/// letters, digits, underscores and hyphens, and at least one of them.
pub proof fn law_safe_name(s: Seq<char>)
    ensures
        all_plain(safe_name(s)),
        safe_name(s).len() > 0,
{
    reveal_strlit("unknown");
    assert forall|i: int| 0 <= i < hyphened(s).len() implies plain_char(
        #[trigger] hyphened(s)[i],
    ) by {}
    lemma_split_plain(hyphened(s), '-');
    lemma_join_plain(split_on(hyphened(s), '-'));
    assert forall|i: int| 0 <= i < "unknown"@.len() implies plain_char(
        #[trigger] "unknown"@[i],
    ) by {}
}

// ── Container user names ──
/// `s` with an underscore for every character that is no ASCII letter or
/// digit.
pub open spec fn underscored(s: Seq<char>) -> Seq<char> {
    s.map_values(
        |c: char|
            if is_alnum(c) {
                c
            } else {
                '_'
            },
    )
}

/// Replace by an underscore every character that is no ASCII letter or digit.
pub fn underscore(s: &str) -> (r: String)
    ensures
        r@ == underscored(s@),
{
    let v = chars(s);
    let mut out = String::new();
    let mut i: usize = 0;
    proof {
        assert(out@ =~= underscored(s@.take(0)));
    }
    while i < v.len()
        invariant
            i <= v@.len(),
            v@ == s@,
            out@ == underscored(s@.take(i as int)),
        decreases v@.len() - i,
    {
        let c = v[i];
        if alnum(c) {
            out.push(c);
        } else {
            out.push('_');
        }
        proof {
            assert(out@ =~= underscored(s@.take(i + 1)));
        }
        i = i + 1;
    }
    proof {
        assert(s@.take(i as int) =~= s@);
    }
    out
}

/// Whether a container user name could leave its directory.
pub open spec fn escapes_path(s: Seq<char>) -> bool {
    s.contains('/') || s.contains('\\') || has_sub(s, ".."@)
}

/// The identity without its domain.
pub open spec fn local_part(s: Seq<char>) -> Seq<char> {
    s.take(first_at(s, '@') as int)
}

/// The user name that a VDI session runs under.
pub open spec fn container_user(
    container_username: Option<Seq<char>>,
    created_by: Seq<char>,
) -> Result<Seq<char>, Seq<char>> {
    if container_username is None || container_username->0.len() == 0 {
        Ok(underscored(lowercase(local_part(created_by))))
    } else if escapes_path(container_username->0) {
        Err("container_username must not contain '/', '\\', or '..'"@)
    } else if lowercase(container_username->0).len() == 0 {
        Err("container_username must contain at least one letter or digit"@)
    } else {
        Ok(underscored(lowercase(container_username->0)))
    }
}

/// Whether a character is a lower-case ASCII letter, a digit or an underscore.
pub open spec fn is_user_char(c: char) -> bool {
    ('a' <= c && c <= 'z') || ('0' <= c && c <= '9') || c == '_'
}

/// Resolve the container user name for a VDI session: the override when set,
/// otherwise the operator's identity without its domain, reduced to lower-case
/// letters, digits and underscores. An override with a path separator or a
/// traversal component is rejected.
pub fn vdi_container_username(container_username: Option<&str>, created_by: &str) -> (r: Result<
    String,
    SessionError,
>)
    ensures
        match r {
            Ok(s) => container_user(opt_str(container_username), created_by@) == Ok::<
                Seq<char>,
                Seq<char>,
            >(s@),
            Err(e) => container_user(opt_str(container_username), created_by@) is Err && invalid(
                e,
                container_user(opt_str(container_username), created_by@)->Err_0,
            ),
        },
        r is Ok ==> forall|i: int|
            0 <= i < r->Ok_0@.len() ==> is_user_char(#[trigger] r->Ok_0@[i]),
        r is Err <==> container_username is Some && escapes_path(container_username->0@),
        r is Ok && container_username is Some && container_username->0@.len() > 0
            ==> r->Ok_0@.len() > 0,
{
    let mut over: &str = "";
    if let Some(raw) = container_username {
        over = raw;
    }
    proof {
        reveal_strlit("");
    }
    if over.is_empty() {
        proof {
            reveal_strlit("..");
            assert(!has_sub(over@, ".."@));
        }
        let v = chars(created_by);
        let at = find_char(&v, '@', 0);
        proof {
            assert(created_by@.skip(0) =~= created_by@);
            assert(created_by@.subrange(0, at as int) =~= local_part(created_by@));
        }
        let local = slice_text(&v, 0, at);
        let low = to_lowercase(local.as_str());
        return Ok(underscore(low.as_str()));
    }
    if contains_char(over, '/') || contains_char(over, '\\') || contains(over, "..") {
        return Err(validation_error("container_username must not contain '/', '\\', or '..'"));
    }
    let low = to_lowercase(over);
    let sanitized = underscore(low.as_str());
    if sanitized.as_str().is_empty() {
        return Err(
            validation_error("container_username must contain at least one letter or digit"),
        );
    }
    Ok(sanitized)
}

/// A container user name stays inside its directory.
pub proof fn law_container_user_stays_inside(
    container_username: Option<Seq<char>>,
    created_by: Seq<char>,
)
    ensures
        match container_user(container_username, created_by) {
            Ok(s) => !escapes_path(s),
            Err(_) => container_username is Some,
        },
{
    match container_user(container_username, created_by) {
        Ok(s) => {
            reveal_strlit("..");
            assert forall|i: int| 0 <= i < s.len() implies is_alnum(#[trigger] s[i]) || s[i]
                == '_' by {}
            if has_sub(s, ".."@) {
                let i = choose|i: int| crate::text::occurs_at(s, ".."@, i);
                assert(s.subrange(i, i + 2)[0] == '.');
                assert(s[i] == '.');
            }
        },
        Err(_) => {},
    }
}

} // verus!
