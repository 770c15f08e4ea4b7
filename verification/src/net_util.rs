//! Small host/port string helpers shared by the tunnel, session and
//! configuration surfaces.

use crate::text::{
    chars, contains, find_char, find_last_char, first_at, has_sub, is_digit, join2, join3, opt_text,
    parse_upto, unsigned_upto,
};
use vstd::prelude::*;
use vstd::string::*;

verus! {

/// The position of the last colon in `s`.
pub open spec fn last_colon(s: Seq<char>) -> Option<int>
    decreases s.len(),
{
    if s.len() == 0 {
        None
    } else if s.last() == ':' {
        Some(s.len() - 1)
    } else {
        last_colon(s.drop_last())
    }
}

/// What stands before the last colon; all of `s` where it has none.
pub open spec fn host_part(s: Seq<char>) -> Seq<char> {
    match last_colon(s) {
        Some(i) => s.take(i),
        None => s,
    }
}

/// What stands behind the last colon; nothing where `s` has none.
pub open spec fn port_part(s: Seq<char>) -> Seq<char> {
    match last_colon(s) {
        Some(i) => s.skip(i + 1),
        None => Seq::empty(),
    }
}

proof fn lemma_last_colon(s: Seq<char>, i: int)
    requires
        0 <= i < s.len(),
        s[i] == ':',
        forall|j: int| i < j < s.len() ==> s[j] != ':',
    ensures
        last_colon(s) == Some(i),
    decreases s.len(),
{
    if i < s.len() - 1 {
        lemma_last_colon(s.drop_last(), i);
    }
}

proof fn lemma_no_colon(s: Seq<char>)
    requires
        !s.contains(':'),
    ensures
        last_colon(s) is None,
    decreases s.len(),
{
    if s.len() > 0 {
        assert(s.contains(s.last()));
        assert forall|c: char| s.drop_last().contains(c) implies s.contains(c) by {
            let i = choose|i: int| 0 <= i < s.drop_last().len() && s.drop_last()[i] == c;
            assert(s[i] == c);
        }
        lemma_no_colon(s.drop_last());
    }
}

/// Split a `host:port` string into its host part and trailing port text.
///
/// The cut lands on the LAST colon, so a bare IPv6 host without a port
/// (`"::1"`) loses its tail to the port slot. A bracketed IPv6 endpoint
/// keeps its shape (`"[::1]:22"` has the host `"[::1]"`). Input without a
/// colon is all host, empty port.
pub fn split_host_port(addr: &str) -> (r: (&str, &str))
    ensures
        r.0@ == host_part(addr@),
        r.1@ == port_part(addr@),
{
    let v = chars(addr);
    let n: usize = v.len();
    match find_last_char(&v, ':') {
        Some(i) => {
            proof {
                lemma_last_colon(addr@, i as int);
                assert(addr@.subrange(0, i as int) =~= addr@.take(i as int));
                assert(addr@.subrange(i + 1, addr@.len() as int) =~= addr@.skip(i + 1));
            }
            (addr.substring_char(0, i), addr.substring_char(i + 1, n))
        },
        None => {
            proof {
                lemma_no_colon(addr@);
                reveal_strlit("");
                assert(""@ =~= Seq::empty());
            }
            (addr, "")
        },
    }
}

/// The port that a text writes: a decimal number below 65536.
pub open spec fn port_number(s: Seq<char>) -> Option<u16> {
    match unsigned_upto(s, 65535) {
        Some(n) => Some(n as u16),
        None => None,
    }
}

/// Parse a port string into a `u16`; anything unparsable or out of range
/// yields `None`.
pub fn parse_port(s: &str) -> (r: Option<u16>)
    ensures
        r == port_number(s@),
{
    let v = chars(s);
    proof {
        assert(v@.subrange(0, v@.len() as int) =~= s@);
    }
    match parse_upto(&v, 0, v.len(), 65535) {
        Some(n) => Some(n as u16),
        None => None,
    }
}

/// Does the address end in a numeric port? The check only reads the text
/// after the last colon, or all of it where it has none.
pub fn has_valid_trailing_port(addr: &str) -> (r: bool)
    ensures
        r == port_number(
            if last_colon(addr@) is Some {
                port_part(addr@)
            } else {
                addr@
            },
        ) is Some,
{
    let v = chars(addr);
    match find_last_char(&v, ':') {
        Some(i) => {
            proof {
                lemma_last_colon(addr@, i as int);
            }
            parse_port(split_host_port(addr).1).is_some()
        },
        None => {
            proof {
                lemma_no_colon(addr@);
            }
            parse_port(addr).is_some()
        },
    }
}

/// The host and the port text of an address with a colon give it back, and
/// the port text holds no colon.
pub proof fn law_split_joins(s: Seq<char>)
    ensures
        last_colon(s) is Some ==> host_part(s) + seq![':'] + port_part(s) == s && !port_part(
            s,
        ).contains(':'),
        last_colon(s) is None ==> host_part(s) == s && port_part(s).len() == 0 && !s.contains(':'),
    decreases s.len(),
{
    if s.len() > 0 {
        law_split_joins(s.drop_last());
        if s.last() != ':' {
            match last_colon(s) {
                Some(i) => {
                    let f = s.drop_last();
                    lemma_last_colon_bounds(f);
                    assert(f.skip(i + 1).push(s.last()) =~= s.skip(i + 1));
                    assert(f.take(i) =~= s.take(i));
                    assert(s.take(i) + seq![':'] + s.skip(i + 1) =~= (f.take(i) + seq![':']
                        + f.skip(i + 1)).push(s.last()));
                    assert(s.drop_last().push(s.last()) =~= s);
                    let tail = s.skip(i + 1);
                    let shorter = f.skip(i + 1);
                    assert forall|k: int| 0 <= k < tail.len() implies tail[k] != ':' by {
                        if k < shorter.len() {
                            assert(shorter.contains(shorter[k]));
                        }
                    }
                },
                None => {
                    assert forall|k: int| 0 <= k < s.len() implies s[k] != ':' by {
                        if k < s.len() - 1 {
                            assert(s.drop_last().contains(s.drop_last()[k]));
                        }
                    }
                },
            }
        } else {
            assert(s.take(s.len() - 1) + seq![':'] + s.skip(s.len() as int) =~= s);
        }
    }
}

proof fn lemma_last_colon_bounds(s: Seq<char>)
    ensures
        last_colon(s) is Some ==> 0 <= last_colon(s)->0 < s.len(),
    decreases s.len(),
{
    if s.len() > 0 && s.last() != ':' {
        lemma_last_colon_bounds(s.drop_last());
    }
}

// ── URLs ──
/// The parts of a URL.
#[derive(Debug)]
pub struct ParsedUrl {
    pub scheme: String,
    pub host: Option<String>,
    /// The port, where the URL names one other than the scheme's own.
    pub port: Option<u16>,
    /// The port, or the scheme's own where the URL names none.
    pub known_port: Option<u16>,
    pub path: String,
    pub query: Option<String>,
}

/// The parts of a URL as character sequences.
pub ghost struct UrlParts {
    pub scheme: Seq<char>,
    pub host: Option<Seq<char>>,
    pub port: Option<u16>,
    pub known_port: Option<u16>,
    pub path: Seq<char>,
    pub query: Option<Seq<char>>,
}

impl ParsedUrl {
    /// The parts as character sequences.
    pub open spec fn parts(&self) -> UrlParts {
        UrlParts {
            scheme: self.scheme@,
            host: opt_text(self.host),
            port: self.port,
            known_port: self.known_port,
            path: self.path@,
            query: opt_text(self.query),
        }
    }
}

/// The parts of a parse outcome.
pub open spec fn url_outcome(r: Result<ParsedUrl, String>) -> Result<UrlParts, Seq<char>> {
    match r {
        Ok(u) => Ok(u.parts()),
        Err(e) => Err(e@),
    }
}

/// What a text parses to as a URL: its parts, or the reason why it is none.
pub uninterp spec fn url_of(text: Seq<char>) -> Result<UrlParts, Seq<char>>;

/// `url::Url::parse`, with the accessors for the parts: `scheme`, `host_str`,
/// `port`, `port_or_known_default`, `path` and `query`. A failure comes with
/// the parse error's own words.
#[verifier::external_body]
pub(crate) fn parse_url(text: &str) -> (r: Result<ParsedUrl, String>)
    ensures
        url_outcome(r) == url_of(text@),
{
    match url::Url::parse(text) {
        Ok(u) => Ok(
            ParsedUrl {
                scheme: u.scheme().to_string(),
                host: u.host_str().map(|h| h.to_string()),
                port: u.port(),
                known_port: u.port_or_known_default(),
                path: u.path().to_string(),
                query: u.query().map(|q| q.to_string()),
            },
        ),
        Err(e) => Err(e.to_string()),
    }
}

/// The text that is parsed for an endpoint: a bare authority gets a scheme.
pub open spec fn endpoint_url(input: Seq<char>) -> Seq<char> {
    if has_sub(input, "://"@) {
        input
    } else {
        "tcp://"@ + input
    }
}

/// Whether a character may stand between a scheme's colon and the authority.
pub open spec fn leads_authority(c: char) -> bool {
    c == '/' || c == '\\' || c == '\t' || c == '\n' || c == '\r'
}

/// Whether a character ends an authority.
pub open spec fn ends_authority(c: char) -> bool {
    c == '/' || c == '\\' || c == '?' || c == '#'
}

/// Where the authority begins, looked for from `i` on.
pub open spec fn authority_start(t: Seq<char>, i: nat) -> nat
    decreases t.len() - i,
{
    if i < t.len() && leads_authority(t[i as int]) {
        authority_start(t, i + 1)
    } else {
        i
    }
}

/// Where the authority ends, looked for from `i` on.
pub open spec fn authority_end(t: Seq<char>, i: nat) -> nat
    decreases t.len() - i,
{
    if i < t.len() && !ends_authority(t[i as int]) {
        authority_end(t, i + 1)
    } else {
        i
    }
}

/// Whether a URL writes a port: behind the user information and a bracketed
/// address, its authority holds a colon with a digit behind it.
pub open spec fn port_written(t: Seq<char>) -> bool {
    let start = authority_start(t, (first_at(t, ':') + 1) as nat);
    let end = authority_end(t, start);
    exists|c: int, d: int|
        #![trigger t[c], t[d]]
        {
            &&& start <= c < d < end
            &&& t[c] == ':'
            &&& is_digit(t[d])
            &&& forall|k: int| c < k < end ==> #[trigger] t[k] != '@' && t[k] != ']'
        }
}

/// Whether a URL writes a port.
fn writes_port(text: &str) -> (r: bool)
    ensures
        r == port_written(text@),
{
    let v = chars(text);
    let n: usize = v.len();
    let mut i: usize = find_char(&v, ':', 0);
    proof {
        assert(v@.skip(0) =~= v@);
    }
    let ghost from = (first_at(v@, ':') + 1) as nat;
    if i < n {
        i = i + 1;
    } else {
        proof {
            assert(authority_start(v@, from) == from);
            assert(authority_end(v@, from) == from);
        }
        return false;
    }
    while i < n && (v[i] == '/' || v[i] == '\\' || v[i] == '\t' || v[i] == '\n' || v[i] == '\r')
        invariant
            n == v@.len(),
            i <= n,
            authority_start(v@, from) == authority_start(v@, i as nat),
        decreases n - i,
    {
        i = i + 1;
    }
    let ghost start = i as nat;
    let mut colon: Option<usize> = None;
    let mut digit: bool = false;
    while i < n && v[i] != '/' && v[i] != '\\' && v[i] != '?' && v[i] != '#'
        invariant
            n == v@.len(),
            start <= i <= n,
            authority_end(v@, start) == authority_end(v@, i as nat),
            match colon {
                Some(c) => start <= c < i && v@[c as int] == ':' && (forall|k: int|
                    c < k < i ==> #[trigger] v@[k] != '@' && v@[k] != ']') && digit == (exists|
                    d: int,
                |
                    c < d < i && is_digit(#[trigger] v@[d])),
                None => !digit,
            },
            forall|c: int|
                #![trigger v@[c]]
                start <= c < i && v@[c] == ':' && (forall|k: int|
                    c < k < i ==> #[trigger] v@[k] != '@' && v@[k] != ']') ==> (match colon {
                    Some(first) => first <= c,
                    None => false,
                }),
        decreases n - i,
    {
        let c: char = v[i];
        let ghost was = i as int;
        if c == '@' || c == ']' {
            colon = None;
            digit = false;
        } else if c == ':' {
            if colon.is_none() {
                colon = Some(i);
            }
        } else if c >= '0' && c <= '9' && colon.is_some() {
            digit = true;
        }
        i = i + 1;
        proof {
            assert forall|j: int|
                #![trigger v@[j]]
                start <= j < i && v@[j] == ':' && (forall|k: int|
                    j < k < i ==> #[trigger] v@[k] != '@' && v@[k] != ']') implies (match colon {
                Some(first) => first <= j,
                None => false,
            }) by {
                if j < was {
                    assert(v@[was] != '@' && v@[was] != ']');
                }
            }
        }
    }
    proof {
        assert(v@ == text@);
        let end = i as nat;
        assert(authority_start(v@, from) == start);
        assert(authority_end(v@, start) == end);
        if digit {
            let c = colon->0 as int;
            let d = choose|d: int| c < d < i && is_digit(#[trigger] v@[d]);
            assert(v@[c] == ':' && is_digit(v@[d]));
        }
        if port_written(v@) {
            let (c, d) = choose|c: int, d: int|
                #![trigger v@[c], v@[d]]
                {
                    &&& start <= c < d < end
                    &&& v@[c] == ':'
                    &&& is_digit(v@[d])
                    &&& forall|k: int| c < k < end ==> #[trigger] v@[k] != '@' && v@[k] != ']'
                };
            assert(v@[c] == ':');
            assert(colon is Some && colon->0 <= c);
            assert(is_digit(v@[d]));
        }
    }
    digit
}

/// The text that is parsed for an endpoint.
fn endpoint_text(input: &str) -> (r: String)
    ensures
        r@ == endpoint_url(input@),
{
    if contains(input, "://") {
        input.to_string()
    } else {
        join2("tcp://", input)
    }
}

/// The port of a parsed endpoint: the one that its text writes, also where
/// that is the scheme's own, or else the default.
pub open spec fn endpoint_port(u: UrlParts, text: Seq<char>, default_port: u16) -> u16 {
    match (u.port, u.known_port) {
        (Some(p), _) => p,
        (None, Some(p)) => if port_written(text) {
            p
        } else {
            default_port
        },
        (None, None) => default_port,
    }
}

/// The host and port of a parsed endpoint.
pub open spec fn endpoint_of(
    parsed: Result<UrlParts, Seq<char>>,
    input: Seq<char>,
    default_port: u16,
) -> Result<(Seq<char>, u16), Seq<char>> {
    match parsed {
        Err(e) => Err("invalid host/URL '"@ + input + "': "@ + e),
        Ok(u) => match u.host {
            None => Err("no host in '"@ + input + "'"@),
            Some(h) => Ok(
                (h, endpoint_port(u, endpoint_url(input), default_port)),
            ),
        },
    }
}

/// The characters of an endpoint, or of the reason why there is none.
pub open spec fn endpoint_outcome(r: Result<(String, u16), String>) -> Result<
    (Seq<char>, u16),
    Seq<char>,
> {
    match r {
        Ok((h, p)) => Ok((h@, p)),
        Err(e) => Err(e@),
    }
}

/// The host and port of a parsed endpoint.
pub fn endpoint(
    parsed: Result<ParsedUrl, String>,
    input: &str,
    default_port: u16,
) -> (r: Result<(String, u16), String>)
    ensures
        endpoint_outcome(r) == endpoint_of(url_outcome(parsed), input@, default_port),
{
    match parsed {
        Err(e) => {
            let mut m = join3("invalid host/URL '", input, "': ");
            m.append(e.as_str());
            Err(m)
        },
        Ok(u) => match u.host {
            None => Err(join3("no host in '", input, "'")),
            Some(h) => {
                let port: u16 = match (u.port, u.known_port) {
                    (Some(p), _) => p,
                    (None, Some(p)) => {
                        let text = endpoint_text(input);
                        if writes_port(text.as_str()) {
                            p
                        } else {
                            default_port
                        }
                    },
                    (None, None) => default_port,
                };
                Ok((h, port))
            },
        },
    }
}

/// Parse a host and port from a full URL ("https://host:8006") or a bare
/// authority ("host:3128" / "host"), falling back to `default_port` when the
/// input carries no explicit port.
pub fn parse_host_port(input: &str, default_port: u16) -> (r: Result<(String, u16), String>)
    ensures
        endpoint_outcome(r) == endpoint_of(url_of(endpoint_url(input@)), input@, default_port),
{
    let full = endpoint_text(input);
    endpoint(parse_url(full.as_str()), input, default_port)
}

} // verus!
