//! What a sign-on keeps to, from the first redirect to the roles it gives.

use crate::json::{json_of, member_text, string_in, JsonText};
use crate::oidc::{
    claim_in, claim_of, cleared, cookie, cookie_binds, discovery_text, early_error, enforced,
    fingerprint, fingerprint_key, flow_of, flow_taken, flows_without, fresh_flows, groups_of,
    hmac_sha256, issuer_mismatch, landing, law_short_name, login_cookies_of, mapped_role,
    provider_index, ring_sha256, safe_path, short_name, short_names, token_claim, CallbackParams,
    ExchangeFailure, GroupMapping, GroupsText, MfaStep, OidcProvider, PendingFlow, TotpEnforcement,
};
use crate::outside::hex_text;
use crate::protocol::byte_len;
use crate::role::role_level_spec;
use crate::text::{
    digits, has_sub, lemma_first_at, lemma_first_at_is, lemma_split_at, lemma_split_one, occurs_at,
    split_on, sub_at,
};
use crate::text_laws::law_first_occurrence;
use crate::time::Timestamp;
use vstd::prelude::*;
use vstd::string::*;
use vstd::utf8::*;

verus! {

// ── Started logins ──
/// A login is forgotten ten minutes after it was started and not before, and
/// taking one out leaves all others.
pub proof fn law_flows_last_ten_minutes(
    flows: Seq<PendingFlow>,
    now: Timestamp,
    state: Seq<char>,
)
    ensures
        fresh_flows(flows, now) == flows.filter(
            |f: PendingFlow| now.ticks() - f.created.ticks() < 600_000_000_000,
        ),
        flows_without(flows, state) == flows.filter(|f: PendingFlow| f.state@ != state),
    decreases flows.len(),
{
    reveal(Seq::filter);
    if flows.len() > 0 {
        law_flows_last_ten_minutes(flows.drop_last(), now, state);
    }
}

/// A state finds the newest login that was started with it.
pub proof fn law_state_finds_its_login(flows: Seq<PendingFlow>, state: Seq<char>, k: int)
    requires
        -1 <= k < flows.len(),
        forall|j: int| k < j < flows.len() ==> (#[trigger] flows[j]).state@ != state,
    ensures
        k >= 0 && flows[k].state@ == state ==> flow_of(flows, state) == Some(flows[k].flow),
        k == -1 ==> flow_of(flows, state) is None,
    decreases flows.len(),
{
    if flows.len() > 0 {
        let front = flows.drop_last();
        if k < flows.len() - 1 {
            assert(flows[flows.len() - 1].state@ != state);
            assert forall|j: int| k < j < front.len() implies (#[trigger] front[j]).state@
                != state by {
                assert(front[j] == flows[j]);
            }
            law_state_finds_its_login(front, state, k);
        }
    }
}

/// What a filter that passes all flows with a state leaves of them.
proof fn lemma_flow_of_filtered(
    flows: Seq<PendingFlow>,
    state: Seq<char>,
    p: spec_fn(PendingFlow) -> bool,
    k: int,
)
    requires
        0 <= k < flows.len(),
        flows[k].state@ == state,
        p(flows[k]),
        forall|j: int|
            k < j < flows.len() && (#[trigger] flows[j]).state@ == state ==> !p(flows[j]),
    ensures
        flow_of(flows.filter(p), state) == Some(flows[k].flow),
    decreases flows.len(),
{
    reveal(Seq::filter);
    let front = flows.drop_last();
    let f = front.filter(p);
    if k < flows.len() - 1 {
        assert forall|j: int|
            k < j < front.len() && (#[trigger] front[j]).state@ == state implies !p(front[j]) by {
            assert(front[j] == flows[j]);
        }
        assert(front[k] == flows[k]);
        lemma_flow_of_filtered(front, state, p, k);
        let last = flows[flows.len() - 1];
        if p(last) {
            assert(last.state@ != state);
            assert(f.push(last).drop_last() =~= f);
        }
    } else {
        assert(f.push(flows[k]).last() == flows[k]);
    }
}

proof fn lemma_flow_of_none(
    flows: Seq<PendingFlow>,
    state: Seq<char>,
    p: spec_fn(PendingFlow) -> bool,
)
    requires
        forall|j: int| 0 <= j < flows.len() && (#[trigger] flows[j]).state@ == state ==> !p(
            flows[j],
        ),
    ensures
        flow_of(flows.filter(p), state) is None,
    decreases flows.len(),
{
    reveal(Seq::filter);
    if flows.len() > 0 {
        let front = flows.drop_last();
        let f = front.filter(p);
        assert forall|j: int| 0 <= j < front.len() && (#[trigger] front[j]).state@
            == state implies !p(front[j]) by {
            assert(front[j] == flows[j]);
        }
        lemma_flow_of_none(front, state, p);
        let last = flows[flows.len() - 1];
        if p(last) {
            assert(f.push(last).drop_last() =~= f);
        }
    }
}

/// Starting a login makes it findable, and forgets no other that was started
/// less than ten minutes ago: its state still finds its own flow. A login that
/// is older is forgotten.
pub proof fn law_logins_do_not_disturb_each_other(
    before: Seq<PendingFlow>,
    after: Seq<PendingFlow>,
    state: Seq<char>,
    flow: u64,
    now: Timestamp,
    other: Seq<char>,
    k: int,
)
    requires
        after.len() == flows_without(fresh_flows(before, now), state).len() + 1,
        after.drop_last() == flows_without(fresh_flows(before, now), state),
        after.last().state@ == state,
        after.last().flow == flow,
    ensures
        flow_of(after, state) == Some(flow),
        other != state && 0 <= k < before.len() && before[k].state@ == other && now.ticks()
            - before[k].created.ticks() < 600_000_000_000 && (forall|j: int|
            k < j < before.len() ==> (#[trigger] before[j]).state@ != other) ==> flow_of(
            after,
            other,
        ) == Some(before[k].flow),
        other != state && (forall|j: int|
            0 <= j < before.len() && (#[trigger] before[j]).state@ == other ==> now.ticks()
                - before[j].created.ticks() >= 600_000_000_000) ==> flow_of(after, other) is None,
{
    let fresh = |f: PendingFlow| now.ticks() - f.created.ticks() < 600_000_000_000;
    let kept = flows_without(fresh_flows(before, now), state);
    law_flows_last_ten_minutes(before, now, state);
    assert(after.drop_last() == kept);
    if other != state {
        lemma_flow_of_without(fresh_flows(before, now), state, other);
        if 0 <= k < before.len() && before[k].state@ == other && fresh(before[k]) && (forall|
            j: int,
        |
            k < j < before.len() ==> (#[trigger] before[j]).state@ != other) {
            lemma_flow_of_filtered(before, other, fresh, k);
        }
        if forall|j: int|
            0 <= j < before.len() && (#[trigger] before[j]).state@ == other ==> now.ticks()
                - before[j].created.ticks() >= 600_000_000_000 {
            lemma_flow_of_none(before, other, fresh);
        }
    }
}

/// Taking out one state leaves every other findable.
proof fn lemma_flow_of_without(flows: Seq<PendingFlow>, state: Seq<char>, other: Seq<char>)
    requires
        other != state,
    ensures
        flow_of(flows_without(flows, state), other) == flow_of(flows, other),
    decreases flows.len(),
{
    if flows.len() > 0 {
        let front = flows.drop_last();
        lemma_flow_of_without(front, state, other);
        let f = flows_without(front, state);
        assert(f.push(flows.last()).drop_last() =~= f);
    }
}

/// Finishing one login leaves every other pending.
pub proof fn law_finishing_keeps_the_others(
    flows: Seq<PendingFlow>,
    state: Seq<char>,
    other: Seq<char>,
)
    requires
        other != state,
    ensures
        flow_of(flows_without(flows, state), other) == flow_of(flows, other),
{
    lemma_flow_of_without(flows, state, other);
}

// ── Callback ──
/// A callback goes on only with a code and a state and without an error, and
/// changes nothing but the pending logins of its own provider.
pub proof fn law_callback_is_contained(
    params: CallbackParams,
    before: Seq<OidcProvider>,
    after: Seq<OidcProvider>,
    i: int,
    state: Seq<char>,
    k: int,
)
    ensures
        !early_error(params) <==> params.error is None && params.code is Some && params.state
            is Some,
        flow_taken(before, after, i, state) && 0 <= i < before.len() ==> {
            &&& after.len() == before.len()
            &&& 0 <= k < before.len() && k != i ==> after[k] == before[k]
            &&& after[i].name == before[i].name
            &&& after[i].state.fingerprint_key == before[i].state.fingerprint_key
            &&& after[i].state.default_role == before[i].state.default_role
            &&& after[i].state.groups_claim == before[i].state.groups_claim
            &&& after[i].state.session_ttl_secs == before[i].state.session_ttl_secs
            &&& flow_of(after[i].state.pending@, state) is None
            &&& after[i].state.pending@ == before[i].state.pending@.filter(
                |f: PendingFlow| f.state@ != state,
            )
        },
{
    if flow_taken(before, after, i, state) && 0 <= i < before.len() {
        crate::oidc::law_state_is_used_once(before[i].state.pending@, state);
        law_flows_last_ten_minutes(before[i].state.pending@, Timestamp { secs: 0, nanos: 0 }, state);
    }
}

/// A provider is found by its name, at the first that has it; without a name it
/// is the first of all.
pub proof fn law_provider_by_name(
    providers: Seq<OidcProvider>,
    name: Seq<char>,
    k: int,
)
    requires
        0 <= k <= providers.len(),
        forall|i: int| 0 <= i < k ==> (#[trigger] providers[i]).name@ != name,
    ensures
        k < providers.len() && providers[k].name@ == name ==> provider_index(providers, Some(name))
            == Some(k),
        k == providers.len() ==> provider_index(providers, Some(name)) is None,
        providers.len() > 0 ==> provider_index(providers, None) == Some(0int),
        providers.len() == 0 ==> provider_index(providers, None) is None,
    decreases k,
{
    if k > 0 {
        assert(providers[0].name@ != name);
        let t = providers.skip(1);
        assert forall|i: int| 0 <= i < k - 1 implies (#[trigger] t[i]).name@ != name by {
            assert(t[i] == providers[i + 1]);
        }
        law_provider_by_name(t, name, k - 1);
    }
}

/// A flow belongs to a browser exactly where its cookie is the state, a colon
/// and the browser's fingerprint; without a cookie it belongs to none.
pub proof fn law_cookie_is_state_and_fingerprint(
    value: Seq<char>,
    state: Seq<char>,
    print: Seq<char>,
)
    ensures
        !cookie_binds(None, state, print),
        cookie_binds(Some(value), state, print) ==> value == state + ":"@ + print,
        value == state + ":"@ + print && (forall|i: int|
            0 <= i < state.len() ==> state[i] != ':') ==> cookie_binds(Some(value), state, print),
{
    reveal_strlit(":");
    lemma_first_at(value, ':');
    if cookie_binds(Some(value), state, print) {
        assert(value =~= state + ":"@ + print);
    }
    if value == state + ":"@ + print && (forall|i: int| 0 <= i < state.len() ==> state[i] != ':') {
        let k = state.len() as int;
        assert(value[k] == ':');
        assert forall|i: int| 0 <= i < k implies value[i] != ':' by {
            assert(value[i] == state[i]);
        }
        lemma_first_at_is(value, ':', k);
        assert(value.take(k) =~= state);
        assert(value.skip(k + 1) =~= print);
    }
}

/// A browser's fingerprint is the keyed digest of its address and its user
/// agent; the key is a digest of the client secret under a label.
pub proof fn law_fingerprint_is_keyed(
    secret: Seq<char>,
    key: Seq<u8>,
    ip: Seq<char>,
    ua: Seq<char>,
)
    ensures
        fingerprint_key(secret) == ring_sha256(
            encode_utf8("persea-oidc-fingerprint-v1"@) + encode_utf8(secret),
        ),
        fingerprint(key, ip, ua) == hex_text(hmac_sha256(key, encode_utf8(ip) + encode_utf8(ua))),
{
}

// ── Redirects and cookies ──
/// A redirect stays on the site: its target begins with one slash, holds no
/// second one behind it, no scheme, no backslash and no control character. Any
/// other target leads to the address book.
pub proof fn law_redirects_stay(s: Seq<char>)
    ensures
        safe_path(s) <==> {
            &&& s.len() > 0 && s[0] == '/'
            &&& s.len() < 2 || s[1] != '/'
            &&& forall|i: int|
                0 <= i < s.len() - 2 ==> !(#[trigger] s[i] == ':' && s[i + 1] == '/' && s[i + 2]
                    == '/')
            &&& forall|i: int|
                0 <= i < s.len() ==> #[trigger] s[i] != '\\' && s[i] as u32 > 0x1f && !(0x7f
                    <= s[i] as u32 <= 0x9f)
        },
        safe_path(s) ==> landing(Some(s)) == s,
        !safe_path(s) ==> landing(Some(s)) == "/addressbook.html"@,
        landing(None) == "/addressbook.html"@,
{
    reveal_strlit("/");
    reveal_strlit("//");
    reveal_strlit("://");
    assert("/"@.is_prefix_of(s) <==> s.len() > 0 && s[0] == '/') by {
        if s.len() > 0 {
            if s[0] == '/' {
                assert(s.subrange(0, 1) =~= "/"@);
            }
            if s.subrange(0, 1) == "/"@ {
                assert(s.subrange(0, 1)[0] == s[0]);
            }
        }
    }
    assert("//"@.is_prefix_of(s) <==> s.len() > 1 && s[0] == '/' && s[1] == '/') by {
        if s.len() > 1 {
            if s[0] == '/' && s[1] == '/' {
                assert(s.subrange(0, 2) =~= "//"@);
            }
            if s.subrange(0, 2) == "//"@ {
                assert(s.subrange(0, 2)[0] == s[0] && s.subrange(0, 2)[1] == s[1]);
            }
        }
    }
    if has_sub(s, "://"@) {
        let i = choose|i: int| occurs_at(s, "://"@, i);
        assert(s.subrange(i, i + 3)[0] == s[i]);
        assert(s.subrange(i, i + 3)[1] == s[i + 1]);
        assert(s.subrange(i, i + 3)[2] == s[i + 2]);
        assert(s[i] == ':' && s[i + 1] == '/' && s[i + 2] == '/');
    } else {
        assert forall|i: int| 0 <= i < s.len() - 2 implies !(#[trigger] s[i] == ':' && s[i + 1]
            == '/' && s[i + 2] == '/') by {
            if s[i] == ':' && s[i + 1] == '/' && s[i + 2] == '/' {
                assert(s.subrange(i, i + 3) =~= "://"@);
                assert(occurs_at(s, "://"@, i));
            }
        }
    }
    if s.contains('\\') {
        let i = choose|i: int| 0 <= i < s.len() && s[i] == '\\';
        assert(s[i] == '\\');
    }
    assert forall|i: int| 0 <= i < s.len() && !s.contains('\\') implies #[trigger] s[i]
        != '\\' by {}
}

/// A cookie is set with its name and value, on its path, out of reach of
/// scripts and of other sites, and for its time.
pub proof fn law_cookies_are_guarded(
    name: Seq<char>,
    value: Seq<char>,
    path: Seq<char>,
    sec: Seq<char>,
    age: nat,
)
    ensures
        (name + "="@ + value + "; Path="@ + path + ";"@).is_prefix_of(
            cookie(name, value, path, sec, age),
        ),
        has_sub(cookie(name, value, path, sec, age), " HttpOnly;"@ + sec),
        has_sub(cookie(name, value, path, sec, age), " SameSite=Lax;"@),
        (" Max-Age="@ + digits(age)).is_suffix_of(cookie(name, value, path, sec, age)),
{
    reveal_strlit(";");
    reveal_strlit("; HttpOnly;");
    reveal_strlit(" HttpOnly;");
    reveal_strlit(" SameSite=Lax; Max-Age=");
    reveal_strlit(" SameSite=Lax;");
    reveal_strlit(" Max-Age=");
    let c = cookie(name, value, path, sec, age);
    let a = name + "="@ + value + "; Path="@ + path;
    let head = a + ";"@;
    assert(c =~= a + "; HttpOnly;"@ + sec + " SameSite=Lax; Max-Age="@ + digits(age));
    assert(c.subrange(0, head.len() as int) =~= head);
    let g = " HttpOnly;"@ + sec;
    let at = a.len() as int + 1;
    assert(c.subrange(at, at + g.len()) =~= g);
    assert(occurs_at(c, g, at));
    let w = " SameSite=Lax;"@;
    let at2 = at + g.len();
    assert(c.subrange(at2, at2 + w.len()) =~= w);
    assert(occurs_at(c, w, at2));
    let t = " Max-Age="@ + digits(age);
    assert(c.subrange(c.len() - t.len(), c.len() as int) =~= t);
}

/// A login leaves the browser its state with the fingerprint, and the provider,
/// for ten minutes; the target only where it is safe, and the desktop intent
/// only where it was given.
pub proof fn law_login_leaves_its_cookies(
    state: Seq<char>,
    print: Seq<char>,
    provider: Seq<char>,
    next: Option<Seq<char>>,
    desktop: bool,
    sec: Seq<char>,
)
    ensures
        ({
            let v = login_cookies_of(state, print, provider, next, desktop, sec);
            let target = next is Some && safe_path(next->0);
            &&& v.len() == 2 + (if target {
                1int
            } else {
                0int
            }) + (if desktop {
                1int
            } else {
                0int
            })
            &&& v[0] == cookie("persea_oidc_state"@, state + ":"@ + print, "/"@, sec, 600)
            &&& v[1] == cookie("persea_oidc_provider"@, provider, "/"@, sec, 600)
            &&& target ==> v[2] == cookie("persea_next"@, next->0, "/"@, sec, 600)
            &&& desktop ==> v.last() == cookie("persea_desktop"@, "1"@, "/"@, sec, 600)
        }),
        cleared(sec).contains(cookie("persea_oidc_state"@, ""@, "/"@, sec, 0)),
        cleared(sec).contains(cookie("persea_next"@, ""@, "/"@, sec, 0)),
        cleared(sec).contains(cookie("persea_desktop"@, ""@, "/"@, sec, 0)),
        cleared(sec).len() == 3,
{
    assert(cleared(sec)[0] == cookie("persea_oidc_state"@, ""@, "/"@, sec, 0));
    assert(cleared(sec)[1] == cookie("persea_next"@, ""@, "/"@, sec, 0));
    assert(cleared(sec)[2] == cookie("persea_desktop"@, ""@, "/"@, sec, 0));
}

/// A login without its second factor goes to the page that asks for it.
pub proof fn law_second_factor_pages()
    ensures
        MfaStep::Verify.page() == "/auth/mfa"@ && MfaStep::Verify.scope() == "/auth/mfa"@,
        MfaStep::Enroll.page() == "/auth/enroll"@ && MfaStep::Enroll.scope() == "/"@,
{
}

/// A second factor is asked of everybody, of administrators, or of nobody.
pub proof fn law_second_factor_reaches(role: Seq<char>)
    ensures
        enforced(TotpEnforcement::All, role),
        !enforced(TotpEnforcement::Off, role),
        enforced(TotpEnforcement::AdminsOnly, role) <==> role == "admin"@,
{
}

// ── Roles and groups ──
/// The role of a login comes from a mapping for one of its groups: there is one
/// exactly where a mapping matches, it is that mapping's, none that matches is
/// higher, and of equals the first counts.
pub proof fn law_mapped_role_is_the_highest(
    mappings: Seq<GroupMapping>,
    groups: Seq<Seq<char>>,
    k: int,
)
    requires
        0 <= k < mappings.len(),
        groups.contains(mappings[k].group@),
        forall|i: int|
            0 <= i < mappings.len() && groups.contains((#[trigger] mappings[i]).group@)
                ==> role_level_spec(mappings[i].role@) <= role_level_spec(mappings[k].role@),
        forall|i: int|
            0 <= i < k && groups.contains((#[trigger] mappings[i]).group@) ==> role_level_spec(
                mappings[i].role@,
            ) < role_level_spec(mappings[k].role@),
    ensures
        mapped_role(mappings, groups) == Some(mappings[k].role@),
    decreases mappings.len(),
{
    let front = mappings.drop_last();
    if k < mappings.len() - 1 {
        assert(front[k] == mappings[k]);
        assert forall|i: int|
            0 <= i < front.len() && groups.contains(
                (#[trigger] front[i]).group@,
            ) implies role_level_spec(front[i].role@) <= role_level_spec(front[k].role@) by {
            assert(front[i] == mappings[i]);
        }
        assert forall|i: int|
            0 <= i < k && groups.contains((#[trigger] front[i]).group@) implies role_level_spec(
            front[i].role@,
        ) < role_level_spec(front[k].role@) by {
            assert(front[i] == mappings[i]);
        }
        law_mapped_role_is_the_highest(front, groups, k);
        assert(mappings[mappings.len() - 1] == mappings.last());
    } else {
        lemma_mapped_below(front, groups, role_level_spec(mappings[k].role@));
    }
}

proof fn lemma_mapped_below(mappings: Seq<GroupMapping>, groups: Seq<Seq<char>>, level: u8)
    requires
        forall|i: int|
            0 <= i < mappings.len() && groups.contains((#[trigger] mappings[i]).group@)
                ==> role_level_spec(mappings[i].role@) < level,
    ensures
        mapped_role(mappings, groups) is Some ==> role_level_spec(
            mapped_role(mappings, groups)->0,
        ) < level,
    decreases mappings.len(),
{
    if mappings.len() > 0 {
        let front = mappings.drop_last();
        assert forall|i: int|
            0 <= i < front.len() && groups.contains(
                (#[trigger] front[i]).group@,
            ) implies role_level_spec(front[i].role@) < level by {
            assert(front[i] == mappings[i]);
        }
        lemma_mapped_below(front, groups, level);
        assert(mappings[mappings.len() - 1] == mappings.last());
    }
}

/// Without a mapping for one of its groups a login is given no role.
pub proof fn law_no_mapping_no_role(mappings: Seq<GroupMapping>, groups: Seq<Seq<char>>)
    requires
        forall|i: int|
            0 <= i < mappings.len() ==> !groups.contains((#[trigger] mappings[i]).group@),
    ensures
        mapped_role(mappings, groups) is None,
    decreases mappings.len(),
{
    if mappings.len() > 0 {
        let front = mappings.drop_last();
        assert forall|i: int| 0 <= i < front.len() implies !groups.contains(
            (#[trigger] front[i]).group@,
        ) by {
            assert(front[i] == mappings[i]);
        }
        law_no_mapping_no_role(front, groups);
        assert(mappings[mappings.len() - 1] == mappings.last());
    }
}

/// The groups of a login are the texts of its claim, in order: the first 64,
/// each as far as 256 bytes reach. What is no text is no group.
pub proof fn law_groups_are_those_of_the_claim(
    v: Seq<Option<Seq<char>>>,
    s: Seq<char>,
    i: int,
)
    ensures
        ({
            let all = v.filter(|o: Option<Seq<char>>| o is Some);
            let g = groups_of(GroupsText::List(v));
            &&& all.len() <= 64 ==> g.len() == all.len()
            &&& all.len() > 64 ==> g.len() == 64
            &&& 0 <= i < g.len() ==> g[i].is_prefix_of(all[i]->0) && byte_len(g[i]) <= 256
            &&& 0 <= i < g.len() && byte_len(all[i]->0) <= 256 ==> g[i] == all[i]->0
            &&& 0 <= i < g.len() && g[i].len() < all[i]->0.len() ==> byte_len(
                all[i]->0.take(g[i].len() as int + 1),
            ) > 256
        }),
        groups_of(GroupsText::Absent).len() == 0,
        groups_of(GroupsText::One(s)).len() == 1,
        groups_of(GroupsText::One(s))[0].is_prefix_of(s),
        byte_len(s) <= 256 ==> groups_of(GroupsText::One(s))[0] == s,
{
    law_short_name(s);
    lemma_short_names_are(v);
    let all = v.filter(|o: Option<Seq<char>>| o is Some);
    let g = groups_of(GroupsText::List(v));
    if 0 <= i < g.len() {
        law_short_name(all[i]->0);
        assert(g[i] == short_name(all[i]->0));
    }
}

proof fn lemma_short_names_are(v: Seq<Option<Seq<char>>>)
    ensures
        short_names(v) == v.filter(|o: Option<Seq<char>>| o is Some).map_values(
            |o: Option<Seq<char>>| short_name(o->0),
        ),
    decreases v.len(),
{
    reveal(Seq::filter);
    let there = |o: Option<Seq<char>>| o is Some;
    let short = |o: Option<Seq<char>>| short_name(o->0);
    if v.len() > 0 {
        let front = v.drop_last();
        lemma_short_names_are(front);
        let f = front.filter(there);
        if v.last() is Some {
            assert(f.push(v.last()).map_values(short) =~= f.map_values(short).push(
                short(v.last()),
            ));
        }
    } else {
        assert(v.filter(there).map_values(short) =~= Seq::empty());
    }
}

/// A claim is the member with its name in what the second part of a token
/// encodes; a list or one text counts, anything else is no claim.
pub proof fn law_claim_is_in_the_payload(
    head: Seq<char>,
    payload: Seq<char>,
    tail: Seq<char>,
    name: Seq<char>,
    json: Seq<char>,
)
    requires
        forall|i: int| 0 <= i < head.len() ==> head[i] != '.',
        forall|i: int| 0 <= i < payload.len() ==> payload[i] != '.',
    ensures
        ({
            let token = head + "."@ + payload + "."@ + tail;
            match crate::oidc::base64_url(payload) {
                Some(bytes) => token_claim(token, name) == claim_of(bytes, name),
                None => token_claim(token, name) is Absent,
            }
        }),
        match crate::oidc::base64_url(payload) {
            Some(bytes) => token_claim(head + "."@ + payload, name) == claim_of(bytes, name),
            None => token_claim(head + "."@ + payload, name) is Absent,
        },
        token_claim(head, name) is Absent,
        match json_of(json) {
            Ok(v) => claim_of(encode_utf8(json), name) == match member_text(v, name) {
                Some(t) => claim_in(t),
                None => GroupsText::Absent,
            },
            Err(_) => claim_of(encode_utf8(json), name) is Absent,
        },
        match json_of(json) {
            Ok(JsonText::Text(s)) => claim_in(json) == GroupsText::One(s),
            Ok(JsonText::List(v)) => claim_in(json) is List && claim_in(json)->List_0.len()
                == v.len() && forall|i: int|
                0 <= i < v.len() ==> #[trigger] claim_in(json)->List_0[i] == string_in(v[i]),
            _ => claim_in(json) is Absent,
        },
{
    reveal_strlit(".");
    assert("."@ =~= seq!['.']);
    let token = head + "."@ + payload + "."@ + tail;
    let rest = payload.push('.') + tail;
    assert(token =~= head.push('.') + rest);
    lemma_split_at(head, '.', rest);
    lemma_split_at(payload, '.', tail);
    lemma_split_one(head, '.');
    lemma_split_one(payload, '.');
    assert(split_on(token, '.') =~= seq![head, payload] + split_on(tail, '.'));
    assert(split_on(token, '.')[1] == payload);
    let short = head + "."@ + payload;
    assert(short =~= head.push('.') + payload);
    lemma_split_at(head, '.', payload);
    assert(split_on(short, '.') =~= seq![head, payload]);
    encode_utf8_valid_utf8(json);
    encode_utf8_decode_utf8(json);
}

/// How each failed exchange reads.
pub proof fn law_exchange_failures_in_words()
    ensures
        ExchangeFailure::NoTokenEndpoint.message_spec() == "OIDC token endpoint not available"@,
        ExchangeFailure::ExchangeFailed.message_spec() == "OIDC token exchange failed"@,
        ExchangeFailure::NoIdToken.message_spec() == "no ID token in OIDC response"@,
        ExchangeFailure::InvalidIdToken.message_spec() == "ID token verification failed"@,
{
}

/// The two issuers are found in an error that names both, each between its
/// quotes.
pub proof fn law_issuers_are_found(
    before: Seq<char>,
    got: Seq<char>,
    expected: Seq<char>,
    behind: Seq<char>,
)
    requires
        !got.contains('`'),
        !expected.contains('`'),
        ({
            let raw = before + "unexpected issuer URI `"@ + got + "` (expected `"@ + expected + "`"@
                + behind;
            forall|j: int| 0 <= j < before.len() ==> !#[trigger] occurs_at(
                raw,
                "unexpected issuer URI `"@,
                j,
            )
        }),
    ensures
        issuer_mismatch(
            before + "unexpected issuer URI `"@ + got + "` (expected `"@ + expected + "`"@ + behind,
        ) == Some((got, expected)),
{
    let p = "unexpected issuer URI `"@;
    let q = "(expected `"@;
    let t = "`"@;
    let m = "` (expected `"@;
    reveal_strlit("unexpected issuer URI `");
    reveal_strlit("(expected `");
    reveal_strlit("`");
    reveal_strlit("` (expected `");
    let raw = before + p + got + m + expected + t + behind;
    let n = before.len() as int;
    assert(raw.subrange(n, n + p.len() as int) =~= p);
    law_first_occurrence(raw, p, n);
    let after = raw.skip(n + 23);
    assert(after =~= got + m + expected + t + behind);
    let k = got.len() as int;
    assert(after.take(k) =~= got);
    lemma_quote_at(got, after);
    let rest = after.skip(k + 1);
    assert(rest.subrange(1, 12) =~= q);
    assert(!occurs_at(rest, q, 0)) by {
        if occurs_at(rest, q, 0) {
            assert(rest.subrange(0, q.len() as int)[0] == '(');
            assert(rest[0] == ' ');
        }
    }
    law_first_occurrence(rest, q, 1);
    let tail = rest.skip(12);
    assert(tail =~= expected + t + behind);
    assert(tail.take(expected.len() as int) =~= expected);
    lemma_quote_at(expected, tail);
}

proof fn lemma_quote_at(text: Seq<char>, s: Seq<char>)
    requires
        !text.contains('`'),
        text.len() < s.len(),
        s.take(text.len() as int) == text,
        s[text.len() as int] == '`',
    ensures
        sub_at(s, "`"@) == Some(text.len() as int),
{
    let t = "`"@;
    let k = text.len() as int;
    reveal_strlit("`");
    assert(s.subrange(k, k + 1) =~= t);
    assert forall|j: int| 0 <= j < k implies !#[trigger] occurs_at(s, t, j) by {
        if occurs_at(s, t, j) {
            assert(s.subrange(j, j + t.len() as int)[0] == '`');
            assert(text[j] == s[j]);
        }
    }
    law_first_occurrence(s, t, k);
}

/// A failed discovery is reported with the provider's words, or, where the
/// issuers differ, with both of them.
pub proof fn law_discovery_errors_show_both_issuers(raw: Seq<char>)
    ensures
        "OIDC discovery failed: "@.is_prefix_of(discovery_text(raw)),
        issuer_mismatch(raw) is None ==> discovery_text(raw) == "OIDC discovery failed: "@ + raw,
        match issuer_mismatch(raw) {
            Some((got, expected)) => has_sub(
                discovery_text(raw),
                "config:   \""@ + expected + "\""@,
            ) && has_sub(discovery_text(raw), "provider: \""@ + got + "\""@),
            None => true,
        },
{
    let head = "OIDC discovery failed: "@;
    let all = discovery_text(raw);
    assert(all.subrange(0, head.len() as int) =~= head);
    if let Some((got, expected)) = issuer_mismatch(raw) {
        let bare_got = crate::text::without_trailing(got, '/');
        let bare_expected = crate::text::without_trailing(expected, '/');
        let (headline, fix) = if bare_got != bare_expected {
            (
                "issuer_url does not match the provider's advertised value"@,
                "set issuer_url = \""@ + got + "\" in your [oidc] config"@,
            )
        } else if "/"@.is_suffix_of(expected) && !"/"@.is_suffix_of(got) {
            (
                "issuer_url has an extra trailing slash"@,
                "remove the trailing slash from issuer_url"@,
            )
        } else {
            ("issuer_url is missing a trailing slash"@, "add a trailing slash to issuer_url"@)
        };
        assert(all == crate::oidc::mismatch_text(headline, expected, got, fix));
        reveal_strlit(".\n  config:   \"");
        reveal_strlit("config:   \"");
        reveal_strlit("\"\n  provider: \"");
        reveal_strlit("provider: \"");
        reveal_strlit("\"\n  Fix: ");
        reveal_strlit("\"");
        let a = head + headline;
        let c = "config:   \""@ + expected + "\""@;
        let at = a.len() as int + 4;
        assert(all.subrange(at, at + c.len()) =~= c);
        assert(occurs_at(all, c, at));
        let p = "provider: \""@ + got + "\""@;
        let at2 = at + c.len() + 3;
        assert(all.subrange(at2, at2 + p.len()) =~= p);
        assert(occurs_at(all, p, at2));
    }
}

} // verus!
