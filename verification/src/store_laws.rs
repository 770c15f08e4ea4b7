//! What the stores of passwords and providers, the copying of address books
//! and the counters hold, in terms of what was put into them.

use crate::json::{json_of, JsonText};
use crate::metrics::{bumped, counted, dropped, ended_lines, exposition, times, Counted, Metrics};
use crate::migrate::{
    after_entry, argument_error, backend_error, child_path, child_paths, heading_text, listing_of,
    secret_variable, summary_text, top_path, top_paths, walked, writes, writes_entry, FolderInfo,
    FolderWalk, MigrateOptions, Tally,
};
use crate::password::{
    above, at_most, cost_field, cost_of, costs_in_reach, hash_verdict, hashes_of, is_hash,
    password_matches, trimmed_rows, HistoryRow,
};
use crate::providers_db::{
    at_edge, config_members, config_refusal, field_set, first_missing, loaded, moves, name_taken,
    neighbour, next_position, provider_at, required_fields, runs_before, swapped, ConfigText,
    DbProvider, MoveDirection,
};
use crate::text::{
    digits, is_digit, lemma_digits, lemma_split_at, lemma_split_one, split_on, texts, trimmed,
    unsigned,
};
use vstd::prelude::*;
use vstd::string::*;

verus! {

// ── Passwords ──
/// The hashes of a user are those of the user's rows, the last row first.
pub proof fn law_hashes_of_a_user(rows: Seq<HistoryRow>, user_id: i64)
    ensures
        hashes_of(rows, user_id).reverse() == rows.filter(
            |r: HistoryRow| r.user_id == user_id,
        ).map_values(|r: HistoryRow| r.password_hash),
    decreases rows.len(),
{
    reveal(Seq::filter);
    let p = |r: HistoryRow| r.user_id == user_id;
    let f = |r: HistoryRow| r.password_hash;
    if rows.len() > 0 {
        law_hashes_of_a_user(rows.drop_last(), user_id);
        let a = rows.drop_last().filter(p);
        let older = hashes_of(rows.drop_last(), user_id);
        if rows.last().user_id == user_id {
            assert(rows.filter(p) == a.push(rows.last()));
            assert(a.push(rows.last()).map_values(f) =~= a.map_values(f).push(
                rows.last().password_hash,
            ));
            assert((seq![rows.last().password_hash] + older).reverse() =~= older.reverse().push(
                rows.last().password_hash,
            ));
        }
    } else {
        assert(hashes_of(rows, user_id).reverse() =~= Seq::<String>::empty());
        assert(rows.filter(p).map_values(f) =~= Seq::<String>::empty());
    }
}

/// Of a list at most the given number of leading items is taken, and no fewer.
pub proof fn law_at_most(s: Seq<String>, n: int, i: int)
    requires
        n >= 0,
    ensures
        at_most(s, n).len() <= n,
        at_most(s, n).len() == n || at_most(s, n).len() == s.len(),
        0 <= i < at_most(s, n).len() ==> at_most(s, n)[i] == s[i],
{
}

/// Trimming drops rows only of the one user, and keeps the order: what the
/// other users have stays as it is, row by row.
pub proof fn law_trimming_is_for_one_user(rows: Seq<HistoryRow>, user_id: i64, keep: int)
    requires
        keep >= 0,
    ensures
        trimmed_rows(rows, user_id, keep).filter(|r: HistoryRow| r.user_id != user_id)
            == rows.filter(|r: HistoryRow| r.user_id != user_id),
        keep == 0 ==> trimmed_rows(rows, user_id, keep) == rows.filter(
            |r: HistoryRow| r.user_id != user_id,
        ),
    decreases rows.len(),
{
    reveal(Seq::filter);
    let p = |r: HistoryRow| r.user_id != user_id;
    if rows.len() > 0 {
        let front = rows.drop_last();
        let own = rows.last().user_id == user_id;
        let less = if own && keep > 0 {
            keep - 1
        } else {
            keep
        };
        law_trimming_is_for_one_user(front, user_id, less);
        let t = trimmed_rows(front, user_id, less);
        assert(t.push(rows.last()).drop_last() =~= t);
    }
}

/// A hash in the standard form `$id$v=..$m=..,t=..,p=..$rest` is worked with
/// exactly where eight blocks for each of its lanes fit in 32 bits and its
/// memory can be addressed. Where it is, the password decides.
pub proof fn law_costs_of_a_hash(
    id: Seq<char>,
    version: Seq<char>,
    memory: nat,
    time: nat,
    lanes: nat,
    rest: Seq<char>,
    password: Seq<char>,
)
    requires
        !id.contains('$'),
        !version.contains('$') && !version.contains(','),
    ensures
        ({
            let costs = "m="@ + digits(memory) + ",t="@ + digits(time) + ",p="@ + digits(lanes);
            let hash = "$"@ + id + "$v="@ + version + "$"@ + costs + "$"@ + rest;
            let reach = lanes <= 0x1fff_ffff && memory * 1024 <= isize::MAX;
            &&& costs_in_reach(hash) <==> reach
            &&& is_hash(hash) && reach ==> hash_verdict(password, hash) == Some(
                password_matches(password, hash),
            )
            &&& is_hash(hash) && !reach ==> hash_verdict(password, hash) == Some(false)
            &&& !is_hash(hash) ==> hash_verdict(password, hash) is None
        }),
{
    reveal_strlit("m=");
    reveal_strlit(",t=");
    reveal_strlit(",p=");
    reveal_strlit("$");
    reveal_strlit("$v=");
    reveal_strlit("v=");
    let costs = "m="@ + digits(memory) + ",t="@ + digits(time) + ",p="@ + digits(lanes);
    let hash = "$"@ + id + "$v="@ + version + "$"@ + costs + "$"@ + rest;
    let none = Seq::<char>::empty();
    let v = seq!['v', '='] + version;
    let m = seq!['m', '='] + digits(memory);
    let t = seq!['t', '='] + digits(time);
    let p = seq!['p', '='] + digits(lanes);
    assert(costs =~= m.push(',') + (t.push(',') + p));
    let tail = costs.push('$') + rest;
    assert(hash =~= none.push('$') + (id.push('$') + (v.push('$') + tail)));
    lemma_digit_text(memory);
    lemma_digit_text(time);
    lemma_digit_text(lanes);
    assert(!none.contains('$'));
    assert(!v.contains('$') && !v.contains(',')) by {
        lemma_in_sum(seq!['v', '='], version);
    }
    assert(!costs.contains('$')) by {
        assert forall|i: int| 0 <= i < costs.len() implies costs[i] != '$' by {
            let w = m.push(',');
            if i < w.len() {
                assert(costs[i] == w[i]);
            } else {
                let x = t.push(',');
                assert(costs[i] == (x + p)[i - w.len()]);
            }
        }
    }
    assert(!m.contains(',') && !t.contains(',') && !p.contains(',')) by {
        lemma_in_sum(seq!['m', '='], digits(memory));
        lemma_in_sum(seq!['t', '='], digits(time));
        lemma_in_sum(seq!['p', '='], digits(lanes));
    }
    lemma_split_at(none, '$', id.push('$') + (v.push('$') + tail));
    lemma_split_at(id, '$', v.push('$') + tail);
    lemma_split_at(v, '$', tail);
    lemma_split_at(costs, '$', rest);
    lemma_split_one(none, '$');
    lemma_split_one(id, '$');
    lemma_split_one(v, '$');
    lemma_split_one(costs, '$');
    let fields = split_on(hash, '$');
    assert(fields =~= seq![none, id, v, costs] + split_on(rest, '$'));
    assert(fields[2] == v && fields[3] == costs);
    assert(v.subrange(0, 2) =~= "v="@);
    assert(cost_field(hash) == costs);
    lemma_split_at(m, ',', t.push(',') + p);
    lemma_split_at(t, ',', p);
    lemma_split_one(m, ',');
    lemma_split_one(t, ',');
    lemma_split_one(p, ',');
    let pairs = split_on(costs, ',');
    assert(pairs =~= seq![m, t, p]);
    assert(pairs.drop_last() =~= seq![m, t]);
    assert(pairs.drop_last().drop_last() =~= seq![m]);
    reveal_with_fuel(cost_of, 4);
    assert(p.subrange(0, 2) =~= seq!['p', '=']);
    assert(m.subrange(0, 2) =~= seq!['m', '=']);
    assert(p.skip(2) =~= digits(lanes));
    assert(m.skip(2) =~= digits(memory));
    assert(p[0] == 'p' && t[0] == 't' && m[0] == 'm');
    assert(!seq!['m', '='].is_prefix_of(p)) by {
        assert(p.subrange(0, 2)[0] == 'p');
    }
    assert(!seq!['m', '='].is_prefix_of(t)) by {
        assert(t.subrange(0, 2)[0] == 't');
    }
    assert(cost_of(pairs, 'p') == Some(digits(lanes)));
    assert(cost_of(pairs, 'm') == Some(digits(memory)));
    lemma_digits(lanes);
    lemma_digits(memory);
    assert(memory * 1024 <= isize::MAX <==> memory <= isize::MAX / 1024);
}

/// A cost is out of reach only where it is a number, and a greater one than the
/// limit.
pub proof fn law_costs_are_numbers(v: Seq<char>, n: nat, limit: nat)
    ensures
        !above(None, limit),
        unsigned(v) is None ==> !above(Some(v), limit),
        above(Some(digits(n)), limit) <==> n > limit,
{
    lemma_digits(n);
}

proof fn lemma_digit_text(n: nat)
    ensures
        forall|i: int| 0 <= i < digits(n).len() ==> is_digit(#[trigger] digits(n)[i]),
        !digits(n).contains('$') && !digits(n).contains(','),
{
    lemma_digits(n);
    assert forall|i: int| 0 <= i < digits(n).len() implies is_digit(#[trigger] digits(n)[i]) by {}
}

proof fn lemma_in_sum(a: Seq<char>, b: Seq<char>)
    requires
        a.len() == 2,
    ensures
        forall|c: char| a[0] != c && a[1] != c && !b.contains(c) ==> !#[trigger] (a + b).contains(
            c,
        ),
{
    assert forall|c: char| a[0] != c && a[1] != c && !b.contains(c) implies !#[trigger] (a
        + b).contains(c) by {
        if (a + b).contains(c) {
            let k = choose|k: int| 0 <= k < (a + b).len() && (a + b)[k] == c;
            if k >= 2 {
                assert(b[k - 2] == c);
            }
        }
    }
}

// ── Providers ──
/// A provider is found by its id, and one that is not there is not found.
pub proof fn law_provider_is_found_by_id(rows: Seq<DbProvider>, id: i64, k: int)
    requires
        0 <= k <= rows.len(),
        forall|j: int| 0 <= j < k ==> (#[trigger] rows[j]).id != id,
    ensures
        k < rows.len() && rows[k].id == id ==> provider_at(rows, id) == Some(k),
        k == rows.len() ==> provider_at(rows, id) is None,
    decreases k,
{
    if k > 0 {
        assert(rows[0].id != id);
        let t = rows.skip(1);
        assert forall|j: int| 0 <= j < k - 1 implies (#[trigger] t[j]).id != id by {
            assert(t[j] == rows[j + 1]);
        }
        law_provider_is_found_by_id(t, id, k - 1);
    }
}

/// A new provider comes right behind the last one: no position is greater than
/// its own, and the one before it is taken. The first has position 0. A name is
/// taken exactly where a provider has it.
pub proof fn law_new_provider_is_last(rows: Seq<DbProvider>, i: int, name: Seq<char>)
    ensures
        rows.len() == 0 ==> next_position(rows) == 0,
        0 <= i < rows.len() ==> rows[i].position < next_position(rows),
        rows.len() > 0 ==> exists|k: int|
            0 <= k < rows.len() && (#[trigger] rows[k]).position + 1 == next_position(rows),
        0 <= i < rows.len() ==> name_taken(rows, rows[i].name@),
        (forall|k: int| 0 <= k < rows.len() ==> (#[trigger] rows[k]).name@ != name) ==> !name_taken(
            rows,
            name,
        ),
    decreases rows.len(),
{
    if rows.len() > 0 {
        let front = rows.drop_last();
        law_new_provider_is_last(front, i, name);
        if front.len() > 0 {
            let k = choose|k: int|
                0 <= k < front.len() && (#[trigger] front[k]).position + 1 == next_position(front);
            assert(rows[k] == front[k]);
        }
        assert(rows[rows.len() - 1] == rows.last());
        if 0 <= i < front.len() {
            assert(front[i] == rows[i]);
        }
    }
}

/// Providers are listed by position and then by id, each as often as it is
/// stored.
pub proof fn law_providers_are_listed_in_order(
    rows: Seq<DbProvider>,
    list: Seq<DbProvider>,
    i: int,
    j: int,
)
    requires
        loaded(rows, list),
    ensures
        0 <= i < j < list.len() ==> list[i].position < list[j].position || (list[i].position
            == list[j].position && list[i].id <= list[j].id),
        list.to_multiset() == rows.to_multiset(),
{
    if 0 <= i < j < list.len() {
        assert(!runs_before(list[j], list[i]));
    }
}

/// Moving a provider exchanges its position with that of the next provider in
/// the direction, which has none between them; the others stay, and so does
/// everything but the positions and the times of change.
pub proof fn law_moving_exchanges_neighbours(
    before: Seq<DbProvider>,
    after: Seq<DbProvider>,
    id: i64,
    direction: MoveDirection,
    now: Seq<char>,
    i: int,
    k: int,
)
    requires
        moves(before, after, id, direction, now),
        provider_at(before, id) == Some(i),
        0 <= i < before.len(),
        0 <= k < before.len(),
    ensures
        after.len() == before.len(),
        after[k].id == before[k].id && after[k].name@ == before[k].name@ && after[k].enabled
            == before[k].enabled && after[k].config@ == before[k].config@
            && after[k].provider_type@ == before[k].provider_type@,
        direction == MoveDirection::Up && before[k].position < before[i].position
            ==> after[i].position <= before[i].position && after[i].position >= before[k].position,
        direction == MoveDirection::Down && before[k].position > before[i].position
            ==> after[i].position >= before[i].position && after[i].position <= before[k].position,
        direction == MoveDirection::Up ==> after[i].position <= before[i].position,
        direction == MoveDirection::Down ==> after[i].position >= before[i].position,
        after[k] == before[k] || k == i || after[k].position == before[i].position,
        after[k] == before[k] || after[k].updated_at@ == now,
        after[k].created_at == before[k].created_at,
{
    if !at_edge(before, i, direction) {
        let j = choose|j: int|
            j != i && #[trigger] neighbour(before, i, direction, j) && swapped(
                before,
                after,
                i,
                j,
                now,
            );
        assert(neighbour(before, i, direction, j) && swapped(before, after, i, j, now));
        assert(before[j].id == after[j].id);
        assert(before[k] == before[k]);
    } else {
        assert(before[k] == before[k]);
    }
}

/// What each type of provider requires: its fields are set, or the first one
/// that is not is named.
pub proof fn law_required_fields(config: Seq<(Seq<char>, ConfigText)>, other: Seq<char>)
    ensures
        config_refusal("oidc"@, config) is None <==> field_set(config, "issuer_url"@)
            && field_set(config, "client_id"@) && field_set(config, "client_secret"@)
            && field_set(config, "redirect_uri"@),
        config_refusal("ldap"@, config) is None <==> field_set(config, "url"@) && field_set(
            config,
            "bind_dn"@,
        ) && field_set(config, "search_base"@),
        config_refusal("saml"@, config) is None <==> field_set(config, "idp_metadata_url"@)
            && field_set(config, "entity_id"@) && field_set(config, "acs_url"@),
        config_refusal("radius"@, config) is None <==> field_set(config, "hostname"@) && field_set(
            config,
            "auth_port"@,
        ) && field_set(config, "secret"@),
        config_refusal("database"@, config) is None,
        config_refusal("totp"@, config) is None,
        other != "oidc"@ && other != "ldap"@ && other != "saml"@ && other != "radius"@ && other
            != "database"@ && other != "totp"@ ==> config_refusal(other, config) == Some(
            "unknown provider type: "@ + other,
        ),
{
    reveal_strlit("oidc");
    reveal_strlit("ldap");
    reveal_strlit("saml");
    reveal_strlit("radius");
    reveal_strlit("database");
    reveal_strlit("totp");
    assert("oidc"@[0] == 'o' && "ldap"@[0] == 'l' && "saml"@[0] == 's' && "radius"@[0] == 'r'
        && "database"@[0] == 'd' && "totp"@[0] == 't');
    reveal_with_fuel(first_missing, 5);
    let o = seq!["issuer_url"@, "client_id"@, "client_secret"@, "redirect_uri"@];
    assert(o.skip(1) =~= seq!["client_id"@, "client_secret"@, "redirect_uri"@]);
    assert(o.skip(1).skip(1) =~= seq!["client_secret"@, "redirect_uri"@]);
    assert(o.skip(1).skip(1).skip(1) =~= seq!["redirect_uri"@]);
    let l = seq!["url"@, "bind_dn"@, "search_base"@];
    assert(l.skip(1) =~= seq!["bind_dn"@, "search_base"@]);
    assert(l.skip(1).skip(1) =~= seq!["search_base"@]);
    let s = seq!["idp_metadata_url"@, "entity_id"@, "acs_url"@];
    assert(s.skip(1) =~= seq!["entity_id"@, "acs_url"@]);
    assert(s.skip(1).skip(1) =~= seq!["acs_url"@]);
    let r = seq!["hostname"@, "auth_port"@, "secret"@];
    assert(r.skip(1) =~= seq!["auth_port"@, "secret"@]);
    assert(r.skip(1).skip(1) =~= seq!["secret"@]);
}

/// A refused config names its type and the first required field that is not
/// set.
pub proof fn law_missing_field_is_named(
    provider_type: Seq<char>,
    config: Seq<(Seq<char>, ConfigText)>,
    fields: Seq<Seq<char>>,
    k: int,
)
    requires
        required_fields(provider_type) == Some(fields),
        0 <= k < fields.len(),
        forall|j: int| 0 <= j < k ==> field_set(config, #[trigger] fields[j]),
        !field_set(config, fields[k]),
    ensures
        config_refusal(provider_type, config) == Some(
            "provider type '"@ + provider_type + "' requires '"@ + fields[k] + "'"@,
        ),
{
    lemma_first_missing(fields, config, k);
}

proof fn lemma_first_missing(
    fields: Seq<Seq<char>>,
    config: Seq<(Seq<char>, ConfigText)>,
    k: int,
)
    requires
        0 <= k < fields.len(),
        forall|j: int| 0 <= j < k ==> field_set(config, #[trigger] fields[j]),
        !field_set(config, fields[k]),
    ensures
        first_missing(fields, config) == Some(fields[k]),
    decreases k,
{
    if k > 0 {
        assert(field_set(config, fields[0]));
        let t = fields.skip(1);
        assert forall|j: int| 0 <= j < k - 1 implies field_set(config, #[trigger] t[j]) by {
            assert(t[j] == fields[j + 1]);
        }
        lemma_first_missing(t, config, k - 1);
    }
}

/// A text that is not blank and any number set a field; a blank text and
/// anything else do not.
pub proof fn law_set_fields(key: Seq<char>, s: Seq<char>, other: Seq<char>)
    ensures
        field_set(seq![(key, ConfigText::Text(s))], key) <==> trimmed(s).len() > 0,
        field_set(seq![(key, ConfigText::Number)], key),
        !field_set(seq![(key, ConfigText::Other)], key),
        other != key ==> !field_set(seq![(other, ConfigText::Number)], key),
        !field_set(Seq::empty(), key),
{
    let v = seq![(key, ConfigText::Text(s))];
    assert(v[0].0 == key);
    let n = seq![(key, ConfigText::Number)];
    assert(n[0].0 == key);
}

/// A member sets a field also where others stand beside it.
pub proof fn law_set_field_among_others(
    config: Seq<(Seq<char>, ConfigText)>,
    key: Seq<char>,
    i: int,
)
    requires
        0 <= i < config.len(),
        config[i].0 == key,
        config[i].1 is Number || (config[i].1 is Text && trimmed(config[i].1->Text_0).len() > 0),
    ensures
        field_set(config, key),
{
}

/// The members of a config are those of its JSON object, in their order, by
/// what they are; what is no object has none.
pub proof fn law_config_members(json: Seq<char>, m: Seq<(Seq<char>, Seq<char>)>, i: int)
    ensures
        json_of(json) == Ok::<JsonText, Seq<char>>(JsonText::Object(m)) ==> config_members(
            json,
        ).len() == m.len() && (0 <= i < m.len() ==> config_members(json)[i].0 == m[i].0 && match json_of(
            m[i].1,
        ) {
            Ok(JsonText::Text(s)) => config_members(json)[i].1 == ConfigText::Text(s),
            Ok(JsonText::Number(_)) => config_members(json)[i].1 == ConfigText::Number,
            _ => config_members(json)[i].1 == ConfigText::Other,
        }),
        !(json_of(json) is Ok && json_of(json)->Ok_0 is Object) ==> config_members(json).len() == 0,
{
}

// ── Copying address books ──
/// A run starts between two different backends, on one of the two scopes.
pub proof fn law_run_arguments(scope: Seq<char>, from: Seq<char>, to: Seq<char>)
    ensures
        argument_error(scope, from, to) is None <==> (scope == "shared"@ || scope == "instance"@)
            && from != to,
        scope != "shared"@ && scope != "instance"@ ==> argument_error(scope, from, to) == Some(
            "Error: --scope must be \"shared\" or \"instance\""@,
        ),
        (scope == "shared"@ || scope == "instance"@) && from == to ==> argument_error(
            scope,
            from,
            to,
        ) == Some("Error: --from and --to must name different backends"@),
{
}

/// A backend is connected where it is one of the three, configured, and its
/// own variable holds a secret; what is lacking is told.
pub proof fn law_backends(name: Seq<char>, configured: bool, secret: Option<Seq<char>>)
    ensures
        secret_variable("vault"@) == Some("VAULT_SECRET_ID"@),
        secret_variable("vault_shared"@) == Some("VAULT_SHARED_SECRET_ID"@),
        secret_variable("vault_local"@) == Some("VAULT_LOCAL_SECRET_ID"@),
        backend_error(name, configured, secret) is None <==> (name == "vault"@ || name
            == "vault_shared"@ || name == "vault_local"@) && configured && secret is Some
            && secret->0.len() > 0,
        name != "vault"@ && name != "vault_shared"@ && name != "vault_local"@ ==> backend_error(
            name,
            configured,
            secret,
        ) == Some(
            "Error: unknown backend '"@ + name + "' (use vault, vault_shared, or vault_local)"@,
        ),
        name == "vault"@ && !configured ==> backend_error(name, configured, secret) == Some(
            "Error: backend '"@ + name + "' is not configured in config.toml"@,
        ),
        name == "vault"@ && configured && secret is None ==> backend_error(name, configured, secret)
            == Some(
            "Error: "@ + "VAULT_SECRET_ID"@ + (" env var required for backend '"@ + name + "'"@),
        ),
{
    reveal_strlit("vault");
    reveal_strlit("vault_shared");
    reveal_strlit("vault_local");
    assert("vault"@.len() == 5 && "vault_shared"@.len() == 12 && "vault_local"@.len() == 11);
}

/// A folder lies where its backend says, else at its name, below the folder it
/// was listed under.
pub proof fn law_folder_paths(f: FolderInfo, parent: Seq<char>, v: Seq<FolderInfo>, i: int)
    ensures
        f.path is Some ==> top_path(f) == f.path->0@ && child_path(parent, f) == f.path->0@,
        f.path is None ==> top_path(f) == f.name@ && child_path(parent, f) == parent + "/"@
            + f.name@,
        top_paths(v).len() == v.len() && child_paths(parent, Some(v)).len() == v.len(),
        0 <= i < v.len() ==> top_paths(v)[i] == top_path(v[i]) && child_paths(parent, Some(v))[i]
            == child_path(parent, v[i]),
        child_paths(parent, None).len() == 0,
{
}

/// A walk lists the folders in the order in which they were found: first the top
/// ones, then what each listing adds behind all that were known.
pub proof fn law_folders_are_walked_in_order(
    w: FolderWalk,
    top: Seq<FolderInfo>,
    listings: Seq<Option<Seq<FolderInfo>>>,
    listing: Option<Seq<FolderInfo>>,
    ok: Option<Vec<FolderInfo>>,
)
    ensures
        walked(top, Seq::empty()) == top_paths(top),
        walked(top, listings.push(listing)) == walked(top, listings) + child_paths(
            walked(top, listings)[listings.len() as int],
            listing,
        ),
        ok is Some ==> listing_of(ok) == Some(ok->0@),
        ok is None ==> listing_of(ok) is None,
        w.follows(top, listings) ==> w.next == listings.len() && texts(w.paths@) == walked(
            top,
            listings,
        ),
{
    assert(listings.push(listing).drop_last() =~= listings);
}

/// An entry is skipped only where the target has it and a real run may not
/// replace it; it is copied where it was read and, but in a dry run, written;
/// everything else is a failure.
pub proof fn law_entry_outcomes(
    t: Tally,
    o: MigrateOptions,
    existing: bool,
    read: bool,
    written: bool,
)
    requires
        t.has_room(),
    ensures
        ({
            let a = after_entry(t, o, existing, read, written);
            let skip = existing && !o.overwrite && !o.dry_run;
            &&& a.entries_skipped == t.entries_skipped + 1 <==> skip
            &&& a.entries_copied == t.entries_copied + 1 <==> !skip && read && (o.dry_run
                || written)
            &&& a.failures == t.failures + 1 <==> !skip && (!read || (!o.dry_run && !written))
        }),
        writes(o, read) <==> read && !o.dry_run,
        writes_entry(o, existing, read) <==> read && !o.dry_run && (o.overwrite || !existing),
{
}

/// How a run is announced and summed up.
pub proof fn law_run_reports(
    o: MigrateOptions,
    t: Tally,
    scope: Seq<char>,
    from: Seq<char>,
    to: Seq<char>,
)
    ensures
        heading_text(false, scope, from, to) == "Copying "@ + (scope + " scope: "@ + from + (" -> "@
            + to)),
        heading_text(true, scope, from, to) == "[DRY RUN] Copy "@ + (scope + " scope: "@ + from + (
        " -> "@ + to)) + " (nothing will be written)"@,
        !o.dry_run && !o.include_users && t.failures == 0 ==> summary_text(o, t) == "Done: "@
            + digits(t.folders_done as nat) + " folders, "@ + digits(t.entries_copied as nat)
            + " entries copied ("@ + digits(t.entries_skipped as nat) + " skipped)"@ + "."@,
        !o.dry_run && o.include_users && t.failures > 0 ==> summary_text(o, t) == "Done: "@
            + digits(t.folders_done as nat) + " folders, "@ + digits(t.entries_copied as nat)
            + " entries copied ("@ + digits(t.entries_skipped as nat) + " skipped)"@ + ", "@
            + digits(t.users_copied as nat) + " user credential secrets"@ + ", "@ + digits(
            t.failures as nat,
        ) + " FAILURES"@ + "."@,
        o.dry_run && o.include_users && t.failures == 0 ==> summary_text(o, t) == "[DRY RUN] "@
            + digits(t.folders_done as nat) + " folders, "@ + digits(t.entries_copied as nat)
            + " entries would copy ("@ + digits(t.entries_skipped as nat) + " skipped)"@ + ", "@
            + digits(t.users_copied as nat) + " user credential secrets"@ + "."@,
{
    if !o.dry_run && !o.include_users && t.failures == 0 {
        assert(summary_text(o, t) =~= "Done: "@ + digits(t.folders_done as nat) + " folders, "@
            + digits(t.entries_copied as nat) + " entries copied ("@ + digits(
            t.entries_skipped as nat,
        ) + " skipped)"@ + "."@);
    }
    if !o.dry_run && o.include_users && t.failures > 0 {
        assert(summary_text(o, t) =~= "Done: "@ + digits(t.folders_done as nat) + " folders, "@
            + digits(t.entries_copied as nat) + " entries copied ("@ + digits(
            t.entries_skipped as nat,
        ) + " skipped)"@ + ", "@ + digits(t.users_copied as nat) + " user credential secrets"@
            + ", "@ + digits(t.failures as nat) + " FAILURES"@ + "."@);
    }
    if o.dry_run && o.include_users && t.failures == 0 {
        assert(summary_text(o, t) =~= "[DRY RUN] "@ + digits(t.folders_done as nat)
            + " folders, "@ + digits(t.entries_copied as nat) + " entries would copy ("@ + digits(
            t.entries_skipped as nat,
        ) + " skipped)"@ + ", "@ + digits(t.users_copied as nat) + " user credential secrets"@
            + "."@);
    }
}

// ── Counters ──
/// Each step moves its own counter by one, around the end of the range, and
/// leaves the others and the time of the start.
pub proof fn law_counters_count_their_own(m: Metrics, n: u64)
    ensures
        bumped(n) == (n + 1) % 0x1_0000_0000_0000_0000,
        dropped(n) == (n - 1) % 0x1_0000_0000_0000_0000,
        ({
            let a = counted(m, Counted::SessionActive);
            let i = counted(m, Counted::SessionInactive);
            let c = counted(m, Counted::SessionCreated);
            let r = counted(m, Counted::Request);
            let f = counted(m, Counted::Failure);
            &&& a == (Metrics { sessions_active: a.sessions_active, ..m })
            &&& a.sessions_active == (m.sessions_active + 1) % 0x1_0000_0000_0000_0000
            &&& i == (Metrics { sessions_active: i.sessions_active, ..m })
            &&& i.sessions_active == (m.sessions_active - 1) % 0x1_0000_0000_0000_0000
            &&& c == (Metrics { sessions_total: c.sessions_total, ..m })
            &&& c.sessions_total == (m.sessions_total + 1) % 0x1_0000_0000_0000_0000
            &&& r == (Metrics { requests_total: r.requests_total, ..m })
            &&& r.requests_total == (m.requests_total + 1) % 0x1_0000_0000_0000_0000
            &&& f == (Metrics { request_errors: f.request_errors, ..m })
            &&& f.request_errors == (m.request_errors + 1) % 0x1_0000_0000_0000_0000
        }),
{
}

/// The lines of the exposition: what each metric is called, what it is and what
/// it stands at.
pub proof fn law_exposition_lines(
    active: nat,
    total: nat,
    requests: nat,
    errors: nat,
    uptime: nat,
)
    ensures
        exposition(active, total, requests, errors, uptime) == seq![
            "# HELP "@ + "persea_sessions_active"@ + " "@ + "Current active sessions"@,
            "# TYPE "@ + "persea_sessions_active"@ + " "@ + "gauge"@,
            "persea_sessions_active"@ + " "@ + digits(active),
            "# HELP "@ + "persea_sessions_total"@ + " "@ + "Total sessions created"@,
            "# TYPE "@ + "persea_sessions_total"@ + " "@ + "counter"@,
            "persea_sessions_total"@ + " "@ + digits(total),
            "# HELP "@ + "persea_requests_total"@ + " "@ + "Total HTTP requests"@,
            "# TYPE "@ + "persea_requests_total"@ + " "@ + "counter"@,
            "persea_requests_total"@ + " "@ + digits(requests),
            "# HELP "@ + "persea_errors_total"@ + " "@ + "Total request errors (5xx responses)"@,
            "# TYPE "@ + "persea_errors_total"@ + " "@ + "counter"@,
            "persea_errors_total"@ + " "@ + digits(errors),
            "# HELP "@ + "persea_uptime_seconds"@ + " "@ + "Server uptime in seconds"@,
            "# TYPE "@ + "persea_uptime_seconds"@ + " "@ + "gauge"@,
            "persea_uptime_seconds"@ + " "@ + digits(uptime),
        ],
{
    assert(exposition(active, total, requests, errors, uptime) =~= seq![
        "# HELP "@ + "persea_sessions_active"@ + " "@ + "Current active sessions"@,
        "# TYPE "@ + "persea_sessions_active"@ + " "@ + "gauge"@,
        "persea_sessions_active"@ + " "@ + digits(active),
        "# HELP "@ + "persea_sessions_total"@ + " "@ + "Total sessions created"@,
        "# TYPE "@ + "persea_sessions_total"@ + " "@ + "counter"@,
        "persea_sessions_total"@ + " "@ + digits(total),
        "# HELP "@ + "persea_requests_total"@ + " "@ + "Total HTTP requests"@,
        "# TYPE "@ + "persea_requests_total"@ + " "@ + "counter"@,
        "persea_requests_total"@ + " "@ + digits(requests),
        "# HELP "@ + "persea_errors_total"@ + " "@ + "Total request errors (5xx responses)"@,
        "# TYPE "@ + "persea_errors_total"@ + " "@ + "counter"@,
        "persea_errors_total"@ + " "@ + digits(errors),
        "# HELP "@ + "persea_uptime_seconds"@ + " "@ + "Server uptime in seconds"@,
        "# TYPE "@ + "persea_uptime_seconds"@ + " "@ + "gauge"@,
        "persea_uptime_seconds"@ + " "@ + digits(uptime),
    ]);
}

/// Each line ends in a line feed, and the lines keep their order; a step more
/// is counted once.
pub proof fn law_lines_and_steps(
    lines: Seq<Seq<char>>,
    line: Seq<char>,
    steps: Seq<Counted>,
    step: Counted,
    other: Counted,
)
    ensures
        ended_lines(Seq::empty()).len() == 0,
        ended_lines(lines.push(line)) == ended_lines(lines) + line + "\n"@,
        times(Seq::empty(), step) == 0,
        times(steps.push(step), step) == times(steps, step) + 1,
        other != step ==> times(steps.push(step), other) == times(steps, other),
{
    assert(lines.push(line).drop_last() =~= lines);
    assert(steps.push(step).drop_last() =~= steps);
}

} // verus!
