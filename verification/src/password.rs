//! Passwords: hashing with Argon2id, the length policy, and the reuse history.

use crate::config::Config;
use crate::text::{
    chars, contains_char, decimal, digits, is_digit, join3, lemma_split_at,
    lemma_split_one, number, parse_upto, slice_text, split, split_on, starts_with, texts, unsigned,
};
use vstd::prelude::*;
use vstd::string::*;
use vstd::utf8::*;

verus! {

/// Argon2id memory in KiB (46 MiB).
pub const OWASP_MEMORY_KIB: u32 = 47104;

/// Argon2id iterations.
pub const OWASP_ITERATIONS: u32 = 3;

/// Argon2id parallelism.
pub const OWASP_PARALLELISM: u32 = 1;

/// The password policy in effect.
#[derive(Debug, Clone, Copy, PartialEq, Eq, Structural)]
pub struct PasswordPolicy {
    /// Minimum password length in characters (default 15).
    pub min_length: usize,
    /// Number of recent password hashes kept per user for reuse rejection
    /// (default 5; 0 = reuse checking disabled).
    pub history: usize,
}

impl Default for PasswordPolicy {
    fn default() -> (r: Self)
        ensures
            r == (PasswordPolicy { min_length: 15, history: 5 }),
    {
        PasswordPolicy { min_length: 15, history: 5 }
    }
}

impl PasswordPolicy {
    /// Build the policy from the configuration.
    pub fn from_config(config: &Config) -> (r: Self)
        ensures
            r == (PasswordPolicy {
                min_length: config.password_min_length,
                history: config.password_history_len,
            }),
    {
        PasswordPolicy {
            min_length: config.password_min_length,
            history: config.password_history_len,
        }
    }

    /// Reject passwords shorter than the configured minimum.
    pub fn check_length(&self, password: &str) -> (r: Result<(), String>)
        ensures
            match r {
                Ok(_) => password@.len() >= self.min_length,
                Err(e) => password@.len() < self.min_length && e@
                    == "password must be at least "@ + digits(self.min_length as nat)
                    + " characters long"@,
            },
    {
        let v = chars(password);
        if v.len() < self.min_length {
            return Err(
                join3(
                    "password must be at least ",
                    decimal(self.min_length as u64).as_str(),
                    " characters long",
                ),
            );
        }
        Ok(())
    }
}

// ── Hashing ──
/// A password could not be hashed, or a hash could not be read.
#[derive(Debug, Clone, Copy, PartialEq, Eq, Structural)]
pub struct HashError;

/// Whether a text is a password hash in the PHC string format.
pub uninterp spec fn is_hash(text: Seq<char>) -> bool;

/// `PasswordHash::new`: whether the text could be read as a password hash.
#[verifier::external_body]
fn hash_reads(text: &str) -> (r: bool)
    ensures
        r == is_hash(text@),
{
    argon2::PasswordHash::new(text).is_ok()
}

/// The field of a hash that holds its parameters: the third one where the
/// second is a version, else the second.
pub open spec fn cost_field(hash: Seq<char>) -> Seq<char> {
    let fields = split_on(hash, '$');
    if fields.len() <= 2 {
        Seq::empty()
    } else if "v="@.is_prefix_of(fields[2]) && !fields[2].contains(',') {
        if fields.len() == 3 {
            Seq::empty()
        } else {
            fields[3]
        }
    } else {
        fields[2]
    }
}

/// The value of a parameter: the last one with its name.
pub open spec fn cost_of(pairs: Seq<Seq<char>>, name: char) -> Option<Seq<char>>
    decreases pairs.len(),
{
    if pairs.len() == 0 {
        None
    } else if seq![name, '='].is_prefix_of(pairs.last()) {
        Some(pairs.last().skip(2))
    } else {
        cost_of(pairs.drop_last(), name)
    }
}

/// Whether a value is a number above a limit.
pub open spec fn above(value: Option<Seq<char>>, limit: nat) -> bool {
    match value {
        Some(v) => match unsigned(v) {
            Some(n) => n > limit,
            None => false,
        },
        None => false,
    }
}

/// Whether Argon2 can work with the costs that a hash names: eight blocks for
/// each lane can be counted in 32 bits, and the memory can be addressed.
pub open spec fn costs_in_reach(hash: Seq<char>) -> bool {
    let pairs = split_on(cost_field(hash), ',');
    !above(cost_of(pairs, 'p'), (u32::MAX / 8) as nat) && !above(
        cost_of(pairs, 'm'),
        (isize::MAX / 1024) as nat,
    )
}

/// Whether a password matches a stored hash.
pub uninterp spec fn password_matches(password: Seq<char>, hash: Seq<char>) -> bool;

/// `Argon2::verify_password` on what `PasswordHash::new` reads, where it can
/// read the hash: the costs come from the hash itself, and have to be within
/// reach.
#[verifier::external_body]
fn argon2_verify(password: &str, hash: &str) -> (r: bool)
    requires
        costs_in_reach(hash@),
    ensures
        r == password_matches(password@, hash@),
{
    match argon2::PasswordHash::new(hash) {
        Ok(parsed) => argon2::PasswordVerifier::verify_password(
            &argon2::Argon2::default(),
            password.as_bytes(),
            &parsed,
        ).is_ok(),
        Err(_) => false,
    }
}

/// What a password comes to against a stored hash: nothing for a text that is
/// no hash, and no match where Argon2 cannot work with its costs.
pub open spec fn hash_verdict(password: Seq<char>, hash: Seq<char>) -> Option<bool> {
    if !is_hash(hash) {
        None
    } else {
        Some(costs_in_reach(hash) && password_matches(password, hash))
    }
}

/// Whether a value is a number above a limit.
fn is_above(value: &str, limit: u64) -> (r: bool)
    ensures
        r == above(Some(value@), limit as nat),
{
    let v = chars(value);
    proof {
        assert(v@.subrange(0, v@.len() as int) =~= v@);
    }
    if parse_upto(&v, 0, v.len(), limit).is_some() {
        return false;
    }
    let start: usize = if v.len() > 0 && v[0] == '+' {
        1
    } else {
        0
    };
    let ghost body = v@.skip(start as int);
    let mut i: usize = start;
    while i < v.len()
        invariant
            start <= i <= v@.len(),
            v@ == value@,
            start == if v@.len() > 0 && v@[0] == '+' {
                1int
            } else {
                0int
            },
            body == v@.skip(start as int),
            forall|j: int| 0 <= j < i - start ==> is_digit(#[trigger] body[j]),
        decreases v@.len() - i,
    {
        if v[i] < '0' || v[i] > '9' {
            proof {
                assert(!is_digit(body[i - start]));
                assert(start == 0 ==> body =~= v@);
            }
            return false;
        }
        i = i + 1;
    }
    proof {
        assert(start == 0 ==> body =~= v@);
    }
    v.len() > start
}

/// Whether the last value of a parameter is a number above a limit.
fn cost_above(pairs: &Vec<String>, name: &str, c: char, limit: u64) -> (r: bool)
    requires
        name@ == seq![c, '='],
    ensures
        r == above(cost_of(texts(pairs@), c), limit as nat),
{
    let mut i: usize = pairs.len();
    proof {
        assert(texts(pairs@).take(i as int) =~= texts(pairs@));
    }
    while i > 0
        invariant
            i <= pairs@.len(),
            name@ == seq![c, '='],
            cost_of(texts(pairs@), c) == cost_of(texts(pairs@).take(i as int), c),
        decreases i,
    {
        proof {
            let t = texts(pairs@).take(i as int);
            assert(t.drop_last() =~= texts(pairs@).take(i - 1));
            assert(t.last() == pairs@[i - 1]@);
        }
        let pair = pairs[i - 1].as_str();
        if starts_with(pair, name) {
            let v = chars(pair);
            let value = slice_text(&v, 2, v.len());
            proof {
                assert(pair@.subrange(2, pair@.len() as int) =~= pair@.skip(2));
            }
            return is_above(value.as_str(), limit);
        }
        i = i - 1;
    }
    false
}

/// The field of a hash that holds its parameters.
fn parameters(hash: &str) -> (r: String)
    ensures
        r@ == cost_field(hash@),
{
    let fields = split(hash, '$');
    proof {
        assert(fields@.len() == texts(fields@).len());
    }
    if fields.len() <= 2 {
        return String::new();
    }
    let field = fields[2].as_str();
    proof {
        assert(field@ == texts(fields@)[2]);
    }
    if starts_with(field, "v=") && !contains_char(field, ',') {
        if fields.len() == 3 {
            String::new()
        } else {
            proof {
                assert(fields@[3]@ == texts(fields@)[3]);
            }
            fields[3].clone()
        }
    } else {
        fields[2].clone()
    }
}

/// Whether Argon2 can work with the costs that a hash names.
fn within_reach(hash: &str) -> (r: bool)
    ensures
        r == costs_in_reach(hash@),
{
    let field = parameters(hash);
    let pairs = split(field.as_str(), ',');
    proof {
        reveal_strlit("p=");
        reveal_strlit("m=");
        assert("p="@ =~= seq!['p', '=']);
        assert("m="@ =~= seq!['m', '=']);
    }
    !cost_above(&pairs, "p=", 'p', (u32::MAX / 8) as u64) && !cost_above(
        &pairs,
        "m=",
        'm',
        (isize::MAX / 1024) as u64,
    )
}

/// Whether Argon2 takes these costs.
pub open spec fn costs_accepted(memory_kib: int, iterations: int, parallelism: int) -> bool {
    &&& memory_kib >= 8
    &&& memory_kib >= 8 * parallelism
    &&& iterations >= 1
    &&& 1 <= parallelism <= 0xff_ffff
}

/// What an Argon2id hash begins with: the algorithm, its version and the
/// costs.
pub open spec fn hash_head(memory_kib: nat, iterations: nat, parallelism: nat) -> Seq<char> {
    "$argon2id$v=19$m="@ + digits(memory_kib) + ",t="@ + digits(iterations) + ",p="@ + digits(
        parallelism,
    ) + "$"@
}

/// `Argon2::hash_password` with Argon2id and a fresh random salt: a hash that
/// begins with its algorithm and its costs, and that the password matches. It
/// fails only where the costs are not accepted or the password is longer than
/// Argon2 allows. Which salt was drawn depends on chance and is left unsaid.
#[verifier::external_body]
fn argon2_hash(password: &str, memory_kib: u32, iterations: u32, parallelism: u32) -> (r: Option<
    String,
>)
    requires
        8 * parallelism <= u32::MAX,
        1024 * memory_kib <= isize::MAX,
    ensures
        r is Some == (costs_accepted(memory_kib as int, iterations as int, parallelism as int)
            && password.spec_bytes().len() <= 0xffff_ffff),
        r is Some ==> is_hash(r->0@),
        r is Some ==> password_matches(password@, r->0@),
        r is Some ==> hash_head(
            memory_kib as nat,
            iterations as nat,
            parallelism as nat,
        ).is_prefix_of(r->0@),
{
    let salt = argon2::password_hash::SaltString::generate(
        &mut argon2::password_hash::rand_core::OsRng,
    );
    let params = argon2::Params::new(memory_kib, iterations, parallelism, None).ok()?;
    let hasher = argon2::Argon2::new(argon2::Algorithm::Argon2id, argon2::Version::V0x13, params);
    argon2::PasswordHasher::hash_password(&hasher, password.as_bytes(), &salt).ok().map(
        |h| h.to_string(),
    )
}

/// The costs in use, as a hash writes them.
proof fn lemma_owasp_head()
    ensures
        hash_head(47104, 3, 1) == "$argon2id$v=19$m=47104,t=3,p=1$"@,
{
    reveal_strlit("$argon2id$v=19$m=");
    reveal_strlit(",t=");
    reveal_strlit(",p=");
    reveal_strlit("$");
    reveal_strlit("$argon2id$v=19$m=47104,t=3,p=1$");
    reveal_with_fuel(digits, 6);
    assert(digits(47104) =~= seq!['4', '7', '1', '0', '4']);
    assert(digits(3) =~= seq!['3']);
    assert(digits(1) =~= seq!['1']);
    assert(hash_head(47104, 3, 1) =~= "$argon2id$v=19$m=47104,t=3,p=1$"@);
}

/// The costs in use are within reach.
proof fn lemma_owasp_costs(hash: Seq<char>)
    requires
        "$argon2id$v=19$m=47104,t=3,p=1$"@.is_prefix_of(hash),
    ensures
        costs_in_reach(hash),
{
    reveal_strlit("$argon2id$v=19$m=47104,t=3,p=1$");
    reveal_strlit("v=");
    let head = "$argon2id$v=19$m=47104,t=3,p=1$"@;
    let none = Seq::<char>::empty();
    let id = seq!['a', 'r', 'g', 'o', 'n', '2', 'i', 'd'];
    let version = seq!['v', '=', '1', '9'];
    let m = seq!['m', '=', '4', '7', '1', '0', '4'];
    let t = seq!['t', '=', '3'];
    let p = seq!['p', '=', '1'];
    let field = m.push(',') + (t.push(',') + p);
    let rest = hash.skip(head.len() as int);
    let tail = field.push('$') + rest;
    assert(head =~= none.push('$') + (id.push('$') + (version.push('$') + field.push('$'))));
    assert(hash =~= head + rest);
    assert(hash =~= none.push('$') + (id.push('$') + (version.push('$') + tail)));
    lemma_split_at(none, '$', id.push('$') + (version.push('$') + tail));
    lemma_split_at(id, '$', version.push('$') + tail);
    lemma_split_at(version, '$', tail);
    lemma_split_at(field, '$', rest);
    lemma_split_one(none, '$');
    lemma_split_one(id, '$');
    lemma_split_one(version, '$');
    lemma_split_one(field, '$');
    let fields = split_on(hash, '$');
    assert(fields =~= seq![none, id, version, field] + split_on(rest, '$'));
    assert(fields[2] == version);
    assert(version.subrange(0, 2) =~= "v="@);
    assert(cost_field(hash) == field);
    lemma_split_at(m, ',', t.push(',') + p);
    lemma_split_at(t, ',', p);
    lemma_split_one(m, ',');
    lemma_split_one(t, ',');
    lemma_split_one(p, ',');
    let pairs = split_on(field, ',');
    assert(pairs =~= seq![m, t, p]);
    assert(pairs.drop_last() =~= seq![m, t]);
    assert(pairs.drop_last().drop_last() =~= seq![m]);
    reveal_with_fuel(cost_of, 4);
    assert(p.subrange(0, 2) =~= seq!['p', '=']);
    assert(m.subrange(0, 2) =~= seq!['m', '=']);
    assert(p.skip(2) =~= seq!['1']);
    assert(m.skip(2) =~= seq!['4', '7', '1', '0', '4']);
    assert(cost_of(pairs, 'p') == Some(seq!['1']));
    assert(p[0] != 'm' && t[0] != 'm');
    assert(cost_of(pairs, 'm') == Some(seq!['4', '7', '1', '0', '4']));
    reveal_with_fuel(number, 6);
    let n = seq!['4', '7', '1', '0', '4'];
    assert(n.drop_last() =~= seq!['4', '7', '1', '0']);
    assert(seq!['4', '7', '1', '0'].drop_last() =~= seq!['4', '7', '1']);
    assert(seq!['4', '7', '1'].drop_last() =~= seq!['4', '7']);
    assert(seq!['4', '7'].drop_last() =~= seq!['4']);
    assert(number(n) == 47104);
    assert(number(seq!['1']) == 1);
}

/// Hash a plaintext password using Argon2id with the OWASP parameters. The
/// result holds the hash and all parameters, and the password matches it. Only
/// a password of more than `u32::MAX` bytes cannot be hashed.
pub fn hash_password(password: &str) -> (r: Result<String, HashError>)
    ensures
        r is Ok <==> password.spec_bytes().len() <= u32::MAX,
        r is Ok ==> hash_verdict(password@, r->Ok_0@) == Some(true),
        r is Ok ==> "$argon2id$v=19$m=47104,t=3,p=1$"@.is_prefix_of(r->Ok_0@),
{
    proof {
        lemma_owasp_head();
    }
    match argon2_hash(password, OWASP_MEMORY_KIB, OWASP_ITERATIONS, OWASP_PARALLELISM) {
        Some(h) => {
            proof {
                lemma_owasp_costs(h@);
            }
            Ok(h)
        },
        None => Err(HashError),
    }
}

/// Verify a plaintext password against a stored hash. A hash whose costs are
/// out of Argon2's reach matches no password.
pub fn verify_password(password: &str, hash: &str) -> (r: Result<bool, HashError>)
    ensures
        r == match hash_verdict(password@, hash@) {
            Some(b) => Ok::<bool, HashError>(b),
            None => Err::<bool, HashError>(HashError),
        },
{
    if !hash_reads(hash) {
        return Err(HashError);
    }
    Ok(within_reach(hash) && argon2_verify(password, hash))
}

// ── Reuse history ──
/// A password that a user had.
#[derive(Debug)]
pub struct HistoryRow {
    pub user_id: i64,
    pub password_hash: String,
}

/// The passwords that users had, oldest first.
pub struct PasswordHistory {
    pub rows: Vec<HistoryRow>,
}

/// The hashes of a user, newest first.
pub open spec fn hashes_of(rows: Seq<HistoryRow>, user_id: i64) -> Seq<String>
    decreases rows.len(),
{
    if rows.len() == 0 {
        Seq::empty()
    } else {
        let older = hashes_of(rows.drop_last(), user_id);
        if rows.last().user_id == user_id {
            seq![rows.last().password_hash] + older
        } else {
            older
        }
    }
}

/// The first `n` of a list, or all of it.
pub open spec fn at_most<T>(s: Seq<T>, n: int) -> Seq<T> {
    if s.len() <= n {
        s
    } else {
        s.take(n)
    }
}

/// The most recent `keep` password hashes of a user, newest first; none where
/// `keep` is 0.
pub fn recent_password_hashes(db: &PasswordHistory, user_id: i64, keep: usize) -> (r: Vec<String>)
    ensures
        r@ == at_most(hashes_of(db.rows@, user_id), keep as int),
{
    let ghost all = hashes_of(db.rows@, user_id);
    let mut out: Vec<String> = Vec::new();
    let mut i: usize = db.rows.len();
    proof {
        assert(db.rows@.take(i as int) =~= db.rows@);
        assert(out@ + all =~= all);
    }
    while i > 0 && out.len() < keep
        invariant
            i <= db.rows@.len(),
            out@.len() <= keep,
            all == hashes_of(db.rows@, user_id),
            out@ + hashes_of(db.rows@.take(i as int), user_id) == all,
        decreases i,
    {
        let ghost before = out@;
        let row = &db.rows[i - 1];
        proof {
            assert(db.rows@.take(i as int).drop_last() =~= db.rows@.take(i - 1));
        }
        if row.user_id == user_id {
            out.push(row.password_hash.clone());
            proof {
                let older = hashes_of(db.rows@.take(i - 1), user_id);
                assert(before + (seq![row.password_hash] + older) =~= out@ + older);
            }
        }
        i = i - 1;
    }
    proof {
        if i == 0 {
            assert(db.rows@.take(0) =~= Seq::empty());
            assert(out@ + Seq::<String>::empty() =~= out@);
        }
        assert(out@ =~= at_most(all, keep as int));
    }
    out
}

/// `true` when the password matches any of the user's last `keep` stored
/// hashes: it has been used recently and must be rejected.
pub fn password_is_recent(db: &PasswordHistory, user_id: i64, password: &str, keep: usize) -> (r: bool)
    ensures
        r == exists|i: int|
            0 <= i < at_most(hashes_of(db.rows@, user_id), keep as int).len() && hash_verdict(
                password@,
                (#[trigger] at_most(hashes_of(db.rows@, user_id), keep as int)[i])@,
            ) == Some(true),
{
    let hashes = recent_password_hashes(db, user_id, keep);
    let mut i: usize = 0;
    while i < hashes.len()
        invariant
            i <= hashes@.len(),
            hashes@ == at_most(hashes_of(db.rows@, user_id), keep as int),
            forall|j: int|
                0 <= j < i ==> hash_verdict(password@, (#[trigger] hashes@[j])@) != Some(true),
        decreases hashes@.len() - i,
    {
        if let Ok(true) = verify_password(password, hashes[i].as_str()) {
            return true;
        }
        i = i + 1;
    }
    false
}

/// The rows with only the newest `keep` of a user among them.
pub open spec fn trimmed_rows(rows: Seq<HistoryRow>, user_id: i64, keep: int) -> Seq<HistoryRow>
    decreases rows.len(),
{
    if rows.len() == 0 {
        rows
    } else if rows.last().user_id == user_id {
        if keep > 0 {
            trimmed_rows(rows.drop_last(), user_id, keep - 1).push(rows.last())
        } else {
            trimmed_rows(rows.drop_last(), user_id, keep)
        }
    } else {
        trimmed_rows(rows.drop_last(), user_id, keep).push(rows.last())
    }
}

/// Record a new password hash in the user's history, keeping at most `keep`
/// entries (newest wins). A `keep` of 0 disables history.
pub fn record_password_history(
    db: &mut PasswordHistory,
    user_id: i64,
    password_hash: &str,
    keep: usize,
)
    ensures
        keep == 0 ==> final(db).rows@ == old(db).rows@,
        keep > 0 ==> exists|row: HistoryRow|
            row.user_id == user_id && row.password_hash@ == password_hash@ && final(db).rows@
                == #[trigger] trimmed_rows(old(db).rows@.push(row), user_id, keep as int),
{
    if keep == 0 {
        return;
    }
    let row = HistoryRow { user_id, password_hash: password_hash.to_owned() };
    let ghost all = db.rows@.push(row);
    db.rows.push(row);
    let mut left: usize = keep;
    let mut i: usize = db.rows.len();
    proof {
        assert(all.take(i as int) =~= all);
        assert(all.skip(i as int) =~= Seq::empty());
        assert(trimmed_rows(all, user_id, keep as int) + Seq::<HistoryRow>::empty()
            =~= trimmed_rows(all, user_id, keep as int));
    }
    let ghost tail = Seq::<HistoryRow>::empty();
    while i > 0
        invariant
            i <= db.rows@.len(),
            i <= all.len(),
            left <= keep,
            db.rows@ == all.take(i as int) + tail,
            trimmed_rows(all.take(i as int), user_id, left as int) + tail == trimmed_rows(
                all,
                user_id,
                keep as int,
            ),
        decreases i,
    {
        let ghost t = all.take(i as int);
        let ghost last = all[i - 1];
        proof {
            assert(t.drop_last() =~= all.take(i - 1));
            assert(db.rows@[i - 1] == last);
        }
        i = i - 1;
        if db.rows[i].user_id == user_id {
            if left > 0 {
                left = left - 1;
                proof {
                    assert(db.rows@ =~= all.take(i as int) + (seq![last] + tail));
                    assert(trimmed_rows(all.take(i as int), user_id, left as int).push(last) + tail
                        =~= trimmed_rows(all.take(i as int), user_id, left as int) + (seq![last]
                        + tail));
                    tail = seq![last] + tail;
                }
            } else {
                db.rows.remove(i);
                proof {
                    assert(db.rows@ =~= all.take(i as int) + tail);
                }
            }
        } else {
            proof {
                assert(db.rows@ =~= all.take(i as int) + (seq![last] + tail));
                assert(trimmed_rows(all.take(i as int), user_id, left as int).push(last) + tail
                    =~= trimmed_rows(all.take(i as int), user_id, left as int) + (seq![last]
                    + tail));
                tail = seq![last] + tail;
            }
        }
    }
    proof {
        assert(all.take(0) =~= Seq::empty());
        assert(Seq::<HistoryRow>::empty() + tail =~= tail);
    }
}

/// Trimming a history leaves a user the newest hashes, at most `keep`, and
/// every other user theirs.
pub proof fn law_trim_keeps_newest(rows: Seq<HistoryRow>, user_id: i64, keep: int, other: i64)
    requires
        keep >= 0,
    ensures
        hashes_of(trimmed_rows(rows, user_id, keep), user_id) == at_most(
            hashes_of(rows, user_id),
            keep,
        ),
        other != user_id ==> hashes_of(trimmed_rows(rows, user_id, keep), other) == hashes_of(
            rows,
            other,
        ),
    decreases rows.len(),
{
    if rows.len() > 0 {
        let front = rows.drop_last();
        let own = rows.last().user_id == user_id;
        let less = if own && keep > 0 {
            keep - 1
        } else {
            keep
        };
        law_trim_keeps_newest(front, user_id, less, other);
        let t = trimmed_rows(front, user_id, less);
        if own && keep == 0 {
            assert(at_most(hashes_of(rows, user_id), 0) =~= at_most(hashes_of(front, user_id), 0));
        } else {
            assert(t.push(rows.last()).drop_last() =~= t);
            if own {
                assert(seq![rows.last().password_hash] + at_most(
                    hashes_of(front, user_id),
                    keep - 1,
                ) =~= at_most(hashes_of(rows, user_id), keep));
            }
        }
    } else {
        assert(at_most(hashes_of(rows, user_id), keep) =~= hashes_of(rows, user_id));
    }
}

/// A password that was just recorded is the newest of its user.
pub proof fn law_recorded_is_newest(rows: Seq<HistoryRow>, row: HistoryRow, keep: int)
    requires
        keep > 0,
    ensures
        hashes_of(trimmed_rows(rows.push(row), row.user_id, keep), row.user_id)[0]
            == row.password_hash,
        hashes_of(trimmed_rows(rows.push(row), row.user_id, keep), row.user_id).len() <= keep,
{
    law_trim_keeps_newest(rows.push(row), row.user_id, keep, row.user_id);
    assert(rows.push(row).drop_last() =~= rows);
}

/// A password cannot be used again right after it was recorded: it counts as
/// recent while any history is kept.
pub proof fn law_recorded_is_recent(
    rows: Seq<HistoryRow>,
    row: HistoryRow,
    keep: int,
    password: Seq<char>,
)
    requires
        keep > 0,
        hash_verdict(password, row.password_hash@) == Some(true),
    ensures
        ({
            let after = trimmed_rows(rows.push(row), row.user_id, keep);
            exists|i: int|
                0 <= i < at_most(hashes_of(after, row.user_id), keep).len() && hash_verdict(
                    password,
                    (#[trigger] at_most(hashes_of(after, row.user_id), keep)[i])@,
                ) == Some(true)
        }),
{
    law_recorded_is_newest(rows, row, keep);
    law_trim_keeps_newest(rows.push(row), row.user_id, keep, row.user_id);
    let after = trimmed_rows(rows.push(row), row.user_id, keep);
    let recent = at_most(hashes_of(after, row.user_id), keep);
    assert(rows.push(row).drop_last() =~= rows);
    assert(hashes_of(rows.push(row), row.user_id).len() > 0);
    assert(recent[0] == row.password_hash);
}

// ── Stored passwords ──
/// The password hash of a user.
#[derive(Debug)]
pub struct StoredPassword {
    pub user_id: i64,
    pub password_hash: String,
}

/// Replace a user's stored password hash.
pub fn update_user_password_hash(users: &mut Vec<StoredPassword>, user_id: i64, password_hash: &str)
    ensures
        final(users)@.len() == old(users)@.len(),
        forall|i: int|
            0 <= i < final(users)@.len() ==> (#[trigger] final(users)@[i]).user_id
                == old(users)@[i].user_id && if old(users)@[i].user_id == user_id {
                final(users)@[i].password_hash@ == password_hash@
            } else {
                final(users)@[i] == old(users)@[i]
            },
{
    let n: usize = users.len();
    let mut i: usize = 0;
    while i < n
        invariant
            i <= n,
            n == users@.len(),
            n == old(users)@.len(),
            forall|j: int| i <= j < n ==> #[trigger] users@[j] == old(users)@[j],
            forall|j: int|
                0 <= j < i ==> (#[trigger] users@[j]).user_id == old(users)@[j].user_id
                    && if old(users)@[j].user_id == user_id {
                    users@[j].password_hash@ == password_hash@
                } else {
                    users@[j] == old(users)@[j]
                },
        decreases n - i,
    {
        proof {
            assert(users@[i as int] == old(users)@[i as int]);
        }
        if users[i].user_id == user_id {
            users[i] = StoredPassword { user_id, password_hash: password_hash.to_owned() };
        }
        i = i + 1;
    }
}

} // verus!
