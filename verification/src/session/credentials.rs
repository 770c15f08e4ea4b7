//! Transient session-scoped credential retention.
//!
//! The password of a successful login is kept for the lifetime of the auth
//! session that minted it, encrypted with the storage key. Entries are keyed
//! by the SHA-256 hash of the session token, so the token itself is kept
//! nowhere; each is bound to its user and to an end, and lookups fail closed
//! on expiry or on another user.

use crate::outside::{hex_encode, hex_text, sha256, sha256_digest};
use crate::text::same_text;
use crate::time::Timestamp;
use vstd::prelude::*;
use vstd::string::*;
use vstd::utf8::*;

verus! {

/// One retained login credential, scoped to an auth session.
#[derive(Debug)]
pub struct RetainedSessionCredential {
    /// The user the credential belongs to.
    pub user_id: i64,
    /// Login username as typed at login.
    pub username: String,
    /// Ciphertext of the login password.
    pub password_enc: String,
    /// Session end: lookups fail closed from this instant on.
    pub expires_at: Timestamp,
}

impl RetainedSessionCredential {
    /// A copy of the credential.
    pub fn copy(&self) -> (r: Self)
        ensures
            r == *self,
    {
        RetainedSessionCredential {
            user_id: self.user_id,
            username: self.username.clone(),
            password_enc: self.password_enc.clone(),
            expires_at: self.expires_at,
        }
    }
}

/// The entries of a store, each with its key.
pub type Entries = Seq<(Seq<char>, RetainedSessionCredential)>;

/// The key of a session token.
pub open spec fn token_key(token: Seq<char>) -> Seq<char> {
    hex_text(sha256(encode_utf8(token)))
}

/// The SHA-256 hex key for a session token.
pub(crate) fn session_key(session_token: &str) -> (r: String)
    ensures
        r@ == token_key(session_token@),
{
    let digest = sha256_digest(session_token.as_bytes());
    hex_encode(digest.as_slice())
}

/// The position of a key, or the number of entries.
pub open spec fn key_at(s: Entries, key: Seq<char>) -> nat
    decreases s.len(),
{
    if s.len() == 0 || s[0].0 == key {
        0
    } else {
        1 + key_at(s.skip(1), key)
    }
}

/// The credential under a key.
pub open spec fn lookup(s: Entries, key: Seq<char>) -> Option<RetainedSessionCredential> {
    if key_at(s, key) < s.len() {
        Some(s[key_at(s, key) as int].1)
    } else {
        None
    }
}

/// The entries that have not reached their end at `now`.
pub open spec fn unexpired(s: Entries, now: Timestamp) -> Entries
    decreases s.len(),
{
    if s.len() == 0 {
        s
    } else if s.last().1.expires_at.ticks() > now.ticks() {
        unexpired(s.drop_last(), now).push(s.last())
    } else {
        unexpired(s.drop_last(), now)
    }
}

/// The entries with `cred` under `key`, in place of what was there.
pub open spec fn stored(s: Entries, key: Seq<char>, cred: RetainedSessionCredential) -> Entries {
    if key_at(s, key) < s.len() {
        s.update(key_at(s, key) as int, (key, cred))
    } else {
        s.push((key, cred))
    }
}

/// The entries without the one under `key`.
pub open spec fn dropped(s: Entries, key: Seq<char>) -> Entries {
    if key_at(s, key) < s.len() {
        s.remove(key_at(s, key) as int)
    } else {
        s
    }
}

/// No two entries have the same key.
pub open spec fn distinct_keys(s: Entries) -> bool {
    forall|i: int, j: int| 0 <= i < j < s.len() ==> s[i].0 != s[j].0
}

proof fn lemma_key_at(s: Entries, key: Seq<char>)
    ensures
        key_at(s, key) <= s.len(),
        key_at(s, key) < s.len() ==> s[key_at(s, key) as int].0 == key,
        forall|i: int| 0 <= i < key_at(s, key) ==> (#[trigger] s[i]).0 != key,
    decreases s.len(),
{
    if s.len() > 0 && s[0].0 != key {
        lemma_key_at(s.skip(1), key);
        assert forall|i: int| 0 <= i < key_at(s, key) implies (#[trigger] s[i]).0 != key by {
            if i > 0 {
                assert(s[i] == s.skip(1)[i - 1]);
            }
        }
    }
}

proof fn lemma_key_at_is(s: Entries, key: Seq<char>, k: int)
    requires
        0 <= k <= s.len(),
        k < s.len() ==> s[k].0 == key,
        forall|i: int| 0 <= i < k ==> (#[trigger] s[i]).0 != key,
    ensures
        key_at(s, key) == k,
{
    lemma_key_at(s, key);
    let f = key_at(s, key) as int;
    if f < k {
        assert(s[f].0 == key);
    } else if k < f {
        assert(s[k].0 != key);
    }
}

/// In-memory, session-keyed store of retained login credentials.
pub struct SessionCredentialStore {
    entries: Vec<(String, RetainedSessionCredential)>,
}

/// The entries with their keys as character sequences.
spec fn keyed(v: Seq<(String, RetainedSessionCredential)>) -> Entries {
    Seq::new(v.len(), |i: int| (v[i].0@, v[i].1))
}

impl View for SessionCredentialStore {
    type V = Entries;

    closed spec fn view(&self) -> Entries {
        keyed(self.entries@)
    }
}

impl Default for SessionCredentialStore {
    fn default() -> (r: Self)
        ensures
            r@ == Entries::empty(),
    {
        SessionCredentialStore::new()
    }
}

impl SessionCredentialStore {
    /// An empty store.
    pub fn new() -> (r: Self)
        ensures
            r@ == Entries::empty(),
    {
        let r = SessionCredentialStore { entries: Vec::new() };
        proof {
            assert(r@ =~= Entries::empty());
        }
        r
    }

    fn position(&self, key: &str) -> (r: usize)
        ensures
            r == key_at(self@, key@),
            r <= self.entries@.len(),
    {
        let mut i: usize = 0;
        while i < self.entries.len()
            invariant
                i <= self.entries@.len(),
                forall|j: int| 0 <= j < i ==> (#[trigger] self@[j]).0 != key@,
            decreases self.entries@.len() - i,
        {
            if same_text(self.entries[i].0.as_str(), key) {
                proof {
                    assert(self@[i as int].0 == key@);
                    lemma_key_at_is(self@, key@, i as int);
                }
                return i;
            }
            proof {
                assert(self@[i as int].0 != key@);
            }
            i = i + 1;
        }
        proof {
            lemma_key_at_is(self@, key@, i as int);
        }
        i
    }

    /// Remove entries that have passed their end. Returns how many were
    /// removed.
    pub fn prune_expired(&mut self, now: Timestamp) -> (r: usize)
        ensures
            final(self)@ == unexpired(old(self)@, now),
            r == old(self)@.len() - final(self)@.len(),
    {
        let before: usize = self.entries.len();
        let mut kept: Vec<(String, RetainedSessionCredential)> = Vec::new();
        let mut i: usize = 0;
        proof {
            assert(keyed(kept@) =~= unexpired(self@.take(0), now));
        }
        while i < self.entries.len()
            invariant
                i <= self.entries@.len(),
                self.entries@ == old(self).entries@,
                keyed(kept@) == unexpired(self@.take(i as int), now),
                kept@.len() <= i,
            decreases self.entries@.len() - i,
        {
            let ghost was = kept@;
            let e = &self.entries[i];
            proof {
                assert(self@.take(i + 1).drop_last() =~= self@.take(i as int));
                assert(self@.take(i + 1).last() == (e.0@, e.1));
            }
            if e.1.expires_at.is_after(&now) {
                kept.push((e.0.clone(), e.1.copy()));
                proof {
                    assert(keyed(kept@) =~= keyed(was).push((e.0@, e.1)));
                }
            }
            i = i + 1;
        }
        proof {
            assert(self@.take(i as int) =~= self@);
        }
        self.entries = kept;
        before - self.entries.len()
    }

    /// Store a credential for a session, replacing any previous entry for
    /// the same session. Expired entries are pruned first.
    pub fn store(&mut self, session_token: &str, cred: RetainedSessionCredential, now: Timestamp)
        ensures
            final(self)@ == stored(unexpired(old(self)@, now), token_key(session_token@), cred),
    {
        self.prune_expired(now);
        let key = session_key(session_token);
        let ghost before = self@;
        let ghost k = key@;
        let at = self.position(key.as_str());
        if at < self.entries.len() {
            self.entries[at] = (key, cred);
            proof {
                assert(self@ =~= before.update(at as int, (k, cred)));
            }
        } else {
            self.entries.push((key, cred));
            proof {
                assert(self@ =~= before.push((k, cred)));
            }
        }
    }

    /// Owning-session lookup: the entry for `session_token` only when it
    /// exists, is unexpired, and belongs to `user_id`. Any other outcome
    /// returns `None`. Expired entries are pruned as a side effect.
    pub fn get(&mut self, session_token: &str, user_id: i64, now: Timestamp) -> (r: Option<
        RetainedSessionCredential,
    >)
        ensures
            final(self)@ == unexpired(old(self)@, now),
            r == owned(lookup(final(self)@, token_key(session_token@)), user_id),
    {
        self.prune_expired(now);
        let key = session_key(session_token);
        let at = self.position(key.as_str());
        if at < self.entries.len() {
            let e = &self.entries[at].1;
            if e.user_id == user_id {
                return Some(e.copy());
            }
        }
        None
    }

    /// Remove the entry for a session (logout/revocation paths). Returns
    /// true when an entry was removed.
    pub fn remove(&mut self, session_token: &str) -> (r: bool)
        ensures
            final(self)@ == dropped(old(self)@, token_key(session_token@)),
            r == lookup(old(self)@, token_key(session_token@)) is Some,
    {
        let key = session_key(session_token);
        self.remove_key(key.as_str())
    }

    /// Remove the entry for a known key (token hash).
    pub fn remove_key(&mut self, key: &str) -> (r: bool)
        ensures
            final(self)@ == dropped(old(self)@, key@),
            r == lookup(old(self)@, key@) is Some,
    {
        let ghost before = self@;
        let at = self.position(key);
        if at < self.entries.len() {
            self.entries.remove(at);
            proof {
                assert(self@ =~= before.remove(at as int));
            }
            true
        } else {
            false
        }
    }

    /// All current entry keys (token hashes), for the liveness prune.
    pub fn keys(&self) -> (r: Vec<String>)
        ensures
            r@.len() == self@.len(),
            forall|i: int| 0 <= i < r@.len() ==> (#[trigger] r@[i])@ == self@[i].0,
    {
        let mut r: Vec<String> = Vec::new();
        let mut i: usize = 0;
        while i < self.entries.len()
            invariant
                i <= self.entries@.len(),
                r@.len() == i,
                forall|j: int| 0 <= j < i ==> (#[trigger] r@[j])@ == self@[j].0,
            decreases self.entries@.len() - i,
        {
            r.push(self.entries[i].0.clone());
            i = i + 1;
        }
        r
    }

    /// Drop every entry.
    pub fn clear_all(&mut self)
        ensures
            final(self)@ == Entries::empty(),
    {
        self.entries = Vec::new();
        proof {
            assert(self@ =~= Entries::empty());
        }
    }

    /// Number of retained entries.
    pub fn len(&self) -> (r: usize)
        ensures
            r == self@.len(),
    {
        self.entries.len()
    }

    /// Whether the store holds no entries.
    pub fn is_empty(&self) -> (r: bool)
        ensures
            r == (self@.len() == 0),
    {
        self.entries.len() == 0
    }
}

/// A credential, if it belongs to `user_id`.
pub open spec fn owned(
    found: Option<RetainedSessionCredential>,
    user_id: i64,
) -> Option<RetainedSessionCredential> {
    match found {
        Some(e) => if e.user_id == user_id {
            Some(e)
        } else {
            None
        },
        None => None,
    }
}

proof fn lemma_unexpired(s: Entries, now: Timestamp)
    ensures
        forall|i: int|
            0 <= i < unexpired(s, now).len() ==> (#[trigger] unexpired(
                s,
                now,
            )[i]).1.expires_at.ticks() > now.ticks() && s.contains(unexpired(s, now)[i]),
        forall|i: int|
            0 <= i < s.len() && (#[trigger] s[i]).1.expires_at.ticks() > now.ticks()
                ==> unexpired(s, now).contains(s[i]),
        distinct_keys(s) ==> distinct_keys(unexpired(s, now)),
    decreases s.len(),
{
    if s.len() > 0 {
        let front = s.drop_last();
        let u = unexpired(front, now);
        let all = unexpired(s, now);
        lemma_unexpired(front, now);
        assert forall|i: int| 0 <= i < all.len() implies (#[trigger] all[i]).1.expires_at.ticks()
            > now.ticks() && s.contains(all[i]) by {
            if i < u.len() {
                assert(all[i] == u[i]);
                let k = choose|k: int| 0 <= k < front.len() && front[k] == u[i];
                assert(s[k] == all[i]);
            } else {
                assert(s[s.len() - 1] == all[i]);
            }
        }
        assert forall|i: int|
            0 <= i < s.len() && (#[trigger] s[i]).1.expires_at.ticks()
                > now.ticks() implies all.contains(s[i]) by {
            if i < s.len() - 1 {
                assert(front[i] == s[i]);
                let k = choose|k: int| 0 <= k < u.len() && u[k] == s[i];
                assert(all[k] == s[i]);
            } else {
                assert(all[all.len() - 1] == s[i]);
            }
        }
        if distinct_keys(s) {
            assert(distinct_keys(front));
            assert forall|i: int, j: int| 0 <= i < j < all.len() implies all[i].0 != all[j].0 by {
                if j < u.len() {
                    assert(u[i].0 != u[j].0);
                } else {
                    assert(u.len() == j && all[i] == u[i]);
                    let k = choose|k: int| 0 <= k < front.len() && front[k] == u[i];
                    assert(s[k] == front[k]);
                }
            }
        }
    }
}

/// A stored credential is found again by its token until it expires, by its
/// own user and by nobody else.
pub proof fn law_stored_is_found(
    s: Entries,
    key: Seq<char>,
    cred: RetainedSessionCredential,
    user_id: i64,
    stored_at: Timestamp,
    now: Timestamp,
)
    requires
        distinct_keys(s),
    ensures
        distinct_keys(stored(unexpired(s, stored_at), key, cred)),
        owned(
            lookup(unexpired(stored(unexpired(s, stored_at), key, cred), now), key),
            user_id,
        ) == if user_id == cred.user_id && cred.expires_at.ticks() > now.ticks() {
            Some(cred)
        } else {
            None
        },
{
    let u = unexpired(s, stored_at);
    lemma_unexpired(s, stored_at);
    lemma_key_at(u, key);
    let t = stored(u, key, cred);
    let p: int = if key_at(u, key) < u.len() {
        key_at(u, key) as int
    } else {
        u.len() as int
    };
    assert(t[p] == (key, cred));
    assert forall|i: int, j: int| 0 <= i < j < t.len() implies t[i].0 != t[j].0 by {
        if i != p && j != p {
            assert(t[i] == u[i] && t[j] == u[j]);
        } else if i == p {
            assert(t[j] == u[j]);
            assert(u[i].0 != u[j].0);
        } else {
            assert(t[i] == u[i]);
            assert(u[i].0 != key);
        }
    }
    let v = unexpired(t, now);
    lemma_unexpired(t, now);
    lemma_key_at(v, key);
    let q = key_at(v, key) as int;
    if q < v.len() {
        assert(t.contains(v[q]));
        let k = choose|k: int| 0 <= k < t.len() && t[k] == v[q];
        assert(k == p) by {
            if k < p {
                assert(t[k].0 != t[p].0);
            } else if p < k {
                assert(t[p].0 != t[k].0);
            }
        }
    } else if cred.expires_at.ticks() > now.ticks() {
        assert(v.contains(t[p]));
        let k = choose|k: int| 0 <= k < v.len() && v[k] == t[p];
        assert(v[k].0 != key);
    }
}

/// A removed credential is gone, and its removal touches no other key.
pub proof fn law_removed_is_gone(s: Entries, key: Seq<char>, other: Seq<char>)
    requires
        distinct_keys(s),
    ensures
        distinct_keys(dropped(s, key)),
        lookup(dropped(s, key), key) is None,
        other != key ==> lookup(dropped(s, key), other) == lookup(s, other),
{
    lemma_key_at(s, key);
    let d = dropped(s, key);
    let p = key_at(s, key) as int;
    if p < s.len() {
        assert forall|i: int| 0 <= i < d.len() implies (#[trigger] d[i]) == s[if i < p {
            i
        } else {
            i + 1
        }] by {}
        assert forall|i: int, j: int| 0 <= i < j < d.len() implies d[i].0 != d[j].0 by {
            let a = if i < p {
                i
            } else {
                i + 1
            };
            let b = if j < p {
                j
            } else {
                j + 1
            };
            assert(d[i] == s[a] && d[j] == s[b]);
        }
        assert forall|i: int| 0 <= i < d.len() implies (#[trigger] d[i]).0 != key by {
            let a = if i < p {
                i
            } else {
                i + 1
            };
            assert(d[i] == s[a]);
            assert(s[p].0 == key);
            if a < p {
                assert(s[a].0 != s[p].0);
            } else {
                assert(s[p].0 != s[a].0);
            }
        }
    }
    lemma_key_at_is(d, key, d.len() as int);
    if other != key {
        lemma_key_at(s, other);
        let o = key_at(s, other) as int;
        if p < s.len() {
            let to = if o < p {
                o
            } else {
                o - 1
            };
            assert(o != p);
            assert forall|i: int| 0 <= i < to implies (#[trigger] d[i]).0 != other by {
                assert(d[i] == s[if i < p {
                    i
                } else {
                    i + 1
                }]);
            }
            lemma_key_at_is(d, other, to);
        }
    }
}

} // verus!
