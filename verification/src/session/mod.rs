//! Sessions: requests, records, lifecycle.

pub mod create;
pub mod credentials;
pub mod events;
pub mod flow;
pub mod gauge;
pub mod lifecycle_laws;
pub mod manager;
pub mod names;
pub mod network;
pub mod opening_laws;
pub mod plan;
pub mod plan_laws;
pub mod reaper;
pub mod sweep;
pub mod types;

use crate::config::{Config, DriveConfig};
use crate::outside::{hex_encode, hex_text, random_bytes, same_bytes, sha256, sha256_digest};
use crate::session::types::{Session, ShadowToken, ShareTokenValidation};
use crate::text::{opt_str, opt_text, trim, trimmed};
use crate::time::Timestamp;
use vstd::prelude::*;
use vstd::string::*;
use vstd::utf8::*;

verus! {

// ── Tokens ──
/// The first live shadow token with the given hash.
pub open spec fn shadow_hit(tokens: Seq<ShadowToken>, hash: Seq<char>, now: Timestamp) -> Option<
    int,
>
    decreases tokens.len(),
{
    if tokens.len() == 0 {
        None
    } else {
        match shadow_hit(tokens.drop_last(), hash, now) {
            Some(i) => Some(i),
            None => if tokens.last().expires_at.ticks() > now.ticks() && tokens.last().token_hash@
                == hash {
                Some(tokens.len() - 1)
            } else {
                None
            },
        }
    }
}

/// What a token with the digest `provided` is to a session whose owner's
/// token has the digest `expected`.
pub open spec fn token_verdict(
    r: ShareTokenValidation,
    expected: Seq<u8>,
    tokens: Seq<ShadowToken>,
    provided: Seq<u8>,
    now: Timestamp,
) -> bool {
    if expected == provided {
        r is Owner
    } else {
        match shadow_hit(tokens, hex_text(provided), now) {
            Some(i) => r == (ShareTokenValidation::Shadow { issued_by: tokens[i].issued_by }),
            None => r is Invalid,
        }
    }
}

proof fn lemma_shadow_hit(tokens: Seq<ShadowToken>, hash: Seq<char>, now: Timestamp)
    ensures
        shadow_hit(tokens, hash, now) is Some ==> 0 <= shadow_hit(tokens, hash, now)->0
            < tokens.len(),
    decreases tokens.len(),
{
    if tokens.len() > 0 {
        lemma_shadow_hit(tokens.drop_last(), hash, now);
    }
}

/// A hit among the first tokens is a hit among all.
proof fn lemma_shadow_hit_prefix(
    tokens: Seq<ShadowToken>,
    k: int,
    hash: Seq<char>,
    now: Timestamp,
)
    requires
        0 <= k <= tokens.len(),
        shadow_hit(tokens.take(k), hash, now) is Some,
    ensures
        shadow_hit(tokens, hash, now) == shadow_hit(tokens.take(k), hash, now),
    decreases tokens.len(),
{
    if k < tokens.len() {
        assert(tokens.drop_last().take(k) =~= tokens.take(k));
        lemma_shadow_hit_prefix(tokens.drop_last(), k, hash, now);
    } else {
        assert(tokens.take(k) =~= tokens);
    }
}

/// Constant-time comparison of a presented token, by its digest, against the
/// owner's token and the live shadow tokens. The owner's token comes first.
pub fn match_digest(
    expected: &[u8],
    shadow_tokens: &Vec<ShadowToken>,
    provided: &[u8],
    now: Timestamp,
) -> (r: ShareTokenValidation)
    requires
        2 * provided@.len() <= isize::MAX,
    ensures
        token_verdict(r, expected@, shadow_tokens@, provided@, now),
{
    if same_bytes(expected, provided) {
        return ShareTokenValidation::Owner;
    }
    let provided_hex = hex_encode(provided);
    let mut i: usize = 0;
    while i < shadow_tokens.len()
        invariant
            i <= shadow_tokens@.len(),
            expected@ != provided@,
            provided_hex@ == hex_text(provided@),
            shadow_hit(shadow_tokens@.take(i as int), hex_text(provided@), now) is None,
        decreases shadow_tokens@.len() - i,
    {
        let t = &shadow_tokens[i];
        proof {
            assert(shadow_tokens@.take(i + 1).drop_last() =~= shadow_tokens@.take(i as int));
            encode_utf8_decode_utf8(t.token_hash@);
            encode_utf8_decode_utf8(provided_hex@);
        }
        if t.expires_at.is_after(&now) && same_bytes(
            t.token_hash.as_str().as_bytes(),
            provided_hex.as_str().as_bytes(),
        ) {
            proof {
                lemma_shadow_hit_prefix(
                    shadow_tokens@,
                    i + 1,
                    hex_text(provided@),
                    now,
                );
            }
            return ShareTokenValidation::Shadow { issued_by: t.issued_by.clone() };
        }
        i = i + 1;
    }
    proof {
        assert(shadow_tokens@.take(i as int) =~= shadow_tokens@);
    }
    ShareTokenValidation::Invalid
}

/// What `provided` is to a session: the owner's long-lived token, one of the
/// short-lived shadow tokens, or neither.
pub fn check_share_token_match(
    share_token: &str,
    shadow_tokens: &Vec<ShadowToken>,
    provided: &str,
    now: Timestamp,
) -> (r: ShareTokenValidation)
    ensures
        token_verdict(
            r,
            sha256(encode_utf8(share_token@)),
            shadow_tokens@,
            sha256(encode_utf8(provided@)),
            now,
        ),
{
    let provided_digest = sha256_digest(provided.as_bytes());
    let expected = sha256_digest(share_token.as_bytes());
    match_digest(expected.as_slice(), shadow_tokens, provided_digest.as_slice(), now)
}

/// The owner's token opens the session as the owner's, whatever the shadow
/// tokens are.
pub proof fn law_owner_token_wins(
    token: Seq<char>,
    tokens: Seq<ShadowToken>,
    now: Timestamp,
    r: ShareTokenValidation,
)
    requires
        token_verdict(r, sha256(encode_utf8(token)), tokens, sha256(encode_utf8(token)), now),
    ensures
        r is Owner,
{
}

/// A shadow token at or past its end opens nothing: a token is accepted as a
/// shadow token only by an entry with its hash that is still live.
pub proof fn law_shadow_hit_is_live(tokens: Seq<ShadowToken>, hash: Seq<char>, now: Timestamp)
    ensures
        match shadow_hit(tokens, hash, now) {
            Some(i) => 0 <= i < tokens.len() && tokens[i].token_hash@ == hash
                && tokens[i].expires_at.ticks() > now.ticks(),
            None => forall|i: int|
                0 <= i < tokens.len() ==> (#[trigger] tokens[i]).token_hash@ != hash
                    || tokens[i].expires_at.ticks() <= now.ticks(),
        },
    decreases tokens.len(),
{
    if tokens.len() > 0 {
        let front = tokens.drop_last();
        law_shadow_hit_is_live(front, hash, now);
        if shadow_hit(tokens, hash, now) is None {
            assert forall|i: int| 0 <= i < tokens.len() implies (#[trigger] tokens[i]).token_hash@
                != hash || tokens[i].expires_at.ticks() <= now.ticks() by {
                if i < front.len() {
                    assert(front[i] == tokens[i]);
                }
            }
        }
    }
}

/// Generate a random 32-char hex share token.
pub fn generate_share_token() -> (r: String)
    ensures
        r@.len() == 32,
        exists|b: Seq<u8>| b.len() == 16 && r@ == #[trigger] hex_text(b),
{
    let bytes = random_bytes();
    hex_encode(bytes.as_slice())
}

// ── RDP authentication ──
/// A text without the white space around it, if anything is left of it.
pub open spec fn filled(o: Option<Seq<char>>) -> Option<Seq<char>> {
    match o {
        Some(s) => if trimmed(s).len() > 0 {
            Some(trimmed(s))
        } else {
            None
        },
        None => None,
    }
}

/// The first of two values that is there.
pub open spec fn or_else<T>(a: Option<T>, b: Option<T>) -> Option<T> {
    if a is Some {
        a
    } else {
        b
    }
}

/// The server-wide RDP authentication package.
pub open spec fn default_auth_pkg(config: &Config) -> Option<Seq<char>> {
    match config.rdp {
        Some(rdp) => opt_text(rdp.default_auth_pkg),
        None => None,
    }
}

/// Resolve the RDP NLA authentication package for a session: the entry's
/// value if there is one, else the server-wide default, else `ntlm`.
pub fn resolve_rdp_auth_pkg(entry_value: Option<&str>, config: &Config) -> (r: Option<String>)
    ensures
        opt_text(r) == or_else(
            or_else(filled(opt_str(entry_value)), filled(default_auth_pkg(config))),
            Some("ntlm"@),
        ),
{
    if let Some(v) = entry_value {
        let t = trim(v);
        if !t.as_str().is_empty() {
            return Some(t);
        }
    }
    if let Some(rdp) = &config.rdp {
        if let Some(pkg) = &rdp.default_auth_pkg {
            let t = trim(pkg.as_str());
            if !t.as_str().is_empty() {
                return Some(t);
            }
        }
    }
    Some("ntlm".to_owned())
}

// ── Teardown ──
/// A drive directory to remove, some time after the session's end.
#[derive(Debug)]
pub struct DriveRemoval {
    pub path: String,
    pub retention_secs: u64,
}

/// What is left to stop once a session has let go of it.
#[derive(Debug)]
pub struct Teardown {
    /// A login script to abort.
    pub login_script: Option<u64>,
    /// Browser processes to kill.
    pub browser: Option<u64>,
    /// A drive directory to remove.
    pub drive: Option<DriveRemoval>,
    /// A tunnel chain to shut down, last hop first.
    pub tunnels: Option<u64>,
}

/// A session without its login script, browser, drive directory and tunnels.
pub open spec fn cleaned(s: Session) -> Session {
    Session {
        login_script_handle: None,
        browser_session: None,
        drive_path: None,
        tunnels: None,
        ..s
    }
}

/// What is left to stop of a session: the drive directory stays on disk
/// where `cleanup_on_close` is off.
pub open spec fn teardown_of(s: Session, cleanup_on_close: bool, retention_secs: u64) -> Teardown {
    Teardown {
        login_script: s.login_script_handle,
        browser: s.browser_session,
        drive: if cleanup_on_close && s.drive_path is Some {
            Some(DriveRemoval { path: s.drive_path->0, retention_secs })
        } else {
            None
        },
        tunnels: s.tunnels,
    }
}

/// Take from a session what runs for it, for the caller to stop.
pub fn cleanup_browser(session: &mut Session, cleanup_on_close: bool, retention_secs: u64) -> (r:
    Teardown)
    ensures
        *final(session) == cleaned(*old(session)),
        r == teardown_of(*old(session), cleanup_on_close, retention_secs),
{
    let login_script = session.login_script_handle.take();
    let browser = session.browser_session.take();
    let drive = match session.drive_path.take() {
        Some(path) => if cleanup_on_close {
            Some(DriveRemoval { path, retention_secs })
        } else {
            None
        },
        None => None,
    };
    let tunnels = session.tunnels.take();
    Teardown { login_script, browser, drive, tunnels }
}

/// Cleanup behaviour from the optional `[drive]` section: without one, the
/// directory is removed at once.
pub open spec fn drive_cleanup(drive: Option<DriveConfig>) -> (bool, u64) {
    match drive {
        Some(d) => (d.cleanup_on_close, d.retention_secs),
        None => (true, 0),
    }
}

/// Resolve cleanup behaviour from the optional `[drive]` section.
pub fn drive_cleanup_settings(drive: &Option<DriveConfig>) -> (r: (bool, u64))
    ensures
        r == drive_cleanup(*drive),
{
    match drive {
        Some(d) => (d.cleanup_on_close, d.retention_secs),
        None => (true, 0),
    }
}

/// Seconds between two rounds of the reaper: half of the shorter limit, at
/// least 30.
pub fn reaper_interval(idle_secs: i64, max_secs: i64) -> (r: u64)
    ensures
        r == ({
            let shorter = if idle_secs < max_secs {
                idle_secs
            } else {
                max_secs
            };
            if shorter / 2 > 30 {
                shorter / 2
            } else {
                30
            }
        }),
{
    let shorter: i64 = if idle_secs < max_secs {
        idle_secs
    } else {
        max_secs
    };
    if shorter < 62 {
        30
    } else {
        (shorter as u64) / 2
    }
}

} // verus!
