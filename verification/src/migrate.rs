//! Copying an address book scope from one backend to another: which folders
//! are visited and in what order, what happens to each entry, and how the run
//! is summed up.

use crate::text::{decimal, digits, join2, join3, same_text, texts};
use vstd::prelude::*;
use vstd::string::*;

verus! {

/// A folder as a backend lists it.
#[derive(Debug)]
pub struct FolderInfo {
    pub name: String,
    /// The full path within the scope, where the backend gives one.
    pub path: Option<String>,
}

/// What a run copies.
#[derive(Debug, Clone, Copy, PartialEq, Eq, Structural)]
pub struct MigrateOptions {
    /// Also copy every user's credential secret.
    pub include_users: bool,
    /// Replace entries that the target already has.
    pub overwrite: bool,
    /// Report without writing.
    pub dry_run: bool,
}

// ── Arguments ──
/// Why a run cannot start with these arguments.
pub open spec fn argument_error(scope: Seq<char>, from: Seq<char>, to: Seq<char>) -> Option<
    Seq<char>,
> {
    if scope != "shared"@ && scope != "instance"@ {
        Some("Error: --scope must be \"shared\" or \"instance\""@)
    } else if from == to {
        Some("Error: --from and --to must name different backends"@)
    } else {
        None
    }
}

/// Checks the arguments of a run.
pub fn check_arguments(scope: &str, from: &str, to: &str) -> (r: Result<(), String>)
    ensures
        match r {
            Ok(_) => argument_error(scope@, from@, to@) is None,
            Err(e) => argument_error(scope@, from@, to@) == Some(e@),
        },
{
    if !same_text(scope, "shared") && !same_text(scope, "instance") {
        return Err("Error: --scope must be \"shared\" or \"instance\"".to_owned());
    }
    if same_text(from, to) {
        return Err("Error: --from and --to must name different backends".to_owned());
    }
    Ok(())
}

/// The environment variable that holds a named backend's secret.
pub open spec fn secret_variable(name: Seq<char>) -> Option<Seq<char>> {
    if name == "vault"@ {
        Some("VAULT_SECRET_ID"@)
    } else if name == "vault_shared"@ {
        Some("VAULT_SHARED_SECRET_ID"@)
    } else if name == "vault_local"@ {
        Some("VAULT_LOCAL_SECRET_ID"@)
    } else {
        None
    }
}

/// Why a named backend cannot be connected: `configured` says whether the
/// configuration has it, `secret` is the value of its environment variable.
pub open spec fn backend_error(
    name: Seq<char>,
    configured: bool,
    secret: Option<Seq<char>>,
) -> Option<Seq<char>> {
    match secret_variable(name) {
        None => Some(
            "Error: unknown backend '"@ + name + "' (use vault, vault_shared, or vault_local)"@,
        ),
        Some(variable) => if !configured {
            Some("Error: backend '"@ + name + "' is not configured in config.toml"@)
        } else if secret is None || secret->0.len() == 0 {
            Some("Error: "@ + variable + (" env var required for backend '"@ + name + "'"@))
        } else {
            None
        },
    }
}

/// The environment variable that holds a named backend's secret.
pub fn backend_secret_variable(name: &str) -> (r: Option<&'static str>)
    ensures
        match r {
            Some(v) => secret_variable(name@) == Some(v@),
            None => secret_variable(name@) is None,
        },
{
    if same_text(name, "vault") {
        Some("VAULT_SECRET_ID")
    } else if same_text(name, "vault_shared") {
        Some("VAULT_SHARED_SECRET_ID")
    } else if same_text(name, "vault_local") {
        Some("VAULT_LOCAL_SECRET_ID")
    } else {
        None
    }
}

/// Checks that a named backend can be connected, and hands its secret back.
pub fn check_backend(name: &str, configured: bool, secret: Option<String>) -> (r: Result<
    String,
    String,
>)
    ensures
        match r {
            Ok(s) => secret is Some && s == secret->0 && backend_error(
                name@,
                configured,
                crate::text::opt_text(secret),
            ) is None,
            Err(e) => backend_error(name@, configured, crate::text::opt_text(secret)) == Some(e@),
        },
{
    match backend_secret_variable(name) {
        None => Err(
            join3(
                "Error: unknown backend '",
                name,
                "' (use vault, vault_shared, or vault_local)",
            ),
        ),
        Some(variable) => {
            if !configured {
                return Err(
                    join3("Error: backend '", name, "' is not configured in config.toml"),
                );
            }
            let missing = join3(
                "Error: ",
                variable,
                join3(" env var required for backend '", name, "'").as_str(),
            );
            match secret {
                Some(s) => if crate::text::chars(s.as_str()).len() > 0 {
                    Ok(s)
                } else {
                    Err(missing)
                },
                None => Err(missing),
            }
        },
    }
}

// ── The folder walk ──
/// The path of a top-level folder: as listed, or its name.
pub open spec fn top_path(f: FolderInfo) -> Seq<char> {
    match f.path {
        Some(p) => p@,
        None => f.name@,
    }
}

/// The path of a folder listed under `parent`: as listed, or its name below the
/// parent's path.
pub open spec fn child_path(parent: Seq<char>, f: FolderInfo) -> Seq<char> {
    match f.path {
        Some(p) => p@,
        None => parent + "/"@ + f.name@,
    }
}

pub open spec fn top_paths(top: Seq<FolderInfo>) -> Seq<Seq<char>> {
    Seq::new(top.len(), |i: int| top_path(top[i]))
}

/// The paths of what was listed under `parent`; a failed listing gives none.
pub open spec fn child_paths(parent: Seq<char>, listing: Option<Seq<FolderInfo>>) -> Seq<
    Seq<char>,
> {
    match listing {
        Some(subs) => Seq::new(subs.len(), |i: int| child_path(parent, subs[i])),
        None => Seq::empty(),
    }
}

/// The folders of an optional listing.
pub open spec fn listing_of(listing: Option<Vec<FolderInfo>>) -> Option<Seq<FolderInfo>> {
    match listing {
        Some(v) => Some(v@),
        None => None,
    }
}

/// The paths known once the first `listings.len()` of them have been listed, in
/// their order.
pub open spec fn walked(top: Seq<FolderInfo>, listings: Seq<Option<Seq<FolderInfo>>>) -> Seq<
    Seq<char>,
>
    decreases listings.len(),
{
    if listings.len() == 0 {
        top_paths(top)
    } else {
        let before = walked(top, listings.drop_last());
        before + child_paths(before[listings.len() - 1], listings.last())
    }
}

/// Whether each listing is that of a path known when it was made.
pub open spec fn walk_goes(top: Seq<FolderInfo>, listings: Seq<Option<Seq<FolderInfo>>>) -> bool
    decreases listings.len(),
{
    listings.len() == 0 || (walk_goes(top, listings.drop_last()) && listings.len() <= walked(
        top,
        listings.drop_last(),
    ).len())
}

/// A walk through the folders of a scope: the paths found so far, of which the
/// first `next` have been listed.
#[derive(Debug)]
pub struct FolderWalk {
    pub paths: Vec<String>,
    pub next: usize,
}

impl FolderWalk {
    /// Whether the position lies within the paths.
    pub open spec fn wf(self) -> bool {
        self.next <= self.paths@.len()
    }

    /// Whether the walk stands where these listings lead.
    pub open spec fn follows(
        self,
        top: Seq<FolderInfo>,
        listings: Seq<Option<Seq<FolderInfo>>>,
    ) -> bool {
        &&& walk_goes(top, listings)
        &&& texts(self.paths@) == walked(top, listings)
        &&& self.next == listings.len()
    }

    /// A walk from the top-level folders.
    pub fn start(top: &Vec<FolderInfo>) -> (r: FolderWalk)
        ensures
            r.wf(),
            r.next == 0,
            texts(r.paths@) == top_paths(top@),
            r.follows(top@, Seq::empty()),
    {
        let mut paths: Vec<String> = Vec::new();
        let mut i: usize = 0;
        while i < top.len()
            invariant
                i <= top@.len(),
                paths@.len() == i,
                forall|j: int| 0 <= j < i ==> (#[trigger] paths@[j])@ == top_path(top@[j]),
            decreases top@.len() - i,
        {
            let path = match &top[i].path {
                Some(p) => p.clone(),
                None => top[i].name.clone(),
            };
            paths.push(path);
            i = i + 1;
        }
        proof {
            assert(texts(paths@) =~= top_paths(top@));
        }
        FolderWalk { paths, next: 0 }
    }

    /// The path to list next, if any is left.
    pub fn current(&self) -> (r: Option<&str>)
        requires
            self.wf(),
        ensures
            match r {
                Some(p) => self.next < self.paths@.len() && p@ == self.paths@[self.next as int]@,
                None => self.next == self.paths@.len(),
            },
    {
        if self.next < self.paths.len() {
            Some(self.paths[self.next].as_str())
        } else {
            None
        }
    }

    /// Takes the listing of the current path; `None` where it failed.
    pub fn listed(&mut self, listing: &Option<Vec<FolderInfo>>)
        requires
            old(self).next < old(self).paths@.len(),
        ensures
            final(self).wf(),
            final(self).next == old(self).next + 1,
            texts(final(self).paths@) == texts(old(self).paths@) + child_paths(
                old(self).paths@[old(self).next as int]@,
                listing_of(*listing),
            ),
            forall|top: Seq<FolderInfo>, listings: Seq<Option<Seq<FolderInfo>>>| #[trigger]
                old(self).follows(top, listings) ==> final(self).follows(
                    top,
                    listings.push(listing_of(*listing)),
                ),
    {
        let parent = self.paths[self.next].clone();
        let ghost before = self.paths@;
        let known: usize = self.paths.len();
        let following: usize = self.next + 1;
        match listing {
            Some(subs) => {
                let mut i: usize = 0;
                while i < subs.len()
                    invariant
                        i <= subs@.len(),
                        self.next < before.len(),
                        self.next == old(self).next,
                        self.paths@.len() == before.len() + i,
                        forall|j: int|
                            0 <= j < before.len() ==> self.paths@[j] == #[trigger] before[j],
                        forall|j: int|
                            0 <= j < i ==> (#[trigger] self.paths@[before.len() + j])@
                                == child_path(parent@, subs@[j]),
                    decreases subs@.len() - i,
                {
                    let path = match &subs[i].path {
                        Some(p) => p.clone(),
                        None => join3(parent.as_str(), "/", subs[i].name.as_str()),
                    };
                    self.paths.push(path);
                    i = i + 1;
                }
                proof {
                    let children = child_paths(parent@, Some(subs@));
                    let after = texts(before) + children;
                    assert forall|j: int| 0 <= j < after.len() implies texts(self.paths@)[j]
                        == after[j] by {
                        if j >= before.len() {
                            let k = j - before.len();
                            assert(self.paths@[before.len() + k]@ == child_path(parent@, subs@[k]));
                        } else {
                            assert(self.paths@[j] == before[j]);
                        }
                    }
                    assert(texts(self.paths@) =~= after);
                }
            },
            None => {
                proof {
                    assert(texts(self.paths@) =~= texts(before) + child_paths(parent@, None));
                }
            },
        }
        self.next = following;
        proof {
            assert forall|top: Seq<FolderInfo>, listings: Seq<Option<Seq<FolderInfo>>>| #[trigger]
                old(self).follows(top, listings) implies self.follows(
                top,
                listings.push(listing_of(*listing)),
            ) by {
                let more = listings.push(listing_of(*listing));
                assert(more.drop_last() =~= listings);
                assert(texts(before)[old(self).next as int] == parent@);
                assert(walked(top, more) == walked(top, listings) + child_paths(
                    walked(top, listings)[listings.len() as int],
                    listing_of(*listing),
                ));
            }
        }
    }
}

/// A path that is not a top-level folder's comes from the listing of a path
/// that stands before it: ancestors precede descendants.
pub proof fn law_ancestors_first(
    top: Seq<FolderInfo>,
    listings: Seq<Option<Seq<FolderInfo>>>,
    i: int,
)
    requires
        walk_goes(top, listings),
        top.len() <= i < walked(top, listings).len(),
    ensures
        exists|p: int|
            0 <= p < i && p < listings.len() && child_paths(
                #[trigger] walked(top, listings)[p],
                listings[p],
            ).contains(walked(top, listings)[i]),
    decreases listings.len(),
{
    if listings.len() > 0 {
        let shorter = listings.drop_last();
        let before = walked(top, shorter);
        let all = walked(top, listings);
        let n = listings.len() - 1;
        if i < before.len() {
            law_ancestors_first(top, shorter, i);
            let p = choose|p: int|
                0 <= p < i && p < shorter.len() && child_paths(
                    #[trigger] before[p],
                    shorter[p],
                ).contains(before[i]);
            assert(all[p] == before[p]);
            assert(all[i] == before[i]);
            assert(listings[p] == shorter[p]);
        } else {
            let children = child_paths(before[n], listings[n]);
            assert(all[n] == before[n]);
            assert(all[i] == children[i - before.len()]);
            assert(children.contains(all[i]));
        }
    }
}

/// The walk leaves nothing out: the top-level folders come first, in their
/// order, and whatever was listed under a path is among the paths.
pub proof fn law_walk_is_complete(top: Seq<FolderInfo>, listings: Seq<Option<Seq<FolderInfo>>>)
    requires
        walk_goes(top, listings),
    ensures
        top_paths(top).is_prefix_of(walked(top, listings)),
        forall|p: int, c: Seq<char>|
            0 <= p < listings.len() && #[trigger] child_paths(
                walked(top, listings)[p],
                listings[p],
            ).contains(c) ==> walked(top, listings).contains(c),
    decreases listings.len(),
{
    if listings.len() > 0 {
        let shorter = listings.drop_last();
        let before = walked(top, shorter);
        let all = walked(top, listings);
        let n = listings.len() - 1;
        law_walk_is_complete(top, shorter);
        assert forall|p: int, c: Seq<char>|
            0 <= p < listings.len() && #[trigger] child_paths(all[p], listings[p]).contains(
                c,
            ) implies all.contains(c) by {
            assert(all[p] == before[p]);
            if p < n {
                assert(shorter[p] == listings[p]);
                assert(child_paths(before[p], shorter[p]).contains(c));
                let k = choose|k: int| 0 <= k < before.len() && before[k] == c;
                assert(all[k] == c);
            } else {
                let children = child_paths(before[n], listings[n]);
                let k = choose|k: int| 0 <= k < children.len() && children[k] == c;
                assert(all[before.len() + k] == c);
            }
        }
    }
}

// ── Counting ──
/// What a run has done so far.
#[derive(Debug, Clone, Copy, PartialEq, Eq, Structural)]
pub struct Tally {
    pub folders_done: u64,
    pub entries_copied: u64,
    pub entries_skipped: u64,
    pub users_copied: u64,
    pub failures: u64,
}

/// What became of an entry: `existing` is what the look at the target said,
/// where one was made, and `written` what the write said.
pub open spec fn after_entry(
    t: Tally,
    options: MigrateOptions,
    existing: bool,
    read: bool,
    written: bool,
) -> Tally {
    if !options.overwrite && !options.dry_run && existing {
        Tally { entries_skipped: (t.entries_skipped + 1) as u64, ..t }
    } else if !read {
        Tally { failures: (t.failures + 1) as u64, ..t }
    } else if options.dry_run || written {
        Tally { entries_copied: (t.entries_copied + 1) as u64, ..t }
    } else {
        Tally { failures: (t.failures + 1) as u64, ..t }
    }
}

/// Whether something that was read is written to the target.
pub open spec fn writes(options: MigrateOptions, read: bool) -> bool {
    read && !options.dry_run
}

/// Whether an entry is written to the target, by whether the target has it
/// and whether it could be read.
pub open spec fn writes_entry(options: MigrateOptions, existing: bool, read: bool) -> bool {
    writes(options, read) && (options.overwrite || !existing)
}

impl Tally {
    /// Whether every count can still grow by one.
    pub open spec fn has_room(self) -> bool {
        &&& self.folders_done < u64::MAX
        &&& self.entries_copied < u64::MAX
        &&& self.entries_skipped < u64::MAX
        &&& self.users_copied < u64::MAX
        &&& self.failures < u64::MAX
    }

    /// Nothing done yet.
    pub fn new() -> (r: Tally)
        ensures
            r == (Tally {
                folders_done: 0,
                entries_copied: 0,
                entries_skipped: 0,
                users_copied: 0,
                failures: 0,
            }),
    {
        Tally {
            folders_done: 0,
            entries_copied: 0,
            entries_skipped: 0,
            users_copied: 0,
            failures: 0,
        }
    }

    /// Counts a folder.
    pub fn folder(&mut self)
        requires
            old(self).folders_done < u64::MAX,
        ensures
            *final(self) == (Tally {
                folders_done: (old(self).folders_done + 1) as u64,
                ..*old(self)
            }),
    {
        self.folders_done = self.folders_done + 1;
    }

    /// Takes whether a folder has a configuration that could be read, and says
    /// whether it is to be written.
    pub fn config_read(&mut self, options: &MigrateOptions, found: bool) -> (goes_on: bool)
        ensures
            goes_on == (found && !options.dry_run),
            goes_on == writes(*options, found),
            *final(self) == *old(self),
    {
        found && !options.dry_run
    }

    /// Takes the result of writing a folder's configuration.
    pub fn config_written(&mut self, written: bool)
        requires
            old(self).failures < u64::MAX,
        ensures
            *final(self) == (if written {
                *old(self)
            } else {
                Tally { failures: (old(self).failures + 1) as u64, ..*old(self) }
            }),
    {
        if !written {
            self.failures = self.failures + 1;
        }
    }

    /// Whether the target is looked at before an entry is read: only where an
    /// entry that is there would be skipped.
    pub fn probes(&self, options: &MigrateOptions) -> (r: bool)
        ensures
            r == (!options.overwrite && !options.dry_run),
    {
        !options.overwrite && !options.dry_run
    }

    /// Takes what the look at the target said of an entry, and says whether the
    /// entry is to be read.
    pub fn entry_probed(&mut self, options: &MigrateOptions, existing: bool) -> (goes_on: bool)
        requires
            old(self).entries_skipped < u64::MAX,
        ensures
            goes_on == !(!options.overwrite && !options.dry_run && existing),
            !goes_on ==> forall|read: bool, written: bool|
                *final(self) == #[trigger] after_entry(
                    *old(self),
                    *options,
                    existing,
                    read,
                    written,
                ),
            goes_on ==> *final(self) == *old(self),
    {
        if !options.overwrite && !options.dry_run && existing {
            self.entries_skipped = self.entries_skipped + 1;
            false
        } else {
            true
        }
    }

    /// Takes the result of reading an entry that is not skipped, and says
    /// whether it is to be written.
    pub fn entry_read(&mut self, options: &MigrateOptions, read: bool) -> (goes_on: bool)
        requires
            old(self).has_room(),
        ensures
            goes_on == writes(*options, read),
            !goes_on ==> forall|written: bool|
                *final(self) == #[trigger] after_entry(
                    *old(self),
                    *options,
                    false,
                    read,
                    written,
                ),
            goes_on ==> *final(self) == *old(self),
    {
        if !read {
            self.failures = self.failures + 1;
            false
        } else if options.dry_run {
            self.entries_copied = self.entries_copied + 1;
            false
        } else {
            true
        }
    }

    /// Takes the result of writing an entry.
    pub fn entry_written(&mut self, written: bool)
        requires
            old(self).has_room(),
        ensures
            forall|options: MigrateOptions|
                !options.dry_run ==> *final(self) == #[trigger] after_entry(
                    *old(self),
                    options,
                    false,
                    true,
                    written,
                ),
    {
        if written {
            self.entries_copied = self.entries_copied + 1;
        } else {
            self.failures = self.failures + 1;
        }
    }

    /// Takes the result of reading a user's secret, and says whether it is to
    /// be written. One that could not be read is no failure.
    pub fn user_read(&mut self, options: &MigrateOptions, read: bool) -> (goes_on: bool)
        requires
            old(self).users_copied < u64::MAX,
        ensures
            goes_on == writes(*options, read),
            *final(self) == (if read && options.dry_run {
                Tally { users_copied: (old(self).users_copied + 1) as u64, ..*old(self) }
            } else {
                *old(self)
            }),
    {
        if read && options.dry_run {
            self.users_copied = self.users_copied + 1;
        }
        read && !options.dry_run
    }

    /// Takes the result of writing a user's secret.
    pub fn user_written(&mut self, written: bool)
        requires
            old(self).has_room(),
        ensures
            *final(self) == (if written {
                Tally { users_copied: (old(self).users_copied + 1) as u64, ..*old(self) }
            } else {
                Tally { failures: (old(self).failures + 1) as u64, ..*old(self) }
            }),
    {
        if written {
            self.users_copied = self.users_copied + 1;
        } else {
            self.failures = self.failures + 1;
        }
    }

    /// Whether the run ends in an error.
    pub fn failed(&self) -> (r: bool)
        ensures
            r == (self.failures > 0),
    {
        self.failures > 0
    }
}

/// A dry run writes nothing: no configuration, no entry and no user's secret.
pub proof fn law_dry_run_writes_nothing(options: MigrateOptions, existing: bool, read: bool)
    requires
        options.dry_run,
    ensures
        !writes(options, read),
        !writes_entry(options, existing, read),
{
}

/// Without leave to overwrite, an entry that the target has is not written:
/// it is skipped, and what would be read of it changes nothing.
pub proof fn law_existing_entry_is_kept(t: Tally, options: MigrateOptions, read: bool, written: bool)
    requires
        !options.dry_run,
        !options.overwrite,
    ensures
        !writes_entry(options, true, read),
        after_entry(t, options, true, read, written) == (Tally {
            entries_skipped: (t.entries_skipped + 1) as u64,
            ..t
        }),
{
}

/// Each entry is counted once: as copied, as skipped or as a failure, and
/// neither folders nor users change.
pub proof fn law_entry_is_counted_once(
    t: Tally,
    options: MigrateOptions,
    existing: bool,
    read: bool,
    written: bool,
)
    requires
        t.has_room(),
    ensures
        ({
            let a = after_entry(t, options, existing, read, written);
            &&& a.entries_copied + a.entries_skipped + a.failures == t.entries_copied
                + t.entries_skipped + t.failures + 1
            &&& a.folders_done == t.folders_done
            &&& a.users_copied == t.users_copied
        }),
{
}

/// With `overwrite` no entry is skipped.
pub proof fn law_overwrite_never_skips(
    t: Tally,
    options: MigrateOptions,
    existing: bool,
    read: bool,
    written: bool,
)
    requires
        options.overwrite,
    ensures
        after_entry(t, options, existing, read, written).entries_skipped == t.entries_skipped,
{
}

// ── Reporting ──
pub open spec fn heading_text(
    dry_run: bool,
    scope: Seq<char>,
    from: Seq<char>,
    to: Seq<char>,
) -> Seq<char> {
    let route = scope + " scope: "@ + from + (" -> "@ + to);
    if dry_run {
        "[DRY RUN] Copy "@ + route + " (nothing will be written)"@
    } else {
        "Copying "@ + route
    }
}

/// The line that opens a run.
pub fn heading(options: &MigrateOptions, scope: &str, from: &str, to: &str) -> (r: String)
    ensures
        r@ == heading_text(options.dry_run, scope@, from@, to@),
{
    let route = join2(
        join3(scope, " scope: ", from).as_str(),
        join2(" -> ", to).as_str(),
    );
    if options.dry_run {
        join3("[DRY RUN] Copy ", route.as_str(), " (nothing will be written)")
    } else {
        join2("Copying ", route.as_str())
    }
}

pub open spec fn summary_text(options: MigrateOptions, t: Tally) -> Seq<char> {
    let opening = if options.dry_run {
        "[DRY RUN] "@
    } else {
        "Done: "@
    };
    let verb = if options.dry_run {
        " entries would copy ("@
    } else {
        " entries copied ("@
    };
    let users = if options.include_users {
        ", "@ + digits(t.users_copied as nat) + " user credential secrets"@
    } else {
        Seq::empty()
    };
    let failures = if t.failures > 0 {
        ", "@ + digits(t.failures as nat) + " FAILURES"@
    } else {
        Seq::empty()
    };
    (opening + digits(t.folders_done as nat) + " folders, "@) + (digits(t.entries_copied as nat)
        + verb + digits(t.entries_skipped as nat)) + (" skipped)"@ + users + (failures + "."@))
}

/// The line that closes a run.
pub fn summary(options: &MigrateOptions, t: &Tally) -> (r: String)
    ensures
        r@ == summary_text(*options, *t),
{
    let opening = if options.dry_run {
        "[DRY RUN] "
    } else {
        "Done: "
    };
    let verb = if options.dry_run {
        " entries would copy ("
    } else {
        " entries copied ("
    };
    let users = if options.include_users {
        join3(", ", decimal(t.users_copied).as_str(), " user credential secrets")
    } else {
        String::new()
    };
    let failures = if t.failures > 0 {
        join3(", ", decimal(t.failures).as_str(), " FAILURES")
    } else {
        String::new()
    };
    let folders = join3(opening, decimal(t.folders_done).as_str(), " folders, ");
    let entries = join3(
        decimal(t.entries_copied).as_str(),
        verb,
        decimal(t.entries_skipped).as_str(),
    );
    let rest = join3(
        " skipped)",
        users.as_str(),
        join2(failures.as_str(), ".").as_str(),
    );
    proof {
        if !options.include_users {
            assert(users@ =~= Seq::<char>::empty());
        }
        if t.failures == 0 {
            assert(failures@ =~= Seq::<char>::empty());
        }
    }
    join3(folders.as_str(), entries.as_str(), rest.as_str())
}

} // verus!
