//! Recordings: which files are recordings, what stands beside them, and which
//! leave when there are too many.

use crate::text::{
    borrow_opt, chars, copy_opt, ends_with, find_last_char, join2, opt_text, same_opt, same_text,
    slice_text, texts,
};
use crate::time::Timestamp;
use vstd::prelude::*;
use vstd::string::*;

verus! {

/// Sidecar metadata written alongside each recording file.
#[derive(Debug)]
pub struct RecordingMeta {
    /// Address book entry key (e.g. "shared/folder/entry").
    pub address_book_entry: Option<String>,
    /// ISO 8601 timestamp when the recording was created.
    pub created_at: String,
    /// User who created the session (email).
    pub user: Option<String>,
    /// Address book folder name.
    pub folder: Option<String>,
    /// Display name of the address book entry.
    pub entry_display_name: Option<String>,
    /// Session type (ssh, rdp, vnc, web).
    pub session_type: Option<String>,
}

/// `[recording]`, as far as rotation and encryption go.
#[derive(Debug, Clone, Copy, PartialEq, Eq, Structural)]
pub struct RecordingConfig {
    /// How many recordings are kept (0 = unlimited).
    pub max_recordings: u32,
    /// How full the disk may be, in percent (0 = unlimited).
    pub max_disk_percent: u8,
    /// Whether recordings are encrypted; `None` follows the key.
    pub encrypt_at_rest: Option<bool>,
}

/// A file in the recording directory.
#[derive(Debug)]
pub struct RecordingFile {
    /// The file's name, without its directory.
    pub name: String,
    pub modified: Timestamp,
    pub size: u64,
    /// The address book entry that the file's sidecar names.
    pub entry: Option<String>,
}

impl RecordingFile {
    /// A copy of the record.
    pub fn copy(&self) -> (r: Self)
        ensures
            r == *self,
    {
        RecordingFile {
            name: self.name.clone(),
            modified: self.modified,
            size: self.size,
            entry: copy_opt(&self.entry),
        }
    }
}

// ── File names ──
/// The position of the dot before a file name's extension: the last dot, but
/// not one at the front.
pub open spec fn extension_dot(name: Seq<char>) -> Option<int>
    decreases name.len(),
{
    if name.len() <= 1 {
        None
    } else if name.last() == '.' {
        Some(name.len() - 1)
    } else {
        extension_dot(name.drop_last())
    }
}

/// The extension of a file name.
pub open spec fn extension(name: Seq<char>) -> Option<Seq<char>> {
    match extension_dot(name) {
        Some(i) => Some(name.skip(i + 1)),
        None => None,
    }
}

/// A file name without its extension.
pub open spec fn stem(name: Seq<char>) -> Seq<char> {
    match extension_dot(name) {
        Some(i) => name.take(i),
        None => name,
    }
}

proof fn lemma_extension_dot(name: Seq<char>, i: int)
    requires
        0 < i < name.len(),
        name[i] == '.',
        forall|j: int| i < j < name.len() ==> name[j] != '.',
    ensures
        extension_dot(name) == Some(i),
    decreases name.len(),
{
    if i < name.len() - 1 {
        lemma_extension_dot(name.drop_last(), i);
    }
}

proof fn lemma_no_extension(name: Seq<char>)
    requires
        forall|j: int| 0 < j < name.len() ==> name[j] != '.',
    ensures
        extension_dot(name) is None,
    decreases name.len(),
{
    if name.len() > 1 {
        lemma_no_extension(name.drop_last());
    }
}

/// A file name as its stem and extension.
fn split_name(name: &str) -> (r: (String, Option<String>))
    ensures
        r.0@ == stem(name@),
        opt_text(r.1) == extension(name@),
{
    let v = chars(name);
    match find_last_char(&v, '.') {
        Some(i) => {
            if i == 0 {
                proof {
                    lemma_no_extension(name@);
                }
                (name.to_owned(), None)
            } else {
                let n: usize = v.len();
                proof {
                    lemma_extension_dot(name@, i as int);
                    assert(name@.subrange(0, i as int) =~= name@.take(i as int));
                    assert(name@.subrange(i + 1, n as int) =~= name@.skip(i + 1));
                }
                (slice_text(&v, 0, i), Some(slice_text(&v, i + 1, n)))
            }
        },
        None => {
            proof {
                assert forall|j: int| 0 < j < name@.len() implies name@[j] != '.' by {
                    assert(v@.contains(v@[j]));
                }
                lemma_no_extension(name@);
            }
            (name.to_owned(), None)
        },
    }
}

/// Whether a file is an encrypted recording.
pub open spec fn encrypted_name(name: Seq<char>) -> bool {
    extension(name) == Some("enc"@) && ".guac"@.is_suffix_of(stem(name))
}

/// Whether a file is a recording, plain or encrypted.
pub open spec fn recording_name(name: Seq<char>) -> bool {
    extension(name) == Some("guac"@) || encrypted_name(name)
}

/// Whether a file is a recording: `.guac`, or `.guac.enc` when encrypted.
pub fn is_recording(name: &str) -> (r: bool)
    ensures
        r == recording_name(name@),
{
    let (base, ext): (String, Option<String>) = split_name(name);
    match ext {
        Some(e) => same_text(e.as_str(), "guac") || (same_text(e.as_str(), "enc") && ends_with(
            base.as_str(),
            ".guac",
        )),
        None => false,
    }
}

/// `s` without the suffix `.guac`, if it has it.
pub open spec fn without_guac(s: Seq<char>) -> Seq<char> {
    if ".guac"@.is_suffix_of(s) {
        s.take(s.len() - 5)
    } else {
        s
    }
}

/// The sidecar of a recording: the name without `.guac` or `.guac.enc`, with
/// `.meta`.
pub open spec fn meta_name(name: Seq<char>) -> Seq<char> {
    if extension(name) == Some("enc"@) {
        without_guac(stem(name)) + ".meta"@
    } else {
        stem(name) + ".meta"@
    }
}

/// The sidecar of a recording.
pub fn meta_file(name: &str) -> (r: String)
    ensures
        r@ == meta_name(name@),
{
    let (base, ext): (String, Option<String>) = split_name(name);
    let enc = match ext {
        Some(e) => same_text(e.as_str(), "enc"),
        None => false,
    };
    if enc && ends_with(base.as_str(), ".guac") {
        proof {
            reveal_strlit(".guac");
        }
        let v = chars(base.as_str());
        let n: usize = v.len() - 5;
        proof {
            assert(base@.subrange(0, n as int) =~= base@.take(base@.len() - 5));
        }
        let short = slice_text(&v, 0, n);
        join2(short.as_str(), ".meta")
    } else {
        join2(base.as_str(), ".meta")
    }
}

/// The other form of a recording: the plain file of an encrypted one, and the
/// encrypted file of a plain one.
pub open spec fn counterpart(name: Seq<char>) -> Option<Seq<char>> {
    if encrypted_name(name) {
        Some(stem(name))
    } else if extension(name) == Some("enc"@) {
        Some(stem(name) + ".guac"@)
    } else if extension(name) == Some("guac"@) {
        Some(stem(name) + ".guac.enc"@)
    } else {
        None
    }
}

/// The encrypted file of a recording.
pub fn encrypted_file(name: &str) -> (r: String)
    ensures
        r@ == stem(name@) + ".guac.enc"@,
{
    let (base, _): (String, Option<String>) = split_name(name);
    join2(base.as_str(), ".guac.enc")
}

/// The files that go with a recording: itself, its sidecar, and what is left
/// of its other form.
pub open spec fn files_of(name: Seq<char>) -> Seq<Seq<char>> {
    match counterpart(name) {
        Some(c) => seq![name, meta_name(name), c],
        None => seq![name, meta_name(name)],
    }
}

/// The files to remove when a recording is deleted.
pub fn delete_recording(name: &str) -> (r: Vec<String>)
    ensures
        texts(r@) == files_of(name@),
{
    let (base, ext): (String, Option<String>) = split_name(name);
    let mut out: Vec<String> = Vec::new();
    out.push(name.to_owned());
    out.push(meta_file(name));
    if let Some(e) = ext {
        proof {
            reveal_strlit("enc");
            reveal_strlit("guac");
            assert("enc"@.len() == 3 && "guac"@.len() == 4);
        }
        if same_text(e.as_str(), "enc") {
            if ends_with(base.as_str(), ".guac") {
                out.push(base);
            } else {
                out.push(join2(base.as_str(), ".guac"));
            }
        } else if same_text(e.as_str(), "guac") {
            out.push(join2(base.as_str(), ".guac.enc"));
        }
    }
    proof {
        assert(texts(out@) =~= files_of(name@));
    }
    out
}

/// The plain and the encrypted file of one recording share their sidecar, and
/// each is the other's counterpart.
pub proof fn law_forms_share_a_sidecar(session: Seq<char>)
    requires
        session.len() > 0,
    ensures
        ({
            let plain = session + ".guac"@;
            let enc = session + ".guac.enc"@;
            &&& recording_name(plain) && recording_name(enc)
            &&& meta_name(plain) == session + ".meta"@
            &&& meta_name(enc) == session + ".meta"@
            &&& counterpart(plain) == Some(enc)
            &&& counterpart(enc) == Some(plain)
        }),
{
    reveal_strlit(".guac");
    reveal_strlit(".guac.enc");
    reveal_strlit("guac");
    reveal_strlit("enc");
    let plain = session + ".guac"@;
    let enc = session + ".guac.enc"@;
    let n = session.len() as int;
    assert(".guac"@.len() == 5 && ".guac.enc"@.len() == 9 && "guac"@.len() == 4 && "enc"@.len()
        == 3);
    assert forall|j: int| n < j < plain.len() implies plain[j] != '.' by {
        assert(plain[j] == ".guac"@[j - n]);
    }
    assert(plain[n] == '.');
    lemma_extension_dot(plain, n);
    assert(plain.skip(n + 1) =~= "guac"@);
    assert(plain.take(n) =~= session);
    assert forall|j: int| n + 5 < j < enc.len() implies enc[j] != '.' by {
        assert(enc[j] == ".guac.enc"@[j - n]);
    }
    assert(enc[n + 5] == '.') by {
        assert(enc[n + 5] == ".guac.enc"@[5]);
    }
    lemma_extension_dot(enc, n + 5);
    assert(enc.skip(n + 6) =~= "enc"@);
    assert(enc.take(n + 5) =~= plain);
    assert(plain.subrange(n, n + 5) =~= ".guac"@);
    assert(".guac"@.is_suffix_of(plain));
    assert(plain.take(plain.len() - 5) =~= session);
}

// ── Listing ──
/// Files from the oldest to the newest.
pub open spec fn oldest_first(v: Seq<RecordingFile>) -> bool {
    forall|i: int, j: int|
        0 <= i < j < v.len() ==> v[i].modified.ticks() <= v[j].modified.ticks()
}

/// The recordings among the files of a directory.
pub open spec fn recordings_in(v: Seq<RecordingFile>) -> Seq<RecordingFile>
    decreases v.len(),
{
    if v.len() == 0 {
        v
    } else if recording_name(v.last().name@) {
        recordings_in(v.drop_last()).push(v.last())
    } else {
        recordings_in(v.drop_last())
    }
}

proof fn lemma_age_insert(v: Seq<RecordingFile>, at: int, x: RecordingFile)
    requires
        oldest_first(v),
        0 <= at <= v.len(),
        forall|j: int| 0 <= j < at ==> (#[trigger] v[j]).modified.ticks() <= x.modified.ticks(),
        at < v.len() ==> x.modified.ticks() < v[at].modified.ticks(),
    ensures
        oldest_first(v.insert(at, x)),
        v.insert(at, x).to_multiset() == v.to_multiset().insert(x),
{
    let o = v.insert(at, x);
    assert forall|a: int, b: int| 0 <= a < b < o.len() implies o[a].modified.ticks()
        <= o[b].modified.ticks() by {
        if b < at {
            assert(v[a].modified.ticks() <= v[b].modified.ticks());
        } else if b == at {
            assert(v[a].modified.ticks() <= x.modified.ticks());
        } else if a < at {
            assert(v[a].modified.ticks() <= v[b - 1].modified.ticks());
        } else if a == at {
            if b - 1 > at {
                assert(v[at].modified.ticks() <= v[b - 1].modified.ticks());
            }
        } else {
            assert(v[a - 1].modified.ticks() <= v[b - 1].modified.ticks());
        }
    }
    broadcast use vstd::seq_lib::group_to_multiset_ensures;

    let p = v.take(at);
    let s = v.skip(at);
    assert(v =~= p + s);
    assert(o =~= p.push(x) + s);
    vstd::seq_lib::lemma_multiset_commutative(p, s);
    vstd::seq_lib::lemma_multiset_commutative(p.push(x), s);
    assert(o.to_multiset() =~= v.to_multiset().insert(x));
}

/// The recordings among the files of a directory, oldest first.
pub fn list_recordings_by_age(files: &Vec<RecordingFile>) -> (r: Vec<RecordingFile>)
    ensures
        oldest_first(r@),
        r@.to_multiset() == recordings_in(files@).to_multiset(),
{
    let mut out: Vec<RecordingFile> = Vec::new();
    let mut i: usize = 0;
    proof {
        assert(recordings_in(files@.take(0)) =~= out@);
    }
    while i < files.len()
        invariant
            i <= files@.len(),
            oldest_first(out@),
            out@.to_multiset() == recordings_in(files@.take(i as int)).to_multiset(),
        decreases files@.len() - i,
    {
        proof {
            assert(files@.take(i + 1).drop_last() =~= files@.take(i as int));
        }
        if is_recording(files[i].name.as_str()) {
            let f = files[i].copy();
            let ghost was = out@;
            let mut at: usize = 0;
            while at < out.len() && !out[at].modified.is_after(&f.modified)
                invariant
                    at <= out@.len(),
                    out@ == was,
                    forall|j: int|
                        0 <= j < at ==> (#[trigger] was[j]).modified.ticks() <= f.modified.ticks(),
                decreases out@.len() - at,
            {
                at = at + 1;
            }
            out.insert(at, f);
            proof {
                broadcast use vstd::seq_lib::group_to_multiset_ensures;

                lemma_age_insert(was, at as int, f);
            }
        }
        i = i + 1;
    }
    proof {
        assert(files@.take(i as int) =~= files@);
    }
    out
}

// ── Rotation ──
/// The names of files.
pub open spec fn names(v: Seq<RecordingFile>) -> Seq<Seq<char>> {
    Seq::new(v.len(), |i: int| v[i].name@)
}

/// How many of `n` recordings are too many (a maximum of 0 is none).
pub open spec fn excess(n: nat, max: u32) -> int {
    if max == 0 || n <= max {
        0
    } else {
        n - max
    }
}

/// The recordings to delete so that at most the maximum is left: the oldest.
/// The list is oldest first.
pub fn rotate(config: &RecordingConfig, recordings: &Vec<RecordingFile>) -> (r: Vec<String>)
    ensures
        texts(r@) == names(recordings@).take(excess(recordings@.len(), config.max_recordings)),
{
    let n: usize = recordings.len();
    let max: usize = config.max_recordings as usize;
    let over: usize = if max == 0 || n <= max {
        0
    } else {
        n - max
    };
    let mut out: Vec<String> = Vec::new();
    let mut i: usize = 0;
    while i < over
        invariant
            i <= over <= recordings@.len(),
            out@.len() == i,
            forall|j: int| 0 <= j < i ==> (#[trigger] out@[j])@ == recordings@[j].name@,
        decreases over - i,
    {
        out.push(recordings[i].name.clone());
        i = i + 1;
    }
    proof {
        assert(texts(out@) =~= names(recordings@).take(over as int));
    }
    out
}

/// The recording to delete next while the disk is too full: the oldest.
pub fn rotate_for_space(disk_over_limit: bool, recordings: &Vec<RecordingFile>) -> (r: Option<
    String,
>)
    ensures
        r == if disk_over_limit && recordings@.len() > 0 {
            Some(recordings@[0].name)
        } else {
            None
        },
{
    if disk_over_limit && recordings.len() > 0 {
        Some(recordings[0].name.clone())
    } else {
        None
    }
}

/// Rotation leaves at most the maximum, and what leaves is no newer than what
/// stays.
pub proof fn law_rotation_keeps_the_newest(v: Seq<RecordingFile>, max: u32, i: int, j: int)
    requires
        oldest_first(v),
        max > 0,
        0 <= i < excess(v.len(), max),
        excess(v.len(), max) <= j < v.len(),
    ensures
        v.len() - excess(v.len(), max) == max,
        v[i].modified.ticks() <= v[j].modified.ticks(),
{
}

/// The recordings of an address book entry.
pub open spec fn recordings_of(v: Seq<RecordingFile>, entry: Seq<char>) -> Seq<RecordingFile>
    decreases v.len(),
{
    if v.len() == 0 {
        v
    } else if opt_text(v.last().entry) == Some(entry) {
        recordings_of(v.drop_last(), entry).push(v.last())
    } else {
        recordings_of(v.drop_last(), entry)
    }
}

/// The recordings of an address book entry to delete so that at most `max` of
/// them are left: the oldest. The list is oldest first.
pub fn rotate_per_entry(recordings: &Vec<RecordingFile>, entry_key: &str, max: u32) -> (r: Vec<
    String,
>)
    ensures
        ({
            let own = recordings_of(recordings@, entry_key@);
            texts(r@) == names(own).take(excess(own.len(), max))
        }),
{
    let ghost own = recordings_of(recordings@, entry_key@);
    let mut matching: Vec<String> = Vec::new();
    let mut i: usize = 0;
    proof {
        assert(texts(matching@) =~= names(recordings_of(recordings@.take(0), entry_key@)));
    }
    while i < recordings.len()
        invariant
            i <= recordings@.len(),
            texts(matching@) == names(recordings_of(recordings@.take(i as int), entry_key@)),
        decreases recordings@.len() - i,
    {
        let ghost before = matching@;
        let ghost front = recordings_of(recordings@.take(i as int), entry_key@);
        proof {
            assert(recordings@.take(i + 1).drop_last() =~= recordings@.take(i as int));
        }
        let f = &recordings[i];
        if same_opt(borrow_opt(&f.entry), Some(entry_key)) {
            matching.push(f.name.clone());
            proof {
                assert(texts(matching@) =~= texts(before).push(f.name@));
                assert(names(front.push(*f)) =~= names(front).push(f.name@));
            }
        }
        i = i + 1;
    }
    proof {
        assert(recordings@.take(i as int) =~= recordings@);
        assert(names(own).len() == own.len());
    }
    let n: usize = matching.len();
    let limit: usize = max as usize;
    let over: usize = if limit == 0 || n <= limit {
        0
    } else {
        n - limit
    };
    let ghost all = texts(matching@);
    matching.truncate(over);
    proof {
        assert(texts(matching@) =~= all.take(over as int));
    }
    matching
}

/// The recordings of an entry are those whose sidecar names exactly it, in
/// order; recordings of other entries or of none are not among them.
pub proof fn law_entry_has_its_own_recordings(v: Seq<RecordingFile>, entry: Seq<char>)
    ensures
        recordings_of(v, entry) == v.filter(
            |f: RecordingFile| f.entry is Some && f.entry->0@ == entry,
        ),
    decreases v.len(),
{
    reveal(Seq::filter);
    if v.len() > 0 {
        law_entry_has_its_own_recordings(v.drop_last(), entry);
    }
}

/// What rotation for an entry deletes: the oldest of the entry's own recordings,
/// as many as there are beyond the maximum, and nothing where there is no
/// maximum. Whatever it names is a recording whose sidecar names the entry.
pub proof fn law_entry_rotation_deletes_its_oldest(
    v: Seq<RecordingFile>,
    entry: Seq<char>,
    max: u32,
    deleted: Seq<Seq<char>>,
    n: int,
)
    requires
        ({
            let own = recordings_of(v, entry);
            deleted == names(own).take(excess(own.len(), max))
        }),
    ensures
        ({
            let own = v.filter(|f: RecordingFile| f.entry is Some && f.entry->0@ == entry);
            &&& max == 0 || own.len() <= max ==> deleted.len() == 0
            &&& max > 0 && own.len() > max ==> deleted.len() + max == own.len()
            &&& forall|k: int| 0 <= k < deleted.len() ==> #[trigger] deleted[k] == own[k].name@
        }),
        0 <= n < deleted.len() ==> exists|i: int|
            0 <= i < v.len() && (#[trigger] v[i]).name@ == deleted[n] && v[i].entry is Some
                && v[i].entry->0@ == entry,
{
    law_entry_has_its_own_recordings(v, entry);
    let p = |f: RecordingFile| f.entry is Some && f.entry->0@ == entry;
    let own = v.filter(p);
    if 0 <= n < deleted.len() {
        lemma_filtered(v, p, n);
        let i = choose|i: int| 0 <= i < v.len() && #[trigger] v[i] == own[n];
        assert(v[i].name@ == deleted[n]);
    }
}

/// What a filter leaves was there, and passes it.
proof fn lemma_filtered(v: Seq<RecordingFile>, p: spec_fn(RecordingFile) -> bool, k: int)
    requires
        0 <= k < v.filter(p).len(),
    ensures
        p(v.filter(p)[k]),
        exists|i: int| 0 <= i < v.len() && #[trigger] v[i] == v.filter(p)[k],
    decreases v.len(),
{
    reveal(Seq::filter);
    if v.len() > 0 {
        let front = v.drop_last();
        let f = front.filter(p);
        if k < f.len() {
            lemma_filtered(front, p, k);
            let i = choose|i: int| 0 <= i < front.len() && #[trigger] front[i] == f[k];
            assert(v[i] == front[i]);
        } else {
            assert(v[v.len() - 1] == v.filter(p)[k]);
        }
    }
}

/// What overall rotation deletes: the oldest, as many as there are beyond the
/// maximum, and nothing where there is no maximum.
pub proof fn law_rotation_deletes_the_oldest(
    v: Seq<RecordingFile>,
    max: u32,
    deleted: Seq<Seq<char>>,
)
    requires
        deleted == names(v).take(excess(v.len(), max)),
    ensures
        max == 0 || v.len() <= max ==> deleted.len() == 0,
        max > 0 && v.len() > max ==> deleted.len() + max == v.len(),
        forall|k: int| 0 <= k < deleted.len() ==> #[trigger] deleted[k] == v[k].name@,
        oldest_first(v) ==> forall|k: int, j: int|
            0 <= k < deleted.len() <= j < v.len() ==> v[k].modified.ticks()
                <= v[j].modified.ticks(),
{
}

/// A listing holds the recordings of a directory and no other file, and goes
/// from the oldest to the newest.
pub proof fn law_listing_is_the_recordings(
    files: Seq<RecordingFile>,
    v: Seq<RecordingFile>,
    i: int,
    j: int,
)
    ensures
        recordings_in(files) == files.filter(|f: RecordingFile| recording_name(f.name@)),
        oldest_first(v) && 0 <= i < j < v.len() ==> v[i].modified.ticks()
            <= v[j].modified.ticks(),
    decreases files.len(),
{
    reveal(Seq::filter);
    if files.len() > 0 {
        law_listing_is_the_recordings(files.drop_last(), v, i, j);
    }
}

/// A file is a recording by its name: something that is not empty, and then
/// `.guac` or `.guac.enc`.
pub proof fn law_recordings_by_name(name: Seq<char>)
    ensures
        recording_name(name) <==> (name.len() > 5 && name.skip(name.len() - 5) == ".guac"@) || (
        name.len() > 8 && name.skip(name.len() - 9) == ".guac.enc"@),
{
    reveal_strlit(".guac");
    reveal_strlit(".guac.enc");
    reveal_strlit("guac");
    reveal_strlit("enc");
    let n = name.len() as int;
    lemma_extension_at(name);
    assert(".guac"@.len() == 5 && ".guac.enc"@.len() == 9);
    assert("guac"@.len() == 4 && "enc"@.len() == 3);
    if n > 5 && name.skip(n - 5) == ".guac"@ {
        assert forall|j: int| n - 5 <= j < n implies name[j] == ".guac"@[j - (n - 5)] by {
            assert(name.skip(n - 5)[j - (n - 5)] == name[j]);
        }
        lemma_extension_dot(name, n - 5);
        assert(name.skip(n - 4) =~= "guac"@);
    }
    if n > 8 && name.skip(n - 9) == ".guac.enc"@ {
        assert forall|j: int| n - 9 <= j < n implies name[j] == ".guac.enc"@[j - (n - 9)] by {
            assert(name.skip(n - 9)[j - (n - 9)] == name[j]);
        }
        lemma_extension_dot(name, n - 4);
        assert(name.skip(n - 3) =~= "enc"@);
        assert(name.take(n - 4).subrange(n - 9, n - 4) =~= ".guac"@);
    }
    if extension(name) == Some("guac"@) {
        let k = extension_dot(name)->0;
        assert(name.skip(k + 1).len() == 4);
        assert(name.skip(n - 5) =~= ".guac"@) by {
            assert forall|j: int| 0 <= j < 5 implies name.skip(n - 5)[j] == ".guac"@[j] by {
                if j > 0 {
                    assert(name.skip(k + 1)[j - 1] == "guac"@[j - 1]);
                }
            }
        }
    }
    if encrypted_name(name) {
        let k = extension_dot(name)->0;
        assert(name.skip(k + 1).len() == 3);
        let t = stem(name);
        assert(t.subrange(t.len() - 5, t.len() as int) == ".guac"@);
        assert(name.skip(n - 9) =~= ".guac.enc"@) by {
            assert forall|j: int| 0 <= j < 9 implies name.skip(n - 9)[j] == ".guac.enc"@[j] by {
                if j < 5 {
                    assert(t.subrange(t.len() - 5, t.len() as int)[j] == ".guac"@[j]);
                } else if j > 5 {
                    assert(name.skip(k + 1)[j - 6] == "enc"@[j - 6]);
                }
            }
        }
    }
}

proof fn lemma_extension_at(name: Seq<char>)
    ensures
        match extension_dot(name) {
            Some(i) => 0 < i < name.len() && name[i] == '.',
            None => true,
        },
    decreases name.len(),
{
    if name.len() > 1 && name.last() != '.' {
        lemma_extension_at(name.drop_last());
    }
}

/// What is deleted with a recording: it, the sidecar that both its forms share,
/// and its other form.
pub proof fn law_recording_goes_whole(session: Seq<char>)
    requires
        session.len() > 0,
    ensures
        files_of(session + ".guac"@) == seq![
            session + ".guac"@,
            session + ".meta"@,
            session + ".guac.enc"@,
        ],
        files_of(session + ".guac.enc"@) == seq![
            session + ".guac.enc"@,
            session + ".meta"@,
            session + ".guac"@,
        ],
{
    law_forms_share_a_sidecar(session);
}

// ── Encryption ──
/// Whether recordings should be encrypted at rest: as configured, or else
/// where an encryption key is configured.
pub fn should_encrypt_at_rest(config: &RecordingConfig, encryption_key_hex: Option<&str>) -> (r: bool)
    ensures
        r == match config.encrypt_at_rest {
            Some(v) => v,
            None => encryption_key_hex is Some && encryption_key_hex->0@.len() > 0,
        },
{
    match config.encrypt_at_rest {
        Some(v) => v,
        None => match encryption_key_hex {
            Some(k) => !k.is_empty(),
            None => false,
        },
    }
}

} // verus!
