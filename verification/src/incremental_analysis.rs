//! Incremental analysis: which files were added, modified, deleted or left
//! unchanged since the last run, judged by comparing each file's current
//! content hash with the fingerprint stored for it.
//!
//! Reading the stored fingerprints and the files is the caller's; what was
//! found is handed in, and the diff and the fingerprint writes it calls for
//! are computed here.

use vstd::prelude::*;
use crate::text::{chars_of, matches_at, push_str, slice_chars, starts_with, str_eq, string_of, string_views};
use sha2::{Digest, Sha256};

verus! {

/// The lowercase hexadecimal SHA-256 digest of some bytes.
pub uninterp spec fn sha256_hex_of_bytes(bytes: Seq<u8>) -> Seq<char>;

/// SHA-256 of some bytes, as 64 lowercase hex digits (sha2 `Sha256` fed
/// the bytes, then hex formatting of the digest).
#[verifier::external_body]
fn sha256_hex_bytes(bytes: &[u8]) -> (h: String)
    ensures
        h@ == sha256_hex_of_bytes(bytes@),
        h@.len() == 64,
{
    let mut hasher = Sha256::new();
    hasher.update(bytes);
    format!("{:x}", hasher.finalize())
}

/// Result of comparing the current files with the stored fingerprints.
#[derive(Debug, Clone)]
pub struct IncrementalDiff {
    /// Files added since the last analysis.
    pub added: Vec<String>,
    /// Files whose hash changed.
    pub modified: Vec<String>,
    /// Files deleted.
    pub deleted: Vec<String>,
    /// Files unchanged, which can be skipped.
    pub unchanged: Vec<String>,
    /// Number of files scanned.
    pub total: usize,
}

/// What was found on disk for a file.
#[derive(Debug, Clone)]
pub enum FileState {
    /// The file does not exist.
    Missing,
    /// The file exists but could not be hashed.
    Unreadable,
    /// The file's content hash and its file name.
    Present { hash: String, file_name: String },
}

/// How a fingerprint is written.
#[derive(Debug, Clone, Copy, PartialEq, Eq)]
pub enum WriteKind {
    /// Update the stored row.
    Update,
    /// Insert a new row.
    Insert,
}

/// A fingerprint row to write: file URI, content hash, file name and kind.
#[derive(Debug, Clone)]
pub struct FingerprintWrite {
    pub uri: String,
    pub hash: String,
    pub file_name: String,
    pub kind: WriteKind,
}

/// Tracks file state for incremental analysis of one document.
#[derive(Debug, Clone)]
pub struct IncrementalAnalyzer {
    document_name: String,
}

/// The URI a file's fingerprint is stored under.
pub open spec fn file_uri(path: Seq<char>) -> Seq<char> {
    "file://"@ + path
}

/// The (uri, hash) views of the stored fingerprints.
pub open spec fn pair_views(v: Seq<(String, String)>) -> Seq<(Seq<char>, Seq<char>)> {
    v.map_values(|p: (String, String)| (p.0@, p.1@))
}

/// The stored URIs.
pub open spec fn stored_uris(v: Seq<(String, String)>) -> Seq<Seq<char>> {
    v.map_values(|p: (String, String)| p.0@)
}

/// The hash stored for a URI, if any: that of the last row of the URI's,
/// as a map loaded row by row keeps it.
pub open spec fn stored_hash(stored: Seq<(String, String)>, uri: Seq<char>) -> Option<Seq<char>>
    decreases stored.len(),
{
    if stored.len() == 0 {
        None
    } else if stored.last().0@ == uri {
        Some(stored.last().1@)
    } else {
        stored_hash(stored.drop_last(), uri)
    }
}

/// The diff and writes for the first files, in order: a missing file is
/// deleted; an unreadable one is skipped; a hashed one is unchanged when its
/// stored hash equals the current one, modified (with an update) when it
/// differs, and added (with an insert) when nothing is stored.
pub open spec fn scan(
    paths: Seq<String>,
    states: Seq<FileState>,
    stored: Seq<(String, String)>,
) -> (Seq<Seq<char>>, Seq<Seq<char>>, Seq<Seq<char>>, Seq<Seq<char>>, Seq<(Seq<char>, Seq<char>, Seq<char>, WriteKind)>)
    decreases paths.len(),
{
    if paths.len() == 0 || states.len() != paths.len() {
        (Seq::empty(), Seq::empty(), Seq::empty(), Seq::empty(), Seq::empty())
    } else {
        let (a, m, d, u, w) = scan(paths.drop_last(), states.drop_last(), stored);
        let p = paths.last()@;
        let uri = file_uri(p);
        match states.last() {
            FileState::Missing => (a, m, d.push(p), u, w),
            FileState::Unreadable => (a, m, d, u, w),
            FileState::Present { hash, file_name } => match stored_hash(stored, uri) {
                Some(h) => if h == hash@ {
                    (a, m, d, u.push(p), w)
                } else {
                    (a, m.push(p), d, u, w.push((uri, hash@, file_name@, WriteKind::Update)))
                },
                None => (a.push(p), m, d, u, w.push((uri, hash@, file_name@, WriteKind::Insert))),
            },
        }
    }
}

/// Stored files no longer among the current ones: the paths of the stored
/// `file://` URIs that no current file maps to, each URI once, in the
/// order of its first row.
pub open spec fn vanished(stored: Seq<(String, String)>, paths: Seq<String>) -> Seq<Seq<char>>
    decreases stored.len(),
{
    if stored.len() == 0 {
        Seq::empty()
    } else {
        let rest = vanished(stored.drop_last(), paths);
        let uri = stored.last().0@;
        if !string_views(paths).map_values(|p: Seq<char>| file_uri(p)).contains(uri) && starts_with(uri, "file://"@)
            && !stored_uris(stored.drop_last()).contains(uri) {
            rest.push(uri.skip(7))
        } else {
            rest
        }
    }
}

/// The view of a fingerprint write.
pub open spec fn write_view(w: FingerprintWrite) -> (Seq<char>, Seq<char>, Seq<char>, WriteKind) {
    (w.uri@, w.hash@, w.file_name@, w.kind)
}

impl IncrementalAnalyzer {
    /// An analyzer for a document.
    pub fn new(document_name: &str) -> (a: Self)
        ensures
            a.document()@ == document_name@,
    {
        IncrementalAnalyzer { document_name: document_name.to_owned() }
    }

    /// The content hash of a file from its bytes: SHA-256 as 64 lowercase
    /// hex digits. Reading the file is the caller's.
    pub fn compute_file_hash(content: &[u8]) -> (h: String)
        ensures
            h@ == sha256_hex_of_bytes(content@),
            h@.len() == 64,
    {
        sha256_hex_bytes(content)
    }

    /// The document analyzed.
    pub closed spec fn document(&self) -> String {
        self.document_name
    }

    /// The document analyzed.
    pub fn document_name(&self) -> (r: &str)
        ensures
            r@ == self.document()@,
    {
        self.document_name.as_str()
    }

    /// Compares the current files (`states[i]` is what was found for
    /// `file_paths[i]`) with the stored fingerprints: see
    /// `scan` for the files, then the stored files that vanished are
    /// deleted too. Gives the diff and the fingerprint writes, in file order.
    pub fn diff(
        &self,
        stored: &Vec<(String, String)>,
        file_paths: &Vec<String>,
        states: &Vec<FileState>,
    ) -> (r: (IncrementalDiff, Vec<FingerprintWrite>))
        requires
            states@.len() == file_paths@.len(),
        ensures
            ({
                let (a, m, d, u, w) = scan(file_paths@, states@, stored@);
                &&& string_views(r.0.added@) == a
                &&& string_views(r.0.modified@) == m
                &&& string_views(r.0.deleted@) == d + vanished(stored@, file_paths@)
                &&& string_views(r.0.unchanged@) == u
                &&& r.0.total == file_paths@.len()
                &&& r.1@.map_values(|x: FingerprintWrite| write_view(x)) == w
            }),
    {
        let mut added: Vec<String> = Vec::new();
        let mut modified: Vec<String> = Vec::new();
        let mut deleted: Vec<String> = Vec::new();
        let mut unchanged: Vec<String> = Vec::new();
        let mut writes: Vec<FingerprintWrite> = Vec::new();
        let mut uris: Vec<String> = Vec::new();
        let mut i: usize = 0;
        while i < file_paths.len()
            invariant
                i <= file_paths@.len(),
                states@.len() == file_paths@.len(),
                ({
                    let (a, m, d, u, w) = scan(file_paths@.take(i as int), states@.take(i as int), stored@);
                    &&& string_views(added@) == a
                    &&& string_views(modified@) == m
                    &&& string_views(deleted@) == d
                    &&& string_views(unchanged@) == u
                    &&& writes@.map_values(|x: FingerprintWrite| write_view(x)) == w
                }),
                string_views(uris@) == string_views(file_paths@.take(i as int)).map_values(|p: Seq<char>| file_uri(p)),
            decreases file_paths@.len() - i,
        {
            proof {
                assert(file_paths@.take(i + 1).drop_last() == file_paths@.take(i as int));
                assert(states@.take(i + 1).drop_last() == states@.take(i as int));
            }
            let path = &file_paths[i];
            let mut uri = "file://".to_owned();
            push_str(&mut uri, path.as_str());
            let ghost ub = uris@;
            uris.push(uri.clone());
            proof {
                assert(uri@ == file_uri(path@));
                assert(string_views(file_paths@.take(i + 1)) =~= string_views(file_paths@.take(i as int)).push(path@));
                assert(string_views(uris@) =~= string_views(ub).push(uri@));
                assert(string_views(uris@) =~= string_views(file_paths@.take(i + 1)).map_values(|p: Seq<char>| file_uri(p)));
            }
            let ghost (a0, m0, d0, u0, w0) = scan(file_paths@.take(i as int), states@.take(i as int), stored@);
            match &states[i] {
                FileState::Missing => {
                    let ghost db = deleted@;
                    deleted.push(path.clone());
                    proof {
                        assert(string_views(deleted@) =~= string_views(db).push(path@));
                    }
                },
                FileState::Unreadable => {},
                FileState::Present { hash, file_name } => {
                    match lookup(stored, &uri) {
                        Some(h) => {
                            if str_eq(h.as_str(), hash.as_str()) {
                                let ghost b = unchanged@;
                                unchanged.push(path.clone());
                                proof {
                                    assert(string_views(unchanged@) =~= string_views(b).push(path@));
                                }
                            } else {
                                let ghost b = modified@;
                                modified.push(path.clone());
                                let ghost wb = writes@;
                                writes.push(FingerprintWrite {
                                    uri: uri.clone(),
                                    hash: hash.clone(),
                                    file_name: file_name.clone(),
                                    kind: WriteKind::Update,
                                });
                                proof {
                                    assert(string_views(modified@) =~= string_views(b).push(path@));
                                    assert(writes@.map_values(|x: FingerprintWrite| write_view(x)) =~= wb.map_values(
                                        |x: FingerprintWrite| write_view(x),
                                    ).push((uri@, hash@, file_name@, WriteKind::Update)));
                                }
                            }
                        },
                        None => {
                            let ghost b = added@;
                            added.push(path.clone());
                            let ghost wb = writes@;
                            writes.push(FingerprintWrite {
                                uri: uri.clone(),
                                hash: hash.clone(),
                                file_name: file_name.clone(),
                                kind: WriteKind::Insert,
                            });
                            proof {
                                assert(string_views(added@) =~= string_views(b).push(path@));
                                assert(writes@.map_values(|x: FingerprintWrite| write_view(x)) =~= wb.map_values(
                                    |x: FingerprintWrite| write_view(x),
                                ).push((uri@, hash@, file_name@, WriteKind::Insert)));
                            }
                        },
                    }
                },
            }
            i += 1;
        }
        proof {
            assert(file_paths@.take(file_paths@.len() as int) == file_paths@);
            assert(states@.take(states@.len() as int) == states@);
        }
        let ghost d_files = string_views(deleted@);
        let mut k: usize = 0;
        while k < stored.len()
            invariant
                k <= stored@.len(),
                string_views(uris@) == string_views(file_paths@).map_values(|p: Seq<char>| file_uri(p)),
                string_views(deleted@) == d_files + vanished(stored@.take(k as int), file_paths@),
            decreases stored@.len() - k,
        {
            proof {
                assert(stored@.take(k + 1).drop_last() == stored@.take(k as int));
                assert(stored@.take(k + 1).last() == stored@[k as int]);
            }
            let uri = &stored[k].0;
            if !contains_string(&uris, uri) && !uri_seen(stored, k, uri) {
                let chars = chars_of(uri.as_str());
                let prefix = chars_of("file://");
                proof {
                    reveal_strlit("file://");
                    assert(chars@.skip(0) == chars@);
                }
                if matches_at(chars.as_slice(), 0, prefix.as_slice()) {
                    let rest = slice_chars(chars.as_slice(), 7, chars.len());
                    let ghost db = deleted@;
                    deleted.push(string_of(rest.as_slice()));
                    proof {
                        assert(rest@ =~= uri@.skip(7));
                        assert(string_views(deleted@) =~= string_views(db).push(uri@.skip(7)));
                    }
                }
            }
            k += 1;
        }
        proof {
            assert(stored@.take(stored@.len() as int) == stored@);
        }
        let total = file_paths.len();
        (IncrementalDiff { added, modified, deleted, unchanged, total }, writes)
    }

    /// Whether any file was added, modified or deleted.
    pub fn has_changes(&self, diff: &IncrementalDiff) -> (r: bool)
        ensures
            r == (diff.added@.len() > 0 || diff.modified@.len() > 0 || diff.deleted@.len() > 0),
    {
        diff.added.len() > 0 || diff.modified.len() > 0 || diff.deleted.len() > 0
    }
}

/// The hash stored for a URI (its last row's).
fn lookup(stored: &Vec<(String, String)>, uri: &String) -> (r: Option<String>)
    ensures
        match (r, stored_hash(stored@, uri@)) {
            (Some(a), Some(b)) => a@ == b,
            (None, None) => true,
            _ => false,
        },
{
    let mut k: usize = stored.len();
    assert(stored@.take(k as int) =~= stored@);
    while k > 0
        invariant
            k <= stored@.len(),
            stored_hash(stored@, uri@) == stored_hash(stored@.take(k as int), uri@),
        decreases k,
    {
        assert(stored@.take(k as int).last() == stored@[k - 1]);
        assert(stored@.take(k as int).drop_last() =~= stored@.take(k - 1));
        if str_eq(stored[k - 1].0.as_str(), uri.as_str()) {
            return Some(stored[k - 1].1.clone());
        }
        k -= 1;
    }
    None
}

/// Whether a URI has a row among the first `k` stored ones.
fn uri_seen(stored: &Vec<(String, String)>, k: usize, uri: &String) -> (r: bool)
    requires
        k <= stored@.len(),
    ensures
        r == stored_uris(stored@.take(k as int)).contains(uri@),
{
    let mut j: usize = 0;
    while j < k
        invariant
            j <= k <= stored@.len(),
            forall|i: int| 0 <= i < j ==> stored@[i].0@ != uri@,
        decreases k - j,
    {
        if str_eq(stored[j].0.as_str(), uri.as_str()) {
            proof {
                assert(stored_uris(stored@.take(k as int))[j as int] == uri@);
            }
            return true;
        }
        j += 1;
    }
    proof {
        if stored_uris(stored@.take(k as int)).contains(uri@) {
            let i = choose|i: int| 0 <= i < stored_uris(stored@.take(k as int)).len() && stored_uris(
                stored@.take(k as int),
            )[i] == uri@;
            assert(stored@[i].0@ == uri@);
        }
    }
    false
}

fn contains_string(v: &Vec<String>, x: &String) -> (r: bool)
    ensures
        r == string_views(v@).contains(x@),
{
    let mut i: usize = 0;
    while i < v.len()
        invariant
            i <= v@.len(),
            forall|k: int| 0 <= k < i ==> v@[k]@ != x@,
        decreases v@.len() - i,
    {
        if str_eq(v[i].as_str(), x.as_str()) {
            proof {
                assert(string_views(v@)[i as int] == x@);
            }
            return true;
        }
        i += 1;
    }
    proof {
        if string_views(v@).contains(x@) {
            let k = choose|k: int| 0 <= k < string_views(v@).len() && string_views(v@)[k] == x@;
            assert(v@[k]@ == x@);
        }
    }
    false
}

/// Every listed file found missing is reported deleted: its path is among
/// the deleted files of the scan, whatever is stored.
pub proof fn lemma_missing_files_deleted(paths: Seq<String>, states: Seq<FileState>, stored: Seq<(String, String)>, j: int)
    requires
        states.len() == paths.len(),
        0 <= j < paths.len(),
        states[j] is Missing,
    ensures
        scan(paths, states, stored).2.contains(paths[j]@),
    decreases paths.len(),
{
    let n = paths.len() - 1;
    if j == n {
        let d = scan(paths.drop_last(), states.drop_last(), stored).2;
        assert(states.last() == states[j]);
        assert(scan(paths, states, stored).2 == d.push(paths.last()@));
        assert(d.push(paths.last()@)[d.len() as int] == paths[j]@);
    } else {
        assert(paths.drop_last()[j] == paths[j]);
        assert(states.drop_last()[j] == states[j]);
        lemma_missing_files_deleted(paths.drop_last(), states.drop_last(), stored, j);
        lemma_scan_deleted_grows(paths, states, stored);
    }
}

/// A scan's deleted files extend those of the scan without its last file.
proof fn lemma_scan_deleted_grows(paths: Seq<String>, states: Seq<FileState>, stored: Seq<(String, String)>)
    requires
        states.len() == paths.len(),
        paths.len() > 0,
    ensures
        forall|x: Seq<char>| scan(paths.drop_last(), states.drop_last(), stored).2.contains(x) ==> #[trigger] scan(
            paths,
            states,
            stored,
        ).2.contains(x),
{
    let d = scan(paths.drop_last(), states.drop_last(), stored).2;
    assert forall|x: Seq<char>| d.contains(x) implies #[trigger] scan(paths, states, stored).2.contains(x) by {
        let i = choose|i: int| 0 <= i < d.len() && d[i] == x;
        match states.last() {
            FileState::Missing => {
                assert(d.push(paths.last()@)[i] == x);
            },
            _ => {},
        }
    }
}

// ------------------------------------------------------ rescanning law

/// A (uri, hash) row view and a write view.
pub type RowView = (Seq<char>, Seq<char>);
pub type WriteView = (Seq<char>, Seq<char>, Seq<char>, WriteKind);

/// The stored rows after writes, in order: an update replaces the hash of
/// the rows of its URI, an insert adds a row.
pub open spec fn apply_writes(rows: Seq<RowView>, w: Seq<WriteView>) -> Seq<RowView>
    decreases w.len(),
{
    if w.len() == 0 {
        rows
    } else {
        let r = apply_writes(rows, w.drop_last());
        let x = w.last();
        match x.3 {
            WriteKind::Update => r.map_values(|p: RowView| if p.0 == x.0 { (p.0, x.1) } else { p }),
            WriteKind::Insert => r.push((x.0, x.1)),
        }
    }
}

/// The current hash of a file that was found.
pub open spec fn present_hash(st: FileState) -> Seq<char> {
    match st {
        FileState::Present { hash, file_name } => hash@,
        _ => Seq::empty(),
    }
}

/// Whether every file was found and hashed.
pub open spec fn all_present(states: Seq<FileState>) -> bool {
    forall|i: int| 0 <= i < states.len() ==> (#[trigger] states[i]) is Present
}

/// The hash the rows hold for a URI, if any (the last row of the URI's).
pub open spec fn row_last_hash(v: Seq<RowView>, uri: Seq<char>) -> Option<Seq<char>>
    decreases v.len(),
{
    if v.len() == 0 {
        None
    } else if v.last().0 == uri {
        Some(v.last().1)
    } else {
        row_last_hash(v.drop_last(), uri)
    }
}

proof fn lemma_last_views(s: Seq<(String, String)>, uri: Seq<char>)
    ensures
        stored_hash(s, uri) == row_last_hash(pair_views(s), uri),
    decreases s.len(),
{
    if s.len() > 0 {
        assert(pair_views(s).drop_last() =~= pair_views(s.drop_last()));
        lemma_last_views(s.drop_last(), uri);
    }
}

proof fn lemma_last_update(v: Seq<RowView>, f: spec_fn(RowView) -> RowView, u: Seq<char>, hv: Seq<char>, y: Seq<char>)
    requires
        forall|q: RowView| #[trigger] f(q) == if q.0 == u { (q.0, hv) } else { q },
    ensures
        row_last_hash(v.map_values(f), y) == if y == u {
            if row_last_hash(v, u) is Some { Some(hv) } else { None }
        } else {
            row_last_hash(v, y)
        },
    decreases v.len(),
{
    if v.len() > 0 {
        assert(v.map_values(f).drop_last() =~= v.drop_last().map_values(f));
        assert(v.map_values(f).last() == f(v.last()));
        lemma_last_update(v.drop_last(), f, u, hv, y);
    }
}

/// What the writes of scanning the first `n` files leave in the rows: the
/// last row of each scanned file's URI holds its current hash; the other
/// URIs keep what they had.
proof fn lemma_apply_prefix_last(paths: Seq<String>, states: Seq<FileState>, stored: Seq<(String, String)>, n: int)
    requires
        0 <= n <= paths.len(),
        states.len() == paths.len(),
        string_views(paths).no_duplicates(),
        all_present(states),
    ensures
        ({
            let v = apply_writes(pair_views(stored), scan(paths.take(n), states.take(n), stored).4);
            &&& forall|j: int|
                0 <= j < n ==> row_last_hash(v, #[trigger] file_uri(paths[j]@)) == Some(present_hash(states[j]))
            &&& forall|x: Seq<char>|
                (forall|j: int| 0 <= j < n ==> x != #[trigger] file_uri(paths[j]@)) ==> row_last_hash(v, x)
                    == row_last_hash(pair_views(stored), x)
        }),
    decreases n,
{
    let v0 = pair_views(stored);
    if n == 0 {
        assert(paths.take(0).len() == 0);
    } else {
        lemma_apply_prefix_last(paths, states, stored, n - 1);
        let pt = paths.take(n);
        let sn = states.take(n);
        assert(pt.drop_last() =~= paths.take(n - 1));
        assert(sn.drop_last() =~= states.take(n - 1));
        let prev = scan(paths.take(n - 1), states.take(n - 1), stored);
        let vp = apply_writes(v0, prev.4);
        let p = paths[n - 1]@;
        let u = file_uri(p);
        assert(pt.last() == paths[n - 1]);
        assert(sn.last() == states[n - 1]);
        assert(states[n - 1] is Present);
        assert forall|j: int| 0 <= j < n - 1 implies u != #[trigger] file_uri(paths[j]@) by {
            assert(string_views(paths)[j] == paths[j]@);
            assert(string_views(paths)[n - 1] == paths[n - 1]@);
            if u == file_uri(paths[j]@) {
                reveal_strlit("file://");
                assert(u.skip(7) =~= p);
                assert(file_uri(paths[j]@).skip(7) =~= paths[j]@);
            }
        }
        assert(row_last_hash(vp, u) == row_last_hash(v0, u));
        lemma_last_views(stored, u);
        let cur = scan(pt, sn, stored);
        match states[n - 1] {
            FileState::Present { hash, file_name } => {
                match stored_hash(stored, u) {
                    Some(old) => {
                        if old == hash@ {
                            assert(cur.4 == prev.4);
                            assert forall|j: int| 0 <= j < n implies row_last_hash(vp, #[trigger] file_uri(paths[j]@))
                                == Some(present_hash(states[j])) by {
                                if j < n - 1 {
                                    assert(row_last_hash(vp, file_uri(paths[j]@)) == Some(present_hash(states[j])));
                                }
                            }
                            assert forall|x: Seq<char>|
                                (forall|j: int| 0 <= j < n ==> x != #[trigger] file_uri(paths[j]@)) implies row_last_hash(
                                vp,
                                x,
                            ) == row_last_hash(v0, x) by {
                                assert(forall|j: int| 0 <= j < n - 1 ==> x != #[trigger] file_uri(paths[j]@));
                            }
                        } else {
                            assert(cur.4 == prev.4.push((u, hash@, file_name@, WriteKind::Update)));
                            assert(cur.4.drop_last() == prev.4);
                            let f = |q: RowView| if q.0 == u { (q.0, hash@) } else { q };
                            let v = vp.map_values(f);
                            assert(apply_writes(v0, cur.4) == v);
                            assert forall|y: Seq<char>| #![auto] row_last_hash(v, y) == if y == u {
                                if row_last_hash(vp, u) is Some { Some(hash@) } else { None }
                            } else {
                                row_last_hash(vp, y)
                            } by {
                                lemma_last_update(vp, f, u, hash@, y);
                            }
                            assert forall|j: int| 0 <= j < n implies row_last_hash(v, #[trigger] file_uri(paths[j]@))
                                == Some(present_hash(states[j])) by {
                                if j < n - 1 {
                                    assert(row_last_hash(vp, file_uri(paths[j]@)) == Some(present_hash(states[j])));
                                }
                            }
                            assert forall|x: Seq<char>|
                                (forall|j: int| 0 <= j < n ==> x != #[trigger] file_uri(paths[j]@)) implies row_last_hash(
                                v,
                                x,
                            ) == row_last_hash(v0, x) by {
                                assert(x != file_uri(paths[n - 1]@));
                                assert(forall|j: int| 0 <= j < n - 1 ==> x != #[trigger] file_uri(paths[j]@));
                            }
                        }
                    },
                    None => {
                        assert(cur.4 == prev.4.push((u, hash@, file_name@, WriteKind::Insert)));
                        assert(cur.4.drop_last() == prev.4);
                        let v = vp.push((u, hash@));
                        assert(apply_writes(v0, cur.4) == v);
                        assert(v.drop_last() =~= vp);
                        assert forall|j: int| 0 <= j < n implies row_last_hash(v, #[trigger] file_uri(paths[j]@))
                            == Some(present_hash(states[j])) by {
                            if j < n - 1 {
                                assert(row_last_hash(vp, file_uri(paths[j]@)) == Some(present_hash(states[j])));
                            }
                        }
                        assert forall|x: Seq<char>|
                            (forall|j: int| 0 <= j < n ==> x != #[trigger] file_uri(paths[j]@)) implies row_last_hash(
                            v,
                            x,
                        ) == row_last_hash(v0, x) by {
                            assert(x != file_uri(paths[n - 1]@));
                            assert(forall|j: int| 0 <= j < n - 1 ==> x != #[trigger] file_uri(paths[j]@));
                            assert(row_last_hash(vp, x) == row_last_hash(v0, x));
                            assert(v.last() == (u, hash@));
                            assert(row_last_hash(v, x) == row_last_hash(v.drop_last(), x));
                        }
                    },
                }
            },
            _ => {},
        }
    }
}

proof fn lemma_rescan_prefix(paths: Seq<String>, states: Seq<FileState>, stored: Seq<(String, String)>, n: int)
    requires
        0 <= n <= paths.len(),
        states.len() == paths.len(),
        all_present(states),
        forall|j: int| 0 <= j < n ==> stored_hash(stored, #[trigger] file_uri(paths[j]@)) == Some(present_hash(states[j])),
    ensures
        scan(paths.take(n), states.take(n), stored) == (
            Seq::<Seq<char>>::empty(),
            Seq::<Seq<char>>::empty(),
            Seq::<Seq<char>>::empty(),
            string_views(paths.take(n)),
            Seq::<WriteView>::empty(),
        ),
    decreases n,
{
    if n == 0 {
        assert(string_views(paths.take(0)) =~= Seq::<Seq<char>>::empty());
    } else {
        lemma_rescan_prefix(paths, states, stored, n - 1);
        assert(paths.take(n).drop_last() =~= paths.take(n - 1));
        assert(states.take(n).drop_last() =~= states.take(n - 1));
        assert(paths.take(n).last() == paths[n - 1]);
        assert(states.take(n).last() == states[n - 1]);
        assert(states[n - 1] is Present);
        assert(string_views(paths.take(n)) =~= string_views(paths.take(n - 1)).push(paths[n - 1]@));
        assert(stored_hash(stored, file_uri(paths[n - 1]@)) == Some(present_hash(states[n - 1])));
    }
}

/// Scanning again over the fingerprints a scan wrote: when every file
/// was found and hashed and the paths are distinct, a second scan of the
/// same files finds every one of them unchanged, and writes nothing.
pub proof fn lemma_rescan_unchanged(
    paths: Seq<String>,
    states: Seq<FileState>,
    stored: Seq<(String, String)>,
    stored2: Seq<(String, String)>,
)
    requires
        states.len() == paths.len(),
        string_views(paths).no_duplicates(),
        all_present(states),
        pair_views(stored2) == apply_writes(pair_views(stored), scan(paths, states, stored).4),
    ensures
        scan(paths, states, stored2) == (
            Seq::<Seq<char>>::empty(),
            Seq::<Seq<char>>::empty(),
            Seq::<Seq<char>>::empty(),
            string_views(paths),
            Seq::<WriteView>::empty(),
        ),
{
    let n = paths.len() as int;
    assert(paths.take(n) =~= paths);
    assert(states.take(n) =~= states);
    lemma_apply_prefix_last(paths, states, stored, n);
    assert forall|j: int| 0 <= j < n implies stored_hash(stored2, #[trigger] file_uri(paths[j]@)) == Some(
        present_hash(states[j]),
    ) by {
        lemma_last_views(stored2, file_uri(paths[j]@));
    }
    lemma_rescan_prefix(paths, states, stored2, n);
}

} // verus!
