//! Consistency between S.DEF, the database and generated code: each entity
//! carries three SHA-256 fingerprints, and an entity whose fingerprints
//! disagree is an inconsistency to be fixed by one of several strategies.

use vstd::prelude::*;
use sha2::{Digest, Sha256};
use crate::text::{chars_of, replace, string_of, replace_all};
use serde_json::Value;
use crate::progress::TaskState;
use crate::reviewer::new_uuid_string;
use crate::prompt::response_parser::{json_object, json_object_value, json_string, json_string_value, member_views};

verus! {

/// Lowercase hexadecimal SHA-256 digest of a text's UTF-8 bytes.
pub uninterp spec fn sha256_hex_digest(text: Seq<char>) -> Seq<char>;

/// SHA-256 of the text's UTF-8 bytes, as 64 lowercase hex digits (sha2
/// `Sha256` fed the bytes, then hex formatting of the digest).
#[verifier::external_body]
fn sha256_hex(content: &str) -> (h: String)
    ensures
        h@ == sha256_hex_digest(content@),
        h@.len() == 64,
{
    let mut hasher = Sha256::new();
    hasher.update(content.as_bytes());
    format!("{:x}", hasher.finalize())
}

/// Consistency check level.
#[derive(Debug, Clone, Copy, PartialEq, Eq)]
pub enum CheckLevel {
    /// Fast check: only compare hashes.
    Fast,
    /// Full check: verify structure.
    Full,
    /// Deep check: validate semantics.
    Deep,
}

/// Fix strategy for inconsistencies.
#[derive(Debug, Clone, Copy, PartialEq, Eq)]
pub enum FixStrategy {
    /// Code is the truth: S.DEF and DB hashes follow the code.
    SyncCodeToSdef,
    /// Regenerate code from S.DEF.
    RegenerateCode,
    /// The database is the truth: export it to S.DEF.
    SyncDbToSdef,
    /// S.DEF is the truth: import it into the database.
    SyncSdefToDb,
    /// Accept external changes: only mark the entity consistent.
    AcceptExternal,
}

/// The fingerprints of one entity.
#[derive(Debug)]
pub struct Inconsistency {
    /// Entity URI.
    pub entity_uri: String,
    /// S.DEF hash.
    pub sdef_hash: Option<String>,
    /// Database hash.
    pub db_hash: Option<String>,
    /// Code hash.
    pub code_hash: Option<String>,
}

/// A stored fingerprint row.
#[derive(Debug)]
pub struct Fingerprint {
    pub entity_uri: String,
    pub document_name: String,
    pub entity_type: String,
    pub sdef_hash: Option<String>,
    pub db_hash: Option<String>,
    pub code_hash: Option<String>,
    pub code_path: Option<String>,
    pub last_checked_at: String,
    pub last_consistent_at: Option<String>,
}

fn clone_opt(o: &Option<String>) -> (r: Option<String>)
    ensures
        r == *o,
{
    match o {
        Some(s) => Some(s.clone()),
        None => None,
    }
}

impl Clone for Inconsistency {
    fn clone(&self) -> (r: Self)
        ensures
            r == *self,
    {
        Inconsistency {
            entity_uri: self.entity_uri.clone(),
            sdef_hash: clone_opt(&self.sdef_hash),
            db_hash: clone_opt(&self.db_hash),
            code_hash: clone_opt(&self.code_hash),
        }
    }
}

impl Clone for Fingerprint {
    fn clone(&self) -> (r: Self)
        ensures
            r == *self,
    {
        Fingerprint {
            entity_uri: self.entity_uri.clone(),
            document_name: self.document_name.clone(),
            entity_type: self.entity_type.clone(),
            sdef_hash: clone_opt(&self.sdef_hash),
            db_hash: clone_opt(&self.db_hash),
            code_hash: clone_opt(&self.code_hash),
            code_path: clone_opt(&self.code_path),
            last_checked_at: self.last_checked_at.clone(),
            last_consistent_at: clone_opt(&self.last_consistent_at),
        }
    }
}

/// The entity's three hashes are all known and not all equal.
pub open spec fn inconsistent(i: Inconsistency) -> bool {
    match (i.sdef_hash, i.db_hash, i.code_hash) {
        (Some(s), Some(d), Some(c)) => s@ != d@ || d@ != c@,
        _ => false,
    }
}

fn opt_eq(a: &String, b: &String) -> (r: bool)
    ensures
        r == (a@ == b@),
{
    crate::text::str_eq(a.as_str(), b.as_str())
}

/// A row is reported exactly when its three hashes are all known and not
/// all equal: a known S.DEF hash that differs from a known database hash
/// is reported (with the code hash known), whatever the code hash is, and
/// so is a database hash that differs from the code hash; a row missing a
/// hash never is.
pub proof fn lemma_reported_iff_hashes_disagree(i: Inconsistency)
    ensures
        match (i.sdef_hash, i.db_hash, i.code_hash) {
            (Some(s), Some(d), Some(c)) => inconsistent(i) <==> !(s@ == d@ && d@ == c@ && s@ == c@),
            _ => !inconsistent(i),
        },
{
}

/// The check keeps, in order, every row whose known hashes disagree: a row
/// whose S.DEF and database hashes differ is among the rows reported, and
/// a row whose three hashes are equal is not.
pub proof fn lemma_check_reports_divergent_rows(rows: Seq<Inconsistency>, k: int)
    requires
        0 <= k < rows.len(),
    ensures
        ({
            let reported = rows.filter(|i: Inconsistency| inconsistent(i));
            let row = rows[k];
            &&& (row.sdef_hash matches Some(s) && row.db_hash matches Some(d) && row.code_hash is Some && s@ != d@)
                ==> reported.contains(row)
            &&& (row.sdef_hash matches Some(s) && row.db_hash matches Some(d) && row.code_hash matches Some(c)
                && s@ == d@ && d@ == c@) ==> !reported.contains(row)
        }),
{
    let pred = |i: Inconsistency| inconsistent(i);
    let row = rows[k];
    if row.sdef_hash matches Some(s) && row.db_hash matches Some(d) && row.code_hash is Some && s@ != d@ {
        rows.lemma_filter_contains(pred, k);
    }
    if rows.filter(pred).contains(row) {
        let j = choose|j: int| 0 <= j < rows.filter(pred).len() && rows.filter(pred)[j] == row;
        rows.lemma_filter_pred(pred, j);
    }
}

impl Inconsistency {
    /// Whether the three hashes are all known and disagree.
    pub fn is_inconsistent(&self) -> (r: bool)
        ensures
            r == inconsistent(*self),
    {
        match (&self.sdef_hash, &self.db_hash, &self.code_hash) {
            (Some(s), Some(d), Some(c)) => !opt_eq(s, d) || !opt_eq(d, c),
            _ => false,
        }
    }
}

/// The document name of an entity URI `sdef://{document}/...`: the first
/// path segment after the scheme, or `unknown` without the scheme.
pub open spec fn document_name_of(uri: Seq<char>) -> Seq<char> {
    if crate::text::starts_with(uri, "sdef://"@) {
        let rest = uri.skip(7);
        match rest.index_of_first('/') {
            Some(k) => rest.take(k),
            None => rest,
        }
    } else {
        "unknown"@
    }
}

/// Extracts the document name from an entity URI (see `document_name_of`).
pub fn extract_document_name(entity_uri: &str) -> (r: String)
    ensures
        r@ == document_name_of(entity_uri@),
{
    let chars = chars_of(entity_uri);
    let prefix = chars_of("sdef://");
    proof {
        reveal_strlit("sdef://");
    }
    if !crate::text::matches_at(chars.as_slice(), 0, prefix.as_slice()) {
        assert(chars@.skip(0) == chars@);
        return "unknown".to_owned();
    }
    assert(chars@.skip(0) == chars@);
    let ghost rest = entity_uri@.skip(7);
    let mut j: usize = 7;
    while j < chars.len() && chars[j] != '/'
        invariant
            chars@ == entity_uri@,
            7 <= j <= chars@.len(),
            rest == entity_uri@.skip(7),
            forall|k: int| 0 <= k < j - 7 ==> rest[k] != '/',
        decreases chars@.len() - j,
    {
        j += 1;
    }
    proof {
        rest.index_of_first_ensures('/');
        if j < chars@.len() {
            assert(rest[j - 7] == '/');
            assert(rest.index_of_first('/') == Some((j - 7) as int));
        } else {
            assert(rest.index_of_first('/') is None);
            assert(rest.take(rest.len() as int) == rest);
        }
    }
    let name = crate::text::slice_chars(chars.as_slice(), 7, j);
    proof {
        assert(name@ =~= rest.take(j - 7));
    }
    string_of(name.as_slice())
}

/// The code text a code hash is taken over: Windows line endings turned
/// into plain ones.
pub open spec fn normalized_code(content: Seq<char>) -> Seq<char> {
    replace_all(content, "\r\n"@, "\n"@)
}

/// Path of the S.DEF file that a document is exported to and imported from.
pub open spec fn sdef_file_path(document: Seq<char>) -> Seq<char> {
    "sdef-output/"@ + document + ".sdef.json"@
}

/// A task to regenerate an entity's code, as it is created: its id, type,
/// status, priority, retry count and limit, JSON input, dependencies,
/// version and creation time.
#[derive(Debug)]
pub struct RegenerationTask {
    pub task_id: String,
    pub task_type: String,
    pub status: TaskState,
    pub priority: i32,
    pub retry_count: u32,
    pub max_retries: u32,
    pub input: Value,
    pub dependencies_json: String,
    pub version: i64,
    pub created_at: String,
}

/// Consistency service for three-way verification.
#[derive(Debug, Clone, Copy)]
pub struct ConsistencyService {}

impl ConsistencyService {
    /// A new consistency service.
    pub fn new() -> (s: Self) {
        ConsistencyService {}
    }

    /// SHA-256 of a text, as 64 lowercase hex digits.
    pub fn compute_hash(content: &str) -> (h: String)
        ensures
            h@ == sha256_hex_digest(content@),
            h@.len() == 64,
    {
        sha256_hex(content)
    }

    /// Hash of a code file's content, line endings normalized first.
    pub fn code_hash(content: &str) -> (h: String)
        ensures
            h@ == sha256_hex_digest(normalized_code(content@)),
    {
        proof {
            reveal_strlit("\r\n");
            reveal_strlit("\n");
        }
        let chars = chars_of(content);
        let from = chars_of("\r\n");
        let to = chars_of("\n");
        let normalized = string_of(replace(chars.as_slice(), from.as_slice(), to.as_slice()).as_slice());
        sha256_hex(normalized.as_str())
    }

    /// Path of the S.DEF file of a document.
    pub fn sdef_path(document: &str) -> (p: String)
        ensures
            p@ == sdef_file_path(document@),
    {
        let mut p = "sdef-output/".to_owned();
        crate::text::push_str(&mut p, document);
        crate::text::push_str(&mut p, ".sdef.json");
        p
    }

    /// The inconsistent entries among a document's fingerprint rows, in
    /// order.
    pub fn check(&self, rows: Vec<Inconsistency>, level: CheckLevel) -> (r: Vec<Inconsistency>)
        ensures
            r@ == rows@.filter(|i: Inconsistency| inconsistent(i)),
    {
        let ghost pred = |i: Inconsistency| inconsistent(i);
        let mut r: Vec<Inconsistency> = Vec::new();
        let mut k: usize = 0;
        while k < rows.len()
            invariant
                k <= rows@.len(),
                pred == (|i: Inconsistency| inconsistent(i)),
                r@ == rows@.take(k as int).filter(pred),
            decreases rows@.len() - k,
        {
            proof {
                assert(rows@.take(k + 1).drop_last() == rows@.take(k as int));
                reveal_with_fuel(Seq::filter, 1);
            }
            if rows[k].is_inconsistent() {
                r.push(rows[k].clone());
            }
            k += 1;
        }
        assert(rows@.take(rows@.len() as int) == rows@);
        r
    }

    /// The row written when code is the truth. When the stored row knows the
    /// code hash and path, all three hashes become the hash of the code file
    /// as read now (`code_content`, normalized), or the stored code hash when
    /// the file could not be read; otherwise S.DEF and DB hashes become the
    /// S.DEF hash, else the DB hash, else `consistent`, with no code hash or
    /// path. Either way the row is marked consistent at `now`.
    pub fn sync_code_to_sdef(
        &self,
        inconsistency: &Inconsistency,
        stored: &Fingerprint,
        code_content: Option<&str>,
        now: &str,
    ) -> (fp: Fingerprint)
        ensures
            fp.last_checked_at@ == Seq::<char>::empty(),
            fp.last_consistent_at matches Some(t) && t@ == now@,
            match (stored.code_hash, stored.code_path) {
                (Some(ch), Some(cp)) => {
                    let h = match code_content {
                        Some(c) => sha256_hex_digest(normalized_code(c@)),
                        None => ch@,
                    };
                    &&& fp.entity_uri == stored.entity_uri
                    &&& fp.document_name == stored.document_name
                    &&& fp.entity_type == stored.entity_type
                    &&& fp.sdef_hash matches Some(x) && x@ == h
                    &&& fp.db_hash matches Some(x) && x@ == h
                    &&& fp.code_hash matches Some(x) && x@ == h
                    &&& fp.code_path == Some(cp)
                },
                _ => {
                    let h = match (inconsistency.sdef_hash, inconsistency.db_hash) {
                        (Some(x), _) => x@,
                        (None, Some(y)) => y@,
                        (None, None) => "consistent"@,
                    };
                    &&& fp.entity_uri == inconsistency.entity_uri
                    &&& fp.document_name@ == document_name_of(inconsistency.entity_uri@)
                    &&& fp.entity_type@ == Seq::<char>::empty()
                    &&& fp.sdef_hash matches Some(x) && x@ == h
                    &&& fp.db_hash matches Some(x) && x@ == h
                    &&& fp.code_hash is None
                    &&& fp.code_path is None
                },
            },
    {
        match (&stored.code_hash, &stored.code_path) {
            (Some(ch), Some(cp)) => {
                let actual = match code_content {
                    Some(c) => Self::code_hash(c),
                    None => ch.clone(),
                };
                Fingerprint {
                    entity_uri: stored.entity_uri.clone(),
                    document_name: stored.document_name.clone(),
                    entity_type: stored.entity_type.clone(),
                    sdef_hash: Some(actual.clone()),
                    db_hash: Some(actual.clone()),
                    code_hash: Some(actual),
                    code_path: Some(cp.clone()),
                    last_checked_at: String::new(),
                    last_consistent_at: Some(now.to_owned()),
                }
            },
            _ => {
                let hash = match (&inconsistency.sdef_hash, &inconsistency.db_hash) {
                    (Some(x), _) => x.clone(),
                    (None, Some(y)) => y.clone(),
                    (None, None) => "consistent".to_owned(),
                };
                Fingerprint {
                    entity_uri: inconsistency.entity_uri.clone(),
                    document_name: extract_document_name(inconsistency.entity_uri.as_str()),
                    entity_type: String::new(),
                    sdef_hash: Some(hash.clone()),
                    db_hash: Some(hash),
                    code_hash: None,
                    code_path: None,
                    last_checked_at: String::new(),
                    last_consistent_at: Some(now.to_owned()),
                }
            },
        }
    }

    /// The row written when the database is the truth. With the exported
    /// S.DEF text, S.DEF and DB hashes become the DB hash, or the hash of
    /// that text when the DB hash is unknown; when the export failed, the
    /// inconsistency's hashes stay. Either way the code hash stays, there is
    /// no code path, and the row is marked consistent at `now`.
    pub fn sync_db_to_sdef(&self, inconsistency: &Inconsistency, exported: Option<&str>, now: &str) -> (fp: Fingerprint)
        ensures
            fp.entity_uri == inconsistency.entity_uri,
            fp.document_name@ == document_name_of(inconsistency.entity_uri@),
            fp.entity_type@ == Seq::<char>::empty(),
            fp.code_hash == inconsistency.code_hash,
            fp.code_path is None,
            fp.last_checked_at@ == Seq::<char>::empty(),
            fp.last_consistent_at matches Some(t) && t@ == now@,
            match exported {
                Some(json) => {
                    let h = match inconsistency.db_hash {
                        Some(d) => d@,
                        None => sha256_hex_digest(json@),
                    };
                    &&& fp.sdef_hash matches Some(x) && x@ == h
                    &&& fp.db_hash matches Some(x) && x@ == h
                },
                None => {
                    &&& fp.sdef_hash == inconsistency.sdef_hash
                    &&& fp.db_hash == inconsistency.db_hash
                },
            },
    {
        let (sdef_hash, db_hash) = match exported {
            Some(json) => {
                let h = match &inconsistency.db_hash {
                    Some(d) => d.clone(),
                    None => Self::compute_hash(json),
                };
                (Some(h.clone()), Some(h))
            },
            None => (clone_opt(&inconsistency.sdef_hash), clone_opt(&inconsistency.db_hash)),
        };
        Fingerprint {
            entity_uri: inconsistency.entity_uri.clone(),
            document_name: extract_document_name(inconsistency.entity_uri.as_str()),
            entity_type: String::new(),
            sdef_hash,
            db_hash,
            code_hash: clone_opt(&inconsistency.code_hash),
            code_path: None,
            last_checked_at: String::new(),
            last_consistent_at: Some(now.to_owned()),
        }
    }

    /// The row written when S.DEF is the truth: S.DEF and DB hashes become
    /// the hash of the S.DEF file's content, the code hash stays, there is no
    /// code path, and the row is marked consistent at `now`.
    pub fn sync_sdef_to_db(&self, inconsistency: &Inconsistency, sdef_content: &str, now: &str) -> (fp: Fingerprint)
        ensures
            fp.entity_uri == inconsistency.entity_uri,
            fp.document_name@ == document_name_of(inconsistency.entity_uri@),
            fp.entity_type@ == Seq::<char>::empty(),
            fp.sdef_hash matches Some(x) && x@ == sha256_hex_digest(sdef_content@),
            fp.db_hash matches Some(x) && x@ == sha256_hex_digest(sdef_content@),
            fp.code_hash == inconsistency.code_hash,
            fp.code_path is None,
            fp.last_checked_at@ == Seq::<char>::empty(),
            fp.last_consistent_at matches Some(t) && t@ == now@,
    {
        let h = Self::compute_hash(sdef_content);
        Fingerprint {
            entity_uri: inconsistency.entity_uri.clone(),
            document_name: extract_document_name(inconsistency.entity_uri.as_str()),
            entity_type: String::new(),
            sdef_hash: Some(h.clone()),
            db_hash: Some(h),
            code_hash: clone_opt(&inconsistency.code_hash),
            code_path: None,
            last_checked_at: String::new(),
            last_consistent_at: Some(now.to_owned()),
        }
    }

    /// The outcome of making S.DEF the truth, given what reading the S.DEF
    /// file gave (its text, or the read error) and, when it was read,
    /// whether it parsed (the parse error, if any): a read error or a parse
    /// error is an error naming it; otherwise the row to write (see
    /// `sync_sdef_to_db`).
    pub fn sync_sdef_to_db_outcome(
        &self,
        inconsistency: &Inconsistency,
        read: Result<&str, &str>,
        parse_error: Option<&str>,
        now: &str,
    ) -> (r: Result<Fingerprint, String>)
        ensures
            match read {
                Err(e) => r matches Err(m) && m@ == "SyncSdefToDb: cannot read S.DEF file '"@ + sdef_file_path(
                    document_name_of(inconsistency.entity_uri@),
                ) + "': "@ + e@,
                Ok(content) => match parse_error {
                    Some(e) => r matches Err(m) && m@ == "SyncSdefToDb: failed to parse S.DEF file: "@ + e@,
                    None => r matches Ok(fp) && {
                        &&& fp.entity_uri == inconsistency.entity_uri
                        &&& fp.document_name@ == document_name_of(inconsistency.entity_uri@)
                        &&& fp.entity_type@ == Seq::<char>::empty()
                        &&& fp.sdef_hash matches Some(x) && x@ == sha256_hex_digest(content@)
                        &&& fp.db_hash matches Some(x) && x@ == sha256_hex_digest(content@)
                        &&& fp.code_hash == inconsistency.code_hash
                        &&& fp.code_path is None
                        &&& fp.last_checked_at@ == Seq::<char>::empty()
                        &&& fp.last_consistent_at matches Some(t) && t@ == now@
                    },
                },
            },
    {
        match read {
            Err(e) => {
                let doc = extract_document_name(inconsistency.entity_uri.as_str());
                let path = Self::sdef_path(doc.as_str());
                let mut m = "SyncSdefToDb: cannot read S.DEF file '".to_owned();
                crate::text::push_str(&mut m, path.as_str());
                crate::text::push_str(&mut m, "': ");
                crate::text::push_str(&mut m, e);
                Err(m)
            },
            Ok(content) => match parse_error {
                Some(e) => {
                    let mut m = "SyncSdefToDb: failed to parse S.DEF file: ".to_owned();
                    crate::text::push_str(&mut m, e);
                    Err(m)
                },
                None => Ok(self.sync_sdef_to_db(inconsistency, content, now)),
            },
        }
    }

    /// The code generation task that regenerating an entity's code calls
    /// for: a new pending `GENERATE_CODE` task (fresh 36-character id,
    /// created at `now`) of priority 5, no retries yet out of 3, no
    /// dependencies, version 1, whose input names the entity and its
    /// document.
    pub fn regenerate_code_task(&self, inconsistency: &Inconsistency, now: &str) -> (t: RegenerationTask)
        ensures
            t.task_id@.len() == 36,
            t.task_type@ == "GENERATE_CODE"@,
            t.status == TaskState::Pending,
            t.priority == 5,
            t.retry_count == 0,
            t.max_retries == 3,
            t.dependencies_json@ == "[]"@,
            t.version == 1,
            t.created_at@ == now@,
            t.input == json_object_value(
                seq![
                    ("entity_uri"@, json_string_value(inconsistency.entity_uri@)),
                    ("document"@, json_string_value(document_name_of(inconsistency.entity_uri@))),
                ],
            ),
    {
        let doc = extract_document_name(inconsistency.entity_uri.as_str());
        let mut members: Vec<(String, Value)> = Vec::new();
        members.push(("entity_uri".to_owned(), json_string(inconsistency.entity_uri.as_str())));
        members.push(("document".to_owned(), json_string(doc.as_str())));
        proof {
            assert(member_views(members@) =~= seq![
                ("entity_uri"@, json_string_value(inconsistency.entity_uri@)),
                ("document"@, json_string_value(document_name_of(inconsistency.entity_uri@))),
            ]);
        }
        RegenerationTask {
            task_id: new_uuid_string(),
            task_type: "GENERATE_CODE".to_owned(),
            status: TaskState::Pending,
            priority: 5,
            retry_count: 0,
            max_retries: 3,
            input: json_object(members),
            dependencies_json: "[]".to_owned(),
            version: 1,
            created_at: now.to_owned(),
        }
    }

    /// The row written when external changes are accepted: the stored row
    /// marked consistent at `now`, or, with no stored row, a row made of the
    /// inconsistency's hashes, marked the same way.
    pub fn accept_external(&self, inconsistency: &Inconsistency, stored: Option<Fingerprint>, now: &str) -> (fp: Fingerprint)
        ensures
            fp.last_checked_at@ == Seq::<char>::empty(),
            fp.last_consistent_at matches Some(t) && t@ == now@,
            match stored {
                Some(s) => {
                    &&& fp.entity_uri == s.entity_uri
                    &&& fp.document_name == s.document_name
                    &&& fp.entity_type == s.entity_type
                    &&& fp.sdef_hash == s.sdef_hash
                    &&& fp.db_hash == s.db_hash
                    &&& fp.code_hash == s.code_hash
                    &&& fp.code_path == s.code_path
                },
                None => {
                    &&& fp.entity_uri == inconsistency.entity_uri
                    &&& fp.document_name@ == document_name_of(inconsistency.entity_uri@)
                    &&& fp.entity_type@ == Seq::<char>::empty()
                    &&& fp.sdef_hash == inconsistency.sdef_hash
                    &&& fp.db_hash == inconsistency.db_hash
                    &&& fp.code_hash == inconsistency.code_hash
                    &&& fp.code_path is None
                },
            },
    {
        match stored {
            Some(s) => Fingerprint {
                last_consistent_at: Some(now.to_owned()),
                last_checked_at: String::new(),
                ..s
            },
            None => Fingerprint {
                entity_uri: inconsistency.entity_uri.clone(),
                document_name: extract_document_name(inconsistency.entity_uri.as_str()),
                entity_type: String::new(),
                sdef_hash: clone_opt(&inconsistency.sdef_hash),
                db_hash: clone_opt(&inconsistency.db_hash),
                code_hash: clone_opt(&inconsistency.code_hash),
                code_path: None,
                last_checked_at: String::new(),
                last_consistent_at: Some(now.to_owned()),
            },
        }
    }
}

} // verus!
