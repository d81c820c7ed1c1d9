//! Review of generated code against its S.DEF specification: whether a data
//! model's fields are all present, whether the modules of a cross-file check
//! exist, and whether an entity's S.DEF and database fingerprints agree.
//!
//! Reading the specification, the files and the fingerprints is the
//! caller's; the reports are built here from what was read.

use vstd::prelude::*;
use crate::text::{byte_len, chars_of, contains, push_str, slice_chars, string_of, string_views};
use crate::module_partitioner::{joined_path, path_join};
use crate::prompt::response_parser::{json_accepts, json_str_field, json_str_under, json_value_of, parse_json};

verus! {

/// A UUID v4 rendered in its hyphenated form (uuid `Uuid::new_v4`). The
/// value is random; only its length is stated.
#[verifier::external_body]
pub(crate) fn new_uuid_string() -> (s: String)
    ensures
        s@.len() == 36,
{
    uuid::Uuid::new_v4().to_string()
}

/// Configuration of the validating agent.
#[derive(Debug, Clone, Copy)]
pub struct ReviewerConfig {
    /// Whether to suggest fixes for the issues found.
    pub auto_fix: bool,
    /// Maximum number of review attempts before escalation.
    pub max_attempts: u32,
}

impl Default for ReviewerConfig {
    fn default() -> (c: Self)
        ensures
            c.auto_fix,
            c.max_attempts == 3,
    {
        ReviewerConfig { auto_fix: true, max_attempts: 3 }
    }
}

/// Result of a review.
#[derive(Debug, Clone)]
pub struct ReviewReport {
    /// Whether the reviewed item passed.
    pub approved: bool,
    /// Issues found.
    pub issues: Vec<String>,
    /// Suggested fixes.
    pub suggested_fixes: Vec<String>,
    /// Number of files checked.
    pub files_checked: usize,
    /// Number of entities checked.
    pub entities_checked: usize,
}

impl ReviewReport {
    /// A passing report.
    pub fn pass(files_checked: usize, entities_checked: usize) -> (r: Self)
        ensures
            r.approved,
            r.issues@.len() == 0,
            r.suggested_fixes@.len() == 0,
            r.files_checked == files_checked,
            r.entities_checked == entities_checked,
    {
        ReviewReport { approved: true, issues: Vec::new(), suggested_fixes: Vec::new(), files_checked, entities_checked }
    }

    /// A failing report with its issues and suggested fixes.
    pub fn fail(issues: Vec<String>, suggested_fixes: Vec<String>, files_checked: usize, entities_checked: usize) -> (r: Self)
        ensures
            !r.approved,
            r.issues == issues,
            r.suggested_fixes == suggested_fixes,
            r.files_checked == files_checked,
            r.entities_checked == entities_checked,
    {
        ReviewReport { approved: false, issues, suggested_fixes, files_checked, entities_checked }
    }
}

/// An attribute of a data model, as specified.
#[derive(Debug, Clone)]
pub struct AttributeSpec {
    pub name: String,
    pub attr_type: String,
    pub description: Option<String>,
    pub required: bool,
    pub identity: bool,
}

/// The agent that validates generated code against S.DEF specs.
#[derive(Debug, Clone)]
pub struct ReviewerAgent {
    config: ReviewerConfig,
    agent_id: String,
    output_path: String,
}

/// "Missing field" issue for an attribute.
pub open spec fn missing_field_issue(a: AttributeSpec, entity: Seq<char>) -> Seq<char> {
    "Missing field '"@ + a.name@ + "' (type: "@ + a.attr_type@ + ") in generated code for entity '"@ + entity + "'"@
}

/// Fix suggested for a missing attribute.
pub open spec fn missing_field_fix(a: AttributeSpec, entity: Seq<char>) -> Seq<char> {
    "Add field '"@ + a.name@ + "': "@ + a.attr_type@ + " to entity '"@ + entity + "'"@
}

/// The attributes whose names do not occur in the code.
pub open spec fn missing_attributes(attrs: Seq<AttributeSpec>, code: Seq<char>) -> Seq<AttributeSpec> {
    attrs.filter(|a: AttributeSpec| !crate::text::contains_seq(code, a.name@))
}

/// First `n` bytes of a hash for display (the whole hash when shorter).
pub open spec fn short_hash(h: Seq<char>, k: nat) -> Seq<char> {
    h.take(k as int)
}

/// A prefix of `h` of at most 8 bytes ends on a character boundary exactly
/// at 8 bytes, or `h` is no longer than 8 bytes.
pub open spec fn hash_prefix_len(h: Seq<char>, k: nat) -> bool {
    k <= h.len() && byte_len(h.take(k as int)) == if byte_len(h) < 8 { byte_len(h) } else { 8 }
}

/// What the fingerprint lookup of a roundtrip check returned.
#[derive(Debug, Clone)]
pub enum FingerprintLookup {
    /// The row: S.DEF, database and code hashes.
    Found(Option<String>, Option<String>, Option<String>),
    /// No fingerprint row for the entity.
    NoRow,
    /// The lookup failed with this error.
    Failed(String),
}

impl ReviewerAgent {
    /// A new validating agent with a fresh random id `validator-<uuid>`.
    pub fn new(config: ReviewerConfig, output_path: &str) -> (r: Self)
        ensures
            r.suggests_fixes() == config.auto_fix,
            r.id_text().len() == 46,
            r.id_text().take(10) == "validator-"@,
            r.output_dir() == output_path@,
    {
        let mut agent_id = "validator-".to_owned();
        let id = new_uuid_string();
        push_str(&mut agent_id, id.as_str());
        proof {
            reveal_strlit("validator-");
            assert(agent_id@.take(10) =~= "validator-"@);
        }
        ReviewerAgent { config, agent_id, output_path: output_path.to_owned() }
    }

    /// The agent's id, in specifications.
    pub closed spec fn id_text(&self) -> Seq<char> {
        self.agent_id@
    }

    /// The string field `key` of a task's JSON input, or `unknown` when the
    /// input does not parse or holds no string there.
    pub fn task_field(input_json: &str, key: &str) -> (r: String)
        ensures
            r@ == (if json_accepts(input_json@) {
                match json_str_under(json_value_of(input_json@), key@) {
                    Some(t) => t,
                    None => "unknown"@,
                }
            } else {
                "unknown"@
            }),
    {
        match parse_json(input_json) {
            Some(v) => match json_str_field(&v, key) {
                Some(t) => t,
                None => "unknown".to_owned(),
            },
            None => "unknown".to_owned(),
        }
    }

    /// The directory generated files are read from.
    pub closed spec fn output_dir(&self) -> Seq<char> {
        self.output_path@
    }

    /// Where a generated file is read from: the task's code path (the
    /// output directory itself when the task names none) joined to the
    /// output directory.
    pub fn generated_file_path(&self, code_path: Option<&str>) -> (p: String)
        ensures
            p@ == joined_path(
                self.output_dir(),
                match code_path {
                    Some(c) => c@,
                    None => self.output_dir(),
                },
            ),
    {
        match code_path {
            Some(c) => path_join(self.output_path.as_str(), c),
            None => path_join(self.output_path.as_str(), self.output_path.as_str()),
        }
    }

    /// Where a module's file is looked for: the module joined to the output
    /// directory.
    pub fn module_file_path(&self, module: &str) -> (p: String)
        ensures
            p@ == joined_path(self.output_dir(), module@),
    {
        path_join(self.output_path.as_str(), module)
    }

    /// Whether fixes are suggested for the issues found.
    pub closed spec fn suggests_fixes(&self) -> bool {
        self.config.auto_fix
    }

    /// The agent's id.
    pub fn agent_id(&self) -> (r: &str)
        ensures
            r@ == self.id_text(),
    {
        self.agent_id.as_str()
    }

    /// The report when the data model is not in the database.
    pub fn data_model_not_found(entity: &str) -> (r: ReviewReport)
        ensures
            !r.approved,
            string_views(r.issues@) == seq!["Data model '"@ + entity@ + "' not found in database"@],
            r.suggested_fixes@.len() == 0,
            r.files_checked == 0,
            r.entities_checked == 0,
    {
        let mut msg = "Data model '".to_owned();
        push_str(&mut msg, entity);
        push_str(&mut msg, "' not found in database");
        let mut issues: Vec<String> = Vec::new();
        issues.push(msg);
        proof {
            assert(string_views(issues@) =~= seq![msg@]);
        }
        ReviewReport::fail(issues, Vec::new(), 0, 0)
    }

    /// The report when the generated file cannot be read (`error` is the
    /// read error's text).
    pub fn generated_file_missing(entity: &str, full_path: &str, error: &str) -> (r: ReviewReport)
        ensures
            !r.approved,
            string_views(r.issues@) == seq!["Generated file not found: "@ + full_path@ + " ("@ + error@ + ")"@],
            string_views(r.suggested_fixes@) == seq!["Re-generate code for entity '"@ + entity@ + "'"@],
            r.files_checked == 0,
            r.entities_checked == 1,
    {
        let mut msg = "Generated file not found: ".to_owned();
        push_str(&mut msg, full_path);
        push_str(&mut msg, " (");
        push_str(&mut msg, error);
        push_str(&mut msg, ")");
        let mut fix = "Re-generate code for entity '".to_owned();
        push_str(&mut fix, entity);
        push_str(&mut fix, "'");
        let mut issues: Vec<String> = Vec::new();
        issues.push(msg);
        let mut fixes: Vec<String> = Vec::new();
        fixes.push(fix);
        proof {
            assert(string_views(issues@) =~= seq![msg@]);
            assert(string_views(fixes@) =~= seq![fix@]);
        }
        ReviewReport::fail(issues, fixes, 0, 1)
    }

    /// Checks that every specified field of the entity occurs in the
    /// generated code: each attribute whose name is missing is an issue
    /// (with a suggested fix when auto-fix is on); one file and one entity
    /// are checked.
    pub fn check_data_model(&self, entity: &str, attributes: &Vec<AttributeSpec>, code: &str) -> (r: ReviewReport)
        ensures
            ({
                let missing = missing_attributes(attributes@, code@);
                &&& r.approved == (missing.len() == 0)
                &&& string_views(r.issues@) == missing.map_values(|a: AttributeSpec| missing_field_issue(a, entity@))
                &&& string_views(r.suggested_fixes@) == if self.suggests_fixes() {
                    missing.map_values(|a: AttributeSpec| missing_field_fix(a, entity@))
                } else {
                    Seq::<Seq<char>>::empty()
                }
                &&& r.files_checked == 1
                &&& r.entities_checked == 1
            }),
    {
        let ghost pred = |a: AttributeSpec| !crate::text::contains_seq(code@, a.name@);
        let code_chars = chars_of(code);
        let mut issues: Vec<String> = Vec::new();
        let mut fixes: Vec<String> = Vec::new();
        let mut i: usize = 0;
        while i < attributes.len()
            invariant
                i <= attributes@.len(),
                code_chars@ == code@,
                pred == (|a: AttributeSpec| !crate::text::contains_seq(code@, a.name@)),
                string_views(issues@) == attributes@.take(i as int).filter(pred).map_values(
                    |a: AttributeSpec| missing_field_issue(a, entity@),
                ),
                string_views(fixes@) == if self.config.auto_fix {
                    attributes@.take(i as int).filter(pred).map_values(|a: AttributeSpec| missing_field_fix(a, entity@))
                } else {
                    Seq::<Seq<char>>::empty()
                },
            decreases attributes@.len() - i,
        {
            let attr = &attributes[i];
            let name = chars_of(attr.name.as_str());
            proof {
                assert(attributes@.take(i + 1).drop_last() == attributes@.take(i as int));
                reveal_with_fuel(Seq::filter, 1);
            }
            let ghost f_before = attributes@.take(i as int).filter(pred);
            if !contains(code_chars.as_slice(), name.as_slice()) {
                let mut msg = "Missing field '".to_owned();
                push_str(&mut msg, attr.name.as_str());
                push_str(&mut msg, "' (type: ");
                push_str(&mut msg, attr.attr_type.as_str());
                push_str(&mut msg, ") in generated code for entity '");
                push_str(&mut msg, entity);
                push_str(&mut msg, "'");
                let ghost ib = issues@;
                issues.push(msg);
                proof {
                    let f_after = attributes@.take(i + 1).filter(pred);
                    assert(f_after == f_before.push(attributes@[i as int]));
                    assert(string_views(issues@) =~= string_views(ib).push(msg@));
                    assert(f_after.map_values(|a: AttributeSpec| missing_field_issue(a, entity@)) =~= f_before.map_values(
                        |a: AttributeSpec| missing_field_issue(a, entity@),
                    ).push(missing_field_issue(attributes@[i as int], entity@)));
                }
                if self.config.auto_fix {
                    let mut fix = "Add field '".to_owned();
                    push_str(&mut fix, attr.name.as_str());
                    push_str(&mut fix, "': ");
                    push_str(&mut fix, attr.attr_type.as_str());
                    push_str(&mut fix, " to entity '");
                    push_str(&mut fix, entity);
                    push_str(&mut fix, "'");
                    let ghost fb = fixes@;
                    fixes.push(fix);
                    proof {
                        let f_after = attributes@.take(i + 1).filter(pred);
                        assert(string_views(fixes@) =~= string_views(fb).push(fix@));
                        assert(f_after.map_values(|a: AttributeSpec| missing_field_fix(a, entity@)) =~= f_before.map_values(
                            |a: AttributeSpec| missing_field_fix(a, entity@),
                        ).push(missing_field_fix(attributes@[i as int], entity@)));
                    }
                }
            }
            i += 1;
        }
        proof {
            assert(attributes@.take(attributes@.len() as int) == attributes@);
        }
        if issues.len() == 0 {
            ReviewReport::pass(1, 1)
        } else {
            ReviewReport::fail(issues, fixes, 1, 1)
        }
    }

    /// The roundtrip check of an entity from its fingerprint lookup: with
    /// both S.DEF and database hashes known, they must agree (the issue
    /// quotes their first 8 bytes); an incomplete row, a missing row or a
    /// failed lookup is an issue. One entity is checked.
    pub fn roundtrip_report(entity_uri: &str, document_name: &str, lookup: &FingerprintLookup) -> (r: ReviewReport)
        requires
            lookup matches FingerprintLookup::Found(Some(s), Some(d), _) ==> (s@ != d@ ==> (
                exists|k: nat| hash_prefix_len(s@, k)) && (exists|k: nat| hash_prefix_len(d@, k))),
        ensures
            r.files_checked == 0,
            r.entities_checked == 1,
            match *lookup {
                FingerprintLookup::Found(Some(s), Some(d), _) => if s@ == d@ {
                    r.approved && r.issues@.len() == 0 && r.suggested_fixes@.len() == 0
                } else {
                    &&& !r.approved
                    &&& string_views(r.issues@) == seq![
                        "S.DEF hash ("@ + short_hash(s@, choose|k: nat| hash_prefix_len(s@, k)) + ") does not match DB hash ("@
                            + short_hash(d@, choose|k: nat| hash_prefix_len(d@, k)) + ") for "@ + entity_uri@,
                    ]
                    &&& string_views(r.suggested_fixes@) == seq!["Re-sync S.DEF and database for '"@ + entity_uri@ + "'"@]
                },
                FingerprintLookup::Found(_, _, _) => {
                    &&& !r.approved
                    &&& string_views(r.issues@) == seq![
                        "Incomplete fingerprint for entity '"@ + entity_uri@ + "' in document '"@ + document_name@ + "'"@,
                    ]
                    &&& r.suggested_fixes@.len() == 0
                },
                FingerprintLookup::NoRow => {
                    &&& !r.approved
                    &&& string_views(r.issues@) == seq![
                        "No fingerprint found for entity '"@ + entity_uri@ + "' in document '"@ + document_name@ + "'"@,
                    ]
                    &&& r.suggested_fixes@.len() == 0
                },
                FingerprintLookup::Failed(e) => {
                    &&& !r.approved
                    &&& string_views(r.issues@) == seq!["Fingerprint lookup failed: "@ + e@]
                    &&& r.suggested_fixes@.len() == 0
                },
            },
    {
        let mut issues: Vec<String> = Vec::new();
        let mut fixes: Vec<String> = Vec::new();
        match lookup {
            FingerprintLookup::Found(Some(s), Some(d), _) => {
                if !crate::text::str_eq(s.as_str(), d.as_str()) {
                    let mut msg = "S.DEF hash (".to_owned();
                    let sp = hash_prefix(s.as_str());
                    push_str(&mut msg, sp.as_str());
                    push_str(&mut msg, ") does not match DB hash (");
                    let dp = hash_prefix(d.as_str());
                    push_str(&mut msg, dp.as_str());
                    push_str(&mut msg, ") for ");
                    push_str(&mut msg, entity_uri);
                    issues.push(msg);
                    let mut fix = "Re-sync S.DEF and database for '".to_owned();
                    push_str(&mut fix, entity_uri);
                    push_str(&mut fix, "'");
                    fixes.push(fix);
                    proof {
                        assert(string_views(issues@) =~= seq![msg@]);
                        assert(string_views(fixes@) =~= seq![fix@]);
                    }
                }
            },
            FingerprintLookup::Found(_, _, _) => {
                let mut msg = "Incomplete fingerprint for entity '".to_owned();
                push_str(&mut msg, entity_uri);
                push_str(&mut msg, "' in document '");
                push_str(&mut msg, document_name);
                push_str(&mut msg, "'");
                issues.push(msg);
                proof {
                    assert(string_views(issues@) =~= seq![msg@]);
                }
            },
            FingerprintLookup::NoRow => {
                let mut msg = "No fingerprint found for entity '".to_owned();
                push_str(&mut msg, entity_uri);
                push_str(&mut msg, "' in document '");
                push_str(&mut msg, document_name);
                push_str(&mut msg, "'");
                issues.push(msg);
                proof {
                    assert(string_views(issues@) =~= seq![msg@]);
                }
            },
            FingerprintLookup::Failed(e) => {
                let mut msg = "Fingerprint lookup failed: ".to_owned();
                push_str(&mut msg, e.as_str());
                issues.push(msg);
                proof {
                    assert(string_views(issues@) =~= seq![msg@]);
                }
            },
        }
        if issues.len() == 0 {
            ReviewReport::pass(0, 1)
        } else {
            ReviewReport::fail(issues, fixes, 0, 1)
        }
    }

    /// The cross-file check: each module whose file is absent (per
    /// `present`, read from the output directory) is an issue with a
    /// suggested fix; each present one counts as one file and one entity
    /// checked.
    pub fn cross_file_report(modules: &Vec<String>, module_paths: &Vec<String>, present: &Vec<bool>) -> (r: ReviewReport)
        requires
            module_paths@.len() == modules@.len(),
            present@.len() == modules@.len(),
        ensures
            r.approved == (forall|i: int| 0 <= i < present@.len() ==> present@[i]),
            string_views(r.issues@) == absent_issues(module_paths@, present@),
            string_views(r.suggested_fixes@) == absent_fixes(modules@, present@),
            r.files_checked == present_count(present@),
            r.entities_checked == present_count(present@),
    {
        let mut issues: Vec<String> = Vec::new();
        let mut fixes: Vec<String> = Vec::new();
        let mut checked: usize = 0;
        let mut i: usize = 0;
        while i < modules.len()
            invariant
                i <= modules@.len(),
                module_paths@.len() == modules@.len(),
                present@.len() == modules@.len(),
                string_views(issues@) == absent_issues(module_paths@.take(i as int), present@.take(i as int)),
                string_views(fixes@) == absent_fixes(modules@.take(i as int), present@.take(i as int)),
                checked == present_count(present@.take(i as int)),
                checked <= i,
                fixes@.len() == issues@.len(),
                issues@.len() == 0 <==> (forall|k: int| 0 <= k < i ==> present@[k]),
            decreases modules@.len() - i,
        {
            proof {
                assert(modules@.take(i + 1).drop_last() == modules@.take(i as int));
                assert(module_paths@.take(i + 1).drop_last() == module_paths@.take(i as int));
                assert(present@.take(i + 1).drop_last() == present@.take(i as int));
            }
            if !present[i] {
                let mut msg = "Module file not found: ".to_owned();
                push_str(&mut msg, module_paths[i].as_str());
                let mut fix = "Generate module file: ".to_owned();
                push_str(&mut fix, modules[i].as_str());
                let ghost ib = issues@;
                let ghost fb = fixes@;
                issues.push(msg);
                fixes.push(fix);
                proof {
                    assert(string_views(issues@) =~= string_views(ib).push(msg@));
                    assert(string_views(fixes@) =~= string_views(fb).push(fix@));
                }
            } else {
                checked = checked + 1;
            }
            i += 1;
        }
        proof {
            assert(modules@.take(modules@.len() as int) == modules@);
            assert(module_paths@.take(modules@.len() as int) == module_paths@);
            assert(present@.take(modules@.len() as int) == present@);
        }
        if issues.len() == 0 {
            ReviewReport::pass(checked, checked)
        } else {
            ReviewReport::fail(issues, fixes, checked, checked)
        }
    }
}

/// "Module file not found" issues for the absent modules, in order.
pub open spec fn absent_issues(paths: Seq<String>, present: Seq<bool>) -> Seq<Seq<char>>
    decreases present.len(),
{
    if present.len() == 0 || paths.len() != present.len() {
        Seq::empty()
    } else if present.last() {
        absent_issues(paths.drop_last(), present.drop_last())
    } else {
        absent_issues(paths.drop_last(), present.drop_last()).push("Module file not found: "@ + paths.last()@)
    }
}

/// "Generate module file" fixes for the absent modules, in order.
pub open spec fn absent_fixes(modules: Seq<String>, present: Seq<bool>) -> Seq<Seq<char>>
    decreases present.len(),
{
    if present.len() == 0 || modules.len() != present.len() {
        Seq::empty()
    } else if present.last() {
        absent_fixes(modules.drop_last(), present.drop_last())
    } else {
        absent_fixes(modules.drop_last(), present.drop_last()).push("Generate module file: "@ + modules.last()@)
    }
}

/// How many modules are present.
pub open spec fn present_count(present: Seq<bool>) -> nat
    decreases present.len(),
{
    if present.len() == 0 {
        0
    } else {
        present_count(present.drop_last()) + if present.last() { 1nat } else { 0nat }
    }
}

/// The first 8 bytes of a hash (all of it when shorter).
fn hash_prefix(h: &str) -> (r: String)
    requires
        exists|k: nat| hash_prefix_len(h@, k),
    ensures
        r@ == short_hash(h@, choose|k: nat| hash_prefix_len(h@, k)),
{
    let chars = chars_of(h);
    let ghost k = choose|k: nat| hash_prefix_len(h@, k);
    let mut i: usize = 0;
    let mut bytes: usize = 0;
    while i < chars.len() && bytes < 8
        invariant
            chars@ == h@,
            i <= chars@.len(),
            bytes == byte_len(h@.take(i as int)),
            i <= k,
            hash_prefix_len(h@, k),
        decreases chars@.len() - i,
    {
        proof {
            assert(h@.take(i + 1).drop_last() == h@.take(i as int));
            lemma_prefix_bytes_grow(h@, i as int, k as int);
        }
        bytes = bytes + crate::text::char_width(chars[i]);
        i += 1;
    }
    proof {
        lemma_prefix_bytes_eq(h@, i as int, k as int);
    }
    let p = slice_chars(chars.as_slice(), 0, i);
    string_of(p.as_slice())
}

proof fn lemma_prefix_bytes_mono(s: Seq<char>, a: int, b: int)
    requires
        0 <= a <= b <= s.len(),
    ensures
        byte_len(s.take(a)) <= byte_len(s.take(b)),
        a < b ==> byte_len(s.take(a)) < byte_len(s.take(b)),
    decreases b - a,
{
    if a < b {
        lemma_prefix_bytes_mono(s, a, b - 1);
        assert(s.take(b).drop_last() == s.take(b - 1));
    }
}

proof fn lemma_prefix_bytes_grow(s: Seq<char>, i: int, k: int)
    requires
        0 <= i < s.len(),
        0 <= k <= s.len(),
        byte_len(s.take(i)) < 8,
        byte_len(s.take(k)) == if byte_len(s) < 8 { byte_len(s) } else { 8 },
    ensures
        i < k,
{
    if k <= i {
        lemma_prefix_bytes_mono(s, k, i);
        lemma_prefix_bytes_mono(s, i, s.len() as int);
        assert(s.take(s.len() as int) == s);
    }
}

proof fn lemma_prefix_bytes_eq(s: Seq<char>, i: int, k: int)
    requires
        0 <= i <= s.len(),
        0 <= k <= s.len(),
        i <= k,
        byte_len(s.take(k)) == if byte_len(s) < 8 { byte_len(s) } else { 8 },
        i == s.len() || byte_len(s.take(i)) >= 8,
    ensures
        i == k,
{
    if i < k {
        lemma_prefix_bytes_mono(s, i, k);
        if i == s.len() {
        } else {
            assert(byte_len(s.take(i)) < byte_len(s.take(k)));
        }
    }
}

} // verus!
