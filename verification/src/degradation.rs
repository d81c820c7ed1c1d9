//! Graceful degradation: when a component is unavailable the system keeps
//! the operations that do not depend on it.
//!
//! Modes are ordered by severity (`Normal` < `NoLsp` < `NoLLm` < `ReadOnly`
//! < `Emergency`); a more severe mode never permits an operation that a less
//! severe one forbids.

use vstd::prelude::*;
use crate::text::str_eq;

verus! {

/// Which languages have no LSP server available. Two options are equal
/// when they name the same set of languages, in any order, and agree on
/// the fallback.
#[derive(Debug, Clone, Eq)]
pub struct LanguageOption {
    /// The affected languages; each occurs once.
    pub languages: Vec<String>,
    /// Whether tree-sitter analysis may stand in for these languages.
    pub fallback_to_tree_sitter: bool,
}

/// Current operating mode for graceful degradation.
#[derive(Debug, Clone, PartialEq, Eq)]
pub enum DegradationMode {
    /// All systems available.
    Normal,
    /// LSP server unavailable for specific languages.
    NoLsp(LanguageOption),
    /// LLM provider unavailable; read operations still work.
    NoLLm,
    /// Database is read-only: only queries and consistency checks.
    ReadOnly,
    /// Critical failure: nothing is permitted.
    Emergency,
}

/// An operation whose availability depends on the mode.
#[derive(Debug, Clone, Copy, PartialEq, Eq, Hash)]
#[non_exhaustive]
pub enum Operation {
    Query,
    ImportExport,
    ConsistencyCheck,
    LspAnalysis,
    LlmGeneration,
    Write,
}

impl LanguageOption {
    /// The affected languages as character sequences.
    pub open spec fn language_views(self) -> Seq<Seq<char>> {
        names(self.languages@)
    }

    /// The affected languages as a set.
    pub open spec fn language_set(self) -> Set<Seq<char>> {
        self.language_views().to_set()
    }
}

/// The views of some names.
pub open spec fn names(v: Seq<String>) -> Seq<Seq<char>> {
    v.map_values(|s: String| s@)
}

/// Whether every name of `a` is among `b`.
fn all_among(a: &Vec<String>, b: &Vec<String>) -> (r: bool)
    ensures
        r == forall|k: int| 0 <= k < names(a@).len() ==> names(b@).contains(#[trigger] names(a@)[k]),
{
    let mut i: usize = 0;
    while i < a.len()
        invariant
            i <= a@.len(),
            forall|k: int| 0 <= k < i ==> names(b@).contains(#[trigger] names(a@)[k]),
        decreases a@.len() - i,
    {
        if !contains_name(b, a[i].as_str()) {
            assert(!names(b@).contains(names(a@)[i as int]));
            return false;
        }
        assert(names(b@).contains(names(a@)[i as int]));
        i = i + 1;
    }
    true
}

proof fn lemma_same_set(a: Seq<Seq<char>>, b: Seq<Seq<char>>)
    ensures
        (a.to_set() == b.to_set()) == ((forall|k: int| 0 <= k < a.len() ==> b.contains(#[trigger] a[k])) && (forall|
            k: int,
        |
            0 <= k < b.len() ==> a.contains(#[trigger] b[k]))),
{
    if (forall|k: int| 0 <= k < a.len() ==> b.contains(#[trigger] a[k])) && (forall|k: int|
        0 <= k < b.len() ==> a.contains(#[trigger] b[k])) {
        assert forall|x: Seq<char>| a.to_set().contains(x) == b.to_set().contains(x) by {
            if a.contains(x) {
                let k = choose|k: int| 0 <= k < a.len() && a[k] == x;
                assert(b.contains(a[k]));
            }
            if b.contains(x) {
                let k = choose|k: int| 0 <= k < b.len() && b[k] == x;
                assert(a.contains(b[k]));
            }
        }
        assert(a.to_set() =~= b.to_set());
    }
    if a.to_set() == b.to_set() {
        assert forall|k: int| 0 <= k < a.len() implies b.contains(#[trigger] a[k]) by {
            assert(a.to_set().contains(a[k]));
        }
        assert forall|k: int| 0 <= k < b.len() implies a.contains(#[trigger] b[k]) by {
            assert(b.to_set().contains(b[k]));
        }
    }
}

impl PartialEq for LanguageOption {
    fn eq(&self, other: &Self) -> (r: bool) {
        let same_fallback = self.fallback_to_tree_sitter == other.fallback_to_tree_sitter;
        let x = all_among(&self.languages, &other.languages);
        let y = all_among(&other.languages, &self.languages);
        proof {
            lemma_same_set(self.language_views(), other.language_views());
        }
        same_fallback && x && y
    }
}

impl vstd::std_specs::cmp::PartialEqSpecImpl for LanguageOption {
    open spec fn obeys_eq_spec() -> bool {
        true
    }

    open spec fn eq_spec(&self, other: &Self) -> bool {
        self.language_set() == other.language_set() && self.fallback_to_tree_sitter == other.fallback_to_tree_sitter
    }
}

/// Severity rank of a mode.
pub open spec fn severity(m: DegradationMode) -> nat {
    match m {
        DegradationMode::Normal => 0,
        DegradationMode::NoLsp(_) => 1,
        DegradationMode::NoLLm => 2,
        DegradationMode::ReadOnly => 3,
        DegradationMode::Emergency => 4,
    }
}

pub open spec fn spec_lsp_available(m: DegradationMode) -> bool {
    m is Normal
}

pub open spec fn spec_lsp_available_for(m: DegradationMode, language: Seq<char>) -> bool {
    match m {
        DegradationMode::Normal => true,
        DegradationMode::NoLsp(o) => !o.language_views().contains(language) || o.fallback_to_tree_sitter,
        _ => false,
    }
}

pub open spec fn spec_llm_available(m: DegradationMode) -> bool {
    m is Normal || m is NoLsp
}

pub open spec fn spec_writes_permitted(m: DegradationMode) -> bool {
    m is Normal || m is NoLsp || m is NoLLm
}

pub open spec fn spec_is_operational(m: DegradationMode) -> bool {
    !(m is Emergency)
}

pub open spec fn spec_allows(m: DegradationMode, op: Operation) -> bool {
    match op {
        Operation::Query => spec_is_operational(m),
        Operation::ImportExport => spec_is_operational(m),
        Operation::ConsistencyCheck => spec_is_operational(m),
        Operation::LspAnalysis => spec_lsp_available(m),
        Operation::LlmGeneration => spec_llm_available(m),
        Operation::Write => spec_writes_permitted(m),
    }
}

/// Appends `op` when `keep` holds.
pub open spec fn push_if(s: Seq<Operation>, op: Operation, keep: bool) -> Seq<Operation> {
    if keep { s.push(op) } else { s }
}

/// The permitted operations, in the order Query, ImportExport,
/// ConsistencyCheck, LspAnalysis, LlmGeneration, Write.
pub open spec fn spec_permitted_operations(m: DegradationMode) -> Seq<Operation> {
    let s0 = push_if(Seq::empty(), Operation::Query, spec_allows(m, Operation::Query));
    let s1 = push_if(s0, Operation::ImportExport, spec_allows(m, Operation::ImportExport));
    let s2 = push_if(s1, Operation::ConsistencyCheck, spec_allows(m, Operation::ConsistencyCheck));
    let s3 = push_if(s2, Operation::LspAnalysis, spec_allows(m, Operation::LspAnalysis));
    let s4 = push_if(s3, Operation::LlmGeneration, spec_allows(m, Operation::LlmGeneration));
    push_if(s4, Operation::Write, spec_allows(m, Operation::Write))
}

pub open spec fn spec_description(m: DegradationMode) -> Seq<char> {
    match m {
        DegradationMode::Normal => "All systems operational"@,
        DegradationMode::NoLsp(_) => "LSP server degraded — using tree-sitter fallback"@,
        DegradationMode::NoLLm => "LLM unavailable — read-only mode"@,
        DegradationMode::ReadOnly => "Database is read-only — check disk space"@,
        DegradationMode::Emergency => "Critical failure — safe shutdown required"@,
    }
}

/// The languages of a `NoLsp` constructor: the given names, each once,
/// in order of first occurrence.
pub open spec fn distinct_views(s: Seq<Seq<char>>) -> Seq<Seq<char>>
    decreases s.len(),
{
    if s.len() == 0 {
        Seq::empty()
    } else {
        let rest = distinct_views(s.drop_last());
        if rest.contains(s.last()) { rest } else { rest.push(s.last()) }
    }
}

impl Default for DegradationMode {
    fn default() -> (m: Self)
        ensures
            m is Normal,
    {
        DegradationMode::Normal
    }
}

/// Whether `name` is among `names`.
fn contains_name(names: &Vec<String>, name: &str) -> (r: bool)
    ensures
        r == names@.map_values(|s: String| s@).contains(name@),
{
    let ghost views = names@.map_values(|s: String| s@);
    let mut i: usize = 0;
    while i < names.len()
        invariant
            i <= names.len(),
            views == names@.map_values(|s: String| s@),
            forall|j: int| 0 <= j < i ==> views[j] != name@,
        decreases names.len() - i,
    {
        if str_eq(names[i].as_str(), name) {
            assert(views[i as int] == name@);
            return true;
        }
        i = i + 1;
    }
    proof {
        if views.contains(name@) {
            let k = choose|k: int| 0 <= k < views.len() && views[k] == name@;
            assert(views[k] != name@);
        }
    }
    false
}

fn language_list(languages: &[&str]) -> (v: Vec<String>)
    ensures
        v@.map_values(|s: String| s@) == distinct_views(languages@.map_values(|s: &str| s@)),
{
    let ghost input = languages@.map_values(|s: &str| s@);
    let mut v: Vec<String> = Vec::new();
    let mut i: usize = 0;
    while i < languages.len()
        invariant
            i <= languages.len(),
            input == languages@.map_values(|s: &str| s@),
            v@.map_values(|s: String| s@) == distinct_views(input.take(i as int)),
        decreases languages.len() - i,
    {
        let ghost before = v@.map_values(|s: String| s@);
        assert(input.take(i + 1).drop_last() == input.take(i as int));
        if !contains_name(&v, languages[i]) {
            v.push(languages[i].to_owned());
            assert(v@.map_values(|s: String| s@) == before.push(input[i as int]));
        }
        i = i + 1;
    }
    assert(input.take(languages.len() as int) == input);
    v
}

impl DegradationMode {
    /// LSP operations are usable at all only in `Normal` mode.
    pub fn lsp_available(&self) -> (r: bool)
        ensures
            r == spec_lsp_available(*self),
    {
        matches!(self, DegradationMode::Normal)
    }

    /// Whether LSP (or its tree-sitter fallback) serves `language`.
    pub fn lsp_available_for(&self, language: &str) -> (r: bool)
        ensures
            r == spec_lsp_available_for(*self, language@),
    {
        match self {
            DegradationMode::Normal => true,
            DegradationMode::NoLsp(langs) => {
                !contains_name(&langs.languages, language) || langs.fallback_to_tree_sitter
            },
            _ => false,
        }
    }

    /// Whether LLM generation is available.
    pub fn llm_available(&self) -> (r: bool)
        ensures
            r == spec_llm_available(*self),
    {
        matches!(self, DegradationMode::Normal | DegradationMode::NoLsp(_))
    }

    /// Whether database writes are permitted.
    pub fn writes_permitted(&self) -> (r: bool)
        ensures
            r == spec_writes_permitted(*self),
    {
        matches!(self, DegradationMode::Normal | DegradationMode::NoLsp(_) | DegradationMode::NoLLm)
    }

    /// Whether any useful operation is possible.
    pub fn is_operational(&self) -> (r: bool)
        ensures
            r == spec_is_operational(*self),
    {
        !matches!(self, DegradationMode::Emergency)
    }

    /// Human-readable description of the mode.
    pub fn description(&self) -> (r: &'static str)
        ensures
            r@ == spec_description(*self),
    {
        match self {
            DegradationMode::Normal => "All systems operational",
            DegradationMode::NoLsp(_) => "LSP server degraded — using tree-sitter fallback",
            DegradationMode::NoLLm => "LLM unavailable — read-only mode",
            DegradationMode::ReadOnly => "Database is read-only — check disk space",
            DegradationMode::Emergency => "Critical failure — safe shutdown required",
        }
    }

    /// A `NoLsp` mode that allows the tree-sitter fallback.
    pub fn no_lsp_with_fallback(languages: &[&str]) -> (m: Self)
        ensures
            m matches DegradationMode::NoLsp(o) && o.fallback_to_tree_sitter
                && o.language_views() == distinct_views(languages@.map_values(|s: &str| s@)),
    {
        DegradationMode::NoLsp(LanguageOption { languages: language_list(languages), fallback_to_tree_sitter: true })
    }

    /// A `NoLsp` mode without fallback (strict).
    pub fn no_lsp_strict(languages: &[&str]) -> (m: Self)
        ensures
            m matches DegradationMode::NoLsp(o) && !o.fallback_to_tree_sitter
                && o.language_views() == distinct_views(languages@.map_values(|s: &str| s@)),
    {
        DegradationMode::NoLsp(LanguageOption { languages: language_list(languages), fallback_to_tree_sitter: false })
    }

    /// Whether `op` is permitted in this mode.
    pub fn allows(&self, op: Operation) -> (r: bool)
        ensures
            r == spec_allows(*self, op),
    {
        match op {
            Operation::Query => self.is_operational(),
            Operation::ImportExport => self.is_operational(),
            Operation::ConsistencyCheck => self.is_operational(),
            Operation::LspAnalysis => self.lsp_available(),
            Operation::LlmGeneration => self.llm_available(),
            Operation::Write => self.writes_permitted(),
        }
    }

    /// All operations permitted in this mode, in declaration order.
    pub fn permitted_operations(&self) -> (r: Vec<Operation>)
        ensures
            r@ == spec_permitted_operations(*self),
    {
        let mut v: Vec<Operation> = Vec::new();
        if self.allows(Operation::Query) { v.push(Operation::Query); }
        if self.allows(Operation::ImportExport) { v.push(Operation::ImportExport); }
        if self.allows(Operation::ConsistencyCheck) { v.push(Operation::ConsistencyCheck); }
        if self.allows(Operation::LspAnalysis) { v.push(Operation::LspAnalysis); }
        if self.allows(Operation::LlmGeneration) { v.push(Operation::LlmGeneration); }
        if self.allows(Operation::Write) { v.push(Operation::Write); }
        v
    }
}

/// A more severe mode never permits an operation that a less severe mode
/// forbids.
pub proof fn lemma_severity_monotone(a: DegradationMode, b: DegradationMode, op: Operation)
    requires
        severity(a) <= severity(b),
        spec_allows(b, op),
    ensures
        spec_allows(a, op),
{
}

proof fn lemma_push_if_contains(s: Seq<Operation>, x: Operation, keep: bool, y: Operation)
    ensures
        push_if(s, x, keep).contains(y) <==> (s.contains(y) || (keep && x == y)),
{
    if keep {
        let t = s.push(x);
        if t.contains(y) && !(x == y) {
            let k = choose|k: int| 0 <= k < t.len() && t[k] == y;
            assert(s[k] == y);
        }
        if s.contains(y) {
            let k = choose|k: int| 0 <= k < s.len() && s[k] == y;
            assert(t[k] == y);
        }
        if x == y {
            assert(t[s.len() as int] == y);
        }
    }
}

/// An operation is in `permitted_operations` exactly when `allows` holds
/// for it.
pub proof fn lemma_permitted_matches_allows(m: DegradationMode, op: Operation)
    ensures
        spec_permitted_operations(m).contains(op) <==> spec_allows(m, op),
{
    let e = Seq::<Operation>::empty();
    let s0 = push_if(e, Operation::Query, spec_allows(m, Operation::Query));
    let s1 = push_if(s0, Operation::ImportExport, spec_allows(m, Operation::ImportExport));
    let s2 = push_if(s1, Operation::ConsistencyCheck, spec_allows(m, Operation::ConsistencyCheck));
    let s3 = push_if(s2, Operation::LspAnalysis, spec_allows(m, Operation::LspAnalysis));
    let s4 = push_if(s3, Operation::LlmGeneration, spec_allows(m, Operation::LlmGeneration));
    assert(!e.contains(op));
    lemma_push_if_contains(e, Operation::Query, spec_allows(m, Operation::Query), op);
    lemma_push_if_contains(s0, Operation::ImportExport, spec_allows(m, Operation::ImportExport), op);
    lemma_push_if_contains(s1, Operation::ConsistencyCheck, spec_allows(m, Operation::ConsistencyCheck), op);
    lemma_push_if_contains(s2, Operation::LspAnalysis, spec_allows(m, Operation::LspAnalysis), op);
    lemma_push_if_contains(s3, Operation::LlmGeneration, spec_allows(m, Operation::LlmGeneration), op);
    lemma_push_if_contains(s4, Operation::Write, spec_allows(m, Operation::Write), op);
}

/// In `Emergency` mode nothing is permitted; in `Normal` mode everything is.
pub proof fn lemma_extremes(op: Operation)
    ensures
        !spec_allows(DegradationMode::Emergency, op),
        spec_allows(DegradationMode::Normal, op),
{
}

} // verus!
