//! Partitioning of source files into logical modules: files are grouped by
//! the directory that holds them, each group becomes a module named after
//! its directory and typed by the package manifest found there, groups that
//! are too small are dropped and groups that are too large are split into
//! numbered chunks.

use vstd::prelude::*;
use crate::text::{decimal, lex_lt, push_str, str_eq, str_lt, string_views, usize_to_string, lemma_lex_order};

verus! {

/// A source file found in a repository.
#[derive(Debug)]
pub struct SourceFile {
    /// Path of the file.
    pub path: String,
    /// Detected language, if any.
    pub language: Option<String>,
    /// Size in bytes.
    pub size_bytes: u64,
    /// Path relative to the repository root.
    pub relative_path: String,
}

fn clone_opt(o: &Option<String>) -> (r: Option<String>)
    ensures
        r == *o,
{
    match o {
        Some(s) => Some(s.clone()),
        None => None,
    }
}

impl Clone for SourceFile {
    fn clone(&self) -> (r: Self)
        ensures
            r == *self,
    {
        SourceFile {
            path: self.path.clone(),
            language: clone_opt(&self.language),
            size_bytes: self.size_bytes,
            relative_path: self.relative_path.clone(),
        }
    }
}

/// Type of module boundary.
#[derive(Debug, Clone, Copy, PartialEq, Eq)]
pub enum ModuleType {
    /// Cargo crate (`Cargo.toml`).
    CargoCrate,
    /// npm package (`package.json`).
    NpmPackage,
    /// Python package (`__init__.py`).
    PythonPackage,
    /// Go module (`go.mod`).
    GoModule,
    /// Directory-based (no package manager).
    Directory,
}

/// A logical module identified in the codebase.
#[derive(Debug)]
pub struct Module {
    /// Module name (the directory's name, with a chunk suffix after a split).
    pub name: String,
    /// Source files belonging to the module.
    pub files: Vec<SourceFile>,
    /// Module type.
    pub module_type: ModuleType,
    /// Path of the module's directory.
    pub root_path: String,
    /// Languages used in the module, sorted, each once.
    pub languages: Vec<String>,
}

/// Partition configuration.
#[derive(Debug, Clone, Copy)]
pub struct PartitionConfig {
    /// Maximum files per module before splitting (0: never split).
    pub max_files_per_module: usize,
    /// Whether to split by language.
    pub split_by_language: bool,
    /// Minimum files to form a module.
    pub min_files_for_module: usize,
}

impl Default for PartitionConfig {
    fn default() -> (c: Self)
        ensures
            c.max_files_per_module == 50,
            !c.split_by_language,
            c.min_files_for_module == 1,
    {
        PartitionConfig { max_files_per_module: 50, split_by_language: false, min_files_for_module: 1 }
    }
}

/// The directory part of a path, as `Path::parent` gives it (`None` for a
/// root or an empty path).
pub uninterp spec fn parent_of(path: Seq<char>) -> Option<Seq<char>>;

/// The last component of a path, as `Path::file_name` gives it.
pub uninterp spec fn file_name_of(path: Seq<char>) -> Option<Seq<char>>;

/// A path with a component appended, as `Path::join` gives it.
pub uninterp spec fn joined_path(dir: Seq<char>, name: Seq<char>) -> Seq<char>;

/// The parent directory of a path (std `Path::parent`).
#[verifier::external_body]
fn path_parent(path: &str) -> (r: Option<String>)
    ensures
        match (r, parent_of(path@)) {
            (Some(a), Some(b)) => a@ == b,
            (None, None) => true,
            _ => false,
        },
{
    std::path::Path::new(path).parent().map(|p| p.to_string_lossy().into_owned())
}

/// The last component of a path (std `Path::file_name`).
#[verifier::external_body]
fn path_file_name(path: &str) -> (r: Option<String>)
    ensures
        match (r, file_name_of(path@)) {
            (Some(a), Some(b)) => a@ == b,
            (None, None) => true,
            _ => false,
        },
{
    std::path::Path::new(path).file_name().map(|n| n.to_string_lossy().into_owned())
}

/// A path with a component appended (std `Path::join`).
#[verifier::external_body]
pub(crate) fn path_join(dir: &str, name: &str) -> (r: String)
    ensures
        r@ == joined_path(dir@, name@),
{
    std::path::Path::new(dir).join(name).to_string_lossy().into_owned()
}

/// Whether something exists at a path (std `Path::exists`). The answer
/// depends on the file system at the time of the call; nothing is stated
/// about it.
#[verifier::external_body]
fn path_exists(path: &str) -> (r: bool) {
    std::path::Path::new(path).exists()
}

/// The module type a manifest file name marks: `Cargo.toml`, `package.json`,
/// `__init__.py` and `go.mod` mark their package kinds, any other name a
/// plain directory.
pub open spec fn indicator_type(name: Seq<char>) -> ModuleType {
    if name == "Cargo.toml"@ {
        ModuleType::CargoCrate
    } else if name == "package.json"@ {
        ModuleType::NpmPackage
    } else if name == "__init__.py"@ {
        ModuleType::PythonPackage
    } else if name == "go.mod"@ {
        ModuleType::GoModule
    } else {
        ModuleType::Directory
    }
}

/// The module type marked by a manifest file name (see `indicator_type`).
pub fn module_type_of_indicator(name: &str) -> (t: ModuleType)
    ensures
        t == indicator_type(name@),
{
    if str_eq(name, "Cargo.toml") {
        ModuleType::CargoCrate
    } else if str_eq(name, "package.json") {
        ModuleType::NpmPackage
    } else if str_eq(name, "__init__.py") {
        ModuleType::PythonPackage
    } else if str_eq(name, "go.mod") {
        ModuleType::GoModule
    } else {
        ModuleType::Directory
    }
}

/// The manifest files that mark a module, in the order they are looked for.
pub open spec fn module_indicators() -> Seq<Seq<char>> {
    seq!["Cargo.toml"@, "package.json"@, "__init__.py"@, "go.mod"@, "pom.xml"@, "build.gradle"@]
}

/// The module type marked by the first indicator found present, or a plain
/// directory when none is.
pub open spec fn first_present_type(names: Seq<Seq<char>>, present: Seq<bool>) -> ModuleType
    decreases names.len(),
{
    if names.len() == 0 || present.len() == 0 {
        ModuleType::Directory
    } else if present[0] {
        indicator_type(names[0])
    } else {
        first_present_type(names.drop_first(), present.drop_first())
    }
}

/// The views of some string slices.
pub open spec fn str_views(s: Seq<&str>) -> Seq<Seq<char>> {
    s.map_values(|x: &str| x@)
}

/// The module type given which indicator files are present, indicator by
/// indicator: that of the first one present, or a plain directory.
pub fn module_type_of_presence(indicators: &[&str], present: &[bool]) -> (t: ModuleType)
    requires
        present@.len() == indicators@.len(),
    ensures
        t == first_present_type(str_views(indicators@), present@),
{
    let mut i: usize = 0;
    proof {
        assert(str_views(indicators@).skip(0) =~= str_views(indicators@));
        assert(present@.skip(0) =~= present@);
    }
    while i < indicators.len()
        invariant
            i <= indicators@.len(),
            present@.len() == indicators@.len(),
            first_present_type(str_views(indicators@), present@) == first_present_type(
                str_views(indicators@).skip(i as int),
                present@.skip(i as int),
            ),
        decreases indicators@.len() - i,
    {
        proof {
            assert(str_views(indicators@).skip(i as int).drop_first() =~= str_views(indicators@).skip(i + 1));
            assert(present@.skip(i as int).drop_first() =~= present@.skip(i + 1));
        }
        if present[i] {
            return module_type_of_indicator(indicators[i]);
        }
        i += 1;
    }
    ModuleType::Directory
}

/// The type of the module rooted at `dir_path`: the indicator files are
/// looked for in the directory (`joined_path(dir_path, name)`), in order,
/// up to the first one present, and `module_type_of_presence` decides on
/// what was found. Which files are present is read from the file system,
/// so the result is stated for whatever presence the probes found.
pub fn detect_module_type(dir_path: &str, indicators: &[&str]) -> (t: ModuleType)
    ensures
        exists|present: Seq<bool>|
            present.len() == indicators@.len() && t == first_present_type(str_views(indicators@), present),
{
    let mut present: Vec<bool> = Vec::new();
    let mut found = false;
    let mut i: usize = 0;
    while i < indicators.len()
        invariant
            i <= indicators@.len(),
            present@.len() == i,
        decreases indicators@.len() - i,
    {
        if found {
            present.push(false);
        } else {
            let candidate = path_join(dir_path, indicators[i]);
            let here = path_exists(candidate.as_str());
            present.push(here);
            found = here;
        }
        i += 1;
    }
    module_type_of_presence(indicators, present.as_slice())
}

/// The directory a file is grouped under: its parent, or `.` without one.
pub open spec fn dir_key(f: SourceFile) -> Seq<char> {
    match parent_of(f.path@) {
        Some(d) => d,
        None => "."@,
    }
}

/// The distinct directories of the files, in order of first appearance.
pub open spec fn first_dirs(files: Seq<SourceFile>) -> Seq<Seq<char>>
    decreases files.len(),
{
    if files.len() == 0 {
        Seq::empty()
    } else {
        let r = first_dirs(files.drop_last());
        let d = dir_key(files.last());
        if r.contains(d) { r } else { r.push(d) }
    }
}

/// The files under a directory, in order.
pub open spec fn files_in(files: Seq<SourceFile>, d: Seq<char>) -> Seq<SourceFile> {
    files.filter(|f: SourceFile| dir_key(f) == d)
}

/// The languages of some files.
pub open spec fn language_set(files: Seq<SourceFile>) -> Set<Seq<char>> {
    Set::new(|x: Seq<char>| exists|j: int| 0 <= j < files.len() && ((#[trigger] files[j]).language matches Some(s) && s@ == x))
}

/// Strictly increasing in lexicographic order.
pub open spec fn strictly_sorted(s: Seq<Seq<char>>) -> bool {
    forall|i: int, j: int| 0 <= i < j < s.len() ==> lex_lt(#[trigger] s[i], #[trigger] s[j])
}

/// The name of a directory's module: its last component, or `root`.
pub open spec fn dir_module_name(d: Seq<char>) -> Seq<char> {
    match file_name_of(d) {
        Some(n) => n,
        None => "root"@,
    }
}

/// The directories whose modules are kept: those with at least `min` files.
pub open spec fn kept_dirs(files: Seq<SourceFile>, min: nat) -> Seq<Seq<char>> {
    first_dirs(files).filter(|d: Seq<char>| files_in(files, d).len() >= min)
}

/// `m` is the module of directory `d` before any split; its type is that
/// of the first manifest file found present in the directory, whichever
/// the file system shows.
pub open spec fn module_of_dir(m: Module, files: Seq<SourceFile>, d: Seq<char>) -> bool {
    &&& exists|present: Seq<bool>|
        present.len() == module_indicators().len() && m.module_type == first_present_type(module_indicators(), present)
    &&& m.name@ == dir_module_name(d)
    &&& m.files@ == files_in(files, d)
    &&& m.root_path@ == d
    &&& strictly_sorted(string_views(m.languages@))
    &&& string_views(m.languages@).to_set() == language_set(files_in(files, d))
}

/// The name of chunk `i` of a module: the module's name, then `_2`, `_3`...
/// after the first chunk.
pub open spec fn chunk_name(name: Seq<char>, i: nat) -> Seq<char> {
    if i == 0 { name } else { name + "_"@ + decimal(i + 1) }
}

/// Number of chunks of `n` files, `max` per chunk.
pub open spec fn chunk_count(n: nat, max: nat) -> nat {
    if max == 0 { 0 } else { ((n + max - 1) as nat) / max }
}

/// `c` is chunk `i` of module `m` split `max` files per chunk.
pub open spec fn is_chunk(c: Module, m: Module, max: nat, i: nat) -> bool {
    let lo = i * max;
    let hi = if (i + 1) * max <= m.files@.len() { (i + 1) * max } else { m.files@.len() as nat };
    &&& c.name@ == chunk_name(m.name@, i)
    &&& c.files@ == m.files@.subrange(lo as int, hi as int)
    &&& c.module_type == m.module_type
    &&& c.root_path == m.root_path
    &&& c.languages@ == m.languages@
}

/// What a module becomes: itself when within `max` files, otherwise its
/// chunks of `max` files, in order.
pub open spec fn split_one(out: Seq<Module>, m: Module, max: nat) -> bool {
    if m.files@.len() <= max {
        out == seq![m]
    } else {
        &&& out.len() == chunk_count(m.files@.len(), max)
        &&& forall|i: int| 0 <= i < out.len() ==> is_chunk(#[trigger] out[i], m, max, i as nat)
    }
}

/// `out` is the modules split in turn, each into `parts[k]` pieces.
pub open spec fn split_all(out: Seq<Module>, mods: Seq<Module>, max: nat, parts: Seq<Seq<Module>>) -> bool {
    &&& parts.len() == mods.len()
    &&& forall|k: int| 0 <= k < mods.len() ==> split_one(#[trigger] parts[k], mods[k], max)
    &&& out == parts.flatten()
}

fn clone_files(v: &Vec<SourceFile>, lo: usize, hi: usize) -> (r: Vec<SourceFile>)
    requires
        lo <= hi <= v@.len(),
    ensures
        r@ == v@.subrange(lo as int, hi as int),
{
    let mut r: Vec<SourceFile> = Vec::new();
    let mut i: usize = lo;
    while i < hi
        invariant
            lo <= i <= hi <= v@.len(),
            r@ == v@.subrange(lo as int, i as int),
        decreases hi - i,
    {
        r.push(v[i].clone());
        assert(v@.subrange(lo as int, i + 1) == v@.subrange(lo as int, i as int).push(v@[i as int]));
        i += 1;
    }
    r
}

fn clone_strings(v: &Vec<String>) -> (r: Vec<String>)
    ensures
        r@ == v@,
{
    let mut r: Vec<String> = Vec::new();
    let mut i: usize = 0;
    while i < v.len()
        invariant
            i <= v@.len(),
            r@ == v@.take(i as int),
        decreases v@.len() - i,
    {
        r.push(v[i].clone());
        assert(v@.take(i + 1) == v@.take(i as int).push(v@[i as int]));
        i += 1;
    }
    assert(v@.take(v@.len() as int) == v@);
    r
}

/// Splits one module into chunks of at most `max_files` files.
fn split_module(module: Module, max_files: usize) -> (out: Vec<Module>)
    requires
        max_files > 0,
    ensures
        split_one(out@, module, max_files as nat),
{
    if module.files.len() <= max_files {
        let mut out: Vec<Module> = Vec::new();
        out.push(module);
        return out;
    }
    let n = module.files.len();
    let mut out: Vec<Module> = Vec::new();
    let mut i: usize = 0;
    let mut lo: usize = 0;
    proof {
        assert(chunk_count(n as nat, max_files as nat) >= 1) by (nonlinear_arith)
            requires
                n > max_files > 0,
                chunk_count(n as nat, max_files as nat) == ((n + max_files - 1) as nat) / (max_files as nat);
    }
    while lo < n
        invariant
            n == module.files@.len(),
            n > max_files > 0,
            lo <= n,
            i <= lo,
            lo < n ==> lo == i * max_files,
            lo < n ==> i < chunk_count(n as nat, max_files as nat),
            lo == n ==> i == chunk_count(n as nat, max_files as nat),
            out@.len() == i,
            forall|k: int| 0 <= k < i ==> is_chunk(#[trigger] out@[k], module, max_files as nat, k as nat),
        decreases n - lo,
    {
        let hi = if n - lo >= max_files { lo + max_files } else { n };
        let mut name = module.name.clone();
        if i > 0 {
            push_str(&mut name, "_");
            let s = usize_to_string(i + 1);
            push_str(&mut name, s.as_str());
        }
        let files = clone_files(&module.files, lo, hi);
        let languages = clone_strings(&module.languages);
        proof {
            assert(hi == if (i + 1) * max_files <= n { (i + 1) * max_files } else { n as int }) by (nonlinear_arith)
                requires
                    lo == i * max_files,
                    hi == if n - lo >= max_files { lo + max_files } else { n as int },
                    lo < n;
        }
        out.push(Module {
            name,
            files,
            module_type: module.module_type,
            root_path: module.root_path.clone(),
            languages,
        });
        proof {
            let c = chunk_count(n as nat, max_files as nat);
            assert(c == ((n + max_files - 1) as nat) / (max_files as nat));
            if hi < n {
                assert(i + 1 < c && hi == (i + 1) * max_files && i + 1 <= hi) by (nonlinear_arith)
                    requires
                        lo == i * max_files,
                        hi == lo + max_files,
                        hi < n,
                        c == ((n + max_files - 1) as nat) / (max_files as nat),
                        max_files > 0;
            } else {
                assert(i + 1 == c) by (nonlinear_arith)
                    requires
                        lo == i * max_files,
                        hi == n,
                        lo < n,
                        n - lo <= max_files,
                        c == ((n + max_files - 1) as nat) / (max_files as nat),
                        max_files > 0;
            }
        }
        lo = hi;
        i = i + 1;
    }
    out
}

/// Splits the modules with more than `max_files` files into numbered
/// chunks, keeping the module order.
pub fn split_large_modules(modules: Vec<Module>, max_files: usize) -> (out: Vec<Module>)
    requires
        max_files > 0,
    ensures
        exists|parts: Seq<Seq<Module>>| split_all(out@, modules@, max_files as nat, parts),
{
    let mut modules = modules;
    let ghost all = modules@;
    let total = modules.len();
    let ghost mut parts: Seq<Seq<Module>> = Seq::empty();
    let mut out: Vec<Module> = Vec::new();
    let mut k: usize = 0;
    while modules.len() > 0
        invariant
            max_files > 0,
            k + modules@.len() == all.len(),
            all.len() == total,
            modules@ == all.skip(k as int),
            parts.len() == k,
            forall|j: int| 0 <= j < k ==> split_one(#[trigger] parts[j], all[j], max_files as nat),
            out@ == parts.flatten(),
        decreases modules@.len(),
    {
        let m = modules.remove(0);
        proof {
            assert(m == all[k as int]);
            assert(modules@ == all.skip(k + 1));
        }
        let pieces = split_module(m, max_files);
        let ghost before = out@;
        let mut j: usize = 0;
        let mut pieces = pieces;
        let ghost piece_seq = pieces@;
        let piece_count = pieces.len();
        while pieces.len() > 0
            invariant
                j + pieces@.len() == piece_seq.len(),
                piece_seq.len() == piece_count,
                pieces@ == piece_seq.skip(j as int),
                out@ == before + piece_seq.take(j as int),
            decreases pieces@.len(),
        {
            let p = pieces.remove(0);
            out.push(p);
            proof {
                assert(piece_seq.take(j + 1) == piece_seq.take(j as int).push(piece_seq[j as int]));
                assert(pieces@ == piece_seq.skip(j + 1));
            }
            j += 1;
        }
        proof {
            assert(piece_seq.take(piece_seq.len() as int) == piece_seq);
            let np = parts.push(piece_seq);
            parts.lemma_flatten_push(piece_seq);
            parts = np;
        }
        k += 1;
    }
    proof {
        assert(k == all.len());
        assert(split_all(out@, all, max_files as nat, parts));
    }
    out
}

/// Inserts `x` into a strictly sorted list of names unless present.
fn insert_sorted(names: &mut Vec<String>, x: String)
    requires
        strictly_sorted(string_views(old(names)@)),
    ensures
        strictly_sorted(string_views(final(names)@)),
        forall|y: Seq<char>| string_views(final(names)@).contains(y)
            <==> (string_views(old(names)@).contains(y) || y == x@),
{
    let ghost old_v = string_views(names@);
    let mut j: usize = 0;
    while j < names.len() && str_lt(names[j].as_str(), x.as_str())
        invariant
            j <= names@.len(),
            old_v == string_views(names@),
            strictly_sorted(old_v),
            forall|k: int| 0 <= k < j ==> lex_lt(#[trigger] old_v[k], x@),
        decreases names@.len() - j,
    {
        j += 1;
    }
    if j < names.len() && str_eq(names[j].as_str(), x.as_str()) {
        proof {
            assert(old_v[j as int] == x@);
        }
        return;
    }
    proof {
        if j < names@.len() {
            lemma_lex_order(old_v[j as int], x@, x@);
            assert(old_v[j as int] != x@);
            assert(lex_lt(x@, old_v[j as int]));
        }
    }
    names.insert(j, x);
    proof {
        let nv = string_views(names@);
        assert(nv =~= old_v.insert(j as int, x@));
        assert forall|a: int, b: int| 0 <= a < b < nv.len() implies lex_lt(#[trigger] nv[a], #[trigger] nv[b]) by {
            if b < j {
                assert(nv[a] == old_v[a] && nv[b] == old_v[b]);
            } else if b == j {
                assert(nv[a] == old_v[a]);
            } else if a == j {
                assert(nv[b] == old_v[b - 1]);
                if b - 1 > j {
                    lemma_lex_order(x@, old_v[j as int], old_v[b - 1]);
                }
            } else if a < j {
                assert(nv[a] == old_v[a] && nv[b] == old_v[b - 1]);
            } else {
                assert(nv[a] == old_v[a - 1] && nv[b] == old_v[b - 1]);
            }
        }
        assert forall|y: Seq<char>| nv.contains(y) <==> (old_v.contains(y) || y == x@) by {
            if nv.contains(y) {
                let k = choose|k: int| 0 <= k < nv.len() && nv[k] == y;
                if k < j {
                    assert(old_v[k] == y);
                } else if k > j {
                    assert(old_v[k - 1] == y);
                }
            }
            if old_v.contains(y) {
                let k = choose|k: int| 0 <= k < old_v.len() && old_v[k] == y;
                if k < j {
                    assert(nv[k] == y);
                } else {
                    assert(nv[k + 1] == y);
                }
            }
            if y == x@ {
                assert(nv[j as int] == y);
            }
        }
    }
}

/// The distinct languages of the files, sorted.
fn sorted_languages(files: &Vec<SourceFile>) -> (r: Vec<String>)
    ensures
        strictly_sorted(string_views(r@)),
        forall|y: Seq<char>| string_views(r@).contains(y) <==> language_set(files@).contains(y),
{
    let mut r: Vec<String> = Vec::new();
    let mut i: usize = 0;
    while i < files.len()
        invariant
            i <= files@.len(),
            strictly_sorted(string_views(r@)),
            forall|y: Seq<char>| string_views(r@).contains(y) <==> language_set(files@.take(i as int)).contains(y),
        decreases files@.len() - i,
    {
        let ghost before = r@;
        match &files[i].language {
            Some(l) => {
                insert_sorted(&mut r, l.clone());
            },
            None => {},
        }
        proof {
            let pre = files@.take(i as int);
            let cur = files@.take(i + 1);
            assert forall|y: Seq<char>| string_views(r@).contains(y) <==> language_set(cur).contains(y) by {
                if language_set(cur).contains(y) {
                    let j = choose|j: int| 0 <= j < cur.len() && ((#[trigger] cur[j]).language matches Some(s) && s@ == y);
                    if j < i {
                        assert(pre[j] == cur[j]);
                        assert(language_set(pre).contains(y));
                    }
                }
                if language_set(pre).contains(y) {
                    let j = choose|j: int| 0 <= j < pre.len() && ((#[trigger] pre[j]).language matches Some(s) && s@ == y);
                    assert(cur[j] == pre[j]);
                    assert(language_set(cur).contains(y));
                }
                match files@[i as int].language {
                    Some(l) => {
                        assert(cur[i as int] == files@[i as int]);
                        if y == l@ {
                            assert(language_set(cur).contains(y));
                        }
                    },
                    None => {},
                }
            }
        }
        i += 1;
    }
    proof {
        assert(files@.take(files@.len() as int) == files@);
    }
    r
}

/// The files under directory `d`, in order.
fn files_under(files: &Vec<SourceFile>, keys: &Vec<String>, d: &String) -> (r: Vec<SourceFile>)
    requires
        keys@.len() == files@.len(),
        forall|i: int| 0 <= i < files@.len() ==> (#[trigger] keys@[i])@ == dir_key(files@[i]),
    ensures
        r@ == files_in(files@, d@),
{
    let ghost pred = |f: SourceFile| dir_key(f) == d@;
    let mut r: Vec<SourceFile> = Vec::new();
    let mut i: usize = 0;
    while i < files.len()
        invariant
            i <= files@.len(),
            keys@.len() == files@.len(),
            forall|k: int| 0 <= k < files@.len() ==> (#[trigger] keys@[k])@ == dir_key(files@[k]),
            pred == (|f: SourceFile| dir_key(f) == d@),
            r@ == files@.take(i as int).filter(pred),
        decreases files@.len() - i,
    {
        proof {
            assert(files@.take(i + 1).drop_last() == files@.take(i as int));
            reveal_with_fuel(Seq::filter, 1);
            assert(keys@[i as int]@ == dir_key(files@[i as int]));
        }
        if str_eq(keys[i].as_str(), d.as_str()) {
            r.push(files[i].clone());
        }
        i += 1;
    }
    proof {
        assert(files@.take(files@.len() as int) == files@);
    }
    r
}

fn contains_string(v: &Vec<String>, x: &String) -> (r: bool)
    ensures
        r == string_views(v@).contains(x@),
{
    let mut i: usize = 0;
    while i < v.len()
        invariant
            i <= v@.len(),
            forall|k: int| 0 <= k < i ==> v@[k]@ != x@,
        decreases v@.len() - i,
    {
        if str_eq(v[i].as_str(), x.as_str()) {
            proof {
                assert(string_views(v@)[i as int] == x@);
            }
            return true;
        }
        i += 1;
    }
    proof {
        if string_views(v@).contains(x@) {
            let k = choose|k: int| 0 <= k < string_views(v@).len() && string_views(v@)[k] == x@;
            assert(v@[k]@ == x@);
        }
    }
    false
}

/// `pre` holds the modules of the kept directories, in order, and `out` is
/// `pre` after splitting when a maximum is set.
pub open spec fn partition_of(out: Seq<Module>, pre: Seq<Module>, files: Seq<SourceFile>, config: PartitionConfig) -> bool {
    &&& pre.len() == kept_dirs(files, config.min_files_for_module as nat).len()
    &&& forall|j: int| 0 <= j < pre.len() ==> module_of_dir(
        #[trigger] pre[j],
        files,
        kept_dirs(files, config.min_files_for_module as nat)[j],
    )
    &&& if config.max_files_per_module > 0 {
        exists|parts: Seq<Seq<Module>>| split_all(out, pre, config.max_files_per_module as nat, parts)
    } else {
        out == pre
    }
}

/// Partitions files into modules: one module per directory holding files
/// (directories in order of first appearance), named after the directory
/// (`root` when it has no name), typed by the first manifest found in it,
/// listing the directory's files in order and their languages sorted; a
/// module with fewer than the minimum of files is dropped, and with a
/// positive maximum, larger modules are split into numbered chunks.
pub fn partition_files(files: Vec<SourceFile>, config: &PartitionConfig) -> (out: Vec<Module>)
    ensures
        exists|pre: Seq<Module>| #[trigger] partition_of(out@, pre, files@, *config),
{
    let min = config.min_files_for_module;
    let mut keys: Vec<String> = Vec::new();
    let mut i: usize = 0;
    while i < files.len()
        invariant
            i <= files@.len(),
            keys@.len() == i,
            forall|k: int| 0 <= k < i ==> (#[trigger] keys@[k])@ == dir_key(files@[k]),
        decreases files@.len() - i,
    {
        let key = match path_parent(files[i].path.as_str()) {
            Some(p) => p,
            None => ".".to_owned(),
        };
        keys.push(key);
        i += 1;
    }
    let mut dirs: Vec<String> = Vec::new();
    let mut i: usize = 0;
    while i < files.len()
        invariant
            i <= files@.len(),
            keys@.len() == files@.len(),
            forall|k: int| 0 <= k < files@.len() ==> (#[trigger] keys@[k])@ == dir_key(files@[k]),
            string_views(dirs@) == first_dirs(files@.take(i as int)),
        decreases files@.len() - i,
    {
        proof {
            assert(files@.take(i + 1).drop_last() == files@.take(i as int));
            assert(keys@[i as int]@ == dir_key(files@[i as int]));
        }
        if !contains_string(&dirs, &keys[i]) {
            let ghost before = dirs@;
            dirs.push(keys[i].clone());
            proof {
                assert(string_views(dirs@) =~= string_views(before).push(keys@[i as int]@));
            }
        }
        i += 1;
    }
    proof {
        assert(files@.take(files@.len() as int) == files@);
    }
    let ghost all_dirs = first_dirs(files@);
    let ghost keep = |d: Seq<char>| files_in(files@, d).len() >= min as nat;
    let indicators: [&str; 6] = ["Cargo.toml", "package.json", "__init__.py", "go.mod", "pom.xml", "build.gradle"];
    assert(str_views(indicators@) =~= module_indicators());
    let mut modules: Vec<Module> = Vec::new();
    let mut k: usize = 0;
    while k < dirs.len()
        invariant
            k <= dirs@.len(),
            min == config.min_files_for_module,
            str_views(indicators@) == module_indicators(),
            keys@.len() == files@.len(),
            forall|k2: int| 0 <= k2 < files@.len() ==> (#[trigger] keys@[k2])@ == dir_key(files@[k2]),
            string_views(dirs@) == all_dirs,
            all_dirs == first_dirs(files@),
            keep == (|d: Seq<char>| files_in(files@, d).len() >= min as nat),
            modules@.len() == all_dirs.take(k as int).filter(keep).len(),
            forall|j: int| 0 <= j < modules@.len() ==> module_of_dir(
                #[trigger] modules@[j],
                files@,
                all_dirs.take(k as int).filter(keep)[j],
            ),
        decreases dirs@.len() - k,
    {
        let d = &dirs[k];
        let group = files_under(&files, &keys, d);
        proof {
            assert(all_dirs.take(k + 1).drop_last() == all_dirs.take(k as int));
            reveal_with_fuel(Seq::filter, 1);
            assert(string_views(dirs@)[k as int] == d@);
        }
        if group.len() >= min {
            let languages = sorted_languages(&group);
            let name = match path_file_name(d.as_str()) {
                Some(n) => n,
                None => "root".to_owned(),
            };
            let module_type = detect_module_type(d.as_str(), &indicators);
            let ghost before = modules@;
            modules.push(Module { name, files: group, module_type, root_path: d.clone(), languages });
            proof {
                let f = all_dirs.take(k + 1).filter(keep);
                assert(f == all_dirs.take(k as int).filter(keep).push(d@));
                assert forall|j: int| 0 <= j < modules@.len() implies module_of_dir(
                    #[trigger] modules@[j],
                    files@,
                    f[j],
                ) by {
                    if j < before.len() {
                        assert(modules@[j] == before[j]);
                    } else {
                        let m = modules@[j];
                        assert(string_views(m.languages@).to_set() =~= language_set(files_in(files@, d@))) by {
                            assert forall|y: Seq<char>| string_views(m.languages@).to_set().contains(y)
                                <==> language_set(files_in(files@, d@)).contains(y) by {}
                        }
                    }
                }
            }
        }
        k += 1;
    }
    proof {
        assert(all_dirs.take(all_dirs.len() as int) == all_dirs);
        assert(kept_dirs(files@, min as nat) == all_dirs.filter(keep));
    }
    let ghost pre = modules@;
    if config.max_files_per_module > 0 {
        let out = split_large_modules(modules, config.max_files_per_module);
        assert(partition_of(out@, pre, files@, *config));
        out
    } else {
        assert(partition_of(modules@, pre, files@, *config));
        modules
    }
}

/// The files of some modules, in order.
pub open spec fn module_files(ms: Seq<Module>) -> Seq<SourceFile> {
    ms.map_values(|m: Module| m.files@).flatten()
}

proof fn lemma_chunk_arith(n: int, max: int, k: int, count: int)
    requires
        max > 0,
        n > 0,
        count == (n + max - 1) / max,
        0 <= k,
    ensures
        k < count ==> k * max < n,
        count * max >= n,
        (k + 1) * max == k * max + max,
{
    assert(count * max >= n) by (nonlinear_arith)
        requires
            max > 0,
            count == (n + max - 1) / max;
    if k < count {
        assert(k * max < n) by (nonlinear_arith)
            requires
                max > 0,
                k < count,
                count == (n + max - 1) / max,
                k >= 0;
    }
    assert((k + 1) * max == k * max + max) by (nonlinear_arith);
}

proof fn lemma_chunks_prefix(out: Seq<Module>, m: Module, max: nat, k: int)
    requires
        max > 0,
        m.files@.len() > max,
        split_one(out, m, max),
        0 <= k <= out.len(),
    ensures
        out.map_values(|c: Module| c.files@).take(k).flatten() == m.files@.take(
            if k * max <= m.files@.len() { k * max } else { m.files@.len() as int },
        ),
    decreases k,
{
    let n = m.files@.len();
    let count = chunk_count(n, max);
    let fs = out.map_values(|c: Module| c.files@);
    if k == 0 {
        assert(fs.take(0) =~= Seq::<Seq<SourceFile>>::empty());
        assert(m.files@.take(0) =~= Seq::<SourceFile>::empty());
    } else {
        let j = k - 1;
        lemma_chunks_prefix(out, m, max, j);
        lemma_chunk_arith(n as int, max as int, j, count as int);
        assert(is_chunk(out[j], m, max, j as nat));
        assert(fs.take(k) =~= fs.take(j).push(fs[j]));
        fs.take(j).lemma_flatten_push(fs[j]);
        let lo = j * max;
        let hi = if (j + 1) * max <= n { (j + 1) * max } else { n as int };
        assert(fs[j] == m.files@.subrange(lo, hi));
        assert(m.files@.take(lo) + m.files@.subrange(lo, hi) =~= m.files@.take(hi));
    }
}

/// Splitting a module loses no file and duplicates none: its pieces hold
/// its files in order, and each piece holds at most `max` files.
pub proof fn lemma_split_keeps_files(out: Seq<Module>, m: Module, max: nat)
    requires
        max > 0,
        split_one(out, m, max),
    ensures
        module_files(out) == m.files@,
        forall|i: int| 0 <= i < out.len() ==> (#[trigger] out[i]).files@.len() <= max || out == seq![m],
{
    let n = m.files@.len();
    if n <= max {
        assert(out == seq![m]);
        let fs = out.map_values(|c: Module| c.files@);
        assert(fs =~= seq![m.files@]);
        fs.lemma_flatten_one_element();
    } else {
        let count = chunk_count(n, max);
        let fs = out.map_values(|c: Module| c.files@);
        let k = out.len() as int;
        lemma_chunks_prefix(out, m, max, k);
        lemma_chunk_arith(n as int, max as int, k, count as int);
        assert(fs.take(k) == fs);
        assert(m.files@.take(n as int) == m.files@);
        assert forall|i: int| 0 <= i < out.len() implies (#[trigger] out[i]).files@.len() <= max by {
            assert(is_chunk(out[i], m, max, i as nat));
            lemma_chunk_arith(n as int, max as int, i, count as int);
        }
    }
}

proof fn lemma_module_files_concat(a: Seq<Module>, b: Seq<Module>)
    ensures
        module_files(a + b) == module_files(a) + module_files(b),
{
    let f = |m: Module| m.files@;
    assert((a + b).map_values(f) =~= a.map_values(f) + b.map_values(f));
    vstd::seq_lib::lemma_flatten_concat(a.map_values(f), b.map_values(f));
}

/// Partitioning loses no file and duplicates none when modules are split:
/// the pieces hold, in order, exactly the files of the modules split.
pub proof fn lemma_split_all_keeps_files(out: Seq<Module>, mods: Seq<Module>, max: nat, parts: Seq<Seq<Module>>)
    requires
        max > 0,
        split_all(out, mods, max, parts),
    ensures
        module_files(out) == module_files(mods),
    decreases mods.len(),
{
    if mods.len() == 0 {
        assert(parts =~= Seq::<Seq<Module>>::empty());
        assert(out =~= Seq::<Module>::empty());
        assert(module_files(out) =~= Seq::<SourceFile>::empty());
        assert(module_files(mods) =~= Seq::<SourceFile>::empty());
    } else {
        let pm = parts.drop_last();
        let mm = mods.drop_last();
        let last = parts.last();
        assert(parts =~= pm.push(last));
        pm.lemma_flatten_push(last);
        assert(split_all(pm.flatten(), mm, max, pm)) by {
            assert forall|k: int| 0 <= k < mm.len() implies split_one(#[trigger] pm[k], mm[k], max) by {
                assert(split_one(parts[k], mods[k], max));
            }
        }
        lemma_split_all_keeps_files(pm.flatten(), mm, max, pm);
        assert(split_one(parts[mods.len() - 1], mods[mods.len() - 1], max));
        lemma_split_keeps_files(last, mods.last(), max);
        lemma_module_files_concat(pm.flatten(), last);
        assert(mods =~= mm.push(mods.last()));
        lemma_module_files_concat(mm, seq![mods.last()]);
        let f = |m: Module| m.files@;
        assert(seq![mods.last()].map_values(f) =~= seq![mods.last().files@]);
        seq![mods.last()].map_values(f).lemma_flatten_one_element();
        assert(mm + seq![mods.last()] =~= mods);
    }
}

} // verus!
