//! Few-shot example management: successful task outputs kept per task
//! type and language, and injected into prompts as examples.

use vstd::prelude::*;
use serde_json::Value;
use crate::prompt::response_parser::{json_array_field, json_array_under, json_clone};
use crate::prompt::system_prompt::{estimate_tokens, spec_estimate_tokens};
use crate::reviewer::new_uuid_string;
use crate::text::{
    chars_of, decimal, join_seqs, join_strings, lex_lt, push_str, str_eq, str_lt, string_views, usize_to_string,
};

verus! {

/// A recorded example of a successful task execution.
#[derive(Debug)]
pub struct FewShotExample {
    /// Unique identifier.
    pub id: String,
    /// Task type this example is for.
    pub task_type: String,
    /// Optional language tag for language-specific examples.
    pub language: Option<String>,
    /// The task input.
    pub input: Value,
    /// The output of the task.
    pub output: Value,
    /// The MCP tools the task used, first to last.
    pub tool_trace: Vec<String>,
    /// When this example was recorded (RFC 3339).
    pub recorded_at: String,
    /// Token count of the example (input + output + trace).
    pub estimated_tokens: usize,
}

/// What an example holds, as plain values.
pub struct ExampleView {
    pub id: Seq<char>,
    pub task_type: Seq<char>,
    pub language: Option<Seq<char>>,
    pub input: Value,
    pub output: Value,
    pub tool_trace: Seq<Seq<char>>,
    pub recorded_at: Seq<char>,
    pub estimated_tokens: nat,
}

/// The view of an optional string.
pub open spec fn opt_view(o: Option<String>) -> Option<Seq<char>> {
    match o {
        Some(s) => Some(s@),
        None => None,
    }
}

impl View for FewShotExample {
    type V = ExampleView;

    open spec fn view(&self) -> ExampleView {
        ExampleView {
            id: self.id@,
            task_type: self.task_type@,
            language: opt_view(self.language),
            input: self.input,
            output: self.output,
            tool_trace: string_views(self.tool_trace@),
            recorded_at: self.recorded_at@,
            estimated_tokens: self.estimated_tokens as nat,
        }
    }
}

/// The views of some examples.
pub open spec fn views(s: Seq<FewShotExample>) -> Seq<ExampleView> {
    s.map_values(|e: FewShotExample| e@)
}

fn clone_strings(v: &Vec<String>) -> (r: Vec<String>)
    ensures
        string_views(r@) == string_views(v@),
{
    let mut r: Vec<String> = Vec::new();
    let mut i: usize = 0;
    while i < v.len()
        invariant
            i <= v@.len(),
            string_views(r@) == string_views(v@.take(i as int)),
        decreases v@.len() - i,
    {
        let ghost before = r@;
        r.push(v[i].clone());
        proof {
            assert(string_views(r@) =~= string_views(before).push(v@[i as int]@));
            assert(string_views(v@.take(i + 1)) =~= string_views(v@.take(i as int)).push(v@[i as int]@));
        }
        i += 1;
    }
    assert(v@.take(v@.len() as int) == v@);
    r
}

fn clone_opt_string(o: &Option<String>) -> (r: Option<String>)
    ensures
        opt_view(r) == opt_view(*o),
{
    match o {
        Some(s) => Some(s.clone()),
        None => None,
    }
}

/// A copy of an example.
fn clone_example(e: &FewShotExample) -> (r: FewShotExample)
    ensures
        r@ == e@,
{
    FewShotExample {
        id: e.id.clone(),
        task_type: e.task_type.clone(),
        language: clone_opt_string(&e.language),
        input: json_clone(&e.input),
        output: json_clone(&e.output),
        tool_trace: clone_strings(&e.tool_trace),
        recorded_at: e.recorded_at.clone(),
        estimated_tokens: e.estimated_tokens,
    }
}

// ------------------------------------------------------------- sorting

/// Whether an example recorded at `a` may stand before one recorded at
/// `b`: not older when newest come first, not newer otherwise.
pub open spec fn goes_before(a: Seq<char>, b: Seq<char>, newest_first: bool) -> bool {
    if newest_first {
        !lex_lt(a, b)
    } else {
        !lex_lt(b, a)
    }
}

/// `x` inserted into `s` before the first example it may stand before.
pub open spec fn insert_by_time(x: ExampleView, s: Seq<ExampleView>, newest_first: bool) -> Seq<ExampleView>
    decreases s.len(),
{
    if s.len() == 0 {
        seq![x]
    } else if goes_before(x.recorded_at, s[0].recorded_at, newest_first) {
        seq![x] + s
    } else {
        seq![s[0]] + insert_by_time(x, s.drop_first(), newest_first)
    }
}

/// The examples in a stable order by recording time (newest or oldest
/// first), examples of equal times keeping their order.
pub open spec fn sort_by_time(s: Seq<ExampleView>, newest_first: bool) -> Seq<ExampleView>
    decreases s.len(),
{
    if s.len() == 0 {
        s
    } else {
        insert_by_time(s[0], sort_by_time(s.drop_first(), newest_first), newest_first)
    }
}

proof fn lemma_sort_len(s: Seq<ExampleView>, newest_first: bool)
    ensures
        sort_by_time(s, newest_first).len() == s.len(),
    decreases s.len(),
{
    if s.len() > 0 {
        lemma_sort_len(s.drop_first(), newest_first);
        lemma_insert_len(s[0], sort_by_time(s.drop_first(), newest_first), newest_first);
    }
}

proof fn lemma_insert_len(x: ExampleView, s: Seq<ExampleView>, newest_first: bool)
    ensures
        insert_by_time(x, s, newest_first).len() == s.len() + 1,
    decreases s.len(),
{
    if s.len() > 0 {
        lemma_insert_len(x, s.drop_first(), newest_first);
    }
}

fn before_in_time(a: &str, b: &str, newest_first: bool) -> (r: bool)
    ensures
        r == goes_before(a@, b@, newest_first),
{
    if newest_first {
        !str_lt(a, b)
    } else {
        !str_lt(b, a)
    }
}

fn insert_example_by_time(v: &mut Vec<FewShotExample>, x: FewShotExample, newest_first: bool)
    ensures
        views(final(v)@) == insert_by_time(x@, views(old(v)@), newest_first),
{
    let ghost s = views(v@);
    let mut p: usize = 0;
    assert(s.skip(0) =~= s);
    loop
        invariant
            p <= v@.len(),
            v@ == old(v)@,
            s == views(v@),
            insert_by_time(x@, s, newest_first) == s.take(p as int) + insert_by_time(x@, s.skip(p as int), newest_first),
        ensures
            p <= v@.len(),
            v@ == old(v)@,
            s == views(v@),
            insert_by_time(x@, s, newest_first) == s.take(p as int) + insert_by_time(x@, s.skip(p as int), newest_first),
            p == v@.len() || goes_before(x@.recorded_at, s[p as int].recorded_at, newest_first),
        decreases v@.len() - p,
    {
        if p == v.len() {
            break;
        }
        if before_in_time(x.recorded_at.as_str(), v[p].recorded_at.as_str(), newest_first) {
            break;
        }
        proof {
            assert(s.skip(p as int)[0] == s[p as int]);
            assert(s.skip(p as int).drop_first() =~= s.skip(p + 1));
            assert(s.take(p + 1) =~= s.take(p as int) + seq![s[p as int]]);
        }
        p += 1;
    }
    let ghost xv = x@;
    v.insert(p, x);
    proof {
        if p < s.len() {
            assert(s.skip(p as int)[0] == s[p as int]);
        } else {
            assert(s.skip(p as int) =~= Seq::<ExampleView>::empty());
        }
        assert(insert_by_time(xv, s.skip(p as int), newest_first) =~= seq![xv] + s.skip(p as int));
        assert(views(v@) =~= s.take(p as int) + (seq![xv] + s.skip(p as int)));
    }
}

/// Examples sorted by recording time (see `sort_by_time`).
fn sort_examples(v: Vec<FewShotExample>, newest_first: bool) -> (r: Vec<FewShotExample>)
    ensures
        views(r@) == sort_by_time(views(v@), newest_first),
{
    let ghost s = views(v@);
    let mut src = v;
    let mut out: Vec<FewShotExample> = Vec::new();
    assert(s.skip(s.len() as int) =~= Seq::<ExampleView>::empty());
    while src.len() > 0
        invariant
            src@.len() <= s.len(),
            views(src@) == s.take(src@.len() as int),
            views(out@) == sort_by_time(s.skip(src@.len() as int), newest_first),
        decreases src@.len(),
    {
        let ghost k = src@.len() as int;
        let ghost before = src@;
        let x = src.pop().unwrap();
        proof {
            assert(x == before[k - 1]);
            assert(views(before)[k - 1] == s.take(k)[k - 1]);
            assert(x@ == s[k - 1]);
            assert(views(src@) =~= s.take(k - 1));
            assert(s.skip(k - 1).drop_first() =~= s.skip(k));
            assert(s.skip(k - 1)[0] == s[k - 1]);
        }
        insert_example_by_time(&mut out, x, newest_first);
    }
    assert(s.skip(0) =~= s);
    out
}

// ------------------------------------------------------------- manager

/// The key of a task type and language: `<task_type>_<language>`, with
/// `*` standing for any language.
pub open spec fn example_key(task_type: Seq<char>, language: Option<Seq<char>>) -> Seq<char> {
    task_type + "_"@ + match language {
        Some(l) => l,
        None => "*"@,
    }
}

/// Examples grouped under their keys.
pub type Groups = Seq<(Seq<char>, Seq<ExampleView>)>;

/// The position of the first group with a key (the number of groups when
/// there is none).
pub open spec fn group_index(g: Groups, key: Seq<char>) -> nat
    decreases g.len(),
{
    if g.len() == 0 {
        0
    } else if g[0].0 == key {
        0
    } else {
        1 + group_index(g.drop_first(), key)
    }
}

/// The examples stored under a key.
pub open spec fn group_entries(g: Groups, key: Seq<char>) -> Seq<ExampleView> {
    let i = group_index(g, key);
    if i < g.len() {
        g[i as int].1
    } else {
        Seq::empty()
    }
}

/// The number of stored examples.
pub open spec fn total_examples(g: Groups) -> nat
    decreases g.len(),
{
    if g.len() == 0 {
        0
    } else {
        total_examples(g.drop_last()) + g.last().1.len()
    }
}

/// All stored examples, group by group.
pub open spec fn all_examples(g: Groups) -> Seq<ExampleView> {
    g.map_values(|grp: (Seq<char>, Seq<ExampleView>)| grp.1).flatten()
}

/// The groups after an example is added under its key: when the group is
/// full, only its newest `max_per - 1` examples stay; the new example goes
/// last; a new key opens a group at the end.
pub open spec fn with_example(g: Groups, ex: ExampleView, max_per: nat) -> Groups {
    let key = example_key(ex.task_type, ex.language);
    let i = group_index(g, key);
    let entries = group_entries(g, key);
    let kept = if entries.len() >= max_per {
        sort_by_time(entries, true).take(max_per - 1)
    } else {
        entries
    };
    if i < g.len() {
        g.update(i as int, (key, kept.push(ex)))
    } else {
        g.push((key, kept.push(ex)))
    }
}

/// How many of `n` examples a pruning removes: a fifth, rounded up.
pub open spec fn prune_count(n: nat) -> nat {
    (n + 4) / 5
}

/// The examples whose id is not listed.
pub open spec fn unlisted(s: Seq<ExampleView>, ids: Seq<Seq<char>>) -> Seq<ExampleView> {
    s.filter(|e: ExampleView| !ids.contains(e.id))
}

/// The ids of the oldest fifth (rounded up) of all examples.
pub open spec fn oldest_ids(g: Groups) -> Seq<Seq<char>> {
    let all = all_examples(g);
    sort_by_time(all, false).take(prune_count(all.len()) as int).map_values(|e: ExampleView| e.id)
}

/// The groups without the examples whose id is listed.
pub open spec fn without_ids(g: Groups, ids: Seq<Seq<char>>) -> Groups {
    g.map_values(|grp: (Seq<char>, Seq<ExampleView>)| (grp.0, unlisted(grp.1, ids)))
}

/// The groups after a recording: the example added, then, when more than
/// `max_total` examples are stored, those sharing an id with the oldest
/// fifth removed.
pub open spec fn after_record(g: Groups, ex: ExampleView, max_per: nat, max_total: nat) -> Groups {
    let g1 = with_example(g, ex, max_per);
    if total_examples(g1) > max_total {
        without_ids(g1, oldest_ids(g1))
    } else {
        g1
    }
}

/// Examples other than those whose id is already among the candidates,
/// appended in order.
pub open spec fn add_unseen(cands: Seq<ExampleView>, s: Seq<ExampleView>) -> Seq<ExampleView>
    decreases s.len(),
{
    if s.len() == 0 {
        cands
    } else {
        let next = if cands.map_values(|c: ExampleView| c.id).contains(s[0].id) {
            cands
        } else {
            cands.push(s[0])
        };
        add_unseen(next, s.drop_first())
    }
}

/// The leading examples whose token counts, added up, stay within a budget.
pub open spec fn take_fitting(s: Seq<ExampleView>, used: nat, budget: nat) -> Seq<ExampleView>
    decreases s.len(),
{
    if s.len() == 0 {
        s
    } else if used + s[0].estimated_tokens <= budget {
        seq![s[0]] + take_fitting(s.drop_first(), used + s[0].estimated_tokens, budget)
    } else {
        Seq::empty()
    }
}

/// The examples selected for a task type and language: those of that
/// language, then (when fewer than `max_count`) the language-free ones not
/// yet present; newest first; at most `max_count`, within the token budget.
pub open spec fn selection(
    g: Groups,
    task_type: Seq<char>,
    language: Option<Seq<char>>,
    max_count: nat,
    budget: nat,
) -> Seq<ExampleView> {
    let exact = group_entries(g, example_key(task_type, language));
    let cands = if exact.len() < max_count {
        add_unseen(exact, group_entries(g, example_key(task_type, None)))
    } else {
        exact
    };
    let sorted = sort_by_time(cands, true);
    let first = if max_count < sorted.len() {
        sorted.take(max_count as int)
    } else {
        sorted
    };
    take_fitting(first, 0, budget)
}

/// The views of stored groups.
pub open spec fn group_views(v: Seq<(String, Vec<FewShotExample>)>) -> Groups {
    v.map_values(|grp: (String, Vec<FewShotExample>)| (grp.0@, views(grp.1@)))
}

/// Manager for few-shot examples.
#[derive(Debug)]
pub struct FewShotManager {
    /// Stored examples, under their task type and language key.
    examples: Vec<(String, Vec<FewShotExample>)>,
    /// Maximum examples per (task_type, language) pair.
    max_per_category: usize,
    /// Maximum total examples to store.
    max_total: usize,
}

/// The key of a task type and language.
fn make_key(task_type: &str, language: Option<&str>) -> (k: String)
    ensures
        k@ == example_key(task_type@, match language {
            Some(l) => Some(l@),
            None => None,
        }),
{
    let mut k = task_type.to_owned();
    push_str(&mut k, "_");
    match language {
        Some(l) => push_str(&mut k, l),
        None => push_str(&mut k, "*"),
    }
    k
}

proof fn lemma_group_index(g: Groups, key: Seq<char>)
    ensures
        group_index(g, key) <= g.len(),
        group_index(g, key) < g.len() ==> g[group_index(g, key) as int].0 == key,
    decreases g.len(),
{
    if g.len() > 0 && g[0].0 != key {
        lemma_group_index(g.drop_first(), key);
    }
}

proof fn lemma_total_prefix(g: Groups, j: int)
    requires
        0 <= j <= g.len(),
    ensures
        total_examples(g.take(j)) <= total_examples(g),
    decreases g.len(),
{
    if j < g.len() {
        assert(g.drop_last().take(j) =~= g.take(j));
        lemma_total_prefix(g.drop_last(), j);
    } else {
        assert(g.take(j) =~= g);
    }
}

fn contains_id(ids: &Vec<String>, id: &str) -> (r: bool)
    ensures
        r == string_views(ids@).contains(id@),
{
    let mut i: usize = 0;
    while i < ids.len()
        invariant
            i <= ids@.len(),
            forall|k: int| 0 <= k < i ==> string_views(ids@)[k] != id@,
        decreases ids@.len() - i,
    {
        if str_eq(ids[i].as_str(), id) {
            assert(string_views(ids@)[i as int] == id@);
            return true;
        }
        i += 1;
    }
    false
}

/// The examples whose id is not listed.
fn keep_unlisted(entries: &Vec<FewShotExample>, ids: &Vec<String>) -> (r: Vec<FewShotExample>)
    ensures
        views(r@) == unlisted(views(entries@), string_views(ids@)),
{
    let ghost pred = |e: ExampleView| !string_views(ids@).contains(e.id);
    let mut r: Vec<FewShotExample> = Vec::new();
    let mut i: usize = 0;
    while i < entries.len()
        invariant
            i <= entries@.len(),
            pred == (|e: ExampleView| !string_views(ids@).contains(e.id)),
            views(r@) == views(entries@).take(i as int).filter(pred),
        decreases entries@.len() - i,
    {
        proof {
            assert(views(entries@).take(i + 1).drop_last() == views(entries@).take(i as int));
            assert(views(entries@).take(i + 1).last() == entries@[i as int]@);
            reveal_with_fuel(Seq::filter, 1);
        }
        if !contains_id(ids, entries[i].id.as_str()) {
            let ghost before = r@;
            r.push(clone_example(&entries[i]));
            assert(views(r@) =~= views(before).push(entries@[i as int]@));
        }
        i += 1;
    }
    assert(views(entries@).take(entries@.len() as int) == views(entries@));
    r
}

impl FewShotManager {
    /// The stored examples, under their keys.
    pub closed spec fn groups(&self) -> Groups {
        group_views(self.examples@)
    }

    /// The most examples kept per key.
    pub closed spec fn per_category_limit(&self) -> nat {
        self.max_per_category as nat
    }

    /// The most examples kept in all.
    pub closed spec fn total_limit(&self) -> nat {
        self.max_total as nat
    }

    /// A manager with no examples and the given limits.
    pub fn new(max_per_category: usize, max_total: usize) -> (m: Self)
        ensures
            m.groups() == Seq::<(Seq<char>, Seq<ExampleView>)>::empty(),
            m.per_category_limit() == max_per_category,
            m.total_limit() == max_total,
    {
        let m = FewShotManager { examples: Vec::new(), max_per_category, max_total };
        assert(m.groups() =~= Seq::<(Seq<char>, Seq<ExampleView>)>::empty());
        m
    }

    fn find_group(&self, key: &str) -> (i: usize)
        ensures
            i == group_index(self.groups(), key@),
            i <= self.groups().len(),
    {
        let ghost g = self.groups();
        let mut i: usize = 0;
        assert(g.skip(0) =~= g);
        while i < self.examples.len()
            invariant
                i <= self.examples@.len(),
                g == self.groups(),
                g.len() == self.examples@.len(),
                group_index(g, key@) == i + group_index(g.skip(i as int), key@),
            decreases self.examples@.len() - i,
        {
            assert(g.skip(i as int)[0] == g[i as int]);
            if str_eq(self.examples[i].0.as_str(), key) {
                return i;
            }
            assert(g.skip(i as int).drop_first() =~= g.skip(i + 1));
            i += 1;
        }
        assert(g.skip(i as int).len() == 0);
        i
    }

    fn total_exceeds_limit(&self) -> (r: bool)
        ensures
            r == (total_examples(self.groups()) > self.max_total),
    {
        let ghost g = self.groups();
        let mut sum: usize = 0;
        let mut i: usize = 0;
        while i < self.examples.len()
            invariant
                i <= self.examples@.len(),
                g == self.groups(),
                g.len() == self.examples@.len(),
                sum == total_examples(g.take(i as int)),
                sum <= self.max_total,
            decreases self.examples@.len() - i,
        {
            let n = self.examples[i].1.len();
            proof {
                assert(g.take(i + 1).drop_last() =~= g.take(i as int));
                assert(g.take(i + 1).last().1.len() == n);
                lemma_total_prefix(g, i + 1);
            }
            if n > self.max_total - sum {
                return true;
            }
            sum += n;
            i += 1;
        }
        assert(g.take(i as int) =~= g);
        false
    }

    /// The number of stored examples.
    pub fn total_count(&self) -> (n: usize)
        requires
            total_examples(self.groups()) <= usize::MAX,
        ensures
            n == total_examples(self.groups()),
    {
        let ghost g = self.groups();
        let mut sum: usize = 0;
        let mut i: usize = 0;
        while i < self.examples.len()
            invariant
                i <= self.examples@.len(),
                g == self.groups(),
                g.len() == self.examples@.len(),
                sum == total_examples(g.take(i as int)),
                total_examples(g) <= usize::MAX,
            decreases self.examples@.len() - i,
        {
            proof {
                assert(g.take(i + 1).drop_last() =~= g.take(i as int));
                lemma_total_prefix(g, i + 1);
            }
            sum += self.examples[i].1.len();
            i += 1;
        }
        assert(g.take(i as int) =~= g);
        sum
    }

    /// Removes all examples.
    pub fn clear(&mut self)
        ensures
            final(self).groups() == Seq::<(Seq<char>, Seq<ExampleView>)>::empty(),
            final(self).per_category_limit() == old(self).per_category_limit(),
            final(self).total_limit() == old(self).total_limit(),
    {
        self.examples.clear();
        assert(self.groups() =~= Seq::<(Seq<char>, Seq<ExampleView>)>::empty());
    }

    /// Removes the examples sharing an id with the oldest fifth (rounded
    /// up) of all examples.
    fn prune_oldest(&mut self)
        ensures
            final(self).groups() == without_ids(old(self).groups(), oldest_ids(old(self).groups())),
            final(self).max_per_category == old(self).max_per_category,
            final(self).max_total == old(self).max_total,
    {
        let ghost g = self.groups();
        let mut all: Vec<FewShotExample> = Vec::new();
        let mut i: usize = 0;
        while i < self.examples.len()
            invariant
                i <= self.examples@.len(),
                g == self.groups(),
                g.len() == self.examples@.len(),
                views(all@) == g.take(i as int).map_values(|grp: (Seq<char>, Seq<ExampleView>)| grp.1).flatten(),
            decreases self.examples@.len() - i,
        {
            let entries = &self.examples[i].1;
            let ghost head = views(all@);
            let mut j: usize = 0;
            while j < entries.len()
                invariant
                    j <= entries@.len(),
                    views(all@) == head + views(entries@).take(j as int),
                decreases entries@.len() - j,
            {
                let ghost before = all@;
                all.push(clone_example(&entries[j]));
                assert(views(all@) =~= views(before).push(entries@[j as int]@));
                assert(views(entries@).take(j + 1) =~= views(entries@).take(j as int).push(entries@[j as int]@));
                j += 1;
            }
            proof {
                let f = |grp: (Seq<char>, Seq<ExampleView>)| grp.1;
                let prev = g.take(i as int).map_values(f);
                assert(g.take(i + 1).map_values(f) =~= prev.push(g[i as int].1));
                prev.lemma_flatten_push(g[i as int].1);
                assert(views(entries@).take(j as int) =~= g[i as int].1);
            }
            i += 1;
        }
        assert(g.take(i as int) =~= g);
        let n = all.len();
        let sorted = sort_examples(all, false);
        proof {
            lemma_sort_len(views(all@), false);
        }
        let k = n / 5 + if n % 5 == 0 { 0 } else { 1 };
        assert(k == prune_count(n as nat));
        let mut ids: Vec<String> = Vec::new();
        let mut t: usize = 0;
        while t < k
            invariant
                t <= k <= sorted@.len(),
                string_views(ids@) == views(sorted@).take(t as int).map_values(|e: ExampleView| e.id),
            decreases k - t,
        {
            let ghost before = ids@;
            ids.push(sorted[t].id.clone());
            proof {
                assert(string_views(ids@) =~= string_views(before).push(sorted@[t as int].id@));
                assert(views(sorted@).take(t + 1).map_values(|e: ExampleView| e.id) =~= views(sorted@).take(
                    t as int,
                ).map_values(|e: ExampleView| e.id).push(sorted@[t as int].id@));
            }
            t += 1;
        }
        assert(string_views(ids@) == oldest_ids(g));
        let ghost target = without_ids(g, oldest_ids(g));
        let mut i: usize = 0;
        while i < self.examples.len()
            invariant
                i <= self.examples@.len(),
                g.len() == self.examples@.len(),
                string_views(ids@) == oldest_ids(g),
                target == without_ids(g, oldest_ids(g)),
                forall|j: int| 0 <= j < i ==> #[trigger] self.groups()[j] == target[j],
                forall|j: int| i <= j < g.len() ==> #[trigger] self.groups()[j] == g[j],
                self.max_per_category == old(self).max_per_category,
                self.max_total == old(self).max_total,
            decreases self.examples@.len() - i,
        {
            let ghost before = self.examples@;
            assert(self.groups()[i as int] == g[i as int]);
            assert(group_views(before)[i as int] == (before[i as int].0@, views(before[i as int].1@)));
            let (key, entries) = self.examples.remove(i);
            let kept = keep_unlisted(&entries, &ids);
            assert(views(kept@) == unlisted(g[i as int].1, oldest_ids(g)));
            self.examples.insert(i, (key, kept));
            proof {
                assert(self.examples@ =~= before.update(i as int, (key, kept)));
                assert(self.groups()[i as int] == target[i as int]);
                assert forall|j: int| 0 <= j < g.len() && j != i implies #[trigger] self.groups()[j] == group_views(
                    before,
                )[j] by {
                    assert(self.examples@[j] == before[j]);
                }
            }
            i += 1;
        }
        assert(self.groups() =~= target);
    }

    /// Adds an example under its task type and language (see
    /// `after_record`).
    pub fn insert_example(&mut self, example: FewShotExample)
        requires
            old(self).per_category_limit() > 0,
        ensures
            final(self).groups() == after_record(
                old(self).groups(),
                example@,
                old(self).per_category_limit(),
                old(self).total_limit(),
            ),
            final(self).per_category_limit() == old(self).per_category_limit(),
            final(self).total_limit() == old(self).total_limit(),
    {
        let ghost g = self.groups();
        let ghost ev = example@;
        let key = make_key(
            example.task_type.as_str(),
            match &example.language {
                Some(l) => Some(l.as_str()),
                None => None,
            },
        );
        assert(key@ == example_key(ev.task_type, ev.language));
        let i = self.find_group(key.as_str());
        proof {
            lemma_group_index(g, key@);
        }
        let ghost g1 = with_example(g, ev, self.max_per_category as nat);
        if i < self.examples.len() {
            let ghost before = self.examples@;
            let (k, entries) = self.examples.remove(i);
            assert(views(entries@) == group_entries(g, key@));
            let mut entries = entries;
            if entries.len() >= self.max_per_category {
                proof {
                    lemma_sort_len(views(entries@), true);
                }
                let mut sorted = sort_examples(entries, true);
                sorted.truncate(self.max_per_category - 1);
                assert(views(sorted@) =~= sort_by_time(group_entries(g, key@), true).take(
                    self.max_per_category - 1,
                ));
                entries = sorted;
            }
            let ghost kept = views(entries@);
            entries.push(example);
            assert(views(entries@) =~= kept.push(ev));
            self.examples.insert(i, (k, entries));
            proof {
                assert(self.examples@ =~= before.update(i as int, (k, entries)));
                assert(k@ == key@);
                assert(self.groups() =~= g1);
            }
        } else {
            let mut entries: Vec<FewShotExample> = Vec::new();
            entries.push(example);
            let ghost before = self.examples@;
            self.examples.push((key, entries));
            proof {
                assert(views(entries@) =~= Seq::<ExampleView>::empty().push(ev));
                assert(self.groups() =~= g1);
            }
        }
        if self.total_exceeds_limit() {
            self.prune_oldest();
        }
    }
}

// -------------------------------------------------- outside calls

/// The current time in RFC 3339 form (chrono `Utc::now().to_rfc3339()`).
/// It is the clock's reading; nothing is stated of it.
#[verifier::external_body]
pub(crate) fn now_rfc3339() -> (r: String) {
    chrono::Utc::now().to_rfc3339()
}

/// The compact JSON text serde_json writes for a value (`to_string`, the
/// empty text on failure).
pub uninterp spec fn json_compact_text(v: Value) -> Seq<char>;

/// The pretty-printed JSON text serde_json writes for a value
/// (`to_string_pretty`, the empty text on failure).
pub uninterp spec fn json_pretty_text(v: Value) -> Seq<char>;

/// The compact JSON text of a value (serde_json `to_string`, empty on
/// failure).
#[verifier::external_body]
fn json_text(v: &Value) -> (r: String)
    ensures
        r@ == json_compact_text(*v),
{
    serde_json::to_string(v).unwrap_or_default()
}

/// The pretty-printed JSON text of a value (serde_json
/// `to_string_pretty`, empty on failure).
#[verifier::external_body]
fn json_pretty(v: &Value) -> (r: String)
    ensures
        r@ == json_pretty_text(*v),
{
    serde_json::to_string_pretty(v).unwrap_or_default()
}

/// The token estimate of an example: those of the compact JSON texts of
/// its input and output and of its tool trace joined by spaces, summed
/// with saturation.
pub open spec fn example_tokens(input: Value, output: Value, trace: Seq<Seq<char>>) -> nat {
    sat(
        sat(capped_tokens(json_compact_text(input)) + capped_tokens(json_compact_text(output)))
            + capped_tokens(join_seqs(trace, " "@)),
    )
}

/// The length of the array under a key of a JSON value, or 0 when there is
/// no such array.
pub open spec fn array_len_under(v: Value, key: Seq<char>) -> nat {
    match json_array_under(v, key) {
        Some(items) => items.len(),
        None => 0,
    }
}

/// The pretty-printed JSON input of each example, in order.
pub open spec fn example_inputs(es: Seq<ExampleView>) -> Seq<Seq<char>> {
    es.map_values(|e: ExampleView| json_pretty_text(e.input))
}

/// The (entities, files) array lengths of each example's output, in order.
pub open spec fn example_counts(es: Seq<ExampleView>) -> Seq<(nat, nat)> {
    es.map_values(|e: ExampleView| (array_len_under(e.output, "entities"@), array_len_under(e.output, "files"@)))
}

/// The token estimate of a text; a text too long for the estimate to be
/// computed counts the largest `usize`.
pub open spec fn capped_tokens(t: Seq<char>) -> nat {
    if t.len() <= usize::MAX / 16 {
        spec_estimate_tokens(t)
    } else {
        usize::MAX as nat
    }
}

/// A sum saturating at the largest `usize`.
pub open spec fn sat(n: nat) -> nat {
    if n <= usize::MAX {
        n
    } else {
        usize::MAX as nat
    }
}

/// The token estimate of a text (see `capped_tokens`).
pub fn text_tokens(t: &str) -> (r: usize)
    ensures
        r == capped_tokens(t@),
{
    let n = chars_of(t).len();
    if n <= usize::MAX / 16 {
        estimate_tokens(t)
    } else {
        usize::MAX
    }
}

/// `a + b`, saturating at the largest `usize`.
pub fn saturating_sum(a: usize, b: usize) -> (r: usize)
    ensures
        r == sat((a + b) as nat),
{
    if a <= usize::MAX - b {
        a + b
    } else {
        usize::MAX
    }
}

/// The view of an optional string slice.
pub open spec fn str_opt_view(o: Option<&str>) -> Option<Seq<char>> {
    match o {
        Some(l) => Some(l@),
        None => None,
    }
}

fn has_id(cands: &Vec<FewShotExample>, id: &str) -> (r: bool)
    ensures
        r == views(cands@).map_values(|c: ExampleView| c.id).contains(id@),
{
    let ghost ids = views(cands@).map_values(|c: ExampleView| c.id);
    let mut i: usize = 0;
    while i < cands.len()
        invariant
            i <= cands@.len(),
            ids == views(cands@).map_values(|c: ExampleView| c.id),
            forall|k: int| 0 <= k < i ==> ids[k] != id@,
        decreases cands@.len() - i,
    {
        if str_eq(cands[i].id.as_str(), id) {
            assert(ids[i as int] == id@);
            return true;
        }
        i += 1;
    }
    false
}

/// The opening line of a block of examples.
pub open spec fn examples_header() -> Seq<char> {
    "\n─── FEW-SHOT EXAMPLES ───\n"@
}

/// The lines of the `n`-th example (counting from 1), given the JSON text
/// of its input and the numbers of entities and files in its output.
pub open spec fn example_lines(n: nat, e: ExampleView, input_text: Seq<char>, entities: nat, files: nat) -> Seq<
    Seq<char>,
> {
    seq!["【Example "@ + decimal(n) + " of successful "@ + e.task_type + "】"@, "  Input: "@ + input_text] + (if e.tool_trace.len()
        > 0 {
        seq!["  Tool calls made: "@ + join_seqs(e.tool_trace, " → "@)]
    } else {
        Seq::empty()
    }) + seq!["  Output pattern: "@ + decimal(entities) + " entities, "@ + decimal(files) + " files"@]
}

/// The lines of the examples, in order.
pub open spec fn examples_body(es: Seq<ExampleView>, inputs: Seq<Seq<char>>, counts: Seq<(nat, nat)>) -> Seq<
    Seq<char>,
>
    decreases es.len(),
{
    if es.len() == 0 {
        Seq::empty()
    } else {
        let k = es.len() - 1;
        examples_body(es.drop_last(), inputs, counts) + example_lines(
            es.len(),
            es.last(),
            inputs[k],
            counts[k].0,
            counts[k].1,
        )
    }
}

/// The prompt text of some examples: a header, the lines of each example,
/// one per line, and a closing newline; nothing for no examples.
pub open spec fn examples_text(es: Seq<ExampleView>, inputs: Seq<Seq<char>>, counts: Seq<(nat, nat)>) -> Seq<char> {
    if es.len() == 0 {
        Seq::empty()
    } else {
        join_seqs(seq![examples_header()] + examples_body(es, inputs, counts) + seq![Seq::<char>::empty()], "\n"@)
    }
}

/// The views of some (entities, files) counts.
pub open spec fn count_views(c: Seq<(usize, usize)>) -> Seq<(nat, nat)> {
    c.map_values(|p: (usize, usize)| (p.0 as nat, p.1 as nat))
}

fn push_line(lines: &mut Vec<String>, line: String)
    ensures
        string_views(final(lines)@) == string_views(old(lines)@).push(line@),
{
    lines.push(line);
    assert(string_views(lines@) =~= string_views(old(lines)@).push(line@));
}

/// The prompt text of some examples, given the JSON text of each input
/// and the (entities, files) counts of each output.
pub fn render_examples(examples: &[FewShotExample], inputs: &Vec<String>, counts: &Vec<(usize, usize)>) -> (r: String)
    requires
        inputs@.len() == examples@.len(),
        counts@.len() == examples@.len(),
    ensures
        r@ == examples_text(views(examples@), string_views(inputs@), count_views(counts@)),
{
    let ghost es = views(examples@);
    let ghost ins = string_views(inputs@);
    let ghost cs = count_views(counts@);
    if examples.len() == 0 {
        return String::new();
    }
    let mut lines: Vec<String> = Vec::new();
    push_line(&mut lines, "\n─── FEW-SHOT EXAMPLES ───\n".to_owned());
    let mut i: usize = 0;
    while i < examples.len()
        invariant
            i <= examples@.len(),
            inputs@.len() == examples@.len(),
            counts@.len() == examples@.len(),
            es == views(examples@),
            ins == string_views(inputs@),
            cs == count_views(counts@),
            string_views(lines@) == seq![examples_header()] + examples_body(es.take(i as int), ins, cs),
        decreases examples@.len() - i,
    {
        let ex = &examples[i];
        let ghost head = string_views(lines@);
        let mut first = "【Example ".to_owned();
        let num = usize_to_string(i + 1);
        push_str(&mut first, num.as_str());
        push_str(&mut first, " of successful ");
        push_str(&mut first, ex.task_type.as_str());
        push_str(&mut first, "】");
        push_line(&mut lines, first);
        let mut second = "  Input: ".to_owned();
        push_str(&mut second, inputs[i].as_str());
        push_line(&mut lines, second);
        let ghost mid = string_views(lines@);
        if ex.tool_trace.len() > 0 {
            let mut third = "  Tool calls made: ".to_owned();
            let joined = join_strings(&ex.tool_trace, " → ");
            push_str(&mut third, joined.as_str());
            push_line(&mut lines, third);
        }
        let ghost mid2 = string_views(lines@);
        let mut last = "  Output pattern: ".to_owned();
        let e = usize_to_string(counts[i].0);
        push_str(&mut last, e.as_str());
        push_str(&mut last, " entities, ");
        let f = usize_to_string(counts[i].1);
        push_str(&mut last, f.as_str());
        push_str(&mut last, " files");
        push_line(&mut lines, last);
        proof {
            let ev = examples@[i as int]@;
            let ls = example_lines((i + 1) as nat, ev, ins[i as int], cs[i as int].0, cs[i as int].1);
            assert(es.take(i + 1).drop_last() =~= es.take(i as int));
            assert(es.take(i + 1).last() == ev);
            assert(mid2 == mid + (if ev.tool_trace.len() > 0 {
                seq!["  Tool calls made: "@ + join_seqs(ev.tool_trace, " → "@)]
            } else {
                Seq::<Seq<char>>::empty()
            }));
            assert(string_views(lines@) =~= head + ls);
        }
        i += 1;
    }
    assert(es.take(examples@.len() as int) =~= es);
    push_line(&mut lines, String::new());
    assert(string_views(lines@) =~= seq![examples_header()] + examples_body(es, ins, cs) + seq![Seq::<char>::empty()]);
    join_strings(&lines, "\n")
}

impl FewShotManager {
    /// Records a successful task as a new example: a fresh id, the current
    /// time and a token estimate of its JSON texts and tool trace, stored
    /// as `insert_example` stores it.
    pub fn record(
        &mut self,
        task_type: &str,
        language: Option<&str>,
        input: Value,
        output: Value,
        tool_trace: Vec<String>,
    )
        requires
            old(self).per_category_limit() > 0,
        ensures
            exists|ex: ExampleView|
                {
                    &&& ex.task_type == task_type@
                    &&& ex.language == str_opt_view(language)
                    &&& ex.input == input
                    &&& ex.output == output
                    &&& ex.tool_trace == string_views(tool_trace@)
                    &&& ex.estimated_tokens == example_tokens(input, output, string_views(tool_trace@))
                    &&& final(self).groups() == after_record(
                        old(self).groups(),
                        ex,
                        old(self).per_category_limit(),
                        old(self).total_limit(),
                    )
                },
            final(self).per_category_limit() == old(self).per_category_limit(),
            final(self).total_limit() == old(self).total_limit(),
    {
        let recorded_at = now_rfc3339();
        let input_text = json_text(&input);
        let output_text = json_text(&output);
        let trace_text = join_strings(&tool_trace, " ");
        let tokens = saturating_sum(
            saturating_sum(text_tokens(input_text.as_str()), text_tokens(output_text.as_str())),
            text_tokens(trace_text.as_str()),
        );
        let example = FewShotExample {
            id: new_uuid_string(),
            task_type: task_type.to_owned(),
            language: match language {
                Some(l) => Some(l.to_owned()),
                None => None,
            },
            input,
            output,
            tool_trace,
            recorded_at,
            estimated_tokens: tokens,
        };
        self.insert_example(example);
    }

    /// The examples best matching a task type and language (see
    /// `selection`).
    pub fn select(&self, task_type: &str, language: Option<&str>, max_count: usize, max_total_tokens: usize) -> (r: Vec<
        FewShotExample,
    >)
        ensures
            views(r@) == selection(self.groups(), task_type@, str_opt_view(language), max_count as nat, max_total_tokens as nat),
    {
        let ghost g = self.groups();
        let key = make_key(task_type, language);
        let i = self.find_group(key.as_str());
        proof {
            lemma_group_index(g, key@);
        }
        let mut cands: Vec<FewShotExample> = Vec::new();
        if i < self.examples.len() {
            let entries = &self.examples[i].1;
            let mut j: usize = 0;
            while j < entries.len()
                invariant
                    j <= entries@.len(),
                    views(cands@) == views(entries@).take(j as int),
                decreases entries@.len() - j,
            {
                let ghost before = cands@;
                cands.push(clone_example(&entries[j]));
                assert(views(cands@) =~= views(before).push(entries@[j as int]@));
                assert(views(entries@).take(j + 1) =~= views(entries@).take(j as int).push(entries@[j as int]@));
                j += 1;
            }
            assert(views(entries@).take(j as int) =~= views(entries@));
        } else {
            assert(views(cands@) =~= Seq::<ExampleView>::empty());
        }
        let ghost exact = views(cands@);
        assert(exact == group_entries(g, example_key(task_type@, str_opt_view(language))));
        if cands.len() < max_count {
            let fkey = make_key(task_type, None);
            let fi = self.find_group(fkey.as_str());
            proof {
                lemma_group_index(g, fkey@);
            }
            if fi < self.examples.len() {
                let fallback = &self.examples[fi].1;
                let ghost fb = views(fallback@);
                let mut j: usize = 0;
                assert(fb.skip(0) =~= fb);
                while j < fallback.len()
                    invariant
                        j <= fallback@.len(),
                        fb == views(fallback@),
                        add_unseen(exact, fb) == add_unseen(views(cands@), fb.skip(j as int)),
                    decreases fallback@.len() - j,
                {
                    proof {
                        assert(fb.skip(j as int)[0] == fb[j as int]);
                        assert(fb.skip(j as int).drop_first() =~= fb.skip(j + 1));
                    }
                    if !has_id(&cands, fallback[j].id.as_str()) {
                        let ghost before = cands@;
                        cands.push(clone_example(&fallback[j]));
                        assert(views(cands@) =~= views(before).push(fb[j as int]));
                    }
                    j += 1;
                }
                assert(fb.skip(j as int) =~= Seq::<ExampleView>::empty());
            } else {
                assert(group_entries(g, fkey@) =~= Seq::<ExampleView>::empty());
            }
        }
        let ghost cv = views(cands@);
        proof {
            lemma_sort_len(cv, true);
        }
        let sorted = sort_examples(cands, true);
        let ghost sv = views(sorted@);
        let limit = if max_count < sorted.len() {
            max_count
        } else {
            sorted.len()
        };
        let ghost first = sv.take(limit as int);
        assert(first == if (max_count as nat) < sv.len() {
            sv.take(max_count as int)
        } else {
            sv
        });
        let mut selected: Vec<FewShotExample> = Vec::new();
        let mut tokens: usize = 0;
        let mut t: usize = 0;
        assert(first.skip(0) =~= first);
        loop
            invariant
                t <= limit <= sorted@.len(),
                sv == views(sorted@),
                first == sv.take(limit as int),
                tokens <= max_total_tokens,
                take_fitting(first, 0, max_total_tokens as nat) == views(selected@) + take_fitting(
                    first.skip(t as int),
                    tokens as nat,
                    max_total_tokens as nat,
                ),
            ensures
                take_fitting(first, 0, max_total_tokens as nat) == views(selected@),
            decreases limit - t,
        {
            if t == limit {
                assert(first.skip(t as int) =~= Seq::<ExampleView>::empty());
                assert(views(selected@) + Seq::<ExampleView>::empty() =~= views(selected@));
                break;
            }
            let est = sorted[t].estimated_tokens;
            assert(first.skip(t as int)[0] == sv[t as int]);
            if est <= max_total_tokens - tokens {
                let ghost before = selected@;
                selected.push(clone_example(&sorted[t]));
                proof {
                    assert(first.skip(t as int).drop_first() =~= first.skip(t + 1));
                    assert(views(selected@) =~= views(before).push(sv[t as int]));
                    assert(views(before) + (seq![sv[t as int]] + take_fitting(
                        first.skip(t + 1),
                        (tokens + est) as nat,
                        max_total_tokens as nat,
                    )) =~= views(selected@) + take_fitting(
                        first.skip(t + 1),
                        (tokens + est) as nat,
                        max_total_tokens as nat,
                    ));
                }
                tokens = tokens + est;
                t += 1;
            } else {
                assert(views(selected@) + Seq::<ExampleView>::empty() =~= views(selected@));
                break;
            }
        }
        selected
    }

    /// Formats examples into a prompt-ready block: for each, its number and
    /// task type, its input as pretty-printed JSON, its tool calls and the
    /// numbers of `entities` and `files` in its output (see
    /// `render_examples`); nothing for no examples.
    pub fn format_examples(examples: &[FewShotExample]) -> (r: String)
        ensures
            r@ == examples_text(views(examples@), example_inputs(views(examples@)), example_counts(views(examples@))),
    {
        let ghost es = views(examples@);
        let mut inputs: Vec<String> = Vec::new();
        let mut counts: Vec<(usize, usize)> = Vec::new();
        let mut i: usize = 0;
        while i < examples.len()
            invariant
                i <= examples@.len(),
                es == views(examples@),
                inputs@.len() == i,
                counts@.len() == i,
                string_views(inputs@) == example_inputs(es.take(i as int)),
                count_views(counts@) == example_counts(es.take(i as int)),
            decreases examples@.len() - i,
        {
            let ghost ib = inputs@;
            let ghost cb = counts@;
            inputs.push(json_pretty(&examples[i].input));
            let entities = match json_array_field(&examples[i].output, "entities") {
                Some(a) => a.len(),
                None => 0,
            };
            let files = match json_array_field(&examples[i].output, "files") {
                Some(a) => a.len(),
                None => 0,
            };
            counts.push((entities, files));
            proof {
                assert(es[i as int] == examples@[i as int]@);
                assert(string_views(inputs@) =~= string_views(ib).push(json_pretty_text(es[i as int].input)));
                assert(example_inputs(es.take(i + 1)) =~= example_inputs(es.take(i as int)).push(
                    json_pretty_text(es[i as int].input),
                ));
                assert(count_views(counts@) =~= count_views(cb).push((entities as nat, files as nat)));
                assert(example_counts(es.take(i + 1)) =~= example_counts(es.take(i as int)).push(
                    (array_len_under(es[i as int].output, "entities"@), array_len_under(es[i as int].output, "files"@)),
                ));
            }
            i += 1;
        }
        proof {
            assert(es.take(examples@.len() as int) == es);
        }
        render_examples(examples, &inputs, &counts)
    }
}

// ----------------------------------------------------------------- laws

proof fn lemma_group_index_update(g: Groups, key: Seq<char>, entries: Seq<ExampleView>)
    requires
        group_index(g, key) < g.len(),
    ensures
        group_index(g.update(group_index(g, key) as int, (key, entries)), key) == group_index(g, key),
    decreases g.len(),
{
    if g[0].0 != key {
        lemma_group_index_update(g.drop_first(), key, entries);
        assert(g.update(group_index(g, key) as int, (key, entries)).drop_first() =~= g.drop_first().update(
            group_index(g.drop_first(), key) as int,
            (key, entries),
        ));
    }
}

proof fn lemma_group_index_push(g: Groups, key: Seq<char>, entries: Seq<ExampleView>)
    requires
        group_index(g, key) == g.len(),
    ensures
        group_index(g.push((key, entries)), key) == g.len(),
    decreases g.len(),
{
    if g.len() > 0 {
        lemma_group_index_push(g.drop_first(), key, entries);
        assert(g.push((key, entries)).drop_first() =~= g.drop_first().push((key, entries)));
    }
}

proof fn lemma_group_index_without(g: Groups, ids: Seq<Seq<char>>, key: Seq<char>)
    ensures
        group_index(without_ids(g, ids), key) == group_index(g, key),
    decreases g.len(),
{
    if g.len() > 0 {
        lemma_group_index_without(g.drop_first(), ids, key);
        assert(without_ids(g, ids).drop_first() =~= without_ids(g.drop_first(), ids));
    }
}

/// After an example is recorded, the examples stored under its task type
/// and language number at most the per-category limit.
pub proof fn lemma_record_keeps_category_limit(g: Groups, ex: ExampleView, max_per: nat, max_total: nat)
    requires
        max_per > 0,
    ensures
        group_entries(after_record(g, ex, max_per, max_total), example_key(ex.task_type, ex.language)).len()
            <= max_per,
{
    let key = example_key(ex.task_type, ex.language);
    let entries = group_entries(g, key);
    let kept = if entries.len() >= max_per {
        sort_by_time(entries, true).take(max_per - 1)
    } else {
        entries
    };
    lemma_sort_len(entries, true);
    lemma_group_index(g, key);
    let g1 = with_example(g, ex, max_per);
    if group_index(g, key) < g.len() {
        lemma_group_index_update(g, key, kept.push(ex));
    } else {
        lemma_group_index_push(g, key, kept.push(ex));
    }
    assert(group_entries(g1, key) == kept.push(ex));
    if total_examples(g1) > max_total {
        let ids = oldest_ids(g1);
        lemma_group_index_without(g1, ids, key);
        let i = group_index(g1, key);
        assert(without_ids(g1, ids)[i as int].1 == unlisted(g1[i as int].1, ids));
        g1[i as int].1.lemma_filter_len(|e: ExampleView| !ids.contains(e.id));
    }
}

/// The total token count of some examples.
pub open spec fn tokens_of(s: Seq<ExampleView>) -> nat
    decreases s.len(),
{
    if s.len() == 0 {
        0
    } else {
        s[0].estimated_tokens + tokens_of(s.drop_first())
    }
}

proof fn lemma_take_fitting(s: Seq<ExampleView>, used: nat, budget: nat)
    requires
        used <= budget,
    ensures
        take_fitting(s, used, budget).len() <= s.len(),
        used + tokens_of(take_fitting(s, used, budget)) <= budget,
    decreases s.len(),
{
    if s.len() > 0 && used + s[0].estimated_tokens <= budget {
        lemma_take_fitting(s.drop_first(), used + s[0].estimated_tokens, budget);
        let rest = take_fitting(s.drop_first(), used + s[0].estimated_tokens, budget);
        assert((seq![s[0]] + rest).drop_first() =~= rest);
    }
}

/// The examples selected for a prompt are at most the asked count, and
/// their token counts add up to at most the budget.
pub proof fn lemma_selection_bounds(
    g: Groups,
    task_type: Seq<char>,
    language: Option<Seq<char>>,
    max_count: nat,
    budget: nat,
)
    ensures
        selection(g, task_type, language, max_count, budget).len() <= max_count,
        tokens_of(selection(g, task_type, language, max_count, budget)) <= budget,
{
    let exact = group_entries(g, example_key(task_type, language));
    let cands = if exact.len() < max_count {
        add_unseen(exact, group_entries(g, example_key(task_type, None)))
    } else {
        exact
    };
    let sorted = sort_by_time(cands, true);
    let first = if max_count < sorted.len() {
        sorted.take(max_count as int)
    } else {
        sorted
    };
    lemma_take_fitting(first, 0, budget);
}

proof fn lemma_total_update(g: Groups, i: int, grp: (Seq<char>, Seq<ExampleView>))
    requires
        0 <= i < g.len(),
    ensures
        total_examples(g.update(i, grp)) + g[i].1.len() == total_examples(g) + grp.1.len(),
    decreases g.len(),
{
    if i < g.len() - 1 {
        lemma_total_update(g.drop_last(), i, grp);
        assert(g.update(i, grp).drop_last() =~= g.drop_last().update(i, grp));
    } else {
        assert(g.update(i, grp).drop_last() =~= g.drop_last());
    }
}

proof fn lemma_total_is_all_len(g: Groups)
    ensures
        total_examples(g) == all_examples(g).len(),
    decreases g.len(),
{
    if g.len() > 0 {
        lemma_total_is_all_len(g.drop_last());
        let f = |grp: (Seq<char>, Seq<ExampleView>)| grp.1;
        assert(g.map_values(f) =~= g.drop_last().map_values(f).push(g.last().1));
        g.drop_last().map_values(f).lemma_flatten_push(g.last().1);
    } else {
        assert(g.map_values(|grp: (Seq<char>, Seq<ExampleView>)| grp.1) =~= Seq::<Seq<ExampleView>>::empty());
        assert(Seq::<Seq<ExampleView>>::empty().flatten() =~= Seq::<ExampleView>::empty());
    }
}

proof fn lemma_all_member(g: Groups, x: ExampleView)
    requires
        all_examples(g).contains(x),
    ensures
        exists|j: int| 0 <= j < g.len() && (#[trigger] g[j]).1.contains(x),
    decreases g.len(),
{
    let f = |grp: (Seq<char>, Seq<ExampleView>)| grp.1;
    if g.len() == 0 {
        assert(g.map_values(f) =~= Seq::<Seq<ExampleView>>::empty());
        assert(Seq::<Seq<ExampleView>>::empty().flatten() =~= Seq::<ExampleView>::empty());
    } else {
        assert(g.map_values(f) =~= g.drop_last().map_values(f).push(g.last().1));
        g.drop_last().map_values(f).lemma_flatten_push(g.last().1);
        let head = all_examples(g.drop_last());
        let k = choose|k: int| 0 <= k < all_examples(g).len() && all_examples(g)[k] == x;
        if k < head.len() {
            assert(head[k] == x);
            lemma_all_member(g.drop_last(), x);
            let j = choose|j: int| 0 <= j < g.drop_last().len() && (#[trigger] g.drop_last()[j]).1.contains(x);
            assert(g[j] == g.drop_last()[j]);
        } else {
            assert(g.last().1[k - head.len()] == x);
            assert(g[g.len() - 1].1.contains(x));
        }
    }
}

proof fn lemma_insert_members(x: ExampleView, s: Seq<ExampleView>, newest_first: bool, y: ExampleView)
    requires
        insert_by_time(x, s, newest_first).contains(y),
    ensures
        y == x || s.contains(y),
    decreases s.len(),
{
    let r = insert_by_time(x, s, newest_first);
    let k = choose|k: int| 0 <= k < r.len() && r[k] == y;
    if s.len() > 0 && !goes_before(x.recorded_at, s[0].recorded_at, newest_first) {
        if k > 0 {
            let rest = insert_by_time(x, s.drop_first(), newest_first);
            assert(rest[k - 1] == y);
            lemma_insert_members(x, s.drop_first(), newest_first, y);
            if y != x {
                let m = choose|m: int| 0 <= m < s.drop_first().len() && s.drop_first()[m] == y;
                assert(s[m + 1] == y);
            }
        } else {
            assert(s[0] == y);
        }
    } else if s.len() > 0 {
        if k > 0 {
            assert(s[k - 1] == y);
        }
    }
}

proof fn lemma_sort_members(s: Seq<ExampleView>, newest_first: bool, y: ExampleView)
    requires
        sort_by_time(s, newest_first).contains(y),
    ensures
        s.contains(y),
    decreases s.len(),
{
    if s.len() > 0 {
        lemma_insert_members(s[0], sort_by_time(s.drop_first(), newest_first), newest_first, y);
        if y != s[0] {
            lemma_sort_members(s.drop_first(), newest_first, y);
            let m = choose|m: int| 0 <= m < s.drop_first().len() && s.drop_first()[m] == y;
            assert(s[m + 1] == y);
        } else {
            assert(s[0] == y);
        }
    }
}

proof fn lemma_filter_drops(s: Seq<ExampleView>, ids: Seq<Seq<char>>, x: ExampleView)
    requires
        s.contains(x),
        ids.contains(x.id),
    ensures
        unlisted(s, ids).len() < s.len(),
    decreases s.len(),
{
    let pred = |e: ExampleView| !ids.contains(e.id);
    reveal_with_fuel(Seq::filter, 1);
    let k = choose|k: int| 0 <= k < s.len() && s[k] == x;
    if k == s.len() - 1 {
        s.drop_last().lemma_filter_len(pred);
        assert(s.filter(pred) == s.drop_last().filter(pred));
    } else {
        assert(s.drop_last()[k] == x);
        lemma_filter_drops(s.drop_last(), ids, x);
    }
}

proof fn lemma_without_total(g: Groups, ids: Seq<Seq<char>>, j: int, x: ExampleView)
    requires
        0 <= j < g.len(),
        g[j].1.contains(x),
        ids.contains(x.id),
    ensures
        total_examples(without_ids(g, ids)) < total_examples(g),
    decreases g.len(),
{
    lemma_without_total_le(g.drop_last(), ids);
    let w = without_ids(g, ids);
    assert(w.drop_last() =~= without_ids(g.drop_last(), ids));
    if j == g.len() - 1 {
        lemma_filter_drops(g.last().1, ids, x);
        g.last().1.lemma_filter_len(|e: ExampleView| !ids.contains(e.id));
    } else {
        assert(g.drop_last()[j] == g[j]);
        lemma_without_total(g.drop_last(), ids, j, x);
        g.last().1.lemma_filter_len(|e: ExampleView| !ids.contains(e.id));
    }
}

proof fn lemma_without_total_le(g: Groups, ids: Seq<Seq<char>>)
    ensures
        total_examples(without_ids(g, ids)) <= total_examples(g),
    decreases g.len(),
{
    if g.len() > 0 {
        lemma_without_total_le(g.drop_last(), ids);
        assert(without_ids(g, ids).drop_last() =~= without_ids(g.drop_last(), ids));
        g.last().1.lemma_filter_len(|e: ExampleView| !ids.contains(e.id));
    }
}

/// Recording keeps the store within its total limit: when at most
/// `max_total` examples were stored before, at most `max_total` are stored
/// after.
pub proof fn lemma_record_keeps_total_limit(g: Groups, ex: ExampleView, max_per: nat, max_total: nat)
    requires
        max_per > 0,
        total_examples(g) <= max_total,
    ensures
        total_examples(after_record(g, ex, max_per, max_total)) <= max_total,
{
    let key = example_key(ex.task_type, ex.language);
    let entries = group_entries(g, key);
    let kept = if entries.len() >= max_per {
        sort_by_time(entries, true).take(max_per - 1)
    } else {
        entries
    };
    lemma_sort_len(entries, true);
    lemma_group_index(g, key);
    let g1 = with_example(g, ex, max_per);
    let i = group_index(g, key);
    if i < g.len() {
        lemma_total_update(g, i as int, (key, kept.push(ex)));
    } else {
        assert(g1.drop_last() =~= g);
    }
    assert(total_examples(g1) <= total_examples(g) + 1);
    if total_examples(g1) > max_total {
        let all = all_examples(g1);
        lemma_total_is_all_len(g1);
        let sorted = sort_by_time(all, false);
        lemma_sort_len(all, false);
        let x = sorted[0];
        assert(sorted.contains(x));
        lemma_sort_members(all, false, x);
        lemma_all_member(g1, x);
        let j = choose|j: int| 0 <= j < g1.len() && (#[trigger] g1[j]).1.contains(x);
        let ids = oldest_ids(g1);
        assert(ids[0] == x.id);
        assert(ids.contains(x.id));
        lemma_without_total(g1, ids, j, x);
    }
}

} // verus!
