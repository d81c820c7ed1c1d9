//! Context window budget management.
//!
//! Controls how much context is loaded per task: each item carries an
//! estimated token count, and when the budget overflows the items of lowest
//! priority are left out and replaced by short placeholders.

use vstd::prelude::*;
use crate::prompt::system_prompt::{estimate_tokens, spec_estimate_tokens};
use crate::text::{decimal, push_str, usize_to_string};

verus! {

/// Priority level for context items, from most to least important.
#[derive(Debug, Clone, Copy, PartialEq, Eq, Hash, PartialOrd, Ord)]
pub enum Priority {
    /// Critical: the core shard being worked on. Never trimmed.
    Must,
    /// Direct dependencies (data models, interfaces).
    High,
    /// Indirect dependencies (symbol tables for upstream modules).
    Medium,
    /// Related but non-essential info (design decisions, metadata).
    Low,
    /// Optional history (previous task summaries).
    Optional,
}

impl Priority {
    /// Position in the priority order: `Must` is 0, `Optional` is 4.
    pub open spec fn rank(self) -> nat {
        match self {
            Priority::Must => 0,
            Priority::High => 1,
            Priority::Medium => 2,
            Priority::Low => 3,
            Priority::Optional => 4,
        }
    }

    /// The variant's name, as debug formatting prints it.
    pub open spec fn name(self) -> Seq<char> {
        match self {
            Priority::Must => "Must"@,
            Priority::High => "High"@,
            Priority::Medium => "Medium"@,
            Priority::Low => "Low"@,
            Priority::Optional => "Optional"@,
        }
    }

    /// The variant's name.
    pub fn label(&self) -> (s: &'static str)
        ensures
            s@ == self.name(),
    {
        match self {
            Priority::Must => "Must",
            Priority::High => "High",
            Priority::Medium => "Medium",
            Priority::Low => "Low",
            Priority::Optional => "Optional",
        }
    }

    /// The position in the priority order.
    pub fn order(&self) -> (r: u8)
        ensures
            r == self.rank(),
    {
        match self {
            Priority::Must => 0,
            Priority::High => 1,
            Priority::Medium => 2,
            Priority::Low => 3,
            Priority::Optional => 4,
        }
    }
}

/// A single context item with its estimated token count.
#[derive(Debug)]
pub struct ContextItem {
    pub uri: String,
    pub content: String,
    pub priority: Priority,
    pub estimated_tokens: usize,
}

impl Clone for ContextItem {
    fn clone(&self) -> (r: Self)
        ensures
            r == *self,
    {
        ContextItem {
            uri: self.uri.clone(),
            content: self.content.clone(),
            priority: self.priority,
            estimated_tokens: self.estimated_tokens,
        }
    }
}

impl ContextItem {
    /// An item whose token count is estimated from its content.
    pub fn new(uri: &str, content: &str, priority: Priority) -> (item: Self)
        requires
            content@.len() <= usize::MAX / 16,
        ensures
            item.uri@ == uri@,
            item.content@ == content@,
            item.priority == priority,
            item.estimated_tokens == spec_estimate_tokens(content@),
    {
        let estimated_tokens = estimate_tokens(content);
        ContextItem { uri: uri.to_owned(), content: content.to_owned(), priority, estimated_tokens }
    }
}

/// An item left out for want of budget.
#[derive(Debug)]
pub struct TrimmedItem {
    pub uri: String,
    pub priority: Priority,
    /// How many items of the same priority were left out (set by collapsing).
    pub count_hint: Option<usize>,
}

impl Clone for TrimmedItem {
    fn clone(&self) -> (r: Self)
        ensures
            r == *self,
    {
        TrimmedItem { uri: self.uri.clone(), priority: self.priority, count_hint: self.count_hint }
    }
}

/// The placeholder text that stands for a trimmed item in the prompt.
pub open spec fn placeholder_text(t: TrimmedItem) -> Seq<char> {
    match t.count_hint {
        Some(n) if n > 1 => "\u{27ea} "@ + decimal(n as nat) + " items of priority "@
            + t.priority.name() + " omitted (budget). Use MCP tools to retrieve. \u{27eb}"@,
        _ => "\u{27ea} Item '"@ + t.uri@ + "' omitted (budget). Use MCP tools to retrieve. \u{27eb}"@,
    }
}

impl TrimmedItem {
    /// A human-readable placeholder for the trimmed context.
    pub fn to_placeholder(&self) -> (s: String)
        ensures
            s@ == placeholder_text(*self),
    {
        let mut s = String::new();
        match self.count_hint {
            Some(n) if n > 1 => {
                push_str(&mut s, "\u{27ea} ");
                let digits = usize_to_string(n);
                push_str(&mut s, digits.as_str());
                push_str(&mut s, " items of priority ");
                push_str(&mut s, self.priority.label());
                push_str(&mut s, " omitted (budget). Use MCP tools to retrieve. \u{27eb}");
            },
            _ => {
                push_str(&mut s, "\u{27ea} Item '");
                push_str(&mut s, self.uri.as_str());
                push_str(&mut s, "' omitted (budget). Use MCP tools to retrieve. \u{27eb}");
            },
        }
        s
    }
}

/// The items of priority rank `r`, in their original order.
pub open spec fn of_rank(s: Seq<ContextItem>, r: nat) -> Seq<ContextItem> {
    s.filter(|x: ContextItem| x.priority.rank() == r)
}

/// The items ordered by priority, `Must` first; items of equal priority
/// keep their order (a stable sort by priority).
pub open spec fn priority_sorted(s: Seq<ContextItem>) -> Seq<ContextItem> {
    of_rank(s, 0) + of_rank(s, 1) + of_rank(s, 2) + of_rank(s, 3) + of_rank(s, 4)
}

/// Sum of the estimated tokens of a sequence of items.
pub open spec fn sum_tokens(s: Seq<ContextItem>) -> nat
    decreases s.len(),
{
    if s.len() == 0 {
        0
    } else {
        sum_tokens(s.drop_last()) + s.last().estimated_tokens as nat
    }
}

/// What an item left out is recorded as before collapsing.
pub open spec fn trimmed_record(x: ContextItem) -> TrimmedItem {
    TrimmedItem { uri: x.uri, priority: x.priority, count_hint: None }
}

/// Greedy fit of items taken in order: a `Must` item is always included, any
/// other item is included while the running total stays within `remaining`.
/// Gives the included items, the items left out and the included total.
pub open spec fn greedy_fit(s: Seq<ContextItem>, remaining: nat) -> (Seq<ContextItem>, Seq<TrimmedItem>, nat)
    decreases s.len(),
{
    if s.len() == 0 {
        (Seq::empty(), Seq::empty(), 0)
    } else {
        let (inc, tr, total) = greedy_fit(s.drop_last(), remaining);
        let x = s.last();
        if x.priority == Priority::Must || total + x.estimated_tokens <= remaining {
            (inc.push(x), tr, total + x.estimated_tokens as nat)
        } else {
            (inc, tr.push(trimmed_record(x)), total)
        }
    }
}

/// Whether the greedy fit of `s` took its `k`-th item in.
pub open spec fn fit_took(s: Seq<ContextItem>, remaining: nat, k: int) -> bool {
    greedy_fit(s.take(k + 1), remaining).0.len() > greedy_fit(s.take(k), remaining).0.len()
}

/// The included total never shrinks as more items are considered.
proof fn lemma_fit_total_grows(s: Seq<ContextItem>, remaining: nat, a: int, b: int)
    requires
        0 <= a <= b <= s.len(),
    ensures
        greedy_fit(s.take(a), remaining).2 <= greedy_fit(s.take(b), remaining).2,
    decreases b - a,
{
    if a < b {
        lemma_fit_total_grows(s, remaining, a, b - 1);
        assert(s.take(b).drop_last() == s.take(b - 1));
    }
}

/// The fit is maximal: an item left out is never a `Must` item, and could
/// not be added to the final selection without going over the budget; and
/// a `Must` item, or any item that fits next to those taken before it, is
/// taken in.
pub proof fn lemma_fit_is_maximal(s: Seq<ContextItem>, remaining: nat, k: int)
    requires
        0 <= k < s.len(),
    ensures
        !fit_took(s, remaining, k) ==> s[k].priority != Priority::Must
            && greedy_fit(s, remaining).2 + s[k].estimated_tokens > remaining,
        (s[k].priority == Priority::Must || greedy_fit(s.take(k), remaining).2 + s[k].estimated_tokens <= remaining)
            ==> fit_took(s, remaining, k),
{
    let pre = s.take(k);
    let cur = s.take(k + 1);
    assert(cur.drop_last() == pre);
    assert(cur.last() == s[k]);
    lemma_fit_total_grows(s, remaining, k, s.len() as int);
    assert(s.take(s.len() as int) == s);
}

/// Runs of consecutive equal priorities, each with its length.
pub open spec fn priority_runs(t: Seq<TrimmedItem>) -> Seq<(Priority, nat)>
    decreases t.len(),
{
    if t.len() == 0 {
        Seq::empty()
    } else {
        let r = priority_runs(t.drop_last());
        let p = t.last().priority;
        if r.len() > 0 && r.last().0 == p {
            r.update(r.len() - 1, (p, r.last().1 + 1))
        } else {
            r.push((p, 1))
        }
    }
}

/// Consecutive trimmed items of the same priority collapsed into one entry
/// with a count hint.
pub open spec fn collapse_spec(t: Seq<TrimmedItem>) -> Seq<(Seq<char>, Priority, Option<nat>)> {
    priority_runs(t).map_values(|run: (Priority, nat)| ("collapsed_"@ + run.0.name(), run.0, Some(run.1)))
}

/// The view of a trimmed item: uri, priority and count hint.
pub open spec fn trimmed_view(t: TrimmedItem) -> (Seq<char>, Priority, Option<nat>) {
    (t.uri@, t.priority, match t.count_hint { Some(n) => Some(n as nat), None => None })
}

/// A token budget whose effective maximum (after the safety margin) is known.
#[derive(Debug, Clone, Copy)]
pub struct TokenBudget {
    /// Effective maximum of tokens in a single task context.
    pub effective_max: usize,
    /// Reserved for tool responses (so the LLM can see the output).
    pub tool_response_reserve: usize,
}

impl Default for TokenBudget {
    /// The budget of a 22000-token window at a 0.85 safety margin: 18700
    /// effective tokens, 2000 of them reserved for tool responses.
    fn default() -> (b: Self)
        ensures
            b.effective_max == 18700,
            b.tool_response_reserve == 2000,
    {
        TokenBudget { effective_max: 18700, tool_response_reserve: 2000 }
    }
}

/// The items chosen by a fit, and what was left out.
#[derive(Debug)]
pub struct ContextSelection {
    pub included: Vec<ContextItem>,
    pub trimmed: Vec<TrimmedItem>,
    pub total_tokens: usize,
}

/// Tokens left for context items: the effective maximum less the fixed parts,
/// or 0 when they exceed it.
pub open spec fn remaining_spec(b: TokenBudget, static_tokens: nat, task_tokens: nat) -> nat {
    let used = static_tokens + task_tokens + b.tool_response_reserve;
    if used <= b.effective_max { (b.effective_max - used) as nat } else { 0 }
}

impl TokenBudget {
    /// Whether a shard of `shard_tokens` fits next to `current_tokens`,
    /// leaving the reserve for tool responses.
    pub fn can_fit(&self, current_tokens: usize, shard_tokens: usize) -> (r: bool)
        requires
            current_tokens + shard_tokens + self.tool_response_reserve <= usize::MAX,
        ensures
            r == (current_tokens + shard_tokens + self.tool_response_reserve <= self.effective_max),
    {
        current_tokens + shard_tokens + self.tool_response_reserve <= self.effective_max
    }

    /// How many tokens are still available for context items.
    pub fn remaining_budget(&self, static_tokens: usize, task_tokens: usize) -> (r: usize)
        requires
            static_tokens + task_tokens + self.tool_response_reserve <= usize::MAX,
        ensures
            r == remaining_spec(*self, static_tokens as nat, task_tokens as nat),
    {
        self.effective_max.saturating_sub(static_tokens + task_tokens + self.tool_response_reserve)
    }

    /// Fits the items within the budget: items are taken by priority (`Must`
    /// first, the original order kept among equals), `Must` items always go
    /// in, others while they fit; the items left out are collapsed into
    /// runs of equal priority.
    pub fn fit_items(&self, static_tokens: usize, task_tokens: usize, items: Vec<ContextItem>) -> (res: ContextSelection)
        requires
            static_tokens + task_tokens + self.tool_response_reserve <= usize::MAX,
            sum_tokens(items@) <= usize::MAX,
        ensures
            ({
                let fit = greedy_fit(
                    priority_sorted(items@),
                    remaining_spec(*self, static_tokens as nat, task_tokens as nat),
                );
                &&& res.included@ == fit.0
                &&& res.trimmed@.map_values(|t: TrimmedItem| trimmed_view(t)) == collapse_spec(fit.1)
                &&& res.total_tokens == fit.2
            }),
    {
        let remaining = self.remaining_budget(static_tokens, task_tokens);
        let sorted = sort_by_priority(&items);
        proof {
            lemma_sorted_sum(items@);
        }
        let (included, trimmed, total) = fit_sorted(&sorted, remaining);
        let collapsed = collapse_trimmed(&trimmed);
        ContextSelection { included, trimmed: collapsed, total_tokens: total }
    }
}

/// `filter` over a prefix grows by the next element when it passes.
proof fn lemma_filter_take<A>(s: Seq<A>, i: int, pred: spec_fn(A) -> bool)
    requires
        0 <= i < s.len(),
    ensures
        s.take(i + 1).filter(pred) == if pred(s[i]) {
            s.take(i).filter(pred).push(s[i])
        } else {
            s.take(i).filter(pred)
        },
{
    assert(s.take(i + 1).drop_last() == s.take(i));
    reveal_with_fuel(Seq::filter, 1);
}

/// Appends the items of rank `r`, in order.
fn append_rank(out: &mut Vec<ContextItem>, items: &Vec<ContextItem>, r: u8)
    ensures
        final(out)@ == old(out)@ + of_rank(items@, r as nat),
{
    let ghost pred = |x: ContextItem| x.priority.rank() == r as nat;
    let ghost start = out@;
    let mut i: usize = 0;
    while i < items.len()
        invariant
            i <= items@.len(),
            pred == (|x: ContextItem| x.priority.rank() == r as nat),
            out@ == start + items@.take(i as int).filter(pred),
        decreases items@.len() - i,
    {
        proof {
            lemma_filter_take(items@, i as int, pred);
        }
        if items[i].priority.order() == r {
            out.push(items[i].clone());
        }
        i += 1;
    }
    assert(items@.take(items@.len() as int) == items@);
}

/// The items in priority order, stable among equals.
fn sort_by_priority(items: &Vec<ContextItem>) -> (sorted: Vec<ContextItem>)
    ensures
        sorted@ == priority_sorted(items@),
{
    let mut sorted: Vec<ContextItem> = Vec::new();
    append_rank(&mut sorted, items, 0);
    append_rank(&mut sorted, items, 1);
    append_rank(&mut sorted, items, 2);
    append_rank(&mut sorted, items, 3);
    append_rank(&mut sorted, items, 4);
    sorted
}

proof fn lemma_sum_concat(a: Seq<ContextItem>, b: Seq<ContextItem>)
    ensures
        sum_tokens(a + b) == sum_tokens(a) + sum_tokens(b),
    decreases b.len(),
{
    if b.len() > 0 {
        assert((a + b).drop_last() == a + b.drop_last());
        lemma_sum_concat(a, b.drop_last());
    } else {
        assert(a + b == a);
    }
}

/// Summing by rank gives the same total as summing in order.
proof fn lemma_sum_by_rank(s: Seq<ContextItem>)
    ensures
        sum_tokens(s) == sum_tokens(of_rank(s, 0)) + sum_tokens(of_rank(s, 1)) + sum_tokens(
            of_rank(s, 2),
        ) + sum_tokens(of_rank(s, 3)) + sum_tokens(of_rank(s, 4)),
    decreases s.len(),
{
    reveal_with_fuel(Seq::filter, 1);
    if s.len() > 0 {
        lemma_sum_by_rank(s.drop_last());
        let x = s.last();
        let p0 = |x: ContextItem| x.priority.rank() == 0;
        let p1 = |x: ContextItem| x.priority.rank() == 1;
        let p2 = |x: ContextItem| x.priority.rank() == 2;
        let p3 = |x: ContextItem| x.priority.rank() == 3;
        let p4 = |x: ContextItem| x.priority.rank() == 4;
        assert(of_rank(s, 0) == s.filter(p0));
        assert(of_rank(s, 1) == s.filter(p1));
        assert(of_rank(s, 2) == s.filter(p2));
        assert(of_rank(s, 3) == s.filter(p3));
        assert(of_rank(s, 4) == s.filter(p4));
        match x.priority {
            Priority::Must => {
                assert(s.filter(p0).drop_last() == s.drop_last().filter(p0));
            },
            Priority::High => {
                assert(s.filter(p1).drop_last() == s.drop_last().filter(p1));
            },
            Priority::Medium => {
                assert(s.filter(p2).drop_last() == s.drop_last().filter(p2));
            },
            Priority::Low => {
                assert(s.filter(p3).drop_last() == s.drop_last().filter(p3));
            },
            Priority::Optional => {
                assert(s.filter(p4).drop_last() == s.drop_last().filter(p4));
            },
        }
    }
}

proof fn lemma_sorted_sum(s: Seq<ContextItem>)
    ensures
        sum_tokens(priority_sorted(s)) == sum_tokens(s),
{
    lemma_sum_by_rank(s);
    let a = of_rank(s, 0);
    let b = of_rank(s, 1);
    let c = of_rank(s, 2);
    let d = of_rank(s, 3);
    let e = of_rank(s, 4);
    lemma_sum_concat(a, b);
    lemma_sum_concat(a + b, c);
    lemma_sum_concat(a + b + c, d);
    lemma_sum_concat(a + b + c + d, e);
}

proof fn lemma_sum_prefix(s: Seq<ContextItem>, i: int)
    requires
        0 <= i <= s.len(),
    ensures
        sum_tokens(s.take(i)) <= sum_tokens(s),
    decreases s.len() - i,
{
    if i < s.len() {
        lemma_sum_prefix(s, i + 1);
        assert(s.take(i + 1).drop_last() == s.take(i));
    } else {
        assert(s.take(i) == s);
    }
}

proof fn lemma_fit_total_bound(s: Seq<ContextItem>, remaining: nat)
    ensures
        greedy_fit(s, remaining).2 <= sum_tokens(s),
    decreases s.len(),
{
    if s.len() > 0 {
        lemma_fit_total_bound(s.drop_last(), remaining);
    }
}

/// The greedy fit over items already in priority order.
fn fit_sorted(sorted: &Vec<ContextItem>, remaining: usize) -> (res: (Vec<ContextItem>, Vec<TrimmedItem>, usize))
    requires
        sum_tokens(sorted@) <= usize::MAX,
    ensures
        res.0@ == greedy_fit(sorted@, remaining as nat).0,
        res.1@ == greedy_fit(sorted@, remaining as nat).1,
        res.2 == greedy_fit(sorted@, remaining as nat).2,
{
    let mut included: Vec<ContextItem> = Vec::new();
    let mut trimmed: Vec<TrimmedItem> = Vec::new();
    let mut total: usize = 0;
    let mut i: usize = 0;
    while i < sorted.len()
        invariant
            i <= sorted@.len(),
            sum_tokens(sorted@) <= usize::MAX,
            (included@, trimmed@, total as nat) == greedy_fit(sorted@.take(i as int), remaining as nat),
        decreases sorted@.len() - i,
    {
        let ghost pre = sorted@.take(i as int);
        proof {
            assert(sorted@.take(i + 1).drop_last() == pre);
            lemma_fit_total_bound(sorted@.take(i + 1), remaining as nat);
            lemma_sum_prefix(sorted@, i + 1);
            lemma_fit_total_bound(pre, remaining as nat);
            lemma_sum_prefix(sorted@, i as int);
            assert(sum_tokens(sorted@.take(i + 1)) == sum_tokens(pre) + sorted@[i as int].estimated_tokens);
        }
        let item = sorted[i].clone();
        let is_must = item.priority.order() == 0;
        if is_must || total + item.estimated_tokens <= remaining {
            total = total + item.estimated_tokens;
            included.push(item);
        } else {
            trimmed.push(TrimmedItem { uri: item.uri, priority: item.priority, count_hint: None });
        }
        i += 1;
    }
    assert(sorted@.take(sorted@.len() as int) == sorted@);
    (included, trimmed, total)
}

/// Collapses consecutive trimmed items of the same priority into one entry
/// with a count hint.
fn collapse_trimmed(items: &Vec<TrimmedItem>) -> (res: Vec<TrimmedItem>)
    ensures
        res@.map_values(|t: TrimmedItem| trimmed_view(t)) == collapse_spec(items@),
{
    let mut runs: Vec<(Priority, usize)> = Vec::new();
    let mut i: usize = 0;
    while i < items.len()
        invariant
            i <= items@.len(),
            runs@.len() <= i,
            runs@.map_values(|run: (Priority, usize)| (run.0, run.1 as nat)) == priority_runs(items@.take(i as int)),
            forall|k: int| 0 <= k < runs@.len() ==> (#[trigger] runs@[k]).1 <= i,
        decreases items@.len() - i,
    {
        proof {
            assert(items@.take(i + 1).drop_last() == items@.take(i as int));
        }
        let p = items[i].priority;
        let n = runs.len();
        let ghost old_runs = runs@;
        if n > 0 && runs[n - 1].0.order() == p.order() {
            let c = runs[n - 1].1;
            runs.set(n - 1, (p, c + 1));
            proof {
                assert(old_runs[n - 1].0 == p);
            }
        } else {
            runs.push((p, 1));
        }
        proof {
            let rv = runs@.map_values(|run: (Priority, usize)| (run.0, run.1 as nat));
            let ov = old_runs.map_values(|run: (Priority, usize)| (run.0, run.1 as nat));
            let target = priority_runs(items@.take(i + 1));
            assert(items@.take(i + 1).last() == items@[i as int]);
            if n > 0 && old_runs[n - 1].0 == p {
                assert(ov.last().0 == p);
                assert(rv =~= target);
            } else {
                if n > 0 {
                    assert(ov.last().0 == old_runs[n - 1].0);
                }
                assert(rv =~= target);
            }
        }
        i += 1;
    }
    assert(items@.take(items@.len() as int) == items@);
    let mut res: Vec<TrimmedItem> = Vec::new();
    let mut k: usize = 0;
    while k < runs.len()
        invariant
            k <= runs@.len(),
            res@.len() == k,
            runs@.map_values(|run: (Priority, usize)| (run.0, run.1 as nat)) == priority_runs(items@),
            res@.map_values(|t: TrimmedItem| trimmed_view(t)) == collapse_spec(items@).take(k as int),
        decreases runs@.len() - k,
    {
        let (p, c) = runs[k];
        let mut uri = String::new();
        push_str(&mut uri, "collapsed_");
        push_str(&mut uri, p.label());
        assert(uri@ == "collapsed_"@ + p.name());
        let ghost before = res@;
        res.push(TrimmedItem { uri, priority: p, count_hint: Some(c) });
        proof {
            let rv = runs@.map_values(|run: (Priority, usize)| (run.0, run.1 as nat));
            assert(rv[k as int] == (p, c as nat));
            let cs = collapse_spec(items@);
            assert(cs[k as int] == ("collapsed_"@ + p.name(), p, Some(c as nat)));
            assert(trimmed_view(res@[k as int]) == cs[k as int]);
            assert(res@ == before.push(res@[k as int]));
            assert(res@.map_values(|t: TrimmedItem| trimmed_view(t)) =~= collapse_spec(items@).take(k + 1));
        }
        k += 1;
    }
    proof {
        let rv = runs@.map_values(|run: (Priority, usize)| (run.0, run.1 as nat));
        assert(rv.len() == runs@.len());
        assert(collapse_spec(items@).take(runs@.len() as int) =~= collapse_spec(items@));
    }
    res
}

/// The placeholder lines for a sequence of trimmed items, each after a
/// line break.
pub open spec fn placeholder_lines(t: Seq<TrimmedItem>) -> Seq<char>
    decreases t.len(),
{
    if t.len() == 0 {
        Seq::empty()
    } else {
        placeholder_lines(t.drop_last()) + "\n"@ + placeholder_text(t.last())
    }
}

/// The text that tells the model which context was left out.
pub open spec fn trimmed_notice(t: Seq<TrimmedItem>) -> Seq<char> {
    if t.len() == 0 {
        Seq::empty()
    } else {
        "\n--- Context Budget Exceeded ---"@ + placeholder_lines(t)
    }
}

/// Placeholders for the trimmed items, under a heading line; empty when
/// nothing was trimmed.
pub fn build_trimmed_placeholders(trimmed: &[TrimmedItem]) -> (s: String)
    ensures
        s@ == trimmed_notice(trimmed@),
{
    if trimmed.len() == 0 {
        return String::new();
    }
    let mut s = String::new();
    push_str(&mut s, "\n--- Context Budget Exceeded ---");
    let mut i: usize = 0;
    while i < trimmed.len()
        invariant
            i <= trimmed@.len(),
            s@ == "\n--- Context Budget Exceeded ---"@ + placeholder_lines(trimmed@.take(i as int)),
        decreases trimmed@.len() - i,
    {
        let line = trimmed[i].to_placeholder();
        push_str(&mut s, "\n");
        push_str(&mut s, line.as_str());
        proof {
            assert(trimmed@.take(i + 1).drop_last() == trimmed@.take(i as int));
        }
        i += 1;
    }
    assert(trimmed@.take(trimmed@.len() as int) == trimmed@);
    s
}

/// Taking the items of one rank out of the items of rank `r` gives them all
/// when the ranks agree and none otherwise.
proof fn lemma_of_rank_of_rank(s: Seq<ContextItem>, r: nat, q: nat)
    ensures
        of_rank(of_rank(s, r), q) == if r == q { of_rank(s, q) } else { Seq::<ContextItem>::empty() },
    decreases s.len(),
{
    reveal_with_fuel(Seq::filter, 1);
    if s.len() > 0 {
        lemma_of_rank_of_rank(s.drop_last(), r, q);
        let pr = |x: ContextItem| x.priority.rank() == r;
        let pq = |x: ContextItem| x.priority.rank() == q;
        assert(of_rank(s, r) == s.filter(pr));
        assert(of_rank(s, q) == s.filter(pq));
        if s.last().priority.rank() == r {
            assert(s.filter(pr).drop_last() == s.drop_last().filter(pr));
            assert(s.filter(pr).last() == s.last());
        }
    } else {
        assert(of_rank(s, r).len() == 0);
    }
}

/// The items of rank `q` keep their order through the priority sort.
proof fn lemma_sorted_of_rank(s: Seq<ContextItem>, q: nat)
    requires
        q <= 4,
    ensures
        of_rank(priority_sorted(s), q) == of_rank(s, q),
{
    let pq = |x: ContextItem| x.priority.rank() == q;
    let a = of_rank(s, 0);
    let b = of_rank(s, 1);
    let c = of_rank(s, 2);
    let d = of_rank(s, 3);
    let e = of_rank(s, 4);
    Seq::filter_distributes_over_add(a, b, pq);
    Seq::filter_distributes_over_add(a + b, c, pq);
    Seq::filter_distributes_over_add(a + b + c, d, pq);
    Seq::filter_distributes_over_add(a + b + c + d, e, pq);
    lemma_of_rank_of_rank(s, 0, q);
    lemma_of_rank_of_rank(s, 1, q);
    lemma_of_rank_of_rank(s, 2, q);
    lemma_of_rank_of_rank(s, 3, q);
    lemma_of_rank_of_rank(s, 4, q);
    assert(of_rank(priority_sorted(s), q) == (a + b + c + d + e).filter(pq));
    assert(of_rank(priority_sorted(s), q) =~= of_rank(s, q));
}

proof fn lemma_greedy_keeps_must(s: Seq<ContextItem>, remaining: nat)
    ensures
        of_rank(greedy_fit(s, remaining).0, 0) == of_rank(s, 0),
        forall|i: int| 0 <= i < greedy_fit(s, remaining).1.len()
            ==> (#[trigger] greedy_fit(s, remaining).1[i]).priority != Priority::Must,
    decreases s.len(),
{
    reveal_with_fuel(Seq::filter, 1);
    if s.len() > 0 {
        lemma_greedy_keeps_must(s.drop_last(), remaining);
        let p0 = |x: ContextItem| x.priority.rank() == 0;
        let inc = greedy_fit(s.drop_last(), remaining).0;
        assert(of_rank(s, 0) == s.filter(p0));
        assert(of_rank(inc, 0) == inc.filter(p0));
        assert(inc.push(s.last()).drop_last() == inc);
        assert(of_rank(inc.push(s.last()), 0) == inc.push(s.last()).filter(p0));
    }
}

proof fn lemma_runs_priorities(t: Seq<TrimmedItem>)
    ensures
        forall|i: int| 0 <= i < priority_runs(t).len()
            ==> exists|j: int| 0 <= j < t.len() && (#[trigger] t[j]).priority == (#[trigger] priority_runs(t)[i]).0,
    decreases t.len(),
{
    if t.len() > 0 {
        lemma_runs_priorities(t.drop_last());
        let r = priority_runs(t.drop_last());
        assert forall|i: int| 0 <= i < priority_runs(t).len()
            implies exists|j: int| 0 <= j < t.len() && (#[trigger] t[j]).priority == (#[trigger] priority_runs(t)[i]).0 by {
            if i < r.len() && !(r.len() > 0 && r.last().0 == t.last().priority && i == r.len() - 1) {
                assert(priority_runs(t)[i] == r[i]);
                let j = choose|j: int| 0 <= j < t.drop_last().len() && (#[trigger] t.drop_last()[j]).priority == r[i].0;
                assert(t[j] == t.drop_last()[j]);
            } else {
                assert(t[t.len() - 1] == t.last());
            }
        }
    }
}

/// `Must` items are never trimmed: all of them are included, in their
/// original order, and no entry of the trimmed list has priority `Must`.
pub proof fn lemma_fit_keeps_must(items: Seq<ContextItem>, remaining: nat)
    ensures
        of_rank(greedy_fit(priority_sorted(items), remaining).0, 0) == of_rank(items, 0),
        forall|i: int| 0 <= i < collapse_spec(greedy_fit(priority_sorted(items), remaining).1).len()
            ==> (#[trigger] collapse_spec(greedy_fit(priority_sorted(items), remaining).1)[i]).1
                != Priority::Must,
{
    let sorted = priority_sorted(items);
    lemma_greedy_keeps_must(sorted, remaining);
    lemma_sorted_of_rank(items, 0);
    let t = greedy_fit(sorted, remaining).1;
    lemma_runs_priorities(t);
    assert forall|i: int| 0 <= i < collapse_spec(t).len() implies (#[trigger] collapse_spec(t)[i]).1 != Priority::Must by {
        assert(collapse_spec(t)[i].1 == priority_runs(t)[i].0);
        let j = choose|j: int| 0 <= j < t.len() && (#[trigger] t[j]).priority == priority_runs(t)[i].0;
        assert(t[j].priority != Priority::Must);
    }
}

proof fn lemma_greedy_total(s: Seq<ContextItem>, remaining: nat)
    ensures
        greedy_fit(s, remaining).2 <= remaining + sum_tokens(of_rank(s, 0)),
    decreases s.len(),
{
    reveal_with_fuel(Seq::filter, 1);
    if s.len() > 0 {
        lemma_greedy_total(s.drop_last(), remaining);
        let p0 = |x: ContextItem| x.priority.rank() == 0;
        assert(of_rank(s, 0) == s.filter(p0));
        assert(of_rank(s.drop_last(), 0) == s.drop_last().filter(p0));
        if s.last().priority == Priority::Must {
            assert(s.filter(p0).drop_last() == s.drop_last().filter(p0));
        }
    }
}

/// The included items take at most the remaining budget, beyond the tokens
/// of the `Must` items (which go in whatever their size); with no `Must`
/// item, the total stays within the remaining budget.
pub proof fn lemma_fit_within_budget(items: Seq<ContextItem>, remaining: nat)
    ensures
        greedy_fit(priority_sorted(items), remaining).2 <= remaining + sum_tokens(of_rank(items, 0)),
        of_rank(items, 0).len() == 0 ==> greedy_fit(priority_sorted(items), remaining).2 <= remaining,
{
    lemma_greedy_total(priority_sorted(items), remaining);
    lemma_sorted_of_rank(items, 0);
}

proof fn lemma_greedy_partition(s: Seq<ContextItem>, remaining: nat)
    ensures
        greedy_fit(s, remaining).0.len() + greedy_fit(s, remaining).1.len() == s.len(),
    decreases s.len(),
{
    if s.len() > 0 {
        lemma_greedy_partition(s.drop_last(), remaining);
    }
}

proof fn lemma_runs_count(t: Seq<TrimmedItem>)
    ensures
        run_total(priority_runs(t)) == t.len(),
    decreases t.len(),
{
    if t.len() > 0 {
        lemma_runs_count(t.drop_last());
        let r = priority_runs(t.drop_last());
        if r.len() > 0 && r.last().0 == t.last().priority {
            let u = r.update(r.len() - 1, (t.last().priority, r.last().1 + 1));
            assert(u.drop_last() == r.drop_last());
        } else {
            assert(r.push((t.last().priority, 1)).drop_last() == r);
        }
    }
}

/// Total of the counts of a list of runs.
pub open spec fn run_total(r: Seq<(Priority, nat)>) -> nat
    decreases r.len(),
{
    if r.len() == 0 {
        0
    } else {
        run_total(r.drop_last()) + r.last().1
    }
}

proof fn lemma_sorted_len(s: Seq<ContextItem>)
    ensures
        priority_sorted(s).len() == s.len(),
    decreases s.len(),
{
    reveal_with_fuel(Seq::filter, 1);
    if s.len() > 0 {
        lemma_sorted_len(s.drop_last());
        let x = s.last();
        let p0 = |x: ContextItem| x.priority.rank() == 0;
        let p1 = |x: ContextItem| x.priority.rank() == 1;
        let p2 = |x: ContextItem| x.priority.rank() == 2;
        let p3 = |x: ContextItem| x.priority.rank() == 3;
        let p4 = |x: ContextItem| x.priority.rank() == 4;
        assert(of_rank(s, 0) == s.filter(p0));
        assert(of_rank(s, 1) == s.filter(p1));
        assert(of_rank(s, 2) == s.filter(p2));
        assert(of_rank(s, 3) == s.filter(p3));
        assert(of_rank(s, 4) == s.filter(p4));
        assert(of_rank(s.drop_last(), 0) == s.drop_last().filter(p0));
        assert(of_rank(s.drop_last(), 1) == s.drop_last().filter(p1));
        assert(of_rank(s.drop_last(), 2) == s.drop_last().filter(p2));
        assert(of_rank(s.drop_last(), 3) == s.drop_last().filter(p3));
        assert(of_rank(s.drop_last(), 4) == s.drop_last().filter(p4));
    }
}

/// Every item is accounted for: it is either included or counted in one of
/// the collapsed trimmed entries.
pub proof fn lemma_fit_accounts_for_all(items: Seq<ContextItem>, remaining: nat)
    ensures
        greedy_fit(priority_sorted(items), remaining).0.len()
            + run_total(priority_runs(greedy_fit(priority_sorted(items), remaining).1)) == items.len(),
{
    lemma_sorted_len(items);
    lemma_greedy_partition(priority_sorted(items), remaining);
    lemma_runs_count(greedy_fit(priority_sorted(items), remaining).1);
}

} // verus!
