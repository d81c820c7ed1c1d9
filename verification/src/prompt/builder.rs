//! The prompt builder: system prompt (layer 1), context fitted to the
//! token budget (layer 2) and task prompt (layer 3), with few-shot
//! examples and an orchestration hint for the task type.

use vstd::prelude::*;
use crate::prompt::context_budget::{
    build_trimmed_placeholders, collapse_spec, greedy_fit, placeholder_text, priority_sorted, remaining_spec,
    sum_tokens, trimmed_notice, trimmed_view, ContextItem, Priority, TokenBudget, TrimmedItem,
};
use crate::prompt::few_shot::{
    example_counts, example_inputs, examples_text, selection, views, ExampleView, FewShotManager, Groups, saturating_sum, text_tokens, capped_tokens, sat, str_opt_view,
};
use crate::prompt::system_prompt::{
    build_system_prompt, build_task_prompt, estimate_tokens, spec_estimate_tokens, spec_system_prompt_text,
    task_context, task_prompt_text, GeneratedPrompt, SystemPromptConfig,
};
use crate::prompt::tool_orchestration::{spec_for_task, ToolOrchestrator};
use crate::text::{decimal, join_seqs, join_strings, push_str, string_views};

verus! {

/// The tag of a priority in a context line.
pub open spec fn priority_tag(p: Priority) -> Seq<char> {
    match p {
        Priority::Must => "MUST"@,
        Priority::High => "HIGH"@,
        Priority::Medium => "MEDIUM"@,
        Priority::Low => "LOW"@,
        Priority::Optional => "OPT"@,
    }
}

fn priority_tag_of(p: Priority) -> (s: &'static str)
    ensures
        s@ == priority_tag(p),
{
    match p {
        Priority::Must => "MUST",
        Priority::High => "HIGH",
        Priority::Medium => "MEDIUM",
        Priority::Low => "LOW",
        Priority::Optional => "OPT",
    }
}

/// A context line: `[TAG]: content` when tagged by priority, else
/// `[uri] content`.
pub open spec fn context_line(i: ContextItem, tagged: bool) -> Seq<char> {
    if tagged {
        "["@ + priority_tag(i.priority) + "]: "@ + i.content@
    } else {
        "["@ + i.uri@ + "] "@ + i.content@
    }
}

/// The context lines of some items, one per line.
pub open spec fn context_text(s: Seq<ContextItem>, tagged: bool) -> Seq<char> {
    join_seqs(s.map_values(|i: ContextItem| context_line(i, tagged)), "\n"@)
}

/// An item with its token count estimated anew from its content.
pub open spec fn reestimated_item(i: ContextItem) -> ContextItem {
    ContextItem {
        uri: i.uri,
        content: i.content,
        priority: i.priority,
        estimated_tokens: spec_estimate_tokens(i.content@) as usize,
    }
}

/// Items with their token counts estimated anew.
pub open spec fn reestimated(s: Seq<ContextItem>) -> Seq<ContextItem> {
    s.map_values(|i: ContextItem| reestimated_item(i))
}

/// The placeholder of a collapsed trimmed entry (see `placeholder_text`).
pub open spec fn placeholder_of(v: (Seq<char>, Priority, Option<nat>)) -> Seq<char> {
    match v.2 {
        Some(n) if n > 1 => "\u{27ea} "@ + decimal(n) + " items of priority "@ + v.1.name()
            + " omitted (budget). Use MCP tools to retrieve. \u{27eb}"@,
        _ => "\u{27ea} Item '"@ + v.0 + "' omitted (budget). Use MCP tools to retrieve. \u{27eb}"@,
    }
}

/// The placeholders of trimmed entries, each after a line break.
pub open spec fn placeholder_view_lines(vs: Seq<(Seq<char>, Priority, Option<nat>)>) -> Seq<char>
    decreases vs.len(),
{
    if vs.len() == 0 {
        Seq::empty()
    } else {
        placeholder_view_lines(vs.drop_last()) + "\n"@ + placeholder_of(vs.last())
    }
}

/// The notice of trimmed entries (see `trimmed_notice`).
pub open spec fn notice_of(vs: Seq<(Seq<char>, Priority, Option<nat>)>) -> Seq<char> {
    if vs.len() == 0 {
        Seq::empty()
    } else {
        "\n--- Context Budget Exceeded ---"@ + placeholder_view_lines(vs)
    }
}

proof fn lemma_notice_views(t: Seq<TrimmedItem>)
    ensures
        trimmed_notice(t) == notice_of(t.map_values(|x: TrimmedItem| trimmed_view(x))),
    decreases t.len(),
{
    lemma_placeholder_lines(t);
}

proof fn lemma_placeholder_lines(t: Seq<TrimmedItem>)
    ensures
        crate::prompt::context_budget::placeholder_lines(t) == placeholder_view_lines(
            t.map_values(|x: TrimmedItem| trimmed_view(x)),
        ),
    decreases t.len(),
{
    if t.len() > 0 {
        lemma_placeholder_lines(t.drop_last());
        assert(t.drop_last().map_values(|x: TrimmedItem| trimmed_view(x)) =~= t.map_values(
            |x: TrimmedItem| trimmed_view(x),
        ).drop_last());
        assert(placeholder_text(t.last()) == placeholder_of(trimmed_view(t.last())));
    }
}

/// The dependency context and working set that go to the task prompt:
/// both whole, as priority-tagged lines, when their estimates fit the
/// budget left after the system prompt and the task; otherwise each fitted
/// to the budget (the working set to what the dependencies left), as
/// uri-tagged lines, the dependencies followed by the notice of what was
/// left out.
pub open spec fn fitted_context(
    b: TokenBudget,
    static_tokens: nat,
    task_tokens: nat,
    dep: Seq<ContextItem>,
    ws: Seq<ContextItem>,
) -> (Seq<char>, Seq<char>) {
    let dep_text = context_text(dep, true);
    let ws_text = context_text(ws, true);
    if spec_estimate_tokens(dep_text) + spec_estimate_tokens(ws_text) <= remaining_spec(b, static_tokens, task_tokens) {
        (dep_text, ws_text)
    } else {
        let df = greedy_fit(priority_sorted(reestimated(dep)), remaining_spec(b, static_tokens, task_tokens));
        let wf = greedy_fit(priority_sorted(reestimated(ws)), remaining_spec(b, static_tokens + task_tokens + df.2, 0));
        (context_text(df.0, false) + "\n"@ + notice_of(collapse_spec(df.1)), context_text(wf.0, false))
    }
}

/// The sizes within which a prompt's token counts stay machine integers:
/// the texts measured fit a sixteenth of the address range, the token sums
/// fit a `usize`, and the budget is one a task prompt can be built with.
pub open spec fn prompt_fits(
    c: SystemPromptConfig,
    b: TokenBudget,
    task: Seq<char>,
    dep: Seq<ContextItem>,
    ws: Seq<ContextItem>,
) -> bool {
    let sys = spec_system_prompt_text(c);
    let st = spec_estimate_tokens(sys);
    let tt = spec_estimate_tokens(task);
    let df = greedy_fit(priority_sorted(reestimated(dep)), remaining_spec(b, st, tt));
    let ctx = fitted_context(b, st, tt, dep, ws);
    let tc = task_context(st, b, task, ctx.0, ctx.1);
    &&& sys.len() <= usize::MAX / 16
    &&& task.len() <= usize::MAX / 16
    &&& b.effective_max * 4 <= usize::MAX
    &&& st + tt + df.2 + b.tool_response_reserve <= usize::MAX
    &&& context_text(dep, true).len() <= usize::MAX / 32
    &&& context_text(ws, true).len() <= usize::MAX / 32
    &&& forall|k: int| 0 <= k < dep.len() ==> (#[trigger] dep[k]).content@.len() <= usize::MAX / 16
    &&& forall|k: int| 0 <= k < ws.len() ==> (#[trigger] ws[k]).content@.len() <= usize::MAX / 16
    &&& sum_tokens(reestimated(dep)) <= usize::MAX
    &&& sum_tokens(reestimated(ws)) <= usize::MAX
    &&& ctx.0.len() <= usize::MAX / 32
    &&& ctx.1.len() <= usize::MAX / 32
    &&& task_prompt_text(sys, task, tc.0, tc.1).len() <= usize::MAX / 16
}

/// The orchestration hint block of a task type for an agent type (nothing
/// when the task type has no flow for it).
pub open spec fn hint_block(task_type: Seq<char>, c: SystemPromptConfig) -> Seq<char> {
    let hint = spec_for_task(task_type, c.agent_type);
    if hint.len() > 0 {
        "\n\n─── ORCHESTRATION HINT ───\n"@ + hint
    } else {
        Seq::empty()
    }
}

/// What follows the task prompt for a task type: the few-shot examples
/// selected for it (given the JSON text of their inputs and their output
/// counts), then its orchestration hint.
pub open spec fn extras_text(c: SystemPromptConfig, g: Groups, task_type: Seq<char>) -> Seq<char> {
    let sel = selection(g, task_type, None, 3, 1500);
    examples_text(sel, example_inputs(sel), example_counts(sel)) + hint_block(task_type, c)
}

/// A token count with those of the extras added: of the examples block
/// when there are examples, of the hint when there is one (each capped at
/// the largest `usize`, the sums saturating).
pub open spec fn extras_tokens(t0: nat, c: SystemPromptConfig, g: Groups, task_type: Seq<char>) -> nat {
    let sel = selection(g, task_type, None, 3, 1500);
    let t1 = if sel.len() > 0 {
        sat(t0 + capped_tokens(examples_text(sel, example_inputs(sel), example_counts(sel))))
    } else {
        t0
    };
    let hint = spec_for_task(task_type, c.agent_type);
    if hint.len() > 0 {
        sat(t1 + capped_tokens(hint))
    } else {
        t1
    }
}

/// The task prompt over the system prompt and the fitted context.
pub open spec fn base_prompt_text(
    c: SystemPromptConfig,
    b: TokenBudget,
    task: Seq<char>,
    dep: Seq<ContextItem>,
    ws: Seq<ContextItem>,
) -> Seq<char> {
    let sys = spec_system_prompt_text(c);
    let st = spec_estimate_tokens(sys);
    let ctx = fitted_context(b, st, spec_estimate_tokens(task), dep, ws);
    let tc = task_context(st, b, task, ctx.0, ctx.1);
    task_prompt_text(sys, task, tc.0, tc.1)
}

/// The prompt text: the task prompt, then, for a task type, its extras.
pub open spec fn prompt_text(
    c: SystemPromptConfig,
    b: TokenBudget,
    g: Groups,
    task: Seq<char>,
    task_type: Option<Seq<char>>,
    dep: Seq<ContextItem>,
    ws: Seq<ContextItem>,
) -> Seq<char> {
    let base = base_prompt_text(c, b, task, dep, ws);
    match task_type {
        Some(tt) => base + extras_text(c, g, tt),
        None => base,
    }
}

/// The token estimate of a prompt: that of the task prompt, with those of
/// the extras for a task type.
pub open spec fn prompt_tokens(
    c: SystemPromptConfig,
    b: TokenBudget,
    g: Groups,
    task: Seq<char>,
    task_type: Option<Seq<char>>,
    dep: Seq<ContextItem>,
    ws: Seq<ContextItem>,
) -> nat {
    let t0 = spec_estimate_tokens(base_prompt_text(c, b, task, dep, ws));
    match task_type {
        Some(tt) => extras_tokens(t0, c, g, tt),
        None => t0,
    }
}

/// Top-level prompt builder that assembles the full three-layer prompt.
pub struct PromptBuilder {
    config: SystemPromptConfig,
    context_budget: TokenBudget,
    few_shot_manager: FewShotManager,
}

fn context_lines(items: &[ContextItem], tagged: bool) -> (r: String)
    ensures
        r@ == context_text(items@, tagged),
{
    let mut parts: Vec<String> = Vec::new();
    let mut i: usize = 0;
    while i < items.len()
        invariant
            i <= items@.len(),
            string_views(parts@) == items@.take(i as int).map_values(|x: ContextItem| context_line(x, tagged)),
        decreases items@.len() - i,
    {
        let item = &items[i];
        let mut line = "[".to_owned();
        if tagged {
            push_str(&mut line, priority_tag_of(item.priority));
            push_str(&mut line, "]: ");
        } else {
            push_str(&mut line, item.uri.as_str());
            push_str(&mut line, "] ");
        }
        push_str(&mut line, item.content.as_str());
        let ghost before = parts@;
        parts.push(line);
        proof {
            assert(string_views(parts@) =~= string_views(before).push(context_line(items@[i as int], tagged)));
            assert(items@.take(i + 1).map_values(|x: ContextItem| context_line(x, tagged)) =~= items@.take(
                i as int,
            ).map_values(|x: ContextItem| context_line(x, tagged)).push(context_line(items@[i as int], tagged)));
        }
        i += 1;
    }
    assert(items@.take(items@.len() as int) == items@);
    join_strings(&parts, "\n")
}

fn reestimate_items(items: &[ContextItem]) -> (r: Vec<ContextItem>)
    requires
        forall|k: int| 0 <= k < items@.len() ==> (#[trigger] items@[k]).content@.len() <= usize::MAX / 16,
    ensures
        r@ == reestimated(items@),
{
    let mut r: Vec<ContextItem> = Vec::new();
    let mut i: usize = 0;
    while i < items.len()
        invariant
            i <= items@.len(),
            forall|k: int| 0 <= k < items@.len() ==> (#[trigger] items@[k]).content@.len() <= usize::MAX / 16,
            r@ == reestimated(items@.take(i as int)),
        decreases items@.len() - i,
    {
        let item = &items[i];
        assert(items@[i as int].content@.len() <= usize::MAX / 16);
        let tokens = estimate_tokens(item.content.as_str());
        r.push(ContextItem {
            uri: item.uri.clone(),
            content: item.content.clone(),
            priority: item.priority,
            estimated_tokens: tokens,
        });
        assert(reestimated(items@.take(i + 1)) =~= reestimated(items@.take(i as int)).push(
            reestimated_item(items@[i as int]),
        ));
        i += 1;
    }
    assert(items@.take(items@.len() as int) == items@);
    r
}

impl PromptBuilder {
    /// The system prompt configuration.
    pub closed spec fn config(&self) -> SystemPromptConfig {
        self.config
    }

    /// The token budget.
    pub closed spec fn budget(&self) -> TokenBudget {
        self.context_budget
    }

    /// The stored few-shot examples.
    pub closed spec fn examples(&self) -> Groups {
        self.few_shot_manager.groups()
    }

    /// A builder with the default budget and an empty few-shot store (10
    /// per category, 100 in all).
    pub fn new(config: SystemPromptConfig) -> (b: Self)
        ensures
            b.config() == config,
            b.budget().effective_max == 18700,
            b.budget().tool_response_reserve == 2000,
            b.examples() == Seq::<(Seq<char>, Seq<ExampleView>)>::empty(),
    {
        PromptBuilder {
            config,
            context_budget: TokenBudget::default(),
            few_shot_manager: FewShotManager::new(10, 100),
        }
    }

    /// The builder with another budget.
    pub fn with_budget(self, budget: TokenBudget) -> (b: Self)
        ensures
            b.config() == self.config(),
            b.budget() == budget,
            b.examples() == self.examples(),
    {
        let mut b = self;
        b.context_budget = budget;
        b
    }

    /// The builder listing the given MCP tools in its system prompt.
    pub fn with_tools(self, tools: Vec<(String, String)>) -> (b: Self)
        ensures
            b.config().tool_descriptions == tools,
            b.config().include_tools,
            b.config().agent_type == self.config().agent_type,
            b.config().target_language == self.config().target_language,
            b.config().fidelity == self.config().fidelity,
            b.config().compatibility_mode == self.config().compatibility_mode,
            b.budget() == self.budget(),
            b.examples() == self.examples(),
    {
        let mut b = self;
        b.config.tool_descriptions = tools;
        b.config.include_tools = true;
        b
    }

    /// The builder drawing few-shot examples from another store.
    pub fn with_few_shot(self, manager: FewShotManager) -> (b: Self)
        ensures
            b.config() == self.config(),
            b.budget() == self.budget(),
            b.examples() == manager.groups(),
    {
        let mut b = self;
        b.few_shot_manager = manager;
        b
    }

    /// Builds the complete prompt for a task (see `prompt_text` and
    /// `prompt_tokens`; the JSON text of the example inputs and the counts
    /// of their outputs are what serde_json gives for them).
    pub fn build(
        &self,
        task_instruction: &str,
        task_type: Option<&str>,
        dependency_context: &[ContextItem],
        working_set: &[ContextItem],
    ) -> (p: GeneratedPrompt)
        requires
            prompt_fits(self.config(), self.budget(), task_instruction@, dependency_context@, working_set@),
        ensures
            p.text@ == prompt_text(
                self.config(),
                self.budget(),
                self.examples(),
                task_instruction@,
                str_opt_view(task_type),
                dependency_context@,
                working_set@,
            ),
            p.estimated_tokens == prompt_tokens(
                self.config(),
                self.budget(),
                self.examples(),
                task_instruction@,
                str_opt_view(task_type),
                dependency_context@,
                working_set@,
            ),
    {
        let system = build_system_prompt(&self.config);
        let task_tokens = estimate_tokens(task_instruction);
        let (dep_fit, ws_fit) = self.fit_context(
            system.estimated_tokens,
            task_tokens,
            task_instruction,
            dependency_context,
            working_set,
        );
        let prompt = build_task_prompt(&system, task_instruction, dep_fit.as_str(), ws_fit.as_str(), &self.context_budget);
        match task_type {
            Some(tt) => self.add_extras(prompt, tt),
            None => prompt,
        }
    }

    /// The context fitted to the budget (see `fitted_context`).
    fn fit_context(
        &self,
        static_tokens: usize,
        task_tokens: usize,
        task_instruction: &str,
        dependency_context: &[ContextItem],
        working_set: &[ContextItem],
    ) -> (r: (String, String))
        requires
            static_tokens == spec_estimate_tokens(spec_system_prompt_text(self.config())),
            task_tokens == spec_estimate_tokens(task_instruction@),
            prompt_fits(self.config(), self.budget(), task_instruction@, dependency_context@, working_set@),
        ensures
            (r.0@, r.1@) == fitted_context(
                self.budget(),
                static_tokens as nat,
                task_tokens as nat,
                dependency_context@,
                working_set@,
            ),
    {
        let dep_str = context_lines(dependency_context, true);
        let ws_str = context_lines(working_set, true);
        let dep_tokens = estimate_tokens(dep_str.as_str());
        let ws_tokens = estimate_tokens(ws_str.as_str());
        proof {
            crate::prompt::system_prompt::lemma_estimate_bound(dep_str@);
            crate::prompt::system_prompt::lemma_estimate_bound(ws_str@);
        }
        let remaining = self.context_budget.remaining_budget(static_tokens, task_tokens);
        if dep_tokens + ws_tokens <= remaining {
            (dep_str, ws_str)
        } else {
            let dep_items = reestimate_items(dependency_context);
            let ws_items = reestimate_items(working_set);
            let dep_result = self.context_budget.fit_items(static_tokens, task_tokens, dep_items);
            let ws_result = self.context_budget.fit_items(
                static_tokens + task_tokens + dep_result.total_tokens,
                0,
                ws_items,
            );
            let dep_out = context_lines(dep_result.included.as_slice(), false);
            let trimmed_note = build_trimmed_placeholders(dep_result.trimmed.as_slice());
            proof {
                lemma_notice_views(dep_result.trimmed@);
            }
            let ws_out = context_lines(ws_result.included.as_slice(), false);
            let mut dep_text = dep_out;
            push_str(&mut dep_text, "\n");
            push_str(&mut dep_text, trimmed_note.as_str());
            (dep_text, ws_out)
        }
    }

    /// The prompt with the extras of a task type appended (see
    /// `extras_text` and `extras_tokens`).
    fn add_extras(&self, prompt: GeneratedPrompt, tt: &str) -> (r: GeneratedPrompt)
        ensures
            r.text@ == prompt.text@ + extras_text(self.config(), self.examples(), tt@),
            r.estimated_tokens == extras_tokens(prompt.estimated_tokens as nat, self.config(), self.examples(), tt@),
    {
        let mut prompt = prompt;
        let ghost base = prompt.text@;
        let ghost t0 = prompt.estimated_tokens as nat;
        let examples = self.few_shot_manager.select(tt, None, 3, 1500);
        let ghost sel = views(examples@);
        assert(sel == selection(self.examples(), tt@, None, 3, 1500));
        let ex_text = FewShotManager::format_examples(examples.as_slice());
        if examples.len() > 0 {
            push_str(&mut prompt.text, ex_text.as_str());
            let n = text_tokens(ex_text.as_str());
            prompt.estimated_tokens = saturating_sum(prompt.estimated_tokens, n);
        } else {
            assert(ex_text@ =~= Seq::<char>::empty());
            assert(base + Seq::<char>::empty() =~= base);
        }
        let hint = ToolOrchestrator::for_task(tt, self.config.agent_type);
        if !hint.is_empty() {
            push_str(&mut prompt.text, "\n\n─── ORCHESTRATION HINT ───\n");
            push_str(&mut prompt.text, hint);
            let n = text_tokens(hint);
            prompt.estimated_tokens = saturating_sum(prompt.estimated_tokens, n);
        }
        proof {
            assert(prompt.text@ =~= base + extras_text(self.config(), self.examples(), tt@));
        }
        prompt
    }
}

} // verus!
