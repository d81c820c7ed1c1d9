//! Guided and interactive workflows: the decisions taken from a user's
//! answers to review prompts, and the record of an interactive session.
//!
//! The prompting itself is the caller's; here an answer, as typed, is
//! turned into the user's decision (or into the need for one more prompt).

use vstd::prelude::*;
use crate::text::{chars_of, lowercase, matches_at, starts_with, str_eq, to_lowercase};

verus! {

/// Interaction mode selected by the user.
#[derive(Debug, Clone, Copy, PartialEq, Eq)]
pub enum InteractionMode {
    /// Fully automatic: no user intervention.
    Automatic,
    /// Guided: the user approves decisions at key points.
    Guided,
    /// Interactive: the agent asks questions, the user answers.
    Interactive,
}

/// User response to a review item.
#[derive(Debug, Clone)]
pub enum UserDecision {
    /// Accept the proposal as-is.
    Accept,
    /// Accept with modifications (the new proposal text).
    Modify(String),
    /// Reject the proposal.
    Reject,
    /// One of the offered options, or a free answer.
    Select(String),
}

/// What follows an answer to a design decision prompt.
#[derive(Debug, Clone, Copy, PartialEq, Eq)]
pub enum DesignAnswer {
    /// The decision is accepted.
    Accept,
    /// The decision is rejected.
    Reject,
    /// The user wants to edit: ask for the updated proposal, which becomes
    /// a `Modify` decision.
    AskForEdit,
}

/// A question-answer pair recorded during an interactive session.
#[derive(Debug, Clone)]
pub struct QAPair {
    pub question: String,
    pub answer: String,
}

/// Answers collected during interactive mode.
#[derive(Debug)]
pub struct InteractiveContext {
    pub qa_history: Vec<QAPair>,
    pub decisions_accepted: Vec<String>,
    pub decisions_rejected: Vec<String>,
}

impl Default for InteractiveContext {
    fn default() -> (c: Self)
        ensures
            c.qa_history@.len() == 0,
            c.decisions_accepted@.len() == 0,
            c.decisions_rejected@.len() == 0,
    {
        InteractiveContext { qa_history: Vec::new(), decisions_accepted: Vec::new(), decisions_rejected: Vec::new() }
    }
}

impl InteractiveContext {
    /// Records a question and its answer at the end of the history.
    pub fn record_answer(&mut self, question: &str, answer: &str)
        ensures
            final(self).qa_history@.len() == old(self).qa_history@.len() + 1,
            forall|i: int| 0 <= i < old(self).qa_history@.len() ==> final(self).qa_history@[i] == old(self).qa_history@[i],
            final(self).qa_history@.last().question@ == question@,
            final(self).qa_history@.last().answer@ == answer@,
            final(self).decisions_accepted == old(self).decisions_accepted,
            final(self).decisions_rejected == old(self).decisions_rejected,
    {
        self.qa_history.push(QAPair { question: question.to_owned(), answer: answer.to_owned() });
    }
}

/// An answer that approves: empty, `y` or `yes`, in any case.
pub open spec fn approves(answer: Seq<char>) -> bool {
    let l = lowercase(answer);
    l == ""@ || l == "y"@ || l == "yes"@
}

/// An answer that declines: `n` or `no`, in any case.
pub open spec fn declines(answer: Seq<char>) -> bool {
    let l = lowercase(answer);
    l == "n"@ || l == "no"@
}

/// What an answer to a design decision prompt leads to. In interactive mode
/// an approval accepts, a refusal rejects, an answer starting with `e`
/// (as typed) asks for an edit, anything else rejects; in guided mode only
/// an approval accepts.
pub open spec fn design_answer(interactive: bool, answer: Seq<char>) -> DesignAnswer {
    if approves(answer) {
        DesignAnswer::Accept
    } else if !interactive {
        DesignAnswer::Reject
    } else if declines(answer) {
        DesignAnswer::Reject
    } else if starts_with(answer, "e"@) {
        DesignAnswer::AskForEdit
    } else {
        DesignAnswer::Reject
    }
}

fn lowered_is(lower: &str, word: &str) -> (r: bool)
    ensures
        r == (lower@ == word@),
{
    str_eq(lower, word)
}

/// Turns an answer to a design decision prompt into what follows (see
/// `design_answer`).
pub fn design_decision_answer(interactive: bool, answer: &str) -> (r: DesignAnswer)
    ensures
        r == design_answer(interactive, answer@),
{
    let lower = to_lowercase(answer);
    let l = lower.as_str();
    if lowered_is(l, "") || lowered_is(l, "y") || lowered_is(l, "yes") {
        return DesignAnswer::Accept;
    }
    if !interactive {
        return DesignAnswer::Reject;
    }
    if lowered_is(l, "n") || lowered_is(l, "no") {
        return DesignAnswer::Reject;
    }
    let a = chars_of(answer);
    let e = chars_of("e");
    proof {
        assert(a@.skip(0) == a@);
    }
    if matches_at(a.as_slice(), 0, e.as_slice()) {
        DesignAnswer::AskForEdit
    } else {
        DesignAnswer::Reject
    }
}

/// Turns an answer about a compatibility layer into the user's decision:
/// `k`/`keep` (or anything unrecognised) accepts, `m`/`mark` asks for a
/// `deprecated` mark, `r`/`remove` rejects; case is ignored.
pub fn compat_layer_answer(answer: &str) -> (r: UserDecision)
    ensures
        ({
            let l = lowercase(answer@);
            if l == "m"@ || l == "mark"@ {
                r matches UserDecision::Modify(m) && m@ == "deprecated"@
            } else if l == "r"@ || l == "remove"@ {
                r is Reject
            } else {
                r is Accept
            }
        }),
{
    let lower = to_lowercase(answer);
    let l = lower.as_str();
    if lowered_is(l, "k") || lowered_is(l, "keep") {
        proof {
            reveal_strlit("k");
            reveal_strlit("keep");
            reveal_strlit("m");
            reveal_strlit("mark");
            reveal_strlit("r");
            reveal_strlit("remove");
            assert("k"@[0] == 'k' && "keep"@[0] == 'k');
            assert("m"@[0] == 'm' && "mark"@[0] == 'm');
            assert("r"@[0] == 'r' && "remove"@[0] == 'r');
        }
        UserDecision::Accept
    } else if lowered_is(l, "m") || lowered_is(l, "mark") {
        UserDecision::Modify("deprecated".to_owned())
    } else if lowered_is(l, "r") || lowered_is(l, "remove") {
        UserDecision::Reject
    } else {
        UserDecision::Accept
    }
}

/// An answer to a clarification question is taken as the user's selection.
pub fn clarification_answer(answer: &str) -> (r: UserDecision)
    ensures
        r matches UserDecision::Select(s) && s@ == answer@,
{
    UserDecision::Select(answer.to_owned())
}

} // verus!
