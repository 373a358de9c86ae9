//! Durable ownership of the single Implementer in a Supervisor conversation.

use crate::plan::optional_int;
use crate::text::clip;
use crate::text::clip_text;
use crate::text::clone_text;
use crate::text::clone_texts;
use crate::text::lemma_clip_is_longest_prefix;
use crate::text::optional_text;
use crate::text::texts;
use crate::text::utf8_len;
use vstd::prelude::*;

verus! {

/// The most notes that a task keeps.
pub const MAX_NOTES: usize = 16;

/// The longest note, in bytes.
pub const MAX_NOTE: usize = 1024;

#[derive(Debug, PartialEq, Eq)]
pub struct SupervisorState {
    pub revision: i64,
    pub implementer_thread_id: Option<String>,
    pub execution_id: Option<String>,
    pub step_id: Option<String>,
    /// Project-local Markdown plan maintained by the host.
    pub plan_path: Option<String>,
    /// Bounded attention carried independently of the model conversation.
    pub pending_attention: Option<String>,
    /// Small host-owned notes that survive context compaction and model restarts.
    pub memory: Vec<String>,
    pub paused: bool,
    pub updated_at: i64,
    pub activity_sequence: i64,
    pub total_tokens: i64,
    pub token_budget: Option<i64>,
}

pub struct StateView {
    pub revision: int,
    pub implementer_thread_id: Option<Seq<char>>,
    pub execution_id: Option<Seq<char>>,
    pub step_id: Option<Seq<char>>,
    pub plan_path: Option<Seq<char>>,
    pub pending_attention: Option<Seq<char>>,
    pub memory: Seq<Seq<char>>,
    pub paused: bool,
    pub updated_at: int,
    pub activity_sequence: int,
    pub total_tokens: int,
    pub token_budget: Option<int>,
}

impl View for SupervisorState {
    type V = StateView;

    open spec fn view(&self) -> StateView {
        StateView {
            revision: self.revision as int,
            implementer_thread_id: optional_text(self.implementer_thread_id),
            execution_id: optional_text(self.execution_id),
            step_id: optional_text(self.step_id),
            plan_path: optional_text(self.plan_path),
            pending_attention: optional_text(self.pending_attention),
            memory: texts(self.memory@),
            paused: self.paused,
            updated_at: self.updated_at as int,
            activity_sequence: self.activity_sequence as int,
            total_tokens: self.total_tokens as int,
            token_budget: optional_int(self.token_budget),
        }
    }
}

/// The notes after one more. A long note is cut, and the oldest notes make room.
pub open spec fn noted(memory: Seq<Seq<char>>, text: Seq<char>) -> Seq<Seq<char>> {
    let all = memory.push(clip(text, MAX_NOTE as int));
    if all.len() <= MAX_NOTES {
        all
    } else {
        all.skip(all.len() - MAX_NOTES)
    }
}

/// The memory of a task is bounded: it never holds more than the most notes, the latest note is
/// the one that was just kept, and no note is longer than the longest one.
pub proof fn law_memory_is_bounded(memory: Seq<Seq<char>>, text: Seq<char>)
    requires
        forall|i: int| 0 <= i < memory.len() ==> utf8_len(#[trigger] memory[i]) <= MAX_NOTE,
    ensures
        0 < noted(memory, text).len() <= MAX_NOTES,
        noted(memory, text).last() == clip(text, MAX_NOTE as int),
        utf8_len(text) <= MAX_NOTE ==> noted(memory, text).last() == text,
        forall|i: int|
            0 <= i < noted(memory, text).len() ==> utf8_len(#[trigger] noted(memory, text)[i])
                <= MAX_NOTE,
{
    lemma_clip_is_longest_prefix(text, MAX_NOTE as int);
    let all = memory.push(clip(text, MAX_NOTE as int));
    assert forall|i: int| 0 <= i < all.len() implies utf8_len(#[trigger] all[i]) <= MAX_NOTE by {
        if i < memory.len() {
            assert(all[i] == memory[i]);
        }
    }
}

impl StateView {
    /// The state of a conversation that has planned nothing.
    pub open spec fn fresh() -> StateView {
        StateView {
            revision: 0,
            implementer_thread_id: None,
            execution_id: None,
            step_id: None,
            plan_path: None,
            pending_attention: None,
            memory: Seq::empty(),
            paused: false,
            updated_at: 0,
            activity_sequence: 0,
            total_tokens: 0,
            token_budget: None,
        }
    }

    /// Whether the tokens used have reached the budget.
    pub open spec fn budget_reached(self) -> bool {
        self.token_budget matches Some(budget) && self.total_tokens >= budget
    }
}

impl Default for SupervisorState {
    fn default() -> (state: Self)
        ensures
            state@ == StateView::fresh(),
    {
        let state = SupervisorState {
            revision: 0,
            implementer_thread_id: None,
            execution_id: None,
            step_id: None,
            plan_path: None,
            pending_attention: None,
            memory: Vec::new(),
            paused: false,
            updated_at: 0,
            activity_sequence: 0,
            total_tokens: 0,
            token_budget: None,
        };
        assert(state@.memory =~= Seq::empty());
        state
    }
}

impl Clone for SupervisorState {
    fn clone(&self) -> (copy: Self)
        ensures
            copy@ == self@,
    {
        SupervisorState {
            revision: self.revision,
            implementer_thread_id: clone_text(&self.implementer_thread_id),
            execution_id: clone_text(&self.execution_id),
            step_id: clone_text(&self.step_id),
            plan_path: clone_text(&self.plan_path),
            pending_attention: clone_text(&self.pending_attention),
            memory: clone_texts(&self.memory),
            paused: self.paused,
            updated_at: self.updated_at,
            activity_sequence: self.activity_sequence,
            total_tokens: self.total_tokens,
            token_budget: self.token_budget,
        }
    }
}

impl SupervisorState {
    /// Keeps a note.
    pub fn note(&mut self, text: &str)
        ensures
            final(self)@ == (StateView { memory: noted(old(self)@.memory, text@), ..old(self)@ }),
    {
        let note = clip_text(text, MAX_NOTE);
        let ghost before = self.memory@;
        let ghost view = note@;
        self.memory.push(note);
        assert(texts(self.memory@) =~= texts(before).push(view));
        let ghost all = texts(self.memory@);
        assert(all.skip(0) =~= all);
        while self.memory.len() > MAX_NOTES
            invariant
                texts(self.memory@).len() <= all.len(),
                texts(self.memory@) == all.skip(all.len() - self.memory@.len()),
                all.len() <= MAX_NOTES ==> self.memory@.len() == all.len(),
                all.len() > MAX_NOTES ==> self.memory@.len() >= MAX_NOTES,
                (StateView { memory: old(self)@.memory, ..self@ }) == old(self)@,
            decreases self.memory.len(),
        {
            let ghost rest = self.memory@;
            let _ = self.memory.remove(0);
            assert(texts(self.memory@) =~= texts(rest).skip(1));
            assert(texts(rest).skip(1) =~= all.skip(all.len() - self.memory@.len()));
        }
    }

    /// Whether the tokens used have reached the budget.
    pub fn is_budget_reached(&self) -> (yes: bool)
        ensures
            yes == self@.budget_reached(),
    {
        match self.token_budget {
            Some(budget) => self.total_tokens >= budget,
            None => false,
        }
    }
}

} // verus!
