//! The host's binding of an Implementer to its Supervisor and its execution epoch.

use crate::model::find_step;
use crate::model::step_position;
use crate::runtime::ExecutionTurn;
use crate::runtime::MessageStateView;
use crate::runtime::PlanRuntime;
use crate::runtime::RuntimeError;
use crate::runtime::RuntimeView;
use crate::runtime::TurnView;
use crate::supervisor_state::StateView;
use crate::text::optional_text;
use crate::text::same_text;
use crate::text::texts;
use std::collections::VecDeque;
use vstd::prelude::*;

verus! {

/// How many turns a binding remembers.
pub const MAX_TURNS: usize = 64;

/// The step that a turn worked on.
#[derive(Debug, PartialEq, Eq)]
pub struct TurnStep {
    pub turn_id: String,
    pub step_id: String,
    pub title: String,
}

pub struct TurnStepView {
    pub turn_id: Seq<char>,
    pub step_id: Seq<char>,
    pub title: Seq<char>,
}

impl View for TurnStep {
    type V = TurnStepView;

    open spec fn view(&self) -> TurnStepView {
        TurnStepView { turn_id: self.turn_id@, step_id: self.step_id@, title: self.title@ }
    }
}

pub open spec fn turn_step_views(steps: Seq<TurnStep>) -> Seq<TurnStepView> {
    steps.map_values(|step: TurnStep| step@)
}

/// Host binding; an Implementer cannot select another Supervisor or execution epoch.
#[derive(Debug, PartialEq, Eq)]
pub struct ImplementerBinding {
    pub execution_id: String,
    /// The most recent turns, the oldest first.
    pub turn_steps: VecDeque<TurnStep>,
}

/// How an activity of the Implementer is presented.
#[derive(Debug, PartialEq, Eq)]
pub struct Presentation {
    pub thread_id: String,
    pub execution_id: String,
    pub step_id: String,
    pub title: String,
}

pub struct PresentationView {
    pub thread_id: Seq<char>,
    pub execution_id: Seq<char>,
    pub step_id: Seq<char>,
    pub title: Seq<char>,
}

impl View for Presentation {
    type V = PresentationView;

    open spec fn view(&self) -> PresentationView {
        PresentationView {
            thread_id: self.thread_id@,
            execution_id: self.execution_id@,
            step_id: self.step_id@,
            title: self.title@,
        }
    }
}

/// The first remembered turn with an ID.
pub open spec fn turn_position(turns: Seq<TurnStepView>, id: Seq<char>) -> Option<int>
    decreases turns.len(),
{
    if turns.len() == 0 {
        None
    } else {
        match turn_position(turns.drop_last(), id) {
            Some(i) => Some(i),
            None => if turns.last().turn_id == id {
                Some(turns.len() - 1)
            } else {
                None
            },
        }
    }
}

proof fn lemma_turn_position_in_prefix(turns: Seq<TurnStepView>, id: Seq<char>, count: int)
    requires
        0 <= count <= turns.len(),
        turn_position(turns.take(count), id) is Some,
    ensures
        turn_position(turns, id) == turn_position(turns.take(count), id),
    decreases turns.len() - count,
{
    if count < turns.len() {
        assert(turns.take(count + 1).drop_last() =~= turns.take(count));
        lemma_turn_position_in_prefix(turns, id, count + 1);
    } else {
        assert(turns.take(count) =~= turns);
    }
}

/// The turns after one more; the oldest makes room where the memory is full.
pub open spec fn remembered(turns: Seq<TurnStepView>, turn: TurnStepView) -> Seq<TurnStepView> {
    if turns.len() == MAX_TURNS {
        turns.drop_first().push(turn)
    } else {
        turns.push(turn)
    }
}

/// A binding never remembers more turns than it has room for, and always the latest.
pub proof fn law_turns_are_bounded(turns: Seq<TurnStepView>, turn: TurnStepView)
    requires
        turns.len() <= MAX_TURNS,
    ensures
        0 < remembered(turns, turn).len() <= MAX_TURNS,
        remembered(turns, turn).last() == turn,
{
}

impl ImplementerBinding {
    pub open spec fn turns(self) -> Seq<TurnStepView> {
        turn_step_views(self.turn_steps@)
    }

    /// Remembers the step that a turn works on.
    pub fn remember_turn(&mut self, turn: TurnStep)
        ensures
            final(self).turns() == remembered(old(self).turns(), turn@),
            final(self).execution_id@ == old(self).execution_id@,
    {
        let ghost before = self.turn_steps@;
        let ghost view = turn@;
        if self.turn_steps.len() == MAX_TURNS {
            let _ = self.turn_steps.pop_front();
        }
        self.turn_steps.push_back(turn);
        assert(turn_step_views(self.turn_steps@) =~= remembered(turn_step_views(before), view));
    }

    /// How an activity in a turn is presented, where the turn is known and its execution is the
    /// resident one.
    pub fn presentation(&self, runtime: &PlanRuntime, turn_id: &str) -> (presentation: Option<
        Presentation,
    >)
        ensures
            (match presentation {
                Some(presentation) => Some(presentation@),
                None => None,
            }) == (if runtime@.implementer != Some(self.execution_id@) {
                None
            } else {
                match turn_position(self.turns(), turn_id@) {
                    None => None,
                    Some(i) => Some(
                        PresentationView {
                            thread_id: runtime@.thread_id,
                            execution_id: self.execution_id@,
                            step_id: self.turns()[i].step_id,
                            title: self.turns()[i].title,
                        },
                    ),
                }
            }),
    {
        if !runtime.implementer_matches(self.execution_id.as_str()) {
            return None;
        }
        let ghost turns = self.turns();
        let mut i: usize = 0;
        while i < self.turn_steps.len()
            invariant
                i <= self.turn_steps@.len(),
                turns == self.turns(),
                runtime@.implementer == Some(self.execution_id@),
                turn_position(turns.take(i as int), turn_id@) is None,
            decreases self.turn_steps.len() - i,
        {
            assert(turns.take(i + 1).drop_last() =~= turns.take(i as int));
            assert(turns[i as int] == self.turn_steps@[i as int]@);
            if same_text(self.turn_steps[i].turn_id.as_str(), turn_id) {
                proof {
                    lemma_turn_position_in_prefix(turns, turn_id@, i + 1);
                }
                return Some(
                    Presentation {
                        thread_id: runtime.thread_id.clone(),
                        execution_id: self.execution_id.clone(),
                        step_id: self.turn_steps[i].step_id.clone(),
                        title: self.turn_steps[i].title.clone(),
                    },
                );
            }
            i += 1;
        }
        assert(turns.take(i as int) =~= turns);
        None
    }

    /// Whether an activity of this execution may be recorded. Without a runtime the Supervisor
    /// has stopped.
    pub fn check_activity(&self, runtime: Option<&PlanRuntime>) -> (result: Result<
        (),
        RuntimeError,
    >)
        ensures
            result == (match runtime {
                None => Err::<(), RuntimeError>(RuntimeError::SupervisorStopped),
                Some(runtime) => if runtime@.implementer == Some(self.execution_id@) {
                    Ok(())
                } else {
                    Err(RuntimeError::StaleActivity)
                },
            }),
    {
        match runtime {
            None => Err(RuntimeError::SupervisorStopped),
            Some(runtime) => if runtime.implementer_matches(self.execution_id.as_str()) {
                Ok(())
            } else {
                Err(RuntimeError::StaleActivity)
            },
        }
    }

    /// Records the replay cursor of an activity that the host has stored.
    pub fn record_activity(&self, runtime: &mut PlanRuntime, sequence: i64)
        ensures
            final(runtime)@ == (RuntimeView {
                state: StateView { activity_sequence: sequence as int, ..old(runtime)@.state },
                ..old(runtime)@
            }),
    {
        runtime.state.activity_sequence = sequence;
    }

    /// The conversation that this execution belongs to, while its Supervisor has not stopped.
    pub fn supervisor_thread_id(&self, runtime: Option<&PlanRuntime>) -> (id: Option<String>)
        ensures
            optional_text(id) == (match runtime {
                Some(runtime) => Some(runtime@.thread_id),
                None => None,
            }),
    {
        match runtime {
            Some(runtime) => Some(runtime.thread_id.clone()),
            None => None,
        }
    }
}

impl PlanRuntime {
    /// Captures a new execution turn where a step is selected. The title of the step, where the
    /// plan has it, is for the binding to remember.
    pub fn start_turn(&mut self, turn_id: &str, execution_id: &str) -> (started: Option<
        (ExecutionTurn, Option<TurnStep>),
    >)
        ensures
            match old(self)@.state.step_id {
                None => started is None && final(self)@ == old(self)@,
                Some(step_id) => {
                    let turn = TurnView {
                        turn_id: turn_id@,
                        execution_id: execution_id@,
                        step_id,
                        generation: old(self)@.messages.generation,
                    };
                    let found = match old(self)@.plan {
                        Some(plan) => step_position(plan.steps, step_id),
                        None => None,
                    };
                    &&& final(self)@ == (RuntimeView {
                        messages: MessageStateView {
                            turn: Some(turn),
                            ..old(self)@.messages
                        },
                        ..old(self)@
                    })
                    &&& started is Some
                    &&& (started->0).0@ == turn
                    &&& match found {
                        None => (started->0).1 is None,
                        Some(i) => (started->0).1 matches Some(step) && step@ == (TurnStepView {
                            turn_id: turn_id@,
                            step_id,
                            title: old(self)@.plan->0.steps[i].definition.title,
                        }),
                    }
                },
            },
    {
        let step_id = match &self.state.step_id {
            None => {
                return None;
            },
            Some(step_id) => step_id.clone(),
        };
        let turn = ExecutionTurn {
            turn_id: turn_id.to_owned(),
            execution_id: execution_id.to_owned(),
            step_id: step_id.clone(),
            generation: self.messages.generation,
        };
        self.messages.turn = Some(turn.clone());
        let step = match &self.plan {
            None => None,
            Some(plan) => match find_step(&plan.steps, &step_id) {
                None => None,
                Some(i) => {
                    assert(plan@.steps[i as int] == plan.steps@[i as int]@);
                    Some(
                        TurnStep {
                            turn_id: turn_id.to_owned(),
                            step_id,
                            title: plan.steps[i].definition.title.clone(),
                        },
                    )
                },
            },
        };
        Some((turn, step))
    }

    /// Records that a tool of an execution has finished; a stale one does not count.
    pub fn record_tool(&mut self, execution_id: &str, now: i64)
        ensures
            final(self)@ == (if old(self)@.implementer == Some(execution_id@) {
                RuntimeView { activity_at: now as int, ..old(self)@ }
            } else {
                old(self)@
            }),
    {
        if self.implementer_matches(execution_id) {
            self.activity_at = now;
        }
    }
}

/// What the host knows of a conversation's work.
#[derive(Clone, Copy, Debug, PartialEq, Eq, Structural)]
pub enum AgentStatus {
    Idle,
    Running,
    Shutdown,
}

/// How an Implementer is started: one level deeper than its parent allows its own agents, and
/// with neither goals, plans nor questions to the user.
#[derive(Clone, Copy, Debug, PartialEq, Eq, Structural)]
pub struct ImplementerSettings {
    pub agent_max_depth: i32,
    pub depth: i32,
    pub fresh_context: bool,
    pub goals_enabled: bool,
    pub update_plan_enabled: bool,
    pub request_user_input_enabled: bool,
}

/// The settings of a new Implementer. `parent_depth` is the depth of the parent where it was
/// itself spawned. The owned execution slot does not consume a level of delegation.
pub fn implementer_settings(
    agent_max_depth: i32,
    parent_depth: Option<i32>,
    fresh_context: bool,
) -> (settings: ImplementerSettings)
    requires
        parent_depth matches Some(depth) ==> depth < i32::MAX,
    ensures
        settings == (ImplementerSettings {
            agent_max_depth: if agent_max_depth == i32::MAX {
                i32::MAX
            } else {
                (agent_max_depth + 1) as i32
            },
            depth: match parent_depth {
                Some(depth) => (depth + 1) as i32,
                None => 1,
            },
            fresh_context,
            goals_enabled: false,
            update_plan_enabled: false,
            request_user_input_enabled: false,
        }),
{
    ImplementerSettings {
        agent_max_depth: if agent_max_depth == i32::MAX {
            i32::MAX
        } else {
            agent_max_depth + 1
        },
        depth: match parent_depth {
            Some(depth) => depth + 1,
            None => 1,
        },
        fresh_context,
        goals_enabled: false,
        update_plan_enabled: false,
        request_user_input_enabled: false,
    }
}

/// The conversations of a subtree other than its root, in order.
pub open spec fn without_root(ids: Seq<Seq<char>>, root: Seq<char>) -> Seq<Seq<char>>
    decreases ids.len(),
{
    if ids.len() == 0 {
        Seq::empty()
    } else if ids.last() == root {
        without_root(ids.drop_last(), root)
    } else {
        without_root(ids.drop_last(), root).push(ids.last())
    }
}

impl PlanRuntime {
    /// The delegated conversations that an interruption has to reach beside the Implementer. The
    /// spawner is stopped first; a conversation that is shut down has nothing to interrupt.
    pub fn interrupted_conversations(&self, status: AgentStatus, subtree: &Vec<String>) -> (result:
        Result<Option<Vec<String>>, RuntimeError>)
        ensures
            match status {
                AgentStatus::Shutdown => result == Ok::<Option<Vec<String>>, RuntimeError>(None),
                _ => match self@.state.implementer_thread_id {
                    None => result == Err::<Option<Vec<String>>, RuntimeError>(
                        RuntimeError::MissingIdentity,
                    ),
                    Some(root) => result matches Ok(Some(ids)) && texts(ids@) == without_root(
                        texts(subtree@),
                        root,
                    ),
                },
            },
    {
        match status {
            AgentStatus::Shutdown => {
                return Ok(None);
            },
            _ => {},
        }
        match &self.state.implementer_thread_id {
            None => Err(RuntimeError::MissingIdentity),
            Some(root) => {
                let ghost whole = texts(subtree@);
                let mut ids: Vec<String> = Vec::new();
                let mut i: usize = 0;
                assert(whole.take(0) =~= Seq::empty());
                assert(texts(ids@) =~= Seq::empty());
                while i < subtree.len()
                    invariant
                        i <= subtree@.len(),
                        whole == texts(subtree@),
                        texts(ids@) == without_root(whole.take(i as int), root@),
                    decreases subtree.len() - i,
                {
                    assert(whole.take(i + 1).drop_last() =~= whole.take(i as int));
                    assert(whole.take(i + 1).last() == subtree@[i as int]@);
                    if subtree[i] != *root {
                        let ghost before = ids@;
                        ids.push(subtree[i].clone());
                        assert(texts(ids@) =~= texts(before).push(subtree@[i as int]@));
                    }
                    i += 1;
                }
                assert(whole.take(i as int) =~= whole);
                Ok(Some(ids))
            },
        }
    }
}

} // verus!
