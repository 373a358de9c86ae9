//! What the start, the restoration, the turns and the end of a conversation mean for its runtime.

use crate::attention::ImplementerReply;
use crate::attention::optional_reply;
use crate::evidence::holds;
use crate::evidence::text_holds;
use crate::model::plan_option;
use crate::plan::saturate;
use crate::plan::saturating_sum;
use crate::plan::step_views;
use crate::plan::ContinuousPlanning;
use crate::plan::PlanView;
use crate::plan::StepView;
use crate::plan::TimedPlanStep;
use crate::runtime::halt_plan;
use crate::runtime::MessageState;
use crate::runtime::MessageStateView;
use crate::runtime::PlanRuntime;
use crate::runtime::RuntimeView;
use crate::supervisor_state::StateView;
use crate::supervisor_state::SupervisorState;
use crate::text::clone_text;
use crate::text::optional_text;
use crate::text::same_text;
use vstd::prelude::*;
use vstd::string::StringExecFns;

verus! {

/// Why the plan is frozen when a conversation is restored.
pub const RESTORED_REASON: &'static str = "Supervisor restored; continue only on user instruction";

/// What marks the error of a turn as one of the message protocol.
pub const MESSAGE_ERROR: &'static str = "Continuous Planning message error";

/// A conversation as it starts.
#[derive(Debug, PartialEq, Eq)]
pub struct ThreadStart {
    /// The conversation is bound to a Supervisor as its Implementer.
    pub bound: bool,
    pub agent_role: Option<String>,
    pub non_root_agent: bool,
    /// A non-root agent that was spawned as a conversation of its own.
    pub spawned_thread: bool,
    pub persistent: bool,
    pub feature_enabled: bool,
}

impl ThreadStart {
    /// Whether the conversation gets a Supervisor: neither an Implementer nor another kind of
    /// helper does, nor one that cannot keep its state.
    pub open spec fn supervised(self) -> bool {
        &&& !self.bound
        &&& optional_text(self.agent_role) != Some("implementer"@)
        &&& !(self.non_root_agent && !self.spawned_thread)
        &&& self.persistent
        &&& self.feature_enabled
    }

    pub fn is_supervised(&self) -> (yes: bool)
        ensures
            yes == self.supervised(),
    {
        let implementer = match &self.agent_role {
            Some(role) => same_text(role.as_str(), "implementer"),
            None => false,
        };
        !self.bound && !implementer && !(self.non_root_agent && !self.spawned_thread)
            && self.persistent && self.feature_enabled
    }
}

pub open spec fn read_plan_view(result: Result<Option<ContinuousPlanning>, String>) -> Result<
    Option<PlanView>,
    Seq<char>,
> {
    match result {
        Ok(plan) => Ok(plan_option(plan)),
        Err(error) => Err(error@),
    }
}

pub open spec fn state_option(state: Option<SupervisorState>) -> Option<StateView> {
    match state {
        Some(state) => Some(state@),
        None => None,
    }
}

pub open spec fn read_state_view(result: Result<Option<SupervisorState>, String>) -> Result<
    Option<StateView>,
    Seq<char>,
> {
    match result {
        Ok(state) => Ok(state_option(state)),
        Err(error) => Err(error@),
    }
}

pub open spec fn unreadable(error: Seq<char>) -> Seq<char> {
    "Cannot restore Continuous Planning state: "@ + error
        + ". The stored data is preserved; execution is disabled."@
}

/// Why stored state cannot be restored: it cannot be read, or one half of it is missing.
pub open spec fn restore_fault(
    plan: Result<Option<PlanView>, Seq<char>>,
    state: Result<Option<StateView>, Seq<char>>,
) -> Option<Seq<char>> {
    match (plan, state) {
        (Err(error), _) => Some(unreadable(error)),
        (Ok(_), Err(error)) => Some(unreadable(error)),
        (Ok(Some(_)), Ok(None)) => Some(
            "Cannot restore Continuous Planning without its ownership state. The stored plan is preserved; execution is disabled."@,
        ),
        (Ok(None), Ok(Some(_))) => Some(
            "Cannot restore Continuous Planning without its plan. The stored ownership state is preserved; execution is disabled."@,
        ),
        (Ok(_), Ok(_)) => None,
    }
}

/// The runtime of a conversation that starts. What was stored comes back paused; execution never
/// survives a restart.
pub open spec fn restored(
    thread_id: Seq<char>,
    plan: Result<Option<PlanView>, Seq<char>>,
    state: Result<Option<StateView>, Seq<char>>,
    now: int,
) -> RuntimeView {
    let known = match state {
        Ok(state) => state,
        Err(_) => None,
    };
    let fault = restore_fault(plan, state);
    RuntimeView {
        thread_id,
        restore_error: fault,
        plan: match plan {
            Ok(plan) => plan,
            Err(_) => None,
        },
        state: StateView {
            paused: known is Some || fault is Some,
            ..match known {
                Some(state) => state,
                None => StateView::fresh(),
            }
        },
        implementer: None,
        messages: MessageStateView::fresh(),
        evidence_review: None,
        active: false,
        stopped: false,
        activity_at: now,
        notified_at: 0,
    }
}

fn unreadable_text(error: &String) -> (text: String)
    ensures
        text@ == unreadable(error@),
{
    let mut text = "Cannot restore Continuous Planning state: ".to_owned();
    text.append(error.as_str());
    text.append(". The stored data is preserved; execution is disabled.");
    text
}

fn find_restore_fault(
    plan: &Result<Option<ContinuousPlanning>, String>,
    state: &Result<Option<SupervisorState>, String>,
) -> (fault: Option<String>)
    ensures
        optional_text(fault) == restore_fault(read_plan_view(*plan), read_state_view(*state)),
{
    match plan {
        Err(error) => Some(unreadable_text(error)),
        Ok(plan) => match state {
            Err(error) => Some(unreadable_text(error)),
            Ok(state) => {
                if plan.is_some() && state.is_none() {
                    Some(
                        "Cannot restore Continuous Planning without its ownership state. The stored plan is preserved; execution is disabled.".to_owned(),
                    )
                } else if plan.is_none() && state.is_some() {
                    Some(
                        "Cannot restore Continuous Planning without its plan. The stored ownership state is preserved; execution is disabled.".to_owned(),
                    )
                } else {
                    None
                }
            },
        },
    }
}

/// What the host does once a conversation is ready.
#[derive(Clone, Copy, Debug, PartialEq, Eq, Structural)]
pub struct ReadyStep {
    /// Freeze the restored plan.
    pub freeze: bool,
    /// Watch the plan from now on.
    pub watch: bool,
}

/// How the end of a turn of the Supervisor goes on.
#[derive(Debug, PartialEq, Eq)]
pub enum TurnStepAfter {
    /// Suspend execution.
    Pause,
    /// Send the feedback where there is some, then flush attention.
    Continue { feedback: Option<String> },
}

pub open spec fn correction_after_turn(error: Seq<char>) -> Seq<char> {
    error
        + ". The complete batch was rejected. Send one corrected complete batch; this is the only correction attempt."@
}

impl RuntimeView {
    /// Whether the error of a turn is one of the message protocol.
    pub open spec fn message_fault(error: Option<Seq<char>>) -> bool {
        error matches Some(error) && holds(error, MESSAGE_ERROR@)
    }

    /// The feedback that the end of a turn leaves to be sent.
    pub open spec fn feedback_after_turn(self, error: Option<Seq<char>>) -> Option<Seq<char>> {
        if RuntimeView::message_fault(error) && !self.messages.correction_attempted {
            Some(correction_after_turn(error->0))
        } else {
            self.messages.feedback
        }
    }

    pub open spec fn with_tokens(self, tokens: int, now: int) -> RuntimeView {
        RuntimeView {
            state: StateView {
                total_tokens: saturate(self.state.total_tokens + tokens),
                ..self.state
            },
            ..self
        }.stamped(now)
    }
}

impl PlanRuntime {
    /// The runtime of a conversation that starts, with what the host could read of its past.
    pub fn restore(
        thread_id: String,
        plan: Result<Option<ContinuousPlanning>, String>,
        state: Result<Option<SupervisorState>, String>,
        now: i64,
    ) -> (runtime: Self)
        ensures
            runtime@ == restored(
                thread_id@,
                read_plan_view(plan),
                read_state_view(state),
                now as int,
            ),
    {
        let restore_error = find_restore_fault(&plan, &state);
        let known = match state {
            Ok(state) => state,
            Err(_) => None,
        };
        let paused = known.is_some() || restore_error.is_some();
        let mut state = match known {
            Some(state) => state,
            None => SupervisorState::default(),
        };
        state.paused = paused;
        PlanRuntime {
            thread_id,
            restore_error,
            plan: match plan {
                Ok(plan) => plan,
                Err(_) => None,
            },
            state,
            implementer: None,
            messages: MessageState::default(),
            evidence_review: None,
            active: false,
            stopped: false,
            activity_at: now,
            notified_at: 0,
        }
    }

    /// Stops the clocks of a restored plan at the last time that was recorded: time that nobody
    /// worked does not count.
    pub fn ready(&mut self) -> (step: ReadyStep)
        ensures
            step == (ReadyStep {
                freeze: old(self)@.restore_error is None && old(self)@.plan is Some,
                watch: old(self)@.restore_error is None,
            }),
            final(self)@ == (if old(self)@.restore_error is Some {
                old(self)@
            } else {
                RuntimeView {
                    plan: match old(self)@.plan {
                        Some(plan) => Some(plan.halted(plan.updated_at)),
                        None => None,
                    },
                    ..old(self)@
                }
            }),
    {
        if self.restore_error.is_some() {
            return ReadyStep { freeze: false, watch: false };
        }
        let mut plan: Option<ContinuousPlanning> = None;
        std::mem::swap(&mut plan, &mut self.plan);
        match plan {
            Some(task) => {
                let mut task = task;
                let at = task.updated_at;
                halt_plan(&mut task, at);
                self.plan = Some(task);
                ReadyStep { freeze: true, watch: true }
            },
            None => ReadyStep { freeze: false, watch: true },
        }
    }

    /// Stops the runtime for good. The result says whether the host goes on to suspend it.
    pub fn stop(&mut self) -> (suspend: bool)
        ensures
            suspend == (old(self)@.restore_error is None),
            final(self)@ == (RuntimeView {
                stopped: old(self)@.stopped || suspend,
                ..old(self)@
            }),
    {
        if self.restore_error.is_some() {
            return false;
        }
        self.stopped = true;
        true
    }

    /// Ends a turn of the Supervisor. A fault of the message protocol gets one correction
    /// attempt; the next one in a row pauses.
    pub fn finish_turn(&mut self, error: &Option<String>) -> (step: TurnStepAfter)
        ensures
            ({
                let fault = RuntimeView::message_fault(optional_text(*error));
                let pause = fault && old(self)@.messages.correction_attempted;
                &&& pause ==> step == TurnStepAfter::Pause
                &&& !pause ==> (step matches TurnStepAfter::Continue { feedback }
                    && optional_text(feedback) == old(self)@.feedback_after_turn(
                    optional_text(*error),
                ))
                &&& final(self)@ == (RuntimeView {
                    messages: MessageStateView {
                        correction_attempted: old(self)@.messages.correction_attempted || fault,
                        feedback: None,
                        ..old(self)@.messages
                    },
                    ..old(self)@
                })
            }),
    {
        match error {
            Some(error) => {
                if text_holds(error.as_str(), MESSAGE_ERROR) {
                    if self.messages.correction_attempted {
                        self.messages.feedback = None;
                        return TurnStepAfter::Pause;
                    }
                    self.messages.correction_attempted = true;
                    let mut feedback = error.clone();
                    feedback.append(
                        ". The complete batch was rejected. Send one corrected complete batch; this is the only correction attempt.",
                    );
                    self.messages.feedback = Some(feedback);
                }
            },
            None => {},
        }
        let mut feedback: Option<String> = None;
        std::mem::swap(&mut feedback, &mut self.messages.feedback);
        TurnStepAfter::Continue { feedback }
    }

    /// Counts tokens against the budget. The result is nothing where the runtime is disabled, and
    /// else says whether the budget is reached and execution has to stop; either way the host
    /// saves the state.
    pub fn use_tokens(&mut self, tokens: i64, now: i64) -> (exceeded: Option<bool>)
        requires
            old(self)@.state.revision < i64::MAX,
        ensures
            exceeded == (if old(self)@.restore_error is Some {
                None
            } else {
                Some(final(self)@.state.budget_reached())
            }),
            final(self)@ == (if old(self)@.restore_error is Some {
                old(self)@
            } else {
                old(self)@.with_tokens(tokens as int, now as int)
            }),
    {
        if self.restore_error.is_some() {
            return None;
        }
        self.state.total_tokens = saturating_sum(self.state.total_tokens, tokens);
        self.save_state(now);
        Some(self.state.is_budget_reached())
    }
}

/// The reply that the end of an Implementer's turn reports: none where the turn failed.
pub fn turn_report(failed: bool, reply: &Option<ImplementerReply>) -> (report: Option<
    ImplementerReply,
>)
    ensures
        optional_reply(report) == (if failed {
            None
        } else {
            optional_reply(*reply)
        }),
{
    if failed {
        return None;
    }
    match reply {
        Some(reply) => Some(reply.clone()),
        None => None,
    }
}

/// What a fork takes over from its source.
#[derive(Debug)]
pub enum ForkStep {
    /// The source has neither a plan nor a state.
    Nothing,
    /// Adopt the snapshot, paused, with a copy of the source's Implementer where it has one.
    Adopt {
        plan: Option<ContinuousPlanning>,
        state: SupervisorState,
        implementer_thread_id: Option<String>,
    },
}

/// Copies stored Supervisor state into a fork. The destination is paused until the user resumes
/// it explicitly.
pub fn fork_supervisor(
    source_thread_id: &str,
    plan: Option<ContinuousPlanning>,
    state: Option<SupervisorState>,
) -> (result: Result<ForkStep, String>)
    ensures
        match state_option(state) {
            None => if plan is Some {
                result matches Err(error) && error@
                    == "Supervisor plan has no persisted ownership state for "@
                    + source_thread_id@
            } else {
                result matches Ok(ForkStep::Nothing)
            },
            Some(stored) => result matches Ok(
                ForkStep::Adopt { plan: adopted, state: kept, implementer_thread_id },
            ) && plan_option(adopted) == plan_option(plan) && kept@ == (StateView {
                paused: true,
                ..stored
            }) && optional_text(implementer_thread_id) == (if plan is Some {
                stored.implementer_thread_id
            } else {
                None
            }),
        },
{
    match state {
        None => {
            if plan.is_some() {
                let mut error =
                    "Supervisor plan has no persisted ownership state for ".to_owned();
                error.append(source_thread_id);
                Err(error)
            } else {
                Ok(ForkStep::Nothing)
            }
        },
        Some(state) => {
            let mut state = state;
            let implementer_thread_id = if plan.is_some() {
                clone_text(&state.implementer_thread_id)
            } else {
                None
            };
            state.paused = true;
            Ok(ForkStep::Adopt { plan, state, implementer_thread_id })
        },
    }
}

impl StepView {
    /// A step that another conversation takes over.
    pub open spec fn handed_over(self, from: Seq<char>, to: Seq<char>) -> StepView {
        StepView {
            owner: if self.owner == from {
                to
            } else {
                self.owner
            },
            ..self
        }
    }
}

impl RuntimeView {
    /// The first revision of a fork: the plan of the source with every clock stopped where it was
    /// last recorded, in the hands of the fork, and next in the fork's own history.
    pub open spec fn forked_plan(self, source: Seq<char>, plan: PlanView) -> PlanView {
        PlanView {
            version: match self.plan {
                Some(plan) => plan.version + 1,
                None => 1,
            },
            steps: plan.halted(plan.updated_at).steps.map_values(
                |step: StepView| step.handed_over(source, self.thread_id),
            ),
            ..plan
        }
    }

    /// The runtime of a fork that has taken over the state of its source: paused, and with an
    /// Implementer that is not resident.
    pub open spec fn forked(
        self,
        state: StateView,
        implementer_thread_id: Option<Seq<char>>,
    ) -> RuntimeView {
        RuntimeView {
            state: StateView { implementer_thread_id, paused: true, ..state },
            implementer: None,
            evidence_review: None,
            active: false,
            ..self
        }
    }
}

fn hand_over(steps: &mut Vec<TimedPlanStep>, from: &str, to: &str)
    ensures
        step_views(final(steps)@) == step_views(old(steps)@).map_values(
            |step: StepView| step.handed_over(from@, to@),
        ),
{
    let ghost before = steps@;
    let mut i: usize = 0;
    while i < steps.len()
        invariant
            i <= steps@.len(),
            steps@.len() == before.len(),
            forall|k: int| 0 <= k < i ==> (#[trigger] steps@[k])@ == before[k]@.handed_over(from@, to@),
            forall|k: int| i <= k < steps@.len() ==> (#[trigger] steps@[k]) == before[k],
        decreases steps.len() - i,
    {
        if same_text(steps[i].owner.as_str(), from) {
            let mut step = steps[i].clone();
            step.owner = to.to_owned();
            steps.set(i, step);
        }
        i += 1;
    }
    assert(step_views(steps@) =~= step_views(before).map_values(
        |step: StepView| step.handed_over(from@, to@),
    ));
}

impl PlanRuntime {
    /// The plan that a fork stores as its own before it takes over the state of its source.
    pub fn fork_plan(&self, source_thread_id: &str, plan: ContinuousPlanning) -> (own:
        ContinuousPlanning)
        requires
            self@.plan matches Some(plan) ==> plan.version < i64::MAX,
        ensures
            own@ == self@.forked_plan(source_thread_id@, plan@),
    {
        let mut own = plan;
        let at = own.updated_at;
        halt_plan(&mut own, at);
        let mut steps: Vec<TimedPlanStep> = Vec::new();
        std::mem::swap(&mut steps, &mut own.steps);
        hand_over(&mut steps, source_thread_id, self.thread_id.as_str());
        own.steps = steps;
        own.version = match &self.plan {
            Some(current) => current.version + 1,
            None => 1,
        };
        own
    }

    /// Takes over the state of the conversation that this one was forked from.
    pub fn adopt_fork(&mut self, state: SupervisorState, implementer_thread_id: Option<String>)
        ensures
            final(self)@ == old(self)@.forked(state@, optional_text(implementer_thread_id)),
    {
        self.state = state;
        self.state.implementer_thread_id = implementer_thread_id;
        self.state.paused = true;
        self.implementer = None;
        self.evidence_review = None;
        self.active = false;
    }
}

/// A fork executes nothing until it is resumed: it is paused and inactive, no clock of its plan
/// runs, and what the source owned the fork owns.
pub proof fn law_forks_are_paused(
    fork: RuntimeView,
    source: Seq<char>,
    plan: PlanView,
    state: StateView,
    implementer_thread_id: Option<Seq<char>>,
    i: int,
)
    requires
        0 <= i < plan.steps.len(),
    ensures
        fork.forked(state, implementer_thread_id).state.paused,
        !fork.forked(state, implementer_thread_id).active,
        fork.forked(state, implementer_thread_id).implementer is None,
        fork.forked_plan(source, plan).steps.len() == plan.steps.len(),
        fork.forked_plan(source, plan).steps[i].running_since is None,
        fork.forked_plan(source, plan).steps[i].definition == plan.steps[i].definition,
        plan.steps[i].owner == source ==> fork.forked_plan(source, plan).steps[i].owner
            == fork.thread_id,
        fork.plan is None ==> fork.forked_plan(source, plan).version == 1,
{
}

/// A restored conversation executes nothing by itself: it is inactive, without an Implementer,
/// and paused where it had a past.
pub proof fn law_restored_conversations_are_paused(
    thread_id: Seq<char>,
    plan: Result<Option<PlanView>, Seq<char>>,
    state: Result<Option<StateView>, Seq<char>>,
    now: int,
)
    ensures
        !restored(thread_id, plan, state, now).active,
        restored(thread_id, plan, state, now).implementer is None,
        !(plan == Ok::<Option<PlanView>, Seq<char>>(None) && state == Ok::<
            Option<StateView>,
            Seq<char>,
        >(None)) ==> restored(thread_id, plan, state, now).state.paused,
{
}

/// A conversation whose state cannot be restored refuses every message and every suspension.
pub proof fn law_unrestored_conversations_refuse(
    thread_id: Seq<char>,
    plan: Result<Option<PlanView>, Seq<char>>,
    state: Result<Option<StateView>, Seq<char>>,
    now: int,
)
    requires
        restore_fault(plan, state) is Some,
    ensures
        restored(thread_id, plan, state, now).admission() == Err::<
            (),
            crate::runtime::RuntimeError,
        >(crate::runtime::RuntimeError::Restore),
{
}

/// Time between the last record and the restoration is not counted: restoring and freezing later
/// gives each step the time it had at the last record.
pub proof fn law_offline_time_is_not_counted(plan: PlanView, reason: Seq<char>, now: int, i: int)
    requires
        0 <= i < plan.steps.len(),
        i64::MIN <= plan.steps[i].elapsed_seconds <= i64::MAX,
    ensures
        plan.halted(plan.updated_at).frozen(reason, now).steps[i].elapsed_at(now)
            == plan.steps[i].elapsed_at(plan.updated_at),
        plan.halted(plan.updated_at).frozen(reason, now).steps[i].running_since is None,
{
}

} // verus!
