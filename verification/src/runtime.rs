//! Durable task state and the ownership transitions of the one Implementer slot.
//!
//! Nothing here performs an effect: a transition says what the host has to do, and a second one
//! records what came of it.

use crate::message::BatchView;
use crate::message::MessageBatch;
use crate::model::action_fits;
use crate::model::applied;
use crate::model::apply;
use crate::model::finish_revision;
use crate::model::plan_option;
use crate::model::PlanError;
use crate::plan::step_views;
use crate::plan::ContinuousPlanning;
use crate::plan::PlanStepState;
use crate::plan::PlanView;
use crate::plan::StepView;
use crate::plan::TimedPlanStep;
use crate::request::ActionView;
use crate::request::PlanAction;
use crate::request::PlanActionRequest;
use crate::supervisor_state::StateView;
use crate::supervisor_state::SupervisorState;
use crate::text::is_text;
use crate::text::optional_text;
use std::collections::VecDeque;
use vstd::prelude::*;
use vstd::string::StringExecFns;

verus! {

/// Why a request to the runtime is refused.
#[derive(Clone, Copy, Debug, PartialEq, Eq, Structural)]
pub enum RuntimeError {
    /// The stored state could not be restored; the runtime holds the explanation.
    Restore,
    Plan(PlanError),
    UseControls,
    Stopped,
    ImplementerRunning,
    BudgetNeedsUser,
    NoStepSelected,
    SourceReused,
    OutcomeUnknown,
    Inactive,
    Paused,
    BudgetReached,
    SelectBeforeSending,
    NoPlan,
    UnknownSelectedStep,
    UnboundedVerification,
    EvidenceUnread,
    ImplementerUnfinished,
    NoTask,
    StaleTask,
    UnknownStep,
    NotSubmitted,
    NoEvidence,
    NoExecution,
    HistoryOffset,
    NoHistory,
    UnreadableHistory,
    UnexplainedPause,
    InvalidBudget,
    EvidenceOffset,
    PageOffset,
    RequestTooLarge,
    MissingPlan,
    MissingIdentity,
    SupervisorStopped,
    StaleActivity,
}

impl RuntimeError {
    pub open spec fn text(self, restore: Option<Seq<char>>) -> Seq<char> {
        match self {
            RuntimeError::Restore => match restore {
                Some(text) => text,
                None => Seq::empty(),
            },
            RuntimeError::Plan(error) => error.text(),
            RuntimeError::UseControls => "use Implementer controls for execution"@,
            RuntimeError::Stopped => "Supervisor is stopped"@,
            RuntimeError::ImplementerRunning => "pause the Implementer before selecting another step"@,
            RuntimeError::BudgetNeedsUser => "task token budget reached; ask the user before increasing it"@,
            RuntimeError::NoStepSelected => "select a step first"@,
            RuntimeError::SourceReused => "source message ID reused with different content"@,
            RuntimeError::OutcomeUnknown => "delivery outcome is unknown; inspect the Implementer history before continuing"@,
            RuntimeError::Inactive => "Continuous Planning is paused; resume before sending instructions"@,
            RuntimeError::Paused => "Continuous Planning is paused"@,
            RuntimeError::BudgetReached => "task token budget reached"@,
            RuntimeError::SelectBeforeSending => "select a step before sending instructions"@,
            RuntimeError::NoPlan => "create a plan first"@,
            RuntimeError::UnknownSelectedStep => "unknown selected step"@,
            RuntimeError::UnboundedVerification => "record bounded verification evidence"@,
            RuntimeError::EvidenceUnread => "read the submitted execution evidence before acceptance"@,
            RuntimeError::ImplementerUnfinished => "wait for Implementer to stop before acceptance"@,
            RuntimeError::NoTask => "no task"@,
            RuntimeError::StaleTask => "stale version; read current task"@,
            RuntimeError::UnknownStep => "unknown step"@,
            RuntimeError::NotSubmitted => "Implementer must finish with a final reply before acceptance"@,
            RuntimeError::NoEvidence => "no saved execution evidence; ask Implementer to verify the current state"@,
            RuntimeError::NoExecution => "no Implementer execution exists"@,
            RuntimeError::HistoryOffset => "history offset is too large"@,
            RuntimeError::NoHistory => "no matching Implementer history"@,
            RuntimeError::UnreadableHistory => "unreadable Implementer history"@,
            RuntimeError::UnexplainedPause => "explain the pause"@,
            RuntimeError::InvalidBudget => "provide a positive total budget or null to remove an explicitly lifted limit"@,
            RuntimeError::EvidenceOffset => "read evidence from offset zero first"@,
            RuntimeError::PageOffset => "invalid page offset"@,
            RuntimeError::RequestTooLarge => "request too large"@,
            RuntimeError::MissingPlan => "no plan"@,
            RuntimeError::MissingIdentity => "missing Implementer identity"@,
            RuntimeError::SupervisorStopped => "Supervisor stopped"@,
            RuntimeError::StaleActivity => "stale Implementer activity"@,
        }
    }

    /// The explanation given to whoever sent the request.
    pub fn message(self, restore: &Option<String>) -> (text: String)
        ensures
            text@ == self.text(optional_text(*restore)),
    {
        let text = match self {
            RuntimeError::Restore => {
                return match restore {
                    Some(text) => text.clone(),
                    None => {
                        let text = String::new();
                        assert(text@ =~= Seq::empty());
                        text
                    },
                };
            },
            RuntimeError::Plan(error) => error.message(),
            RuntimeError::UseControls => "use Implementer controls for execution",
            RuntimeError::Stopped => "Supervisor is stopped",
            RuntimeError::ImplementerRunning => "pause the Implementer before selecting another step",
            RuntimeError::BudgetNeedsUser => "task token budget reached; ask the user before increasing it",
            RuntimeError::NoStepSelected => "select a step first",
            RuntimeError::SourceReused => "source message ID reused with different content",
            RuntimeError::OutcomeUnknown => "delivery outcome is unknown; inspect the Implementer history before continuing",
            RuntimeError::Inactive => "Continuous Planning is paused; resume before sending instructions",
            RuntimeError::Paused => "Continuous Planning is paused",
            RuntimeError::BudgetReached => "task token budget reached",
            RuntimeError::SelectBeforeSending => "select a step before sending instructions",
            RuntimeError::NoPlan => "create a plan first",
            RuntimeError::UnknownSelectedStep => "unknown selected step",
            RuntimeError::UnboundedVerification => "record bounded verification evidence",
            RuntimeError::EvidenceUnread => "read the submitted execution evidence before acceptance",
            RuntimeError::ImplementerUnfinished => "wait for Implementer to stop before acceptance",
            RuntimeError::NoTask => "no task",
            RuntimeError::StaleTask => "stale version; read current task",
            RuntimeError::UnknownStep => "unknown step",
            RuntimeError::NotSubmitted => "Implementer must finish with a final reply before acceptance",
            RuntimeError::NoEvidence => "no saved execution evidence; ask Implementer to verify the current state",
            RuntimeError::NoExecution => "no Implementer execution exists",
            RuntimeError::HistoryOffset => "history offset is too large",
            RuntimeError::NoHistory => "no matching Implementer history",
            RuntimeError::UnreadableHistory => "unreadable Implementer history",
            RuntimeError::UnexplainedPause => "explain the pause",
            RuntimeError::InvalidBudget => "provide a positive total budget or null to remove an explicitly lifted limit",
            RuntimeError::EvidenceOffset => "read evidence from offset zero first",
            RuntimeError::PageOffset => "invalid page offset",
            RuntimeError::RequestTooLarge => "request too large",
            RuntimeError::MissingPlan => "no plan",
            RuntimeError::MissingIdentity => "missing Implementer identity",
            RuntimeError::SupervisorStopped => "Supervisor stopped",
            RuntimeError::StaleActivity => "stale Implementer activity",
        };
        text.to_owned()
    }
}

/// Captured at turn start; an old completion cannot change a new assignment.
#[derive(Debug, PartialEq, Eq)]
pub struct ExecutionTurn {
    pub turn_id: String,
    pub execution_id: String,
    pub step_id: String,
    pub generation: u64,
}

pub struct TurnView {
    pub turn_id: Seq<char>,
    pub execution_id: Seq<char>,
    pub step_id: Seq<char>,
    pub generation: int,
}

impl View for ExecutionTurn {
    type V = TurnView;

    open spec fn view(&self) -> TurnView {
        TurnView {
            turn_id: self.turn_id@,
            execution_id: self.execution_id@,
            step_id: self.step_id@,
            generation: self.generation as int,
        }
    }
}

impl Clone for ExecutionTurn {
    fn clone(&self) -> (copy: Self)
        ensures
            copy@ == self@,
    {
        ExecutionTurn {
            turn_id: self.turn_id.clone(),
            execution_id: self.execution_id.clone(),
            step_id: self.step_id.clone(),
            generation: self.generation,
        }
    }
}

impl ExecutionTurn {
    pub fn same(&self, other: &Self) -> (same: bool)
        ensures
            same == (self@ == other@),
    {
        self.turn_id == other.turn_id && self.execution_id == other.execution_id && self.step_id
            == other.step_id && self.generation == other.generation
    }
}

/// What the message protocol remembers between turns.
#[derive(Debug, PartialEq, Eq)]
pub struct MessageState {
    pub turn: Option<ExecutionTurn>,
    pub generation: u64,
    pub correction_attempted: bool,
    pub feedback: Option<String>,
    /// Batches that wait for the Implementer to become idle, the oldest first.
    pub pending_deliveries: VecDeque<MessageBatch>,
}

pub struct MessageStateView {
    pub turn: Option<TurnView>,
    pub generation: int,
    pub correction_attempted: bool,
    pub feedback: Option<Seq<char>>,
    pub pending_deliveries: Seq<BatchView>,
}

pub open spec fn batch_views(batches: Seq<MessageBatch>) -> Seq<BatchView> {
    batches.map_values(|batch: MessageBatch| batch@)
}

pub open spec fn optional_turn(turn: Option<ExecutionTurn>) -> Option<TurnView> {
    match turn {
        Some(turn) => Some(turn@),
        None => None,
    }
}

impl View for MessageState {
    type V = MessageStateView;

    open spec fn view(&self) -> MessageStateView {
        MessageStateView {
            turn: optional_turn(self.turn),
            generation: self.generation as int,
            correction_attempted: self.correction_attempted,
            feedback: optional_text(self.feedback),
            pending_deliveries: batch_views(self.pending_deliveries@),
        }
    }
}

impl MessageStateView {
    pub open spec fn fresh() -> MessageStateView {
        MessageStateView {
            turn: None,
            generation: 0,
            correction_attempted: false,
            feedback: None,
            pending_deliveries: Seq::empty(),
        }
    }
}

impl Default for MessageState {
    fn default() -> (state: Self)
        ensures
            state@ == MessageStateView::fresh(),
    {
        let state = MessageState {
            turn: None,
            generation: 0,
            correction_attempted: false,
            feedback: None,
            pending_deliveries: VecDeque::new(),
        };
        assert(state@.pending_deliveries =~= Seq::empty());
        state
    }
}

/// One Supervisor conversation: its plan, its durable state and its Implementer slot.
#[derive(Debug, PartialEq, Eq)]
pub struct PlanRuntime {
    pub thread_id: String,
    pub restore_error: Option<String>,
    pub plan: Option<ContinuousPlanning>,
    pub state: SupervisorState,
    /// The execution epoch of the Implementer that is resident.
    pub implementer: Option<String>,
    pub messages: MessageState,
    /// The plan version for which evidence was read, and what was read.
    pub evidence_review: Option<(i64, String)>,
    pub active: bool,
    pub stopped: bool,
    pub activity_at: i64,
    pub notified_at: i64,
}

pub struct RuntimeView {
    pub thread_id: Seq<char>,
    pub restore_error: Option<Seq<char>>,
    pub plan: Option<PlanView>,
    pub state: StateView,
    pub implementer: Option<Seq<char>>,
    pub messages: MessageStateView,
    pub evidence_review: Option<(int, Seq<char>)>,
    pub active: bool,
    pub stopped: bool,
    pub activity_at: int,
    pub notified_at: int,
}

pub open spec fn review_view(review: Option<(i64, String)>) -> Option<(int, Seq<char>)> {
    match review {
        Some((version, text)) => Some((version as int, text@)),
        None => None,
    }
}

impl View for PlanRuntime {
    type V = RuntimeView;

    open spec fn view(&self) -> RuntimeView {
        RuntimeView {
            thread_id: self.thread_id@,
            restore_error: optional_text(self.restore_error),
            plan: plan_option(self.plan),
            state: self.state@,
            implementer: optional_text(self.implementer),
            messages: self.messages@,
            evidence_review: review_view(self.evidence_review),
            active: self.active,
            stopped: self.stopped,
            activity_at: self.activity_at as int,
            notified_at: self.notified_at as int,
        }
    }
}

impl StepView {
    /// A step with a stopped clock. Only a step whose clock ran is blocked by that.
    pub open spec fn halted(self, now: int) -> StepView {
        if self.running_since is Some {
            StepView {
                elapsed_seconds: self.elapsed_at(now),
                running_since: None,
                state: PlanStepState::Blocked,
                ..self
            }
        } else {
            self
        }
    }
}

impl PlanView {
    /// The plan with every clock stopped.
    pub open spec fn halted(self, now: int) -> PlanView {
        PlanView { steps: self.steps.map_values(|step: StepView| step.halted(now)), ..self }
    }

    /// The revision that records a stop of all execution.
    pub open spec fn frozen(self, reason: Seq<char>, now: int) -> PlanView {
        PlanView { reason, ..self.halted(now) }.revised_at(now)
    }

    /// Whether a step is running.
    pub open spec fn running(self) -> bool {
        exists|i: int|
            0 <= i < self.steps.len() && (#[trigger] self.steps[i]).state == PlanStepState::Running
    }

    /// Whether a running step has used up its estimate.
    pub open spec fn overdue(self, now: int) -> bool {
        exists|i: int|
            0 <= i < self.steps.len() && (#[trigger] self.steps[i]).state == PlanStepState::Running
                && self.steps[i].elapsed_at(now) >= self.steps[i].definition.estimate_seconds
    }
}

/// A plan update and whether it is a new revision, which has to be stored.
#[derive(Debug)]
pub struct PlanUpdate {
    pub plan: ContinuousPlanning,
    pub changed: bool,
}

/// A cancelled step: the revision to store, and whether its execution has to stop first.
#[derive(Debug)]
pub struct Cancellation {
    pub plan: ContinuousPlanning,
    pub selected: bool,
    pub interrupt: bool,
}

/// What one tick of the watch asks for.
#[derive(Clone, Copy, Debug, PartialEq, Eq, Structural)]
pub struct WatchTick {
    pub notify: bool,
    /// The plan version whose recovery clock has to be advanced.
    pub checkpoint: Option<i64>,
}

/// The reason of the notification that the watch sends.
pub const REVIEW_REASON: &'static str = "Check the current estimate and recent progress; elapsed time alone does not indicate failure";

pub const PAUSED_REASON: &'static str = "Execution paused";

pub const REPLACED_REASON: &'static str = "Implementer context replaced";

impl RuntimeView {
    /// The state as it is saved: one revision later, with the clock of the host.
    pub open spec fn stamped(self, now: int) -> RuntimeView {
        RuntimeView {
            state: StateView { revision: self.state.revision + 1, updated_at: now, ..self.state },
            ..self
        }
    }

    /// What a plan action gives. Steps are executed by the controls alone.
    pub open spec fn updated_plan(
        self,
        version: int,
        action: ActionView,
        now: int,
        id: Seq<char>,
    ) -> Result<PlanView, RuntimeError> {
        if !(action is Create || action is Revise || action is Read) {
            Err(RuntimeError::UseControls)
        } else {
            match applied(self.plan, version, action, self.thread_id, now, id) {
                Ok(plan) => Ok(plan),
                Err(error) => Err(RuntimeError::Plan(error)),
            }
        }
    }

    /// The start that a selection validates without performing it.
    pub open spec fn start_attempt(self, version: int, step_id: Seq<char>, now: int) -> Result<
        PlanView,
        PlanError,
    > {
        applied(
            self.plan,
            version,
            ActionView::Start { step_id },
            self.thread_id,
            now,
            Seq::empty(),
        )
    }

    /// The runtime after a selection. The plan, and with it every clock, stays as it is.
    pub open spec fn selected(
        self,
        version: int,
        step_id: Seq<char>,
        implementer_running: bool,
        now: int,
    ) -> Result<RuntimeView, RuntimeError> {
        if self.stopped {
            Err(RuntimeError::Stopped)
        } else if self.implementer is Some && implementer_running {
            Err(RuntimeError::ImplementerRunning)
        } else {
            match self.start_attempt(version, step_id, now) {
                Err(error) => Err(RuntimeError::Plan(error)),
                Ok(_) => if self.state.budget_reached() {
                    Err(RuntimeError::BudgetNeedsUser)
                } else {
                    Ok(
                        RuntimeView {
                            state: StateView { step_id: Some(step_id), ..self.state },
                            active: !self.state.paused,
                            evidence_review: None,
                            ..self
                        }.stamped(now),
                    )
                },
            }
        }
    }

    pub open spec fn resumed(self, now: int) -> Result<RuntimeView, RuntimeError> {
        if self.stopped {
            Err(RuntimeError::Stopped)
        } else if self.state.step_id is None {
            Err(RuntimeError::NoStepSelected)
        } else if self.state.budget_reached() {
            Err(RuntimeError::BudgetNeedsUser)
        } else {
            Ok(
                RuntimeView {
                    state: StateView { paused: false, ..self.state },
                    active: true,
                    ..self
                }.stamped(now),
            )
        }
    }

    /// The revision that a stop of all execution stores.
    pub open spec fn frozen_plan(self, reason: Seq<char>, now: int) -> Option<PlanView> {
        match self.plan {
            Some(plan) => Some(plan.frozen(reason, now)),
            None => None,
        }
    }

    /// The runtime once that revision is stored: paused, and deaf to the turns that ran.
    pub open spec fn after_freeze(self, frozen: Option<PlanView>, now: int) -> RuntimeView {
        RuntimeView {
            plan: match frozen {
                Some(plan) => Some(plan),
                None => self.plan,
            },
            messages: MessageStateView {
                generation: self.messages.generation + 1,
                ..self.messages
            },
            state: StateView { paused: true, ..self.state },
            ..self
        }.stamped(now)
    }

    pub open spec fn cancelled_plan(
        self,
        version: int,
        step_id: Seq<char>,
        reason: Seq<char>,
        now: int,
    ) -> Result<PlanView, RuntimeError> {
        match applied(
            self.plan,
            version,
            ActionView::Cancel { step_id, reason },
            self.thread_id,
            now,
            Seq::empty(),
        ) {
            Ok(plan) => Ok(plan),
            Err(error) => Err(RuntimeError::Plan(error)),
        }
    }

    /// The arithmetic of a freeze stays in range.
    pub open spec fn freeze_fits(self, reason: Seq<char>, now: int) -> bool {
        self.plan matches Some(plan) ==> PlanView { reason, ..plan.halted(now) }.revision_fits(now)
    }

    /// A review is due when its time has come, the last reminder is a minute old, and a running
    /// step shows no activity or has used up its estimate.
    pub open spec fn review_due(self, now: int) -> bool {
        self.plan matches Some(plan) && {
            &&& plan.next_review_at <= now
            &&& now - self.notified_at >= 60
            &&& plan.running()
            &&& (now - self.activity_at >= 300 || plan.overdue(now))
        }
    }

    pub open spec fn tick(self, now: int, checkpoint: int) -> WatchTick {
        if !self.active || self.plan is None {
            WatchTick { notify: false, checkpoint: None }
        } else {
            WatchTick {
                notify: self.review_due(now),
                checkpoint: if now - checkpoint >= 30 {
                    Some(self.plan->0.version as i64)
                } else {
                    None
                },
            }
        }
    }

    /// The text that wakes the conversation, where it may be woken.
    pub open spec fn notice(self, reason: Seq<char>) -> Option<Seq<char>> {
        if !self.active || self.stopped {
            None
        } else {
            Some(
                "Supervisor execution update: "@ + reason
                    + ". Inspect Continuous Planning and execution evidence. This is host context, not new user authorization."@,
            )
        }
    }
}

/// The view of an outcome of a transition.
pub open spec fn transition<T>(result: Result<T, RuntimeError>, after: RuntimeView) -> Result<
    RuntimeView,
    RuntimeError,
> {
    match result {
        Ok(_) => Ok(after),
        Err(error) => Err(error),
    }
}

fn halt_steps(steps: &Vec<TimedPlanStep>, now: i64) -> (halted: Vec<TimedPlanStep>)
    ensures
        step_views(halted@) == step_views(steps@).map_values(
            |step: StepView| step.halted(now as int),
        ),
{
    let mut halted: Vec<TimedPlanStep> = Vec::new();
    let mut i: usize = 0;
    while i < steps.len()
        invariant
            i <= steps@.len(),
            halted@.len() == i,
            forall|k: int| 0 <= k < i ==> (#[trigger] halted@[k])@ == steps@[k]@.halted(now as int),
        decreases steps.len() - i,
    {
        let mut step = steps[i].clone();
        if step.running_since.is_some() {
            step.elapsed_seconds = step.elapsed_at(now);
            step.running_since = None;
            step.state = PlanStepState::Blocked;
        }
        halted.push(step);
        i += 1;
    }
    assert(step_views(halted@) =~= step_views(steps@).map_values(
        |step: StepView| step.halted(now as int),
    ));
    halted
}

/// Stops every clock of a plan.
pub fn halt_plan(plan: &mut ContinuousPlanning, now: i64)
    ensures
        final(plan)@ == old(plan)@.halted(now as int),
{
    let halted = halt_steps(&plan.steps, now);
    plan.steps = halted;
}

impl ContinuousPlanning {
    pub fn is_running(&self) -> (yes: bool)
        ensures
            yes == self@.running(),
    {
        let mut i: usize = 0;
        while i < self.steps.len()
            invariant
                i <= self.steps@.len(),
                forall|k: int|
                    0 <= k < i ==> (#[trigger] self@.steps[k]).state != PlanStepState::Running,
            decreases self.steps.len() - i,
        {
            assert(self@.steps[i as int] == self.steps@[i as int]@);
            if self.steps[i].state == PlanStepState::Running {
                return true;
            }
            i += 1;
        }
        false
    }

    pub fn is_overdue(&self, now: i64) -> (yes: bool)
        ensures
            yes == self@.overdue(now as int),
    {
        let mut i: usize = 0;
        while i < self.steps.len()
            invariant
                i <= self.steps@.len(),
                forall|k: int|
                    0 <= k < i ==> !((#[trigger] self@.steps[k]).state == PlanStepState::Running
                        && self@.steps[k].elapsed_at(now as int)
                        >= self@.steps[k].definition.estimate_seconds),
            decreases self.steps.len() - i,
        {
            assert(self@.steps[i as int] == self.steps@[i as int]@);
            if self.steps[i].state == PlanStepState::Running && self.steps[i].elapsed_at(now)
                >= self.steps[i].definition.estimate_seconds {
                return true;
            }
            i += 1;
        }
        false
    }
}

/// A copy of the plan where there is one.
pub fn clone_plan(plan: &Option<ContinuousPlanning>) -> (copy: Option<ContinuousPlanning>)
    ensures
        plan_option(copy) == plan_option(*plan),
{
    match plan {
        Some(plan) => Some(plan.clone()),
        None => None,
    }
}

impl PlanRuntime {
    /// Creates, revises or reads the plan. `id` is the identity of a plan that is created. A
    /// changed plan is stored by the host and then committed.
    pub fn update_plan(&self, request: PlanActionRequest, now: i64, id: &str) -> (result: Result<
        PlanUpdate,
        RuntimeError,
    >)
        requires
            action_fits(
                self@.plan,
                request.version as int,
                request.operation@,
                self@.thread_id,
                now as int,
                id@,
            ),
        ensures
            (match result {
                Ok(update) => Ok::<PlanView, RuntimeError>(update.plan@),
                Err(error) => Err(error),
            }) == self@.updated_plan(request.version as int, request.operation@, now as int, id@),
            result matches Ok(update) ==> update.changed == (self@.plan is None
                || self@.plan->0.version != update.plan@.version),
    {
        match &request.operation {
            PlanAction::Create { .. } | PlanAction::Revise { .. } | PlanAction::Read { .. } => {},
            _ => {
                return Err(RuntimeError::UseControls);
            },
        }
        match apply(clone_plan(&self.plan), request, self.thread_id.as_str(), now, id) {
            Err(error) => Err(RuntimeError::Plan(error)),
            Ok(plan) => {
                let changed = match &self.plan {
                    Some(old) => old.version != plan.version,
                    None => true,
                };
                Ok(PlanUpdate { plan, changed })
            },
        }
    }

    /// Records a plan that the host has stored.
    pub fn commit_plan(&mut self, plan: ContinuousPlanning)
        ensures
            final(self)@ == (RuntimeView { plan: Some(plan@), ..old(self)@ }),
    {
        self.plan = Some(plan);
    }

    /// Gives the state its next revision; the host then saves it.
    pub fn save_state(&mut self, now: i64)
        requires
            old(self)@.state.revision < i64::MAX,
        ensures
            final(self)@ == old(self)@.stamped(now as int),
    {
        self.state.updated_at = now;
        self.state.revision = self.state.revision + 1;
    }

    /// Whether an execution epoch is that of the resident Implementer.
    pub fn implementer_matches(&self, execution_id: &str) -> (yes: bool)
        ensures
            yes == (self@.implementer == Some(execution_id@)),
    {
        is_text(&self.implementer, execution_id)
    }

    /// The text that wakes the conversation; no other conversation is started for it.
    pub fn notify(&self, reason: &str) -> (text: Option<String>)
        ensures
            optional_text(text) == self@.notice(reason@),
    {
        if !self.active || self.stopped {
            return None;
        }
        let mut text = "Supervisor execution update: ".to_owned();
        text.append(reason);
        text.append(
            ". Inspect Continuous Planning and execution evidence. This is host context, not new user authorization.",
        );
        Some(text)
    }

    /// One second of the watch. `checkpoint` is the time of the last recovery checkpoint.
    pub fn watch(&mut self, now: i64, checkpoint: i64) -> (tick: WatchTick)
        requires
            i64::MIN <= now - old(self)@.notified_at <= i64::MAX,
            i64::MIN <= now - old(self)@.activity_at <= i64::MAX,
            i64::MIN <= now - checkpoint <= i64::MAX,
        ensures
            tick == old(self)@.tick(now as int, checkpoint as int),
            final(self)@ == (RuntimeView {
                notified_at: if tick.notify {
                    now as int
                } else {
                    old(self)@.notified_at
                },
                ..old(self)@
            }),
    {
        if !self.active {
            return WatchTick { notify: false, checkpoint: None };
        }
        let (due, version) = match &self.plan {
            None => {
                return WatchTick { notify: false, checkpoint: None };
            },
            Some(plan) => {
                let due = plan.next_review_at <= now && now - self.notified_at >= 60
                    && plan.is_running() && (now - self.activity_at >= 300 || plan.is_overdue(now));
                (due, plan.version)
            },
        };
        if due {
            self.notified_at = now;
        }
        WatchTick {
            notify: due,
            checkpoint: if now - checkpoint >= 30 {
                Some(version)
            } else {
                None
            },
        }
    }

    /// Selects a validated step without starting the Implementer or its timer.
    pub fn select(
        &mut self,
        version: i64,
        step_id: String,
        implementer_running: bool,
        now: i64,
    ) -> (result: Result<(), RuntimeError>)
        requires
            action_fits(
                old(self)@.plan,
                version as int,
                (ActionView::Start { step_id: step_id@ }),
                old(self)@.thread_id,
                now as int,
                Seq::empty(),
            ),
            old(self)@.state.revision < i64::MAX,
        ensures
            transition(result, final(self)@) == old(self)@.selected(
                version as int,
                step_id@,
                implementer_running,
                now as int,
            ),
            result is Err ==> final(self)@ == old(self)@,
    {
        if self.stopped {
            return Err(RuntimeError::Stopped);
        }
        if self.implementer.is_some() && implementer_running {
            return Err(RuntimeError::ImplementerRunning);
        }
        let request = PlanActionRequest {
            version,
            operation: PlanAction::Start { step_id: step_id.clone() },
        };
        let no_id = String::new();
        assert(no_id@ =~= Seq::empty());
        match apply(
            clone_plan(&self.plan),
            request,
            self.thread_id.as_str(),
            now,
            no_id.as_str(),
        ) {
            Err(error) => {
                return Err(RuntimeError::Plan(error));
            },
            Ok(_) => {},
        }
        if self.state.is_budget_reached() {
            return Err(RuntimeError::BudgetNeedsUser);
        }
        self.state.step_id = Some(step_id);
        // Selection is not an implicit resume of an explicitly paused execution.
        self.active = !self.state.paused;
        self.evidence_review = None;
        self.save_state(now);
        Ok(())
    }

    /// Stops admission. The result says whether an Implementer has to be interrupted before the
    /// plan is frozen.
    pub fn suspend(&mut self) -> (result: Result<bool, RuntimeError>)
        ensures
            result == (if old(self)@.restore_error is Some {
                Err::<bool, RuntimeError>(RuntimeError::Restore)
            } else {
                Ok(old(self)@.implementer is Some)
            }),
            final(self)@ == (if old(self)@.restore_error is Some {
                old(self)@
            } else {
                RuntimeView { active: false, ..old(self)@ }
            }),
    {
        if self.restore_error.is_some() {
            return Err(RuntimeError::Restore);
        }
        self.active = false;
        Ok(self.implementer.is_some())
    }

    /// The revision that records a stop of all execution, for the host to store.
    pub fn freeze(&self, reason: &str, now: i64) -> (frozen: Option<ContinuousPlanning>)
        requires
            self@.freeze_fits(reason@, now as int),
        ensures
            plan_option(frozen) == self@.frozen_plan(reason@, now as int),
    {
        match &self.plan {
            Some(plan) => {
                let mut frozen = plan.clone();
                halt_plan(&mut frozen, now);
                frozen.reason = reason.to_owned();
                finish_revision(&mut frozen, now);
                Some(frozen)
            },
            None => None,
        }
    }

    /// Records the stop once its revision is stored; the host then saves the state.
    pub fn finish_freeze(&mut self, frozen: Option<ContinuousPlanning>, now: i64)
        requires
            old(self)@.messages.generation < u64::MAX,
            old(self)@.state.revision < i64::MAX,
        ensures
            final(self)@ == old(self)@.after_freeze(plan_option(frozen), now as int),
    {
        match frozen {
            Some(plan) => {
                self.plan = Some(plan);
            },
            None => {},
        }
        self.messages.generation = self.messages.generation + 1;
        self.state.paused = true;
        self.save_state(now);
    }

    /// Admits execution again; it starts nothing.
    pub fn resume(&mut self, now: i64) -> (result: Result<(), RuntimeError>)
        requires
            old(self)@.state.revision < i64::MAX,
        ensures
            transition(result, final(self)@) == old(self)@.resumed(now as int),
            result is Err ==> final(self)@ == old(self)@,
    {
        if self.stopped {
            return Err(RuntimeError::Stopped);
        }
        if self.state.step_id.is_none() {
            return Err(RuntimeError::NoStepSelected);
        }
        if self.state.is_budget_reached() {
            return Err(RuntimeError::BudgetNeedsUser);
        }
        self.state.paused = false;
        self.active = true;
        self.save_state(now);
        Ok(())
    }

    /// Stops admission before a replacement. The result says whether an Implementer has to be
    /// interrupted and shut down first.
    pub fn replace(&mut self) -> (interrupt: bool)
        ensures
            interrupt == (old(self)@.implementer is Some),
            final(self)@ == (RuntimeView { active: false, ..old(self)@ }),
    {
        self.active = false;
        self.implementer.is_some()
    }

    /// Empties the Implementer slot.
    pub fn release_implementer(&mut self)
        ensures
            final(self)@ == (RuntimeView { implementer: None, ..old(self)@ }),
    {
        self.implementer = None;
    }

    /// Fills the empty Implementer slot with a new execution epoch.
    pub fn adopt_implementer(&mut self, thread_id: String, execution_id: String)
        ensures
            final(self)@ == (RuntimeView {
                implementer: Some(execution_id@),
                state: StateView {
                    implementer_thread_id: Some(thread_id@),
                    execution_id: Some(execution_id@),
                    ..old(self)@.state
                },
                ..old(self)@
            }),
    {
        self.state.implementer_thread_id = Some(thread_id);
        self.state.execution_id = Some(execution_id.clone());
        self.implementer = Some(execution_id);
    }

    /// Validates a cancellation. Where the step is the selected one, admission stops at once and
    /// the host interrupts its execution before the revision is stored.
    pub fn cancel(&mut self, version: i64, step_id: String, reason: String, now: i64) -> (result:
        Result<Cancellation, RuntimeError>)
        requires
            action_fits(
                old(self)@.plan,
                version as int,
                (ActionView::Cancel { step_id: step_id@, reason: reason@ }),
                old(self)@.thread_id,
                now as int,
                Seq::empty(),
            ),
        ensures
            (match result {
                Ok(cancellation) => Ok::<PlanView, RuntimeError>(cancellation.plan@),
                Err(error) => Err(error),
            }) == old(self)@.cancelled_plan(version as int, step_id@, reason@, now as int),
            result matches Ok(cancellation) ==> {
                &&& cancellation.selected == (old(self)@.state.step_id == Some(step_id@))
                &&& cancellation.interrupt == (cancellation.selected
                    && old(self)@.implementer is Some)
                &&& final(self)@ == (if cancellation.selected {
                    RuntimeView { active: false, ..old(self)@ }
                } else {
                    old(self)@
                })
            },
            result is Err ==> final(self)@ == old(self)@,
    {
        let request = PlanActionRequest {
            version,
            operation: PlanAction::Cancel { step_id: step_id.clone(), reason },
        };
        let no_id = String::new();
        assert(no_id@ =~= Seq::empty());
        match apply(
            clone_plan(&self.plan),
            request,
            self.thread_id.as_str(),
            now,
            no_id.as_str(),
        ) {
            Err(error) => Err(RuntimeError::Plan(error)),
            Ok(plan) => {
                let selected = is_text(&self.state.step_id, step_id.as_str());
                if selected {
                    self.active = false;
                }
                Ok(
                    Cancellation {
                        plan,
                        selected,
                        interrupt: selected && self.implementer.is_some(),
                    },
                )
            },
        }
    }

    /// Records that the execution of a cancelled step has stopped.
    pub fn cancel_execution(&mut self)
        requires
            old(self)@.messages.generation < u64::MAX,
        ensures
            final(self)@ == (RuntimeView {
                messages: MessageStateView {
                    generation: old(self)@.messages.generation + 1,
                    ..old(self)@.messages
                },
                state: StateView { paused: true, ..old(self)@.state },
                ..old(self)@
            }),
    {
        self.messages.generation = self.messages.generation + 1;
        self.state.paused = true;
    }
}

} // verus!
