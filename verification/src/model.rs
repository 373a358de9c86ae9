//! The rules by which a request turns one revision of a plan into the next.

use crate::plan::ContinuousPlanning;
use crate::plan::DefinitionView;
use crate::plan::PlanReviewState;
use crate::plan::PlanStage;
use crate::plan::PlanStepDefinition;
use crate::plan::PlanStepState;
use crate::plan::PlanView;
use crate::plan::StageView;
use crate::plan::StepView;
use crate::plan::TimedPlanStep;
use crate::plan::definition_views;
use crate::plan::stage_views;
use crate::plan::step_views;
use crate::request::ActionView;
use crate::request::PlanAction;
use crate::request::PlanActionRequest;
use crate::text::blank;
use crate::text::byte_len;
use crate::text::controlled;
use crate::text::has_control;
use crate::text::is_blank;
use crate::text::lemma_utf8_len_at_least_chars;
use crate::text::same_text;
use crate::text::texts;
use crate::text::utf8_len;
use vstd::prelude::*;
use vstd::string::StringExecFns;

verus! {

/// Why a request leaves a plan unchanged.
#[derive(Clone, Copy, Debug, PartialEq, Eq, Structural)]
pub enum PlanError {
    NoActivePlan,
    StaleVersion,
    UnfinishedPlan,
    UnexpandedStages,
    MissingObjective,
    NoPlan,
    UnexplainedRevision,
    DroppedStep,
    FinishedStep,
    MovedStep,
    UnknownStep,
    ForeignStep,
    StepRunning,
    UnverifiedDependencies,
    EarlierStages,
    CannotStart,
    NotRunning,
    UnboundedEvidence,
    UnexplainedInterruption,
    TextTooLong,
    Counts,
    StageIds,
    StageDescription,
    StageEstimate,
    Assumptions,
    UnknownStage,
    StageOrder,
    Dependencies,
    StepIds,
    StepDescription,
    StepEstimate,
}

impl PlanError {
    pub open spec fn text(self) -> Seq<char> {
        match self {
            PlanError::NoActivePlan => "no active plan"@,
            PlanError::StaleVersion => "stale version; read the plan and retry"@,
            PlanError::UnfinishedPlan => "finish or cancel the existing plan before creating another task"@,
            PlanError::UnexpandedStages => "resolve unexpanded stages before creating another task"@,
            PlanError::MissingObjective => "objective and acceptance are required"@,
            PlanError::NoPlan => "create a plan first"@,
            PlanError::UnexplainedRevision => "explain the revision"@,
            PlanError::DroppedStep => "retain old steps; cancel rather than delete them"@,
            PlanError::FinishedStep => "finished steps are immutable"@,
            PlanError::MovedStep => "step stage identity is immutable"@,
            PlanError::UnknownStep => "unknown step"@,
            PlanError::ForeignStep => "step belongs to another executor"@,
            PlanError::StepRunning => "pause the running step first"@,
            PlanError::UnverifiedDependencies => "dependencies must be verified first"@,
            PlanError::EarlierStages => "verify earlier stages before advancing"@,
            PlanError::CannotStart => "step cannot start in this state"@,
            PlanError::NotRunning => "only a running step may submit evidence"@,
            PlanError::UnboundedEvidence => "provide 1–8 bounded evidence references"@,
            PlanError::UnexplainedInterruption => "explain the interruption"@,
            PlanError::TextTooLong => "plan text too long"@,
            PlanError::Counts => "use 1–16 stages and 1–64 steps"@,
            PlanError::StageIds => "stage IDs must be unique and bounded"@,
            PlanError::StageDescription => "invalid stage description"@,
            PlanError::StageEstimate => "invalid stage estimate"@,
            PlanError::Assumptions => "assumptions too large"@,
            PlanError::UnknownStage => "unknown stage"@,
            PlanError::StageOrder => "keep steps in stage order"@,
            PlanError::Dependencies => "at most 16 dependencies must precede the step"@,
            PlanError::StepIds => "step IDs must be unique and bounded"@,
            PlanError::StepDescription => "invalid step description"@,
            PlanError::StepEstimate => "invalid step estimate"@,
        }
    }

    /// The explanation given to whoever sent the request.
    pub fn message(self) -> (text: &'static str)
        ensures
            text@ == self.text(),
    {
        match self {
            PlanError::NoActivePlan => "no active plan",
            PlanError::StaleVersion => "stale version; read the plan and retry",
            PlanError::UnfinishedPlan => "finish or cancel the existing plan before creating another task",
            PlanError::UnexpandedStages => "resolve unexpanded stages before creating another task",
            PlanError::MissingObjective => "objective and acceptance are required",
            PlanError::NoPlan => "create a plan first",
            PlanError::UnexplainedRevision => "explain the revision",
            PlanError::DroppedStep => "retain old steps; cancel rather than delete them",
            PlanError::FinishedStep => "finished steps are immutable",
            PlanError::MovedStep => "step stage identity is immutable",
            PlanError::UnknownStep => "unknown step",
            PlanError::ForeignStep => "step belongs to another executor",
            PlanError::StepRunning => "pause the running step first",
            PlanError::UnverifiedDependencies => "dependencies must be verified first",
            PlanError::EarlierStages => "verify earlier stages before advancing",
            PlanError::CannotStart => "step cannot start in this state",
            PlanError::NotRunning => "only a running step may submit evidence",
            PlanError::UnboundedEvidence => "provide 1–8 bounded evidence references",
            PlanError::UnexplainedInterruption => "explain the interruption",
            PlanError::TextTooLong => "plan text too long",
            PlanError::Counts => "use 1–16 stages and 1–64 steps",
            PlanError::StageIds => "stage IDs must be unique and bounded",
            PlanError::StageDescription => "invalid stage description",
            PlanError::StageEstimate => "invalid stage estimate",
            PlanError::Assumptions => "assumptions too large",
            PlanError::UnknownStage => "unknown stage",
            PlanError::StageOrder => "keep steps in stage order",
            PlanError::Dependencies => "at most 16 dependencies must precede the step",
            PlanError::StepIds => "step IDs must be unique and bounded",
            PlanError::StepDescription => "invalid step description",
            PlanError::StepEstimate => "invalid step estimate",
        }
    }
}

/// The longest text of an objective, an acceptance or a reason, in bytes.
pub const MAX_TEXT: usize = 2048;

/// The longest estimate: a year, in seconds.
pub const MAX_ESTIMATE: i64 = 31_536_000;

/// The first step with an ID.
pub open spec fn step_position(steps: Seq<StepView>, id: Seq<char>) -> Option<int>
    decreases steps.len(),
{
    if steps.len() == 0 {
        None
    } else {
        match step_position(steps.drop_last(), id) {
            Some(i) => Some(i),
            None => if steps.last().definition.id == id {
                Some(steps.len() - 1)
            } else {
                None
            },
        }
    }
}

/// The first stage with an ID.
pub open spec fn stage_position(stages: Seq<StageView>, id: Seq<char>) -> Option<int>
    decreases stages.len(),
{
    if stages.len() == 0 {
        None
    } else {
        match stage_position(stages.drop_last(), id) {
            Some(i) => Some(i),
            None => if stages.last().id == id {
                Some(stages.len() - 1)
            } else {
                None
            },
        }
    }
}

/// Titles are single lines of visible text; acceptance criteria are never empty.
pub open spec fn described(title: Seq<char>, acceptance: Seq<char>) -> bool {
    &&& !blank(title)
    &&& utf8_len(title) <= 128
    &&& !controlled(title)
    &&& acceptance.len() > 0
    &&& utf8_len(acceptance) <= MAX_TEXT
}

pub open spec fn identifier(id: Seq<char>) -> bool {
    id.len() > 0 && utf8_len(id) <= 64
}

pub open spec fn estimated(seconds: int) -> bool {
    0 < seconds <= MAX_ESTIMATE
}

/// What is wrong with one stage, given those before it.
pub open spec fn stage_fault(stages: Seq<StageView>, k: int) -> Option<PlanError> {
    let stage = stages[k];
    if !identifier(stage.id) || exists|j: int| 0 <= j < k && (#[trigger] stages[j]).id == stage.id {
        Some(PlanError::StageIds)
    } else if !described(stage.title, stage.acceptance) {
        Some(PlanError::StageDescription)
    } else if !estimated(stage.estimate_seconds) {
        Some(PlanError::StageEstimate)
    } else if stage.assumptions.len() > 8 || exists|a: int|
        0 <= a < stage.assumptions.len() && utf8_len(#[trigger] stage.assumptions[a]) > 512 {
        Some(PlanError::Assumptions)
    } else {
        None
    }
}

/// The stage of a step as a position; a step whose stage is unknown counts as in the first.
pub open spec fn stage_rank(stages: Seq<StageView>, step: StepView) -> int {
    match stage_position(stages, step.definition.stage_id) {
        Some(k) => k,
        None => 0,
    }
}

/// Whether a step before `i` has an ID.
pub open spec fn precedes(steps: Seq<StepView>, i: int, id: Seq<char>) -> bool {
    exists|j: int| 0 <= j < i && (#[trigger] steps[j]).definition.id == id
}

/// What is wrong with one step, given those before it.
pub open spec fn step_fault(
    stages: Seq<StageView>,
    steps: Seq<StepView>,
    i: int,
) -> Option<PlanError> {
    let definition = steps[i].definition;
    if stage_position(stages, definition.stage_id) is None {
        Some(PlanError::UnknownStage)
    } else if i > 0 && stage_rank(stages, steps[i]) < stage_rank(stages, steps[i - 1]) {
        Some(PlanError::StageOrder)
    } else if definition.dependencies.len() > 16 || exists|d: int|
        0 <= d < definition.dependencies.len() && !precedes(
            steps,
            i,
            #[trigger] definition.dependencies[d],
        ) {
        Some(PlanError::Dependencies)
    } else if !identifier(definition.id) || precedes(steps, i, definition.id) {
        Some(PlanError::StepIds)
    } else if !described(definition.title, definition.acceptance) {
        Some(PlanError::StepDescription)
    } else if !estimated(definition.estimate_seconds) {
        Some(PlanError::StepEstimate)
    } else {
        None
    }
}

/// The fault of the first faulty stage among the first `count`.
pub open spec fn first_stage_fault(stages: Seq<StageView>, count: int) -> Option<PlanError>
    decreases count,
{
    if count <= 0 {
        None
    } else {
        match first_stage_fault(stages, count - 1) {
            Some(fault) => Some(fault),
            None => stage_fault(stages, count - 1),
        }
    }
}

/// The fault of the first faulty step among the first `count`.
pub open spec fn first_step_fault(
    stages: Seq<StageView>,
    steps: Seq<StepView>,
    count: int,
) -> Option<PlanError>
    decreases count,
{
    if count <= 0 {
        None
    } else {
        match first_step_fault(stages, steps, count - 1) {
            Some(fault) => Some(fault),
            None => step_fault(stages, steps, count - 1),
        }
    }
}

impl PlanView {
    /// The first reason for which a plan is not valid.
    pub open spec fn fault(self) -> Option<PlanError> {
        if utf8_len(self.objective) > MAX_TEXT || utf8_len(self.acceptance) > MAX_TEXT
            || utf8_len(self.reason) > MAX_TEXT {
            Some(PlanError::TextTooLong)
        } else if !(1 <= self.stages.len() <= 16 && 1 <= self.steps.len() <= 64) {
            Some(PlanError::Counts)
        } else {
            match first_stage_fault(self.stages, self.stages.len() as int) {
                Some(fault) => Some(fault),
                None => first_step_fault(self.stages, self.steps, self.steps.len() as int),
            }
        }
    }

    /// The plan with its next version, its clock and a new forecast.
    pub open spec fn revised_at(self, now: int) -> PlanView {
        let next = PlanView { version: self.version + 1, updated_at: now, ..self };
        PlanView { estimated_completion_at: next.forecast_at(now).completed_at, ..next }
    }

    /// The next version and the new forecast are representable.
    pub open spec fn revision_fits(self, now: int) -> bool {
        self.version < i64::MAX && self.forecast_fits(now)
    }
}

/// A step that nobody has started.
pub open spec fn fresh_step(definition: DefinitionView, owner: Seq<char>) -> StepView {
    StepView {
        definition,
        state: PlanStepState::Pending,
        owner,
        initial_estimate_seconds: definition.estimate_seconds,
        elapsed_seconds: 0,
        started_at: None,
        running_since: None,
        submitted_at: None,
        completed_at: None,
        evidence: Seq::empty(),
    }
}

/// A revised step keeps its timing, state and owner; a step with a new ID is fresh.
pub open spec fn revised_step(
    steps: Seq<StepView>,
    definition: DefinitionView,
    owner: Seq<char>,
) -> StepView {
    match step_position(steps, definition.id) {
        Some(i) => StepView { definition, ..steps[i] },
        None => fresh_step(definition, owner),
    }
}

/// Why one definition cannot replace the step it revises.
pub open spec fn redefinition_fault(steps: Seq<StepView>, definition: DefinitionView) -> Option<
    PlanError,
> {
    match step_position(steps, definition.id) {
        Some(i) => if steps[i].state.finished() && definition != steps[i].definition {
            Some(PlanError::FinishedStep)
        } else if steps[i].definition.stage_id != definition.stage_id {
            Some(PlanError::MovedStep)
        } else {
            None
        },
        None => None,
    }
}

/// The fault of the first definition that cannot replace its step.
pub open spec fn first_redefinition_fault(
    steps: Seq<StepView>,
    definitions: Seq<DefinitionView>,
) -> Option<PlanError>
    decreases definitions.len(),
{
    if definitions.len() == 0 {
        None
    } else {
        match first_redefinition_fault(steps, definitions.drop_last()) {
            Some(fault) => Some(fault),
            None => redefinition_fault(steps, definitions.last()),
        }
    }
}

/// Whether one of some definitions has an ID.
pub open spec fn defines(definitions: Seq<DefinitionView>, id: Seq<char>) -> bool {
    exists|j: int| 0 <= j < definitions.len() && (#[trigger] definitions[j]).id == id
}

/// Whether some completed step has an ID.
pub open spec fn verified(steps: Seq<StepView>, id: Seq<char>) -> bool {
    exists|j: int|
        0 <= j < steps.len() && (#[trigger] steps[j]).definition.id == id && steps[j].state
            == PlanStepState::Completed
}

/// A stage is passed once it has steps and all of them are finished.
pub open spec fn passed(steps: Seq<StepView>, stage_id: Seq<char>) -> bool {
    &&& exists|j: int|
        0 <= j < steps.len() && (#[trigger] steps[j]).definition.stage_id == stage_id
    &&& forall|j: int|
        0 <= j < steps.len() && (#[trigger] steps[j]).definition.stage_id == stage_id
            ==> steps[j].state.finished()
}

pub open spec fn evident(evidence: Seq<Seq<char>>) -> bool {
    &&& 1 <= evidence.len() <= 8
    &&& forall|e: int|
        0 <= e < evidence.len() ==> !blank(#[trigger] evidence[e]) && utf8_len(evidence[e]) <= 1024
}

pub open spec fn clamped(n: int, low: int, high: int) -> int {
    if n < low {
        low
    } else if n > high {
        high
    } else {
        n
    }
}

/// What a step operation does to the state of one step.
pub enum StepChange {
    Start,
    Submit { evidence: Seq<Seq<char>> },
    Pause { reason: Seq<char> },
    Cancel { reason: Seq<char> },
}

impl PlanView {
    /// The step that a change is about, or why there is none for this executor.
    pub open spec fn owned_step(self, id: Seq<char>, owner: Seq<char>) -> Result<int, PlanError> {
        match step_position(self.steps, id) {
            None => Err(PlanError::UnknownStep),
            Some(i) => if self.steps[i].owner != owner {
                Err(PlanError::ForeignStep)
            } else {
                Ok(i)
            },
        }
    }

    /// Why a step may not start now: one step at a time for each executor, dependencies first,
    /// and stages in order.
    pub open spec fn start_fault(self, i: int, owner: Seq<char>) -> Option<PlanError> {
        let step = self.steps[i];
        if exists|j: int|
            0 <= j < self.steps.len() && (#[trigger] self.steps[j]).state == PlanStepState::Running
                && self.steps[j].owner == owner {
            Some(PlanError::StepRunning)
        } else if exists|d: int|
            0 <= d < step.definition.dependencies.len() && !verified(
                self.steps,
                #[trigger] step.definition.dependencies[d],
            ) {
            Some(PlanError::UnverifiedDependencies)
        } else if exists|k: int|
            0 <= k < stage_rank(self.stages, step) && !passed(
                self.steps,
                (#[trigger] self.stages[k]).id,
            ) {
            Some(PlanError::EarlierStages)
        } else {
            None
        }
    }

    /// The plan after a change of its step `i`, whose clock is stopped first.
    pub open spec fn change_step(self, i: int, change: StepChange, now: int) -> Result<
        PlanView,
        PlanError,
    > {
        let stopped = StepView {
            elapsed_seconds: self.steps[i].elapsed_at(now),
            running_since: None,
            ..self.steps[i]
        };
        match change {
            StepChange::Start => if stopped.state == PlanStepState::Running {
                Err(PlanError::CannotStart)
            } else {
                Ok(
                    PlanView {
                        steps: self.steps.update(
                            i,
                            StepView {
                                started_at: Some(
                                    match stopped.started_at {
                                        Some(at) => at,
                                        None => now,
                                    },
                                ),
                                submitted_at: None,
                                evidence: Seq::empty(),
                                running_since: Some(now),
                                state: PlanStepState::Running,
                                ..stopped
                            },
                        ),
                        next_review_at: now + clamped(
                            stopped.definition.estimate_seconds - stopped.elapsed_seconds,
                            5,
                            300,
                        ),
                        reason: "Started "@ + stopped.definition.id,
                        ..self
                    },
                )
            },
            StepChange::Submit { evidence } => if stopped.state != PlanStepState::Running {
                Err(PlanError::NotRunning)
            } else if !evident(evidence) {
                Err(PlanError::UnboundedEvidence)
            } else {
                Ok(
                    PlanView {
                        steps: self.steps.update(
                            i,
                            StepView {
                                evidence,
                                submitted_at: Some(now),
                                state: PlanStepState::Reviewing,
                                ..stopped
                            },
                        ),
                        review: PlanReviewState::Due,
                        next_review_at: now,
                        reason: "Submitted "@ + stopped.definition.id
                            + " for independent verification"@,
                        ..self
                    },
                )
            },
            StepChange::Pause { reason } => self.interrupted(
                i,
                StepView { state: PlanStepState::Blocked, ..stopped },
                reason,
                now,
            ),
            StepChange::Cancel { reason } => self.interrupted(
                i,
                StepView { state: PlanStepState::Cancelled, ..stopped },
                reason,
                now,
            ),
        }
    }

    /// The plan after an interruption, which has to be explained and asks for a review.
    pub open spec fn interrupted(
        self,
        i: int,
        step: StepView,
        reason: Seq<char>,
        now: int,
    ) -> Result<PlanView, PlanError> {
        if blank(reason) {
            Err(PlanError::UnexplainedInterruption)
        } else {
            Ok(
                PlanView {
                    steps: self.steps.update(i, step),
                    reason,
                    review: PlanReviewState::Due,
                    next_review_at: now,
                    ..self
                },
            )
        }
    }

    pub open spec fn with_step_change(
        self,
        id: Seq<char>,
        change: StepChange,
        owner: Seq<char>,
        now: int,
    ) -> Result<PlanView, PlanError> {
        match self.owned_step(id, owner) {
            Err(error) => Err(error),
            Ok(i) => {
                let fault = if change is Start {
                    self.start_fault(i, owner)
                } else {
                    None
                };
                match fault {
                    Some(error) => Err(error),
                    None => if self.steps[i].state.finished() {
                        Err(PlanError::FinishedStep)
                    } else {
                        self.change_step(i, change, now)
                    },
                }
            },
        }
    }

    /// The plan with new stages and definitions. Old steps stay, finished steps stay as they
    /// are, and no step moves to another stage.
    pub open spec fn with_revision(
        self,
        stages: Seq<StageView>,
        definitions: Seq<DefinitionView>,
        reason: Seq<char>,
        owner: Seq<char>,
        now: int,
    ) -> Result<PlanView, PlanError> {
        if blank(reason) {
            Err(PlanError::UnexplainedRevision)
        } else if exists|i: int|
            0 <= i < self.steps.len() && !defines(
                definitions,
                (#[trigger] self.steps[i]).definition.id,
            ) {
            Err(PlanError::DroppedStep)
        } else {
            match first_redefinition_fault(self.steps, definitions) {
                Some(fault) => Err(fault),
                None => Ok(
                    PlanView {
                        stages,
                        steps: definitions.map_values(
                            |definition: DefinitionView|
                                revised_step(self.steps, definition, owner),
                        ),
                        reason,
                        review: if self.review == PlanReviewState::Unavailable {
                            PlanReviewState::Due
                        } else {
                            self.review
                        },
                        next_review_at: if self.review == PlanReviewState::Unavailable {
                            now
                        } else {
                            self.next_review_at
                        },
                        ..self
                    },
                ),
            }
        }
    }
}

/// A new plan, where there is none or the previous one is complete.
pub open spec fn created(
    previous: Option<PlanView>,
    version: int,
    objective: Seq<char>,
    acceptance: Seq<char>,
    stages: Seq<StageView>,
    definitions: Seq<DefinitionView>,
    owner: Seq<char>,
    now: int,
    id: Seq<char>,
) -> Result<PlanView, PlanError> {
    if previous is Some && !previous->0.all_finished() {
        Err(PlanError::UnfinishedPlan)
    } else if previous is Some && !previous->0.all_expanded() {
        Err(PlanError::UnexpandedStages)
    } else if blank(objective) || blank(acceptance) {
        Err(PlanError::MissingObjective)
    } else {
        Ok(
            PlanView {
                id,
                version,
                objective,
                acceptance,
                stages,
                steps: definitions.map_values(
                    |definition: DefinitionView| fresh_step(definition, owner),
                ),
                review: PlanReviewState::Idle,
                updated_at: now,
                next_review_at: now + 300,
                estimated_completion_at: now,
                reason: "Initial plan"@,
            },
        )
    }
}

/// The plan that a request asks for, before it is validated and timed.
pub open spec fn requested(
    previous: Option<PlanView>,
    version: int,
    action: ActionView,
    owner: Seq<char>,
    now: int,
    id: Seq<char>,
) -> Result<PlanView, PlanError> {
    if version != (match previous {
        Some(plan) => plan.version,
        None => 0,
    }) {
        Err(PlanError::StaleVersion)
    } else {
        match action {
            ActionView::Create { objective, acceptance, stages, steps } => created(
                previous,
                version,
                objective,
                acceptance,
                stages,
                steps,
                owner,
                now,
                id,
            ),
            _ => match previous {
                None => Err(PlanError::NoPlan),
                Some(plan) => match action {
                    ActionView::Revise { stages, steps, reason } => plan.with_revision(
                        stages,
                        steps,
                        reason,
                        owner,
                        now,
                    ),
                    ActionView::Start { step_id } => plan.with_step_change(
                        step_id,
                        StepChange::Start,
                        owner,
                        now,
                    ),
                    ActionView::Submit { step_id, evidence } => plan.with_step_change(
                        step_id,
                        StepChange::Submit { evidence },
                        owner,
                        now,
                    ),
                    ActionView::Pause { step_id, reason } => plan.with_step_change(
                        step_id,
                        StepChange::Pause { reason },
                        owner,
                        now,
                    ),
                    ActionView::Cancel { step_id, reason } => plan.with_step_change(
                        step_id,
                        StepChange::Cancel { reason },
                        owner,
                        now,
                    ),
                    _ => Ok(plan),
                },
            },
        }
    }
}

/// The next revision of a plan, or why there is none. Reading changes nothing.
pub open spec fn applied(
    previous: Option<PlanView>,
    version: int,
    action: ActionView,
    owner: Seq<char>,
    now: int,
    id: Seq<char>,
) -> Result<PlanView, PlanError> {
    if action is Read {
        match previous {
            Some(plan) => Ok(plan),
            None => Err(PlanError::NoActivePlan),
        }
    } else {
        match requested(previous, version, action, owner, now, id) {
            Err(error) => Err(error),
            Ok(plan) => match plan.fault() {
                Some(error) => Err(error),
                None => Ok(plan.revised_at(now)),
            },
        }
    }
}

/// The arithmetic that a request asks for stays in range.
pub open spec fn action_fits(
    previous: Option<PlanView>,
    version: int,
    action: ActionView,
    owner: Seq<char>,
    now: int,
    id: Seq<char>,
) -> bool {
    &&& action is Create || action is Start ==> now <= i64::MAX - 300
    &&& previous matches Some(plan) ==> (action matches ActionView::Start { step_id }
        ==> (step_position(plan.steps, step_id) matches Some(i)
        ==> plan.steps[i].remaining_fits(now)))
    &&& !(action is Read) ==> (requested(previous, version, action, owner, now, id) matches Ok(
        plan,
    ) ==> (plan.fault() is None ==> plan.revision_fits(now)))
}

fn is_described(title: &str, acceptance: &str) -> (yes: bool)
    ensures
        yes == described(title@, acceptance@),
{
    proof {
        lemma_no_bytes_no_chars(acceptance@);
    }
    !is_blank(title) && byte_len(title) <= 128 && !has_control(title) && byte_len(acceptance) > 0
        && byte_len(acceptance) <= MAX_TEXT
}

proof fn lemma_no_bytes_no_chars(s: Seq<char>)
    ensures
        utf8_len(s) == 0 <==> s.len() == 0,
{
    lemma_utf8_len_at_least_chars(s);
}

fn is_identifier(id: &str) -> (yes: bool)
    ensures
        yes == identifier(id@),
{
    proof {
        lemma_no_bytes_no_chars(id@);
    }
    byte_len(id) > 0 && byte_len(id) <= 64
}

fn is_estimate(seconds: i64) -> (yes: bool)
    ensures
        yes == estimated(seconds as int),
{
    seconds > 0 && seconds <= MAX_ESTIMATE
}

fn any_longer(items: &Vec<String>, cap: usize) -> (yes: bool)
    ensures
        yes == exists|a: int|
            0 <= a < items@.len() && utf8_len(#[trigger] texts(items@)[a]) > cap,
{
    let mut i: usize = 0;
    while i < items.len()
        invariant
            i <= items@.len(),
            forall|a: int| 0 <= a < i ==> utf8_len(#[trigger] texts(items@)[a]) <= cap,
        decreases items.len() - i,
    {
        if byte_len(items[i].as_str()) > cap {
            assert(utf8_len(texts(items@)[i as int]) > cap);
            return true;
        }
        i += 1;
    }
    false
}

/// The first stage with an ID.
fn find_stage(stages: &Vec<PlanStage>, id: &String) -> (found: Option<usize>)
    ensures
        (match found {
            Some(k) => Some(k as int),
            None => None,
        }) == stage_position(stage_views(stages@), id@),
        found matches Some(k) ==> k < stages@.len(),
{
    let ghost views = stage_views(stages@);
    let mut found: Option<usize> = None;
    let mut k: usize = 0;
    while k < stages.len()
        invariant
            k <= stages@.len(),
            views == stage_views(stages@),
            stage_position(views.take(k as int), id@) is None,
        decreases stages.len() - k,
    {
        assert(views.take(k + 1).drop_last() =~= views.take(k as int));
        if stages[k].id == *id {
            proof {
                lemma_stage_position_in_prefix(views, id@, k + 1);
            }
            return Some(k);
        }
        k += 1;
    }
    assert(views.take(k as int) =~= views);
    None
}

/// A stage found in a prefix is the first one in the whole.
pub proof fn lemma_stage_position_in_prefix(stages: Seq<StageView>, id: Seq<char>, count: int)
    requires
        0 <= count <= stages.len(),
        stage_position(stages.take(count), id) is Some,
    ensures
        stage_position(stages, id) == stage_position(stages.take(count), id),
    decreases stages.len() - count,
{
    if count < stages.len() {
        assert(stages.take(count + 1).drop_last() =~= stages.take(count));
        lemma_stage_position_in_prefix(stages, id, count + 1);
    } else {
        assert(stages.take(count) =~= stages);
    }
}

/// A step found in a prefix is the first one in the whole.
pub proof fn lemma_step_position_in_prefix(steps: Seq<StepView>, id: Seq<char>, count: int)
    requires
        0 <= count <= steps.len(),
        step_position(steps.take(count), id) is Some,
    ensures
        step_position(steps, id) == step_position(steps.take(count), id),
    decreases steps.len() - count,
{
    if count < steps.len() {
        assert(steps.take(count + 1).drop_last() =~= steps.take(count));
        lemma_step_position_in_prefix(steps, id, count + 1);
    } else {
        assert(steps.take(count) =~= steps);
    }
}

/// The first step with an ID.
pub fn find_step(steps: &Vec<TimedPlanStep>, id: &String) -> (found: Option<usize>)
    ensures
        (match found {
            Some(i) => Some(i as int),
            None => None,
        }) == step_position(step_views(steps@), id@),
        found matches Some(i) ==> i < steps@.len(),
{
    let ghost views = step_views(steps@);
    let mut i: usize = 0;
    while i < steps.len()
        invariant
            i <= steps@.len(),
            views == step_views(steps@),
            step_position(views.take(i as int), id@) is None,
        decreases steps.len() - i,
    {
        assert(views.take(i + 1).drop_last() =~= views.take(i as int));
        if steps[i].definition.id == *id {
            proof {
                lemma_step_position_in_prefix(views, id@, i + 1);
            }
            return Some(i);
        }
        i += 1;
    }
    assert(views.take(i as int) =~= views);
    None
}

fn check_stage(stages: &Vec<PlanStage>, k: usize) -> (fault: Option<PlanError>)
    requires
        k < stages@.len(),
    ensures
        fault == stage_fault(stage_views(stages@), k as int),
{
    let stage = &stages[k];
    let ghost views = stage_views(stages@);
    assert(views[k as int] == stage@);
    if !is_identifier(stage.id.as_str()) {
        return Some(PlanError::StageIds);
    }
    let mut j: usize = 0;
    while j < k
        invariant
            j <= k < stages@.len(),
            views == stage_views(stages@),
            stage@ == views[k as int],
            forall|i: int| 0 <= i < j ==> (#[trigger] views[i]).id != stage@.id,
        decreases k - j,
    {
        assert(views[j as int] == stages@[j as int]@);
        if stages[j].id == stage.id {
            return Some(PlanError::StageIds);
        }
        j += 1;
    }
    assert(stage@.assumptions == texts(stage.assumptions@));
    if !is_described(stage.title.as_str(), stage.acceptance.as_str()) {
        Some(PlanError::StageDescription)
    } else if !is_estimate(stage.estimate_seconds) {
        Some(PlanError::StageEstimate)
    } else if stage.assumptions.len() > 8 || any_longer(&stage.assumptions, 512) {
        Some(PlanError::Assumptions)
    } else {
        None
    }
}

fn is_preceded(steps: &Vec<TimedPlanStep>, i: usize, id: &String) -> (yes: bool)
    requires
        i <= steps@.len(),
    ensures
        yes == precedes(step_views(steps@), i as int, id@),
{
    let ghost views = step_views(steps@);
    let mut j: usize = 0;
    while j < i
        invariant
            j <= i <= steps@.len(),
            views == step_views(steps@),
            forall|m: int| 0 <= m < j ==> (#[trigger] views[m]).definition.id != id@,
        decreases i - j,
    {
        assert(views[j as int] == steps@[j as int]@);
        if steps[j].definition.id == *id {
            return true;
        }
        j += 1;
    }
    false
}

fn dependencies_precede(steps: &Vec<TimedPlanStep>, i: usize) -> (yes: bool)
    requires
        i < steps@.len(),
    ensures
        yes == forall|d: int|
            0 <= d < steps@[i as int]@.definition.dependencies.len() ==> precedes(
                step_views(steps@),
                i as int,
                #[trigger] steps@[i as int]@.definition.dependencies[d],
            ),
{
    let dependencies = &steps[i].definition.dependencies;
    let ghost ids = steps@[i as int]@.definition.dependencies;
    let mut d: usize = 0;
    while d < dependencies.len()
        invariant
            d <= dependencies@.len(),
            i < steps@.len(),
            ids == texts(dependencies@),
            ids == steps@[i as int]@.definition.dependencies,
            forall|e: int|
                0 <= e < d ==> precedes(step_views(steps@), i as int, #[trigger] ids[e]),
        decreases dependencies.len() - d,
    {
        assert(ids[d as int] == dependencies@[d as int]@);
        if !is_preceded(steps, i, &dependencies[d]) {
            return false;
        }
        d += 1;
    }
    true
}

fn check_step(stages: &Vec<PlanStage>, steps: &Vec<TimedPlanStep>, i: usize) -> (fault: Option<
    PlanError,
>)
    requires
        i < steps@.len(),
    ensures
        fault == step_fault(stage_views(stages@), step_views(steps@), i as int),
{
    let definition = &steps[i].definition;
    let ghost views = step_views(steps@);
    assert(views[i as int] == steps@[i as int]@);
    match find_stage(stages, &definition.stage_id) {
        None => {
            return Some(PlanError::UnknownStage);
        },
        Some(stage) => {
            if i > 0 {
                assert(views[i - 1] == steps@[i - 1]@);
                let before: usize = match find_stage(stages, &steps[i - 1].definition.stage_id) {
                    Some(before) => before,
                    None => 0,
                };
                if stage < before {
                    return Some(PlanError::StageOrder);
                }
            }
        },
    }
    if definition.dependencies.len() > 16 || !dependencies_precede(steps, i) {
        Some(PlanError::Dependencies)
    } else if !is_identifier(definition.id.as_str()) || is_preceded(steps, i, &definition.id) {
        Some(PlanError::StepIds)
    } else if !is_described(definition.title.as_str(), definition.acceptance.as_str()) {
        Some(PlanError::StepDescription)
    } else if !is_estimate(definition.estimate_seconds) {
        Some(PlanError::StepEstimate)
    } else {
        None
    }
}

/// Checks every rule that a plan keeps, in the order in which they are reported.
#[verifier::loop_isolation(false)]
pub fn validate(plan: &ContinuousPlanning) -> (result: Result<(), PlanError>)
    ensures
        result == (match plan@.fault() {
            Some(fault) => Err::<(), PlanError>(fault),
            None => Ok(()),
        }),
{
    if byte_len(plan.objective.as_str()) > MAX_TEXT || byte_len(plan.acceptance.as_str())
        > MAX_TEXT || byte_len(plan.reason.as_str()) > MAX_TEXT {
        return Err(PlanError::TextTooLong);
    }
    if plan.stages.len() == 0 || plan.stages.len() > 16 || plan.steps.len() == 0
        || plan.steps.len() > 64 {
        return Err(PlanError::Counts);
    }
    let ghost stages = plan@.stages;
    let ghost steps = plan@.steps;
    let mut k: usize = 0;
    while k < plan.stages.len()
        invariant
            k <= plan.stages@.len(),
            stages == plan@.stages,
            first_stage_fault(stages, k as int) is None,
        decreases plan.stages.len() - k,
    {
        match check_stage(&plan.stages, k) {
            Some(fault) => {
                proof {
                    lemma_stage_fault_stays(stages, k + 1, stages.len() as int);
                }
                return Err(fault);
            },
            None => {},
        }
        k += 1;
    }
    let mut i: usize = 0;
    while i < plan.steps.len()
        invariant
            i <= plan.steps@.len(),
            stages == plan@.stages,
            steps == plan@.steps,
            first_step_fault(stages, steps, i as int) is None,
        decreases plan.steps.len() - i,
    {
        match check_step(&plan.stages, &plan.steps, i) {
            Some(fault) => {
                proof {
                    lemma_step_fault_stays(stages, steps, i + 1, steps.len() as int);
                }
                return Err(fault);
            },
            None => {},
        }
        i += 1;
    }
    Ok(())
}

proof fn lemma_stage_fault_stays(stages: Seq<StageView>, count: int, more: int)
    requires
        count <= more,
        first_stage_fault(stages, count) is Some,
    ensures
        first_stage_fault(stages, more) == first_stage_fault(stages, count),
    decreases more - count,
{
    if count < more {
        lemma_stage_fault_stays(stages, count, more - 1);
    }
}

proof fn lemma_step_fault_stays(
    stages: Seq<StageView>,
    steps: Seq<StepView>,
    count: int,
    more: int,
)
    requires
        count <= more,
        first_step_fault(stages, steps, count) is Some,
    ensures
        first_step_fault(stages, steps, more) == first_step_fault(stages, steps, count),
    decreases more - count,
{
    if count < more {
        lemma_step_fault_stays(stages, steps, count, more - 1);
    }
}

/// Gives a plan its next version, its clock and a new forecast.
pub fn finish_revision(plan: &mut ContinuousPlanning, now: i64)
    requires
        old(plan)@.revision_fits(now as int),
    ensures
        final(plan)@ == old(plan)@.revised_at(now as int),
{
    plan.version = plan.version + 1;
    plan.updated_at = now;
    plan.estimated_completion_at = plan.forecast_at(now).completed_at;
}

fn new_step(definition: &PlanStepDefinition, owner: &str) -> (step: TimedPlanStep)
    ensures
        step@ == fresh_step(definition@, owner@),
{
    let step = TimedPlanStep {
        definition: definition.clone(),
        state: PlanStepState::Pending,
        owner: owner.to_owned(),
        initial_estimate_seconds: definition.estimate_seconds,
        elapsed_seconds: 0,
        started_at: None,
        running_since: None,
        submitted_at: None,
        completed_at: None,
        evidence: Vec::new(),
    };
    assert(step@.evidence =~= Seq::empty());
    step
}

fn create(
    previous: &Option<ContinuousPlanning>,
    version: i64,
    objective: String,
    acceptance: String,
    stages: Vec<PlanStage>,
    definitions: Vec<PlanStepDefinition>,
    owner: &str,
    now: i64,
    id: &str,
) -> (result: Result<ContinuousPlanning, PlanError>)
    requires
        now <= i64::MAX - 300,
    ensures
        plan_result(result) == created(
            plan_option(*previous),
            version as int,
            objective@,
            acceptance@,
            stage_views(stages@),
            definition_views(definitions@),
            owner@,
            now as int,
            id@,
        ),
{
    match previous {
        Some(plan) => {
            if !plan.is_all_finished() {
                return Err(PlanError::UnfinishedPlan);
            }
            if !plan.is_all_expanded() {
                return Err(PlanError::UnexpandedStages);
            }
        },
        None => {},
    }
    if is_blank(objective.as_str()) || is_blank(acceptance.as_str()) {
        return Err(PlanError::MissingObjective);
    }
    let mut steps: Vec<TimedPlanStep> = Vec::new();
    let mut i: usize = 0;
    while i < definitions.len()
        invariant
            i <= definitions@.len(),
            steps@.len() == i,
            forall|k: int|
                0 <= k < i ==> (#[trigger] steps@[k])@ == fresh_step(definitions@[k]@, owner@),
        decreases definitions.len() - i,
    {
        steps.push(new_step(&definitions[i], owner));
        i += 1;
    }
    assert(step_views(steps@) =~= definition_views(definitions@).map_values(
        |definition: DefinitionView| fresh_step(definition, owner@),
    ));
    Ok(
        ContinuousPlanning {
            id: id.to_owned(),
            version,
            objective,
            acceptance,
            stages,
            steps,
            review: PlanReviewState::Idle,
            updated_at: now,
            next_review_at: now + 300,
            estimated_completion_at: now,
            reason: "Initial plan".to_owned(),
        },
    )
}

/// The view of a plan where there is one.
pub open spec fn plan_option(plan: Option<ContinuousPlanning>) -> Option<PlanView> {
    match plan {
        Some(plan) => Some(plan@),
        None => None,
    }
}

/// The view of an outcome.
pub open spec fn plan_result(result: Result<ContinuousPlanning, PlanError>) -> Result<
    PlanView,
    PlanError,
> {
    match result {
        Ok(plan) => Ok(plan@),
        Err(error) => Err(error),
    }
}

fn is_defined(definitions: &Vec<PlanStepDefinition>, id: &String) -> (yes: bool)
    ensures
        yes == defines(definition_views(definitions@), id@),
{
    let ghost views = definition_views(definitions@);
    let mut j: usize = 0;
    while j < definitions.len()
        invariant
            j <= definitions@.len(),
            views == definition_views(definitions@),
            forall|k: int| 0 <= k < j ==> (#[trigger] views[k]).id != id@,
        decreases definitions.len() - j,
    {
        assert(views[j as int] == definitions@[j as int]@);
        if definitions[j].id == *id {
            return true;
        }
        j += 1;
    }
    false
}

fn check_redefinition(steps: &Vec<TimedPlanStep>, definition: &PlanStepDefinition) -> (fault:
    Option<PlanError>)
    ensures
        fault == redefinition_fault(step_views(steps@), definition@),
{
    match find_step(steps, &definition.id) {
        Some(i) => {
            assert(step_views(steps@)[i as int] == steps@[i as int]@);
            if steps[i].state.is_finished() && !definition.same(&steps[i].definition) {
                Some(PlanError::FinishedStep)
            } else if steps[i].definition.stage_id != definition.stage_id {
                Some(PlanError::MovedStep)
            } else {
                None
            }
        },
        None => None,
    }
}

fn revise_step(steps: &Vec<TimedPlanStep>, definition: &PlanStepDefinition, owner: &str) -> (step:
    TimedPlanStep)
    ensures
        step@ == revised_step(step_views(steps@), definition@, owner@),
{
    match find_step(steps, &definition.id) {
        Some(i) => {
            assert(step_views(steps@)[i as int] == steps@[i as int]@);
            let mut step = steps[i].clone();
            step.definition = definition.clone();
            step
        },
        None => new_step(definition, owner),
    }
}

proof fn lemma_redefinition_fault_stays(
    steps: Seq<StepView>,
    definitions: Seq<DefinitionView>,
    count: int,
)
    requires
        0 <= count <= definitions.len(),
        first_redefinition_fault(steps, definitions.take(count)) is Some,
    ensures
        first_redefinition_fault(steps, definitions) == first_redefinition_fault(
            steps,
            definitions.take(count),
        ),
    decreases definitions.len() - count,
{
    if count < definitions.len() {
        assert(definitions.take(count + 1).drop_last() =~= definitions.take(count));
        lemma_redefinition_fault_stays(steps, definitions, count + 1);
    } else {
        assert(definitions.take(count) =~= definitions);
    }
}

fn keeps_steps(steps: &Vec<TimedPlanStep>, definitions: &Vec<PlanStepDefinition>) -> (yes: bool)
    ensures
        yes == forall|i: int|
            0 <= i < steps@.len() ==> defines(
                definition_views(definitions@),
                (#[trigger] step_views(steps@)[i]).definition.id,
            ),
{
    let ghost views = step_views(steps@);
    let mut i: usize = 0;
    while i < steps.len()
        invariant
            i <= steps@.len(),
            views == step_views(steps@),
            forall|k: int|
                0 <= k < i ==> defines(
                    definition_views(definitions@),
                    (#[trigger] views[k]).definition.id,
                ),
        decreases steps.len() - i,
    {
        assert(views[i as int] == steps@[i as int]@);
        if !is_defined(definitions, &steps[i].definition.id) {
            return false;
        }
        i += 1;
    }
    true
}

#[verifier::loop_isolation(false)]
fn revise(
    plan: ContinuousPlanning,
    stages: Vec<PlanStage>,
    definitions: Vec<PlanStepDefinition>,
    reason: String,
    owner: &str,
    now: i64,
) -> (result: Result<ContinuousPlanning, PlanError>)
    ensures
        plan_result(result) == plan@.with_revision(
            stage_views(stages@),
            definition_views(definitions@),
            reason@,
            owner@,
            now as int,
        ),
{
    if is_blank(reason.as_str()) {
        return Err(PlanError::UnexplainedRevision);
    }
    if !keeps_steps(&plan.steps, &definitions) {
        return Err(PlanError::DroppedStep);
    }
    let ghost old_steps = plan@.steps;
    let ghost views = definition_views(definitions@);
    let mut next: Vec<TimedPlanStep> = Vec::new();
    let mut i: usize = 0;
    while i < definitions.len()
        invariant
            i <= definitions@.len(),
            next@.len() == i,
            first_redefinition_fault(old_steps, views.take(i as int)) is None,
            forall|k: int|
                0 <= k < i ==> (#[trigger] next@[k])@ == revised_step(
                    old_steps,
                    definitions@[k]@,
                    owner@,
                ),
        decreases definitions.len() - i,
    {
        assert(views.take(i + 1).drop_last() =~= views.take(i as int));
        assert(views.take(i + 1).last() == definitions@[i as int]@);
        match check_redefinition(&plan.steps, &definitions[i]) {
            Some(fault) => {
                proof {
                    lemma_redefinition_fault_stays(old_steps, views, i + 1);
                }
                return Err(fault);
            },
            None => {},
        }
        next.push(revise_step(&plan.steps, &definitions[i], owner));
        i += 1;
    }
    assert(views.take(i as int) =~= views);
    assert(step_views(next@) =~= views.map_values(
        |definition: DefinitionView| revised_step(old_steps, definition, owner@),
    ));
    let mut plan = plan;
    plan.steps = next;
    plan.stages = stages;
    plan.reason = reason;
    if plan.review == PlanReviewState::Unavailable {
        plan.review = PlanReviewState::Due;
        plan.next_review_at = now;
    }
    Ok(plan)
}

fn owned_step(plan: &ContinuousPlanning, id: &String, owner: &str) -> (result: Result<
    usize,
    PlanError,
>)
    ensures
        (match result {
            Ok(i) => Ok::<int, PlanError>(i as int),
            Err(error) => Err(error),
        }) == plan@.owned_step(id@, owner@),
        result matches Ok(i) ==> i < plan.steps@.len(),
{
    match find_step(&plan.steps, id) {
        None => Err(PlanError::UnknownStep),
        Some(i) => {
            assert(plan@.steps[i as int] == plan.steps@[i as int]@);
            if !same_text(plan.steps[i].owner.as_str(), owner) {
                Err(PlanError::ForeignStep)
            } else {
                Ok(i)
            }
        },
    }
}

fn is_running(steps: &Vec<TimedPlanStep>, owner: &str) -> (yes: bool)
    ensures
        yes == exists|j: int|
            0 <= j < steps@.len() && (#[trigger] step_views(steps@)[j]).state
                == PlanStepState::Running && step_views(steps@)[j].owner == owner@,
{
    let ghost views = step_views(steps@);
    let mut j: usize = 0;
    while j < steps.len()
        invariant
            j <= steps@.len(),
            views == step_views(steps@),
            forall|k: int|
                0 <= k < j ==> !((#[trigger] views[k]).state == PlanStepState::Running
                    && views[k].owner == owner@),
        decreases steps.len() - j,
    {
        assert(views[j as int] == steps@[j as int]@);
        if steps[j].state == PlanStepState::Running && same_text(steps[j].owner.as_str(), owner) {
            return true;
        }
        j += 1;
    }
    false
}

fn is_verified(steps: &Vec<TimedPlanStep>, id: &String) -> (yes: bool)
    ensures
        yes == verified(step_views(steps@), id@),
{
    let ghost views = step_views(steps@);
    let mut j: usize = 0;
    while j < steps.len()
        invariant
            j <= steps@.len(),
            views == step_views(steps@),
            forall|k: int|
                0 <= k < j ==> !((#[trigger] views[k]).definition.id == id@ && views[k].state
                    == PlanStepState::Completed),
        decreases steps.len() - j,
    {
        assert(views[j as int] == steps@[j as int]@);
        if steps[j].definition.id == *id && steps[j].state == PlanStepState::Completed {
            return true;
        }
        j += 1;
    }
    false
}

fn all_verified(steps: &Vec<TimedPlanStep>, ids: &Vec<String>) -> (yes: bool)
    ensures
        yes == forall|d: int|
            0 <= d < ids@.len() ==> verified(step_views(steps@), #[trigger] texts(ids@)[d]),
{
    let mut d: usize = 0;
    while d < ids.len()
        invariant
            d <= ids@.len(),
            forall|e: int|
                0 <= e < d ==> verified(step_views(steps@), #[trigger] texts(ids@)[e]),
        decreases ids.len() - d,
    {
        assert(texts(ids@)[d as int] == ids@[d as int]@);
        if !is_verified(steps, &ids[d]) {
            return false;
        }
        d += 1;
    }
    true
}

fn is_passed(steps: &Vec<TimedPlanStep>, stage_id: &String) -> (yes: bool)
    ensures
        yes == passed(step_views(steps@), stage_id@),
{
    let ghost views = step_views(steps@);
    let mut expanded = false;
    let mut j: usize = 0;
    while j < steps.len()
        invariant
            j <= steps@.len(),
            views == step_views(steps@),
            expanded == exists|k: int|
                0 <= k < j && (#[trigger] views[k]).definition.stage_id == stage_id@,
            forall|k: int|
                0 <= k < j && (#[trigger] views[k]).definition.stage_id == stage_id@
                    ==> views[k].state.finished(),
        decreases steps.len() - j,
    {
        assert(views[j as int] == steps@[j as int]@);
        if steps[j].definition.stage_id == *stage_id {
            expanded = true;
            if !steps[j].state.is_finished() {
                return false;
            }
        }
        j += 1;
    }
    expanded
}

#[verifier::loop_isolation(false)]
fn check_start(plan: &ContinuousPlanning, i: usize, owner: &str) -> (fault: Option<PlanError>)
    requires
        i < plan.steps@.len(),
    ensures
        fault == plan@.start_fault(i as int, owner@),
{
    let definition = &plan.steps[i].definition;
    assert(plan@.steps[i as int] == plan.steps@[i as int]@);
    if is_running(&plan.steps, owner) {
        return Some(PlanError::StepRunning);
    }
    let ghost ids = plan@.steps[i as int].definition.dependencies;
    if !all_verified(&plan.steps, &definition.dependencies) {
        assert(exists|d: int| 0 <= d < ids.len() && !verified(plan@.steps, #[trigger] ids[d]));
        return Some(PlanError::UnverifiedDependencies);
    }
    let rank: usize = match find_stage(&plan.stages, &definition.stage_id) {
        Some(rank) => rank,
        None => 0,
    };
    let mut k: usize = 0;
    while k < rank
        invariant
            k <= rank <= plan.stages@.len(),
            forall|m: int|
                0 <= m < k ==> passed(plan@.steps, (#[trigger] plan@.stages[m]).id),
        decreases rank - k,
    {
        assert(plan@.stages[k as int] == plan.stages@[k as int]@);
        if !is_passed(&plan.steps, &plan.stages[k].id) {
            return Some(PlanError::EarlierStages);
        }
        k += 1;
    }
    None
}

/// A step with its clock stopped.
fn stop_clock(step: &TimedPlanStep, now: i64) -> (stopped: TimedPlanStep)
    ensures
        stopped@ == (StepView {
            elapsed_seconds: step@.elapsed_at(now as int),
            running_since: None,
            ..step@
        }),
{
    let mut stopped = step.clone();
    stopped.elapsed_seconds = step.elapsed_at(now);
    stopped.running_since = None;
    stopped
}

pub fn replace_step(plan: &mut ContinuousPlanning, i: usize, step: TimedPlanStep)
    requires
        i < old(plan).steps@.len(),
    ensures
        final(plan)@ == (PlanView { steps: old(plan)@.steps.update(i as int, step@), ..old(plan)@ }),
        final(plan).steps@.len() == old(plan).steps@.len(),
{
    let ghost before = plan.steps@;
    plan.steps.set(i, step);
    assert(step_views(plan.steps@) =~= step_views(before).update(i as int, step@));
}

fn begin_step(plan: ContinuousPlanning, id: &String, owner: &str, now: i64) -> (result: Result<
    ContinuousPlanning,
    PlanError,
>)
    requires
        now <= i64::MAX - 300,
        step_position(plan@.steps, id@) matches Some(i) ==> plan@.steps[i].remaining_fits(
            now as int,
        ),
    ensures
        plan_result(result) == plan@.with_step_change(
            id@,
            StepChange::Start,
            owner@,
            now as int,
        ),
{
    let i: usize = match owned_step(&plan, id, owner) {
        Ok(i) => i,
        Err(error) => {
            return Err(error);
        },
    };
    assert(plan@.steps[i as int] == plan.steps@[i as int]@);
    match check_start(&plan, i, owner) {
        Some(error) => {
            return Err(error);
        },
        None => {},
    }
    if plan.steps[i].state.is_finished() {
        return Err(PlanError::FinishedStep);
    }
    let mut plan = plan;
    let mut step = stop_clock(&plan.steps[i], now);
    if step.state == PlanStepState::Running {
        return Err(PlanError::CannotStart);
    }
    if step.started_at.is_none() {
        step.started_at = Some(now);
    }
    step.submitted_at = None;
    step.evidence = Vec::new();
    step.running_since = Some(now);
    step.state = PlanStepState::Running;
    assert(step@.evidence =~= Seq::empty());
    let left: i64 = step.definition.estimate_seconds - step.elapsed_seconds;
    let pause: i64 = if left < 5 {
        5
    } else if left > 300 {
        300
    } else {
        left
    };
    plan.next_review_at = now + pause;
    let mut reason = "Started ".to_owned();
    reason.append(step.definition.id.as_str());
    plan.reason = reason;
    replace_step(&mut plan, i, step);
    Ok(plan)
}

pub fn is_evident(evidence: &Vec<String>) -> (yes: bool)
    ensures
        yes == evident(texts(evidence@)),
{
    if evidence.len() == 0 || evidence.len() > 8 {
        return false;
    }
    let mut e: usize = 0;
    while e < evidence.len()
        invariant
            e <= evidence@.len(),
            forall|k: int|
                0 <= k < e ==> !blank(#[trigger] texts(evidence@)[k]) && utf8_len(
                    texts(evidence@)[k],
                ) <= 1024,
        decreases evidence.len() - e,
    {
        assert(texts(evidence@)[e as int] == evidence@[e as int]@);
        if is_blank(evidence[e].as_str()) || byte_len(evidence[e].as_str()) > 1024 {
            return false;
        }
        e += 1;
    }
    true
}

fn submit_step(
    plan: ContinuousPlanning,
    id: &String,
    evidence: Vec<String>,
    owner: &str,
    now: i64,
) -> (result: Result<ContinuousPlanning, PlanError>)
    ensures
        plan_result(result) == plan@.with_step_change(
            id@,
            (StepChange::Submit { evidence: texts(evidence@) }),
            owner@,
            now as int,
        ),
{
    let i: usize = match owned_step(&plan, id, owner) {
        Ok(i) => i,
        Err(error) => {
            return Err(error);
        },
    };
    assert(plan@.steps[i as int] == plan.steps@[i as int]@);
    if plan.steps[i].state.is_finished() {
        return Err(PlanError::FinishedStep);
    }
    let mut plan = plan;
    let mut step = stop_clock(&plan.steps[i], now);
    if step.state != PlanStepState::Running {
        return Err(PlanError::NotRunning);
    }
    if !is_evident(&evidence) {
        return Err(PlanError::UnboundedEvidence);
    }
    step.evidence = evidence;
    step.submitted_at = Some(now);
    step.state = PlanStepState::Reviewing;
    plan.review = PlanReviewState::Due;
    plan.next_review_at = now;
    let mut reason = "Submitted ".to_owned();
    reason.append(step.definition.id.as_str());
    reason.append(" for independent verification");
    plan.reason = reason;
    replace_step(&mut plan, i, step);
    Ok(plan)
}

fn interrupt_step(
    plan: ContinuousPlanning,
    id: &String,
    cancelling: bool,
    reason: String,
    owner: &str,
    now: i64,
) -> (result: Result<ContinuousPlanning, PlanError>)
    ensures
        plan_result(result) == plan@.with_step_change(
            id@,
            if cancelling {
                StepChange::Cancel { reason: reason@ }
            } else {
                StepChange::Pause { reason: reason@ }
            },
            owner@,
            now as int,
        ),
{
    let i: usize = match owned_step(&plan, id, owner) {
        Ok(i) => i,
        Err(error) => {
            return Err(error);
        },
    };
    assert(plan@.steps[i as int] == plan.steps@[i as int]@);
    if plan.steps[i].state.is_finished() {
        return Err(PlanError::FinishedStep);
    }
    if is_blank(reason.as_str()) {
        return Err(PlanError::UnexplainedInterruption);
    }
    let mut plan = plan;
    let mut step = stop_clock(&plan.steps[i], now);
    step.state = if cancelling {
        PlanStepState::Cancelled
    } else {
        PlanStepState::Blocked
    };
    plan.reason = reason;
    plan.review = PlanReviewState::Due;
    plan.next_review_at = now;
    replace_step(&mut plan, i, step);
    Ok(plan)
}

/// The next revision of a plan. `id` is the identity of the plan where one is created.
pub fn apply(
    previous: Option<ContinuousPlanning>,
    request: PlanActionRequest,
    owner: &str,
    now: i64,
    id: &str,
) -> (result: Result<ContinuousPlanning, PlanError>)
    requires
        action_fits(
            plan_option(previous),
            request.version as int,
            request.operation@,
            owner@,
            now as int,
            id@,
        ),
    ensures
        plan_result(result) == applied(
            plan_option(previous),
            request.version as int,
            request.operation@,
            owner@,
            now as int,
            id@,
        ),
{
    if matches!(request.operation, PlanAction::Read { .. }) {
        return match previous {
            Some(plan) => Ok(plan),
            None => Err(PlanError::NoActivePlan),
        };
    }
    let current: i64 = match &previous {
        Some(plan) => plan.version,
        None => 0,
    };
    if request.version != current {
        return Err(PlanError::StaleVersion);
    }
    let version = request.version;
    let drafted = match request.operation {
        PlanAction::Create { objective, acceptance, stages, steps } => create(
            &previous,
            version,
            objective,
            acceptance,
            stages,
            steps,
            owner,
            now,
            id,
        ),
        operation => match previous {
            None => Err(PlanError::NoPlan),
            Some(plan) => match operation {
                PlanAction::Revise { stages, steps, reason } => revise(
                    plan,
                    stages,
                    steps,
                    reason,
                    owner,
                    now,
                ),
                PlanAction::Start { step_id } => begin_step(plan, &step_id, owner, now),
                PlanAction::Submit { step_id, evidence } => submit_step(
                    plan,
                    &step_id,
                    evidence,
                    owner,
                    now,
                ),
                PlanAction::Pause { step_id, reason } => interrupt_step(
                    plan,
                    &step_id,
                    false,
                    reason,
                    owner,
                    now,
                ),
                PlanAction::Cancel { step_id, reason } => interrupt_step(
                    plan,
                    &step_id,
                    true,
                    reason,
                    owner,
                    now,
                ),
                _ => Ok(plan),
            },
        },
    };
    match drafted {
        Err(error) => Err(error),
        Ok(plan) => match validate(&plan) {
            Err(error) => Err(error),
            Ok(()) => {
                let mut plan = plan;
                finish_revision(&mut plan, now);
                Ok(plan)
            },
        },
    }
}

} // verus!
