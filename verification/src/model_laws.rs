//! What every revision of a plan keeps.

use crate::model::action_fits;
use crate::model::applied;
use crate::model::defines;
use crate::model::described;
use crate::model::estimated;
use crate::model::first_redefinition_fault;
use crate::model::first_stage_fault;
use crate::model::first_step_fault;
use crate::model::fresh_step;
use crate::model::identifier;
use crate::model::precedes;
use crate::model::redefinition_fault;
use crate::model::requested;
use crate::model::revised_step;
use crate::model::stage_fault;
use crate::model::stage_position;
use crate::model::stage_rank;
use crate::model::step_fault;
use crate::model::step_position;
use crate::model::PlanError;
use crate::model::StepChange;
use crate::model::MAX_TEXT;
use crate::plan::ContinuousPlanning;
use crate::plan::DefinitionView;
use crate::plan::PlanStepState;
use crate::plan::PlanView;
use crate::plan::StageView;
use crate::plan::StepView;
use crate::request::ActionView;
use crate::text::utf8_len;
use vstd::prelude::*;

verus! {

impl PlanView {
    /// A plan with bounded texts, between one and sixteen stages and between one and 64 steps,
    /// each with an ID of its own and a description, whose steps follow the stages and come after
    /// what they depend on.
    pub open spec fn valid(self) -> bool {
        &&& utf8_len(self.objective) <= MAX_TEXT
        &&& utf8_len(self.acceptance) <= MAX_TEXT
        &&& utf8_len(self.reason) <= MAX_TEXT
        &&& 1 <= self.stages.len() <= 16
        &&& 1 <= self.steps.len() <= 64
        &&& forall|k: int|
            0 <= k < self.stages.len() ==> valid_stage(#[trigger] self.stages[k])
        &&& forall|j: int, k: int|
            0 <= j < k < self.stages.len() ==> (#[trigger] self.stages[j]).id != (
            #[trigger] self.stages[k]).id
        &&& forall|i: int|
            0 <= i < self.steps.len() ==> valid_definition((#[trigger] self.steps[i]).definition)
        &&& forall|i: int|
            0 <= i < self.steps.len() ==> self.has_stage(
                (#[trigger] self.steps[i]).definition.stage_id,
            )
        &&& forall|i: int, j: int|
            0 <= i < j < self.steps.len() ==> stage_rank(self.stages, #[trigger] self.steps[i])
                <= stage_rank(self.stages, #[trigger] self.steps[j])
        &&& forall|i: int, j: int|
            0 <= i < j < self.steps.len() ==> (#[trigger] self.steps[i]).definition.id != (
            #[trigger] self.steps[j]).definition.id
        &&& forall|i: int, d: int|
            0 <= i < self.steps.len() && 0 <= d < self.steps[i].definition.dependencies.len()
                ==> precedes(
                self.steps,
                i,
                #[trigger] self.steps[i].definition.dependencies[d],
            )
    }

    /// No executor runs two steps at once.
    pub open spec fn one_at_a_time(self) -> bool {
        forall|i: int, j: int|
            0 <= i < j < self.steps.len() && (#[trigger] self.steps[i]).state
                == PlanStepState::Running && (#[trigger] self.steps[j]).state
                == PlanStepState::Running ==> self.steps[i].owner != self.steps[j].owner
    }

    /// No recorded time or estimate is negative.
    pub open spec fn steady(self) -> bool {
        forall|i: int|
            0 <= i < self.steps.len() ==> 0 <= (#[trigger] self.steps[i]).elapsed_seconds
                <= i64::MAX && 0 <= self.steps[i].definition.estimate_seconds <= i64::MAX
    }

    pub open spec fn holds_step(self, step: StepView) -> bool {
        exists|j: int| 0 <= j < self.steps.len() && #[trigger] self.steps[j] == step
    }
}

pub open spec fn valid_stage(stage: StageView) -> bool {
    &&& identifier(stage.id)
    &&& described(stage.title, stage.acceptance)
    &&& estimated(stage.estimate_seconds)
    &&& stage.assumptions.len() <= 8
    &&& forall|a: int|
        0 <= a < stage.assumptions.len() ==> utf8_len(#[trigger] stage.assumptions[a]) <= 512
}

pub open spec fn valid_definition(definition: DefinitionView) -> bool {
    &&& identifier(definition.id)
    &&& described(definition.title, definition.acceptance)
    &&& estimated(definition.estimate_seconds)
    &&& definition.dependencies.len() <= 16
}

proof fn lemma_stage_faults(stages: Seq<StageView>, count: int)
    requires
        0 <= count <= stages.len(),
    ensures
        first_stage_fault(stages, count) is None <==> forall|k: int|
            0 <= k < count ==> #[trigger] stage_fault(stages, k) is None,
    decreases count,
{
    if count > 0 {
        lemma_stage_faults(stages, count - 1);
        if first_stage_fault(stages, count) is None {
            assert forall|k: int| 0 <= k < count implies #[trigger] stage_fault(
                stages,
                k,
            ) is None by {}
        } else if first_stage_fault(stages, count - 1) is None {
            assert(stage_fault(stages, count - 1) is Some);
        }
    }
}

proof fn lemma_step_faults(stages: Seq<StageView>, steps: Seq<StepView>, count: int)
    requires
        0 <= count <= steps.len(),
    ensures
        first_step_fault(stages, steps, count) is None <==> forall|i: int|
            0 <= i < count ==> #[trigger] step_fault(stages, steps, i) is None,
    decreases count,
{
    if count > 0 {
        lemma_step_faults(stages, steps, count - 1);
        if first_step_fault(stages, steps, count) is None {
            assert forall|i: int| 0 <= i < count implies #[trigger] step_fault(
                stages,
                steps,
                i,
            ) is None by {}
        } else if first_step_fault(stages, steps, count - 1) is None {
            assert(step_fault(stages, steps, count - 1) is Some);
        }
    }
}

/// The first stage with an ID is the one that a search finds.
pub proof fn lemma_stage_position(stages: Seq<StageView>, id: Seq<char>)
    ensures
        match stage_position(stages, id) {
            Some(k) => 0 <= k < stages.len() && stages[k].id == id && forall|j: int|
                0 <= j < k ==> (#[trigger] stages[j]).id != id,
            None => forall|j: int| 0 <= j < stages.len() ==> (#[trigger] stages[j]).id != id,
        },
    decreases stages.len(),
{
    if stages.len() > 0 {
        let rest = stages.drop_last();
        lemma_stage_position(rest, id);
        assert(forall|j: int| 0 <= j < rest.len() ==> #[trigger] rest[j] == stages[j]);
        assert forall|j: int| 0 <= j < stages.len() - 1 implies (#[trigger] stages[j]) == rest[j] by {}
    }
}

/// The first step with an ID is the one that a search finds.
pub proof fn lemma_step_position(steps: Seq<StepView>, id: Seq<char>)
    ensures
        match step_position(steps, id) {
            Some(k) => 0 <= k < steps.len() && steps[k].definition.id == id && forall|j: int|
                0 <= j < k ==> (#[trigger] steps[j]).definition.id != id,
            None => forall|j: int|
                0 <= j < steps.len() ==> (#[trigger] steps[j]).definition.id != id,
        },
    decreases steps.len(),
{
    if steps.len() > 0 {
        let rest = steps.drop_last();
        lemma_step_position(rest, id);
        assert(forall|j: int| 0 <= j < rest.len() ==> #[trigger] rest[j] == steps[j]);
        assert forall|j: int| 0 <= j < steps.len() - 1 implies (#[trigger] steps[j]) == rest[j] by {}
    }
}

proof fn lemma_ranks_ordered(stages: Seq<StageView>, steps: Seq<StepView>, i: int, j: int)
    requires
        0 <= i <= j < steps.len(),
        forall|k: int| 0 <= k < steps.len() ==> #[trigger] step_fault(stages, steps, k) is None,
    ensures
        stage_rank(stages, steps[i]) <= stage_rank(stages, steps[j]),
    decreases j - i,
{
    if i < j {
        lemma_ranks_ordered(stages, steps, i, j - 1);
        assert(step_fault(stages, steps, j) is None);
    }
}

/// The checks find no fault exactly in the valid plans.
pub proof fn law_valid_plans_have_no_fault(plan: PlanView)
    ensures
        plan.fault() is None <==> plan.valid(),
{
    lemma_stage_faults(plan.stages, plan.stages.len() as int);
    lemma_step_faults(plan.stages, plan.steps, plan.steps.len() as int);
    if plan.fault() is None {
        assert forall|k: int| 0 <= k < plan.stages.len() implies valid_stage(
            #[trigger] plan.stages[k],
        ) by {
            assert(stage_fault(plan.stages, k) is None);
        }
        assert forall|j: int, k: int| 0 <= j < k < plan.stages.len() implies (
        #[trigger] plan.stages[j]).id != (#[trigger] plan.stages[k]).id by {
            assert(stage_fault(plan.stages, k) is None);
        }
        assert forall|i: int| 0 <= i < plan.steps.len() implies valid_definition(
            (#[trigger] plan.steps[i]).definition,
        ) && plan.has_stage(plan.steps[i].definition.stage_id) by {
            assert(step_fault(plan.stages, plan.steps, i) is None);
            lemma_stage_position(plan.stages, plan.steps[i].definition.stage_id);
        }
        assert forall|i: int, j: int| 0 <= i < j < plan.steps.len() implies stage_rank(
            plan.stages,
            #[trigger] plan.steps[i],
        ) <= stage_rank(plan.stages, #[trigger] plan.steps[j]) && plan.steps[i].definition.id
            != plan.steps[j].definition.id by {
            lemma_ranks_ordered(plan.stages, plan.steps, i, j);
            assert(step_fault(plan.stages, plan.steps, j) is None);
        }
        assert forall|i: int, d: int|
            0 <= i < plan.steps.len() && 0 <= d
                < plan.steps[i].definition.dependencies.len() implies precedes(
            plan.steps,
            i,
            #[trigger] plan.steps[i].definition.dependencies[d],
        ) by {
            assert(step_fault(plan.stages, plan.steps, i) is None);
        }
    }
    if plan.valid() {
        assert forall|k: int| 0 <= k < plan.stages.len() implies #[trigger] stage_fault(
            plan.stages,
            k,
        ) is None by {
            assert(valid_stage(plan.stages[k]));
        }
        assert forall|i: int| 0 <= i < plan.steps.len() implies #[trigger] step_fault(
            plan.stages,
            plan.steps,
            i,
        ) is None by {
            assert(valid_definition(plan.steps[i].definition));
            assert(plan.has_stage(plan.steps[i].definition.stage_id));
            lemma_stage_position(plan.stages, plan.steps[i].definition.stage_id);
            if i > 0 {
                assert(stage_rank(plan.stages, plan.steps[i - 1]) <= stage_rank(
                    plan.stages,
                    plan.steps[i],
                ));
            }
        }
    }
}

/// An accepted change answers the current version, gives the next one, and leaves a valid plan.
pub proof fn law_accepted_changes_are_valid_and_versioned(
    previous: Option<PlanView>,
    version: int,
    action: ActionView,
    owner: Seq<char>,
    now: int,
    id: Seq<char>,
)
    requires
        !(action is Read),
        applied(previous, version, action, owner, now, id) is Ok,
    ensures
        ({
            let next = applied(previous, version, action, owner, now, id)->Ok_0;
            &&& next.valid()
            &&& next.version == version + 1
            &&& next.updated_at == now
            &&& version == (match previous {
                Some(plan) => plan.version,
                None => 0,
            })
        }),
{
    let draft = requested(previous, version, action, owner, now, id)->Ok_0;
    law_valid_plans_have_no_fault(draft);
    let next = draft.revised_at(now);
    assert(next.valid()) by {
        assert(next.steps == draft.steps);
        assert(next.stages == draft.stages);
        assert forall|i: int| 0 <= i < next.steps.len() implies next.has_stage(
            (#[trigger] next.steps[i]).definition.stage_id,
        ) by {
            assert(draft.has_stage(draft.steps[i].definition.stage_id));
        }
    }
}

/// Reading changes nothing, whatever version the reader names.
pub proof fn law_reading_changes_nothing(
    plan: PlanView,
    version: int,
    offset: int,
    owner: Seq<char>,
    now: int,
    id: Seq<char>,
)
    ensures
        applied(Some(plan), version, ActionView::Read { offset }, owner, now, id) == Ok::<
            PlanView,
            PlanError,
        >(plan),
{
}

/// A plan keeps its identity through every revision; only a new task gets a new one.
pub proof fn law_identity_is_kept(
    plan: PlanView,
    version: int,
    action: ActionView,
    owner: Seq<char>,
    now: int,
    id: Seq<char>,
)
    requires
        applied(Some(plan), version, action, owner, now, id) is Ok,
    ensures
        ({
            let next = applied(Some(plan), version, action, owner, now, id)->Ok_0;
            if action is Create {
                next.id == id
            } else {
                next.id == plan.id
            }
        }),
{
}

/// The change that a step operation asks for.
spec fn step_change(action: ActionView) -> Option<(Seq<char>, StepChange)> {
    match action {
        ActionView::Start { step_id } => Some((step_id, StepChange::Start)),
        ActionView::Submit { step_id, evidence } => Some(
            (step_id, StepChange::Submit { evidence }),
        ),
        ActionView::Pause { step_id, reason } => Some((step_id, StepChange::Pause { reason })),
        ActionView::Cancel { step_id, reason } => Some((step_id, StepChange::Cancel { reason })),
        _ => None,
    }
}

/// An accepted step operation changes one step, which was not finished and belongs to the
/// executor; every other step stays as it is.
pub proof fn law_step_operations_change_one_step(
    plan: PlanView,
    version: int,
    action: ActionView,
    owner: Seq<char>,
    now: int,
    id: Seq<char>,
)
    requires
        action is Start || action is Submit || action is Pause || action is Cancel,
        applied(Some(plan), version, action, owner, now, id) is Ok,
    ensures
        ({
            let next = applied(Some(plan), version, action, owner, now, id)->Ok_0;
            &&& next.stages == plan.stages
            &&& next.steps.len() == plan.steps.len()
            &&& exists|i: int|
                #![trigger plan.steps[i]]
                {
                    &&& 0 <= i < plan.steps.len()
                    &&& plan.steps[i].owner == owner
                    &&& !plan.steps[i].state.finished()
                    &&& next.steps[i].definition == plan.steps[i].definition
                    &&& next.steps[i].owner == owner
                    &&& forall|j: int|
                        0 <= j < plan.steps.len() && j != i ==> #[trigger] next.steps[j]
                            == plan.steps[j]
                }
        }),
{
    let (step_id, change) = step_change(action)->0;
    lemma_step_position(plan.steps, step_id);
    let i = step_position(plan.steps, step_id)->0;
    let next = applied(Some(plan), version, action, owner, now, id)->Ok_0;
    assert(plan.steps[i].owner == owner);
    assert forall|j: int| 0 <= j < plan.steps.len() && j != i implies #[trigger] next.steps[j]
        == plan.steps[j] by {}
}

pub proof fn lemma_redefinitions(
    steps: Seq<StepView>,
    definitions: Seq<DefinitionView>,
    j: int,
)
    requires
        first_redefinition_fault(steps, definitions) is None,
        0 <= j < definitions.len(),
    ensures
        redefinition_fault(steps, definitions[j]) is None,
    decreases definitions.len(),
{
    if j < definitions.len() - 1 {
        lemma_redefinitions(steps, definitions.drop_last(), j);
        assert(definitions.drop_last()[j] == definitions[j]);
    }
}

/// A revision keeps every step with its state, owner, initial estimate, times and evidence;
/// only the definition of an unfinished step can change, and never its stage.
pub proof fn law_revisions_keep_steps_and_times(
    plan: PlanView,
    version: int,
    stages: Seq<StageView>,
    definitions: Seq<DefinitionView>,
    reason: Seq<char>,
    owner: Seq<char>,
    now: int,
    id: Seq<char>,
    i: int,
)
    requires
        plan.valid(),
        0 <= i < plan.steps.len(),
        applied(
            Some(plan),
            version,
            ActionView::Revise { stages, steps: definitions, reason },
            owner,
            now,
            id,
        ) is Ok,
    ensures
        ({
            let next = applied(
                Some(plan),
                version,
                ActionView::Revise { stages, steps: definitions, reason },
                owner,
                now,
                id,
            )->Ok_0;
            exists|j: int|
                #![trigger next.steps[j]]
                {
                    &&& 0 <= j < next.steps.len()
                    &&& next.steps[j].definition.id == plan.steps[i].definition.id
                    &&& next.steps[j].definition.stage_id == plan.steps[i].definition.stage_id
                    &&& next.steps[j] == (StepView {
                        definition: next.steps[j].definition,
                        ..plan.steps[i]
                    })
                    &&& plan.steps[i].state.finished() ==> next.steps[j] == plan.steps[i]
                }
        }),
{
    let action = ActionView::Revise { stages, steps: definitions, reason };
    let next = applied(Some(plan), version, action, owner, now, id)->Ok_0;
    let step = plan.steps[i];
    assert(defines(definitions, step.definition.id));
    let j = choose|j: int|
        0 <= j < definitions.len() && (#[trigger] definitions[j]).id == step.definition.id;
    lemma_step_position(plan.steps, step.definition.id);
    assert(step_position(plan.steps, step.definition.id) == Some(i));
    lemma_redefinitions(plan.steps, definitions, j);
    assert(next.steps[j] == revised_step(plan.steps, definitions[j], owner));
}

/// A finished step stays exactly as it is for as long as its task lasts.
pub proof fn law_finished_steps_are_immutable(
    plan: PlanView,
    version: int,
    action: ActionView,
    owner: Seq<char>,
    now: int,
    id: Seq<char>,
    i: int,
)
    requires
        plan.valid(),
        !(action is Create),
        applied(Some(plan), version, action, owner, now, id) is Ok,
        0 <= i < plan.steps.len(),
        plan.steps[i].state.finished(),
    ensures
        applied(Some(plan), version, action, owner, now, id)->Ok_0.holds_step(plan.steps[i]),
{
    let next = applied(Some(plan), version, action, owner, now, id)->Ok_0;
    match action {
        ActionView::Revise { stages, steps, reason } => {
            law_revisions_keep_steps_and_times(
                plan,
                version,
                stages,
                steps,
                reason,
                owner,
                now,
                id,
                i,
            );
        },
        ActionView::Read { .. } => {
            assert(next.steps[i] == plan.steps[i]);
        },
        _ => {
            law_step_operations_change_one_step(plan, version, action, owner, now, id);
            assert(next.steps[i] == plan.steps[i]);
        },
    }
}

/// No request completes a step: each completed step was completed before. Completion is left
/// to the review of the evidence.
pub proof fn law_requests_never_complete_steps(
    previous: Option<PlanView>,
    version: int,
    action: ActionView,
    owner: Seq<char>,
    now: int,
    id: Seq<char>,
    j: int,
)
    requires
        applied(previous, version, action, owner, now, id) is Ok,
        0 <= j < applied(previous, version, action, owner, now, id)->Ok_0.steps.len(),
        applied(previous, version, action, owner, now, id)->Ok_0.steps[j].state
            == PlanStepState::Completed,
    ensures
        previous is Some,
        previous->0.holds_step(applied(previous, version, action, owner, now, id)->Ok_0.steps[j]),
{
    let next = applied(previous, version, action, owner, now, id)->Ok_0;
    match action {
        ActionView::Create { objective, acceptance, stages, steps } => {
            assert(next.steps[j] == fresh_step(steps[j], owner));
        },
        ActionView::Revise { stages, steps, reason } => {
            let plan = previous->0;
            assert(next.steps[j] == revised_step(plan.steps, steps[j], owner));
            lemma_step_position(plan.steps, steps[j].id);
            lemma_redefinitions(plan.steps, steps, j);
            let i = step_position(plan.steps, steps[j].id)->0;
            assert(next.steps[j] == plan.steps[i]);
        },
        ActionView::Read { .. } => {
            assert(previous->0.steps[j] == next.steps[j]);
        },
        _ => {
            let plan = previous->0;
            let (step_id, change) = step_change(action)->0;
            lemma_step_position(plan.steps, step_id);
            assert(plan.steps[j] == next.steps[j]);
        },
    }
}

/// No executor ever runs two steps at once.
pub proof fn law_one_step_at_a_time(
    previous: Option<PlanView>,
    version: int,
    action: ActionView,
    owner: Seq<char>,
    now: int,
    id: Seq<char>,
)
    requires
        previous is Some ==> previous->0.one_at_a_time(),
        applied(previous, version, action, owner, now, id) is Ok,
    ensures
        applied(previous, version, action, owner, now, id)->Ok_0.one_at_a_time(),
{
    let next = applied(previous, version, action, owner, now, id)->Ok_0;
    match action {
        ActionView::Create { objective, acceptance, stages, steps } => {
            assert forall|j: int| 0 <= j < next.steps.len() implies (
            #[trigger] next.steps[j]).state == PlanStepState::Pending by {
                assert(next.steps[j] == fresh_step(steps[j], owner));
            }
        },
        ActionView::Revise { stages, steps, reason } => {
            let plan = previous->0;
            law_accepted_changes_are_valid_and_versioned(
                previous,
                version,
                action,
                owner,
                now,
                id,
            );
            assert forall|i: int, j: int|
                0 <= i < j < next.steps.len() && (#[trigger] next.steps[i]).state
                    == PlanStepState::Running && (#[trigger] next.steps[j]).state
                    == PlanStepState::Running implies next.steps[i].owner
                != next.steps[j].owner by {
                assert(next.steps[i] == revised_step(plan.steps, steps[i], owner));
                assert(next.steps[j] == revised_step(plan.steps, steps[j], owner));
                lemma_step_position(plan.steps, steps[i].id);
                lemma_step_position(plan.steps, steps[j].id);
                let a = step_position(plan.steps, steps[i].id)->0;
                let b = step_position(plan.steps, steps[j].id)->0;
                assert(a != b);
                assert(plan.steps[a].state == PlanStepState::Running);
                assert(plan.steps[b].state == PlanStepState::Running);
            }
        },
        ActionView::Read { .. } => {},
        _ => {
            let plan = previous->0;
            let (step_id, change) = step_change(action)->0;
            lemma_step_position(plan.steps, step_id);
            let i = step_position(plan.steps, step_id)->0;
            assert(next.steps =~= plan.steps.update(i, next.steps[i]));
            assert(forall|k: int|
                0 <= k < plan.steps.len() && k != i ==> #[trigger] next.steps[k]
                    == plan.steps[k]);
            if action is Start {
                assert(plan.start_fault(i, owner) is None);
                assert(forall|k: int|
                    0 <= k < plan.steps.len() && (#[trigger] plan.steps[k]).state
                        == PlanStepState::Running ==> plan.steps[k].owner != owner);
                assert(next.steps[i].owner == owner);
            }
        },
    }
}

/// An interruption stops the clock of a step and keeps its time: from then on the step's
/// elapsed time is what it was at the interruption, at whatever time one asks.
pub proof fn law_interruptions_keep_time(
    plan: PlanView,
    version: int,
    action: ActionView,
    owner: Seq<char>,
    now: int,
    id: Seq<char>,
    at: int,
)
    requires
        action is Submit || action is Pause || action is Cancel,
        applied(Some(plan), version, action, owner, now, id) is Ok,
    ensures
        ({
            let next = applied(Some(plan), version, action, owner, now, id)->Ok_0;
            let step_id = match action {
                ActionView::Submit { step_id, .. } => step_id,
                ActionView::Pause { step_id, .. } => step_id,
                ActionView::Cancel { step_id, .. } => step_id,
                _ => Seq::empty(),
            };
            step_position(plan.steps, step_id) matches Some(i) && next.steps[i].elapsed_at(at)
                == plan.steps[i].elapsed_at(now) && next.steps[i].initial_estimate_seconds
                == plan.steps[i].initial_estimate_seconds
        }),
{
    let (step_id, change) = step_change(action)->0;
    lemma_step_position(plan.steps, step_id);
}

/// Starting a step adds no time of its own: right after, its elapsed time is what it was.
pub proof fn law_starting_keeps_time(
    plan: PlanView,
    version: int,
    step_id: Seq<char>,
    owner: Seq<char>,
    now: int,
    id: Seq<char>,
)
    requires
        i64::MIN <= now <= i64::MAX,
        applied(Some(plan), version, ActionView::Start { step_id }, owner, now, id) is Ok,
    ensures
        ({
            let next = applied(
                Some(plan),
                version,
                ActionView::Start { step_id },
                owner,
                now,
                id,
            )->Ok_0;
            step_position(plan.steps, step_id) matches Some(i) && next.steps[i].elapsed_at(now)
                == plan.steps[i].elapsed_at(now) && next.steps[i].state == PlanStepState::Running
        }),
{
    lemma_step_position(plan.steps, step_id);
}

/// Recorded times and estimates never become negative.
pub proof fn law_times_stay_steady(
    previous: Option<PlanView>,
    version: int,
    action: ActionView,
    owner: Seq<char>,
    now: int,
    id: Seq<char>,
)
    requires
        previous is Some ==> previous->0.steady(),
        applied(previous, version, action, owner, now, id) is Ok,
    ensures
        applied(previous, version, action, owner, now, id)->Ok_0.steady(),
{
    if !(action is Read) {
        lemma_drafts_are_steady(previous, version, action, owner, now, id);
    }
}

proof fn lemma_drafts_are_steady(
    previous: Option<PlanView>,
    version: int,
    action: ActionView,
    owner: Seq<char>,
    now: int,
    id: Seq<char>,
)
    requires
        !(action is Read),
        previous is Some ==> previous->0.steady(),
        requested(previous, version, action, owner, now, id) is Ok,
        requested(previous, version, action, owner, now, id)->Ok_0.fault() is None,
    ensures
        requested(previous, version, action, owner, now, id)->Ok_0.steady(),
{
    let draft = requested(previous, version, action, owner, now, id)->Ok_0;
    law_valid_plans_have_no_fault(draft);
    assert forall|j: int| 0 <= j < draft.steps.len() implies 0 <= (
    #[trigger] draft.steps[j]).elapsed_seconds <= i64::MAX && 0
        <= draft.steps[j].definition.estimate_seconds <= i64::MAX by {
        assert(valid_definition(draft.steps[j].definition));
        match action {
            ActionView::Create { objective, acceptance, stages, steps } => {
                assert(draft.steps[j] == fresh_step(steps[j], owner));
            },
            ActionView::Revise { stages, steps, reason } => {
                let plan = previous->0;
                assert(draft.steps[j] == revised_step(plan.steps, steps[j], owner));
                lemma_step_position(plan.steps, steps[j].id);
                if step_position(plan.steps, steps[j].id) is Some {
                    let i = step_position(plan.steps, steps[j].id)->0;
                    assert(plan.steps[i].elapsed_seconds >= 0);
                }
            },
            _ => {
                let plan = previous->0;
                let (step_id, change) = step_change(action)->0;
                lemma_step_position(plan.steps, step_id);
                let i = step_position(plan.steps, step_id)->0;
                assert(plan.steps[i].elapsed_seconds >= 0);
                assert(plan.steps[j].elapsed_seconds >= 0);
            },
        }
    }
}

/// Where no recorded time is negative, the arithmetic of every request stays in range until
/// the last second and the last version.
pub proof fn law_steady_plans_fit(
    previous: Option<PlanView>,
    version: int,
    action: ActionView,
    owner: Seq<char>,
    now: int,
    id: Seq<char>,
)
    requires
        previous is Some ==> previous->0.steady(),
        previous is Some ==> previous->0.version < i64::MAX,
        i64::MIN <= now <= i64::MAX - 300,
    ensures
        action_fits(previous, version, action, owner, now, id),
{
    if let Some(plan) = previous {
        if let ActionView::Start { step_id } = action {
            lemma_step_position(plan.steps, step_id);
            if let Some(i) = step_position(plan.steps, step_id) {
                assert(plan.steps[i].elapsed_seconds >= 0);
            }
        }
    }
    if !(action is Read) && requested(previous, version, action, owner, now, id) is Ok {
        let draft = requested(previous, version, action, owner, now, id)->Ok_0;
        if draft.fault() is None {
            lemma_drafts_are_steady(previous, version, action, owner, now, id);
            assert(draft.forecast_fits(now)) by {
                assert forall|i: int| 0 <= i < draft.steps.len() implies (
                #[trigger] draft.steps[i]).remaining_fits(now) by {
                    assert(draft.steps[i].elapsed_seconds >= 0);
                }
            }
        }
    }
}

impl ContinuousPlanning {
    /// Whether no recorded time or estimate is negative.
    pub fn is_steady(&self) -> (yes: bool)
        ensures
            yes == self@.steady(),
    {
        let mut i: usize = 0;
        while i < self.steps.len()
            invariant
                i <= self.steps@.len(),
                forall|k: int|
                    0 <= k < i ==> 0 <= (#[trigger] self@.steps[k]).elapsed_seconds <= i64::MAX && 0
                        <= self@.steps[k].definition.estimate_seconds <= i64::MAX,
            decreases self.steps.len() - i,
        {
            assert(self@.steps[i as int] == self.steps@[i as int]@);
            if self.steps[i].elapsed_seconds < 0 || self.steps[i].definition.estimate_seconds < 0 {
                return false;
            }
            i += 1;
        }
        true
    }
}

} // verus!
