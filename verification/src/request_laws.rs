//! What each request does to a plan, told in the fields of the plan before and after it.

use crate::model::applied;
use crate::model::first_redefinition_fault;
use crate::model::first_stage_fault;
use crate::model::first_step_fault;
use crate::model::fresh_step;
use crate::model::precedes;
use crate::model::redefinition_fault;
use crate::model::requested;
use crate::model::revised_step;
use crate::model::stage_fault;
use crate::model::stage_rank;
use crate::model::step_fault;
use crate::model::step_position;
use crate::model::PlanError;
use crate::model_laws::law_valid_plans_have_no_fault;
use crate::model_laws::lemma_redefinitions;
use crate::model_laws::lemma_stage_position;
use crate::model_laws::lemma_step_position;
use crate::model_laws::valid_definition;
use crate::model_laws::valid_stage;
use crate::plan::ContinuousPlanning;
use crate::plan::DefinitionView;
use crate::plan::PlanReviewState;
use crate::plan::PlanStage;
use crate::plan::PlanStepDefinition;
use crate::plan::PlanStepState;
use crate::plan::PlanView;
use crate::plan::StageView;
use crate::plan::StepView;
use crate::plan::TimedPlanStep;
use crate::request::ActionView;
use crate::request::PlanAction;
use crate::text::blank;
use crate::text::control;
use crate::text::controlled;
use crate::text::lemma_utf8_len_at_least_chars;
use crate::text::lemma_utf8_len_concat;
use crate::text::lemma_utf8_len_is_encoding_len;
use crate::text::white;
use vstd::prelude::*;
use vstd::utf8::encode_utf8;

verus! {

/// The size of a text in storage.
pub open spec fn bytes(text: Seq<char>) -> nat {
    encode_utf8(text).len()
}

/// A text with something to read in it: a character other than the spaces, the line and the
/// paragraph separators of Unicode.
pub open spec fn legible(text: Seq<char>) -> bool {
    exists|i: int|
        0 <= i < text.len() && {
            let u = (#[trigger] text[i]) as u32;
            !(9 <= u <= 13 || u == 32 || u == 133 || u == 160 || u == 5760 || 8192 <= u <= 8202 || u
                == 8232 || u == 8233 || u == 8239 || u == 8287 || u == 12288)
        }
}

/// A text on one line, without the control characters of the two first blocks of Unicode.
pub open spec fn one_line(text: Seq<char>) -> bool {
    forall|i: int|
        0 <= i < text.len() ==> !((#[trigger] text[i]) as u32 <= 31 || 127 <= text[i] as u32
            <= 159)
}

/// The blank texts are those without anything to read.
pub proof fn law_blank_texts_are_illegible(text: Seq<char>)
    ensures
        blank(text) <==> !legible(text),
        controlled(text) <==> !one_line(text),
{
    if !blank(text) {
        let i = choose|i: int| 0 <= i < text.len() && !white(#[trigger] text[i]);
        assert(!white(text[i]));
    }
    if legible(text) {
        let i = choose|i: int|
            0 <= i < text.len() && {
                let u = (#[trigger] text[i]) as u32;
                !(9 <= u <= 13 || u == 32 || u == 133 || u == 160 || u == 5760 || 8192 <= u <= 8202
                    || u == 8232 || u == 8233 || u == 8239 || u == 8287 || u == 12288)
            };
        assert(!white(text[i]));
    }
    if !one_line(text) {
        let i = choose|i: int|
            0 <= i < text.len() && ((#[trigger] text[i]) as u32 <= 31 || 127 <= text[i] as u32
                <= 159);
        assert(control(text[i]));
    }
}

/// A step that is over.
pub open spec fn over(step: StepView) -> bool {
    step.state == PlanStepState::Completed || step.state == PlanStepState::Cancelled
}

/// Whether a stage has a step.
pub open spec fn has_steps(plan: PlanView, k: int) -> bool {
    exists|j: int|
        0 <= j < plan.steps.len() && (#[trigger] plan.steps[j]).definition.stage_id
            == plan.stages[k].id
}

/// The step that an ID names: the first one with it.
pub open spec fn names(plan: PlanView, step_id: Seq<char>, i: int) -> bool {
    &&& 0 <= i < plan.steps.len()
    &&& plan.steps[i].definition.id == step_id
    &&& forall|j: int| 0 <= j < i ==> (#[trigger] plan.steps[j]).definition.id != step_id
}

/// The seconds that were spent on a step: those recorded, and those since its clock was started.
pub open spec fn spent(step: StepView, now: int) -> int {
    let run = match step.running_since {
        Some(since) => if since >= now {
            0
        } else if now - since > 0x7fff_ffff_ffff_ffff {
            0x7fff_ffff_ffff_ffff
        } else {
            now - since
        },
        None => 0,
    };
    if step.elapsed_seconds + run > 0x7fff_ffff_ffff_ffff {
        0x7fff_ffff_ffff_ffff
    } else {
        step.elapsed_seconds + run
    }
}

/// The times of a step are seconds of a 64-bit clock.
pub open spec fn clocked_step(step: StepView) -> bool {
    &&& -0x8000_0000_0000_0000 <= step.elapsed_seconds <= 0x7fff_ffff_ffff_ffff
    &&& step.running_since matches Some(since) ==> -0x8000_0000_0000_0000 <= since
        <= 0x7fff_ffff_ffff_ffff
}

/// The elapsed time of a step is what was spent on it.
pub proof fn law_elapsed_time_is_spent_time(step: StepView, now: int)
    requires
        clocked_step(step),
        -0x8000_0000_0000_0000 <= now <= 0x7fff_ffff_ffff_ffff,
    ensures
        step.elapsed_at(now) == spent(step, now),
{
}

/// A request other than a reading answers the version that is current, which is 0 without a plan;
/// only a new task can be asked for where there is no plan, and there is nothing to read then.
pub proof fn law_requests_answer_the_current_version(
    previous: Option<PlanView>,
    version: int,
    action: ActionView,
    owner: Seq<char>,
    now: int,
    id: Seq<char>,
)
    ensures
        !(action is Read) && previous is Some && version != previous->0.version ==> applied(
            previous,
            version,
            action,
            owner,
            now,
            id,
        ) == Err::<PlanView, PlanError>(PlanError::StaleVersion),
        !(action is Read) && previous is None && version != 0 ==> applied(
            previous,
            version,
            action,
            owner,
            now,
            id,
        ) == Err::<PlanView, PlanError>(PlanError::StaleVersion),
        previous is None && version == 0 && !(action is Read) && !(action is Create) ==> applied(
            previous,
            version,
            action,
            owner,
            now,
            id,
        ) == Err::<PlanView, PlanError>(PlanError::NoPlan),
        previous is None && action is Read ==> applied(previous, version, action, owner, now, id)
            == Err::<PlanView, PlanError>(PlanError::NoActivePlan),
        previous is Some && action is Read ==> applied(previous, version, action, owner, now, id)
            == Ok::<PlanView, PlanError>(previous->0),
{
}

/// A new task holds exactly what was asked for: the objective, the acceptance, the stages and the
/// steps in their order. No step has been worked on, all are the asker's, the first review is
/// five minutes away, and the task that was there before is done.
#[verifier::rlimit(50)]
pub proof fn law_created_plans_hold_the_request(
    previous: Option<PlanView>,
    version: int,
    objective: Seq<char>,
    acceptance: Seq<char>,
    stages: Seq<StageView>,
    steps: Seq<DefinitionView>,
    owner: Seq<char>,
    now: int,
    id: Seq<char>,
)
    requires
        applied(
            previous,
            version,
            ActionView::Create { objective, acceptance, stages, steps },
            owner,
            now,
            id,
        ) is Ok,
    ensures
        ({
            let next = applied(
                previous,
                version,
                ActionView::Create { objective, acceptance, stages, steps },
                owner,
                now,
                id,
            )->Ok_0;
            &&& next.id == id
            &&& next.version == version + 1
            &&& next.objective == objective
            &&& next.acceptance == acceptance
            &&& next.stages == stages
            &&& next.steps.len() == steps.len()
            &&& forall|j: int|
                0 <= j < steps.len() ==> {
                    &&& (#[trigger] next.steps[j]).definition == steps[j]
                    &&& next.steps[j].state == PlanStepState::Pending
                    &&& next.steps[j].owner == owner
                    &&& next.steps[j].initial_estimate_seconds == steps[j].estimate_seconds
                    &&& next.steps[j].elapsed_seconds == 0
                    &&& next.steps[j].started_at is None
                    &&& next.steps[j].running_since is None
                    &&& next.steps[j].submitted_at is None
                    &&& next.steps[j].completed_at is None
                    &&& next.steps[j].evidence.len() == 0
                }
            &&& next.review == PlanReviewState::Idle
            &&& next.updated_at == now
            &&& next.next_review_at == now + 300
            &&& next.estimated_completion_at == next.forecast_at(now).completed_at
            &&& next.reason == "Initial plan"@
            &&& legible(objective)
            &&& legible(acceptance)
            &&& previous matches Some(plan) ==> {
                &&& forall|i: int| 0 <= i < plan.steps.len() ==> over(#[trigger] plan.steps[i])
                &&& forall|k: int| 0 <= k < plan.stages.len() ==> #[trigger] has_steps(plan, k)
            }
        }),
{
    law_blank_texts_are_illegible(objective);
    law_blank_texts_are_illegible(acceptance);
    let action = ActionView::Create { objective, acceptance, stages, steps };
    let next = applied(previous, version, action, owner, now, id)->Ok_0;
    let draft = requested(previous, version, action, owner, now, id)->Ok_0;
    lemma_revised_forecast(draft, now);
    assert forall|j: int| 0 <= j < steps.len() implies #[trigger] next.steps[j] == fresh_step(
        steps[j],
        owner,
    ) by {}
    if let Some(plan) = previous {
        assert forall|k: int| 0 <= k < plan.stages.len() implies #[trigger] has_steps(
            plan,
            k,
        ) by {
            assert(plan.expanded(plan.stages[k].id));
        }
    }
}

/// A plan's own estimate is part of none of its forecasts.
pub proof fn lemma_revised_forecast(draft: PlanView, now: int)
    ensures
        draft.revised_at(now).estimated_completion_at == draft.revised_at(now).forecast_at(
            now,
        ).completed_at,
{
    let timed = PlanView { version: draft.version + 1, updated_at: now, ..draft };
    lemma_same_forecast(timed, draft.revised_at(now), now);
}

proof fn lemma_same_dependency(
    a: PlanView,
    b: PlanView,
    visits: Seq<crate::plan::Visit>,
    id: Seq<char>,
)
    requires
        a.steps == b.steps,
    ensures
        a.dependency_finish(visits, id) == b.dependency_finish(visits, id),
    decreases visits.len(),
{
    if visits.len() > 0 {
        lemma_same_dependency(a, b, visits.drop_last(), id);
    }
}

proof fn lemma_same_dependencies(
    a: PlanView,
    b: PlanView,
    visits: Seq<crate::plan::Visit>,
    ids: Seq<Seq<char>>,
)
    requires
        a.steps == b.steps,
    ensures
        a.dependencies_end(visits, ids) == b.dependencies_end(visits, ids),
    decreases ids.len(),
{
    if ids.len() > 0 {
        lemma_same_dependencies(a, b, visits, ids.drop_last());
        lemma_same_dependency(a, b, visits, ids.last());
    }
}

proof fn lemma_same_owner(
    a: PlanView,
    b: PlanView,
    visits: Seq<crate::plan::Visit>,
    owner: Seq<char>,
    now: int,
)
    requires
        a.steps == b.steps,
    ensures
        a.owner_end(visits, owner, now) == b.owner_end(visits, owner, now),
    decreases visits.len(),
{
    if visits.len() > 0 {
        lemma_same_owner(a, b, visits.drop_last(), owner, now);
    }
}

proof fn lemma_same_stage(
    a: PlanView,
    b: PlanView,
    stage_id: Seq<char>,
    count: int,
    visits: Seq<crate::plan::Visit>,
    start: int,
    now: int,
)
    requires
        a.steps == b.steps,
    ensures
        a.visit_stage(stage_id, count, visits, start, now) == b.visit_stage(
            stage_id,
            count,
            visits,
            start,
            now,
        ),
    decreases count,
{
    if count > 0 {
        lemma_same_stage(a, b, stage_id, count - 1, visits, start, now);
        let before = a.visit_stage(stage_id, count - 1, visits, start, now);
        let step = a.steps[count - 1];
        lemma_same_dependencies(a, b, before, step.definition.dependencies);
        lemma_same_owner(a, b, before, step.owner, now);
    }
}

proof fn lemma_same_stages(a: PlanView, b: PlanView, count: int, now: int)
    requires
        a.steps == b.steps,
        a.stages == b.stages,
    ensures
        a.forecast_stages(count, now) == b.forecast_stages(count, now),
    decreases count,
{
    if count > 0 {
        lemma_same_stages(a, b, count - 1, now);
        let (before, start) = a.forecast_stages(count - 1, now);
        lemma_same_stage(
            a,
            b,
            a.stages[count - 1].id,
            a.steps.len() as int,
            before,
            start,
            now,
        );
        assert(a.expanded(a.stages[count - 1].id) == b.expanded(b.stages[count - 1].id));
    }
}

/// A forecast depends on the stages, the steps and the last change alone.
pub proof fn lemma_same_forecast(a: PlanView, b: PlanView, now: int)
    requires
        a.steps == b.steps,
        a.stages == b.stages,
        a.updated_at == b.updated_at,
    ensures
        a.forecast_at(now) == b.forecast_at(now),
{
    lemma_same_stages(a, b, a.stages.len() as int, now);
    assert(a.complete() == b.complete()) by {
        assert(forall|id: Seq<char>| a.expanded(id) == b.expanded(id));
    }
    assert(a.forecast_at(now).steps =~= b.forecast_at(now).steps);
}

/// A new task is refused while a step of the present one is not over, while a stage of it has no
/// step, and without an objective and an acceptance to read; in this order.
pub proof fn law_new_tasks_wait_for_the_present_one(
    previous: Option<PlanView>,
    version: int,
    objective: Seq<char>,
    acceptance: Seq<char>,
    stages: Seq<StageView>,
    steps: Seq<DefinitionView>,
    owner: Seq<char>,
    now: int,
    id: Seq<char>,
)
    requires
        previous is Some ==> version == previous->0.version,
        previous is None ==> version == 0,
    ensures
        ({
            let result = applied(
                previous,
                version,
                ActionView::Create { objective, acceptance, stages, steps },
                owner,
                now,
                id,
            );
            let unfinished = previous matches Some(plan) && exists|i: int|
                0 <= i < plan.steps.len() && !over(#[trigger] plan.steps[i]);
            let unexpanded = previous matches Some(plan) && exists|k: int|
                0 <= k < plan.stages.len() && !#[trigger] has_steps(plan, k);
            &&& unfinished ==> result == Err::<PlanView, PlanError>(PlanError::UnfinishedPlan)
            &&& !unfinished && unexpanded ==> result == Err::<PlanView, PlanError>(
                PlanError::UnexpandedStages,
            )
            &&& !unfinished && !unexpanded && !(legible(objective) && legible(acceptance))
                ==> result == Err::<PlanView, PlanError>(PlanError::MissingObjective)
        }),
{
    law_blank_texts_are_illegible(objective);
    law_blank_texts_are_illegible(acceptance);
    if let Some(plan) = previous {
        if exists|i: int| 0 <= i < plan.steps.len() && !over(#[trigger] plan.steps[i]) {
            let i = choose|i: int| 0 <= i < plan.steps.len() && !over(#[trigger] plan.steps[i]);
            assert(!plan.steps[i].state.finished());
            assert(!plan.all_finished());
        } else {
            assert(plan.all_finished());
            assert forall|k: int| 0 <= k < plan.stages.len() implies #[trigger] has_steps(plan, k)
                == plan.expanded(plan.stages[k].id) by {}
            if exists|k: int| 0 <= k < plan.stages.len() && !#[trigger] has_steps(plan, k) {
                let k = choose|k: int|
                    0 <= k < plan.stages.len() && !#[trigger] has_steps(plan, k);
                assert(!plan.expanded(plan.stages[k].id));
            } else {
                assert forall|k: int| 0 <= k < plan.stages.len() implies plan.expanded(
                    (#[trigger] plan.stages[k]).id,
                ) by {
                    assert(has_steps(plan, k));
                }
            }
        }
    }
}

/// A revision replaces the stages and the definitions by those asked for, in every field and in
/// their order. The task stays the same; a review that could not be made is due.
pub proof fn law_revisions_hold_the_request(
    plan: PlanView,
    version: int,
    stages: Seq<StageView>,
    definitions: Seq<DefinitionView>,
    reason: Seq<char>,
    owner: Seq<char>,
    now: int,
    id: Seq<char>,
)
    requires
        applied(
            Some(plan),
            version,
            ActionView::Revise { stages, steps: definitions, reason },
            owner,
            now,
            id,
        ) is Ok,
    ensures
        ({
            let next = applied(
                Some(plan),
                version,
                ActionView::Revise { stages, steps: definitions, reason },
                owner,
                now,
                id,
            )->Ok_0;
            &&& legible(reason)
            &&& next.id == plan.id
            &&& next.version == plan.version + 1
            &&& next.objective == plan.objective
            &&& next.acceptance == plan.acceptance
            &&& next.stages == stages
            &&& next.reason == reason
            &&& next.updated_at == now
            &&& next.estimated_completion_at == next.forecast_at(now).completed_at
            &&& plan.review == PlanReviewState::Unavailable ==> next.review == PlanReviewState::Due
                && next.next_review_at == now
            &&& plan.review != PlanReviewState::Unavailable ==> next.review == plan.review
                && next.next_review_at == plan.next_review_at
            &&& next.steps.len() == definitions.len()
            &&& forall|j: int|
                0 <= j < definitions.len() ==> (#[trigger] next.steps[j]).definition
                    == definitions[j]
        }),
{
    law_blank_texts_are_illegible(reason);
    let action = ActionView::Revise { stages, steps: definitions, reason };
    let draft = requested(Some(plan), version, action, owner, now, id)->Ok_0;
    lemma_revised_forecast(draft, now);
    let next = applied(Some(plan), version, action, owner, now, id)->Ok_0;
    assert forall|j: int| 0 <= j < definitions.len() implies (#[trigger] next.steps[j]).definition
        == definitions[j] by {
        assert(next.steps[j] == revised_step(plan.steps, definitions[j], owner));
    }
}

/// A step that was there before a revision keeps everything but its definition, and that too
/// where it is over; it stays in its stage. A step that was not there is new and the asker's.
pub proof fn law_revised_steps_keep_their_work(
    plan: PlanView,
    version: int,
    stages: Seq<StageView>,
    definitions: Seq<DefinitionView>,
    reason: Seq<char>,
    owner: Seq<char>,
    now: int,
    id: Seq<char>,
    i: int,
    j: int,
)
    requires
        applied(
            Some(plan),
            version,
            ActionView::Revise { stages, steps: definitions, reason },
            owner,
            now,
            id,
        ) is Ok,
        0 <= j < definitions.len(),
    ensures
        ({
            let step = applied(
                Some(plan),
                version,
                ActionView::Revise { stages, steps: definitions, reason },
                owner,
                now,
                id,
            )->Ok_0.steps[j];
            let old = plan.steps[i];
            &&& names(plan, definitions[j].id, i) ==> {
                &&& step.state == old.state
                &&& step.owner == old.owner
                &&& step.initial_estimate_seconds == old.initial_estimate_seconds
                &&& step.elapsed_seconds == old.elapsed_seconds
                &&& step.started_at == old.started_at
                &&& step.running_since == old.running_since
                &&& step.submitted_at == old.submitted_at
                &&& step.completed_at == old.completed_at
                &&& step.evidence == old.evidence
                &&& definitions[j].stage_id == old.definition.stage_id
                &&& over(old) ==> definitions[j] == old.definition
            }
            &&& (forall|a: int|
                0 <= a < plan.steps.len() ==> (#[trigger] plan.steps[a]).definition.id
                    != definitions[j].id) ==> {
                &&& step.state == PlanStepState::Pending
                &&& step.owner == owner
                &&& step.initial_estimate_seconds == definitions[j].estimate_seconds
                &&& step.elapsed_seconds == 0
                &&& step.started_at is None
                &&& step.running_since is None
                &&& step.submitted_at is None
                &&& step.completed_at is None
                &&& step.evidence.len() == 0
            }
        }),
{
    let action = ActionView::Revise { stages, steps: definitions, reason };
    let next = applied(Some(plan), version, action, owner, now, id)->Ok_0;
    assert(next.steps[j] == revised_step(plan.steps, definitions[j], owner));
    lemma_step_position(plan.steps, definitions[j].id);
    lemma_redefinitions(plan.steps, definitions, j);
    if names(plan, definitions[j].id, i) {
        lemma_named(plan, definitions[j].id, i);
    }
}

/// A revision leaves no step out.
pub proof fn law_revisions_drop_no_step(
    plan: PlanView,
    version: int,
    stages: Seq<StageView>,
    definitions: Seq<DefinitionView>,
    reason: Seq<char>,
    owner: Seq<char>,
    now: int,
    id: Seq<char>,
    i: int,
)
    requires
        applied(
            Some(plan),
            version,
            ActionView::Revise { stages, steps: definitions, reason },
            owner,
            now,
            id,
        ) is Ok,
        0 <= i < plan.steps.len(),
    ensures
        exists|j: int|
            0 <= j < definitions.len() && (#[trigger] definitions[j]).id
                == plan.steps[i].definition.id,
{
    assert(crate::model::defines(definitions, plan.steps[i].definition.id));
}

/// The step that an ID names is the one that a search finds.
proof fn lemma_named(plan: PlanView, step_id: Seq<char>, i: int)
    requires
        names(plan, step_id, i),
    ensures
        step_position(plan.steps, step_id) == Some(i),
{
    lemma_step_position(plan.steps, step_id);
}

/// Whether a revision may put a definition in the place of a step: it stays in the step's stage,
/// and changes nothing where the step is over.
pub open spec fn replaceable(step: StepView, definition: DefinitionView) -> bool {
    &&& definition.stage_id == step.definition.stage_id
    &&& over(step) ==> definition == step.definition
}

/// A revision is refused without a reason to read, and where a step of the plan is left out.
pub proof fn law_revisions_are_explained_and_whole(
    plan: PlanView,
    stages: Seq<StageView>,
    definitions: Seq<DefinitionView>,
    reason: Seq<char>,
    owner: Seq<char>,
    now: int,
    id: Seq<char>,
    i: int,
)
    ensures
        ({
            let result = applied(
                Some(plan),
                plan.version,
                ActionView::Revise { stages, steps: definitions, reason },
                owner,
                now,
                id,
            );
            &&& !legible(reason) ==> result == Err::<PlanView, PlanError>(
                PlanError::UnexplainedRevision,
            )
            &&& legible(reason) && 0 <= i < plan.steps.len() && (forall|b: int|
                0 <= b < definitions.len() ==> (#[trigger] definitions[b]).id
                    != plan.steps[i].definition.id) ==> result == Err::<PlanView, PlanError>(
                PlanError::DroppedStep,
            )
        }),
{
    law_blank_texts_are_illegible(reason);
    if 0 <= i < plan.steps.len() && (forall|b: int|
        0 <= b < definitions.len() ==> (#[trigger] definitions[b]).id
            != plan.steps[i].definition.id) {
        assert(!crate::model::defines(definitions, plan.steps[i].definition.id));
    }
}

/// A revision that leaves nothing out is refused at the first definition `j` that may not take
/// the place of its step `i`.
pub proof fn law_revisions_change_nothing_that_is_over(
    plan: PlanView,
    stages: Seq<StageView>,
    definitions: Seq<DefinitionView>,
    reason: Seq<char>,
    owner: Seq<char>,
    now: int,
    id: Seq<char>,
    i: int,
    j: int,
)
    requires
        legible(reason),
        forall|a: int|
            0 <= a < plan.steps.len() ==> defined_again(
                definitions,
                (#[trigger] plan.steps[a]).definition.id,
            ),
        0 <= j < definitions.len(),
        names(plan, definitions[j].id, i),
        forall|a: int, b: int|
            0 <= b < j && #[trigger] names(plan, definitions[b].id, a) ==> replaceable(
                plan.steps[a],
                definitions[b],
            ),
        !replaceable(plan.steps[i], definitions[j]),
    ensures
        applied(
            Some(plan),
            plan.version,
            ActionView::Revise { stages, steps: definitions, reason },
            owner,
            now,
            id,
        ) == Err::<PlanView, PlanError>(
            if over(plan.steps[i]) {
                PlanError::FinishedStep
            } else {
                PlanError::MovedStep
            },
        ),
{
    law_blank_texts_are_illegible(reason);
    assert forall|a: int| 0 <= a < plan.steps.len() implies crate::model::defines(
        definitions,
        (#[trigger] plan.steps[a]).definition.id,
    ) by {
        assert(defined_again(definitions, plan.steps[a].definition.id));
    }
    assert forall|b: int| 0 <= b < j implies redefinition_fault(
        plan.steps,
        #[trigger] definitions[b],
    ) is None by {
        lemma_step_position(plan.steps, definitions[b].id);
        if let Some(a) = step_position(plan.steps, definitions[b].id) {
            assert(names(plan, definitions[b].id, a));
        }
    }
    lemma_named(plan, definitions[j].id, i);
    lemma_first_redefinition(plan.steps, definitions, j);
}

/// Whether one of some definitions has an ID.
pub open spec fn defined_again(definitions: Seq<DefinitionView>, step_id: Seq<char>) -> bool {
    exists|b: int| 0 <= b < definitions.len() && (#[trigger] definitions[b]).id == step_id
}

proof fn lemma_first_redefinition(steps: Seq<StepView>, definitions: Seq<DefinitionView>, j: int)
    requires
        0 <= j < definitions.len(),
        forall|b: int|
            0 <= b < j ==> redefinition_fault(steps, #[trigger] definitions[b]) is None,
    ensures
        redefinition_fault(steps, definitions[j]) matches Some(fault) ==> first_redefinition_fault(
            steps,
            definitions,
        ) == Some(fault),
    decreases definitions.len(),
{
    let rest = definitions.drop_last();
    if j < definitions.len() - 1 {
        assert forall|b: int| 0 <= b < j implies redefinition_fault(
            steps,
            #[trigger] rest[b],
        ) is None by {
            assert(rest[b] == definitions[b]);
        }
        lemma_first_redefinition(steps, rest, j);
        assert(rest[j] == definitions[j]);
    } else {
        lemma_no_redefinition(steps, definitions, definitions.len() - 1);
        assert(rest =~= definitions.take(definitions.len() - 1));
    }
}

proof fn lemma_no_redefinition(steps: Seq<StepView>, definitions: Seq<DefinitionView>, count: int)
    requires
        0 <= count <= definitions.len(),
        forall|b: int|
            0 <= b < count ==> redefinition_fault(steps, #[trigger] definitions[b]) is None,
    ensures
        first_redefinition_fault(steps, definitions.take(count)) is None,
    decreases count,
{
    if count > 0 {
        lemma_no_redefinition(steps, definitions, count - 1);
        assert(definitions.take(count).drop_last() =~= definitions.take(count - 1));
    }
}

/// An accepted start puts the step in execution and nothing else: its clock runs from now on, the
/// time spent before is kept, an earlier submission is forgotten, and the next review comes when
/// the estimate is used up, but no sooner than in five seconds and no later than in five minutes.
pub proof fn law_started_steps_run(
    plan: PlanView,
    version: int,
    step_id: Seq<char>,
    owner: Seq<char>,
    now: int,
    id: Seq<char>,
    i: int,
)
    requires
        applied(Some(plan), version, ActionView::Start { step_id }, owner, now, id) is Ok,
        names(plan, step_id, i),
        clocked_step(plan.steps[i]),
        -0x8000_0000_0000_0000 <= now <= 0x7fff_ffff_ffff_ffff,
    ensures
        ({
            let next = applied(
                Some(plan),
                version,
                ActionView::Start { step_id },
                owner,
                now,
                id,
            )->Ok_0;
            let step = plan.steps[i];
            let left = step.definition.estimate_seconds - spent(step, now);
            &&& next.steps[i].state == PlanStepState::Running
            &&& next.steps[i].running_since == Some(now)
            &&& next.steps[i].elapsed_seconds == spent(step, now)
            &&& step.started_at is Some ==> next.steps[i].started_at == step.started_at
            &&& step.started_at is None ==> next.steps[i].started_at == Some(now)
            &&& next.steps[i].submitted_at is None
            &&& next.steps[i].evidence.len() == 0
            &&& next.steps[i].completed_at == step.completed_at
            &&& next.steps[i].definition == step.definition
            &&& next.steps[i].owner == owner
            &&& next.steps[i].initial_estimate_seconds == step.initial_estimate_seconds
            &&& left < 5 ==> next.next_review_at == now + 5
            &&& 5 <= left <= 300 ==> next.next_review_at == now + left
            &&& left > 300 ==> next.next_review_at == now + 300
            &&& next.review == plan.review
            &&& next.reason == "Started "@ + step_id
            &&& kept_but_for(plan, next, i, now)
        }),
{
    lemma_named(plan, step_id, i);
    law_elapsed_time_is_spent_time(plan.steps[i], now);
    let draft = requested(
        Some(plan),
        version,
        ActionView::Start { step_id },
        owner,
        now,
        id,
    )->Ok_0;
    lemma_revised_forecast(draft, now);
}

/// One revision later everything is as it was but for the step `i`, the review and the reason.
pub open spec fn kept_but_for(plan: PlanView, next: PlanView, i: int, now: int) -> bool {
    &&& next.id == plan.id
    &&& next.version == plan.version + 1
    &&& next.objective == plan.objective
    &&& next.acceptance == plan.acceptance
    &&& next.stages == plan.stages
    &&& next.updated_at == now
    &&& next.estimated_completion_at == next.forecast_at(now).completed_at
    &&& next.steps.len() == plan.steps.len()
    &&& forall|j: int|
        0 <= j < plan.steps.len() && j != i ==> #[trigger] next.steps[j] == plan.steps[j]
}

/// Whether a stage lets the next one begin: it has steps, and all of them are over.
pub open spec fn left_behind(plan: PlanView, k: int) -> bool {
    &&& has_steps(plan, k)
    &&& forall|j: int|
        0 <= j < plan.steps.len() && (#[trigger] plan.steps[j]).definition.stage_id
            == plan.stages[k].id ==> over(plan.steps[j])
}

/// Whether a dependency is verified: the plan holds a completed step with its ID.
pub open spec fn completed(plan: PlanView, step_id: Seq<char>) -> bool {
    exists|j: int|
        0 <= j < plan.steps.len() && (#[trigger] plan.steps[j]).definition.id == step_id
            && plan.steps[j].state == PlanStepState::Completed
}

/// A step starts only after what it depends on was completed, in the stage that is on, while its
/// executor runs no other step; a start that asks for less is refused, by the first of these
/// conditions that does not hold.
#[verifier::rlimit(50)]
pub proof fn law_starts_wait_for_verified_work(
    plan: PlanView,
    step_id: Seq<char>,
    owner: Seq<char>,
    now: int,
    id: Seq<char>,
    i: int,
    stage: int,
)
    requires
        names(plan, step_id, i),
        0 <= stage < plan.stages.len(),
        plan.stages[stage].id == plan.steps[i].definition.stage_id,
        forall|k: int| 0 <= k < stage ==> (#[trigger] plan.stages[k]).id
            != plan.steps[i].definition.stage_id,
    ensures
        ({
            let result = applied(
                Some(plan),
                plan.version,
                ActionView::Start { step_id },
                owner,
                now,
                id,
            );
            let own = plan.steps[i].owner == owner;
            let idle = forall|j: int|
                0 <= j < plan.steps.len() && (#[trigger] plan.steps[j]).owner == owner
                    ==> plan.steps[j].state != PlanStepState::Running;
            let dependencies = plan.steps[i].definition.dependencies;
            let verified = forall|d: int|
                0 <= d < dependencies.len() ==> completed(plan, #[trigger] dependencies[d]);
            let reached = forall|k: int|
                0 <= k < stage ==> #[trigger] left_behind(plan, k);
            &&& result is Ok ==> own && idle && verified && reached && !over(plan.steps[i])
            &&& !own ==> result == Err::<PlanView, PlanError>(PlanError::ForeignStep)
            &&& own && !idle ==> result == Err::<PlanView, PlanError>(PlanError::StepRunning)
            &&& own && idle && !verified ==> result == Err::<PlanView, PlanError>(
                PlanError::UnverifiedDependencies,
            )
            &&& own && idle && verified && !reached ==> result == Err::<PlanView, PlanError>(
                PlanError::EarlierStages,
            )
            &&& own && idle && verified && reached && over(plan.steps[i]) ==> result == Err::<
                PlanView,
                PlanError,
            >(PlanError::FinishedStep)
            &&& own && idle && verified && reached && !over(plan.steps[i]) && sound_plan(plan)
                ==> result is Ok
        }),
{
    lemma_named(plan, step_id, i);
    law_sound_plans_are_valid(plan);
    let step = plan.steps[i];
    lemma_stage_position(plan.stages, step.definition.stage_id);
    assert(stage_rank(plan.stages, step) == stage);
    assert forall|wanted: Seq<char>| completed(plan, wanted) == #[trigger] crate::model::verified(
        plan.steps,
        wanted,
    ) by {}
    assert forall|k: int| #[trigger] left_behind(plan, k) == crate::model::passed(
        plan.steps,
        plan.stages[k].id,
    ) by {}
    let reached = forall|k: int| 0 <= k < stage ==> #[trigger] left_behind(plan, k);
    if !reached {
        let k = choose|k: int| 0 <= k < stage && !#[trigger] left_behind(plan, k);
        assert(!crate::model::passed(plan.steps, plan.stages[k].id));
    } else {
        assert forall|k: int| 0 <= k < stage implies crate::model::passed(
            plan.steps,
            (#[trigger] plan.stages[k]).id,
        ) by {
            assert(left_behind(plan, k));
        }
    }
    let dependencies = step.definition.dependencies;
    let verified = forall|d: int|
        0 <= d < dependencies.len() ==> completed(plan, #[trigger] dependencies[d]);
    if !verified {
        let d = choose|d: int|
            0 <= d < dependencies.len() && !completed(plan, #[trigger] dependencies[d]);
        assert(!crate::model::verified(plan.steps, dependencies[d]));
    } else {
        assert forall|d: int| 0 <= d < dependencies.len() implies crate::model::verified(
            plan.steps,
            #[trigger] dependencies[d],
        ) by {
            assert(completed(plan, dependencies[d]));
        }
    }
    let result = applied(
        Some(plan),
        plan.version,
        ActionView::Start { step_id },
        owner,
        now,
        id,
    );
    let draft = requested(
        Some(plan),
        plan.version,
        ActionView::Start { step_id },
        owner,
        now,
        id,
    );
    if draft is Ok && plan.valid() {
        lemma_changed_step_valid(plan, draft->Ok_0, i);
        assert(valid_definition(step.definition));
        lemma_reason_bytes("Started "@, step_id, Seq::empty());
        reveal_strlit("Started ");
        assert("Started "@ + step_id + Seq::<char>::empty() =~= "Started "@ + step_id);
        lemma_ascii_bytes("Started "@);
        law_valid_plans_have_no_fault(draft->Ok_0);
    }
}

/// A valid plan stays valid when a step keeps its definition and the reason stays bounded.
proof fn lemma_changed_step_valid(plan: PlanView, draft: PlanView, i: int)
    requires
        plan.valid(),
        0 <= i < plan.steps.len(),
        draft.stages == plan.stages,
        draft.objective == plan.objective,
        draft.acceptance == plan.acceptance,
        draft.steps.len() == plan.steps.len(),
        forall|j: int|
            0 <= j < plan.steps.len() ==> (#[trigger] draft.steps[j]).definition
                == plan.steps[j].definition,
    ensures
        crate::text::utf8_len(draft.reason) <= 2048 ==> draft.valid(),
{
    assert forall|j: int| 0 <= j < draft.steps.len() implies draft.has_stage(
        (#[trigger] draft.steps[j]).definition.stage_id,
    ) && valid_definition(draft.steps[j].definition) && stage_rank(draft.stages, draft.steps[j])
        == stage_rank(plan.stages, plan.steps[j]) by {
        assert(plan.has_stage(plan.steps[j].definition.stage_id));
        assert(valid_definition(plan.steps[j].definition));
        assert(draft.steps[j].definition == plan.steps[j].definition);
    }
    assert forall|a: int, b: int| 0 <= a < b < draft.steps.len() implies (
    #[trigger] draft.steps[a]).definition.id != (#[trigger] draft.steps[b]).definition.id by {
        assert(plan.steps[a].definition.id != plan.steps[b].definition.id);
    }
    assert forall|a: int, b: int| 0 <= a < b < draft.steps.len() implies stage_rank(
        draft.stages,
        #[trigger] draft.steps[a],
    ) <= stage_rank(draft.stages, #[trigger] draft.steps[b]) by {
        assert(stage_rank(plan.stages, plan.steps[a]) <= stage_rank(plan.stages, plan.steps[b]));
    }
    assert forall|a: int, d: int|
        0 <= a < draft.steps.len() && 0 <= d
            < draft.steps[a].definition.dependencies.len() implies precedes(
        draft.steps,
        a,
        #[trigger] draft.steps[a].definition.dependencies[d],
    ) by {
        let wanted = draft.steps[a].definition.dependencies[d];
        assert(draft.steps[a].definition == plan.steps[a].definition);
        assert(precedes(plan.steps, a, plan.steps[a].definition.dependencies[d]));
        let j = choose|j: int|
            0 <= j < a && (#[trigger] plan.steps[j]).definition.id == wanted;
        assert(draft.steps[j].definition.id == wanted);
    }
}

proof fn lemma_ascii_bytes(text: Seq<char>)
    requires
        forall|k: int| 0 <= k < text.len() ==> (#[trigger] text[k]) as u32 <= 0x7f,
    ensures
        crate::text::utf8_len(text) == text.len(),
    decreases text.len(),
{
    if text.len() > 0 {
        assert forall|k: int| 0 <= k < text.drop_first().len() implies (
        #[trigger] text.drop_first()[k]) as u32 <= 0x7f by {
            assert(text.drop_first()[k] == text[k + 1]);
        }
        lemma_ascii_bytes(text.drop_first());
        assert(text[0] as u32 <= 0x7f);
    }
}

proof fn lemma_reason_bytes(a: Seq<char>, b: Seq<char>, c: Seq<char>)
    ensures
        crate::text::utf8_len(a + b + c) == crate::text::utf8_len(a) + crate::text::utf8_len(b)
            + crate::text::utf8_len(c),
{
    lemma_utf8_len_concat(a + b, c);
    lemma_utf8_len_concat(a, b);
}

/// Evidence is between one and eight references, each with something to read in at most 1024
/// bytes.
pub open spec fn referenced(evidence: Seq<Seq<char>>) -> bool {
    &&& 1 <= evidence.len() <= 8
    &&& forall|e: int|
        0 <= e < evidence.len() ==> legible(#[trigger] evidence[e]) && bytes(evidence[e]) <= 1024
}

pub proof fn lemma_referenced(evidence: Seq<Seq<char>>)
    ensures
        crate::model::evident(evidence) == referenced(evidence),
{
    assert forall|e: int| 0 <= e < evidence.len() implies blank(#[trigger] evidence[e])
        == !legible(evidence[e]) && crate::text::utf8_len(evidence[e]) == bytes(evidence[e]) by {
        law_blank_texts_are_illegible(evidence[e]);
        lemma_utf8_len_is_encoding_len(evidence[e]);
    }
    if referenced(evidence) {
        assert(crate::model::evident(evidence));
    }
    if crate::model::evident(evidence) {
        assert(referenced(evidence));
    }
}

/// A submission hands a running step with its evidence over to review and stops its clock; the
/// review is due at once. Only the executor's own running step is submitted, with evidence that
/// is bounded.
#[verifier::rlimit(50)]
pub proof fn law_submitted_steps_are_reviewed(
    plan: PlanView,
    step_id: Seq<char>,
    evidence: Seq<Seq<char>>,
    owner: Seq<char>,
    now: int,
    id: Seq<char>,
    i: int,
)
    requires
        names(plan, step_id, i),
        clocked_step(plan.steps[i]),
        -0x8000_0000_0000_0000 <= now <= 0x7fff_ffff_ffff_ffff,
    ensures
        ({
            let result = applied(
                Some(plan),
                plan.version,
                ActionView::Submit { step_id, evidence },
                owner,
                now,
                id,
            );
            let step = plan.steps[i];
            let next = result->Ok_0;
            &&& step.owner != owner ==> result == Err::<PlanView, PlanError>(
                PlanError::ForeignStep,
            )
            &&& step.owner == owner && over(step) ==> result == Err::<PlanView, PlanError>(
                PlanError::FinishedStep,
            )
            &&& step.owner == owner && !over(step) && step.state != PlanStepState::Running
                ==> result == Err::<PlanView, PlanError>(PlanError::NotRunning)
            &&& step.owner == owner && step.state == PlanStepState::Running && !referenced(evidence)
                ==> result == Err::<PlanView, PlanError>(PlanError::UnboundedEvidence)
            &&& step.owner == owner && step.state == PlanStepState::Running && referenced(evidence)
                && sound_plan(plan) ==> result is Ok
            &&& result is Ok ==> {
                &&& step.owner == owner && step.state == PlanStepState::Running && referenced(
                    evidence,
                )
                &&& next.steps[i].state == PlanStepState::Reviewing
                &&& next.steps[i].evidence == evidence
                &&& next.steps[i].submitted_at == Some(now)
                &&& next.steps[i].running_since is None
                &&& next.steps[i].elapsed_seconds == spent(step, now)
                &&& next.steps[i].started_at == step.started_at
                &&& next.steps[i].completed_at == step.completed_at
                &&& next.steps[i].definition == step.definition
                &&& next.steps[i].owner == owner
                &&& next.steps[i].initial_estimate_seconds == step.initial_estimate_seconds
                &&& next.review == PlanReviewState::Due
                &&& next.next_review_at == now
                &&& next.reason == "Submitted "@ + step_id + " for independent verification"@
                &&& kept_but_for(plan, next, i, now)
            }
        }),
{
    lemma_named(plan, step_id, i);
    law_sound_plans_are_valid(plan);
    lemma_referenced(evidence);
    law_elapsed_time_is_spent_time(plan.steps[i], now);
    let draft = requested(
        Some(plan),
        plan.version,
        ActionView::Submit { step_id, evidence },
        owner,
        now,
        id,
    );
    if draft is Ok {
        lemma_revised_forecast(draft->Ok_0, now);
        if plan.valid() {
            lemma_changed_step_valid(plan, draft->Ok_0, i);
            assert(valid_definition(plan.steps[i].definition));
            lemma_reason_bytes("Submitted "@, step_id, " for independent verification"@);
            reveal_strlit("Submitted ");
            reveal_strlit(" for independent verification");
            lemma_ascii_bytes("Submitted "@);
            lemma_ascii_bytes(" for independent verification"@);
            law_valid_plans_have_no_fault(draft->Ok_0);
        }
    }
}

/// A pause blocks a step and a cancellation cancels it. Either stops its clock, keeps the time
/// spent and everything else of the step, takes its reason over, and asks for a review at once.
/// Only the executor's own step that is not over is interrupted, and not without a reason.
#[verifier::rlimit(50)]
pub proof fn law_interrupted_steps_stop(
    plan: PlanView,
    step_id: Seq<char>,
    cancelling: bool,
    reason: Seq<char>,
    owner: Seq<char>,
    now: int,
    id: Seq<char>,
    i: int,
)
    requires
        names(plan, step_id, i),
        clocked_step(plan.steps[i]),
        -0x8000_0000_0000_0000 <= now <= 0x7fff_ffff_ffff_ffff,
    ensures
        ({
            let action = if cancelling {
                ActionView::Cancel { step_id, reason }
            } else {
                ActionView::Pause { step_id, reason }
            };
            let result = applied(Some(plan), plan.version, action, owner, now, id);
            let step = plan.steps[i];
            let next = result->Ok_0;
            &&& step.owner != owner ==> result == Err::<PlanView, PlanError>(
                PlanError::ForeignStep,
            )
            &&& step.owner == owner && over(step) ==> result == Err::<PlanView, PlanError>(
                PlanError::FinishedStep,
            )
            &&& step.owner == owner && !over(step) && !legible(reason) ==> result == Err::<
                PlanView,
                PlanError,
            >(PlanError::UnexplainedInterruption)
            &&& step.owner == owner && !over(step) && legible(reason) && bytes(reason) > 2048
                ==> result == Err::<PlanView, PlanError>(PlanError::TextTooLong)
            &&& step.owner == owner && !over(step) && legible(reason) && bytes(reason) <= 2048
                && sound_plan(plan) ==> result is Ok
            &&& result is Ok ==> {
                &&& step.owner == owner && !over(step) && legible(reason)
                &&& cancelling ==> next.steps[i].state == PlanStepState::Cancelled
                &&& !cancelling ==> next.steps[i].state == PlanStepState::Blocked
                &&& next.steps[i].running_since is None
                &&& next.steps[i].elapsed_seconds == spent(step, now)
                &&& next.steps[i].started_at == step.started_at
                &&& next.steps[i].submitted_at == step.submitted_at
                &&& next.steps[i].completed_at == step.completed_at
                &&& next.steps[i].evidence == step.evidence
                &&& next.steps[i].definition == step.definition
                &&& next.steps[i].owner == owner
                &&& next.steps[i].initial_estimate_seconds == step.initial_estimate_seconds
                &&& next.review == PlanReviewState::Due
                &&& next.next_review_at == now
                &&& next.reason == reason
                &&& kept_but_for(plan, next, i, now)
            }
        }),
{
    lemma_named(plan, step_id, i);
    law_sound_plans_are_valid(plan);
    law_blank_texts_are_illegible(reason);
    lemma_utf8_len_is_encoding_len(reason);
    law_elapsed_time_is_spent_time(plan.steps[i], now);
    let action = if cancelling {
        ActionView::Cancel { step_id, reason }
    } else {
        ActionView::Pause { step_id, reason }
    };
    let draft = requested(Some(plan), plan.version, action, owner, now, id);
    if draft is Ok {
        lemma_revised_forecast(draft->Ok_0, now);
        if plan.valid() {
            lemma_changed_step_valid(plan, draft->Ok_0, i);
            law_valid_plans_have_no_fault(draft->Ok_0);
        }
    }
}

/// An operation on a step that the plan does not hold is refused.
pub proof fn law_unknown_steps_are_refused(
    plan: PlanView,
    action: ActionView,
    owner: Seq<char>,
    now: int,
    id: Seq<char>,
)
    requires
        action matches ActionView::Start { step_id } ==> forall|j: int|
            0 <= j < plan.steps.len() ==> (#[trigger] plan.steps[j]).definition.id != step_id,
        action matches ActionView::Submit { step_id, .. } ==> forall|j: int|
            0 <= j < plan.steps.len() ==> (#[trigger] plan.steps[j]).definition.id != step_id,
        action matches ActionView::Pause { step_id, .. } ==> forall|j: int|
            0 <= j < plan.steps.len() ==> (#[trigger] plan.steps[j]).definition.id != step_id,
        action matches ActionView::Cancel { step_id, .. } ==> forall|j: int|
            0 <= j < plan.steps.len() ==> (#[trigger] plan.steps[j]).definition.id != step_id,
        action is Start || action is Submit || action is Pause || action is Cancel,
    ensures
        applied(Some(plan), plan.version, action, owner, now, id) == Err::<PlanView, PlanError>(
            PlanError::UnknownStep,
        ),
{
    match action {
        ActionView::Start { step_id } => {
            lemma_step_position(plan.steps, step_id);
        },
        ActionView::Submit { step_id, .. } => {
            lemma_step_position(plan.steps, step_id);
        },
        ActionView::Pause { step_id, .. } => {
            lemma_step_position(plan.steps, step_id);
        },
        ActionView::Cancel { step_id, .. } => {
            lemma_step_position(plan.steps, step_id);
        },
        _ => {},
    }
}

/// A step waits for review only because it did so before or because its own submission was just
/// accepted.
pub proof fn law_only_submissions_ask_for_review(
    previous: Option<PlanView>,
    version: int,
    action: ActionView,
    owner: Seq<char>,
    now: int,
    id: Seq<char>,
    j: int,
)
    requires
        applied(previous, version, action, owner, now, id) is Ok,
        0 <= j < applied(previous, version, action, owner, now, id)->Ok_0.steps.len(),
        applied(previous, version, action, owner, now, id)->Ok_0.steps[j].state
            == PlanStepState::Reviewing,
    ensures
        ({
            let step = applied(previous, version, action, owner, now, id)->Ok_0.steps[j];
            &&& previous is Some
            &&& exists|i: int|
                0 <= i < previous->0.steps.len() && (
                #[trigger] previous->0.steps[i]).definition.id == step.definition.id && (
                previous->0.steps[i].state == PlanStepState::Reviewing || (action matches
                    ActionView::Submit { step_id, evidence } && step_id == step.definition.id
                    && previous->0.steps[i].state == PlanStepState::Running))
        }),
{
    let next = applied(previous, version, action, owner, now, id)->Ok_0;
    match action {
        ActionView::Create { objective, acceptance, stages, steps } => {
            assert(next.steps[j] == fresh_step(steps[j], owner));
        },
        ActionView::Revise { stages, steps, reason } => {
            let plan = previous->0;
            assert(next.steps[j] == revised_step(plan.steps, steps[j], owner));
            lemma_step_position(plan.steps, steps[j].id);
        },
        ActionView::Read { .. } => {
            assert(previous->0.steps[j] == next.steps[j]);
        },
        ActionView::Start { step_id } => {
            lemma_step_position(previous->0.steps, step_id);
            assert(previous->0.steps[j].definition == next.steps[j].definition);
        },
        ActionView::Submit { step_id, evidence } => {
            lemma_step_position(previous->0.steps, step_id);
            assert(previous->0.steps[j].definition == next.steps[j].definition);
        },
        ActionView::Pause { step_id, reason } => {
            lemma_step_position(previous->0.steps, step_id);
            assert(previous->0.steps[j].definition == next.steps[j].definition);
        },
        ActionView::Cancel { step_id, reason } => {
            lemma_step_position(previous->0.steps, step_id);
            assert(previous->0.steps[j].definition == next.steps[j].definition);
        },
    }
}

/// A title to read on one line of at most 128 bytes, and an acceptance of at most 2048.
pub open spec fn presentable(title: Seq<char>, acceptance: Seq<char>) -> bool {
    &&& legible(title)
    &&& one_line(title)
    &&& bytes(title) <= 128
    &&& 1 <= bytes(acceptance) <= 2048
}

pub open spec fn sound_stage(stage: StageView) -> bool {
    &&& 1 <= bytes(stage.id) <= 64
    &&& presentable(stage.title, stage.acceptance)
    &&& 1 <= stage.estimate_seconds <= 31_536_000
    &&& stage.assumptions.len() <= 8
    &&& forall|a: int|
        0 <= a < stage.assumptions.len() ==> bytes(#[trigger] stage.assumptions[a]) <= 512
}

pub open spec fn sound_definition(definition: DefinitionView) -> bool {
    &&& 1 <= bytes(definition.id) <= 64
    &&& presentable(definition.title, definition.acceptance)
    &&& 1 <= definition.estimate_seconds <= 31_536_000
    &&& definition.dependencies.len() <= 16
}

/// A plan that can be kept: its texts, stages and steps are bounded, no two stages and no two
/// steps share an ID, the steps belong to the stages and follow their order, and each step comes
/// after what it depends on.
pub open spec fn sound(
    objective: Seq<char>,
    acceptance: Seq<char>,
    reason: Seq<char>,
    stages: Seq<StageView>,
    steps: Seq<DefinitionView>,
) -> bool {
    &&& bytes(objective) <= 2048
    &&& bytes(acceptance) <= 2048
    &&& bytes(reason) <= 2048
    &&& 1 <= stages.len() <= 16
    &&& 1 <= steps.len() <= 64
    &&& forall|k: int| 0 <= k < stages.len() ==> sound_stage(#[trigger] stages[k])
    &&& forall|j: int, k: int|
        0 <= j < k < stages.len() ==> (#[trigger] stages[j]).id != (#[trigger] stages[k]).id
    &&& forall|i: int| 0 <= i < steps.len() ==> sound_definition(#[trigger] steps[i])
    &&& forall|i: int| 0 <= i < steps.len() ==> #[trigger] at_home(steps, i, stages)
    &&& forall|i: int, j: int, a: int, b: int|
        0 <= i < j < steps.len() && 0 <= a < stages.len() && 0 <= b < stages.len()
            && #[trigger] belongs(steps, i, stages, a) && #[trigger] belongs(steps, j, stages, b)
            ==> a <= b
    &&& forall|i: int, j: int|
        0 <= i < j < steps.len() ==> (#[trigger] steps[i]).id != (#[trigger] steps[j]).id
    &&& forall|i: int, d: int|
        0 <= i < steps.len() && 0 <= d < steps[i].dependencies.len() ==> follows(
            steps,
            i,
            #[trigger] steps[i].dependencies[d],
        )
}

/// Whether a step belongs to a stage.
pub open spec fn belongs(
    steps: Seq<DefinitionView>,
    i: int,
    stages: Seq<StageView>,
    k: int,
) -> bool {
    steps[i].stage_id == stages[k].id
}

/// Whether a step belongs to one of the stages.
pub open spec fn at_home(steps: Seq<DefinitionView>, i: int, stages: Seq<StageView>) -> bool {
    exists|k: int| 0 <= k < stages.len() && #[trigger] belongs(steps, i, stages, k)
}

/// Whether a step comes after the one with an ID.
pub open spec fn follows(steps: Seq<DefinitionView>, i: int, step_id: Seq<char>) -> bool {
    exists|j: int| 0 <= j < i && (#[trigger] steps[j]).id == step_id
}

pub open spec fn definitions_of(plan: PlanView) -> Seq<DefinitionView> {
    Seq::new(plan.steps.len(), |i: int| plan.steps[i].definition)
}

pub open spec fn sound_plan(plan: PlanView) -> bool {
    sound(plan.objective, plan.acceptance, plan.reason, plan.stages, definitions_of(plan))
}

proof fn lemma_bytes(text: Seq<char>)
    ensures
        crate::text::utf8_len(text) == bytes(text),
        (bytes(text) == 0) == (text.len() == 0),
{
    lemma_utf8_len_is_encoding_len(text);
    lemma_utf8_len_at_least_chars(text);
}

proof fn lemma_presentable(title: Seq<char>, acceptance: Seq<char>)
    ensures
        crate::model::described(title, acceptance) == presentable(title, acceptance),
{
    law_blank_texts_are_illegible(title);
    lemma_bytes(title);
    lemma_bytes(acceptance);
}

proof fn lemma_sound_stage(stage: StageView)
    ensures
        valid_stage(stage) == sound_stage(stage),
{
    lemma_bytes(stage.id);
    lemma_presentable(stage.title, stage.acceptance);
    assert forall|a: int| 0 <= a < stage.assumptions.len() implies bytes(
        #[trigger] stage.assumptions[a],
    ) == crate::text::utf8_len(stage.assumptions[a]) by {
        lemma_bytes(stage.assumptions[a]);
    }
    if sound_stage(stage) {
        assert(valid_stage(stage));
    }
}

proof fn lemma_sound_definition(definition: DefinitionView)
    ensures
        valid_definition(definition) == sound_definition(definition),
{
    lemma_bytes(definition.id);
    lemma_presentable(definition.title, definition.acceptance);
}

/// The plans without a fault are those that can be kept.
pub proof fn law_sound_plans_are_valid(plan: PlanView)
    ensures
        plan.valid() <==> sound_plan(plan),
        plan.fault() is None <==> sound_plan(plan),
{
    law_valid_plans_have_no_fault(plan);
    if plan.valid() {
        lemma_valid_is_sound(plan);
    }
    if sound_plan(plan) {
        lemma_sound_is_valid(plan);
    }
}

proof fn lemma_valid_is_sound(plan: PlanView)
    requires
        plan.valid(),
    ensures
        sound_plan(plan),
{
    let steps = definitions_of(plan);
    lemma_bytes(plan.objective);
    lemma_bytes(plan.acceptance);
    lemma_bytes(plan.reason);
    assert forall|k: int| 0 <= k < plan.stages.len() implies sound_stage(
        #[trigger] plan.stages[k],
    ) by {
        lemma_sound_stage(plan.stages[k]);
    }
    assert forall|i: int| 0 <= i < steps.len() implies sound_definition(#[trigger] steps[i]) by {
        assert(valid_definition(plan.steps[i].definition));
        lemma_sound_definition(plan.steps[i].definition);
    }
    assert forall|i: int| 0 <= i < steps.len() implies #[trigger] at_home(
        steps,
        i,
        plan.stages,
    ) by {
        assert(plan.has_stage(plan.steps[i].definition.stage_id));
        let k = choose|k: int|
            0 <= k < plan.stages.len() && (#[trigger] plan.stages[k]).id
                == plan.steps[i].definition.stage_id;
        assert(belongs(steps, i, plan.stages, k));
    }
    assert forall|i: int, j: int, a: int, b: int|
        0 <= i < j < steps.len() && 0 <= a < plan.stages.len() && 0 <= b < plan.stages.len()
            && #[trigger] belongs(steps, i, plan.stages, a) && #[trigger] belongs(
            steps,
            j,
            plan.stages,
            b,
        ) implies a <= b by {
        lemma_rank(plan, i, a);
        lemma_rank(plan, j, b);
        assert(stage_rank(plan.stages, plan.steps[i]) <= stage_rank(plan.stages, plan.steps[j]));
    }
    assert forall|i: int, j: int| 0 <= i < j < steps.len() implies (#[trigger] steps[i]).id != (
    #[trigger] steps[j]).id by {
        assert(plan.steps[i].definition.id != plan.steps[j].definition.id);
    }
    assert forall|i: int, d: int|
        0 <= i < steps.len() && 0 <= d < steps[i].dependencies.len() implies follows(
        steps,
        i,
        #[trigger] steps[i].dependencies[d],
    ) by {
        let wanted = plan.steps[i].definition.dependencies[d];
        assert(precedes(plan.steps, i, wanted));
        let j = choose|j: int| 0 <= j < i && (#[trigger] plan.steps[j]).definition.id == wanted;
        assert(steps[j].id == wanted);
    }
}

/// Among stages with IDs of their own, the stage of a step is the one it belongs to.
proof fn lemma_rank(plan: PlanView, i: int, k: int)
    requires
        0 <= i < plan.steps.len(),
        0 <= k < plan.stages.len(),
        plan.steps[i].definition.stage_id == plan.stages[k].id,
        forall|a: int, b: int|
            0 <= a < b < plan.stages.len() ==> (#[trigger] plan.stages[a]).id != (
            #[trigger] plan.stages[b]).id,
    ensures
        stage_rank(plan.stages, plan.steps[i]) == k,
{
    lemma_stage_position(plan.stages, plan.steps[i].definition.stage_id);
    let r = stage_rank(plan.stages, plan.steps[i]);
    if r < k {
        assert(plan.stages[r].id != plan.stages[k].id);
    }
}

proof fn lemma_sound_is_valid(plan: PlanView)
    requires
        sound_plan(plan),
    ensures
        plan.valid(),
{
    let steps = definitions_of(plan);
    lemma_bytes(plan.objective);
    lemma_bytes(plan.acceptance);
    lemma_bytes(plan.reason);
    assert forall|k: int| 0 <= k < plan.stages.len() implies valid_stage(
        #[trigger] plan.stages[k],
    ) by {
        lemma_sound_stage(plan.stages[k]);
    }
    assert forall|i: int| 0 <= i < plan.steps.len() implies valid_definition(
        (#[trigger] plan.steps[i]).definition,
    ) && plan.has_stage(plan.steps[i].definition.stage_id) by {
        assert(sound_definition(steps[i]));
        lemma_sound_definition(steps[i]);
        assert(at_home(steps, i, plan.stages));
        let k = choose|k: int|
            0 <= k < plan.stages.len() && #[trigger] belongs(steps, i, plan.stages, k);
        assert(plan.stages[k].id == plan.steps[i].definition.stage_id);
    }
    assert forall|i: int, j: int| 0 <= i < j < plan.steps.len() implies stage_rank(
        plan.stages,
        #[trigger] plan.steps[i],
    ) <= stage_rank(plan.stages, #[trigger] plan.steps[j]) && plan.steps[i].definition.id
        != plan.steps[j].definition.id by {
        assert(at_home(steps, i, plan.stages) && at_home(steps, j, plan.stages));
        let a = choose|k: int|
            0 <= k < plan.stages.len() && #[trigger] belongs(steps, i, plan.stages, k);
        let b = choose|k: int|
            0 <= k < plan.stages.len() && #[trigger] belongs(steps, j, plan.stages, k);
        lemma_rank(plan, i, a);
        lemma_rank(plan, j, b);
        assert(steps[i].id != steps[j].id);
    }
    assert forall|i: int, d: int|
        0 <= i < plan.steps.len() && 0 <= d
            < plan.steps[i].definition.dependencies.len() implies precedes(
        plan.steps,
        i,
        #[trigger] plan.steps[i].definition.dependencies[d],
    ) by {
        let wanted = steps[i].dependencies[d];
        assert(follows(steps, i, wanted));
        let j = choose|j: int| 0 <= j < i && (#[trigger] steps[j]).id == wanted;
        assert(plan.steps[j].definition.id == wanted);
    }
}

/// What a request leaves behind can be kept.
pub proof fn law_accepted_plans_are_sound(
    previous: Option<PlanView>,
    version: int,
    action: ActionView,
    owner: Seq<char>,
    now: int,
    id: Seq<char>,
)
    requires
        !(action is Read),
        applied(previous, version, action, owner, now, id) is Ok,
    ensures
        sound_plan(applied(previous, version, action, owner, now, id)->Ok_0),
{
    let draft = requested(previous, version, action, owner, now, id)->Ok_0;
    law_sound_plans_are_valid(draft);
    let next = applied(previous, version, action, owner, now, id)->Ok_0;
    assert(definitions_of(next) =~= definitions_of(draft));
}

/// A new task that can be kept is accepted where nothing is left of the present one.
#[verifier::rlimit(50)]
pub proof fn law_sound_tasks_are_created(
    previous: Option<PlanView>,
    version: int,
    objective: Seq<char>,
    acceptance: Seq<char>,
    stages: Seq<StageView>,
    steps: Seq<DefinitionView>,
    owner: Seq<char>,
    now: int,
    id: Seq<char>,
)
    requires
        previous is None ==> version == 0,
        previous matches Some(plan) ==> {
            &&& version == plan.version
            &&& forall|i: int| 0 <= i < plan.steps.len() ==> over(#[trigger] plan.steps[i])
            &&& forall|k: int| 0 <= k < plan.stages.len() ==> #[trigger] has_steps(plan, k)
        },
        legible(objective),
        legible(acceptance),
    ensures
        applied(
            previous,
            version,
            ActionView::Create { objective, acceptance, stages, steps },
            owner,
            now,
            id,
        ) is Ok <==> sound(objective, acceptance, Seq::empty(), stages, steps),
{
    law_blank_texts_are_illegible(objective);
    law_blank_texts_are_illegible(acceptance);
    if let Some(plan) = previous {
        assert forall|k: int| 0 <= k < plan.stages.len() implies plan.expanded(
            (#[trigger] plan.stages[k]).id,
        ) by {
            assert(has_steps(plan, k));
        }
    }
    let action = ActionView::Create { objective, acceptance, stages, steps };
    let draft = requested(previous, version, action, owner, now, id)->Ok_0;
    law_sound_plans_are_valid(draft);
    assert(definitions_of(draft) =~= steps);
    reveal_strlit("Initial plan");
    lemma_ascii_bytes("Initial plan"@);
    lemma_bytes("Initial plan"@);
    lemma_bytes(Seq::empty());
}

/// A revision that may take the place of the plan is accepted exactly where it can be kept.
pub proof fn law_sound_revisions_are_accepted(
    plan: PlanView,
    stages: Seq<StageView>,
    definitions: Seq<DefinitionView>,
    reason: Seq<char>,
    owner: Seq<char>,
    now: int,
    id: Seq<char>,
)
    requires
        legible(reason),
        forall|a: int|
            0 <= a < plan.steps.len() ==> defined_again(
                definitions,
                (#[trigger] plan.steps[a]).definition.id,
            ),
        forall|a: int, b: int|
            0 <= b < definitions.len() && #[trigger] names(plan, definitions[b].id, a)
                ==> replaceable(plan.steps[a], definitions[b]),
    ensures
        applied(
            Some(plan),
            plan.version,
            ActionView::Revise { stages, steps: definitions, reason },
            owner,
            now,
            id,
        ) is Ok <==> sound(plan.objective, plan.acceptance, reason, stages, definitions),
{
    law_blank_texts_are_illegible(reason);
    assert forall|a: int| 0 <= a < plan.steps.len() implies crate::model::defines(
        definitions,
        (#[trigger] plan.steps[a]).definition.id,
    ) by {
        assert(defined_again(definitions, plan.steps[a].definition.id));
    }
    assert forall|b: int| 0 <= b < definitions.len() implies redefinition_fault(
        plan.steps,
        #[trigger] definitions[b],
    ) is None by {
        lemma_step_position(plan.steps, definitions[b].id);
        if let Some(a) = step_position(plan.steps, definitions[b].id) {
            assert(names(plan, definitions[b].id, a));
        }
    }
    lemma_no_redefinition(plan.steps, definitions, definitions.len() as int);
    assert(definitions.take(definitions.len() as int) =~= definitions);
    let action = ActionView::Revise { stages, steps: definitions, reason };
    let draft = requested(Some(plan), plan.version, action, owner, now, id)->Ok_0;
    law_sound_plans_are_valid(draft);
    assert forall|j: int| 0 <= j < definitions.len() implies (#[trigger] draft.steps[j]).definition
        == definitions[j] by {
        assert(draft.steps[j] == revised_step(plan.steps, definitions[j], owner));
    }
    assert(definitions_of(draft) =~= definitions);
}

/// Which fault a refusal for what is asked for names: each is one that the stages or the steps
/// asked for have.
pub proof fn law_refusals_name_a_fault(plan: PlanView)
    ensures
        plan.fault() == Some(PlanError::TextTooLong) <==> bytes(plan.objective) > 2048 || bytes(
            plan.acceptance,
        ) > 2048 || bytes(plan.reason) > 2048,
        plan.fault() == Some(PlanError::Counts) ==> !(1 <= plan.stages.len() <= 16 && 1
            <= plan.steps.len() <= 64),
        plan.fault() == Some(PlanError::StageIds) ==> exists|k: int|
            0 <= k < plan.stages.len() && #[trigger] bad_stage_id(plan, k),
        plan.fault() == Some(PlanError::StageDescription) ==> exists|k: int|
            0 <= k < plan.stages.len() && !presentable(
                (#[trigger] plan.stages[k]).title,
                plan.stages[k].acceptance,
            ),
        plan.fault() == Some(PlanError::StageEstimate) ==> exists|k: int|
            0 <= k < plan.stages.len() && !(1 <= (#[trigger] plan.stages[k]).estimate_seconds
                <= 31_536_000),
        plan.fault() == Some(PlanError::Assumptions) ==> exists|k: int|
            0 <= k < plan.stages.len() && #[trigger] bad_assumptions(plan, k),
        plan.fault() == Some(PlanError::UnknownStage) ==> exists|i: int|
            0 <= i < plan.steps.len() && #[trigger] homeless(plan, i),
        plan.fault() == Some(PlanError::Dependencies) ==> exists|i: int|
            0 <= i < plan.steps.len() && #[trigger] bad_dependencies(plan, i),
        plan.fault() == Some(PlanError::StepIds) ==> exists|i: int|
            0 <= i < plan.steps.len() && #[trigger] bad_step_id(plan, i),
        plan.fault() == Some(PlanError::StepDescription) ==> exists|i: int|
            0 <= i < plan.steps.len() && !presentable(
                (#[trigger] plan.steps[i]).definition.title,
                plan.steps[i].definition.acceptance,
            ),
        plan.fault() == Some(PlanError::StepEstimate) ==> exists|i: int|
            0 <= i < plan.steps.len() && !(1 <= (
            #[trigger] plan.steps[i]).definition.estimate_seconds <= 31_536_000),
        plan.fault() == Some(PlanError::StageOrder) ==> exists|i: int|
            0 < i < plan.steps.len() && #[trigger] out_of_order(plan, i),
{
    lemma_bytes(plan.objective);
    lemma_bytes(plan.acceptance);
    lemma_bytes(plan.reason);
    let stages = plan.stages.len() as int;
    let steps = plan.steps.len() as int;
    lemma_first_stage_fault(plan.stages, stages);
    lemma_first_step_fault(plan.stages, plan.steps, steps);
    if let Some(fault) = first_stage_fault(plan.stages, stages) {
        let k = choose|k: int|
            0 <= k < stages && #[trigger] stage_fault(plan.stages, k) == Some(fault);
        let stage = plan.stages[k];
        lemma_bytes(stage.id);
        lemma_presentable(stage.title, stage.acceptance);
        assert(fault == PlanError::StageIds ==> bad_stage_id(plan, k));
        if fault == PlanError::Assumptions {
            if stage.assumptions.len() <= 8 {
                let a = choose|a: int|
                    0 <= a < stage.assumptions.len() && crate::text::utf8_len(
                        #[trigger] stage.assumptions[a],
                    ) > 512;
                lemma_bytes(stage.assumptions[a]);
                assert(bytes(stage.assumptions[a]) > 512);
            }
            assert(bad_assumptions(plan, k));
        }
    } else if let Some(fault) = first_step_fault(plan.stages, plan.steps, steps) {
        let i = choose|i: int|
            0 <= i < steps && #[trigger] step_fault(plan.stages, plan.steps, i) == Some(fault)
                && forall|j: int|
                0 <= j < i ==> #[trigger] step_fault(plan.stages, plan.steps, j) is None;
        let definition = plan.steps[i].definition;
        lemma_bytes(definition.id);
        lemma_presentable(definition.title, definition.acceptance);
        lemma_stage_position(plan.stages, definition.stage_id);
        assert(fault == PlanError::UnknownStage ==> homeless(plan, i));
        assert(fault == PlanError::StepIds ==> bad_step_id(plan, i));
        if fault == PlanError::Dependencies {
            if definition.dependencies.len() <= 16 {
                let d = choose|d: int|
                    0 <= d < definition.dependencies.len() && !precedes(
                        plan.steps,
                        i,
                        #[trigger] definition.dependencies[d],
                    );
                assert(!follows(definitions_of(plan), i, definition.dependencies[d])) by {
                    assert forall|j: int| 0 <= j < i implies (
                    #[trigger] definitions_of(plan)[j]).id != definition.dependencies[d] by {
                        assert(plan.steps[j].definition.id != definition.dependencies[d]);
                    }
                }
            }
            assert(bad_dependencies(plan, i));
        }
        if fault == PlanError::StageOrder {
            lemma_stage_position(plan.stages, plan.steps[i - 1].definition.stage_id);
            assert(step_fault(plan.stages, plan.steps, i - 1) is None);
            let a = stage_rank(plan.stages, plan.steps[i - 1]);
            let b = stage_rank(plan.stages, plan.steps[i]);
            assert(plan.stages[a].id == plan.steps[i - 1].definition.stage_id);
            assert(plan.stages[b].id == definition.stage_id);
            assert(out_of_order(plan, i));
        }
    }
}

/// A stage with an ID that is missing, too long or taken.
pub open spec fn bad_stage_id(plan: PlanView, k: int) -> bool {
    ||| bytes(plan.stages[k].id) == 0
    ||| bytes(plan.stages[k].id) > 64
    ||| exists|j: int| 0 <= j < k && (#[trigger] plan.stages[j]).id == plan.stages[k].id
}

pub open spec fn bad_assumptions(plan: PlanView, k: int) -> bool {
    ||| plan.stages[k].assumptions.len() > 8
    ||| exists|a: int|
        0 <= a < plan.stages[k].assumptions.len() && bytes(
            #[trigger] plan.stages[k].assumptions[a],
        ) > 512
}

/// A step of a stage that the plan does not have.
pub open spec fn homeless(plan: PlanView, i: int) -> bool {
    forall|k: int|
        0 <= k < plan.stages.len() ==> (#[trigger] plan.stages[k]).id
            != plan.steps[i].definition.stage_id
}

/// A step that depends on too much or on what does not come before it.
pub open spec fn bad_dependencies(plan: PlanView, i: int) -> bool {
    let dependencies = plan.steps[i].definition.dependencies;
    ||| dependencies.len() > 16
    ||| exists|d: int|
        0 <= d < dependencies.len() && !follows(
            definitions_of(plan),
            i,
            #[trigger] dependencies[d],
        )
}

/// A step with an ID that is missing, too long or taken.
pub open spec fn bad_step_id(plan: PlanView, i: int) -> bool {
    ||| bytes(plan.steps[i].definition.id) == 0
    ||| bytes(plan.steps[i].definition.id) > 64
    ||| exists|j: int|
        0 <= j < i && (#[trigger] plan.steps[j]).definition.id == plan.steps[i].definition.id
}

/// A step of an earlier stage than the step before it.
pub open spec fn out_of_order(plan: PlanView, i: int) -> bool {
    exists|a: int, b: int|
        0 <= b < a < plan.stages.len() && (#[trigger] plan.stages[a]).id == plan.steps[i
            - 1].definition.stage_id && (#[trigger] plan.stages[b]).id
            == plan.steps[i].definition.stage_id
}

proof fn lemma_first_stage_fault(stages: Seq<StageView>, count: int)
    requires
        0 <= count <= stages.len(),
    ensures
        first_stage_fault(stages, count) matches Some(fault) ==> exists|k: int|
            0 <= k < count && #[trigger] stage_fault(stages, k) == Some(fault),
    decreases count,
{
    if count > 0 {
        lemma_first_stage_fault(stages, count - 1);
        if first_stage_fault(stages, count - 1) is None {
            assert(stage_fault(stages, count - 1) == first_stage_fault(stages, count));
        }
    }
}

proof fn lemma_first_step_fault(stages: Seq<StageView>, steps: Seq<StepView>, count: int)
    requires
        0 <= count <= steps.len(),
    ensures
        first_step_fault(stages, steps, count) matches Some(fault) ==> exists|i: int|
            0 <= i < count && #[trigger] step_fault(stages, steps, i) == Some(fault) && forall|
                j: int,
            |
                0 <= j < i ==> #[trigger] step_fault(stages, steps, j) is None,
        first_step_fault(stages, steps, count) is None ==> forall|j: int|
            0 <= j < count ==> #[trigger] step_fault(stages, steps, j) is None,
    decreases count,
{
    if count > 0 {
        lemma_first_step_fault(stages, steps, count - 1);
        if first_step_fault(stages, steps, count - 1) is None {
            assert(step_fault(stages, steps, count - 1) == first_step_fault(
                stages,
                steps,
                count,
            ));
        }
    }
}

/// What the laws say of a stage, a definition, a step or a plan, they say of its fields.
pub proof fn law_plans_are_told_by_their_fields(
    stage: PlanStage,
    definition: PlanStepDefinition,
    step: TimedPlanStep,
    plan: ContinuousPlanning,
    i: int,
)
    ensures
        stage@.id == stage.id@,
        stage@.title == stage.title@,
        stage@.acceptance == stage.acceptance@,
        stage@.estimate_seconds == stage.estimate_seconds,
        stage@.assumptions.len() == stage.assumptions@.len(),
        0 <= i < stage.assumptions@.len() ==> stage@.assumptions[i] == stage.assumptions@[i]@,
        definition@.id == definition.id@,
        definition@.stage_id == definition.stage_id@,
        definition@.title == definition.title@,
        definition@.acceptance == definition.acceptance@,
        definition@.estimate_seconds == definition.estimate_seconds,
        definition@.dependencies.len() == definition.dependencies@.len(),
        0 <= i < definition.dependencies@.len() ==> definition@.dependencies[i]
            == definition.dependencies@[i]@,
        step@.definition == step.definition@,
        step@.state == step.state,
        step@.owner == step.owner@,
        step@.initial_estimate_seconds == step.initial_estimate_seconds,
        step@.elapsed_seconds == step.elapsed_seconds,
        step@.started_at is Some == step.started_at is Some,
        step.started_at matches Some(at) ==> step@.started_at == Some(at as int),
        step@.running_since is Some == step.running_since is Some,
        step.running_since matches Some(at) ==> step@.running_since == Some(at as int),
        step@.submitted_at is Some == step.submitted_at is Some,
        step.submitted_at matches Some(at) ==> step@.submitted_at == Some(at as int),
        step@.completed_at is Some == step.completed_at is Some,
        step.completed_at matches Some(at) ==> step@.completed_at == Some(at as int),
        step@.evidence.len() == step.evidence@.len(),
        0 <= i < step.evidence@.len() ==> step@.evidence[i] == step.evidence@[i]@,
        plan@.id == plan.id@,
        plan@.version == plan.version,
        plan@.objective == plan.objective@,
        plan@.acceptance == plan.acceptance@,
        plan@.stages.len() == plan.stages@.len(),
        0 <= i < plan.stages@.len() ==> plan@.stages[i] == plan.stages@[i]@,
        plan@.steps.len() == plan.steps@.len(),
        0 <= i < plan.steps@.len() ==> plan@.steps[i] == plan.steps@[i]@,
        plan@.review == plan.review,
        plan@.updated_at == plan.updated_at,
        plan@.next_review_at == plan.next_review_at,
        plan@.estimated_completion_at == plan.estimated_completion_at,
        plan@.reason == plan.reason@,
{
}

/// What the laws say of a request, they say of its fields.
pub proof fn law_requests_are_told_by_their_fields(action: PlanAction, i: int)
    ensures
        match action {
            PlanAction::Create { objective, acceptance, stages, steps } => {
                &&& action@ is Create
                &&& action@->Create_objective == objective@
                &&& action@->Create_acceptance == acceptance@
                &&& action@->Create_stages.len() == stages@.len()
                &&& 0 <= i < stages@.len() ==> action@->Create_stages[i] == stages@[i]@
                &&& action@->Create_steps.len() == steps@.len()
                &&& 0 <= i < steps@.len() ==> action@->Create_steps[i] == steps@[i]@
            },
            PlanAction::Revise { stages, steps, reason } => {
                &&& action@ is Revise
                &&& action@->Revise_reason == reason@
                &&& action@->Revise_stages.len() == stages@.len()
                &&& 0 <= i < stages@.len() ==> action@->Revise_stages[i] == stages@[i]@
                &&& action@->Revise_steps.len() == steps@.len()
                &&& 0 <= i < steps@.len() ==> action@->Revise_steps[i] == steps@[i]@
            },
            PlanAction::Start { step_id } => action@ == (ActionView::Start { step_id: step_id@ }),
            PlanAction::Pause { step_id, reason } => action@ == (ActionView::Pause {
                step_id: step_id@,
                reason: reason@,
            }),
            PlanAction::Submit { step_id, evidence } => {
                &&& action@ is Submit
                &&& action@->Submit_step_id == step_id@
                &&& action@->Submit_evidence.len() == evidence@.len()
                &&& 0 <= i < evidence@.len() ==> action@->Submit_evidence[i] == evidence@[i]@
            },
            PlanAction::Cancel { step_id, reason } => action@ == (ActionView::Cancel {
                step_id: step_id@,
                reason: reason@,
            }),
            PlanAction::Read { offset } => action@ == (ActionView::Read { offset: offset as int }),
        },
{
}

} // verus!
