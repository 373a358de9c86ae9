//! What each request of the Supervisor does, told in the fields of the conversation before and
//! after it.

use crate::conversation_laws::law_clipped_texts_are_the_longest_beginnings;
use crate::conversation_laws::longest_beginning;
use crate::plan::definition_views;
use crate::plan::stage_views;
use crate::plan::StepView;
use crate::request::ActionView;
use crate::request_laws::bytes;
use crate::request_laws::law_blank_texts_are_illegible;
use crate::request_laws::legible;
use crate::runtime::RuntimeError;
use crate::runtime::RuntimeView;
use crate::supervisor_state::StateView;
use crate::text::clip;
use crate::text::lemma_utf8_len_is_encoding_len;
use crate::text::texts;
use crate::tool::chars_before;
use crate::tool::executed;
use crate::tool::first_three;
use crate::tool::lemma_chars_before;
use crate::tool::lemma_same_prefix;
use crate::tool::page_at;
use crate::tool::unfinished;
use crate::tool::Page;
use crate::tool::StepSummary;
use crate::tool::StepSummaryView;
use crate::tool::SupervisorAction;
use crate::tool::ToolContext;
use crate::tool::ToolStep;
use vstd::prelude::*;

verus! {

/// A page begins where its offset says, behind a whole number of characters, and holds as much of
/// the text as 600 bytes have room for. It names the place where it ends, unless the text ends
/// there. No other offset has a page.
pub proof fn law_pages_begin_at_their_offset(text: Seq<char>, offset: int, n: int)
    requires
        0 <= n <= text.len(),
    ensures
        bytes(text.take(n)) == offset ==> {
            &&& page_at(text, offset) is Ok
            &&& longest_beginning(page_at(text, offset)->Ok_0.text, text.skip(n), 600)
            &&& page_at(text, offset)->Ok_0.next_offset == if page_at(
                text,
                offset,
            )->Ok_0.text.len() < text.len() - n {
                Some((offset + bytes(page_at(text, offset)->Ok_0.text)) as int)
            } else {
                None
            }
        },
        offset >= 0 && (forall|m: int|
            0 <= m <= text.len() ==> bytes(#[trigger] text.take(m)) != offset) ==> page_at(
            text,
            offset,
        ) == Err::<crate::tool::PageView, RuntimeError>(RuntimeError::PageOffset),
{
    lemma_utf8_len_is_encoding_len(text.take(n));
    if offset >= 0 {
        lemma_chars_before(text, offset);
        if bytes(text.take(n)) == offset {
            if chars_before(text, offset) is None {
                assert(crate::text::utf8_len(text.take(n)) != offset);
            }
            let found = chars_before(text, offset)->0;
            lemma_same_prefix(text, found, n);
            law_clipped_texts_are_the_longest_beginnings(text.skip(n), 600);
            lemma_utf8_len_is_encoding_len(clip(text.skip(n), 600));
        } else if let Some(found) = chars_before(text, offset) {
            lemma_utf8_len_is_encoding_len(text.take(found));
        }
    }
}

/// A conversation that could not be restored refuses every request and stays as it is.
pub proof fn law_unrestored_conversations_refuse_requests(
    action: SupervisorAction,
    before: RuntimeView,
    context: ToolContext,
    result: Result<ToolStep, RuntimeError>,
    after: RuntimeView,
)
    requires
        executed(action, before, context, result, after),
        before.restore_error is Some,
    ensures
        result == Err::<ToolStep, RuntimeError>(RuntimeError::Restore),
        after == before,
{
}

/// A refused request changes nothing.
pub proof fn law_refused_requests_change_nothing(
    action: SupervisorAction,
    before: RuntimeView,
    context: ToolContext,
    result: Result<ToolStep, RuntimeError>,
    after: RuntimeView,
)
    requires
        executed(action, before, context, result, after),
        result is Err,
    ensures
        after == before,
{
}

/// Reading changes nothing: the plan is read from the offset, with the goal where there is no plan;
/// evidence is read anew from its beginning, and paged from what was read; a history is searched as
/// it was asked for.
pub proof fn law_readings_change_nothing(
    action: SupervisorAction,
    before: RuntimeView,
    context: ToolContext,
    result: Result<ToolStep, RuntimeError>,
    after: RuntimeView,
)
    requires
        executed(action, before, context, result, after),
        before.restore_error is None,
    ensures
        action is Read || action is Evidence || action is Inspect ==> after == before,
        action matches SupervisorAction::Read { offset } ==> result == Ok::<ToolStep, RuntimeError>(
            ToolStep::Read { offset, with_goal: before.plan is None },
        ),
        action matches SupervisorAction::Evidence { offset } ==> {
            &&& offset == 0 ==> result == Ok::<ToolStep, RuntimeError>(ToolStep::Evidence)
            &&& offset > 0 && before.evidence_review is None ==> result == Err::<
                ToolStep,
                RuntimeError,
            >(RuntimeError::EvidenceOffset)
            &&& offset > 0 && before.evidence_review is Some ==> match page_at(
                (before.evidence_review->0).1,
                offset as int,
            ) {
                Ok(shown) => result matches Ok(ToolStep::Page { page }) && page@ == shown,
                Err(error) => result == Err::<ToolStep, RuntimeError>(error),
            }
        },
        action matches SupervisorAction::Inspect { query, offset } ==> (result matches Ok(
            ToolStep::Inspect { query: asked, offset: from },
        ) && from == offset && asked is Some == query is Some && (query matches Some(query)
            ==> asked->0@ == query@)),
{
}

/// A task is created and revised by the request as it was made, and stored where that made a new
/// version; a step is accepted and stored. The conversation itself stays as it is until then.
pub proof fn law_revisions_are_stored_before_they_are_kept(
    action: SupervisorAction,
    before: RuntimeView,
    context: ToolContext,
    result: Result<ToolStep, RuntimeError>,
    after: RuntimeView,
)
    requires
        executed(action, before, context, result, after),
        before.restore_error is None,
    ensures
        action is Create || action is Revise || action is Accept ==> after == before,
        action matches SupervisorAction::Create {
            version,
            objective,
            acceptance,
            stages,
            steps,
        } ==> stored_as(
            before,
            before.updated_plan(
                version as int,
                (ActionView::Create {
                    objective: objective@,
                    acceptance: acceptance@,
                    stages: stage_views(stages@),
                    steps: definition_views(steps@),
                }),
                context.now as int,
                context.id@,
            ),
            result,
        ),
        action matches SupervisorAction::Revise { version, stages, steps, reason } ==> stored_as(
            before,
            before.updated_plan(
                version as int,
                (ActionView::Revise {
                    stages: stage_views(stages@),
                    steps: definition_views(steps@),
                    reason: reason@,
                }),
                context.now as int,
                context.id@,
            ),
            result,
        ),
        action matches SupervisorAction::Accept { version, step_id, evidence } ==> match before.accepted(
            version as int,
            step_id@,
            texts(evidence@),
            context.implementer_running,
            context.now as int,
        ) {
            Ok(next) => result matches Ok(ToolStep::Store { plan }) && plan@ == next,
            Err(error) => result == Err::<ToolStep, RuntimeError>(error),
        },
{
}

/// What a change of the plan asks of the host: to store it where it is a new version.
pub open spec fn stored_as(
    before: RuntimeView,
    change: Result<crate::plan::PlanView, RuntimeError>,
    result: Result<ToolStep, RuntimeError>,
) -> bool {
    match change {
        Err(error) => result == Err::<ToolStep, RuntimeError>(error),
        Ok(next) => if before.plan matches Some(plan) && plan.version == next.version {
            result == Ok::<ToolStep, RuntimeError>(ToolStep::Nothing)
        } else {
            result matches Ok(ToolStep::Store { plan }) && plan@ == next
        },
    }
}

/// A pause needs a reason that can be read. It stops execution, and interrupts the Implementer
/// where there is one; so does a replacement of the Implementer.
pub proof fn law_pauses_stop_execution(
    action: SupervisorAction,
    before: RuntimeView,
    context: ToolContext,
    result: Result<ToolStep, RuntimeError>,
    after: RuntimeView,
)
    requires
        executed(action, before, context, result, after),
        before.restore_error is None,
    ensures
        action matches SupervisorAction::Pause { reason } ==> {
            &&& !legible(reason@) ==> result == Err::<ToolStep, RuntimeError>(
                RuntimeError::UnexplainedPause,
            ) && after == before
            &&& legible(reason@) ==> result == Ok::<ToolStep, RuntimeError>(
                ToolStep::Suspend { interrupt: before.implementer is Some },
            )
        },
        action is Replace ==> result == Ok::<ToolStep, RuntimeError>(
            ToolStep::Replace { interrupt: before.implementer is Some },
        ),
        (action is Pause && result is Ok) || action is Replace ==> {
            &&& !after.active
            &&& before == RuntimeView { active: before.active, ..after }
        },
{
    if let SupervisorAction::Pause { reason } = action {
        law_blank_texts_are_illegible(reason@);
    }
}

/// A budget is a positive number of tokens, or none. It is kept as it was asked for, and that is a
/// revision of the state.
pub proof fn law_budgets_are_kept(
    action: SupervisorAction,
    before: RuntimeView,
    context: ToolContext,
    result: Result<ToolStep, RuntimeError>,
    after: RuntimeView,
)
    requires
        executed(action, before, context, result, after),
        before.restore_error is None,
        action is Budget,
    ensures
        ({
            let tokens = action->tokens;
            &&& tokens is Some && tokens->0 <= 0 ==> after == before && result == Err::<
                ToolStep,
                RuntimeError,
            >(RuntimeError::InvalidBudget)
            &&& tokens is None || tokens->0 > 0 ==> {
                &&& result == Ok::<ToolStep, RuntimeError>(ToolStep::Save)
                &&& after.state.token_budget is Some == tokens is Some
                &&& tokens is Some ==> after.state.token_budget == Some(tokens->0 as int)
                &&& after.state.revision == before.state.revision + 1
                &&& after.state.updated_at == context.now
                &&& before.state == StateView {
                    token_budget: before.state.token_budget,
                    revision: before.state.revision,
                    updated_at: before.state.updated_at,
                    ..after.state
                }
                &&& before == RuntimeView { state: before.state, ..after }
            }
        }),
{
}

/// A selection, a resumption and a note are saved, each as it was asked for.
pub proof fn law_changes_of_the_state_are_saved(
    action: SupervisorAction,
    before: RuntimeView,
    context: ToolContext,
    result: Result<ToolStep, RuntimeError>,
    after: RuntimeView,
)
    requires
        executed(action, before, context, result, after),
        before.restore_error is None,
    ensures
        ({
            let change = match action {
                SupervisorAction::Select { version, step_id } => Some(
                    before.selected(
                        version as int,
                        step_id@,
                        context.implementer_running,
                        context.now as int,
                    ),
                ),
                SupervisorAction::Resume {  } => Some(before.resumed(context.now as int)),
                SupervisorAction::Remember { text } => Some(
                    Ok::<RuntimeView, RuntimeError>(
                        before.remembering(text@, context.now as int),
                    ),
                ),
                _ => None,
            };
            change matches Some(change) ==> match change {
                Ok(next) => after == next && result == Ok::<ToolStep, RuntimeError>(ToolStep::Save),
                Err(error) => result == Err::<ToolStep, RuntimeError>(error),
            }
        }),
{
}

/// A cancellation of the selected step stops execution, and interrupts the Implementer where there
/// is one; that of another step stops nothing.
pub proof fn law_cancellations_stop_the_selected_step(
    action: SupervisorAction,
    before: RuntimeView,
    context: ToolContext,
    result: Result<ToolStep, RuntimeError>,
    after: RuntimeView,
)
    requires
        executed(action, before, context, result, after),
        before.restore_error is None,
        action is Cancel,
    ensures
        action matches SupervisorAction::Cancel { version, step_id, reason } ==> match before.cancelled_plan(
            version as int,
            step_id@,
            reason@,
            context.now as int,
        ) {
            Err(error) => result == Err::<ToolStep, RuntimeError>(error) && after == before,
            Ok(next) => {
                &&& result matches Ok(ToolStep::Cancel { cancellation })
                &&& cancellation.plan@ == next
                &&& cancellation.selected <==> before.state.step_id == Some(step_id@)
                &&& cancellation.interrupt <==> before.state.step_id == Some(step_id@)
                    && before.implementer is Some
                &&& before.state.step_id == Some(step_id@) ==> !after.active
                &&& before.state.step_id != Some(step_id@) ==> after.active == before.active
                &&& before == RuntimeView { active: before.active, ..after }
            },
        },
{
}

/// The reply to a request tells the first three steps that are neither completed nor cancelled, in
/// the order of the plan.
pub proof fn law_replies_tell_what_is_left(steps: Seq<StepView>, step: StepView)
    ensures
        unfinished(Seq::empty()).len() == 0,
        step.state is Completed || step.state is Cancelled ==> unfinished(steps.push(step))
            == unfinished(steps),
        !(step.state is Completed || step.state is Cancelled) ==> unfinished(steps.push(step))
            == unfinished(steps).push(
            StepSummaryView { id: step.definition.id, state: step.state },
        ),
        unfinished(steps).len() <= 3 ==> first_three(unfinished(steps)) == unfinished(steps),
        unfinished(steps).len() > 3 ==> first_three(unfinished(steps)) == unfinished(
            steps,
        ).subrange(0, 3),
{
    assert(steps.push(step).drop_last() =~= steps);
    assert(unfinished(steps).len() > 3 ==> unfinished(steps).take(3) =~= unfinished(
        steps,
    ).subrange(0, 3));
}

/// What the laws say of pages and summaries, they say of their fields.
pub proof fn law_pages_are_told_by_their_fields(page: Page, step: StepSummary)
    ensures
        page@.text == page.text@,
        page@.next_offset is Some == page.next_offset is Some,
        page.next_offset matches Some(offset) ==> page@.next_offset == Some(offset as int),
        step@.id == step.id@,
        step@.state == step.state,
{
}

} // verus!
