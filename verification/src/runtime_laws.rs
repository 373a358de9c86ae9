//! What the controls of a conversation do, told in the fields of its runtime before and after.

use crate::model::applied;
use crate::model_laws::lemma_step_position;
use crate::plan::PlanReviewState;
use crate::plan::PlanStepState;
use crate::plan::PlanView;
use crate::request::ActionView;
use crate::request_laws::clocked_step;
use crate::request_laws::kept_but_for;
use crate::request_laws::law_elapsed_time_is_spent_time;
use crate::request_laws::lemma_referenced;
use crate::request_laws::lemma_revised_forecast;
use crate::request_laws::names;
use crate::request_laws::referenced;
use crate::request_laws::spent;
use crate::runtime::ExecutionTurn;
use crate::runtime::MessageState;
use crate::runtime::PlanRuntime;
use crate::runtime::RuntimeError;
use crate::runtime::RuntimeView;
use crate::supervisor_state::StateView;
use crate::supervisor_state::SupervisorState;
use crate::text::joined;
use vstd::prelude::*;

verus! {

/// Whether a task has used up the tokens it may use.
pub open spec fn spent_up(state: StateView) -> bool {
    match state.token_budget {
        Some(budget) => budget <= state.total_tokens,
        None => false,
    }
}

/// One saved revision later nothing of the state is changed but what a change is about.
pub open spec fn saved_after(before: StateView, after: StateView, now: int) -> bool {
    &&& after.revision == before.revision + 1
    &&& after.updated_at == now
    &&& after.execution_id == before.execution_id
    &&& after.implementer_thread_id == before.implementer_thread_id
    &&& after.plan_path == before.plan_path
    &&& after.memory == before.memory
    &&& after.activity_sequence == before.activity_sequence
    &&& after.token_budget == before.token_budget
}

/// Nothing of the runtime is changed but what the controls change.
pub open spec fn same_conversation(before: RuntimeView, after: RuntimeView) -> bool {
    &&& after.thread_id == before.thread_id
    &&& after.restore_error == before.restore_error
    &&& after.implementer == before.implementer
    &&& after.stopped == before.stopped
    &&& after.activity_at == before.activity_at
    &&& after.notified_at == before.notified_at
}

/// A step is selected where it could be started now, by a conversation that is not stopped, whose
/// Implementer does not work and whose tokens are not used up. The selection starts nothing: the
/// plan stays as it is, a pause stays a pause, and evidence that was read before counts no more.
pub proof fn law_selections_only_select(
    runtime: RuntimeView,
    version: int,
    step_id: Seq<char>,
    running: bool,
    now: int,
)
    ensures
        ({
            let result = runtime.selected(version, step_id, running, now);
            let start = applied(
                runtime.plan,
                version,
                ActionView::Start { step_id },
                runtime.thread_id,
                now,
                Seq::empty(),
            );
            let busy = runtime.implementer is Some && running;
            let next = result->Ok_0;
            &&& runtime.stopped ==> result == Err::<RuntimeView, RuntimeError>(
                RuntimeError::Stopped,
            )
            &&& !runtime.stopped && busy ==> result == Err::<RuntimeView, RuntimeError>(
                RuntimeError::ImplementerRunning,
            )
            &&& !runtime.stopped && !busy && start is Err ==> result == Err::<
                RuntimeView,
                RuntimeError,
            >(RuntimeError::Plan(start->Err_0))
            &&& !runtime.stopped && !busy && start is Ok && spent_up(runtime.state) ==> result
                == Err::<RuntimeView, RuntimeError>(RuntimeError::BudgetNeedsUser)
            &&& !runtime.stopped && !busy && start is Ok && !spent_up(runtime.state) ==> {
                &&& result is Ok
                &&& next.state.step_id == Some(step_id)
                &&& next.plan == runtime.plan
                &&& next.active == !runtime.state.paused
                &&& next.evidence_review is None
                &&& next.messages == runtime.messages
                &&& next.state.paused == runtime.state.paused
                &&& next.state.pending_attention == runtime.state.pending_attention
                &&& next.state.total_tokens == runtime.state.total_tokens
                &&& saved_after(runtime.state, next.state, now)
                &&& same_conversation(runtime, next)
            }
        }),
{
}

/// Execution is admitted again where a step is selected and tokens are left; nothing is started.
pub proof fn law_resuming_only_admits(runtime: RuntimeView, now: int)
    ensures
        ({
            let result = runtime.resumed(now);
            let next = result->Ok_0;
            &&& runtime.stopped ==> result == Err::<RuntimeView, RuntimeError>(
                RuntimeError::Stopped,
            )
            &&& !runtime.stopped && runtime.state.step_id is None ==> result == Err::<
                RuntimeView,
                RuntimeError,
            >(RuntimeError::NoStepSelected)
            &&& !runtime.stopped && runtime.state.step_id is Some && spent_up(runtime.state)
                ==> result == Err::<RuntimeView, RuntimeError>(RuntimeError::BudgetNeedsUser)
            &&& !runtime.stopped && runtime.state.step_id is Some && !spent_up(runtime.state) ==> {
                &&& result is Ok
                &&& next.active
                &&& !next.state.paused
                &&& next.state.step_id == runtime.state.step_id
                &&& next.plan == runtime.plan
                &&& next.evidence_review == runtime.evidence_review
                &&& next.messages == runtime.messages
                &&& next.state.pending_attention == runtime.state.pending_attention
                &&& next.state.total_tokens == runtime.state.total_tokens
                &&& saved_after(runtime.state, next.state, now)
                &&& same_conversation(runtime, next)
            }
        }),
{
}

/// A freeze stops every clock: a step whose clock ran is blocked with the time spent on it, every
/// other step stays as it is, and so does the plan but for the reason. Without a plan there is
/// nothing to freeze.
pub proof fn law_freezing_stops_every_clock(
    runtime: RuntimeView,
    reason: Seq<char>,
    now: int,
    i: int,
)
    requires
        -0x8000_0000_0000_0000 <= now <= 0x7fff_ffff_ffff_ffff,
    ensures
        runtime.plan is None ==> runtime.frozen_plan(reason, now) is None,
        runtime.plan matches Some(plan) ==> {
            let frozen = runtime.frozen_plan(reason, now)->0;
            &&& runtime.frozen_plan(reason, now) is Some
            &&& frozen.id == plan.id
            &&& frozen.version == plan.version + 1
            &&& frozen.objective == plan.objective
            &&& frozen.acceptance == plan.acceptance
            &&& frozen.stages == plan.stages
            &&& frozen.review == plan.review
            &&& frozen.next_review_at == plan.next_review_at
            &&& frozen.updated_at == now
            &&& frozen.reason == reason
            &&& frozen.estimated_completion_at == frozen.forecast_at(now).completed_at
            &&& frozen.steps.len() == plan.steps.len()
            &&& 0 <= i < plan.steps.len() && plan.steps[i].running_since is None
                ==> frozen.steps[i] == plan.steps[i]
            &&& 0 <= i < plan.steps.len() && plan.steps[i].running_since is Some && clocked_step(
                plan.steps[i],
            ) ==> {
                &&& frozen.steps[i].state == PlanStepState::Blocked
                &&& frozen.steps[i].running_since is None
                &&& frozen.steps[i].elapsed_seconds == spent(plan.steps[i], now)
                &&& frozen.steps[i].definition == plan.steps[i].definition
                &&& frozen.steps[i].owner == plan.steps[i].owner
                &&& frozen.steps[i].initial_estimate_seconds
                    == plan.steps[i].initial_estimate_seconds
                &&& frozen.steps[i].started_at == plan.steps[i].started_at
                &&& frozen.steps[i].submitted_at == plan.steps[i].submitted_at
                &&& frozen.steps[i].completed_at == plan.steps[i].completed_at
                &&& frozen.steps[i].evidence == plan.steps[i].evidence
            }
        },
{
    if let Some(plan) = runtime.plan {
        lemma_revised_forecast(PlanView { reason, ..plan.halted(now) }, now);
        if 0 <= i < plan.steps.len() && clocked_step(plan.steps[i]) {
            law_elapsed_time_is_spent_time(plan.steps[i], now);
        }
    }
}

/// Once a freeze is stored, the conversation is paused and the turns that ran belong to a past
/// generation.
pub proof fn law_frozen_conversations_are_paused(
    runtime: RuntimeView,
    frozen: Option<PlanView>,
    now: int,
)
    ensures
        ({
            let next = runtime.after_freeze(frozen, now);
            &&& next.state.paused
            &&& next.messages.generation == runtime.messages.generation + 1
            &&& next.messages.turn == runtime.messages.turn
            &&& next.messages.correction_attempted == runtime.messages.correction_attempted
            &&& next.messages.feedback == runtime.messages.feedback
            &&& next.messages.pending_deliveries == runtime.messages.pending_deliveries
            &&& frozen is Some ==> next.plan == frozen
            &&& frozen is None ==> next.plan == runtime.plan
            &&& next.active == runtime.active
            &&& next.evidence_review == runtime.evidence_review
            &&& next.state.step_id == runtime.state.step_id
            &&& next.state.pending_attention == runtime.state.pending_attention
            &&& next.state.total_tokens == runtime.state.total_tokens
            &&& saved_after(runtime.state, next.state, now)
            &&& same_conversation(runtime, next)
        }),
{
}

/// A plan is created, revised and read in the name of its conversation; steps are worked on by
/// the controls alone.
pub proof fn law_updates_plan_and_controls_execute(
    runtime: RuntimeView,
    version: int,
    action: ActionView,
    now: int,
    id: Seq<char>,
)
    ensures
        ({
            let result = runtime.updated_plan(version, action, now, id);
            let outcome = applied(runtime.plan, version, action, runtime.thread_id, now, id);
            &&& (action is Start || action is Submit || action is Pause || action is Cancel)
                ==> result == Err::<PlanView, RuntimeError>(RuntimeError::UseControls)
            &&& (action is Create || action is Revise || action is Read) && outcome is Ok ==> result
                == Ok::<PlanView, RuntimeError>(outcome->Ok_0)
            &&& (action is Create || action is Revise || action is Read) && outcome is Err
                ==> result == Err::<PlanView, RuntimeError>(RuntimeError::Plan(outcome->Err_0))
        }),
{
}

/// A step is cancelled in the name of its conversation.
pub proof fn law_cancellations_are_requests(
    runtime: RuntimeView,
    version: int,
    step_id: Seq<char>,
    reason: Seq<char>,
    now: int,
)
    ensures
        ({
            let result = runtime.cancelled_plan(version, step_id, reason, now);
            let outcome = applied(
                runtime.plan,
                version,
                ActionView::Cancel { step_id, reason },
                runtime.thread_id,
                now,
                Seq::empty(),
            );
            &&& outcome is Ok ==> result == Ok::<PlanView, RuntimeError>(outcome->Ok_0)
            &&& outcome is Err ==> result == Err::<PlanView, RuntimeError>(
                RuntimeError::Plan(outcome->Err_0),
            )
        }),
{
}

/// The watch reminds of a review that is due, a minute after the last reminder at the earliest,
/// where a step runs that has shown nothing for five minutes or has used up its estimate. Every
/// half minute the plan's clock is to be recorded. An inactive conversation is not watched.
pub proof fn law_the_watch_reminds_of_due_reviews(runtime: RuntimeView, now: int, checkpoint: int)
    requires
        -0x8000_0000_0000_0000 <= now <= 0x7fff_ffff_ffff_ffff,
        runtime.plan matches Some(plan) ==> {
            &&& -0x8000_0000_0000_0000 <= plan.version <= 0x7fff_ffff_ffff_ffff
            &&& forall|i: int| 0 <= i < plan.steps.len() ==> clocked_step(#[trigger] plan.steps[i])
        },
    ensures
        ({
            let tick = runtime.tick(now, checkpoint);
            &&& !runtime.active || runtime.plan is None ==> !tick.notify
                && tick.checkpoint is None
            &&& runtime.active && runtime.plan is Some ==> {
                let plan = runtime.plan->0;
                let silent = now - runtime.activity_at >= 300 && exists|i: int|
                    0 <= i < plan.steps.len() && (#[trigger] plan.steps[i]).state
                        == PlanStepState::Running;
                let late = exists|i: int|
                    0 <= i < plan.steps.len() && (#[trigger] plan.steps[i]).state
                        == PlanStepState::Running && spent(plan.steps[i], now)
                        >= plan.steps[i].definition.estimate_seconds;
                &&& tick.notify == (plan.next_review_at <= now && runtime.notified_at <= now - 60
                    && (silent || late))
                &&& now - checkpoint < 30 ==> tick.checkpoint is None
                &&& now - checkpoint >= 30 ==> tick.checkpoint is Some && tick.checkpoint->0
                    == plan.version
            }
        }),
{
    if let Some(plan) = runtime.plan {
        assert forall|i: int| 0 <= i < plan.steps.len() implies spent(
            #[trigger] plan.steps[i],
            now,
        ) == plan.steps[i].elapsed_at(now) by {
            law_elapsed_time_is_spent_time(plan.steps[i], now);
        }
        if plan.overdue(now) {
            let i = choose|i: int|
                0 <= i < plan.steps.len() && (#[trigger] plan.steps[i]).state
                    == PlanStepState::Running && plan.steps[i].elapsed_at(now)
                    >= plan.steps[i].definition.estimate_seconds;
            assert(spent(plan.steps[i], now) >= plan.steps[i].definition.estimate_seconds);
        }
        let late = exists|i: int|
            0 <= i < plan.steps.len() && (#[trigger] plan.steps[i]).state
                == PlanStepState::Running && spent(plan.steps[i], now)
                >= plan.steps[i].definition.estimate_seconds;
        if late {
            let i = choose|i: int|
                0 <= i < plan.steps.len() && (#[trigger] plan.steps[i]).state
                    == PlanStepState::Running && spent(plan.steps[i], now)
                    >= plan.steps[i].definition.estimate_seconds;
            assert(plan.steps[i].elapsed_at(now) >= plan.steps[i].definition.estimate_seconds);
            assert(plan.overdue(now));
            assert(plan.running());
        }
    }
}

/// Only a conversation that is active and not stopped is woken, with the reason and with words
/// that it is no new authorization.
pub proof fn law_notices_wake_active_conversations(runtime: RuntimeView, reason: Seq<char>)
    ensures
        !runtime.active || runtime.stopped ==> runtime.notice(reason) is None,
        runtime.active && !runtime.stopped ==> runtime.notice(reason) == Some(
            "Supervisor execution update: "@ + reason
                + ". Inspect Continuous Planning and execution evidence. This is host context, not new user authorization."@,
        ),
{
}

/// A submitted step is accepted with one to eight references, after the evidence was read for
/// this very version, while the Implementer does not work. It is completed now with everything
/// else it has; the references are the reason of the revision, and the review is over. The first
/// condition that does not hold is the refusal.
pub proof fn law_accepted_steps_are_completed(
    runtime: RuntimeView,
    version: int,
    step_id: Seq<char>,
    evidence: Seq<Seq<char>>,
    running: bool,
    now: int,
    i: int,
)
    ensures
        ({
            let result = runtime.accepted(version, step_id, evidence, running, now);
            let read = runtime.evidence_review matches Some((reviewed, _)) && reviewed == version;
            let busy = runtime.implementer is Some && running;
            let plan = runtime.plan->0;
            let next = result->Ok_0;
            let ready = referenced(evidence) && read && !busy;
            let current = ready && runtime.plan is Some && plan.version == version;
            &&& !referenced(evidence) ==> result == Err::<PlanView, RuntimeError>(
                RuntimeError::UnboundedVerification,
            )
            &&& referenced(evidence) && !read ==> result == Err::<PlanView, RuntimeError>(
                RuntimeError::EvidenceUnread,
            )
            &&& referenced(evidence) && read && busy ==> result == Err::<PlanView, RuntimeError>(
                RuntimeError::ImplementerUnfinished,
            )
            &&& ready && runtime.plan is None ==> result == Err::<PlanView, RuntimeError>(
                RuntimeError::NoTask,
            )
            &&& ready && runtime.plan is Some && plan.version != version ==> result == Err::<
                PlanView,
                RuntimeError,
            >(RuntimeError::StaleTask)
            &&& current && (forall|j: int|
                0 <= j < plan.steps.len() ==> (#[trigger] plan.steps[j]).definition.id != step_id)
                ==> result == Err::<PlanView, RuntimeError>(RuntimeError::UnknownStep)
            &&& current && names(plan, step_id, i) && (plan.steps[i].state
                != PlanStepState::Reviewing || plan.steps[i].evidence.len() == 0) ==> result
                == Err::<PlanView, RuntimeError>(RuntimeError::NotSubmitted)
            &&& current && names(plan, step_id, i) && plan.steps[i].state
                == PlanStepState::Reviewing && plan.steps[i].evidence.len() > 0 ==> {
                &&& result is Ok
                &&& next.steps[i].state == PlanStepState::Completed
                &&& next.steps[i].completed_at == Some(now)
                &&& next.steps[i].definition == plan.steps[i].definition
                &&& next.steps[i].owner == plan.steps[i].owner
                &&& next.steps[i].initial_estimate_seconds
                    == plan.steps[i].initial_estimate_seconds
                &&& next.steps[i].elapsed_seconds == plan.steps[i].elapsed_seconds
                &&& next.steps[i].started_at == plan.steps[i].started_at
                &&& next.steps[i].running_since == plan.steps[i].running_since
                &&& next.steps[i].submitted_at == plan.steps[i].submitted_at
                &&& next.steps[i].evidence == plan.steps[i].evidence
                &&& next.review == PlanReviewState::Idle
                &&& next.next_review_at == plan.next_review_at
                &&& next.reason == joined(evidence, "\n"@)
                &&& kept_but_for(plan, next, i, now)
            }
        }),
{
    lemma_referenced(evidence);
    if let Some(plan) = runtime.plan {
        lemma_step_position(plan.steps, step_id);
        if let Some(k) = crate::model::step_position(plan.steps, step_id) {
            lemma_revised_forecast(
                crate::evidence::accepted_draft(plan, k, evidence, now),
                now,
            );
            if names(plan, step_id, i) {
                assert(k == i);
            }
        }
    }
}

/// Texts are joined one after the other, with the separator between each two.
pub proof fn law_joined_texts_keep_their_order(
    parts: Seq<Seq<char>>,
    last: Seq<char>,
    sep: Seq<char>,
)
    ensures
        joined(Seq::empty(), sep).len() == 0,
        joined(seq![last], sep) == last,
        parts.len() > 0 ==> joined(parts.push(last), sep) == joined(parts, sep) + sep + last,
{
    assert(parts.push(last).drop_last() =~= parts);
}

/// What the laws say of the state of a conversation, they say of its fields.
pub proof fn law_states_are_told_by_their_fields(state: SupervisorState, i: int)
    ensures
        state@.revision == state.revision,
        state@.implementer_thread_id is Some == state.implementer_thread_id is Some,
        state.implementer_thread_id matches Some(id) ==> state@.implementer_thread_id == Some(id@),
        state@.execution_id is Some == state.execution_id is Some,
        state.execution_id matches Some(id) ==> state@.execution_id == Some(id@),
        state@.step_id is Some == state.step_id is Some,
        state.step_id matches Some(id) ==> state@.step_id == Some(id@),
        state@.plan_path is Some == state.plan_path is Some,
        state.plan_path matches Some(path) ==> state@.plan_path == Some(path@),
        state@.pending_attention is Some == state.pending_attention is Some,
        state.pending_attention matches Some(text) ==> state@.pending_attention == Some(text@),
        state@.memory.len() == state.memory@.len(),
        0 <= i < state.memory@.len() ==> state@.memory[i] == state.memory@[i]@,
        state@.paused == state.paused,
        state@.updated_at == state.updated_at,
        state@.activity_sequence == state.activity_sequence,
        state@.total_tokens == state.total_tokens,
        state@.token_budget is Some == state.token_budget is Some,
        state.token_budget matches Some(budget) ==> state@.token_budget == Some(budget as int),
{
}

/// What the laws say of a runtime, they say of its fields.
pub proof fn law_runtimes_are_told_by_their_fields(
    runtime: PlanRuntime,
    messages: MessageState,
    turn: ExecutionTurn,
    i: int,
)
    ensures
        runtime@.thread_id == runtime.thread_id@,
        runtime@.restore_error is Some == runtime.restore_error is Some,
        runtime.restore_error matches Some(error) ==> runtime@.restore_error == Some(error@),
        runtime@.plan is Some == runtime.plan is Some,
        runtime.plan matches Some(plan) ==> runtime@.plan == Some(plan@),
        runtime@.state == runtime.state@,
        runtime@.implementer is Some == runtime.implementer is Some,
        runtime.implementer matches Some(epoch) ==> runtime@.implementer == Some(epoch@),
        runtime@.messages == runtime.messages@,
        runtime@.evidence_review is Some == runtime.evidence_review is Some,
        runtime.evidence_review matches Some((version, text)) ==> runtime@.evidence_review == Some(
            (version as int, text@),
        ),
        runtime@.active == runtime.active,
        runtime@.stopped == runtime.stopped,
        runtime@.activity_at == runtime.activity_at,
        runtime@.notified_at == runtime.notified_at,
        messages@.turn is Some == messages.turn is Some,
        messages.turn matches Some(current) ==> messages@.turn == Some(current@),
        messages@.generation == messages.generation,
        messages@.correction_attempted == messages.correction_attempted,
        messages@.feedback is Some == messages.feedback is Some,
        messages.feedback matches Some(text) ==> messages@.feedback == Some(text@),
        messages@.pending_deliveries.len() == messages.pending_deliveries@.len(),
        0 <= i < messages.pending_deliveries@.len() ==> messages@.pending_deliveries[i]
            == messages.pending_deliveries@[i]@,
        turn@.turn_id == turn.turn_id@,
        turn@.execution_id == turn.execution_id@,
        turn@.step_id == turn.step_id@,
        turn@.generation == turn.generation,
{
}

} // verus!
