//! What deliveries and the Implementer slot promise.

use crate::delivery::Delivery;
use crate::delivery::DeliveryView;
use crate::delivery::Dispatch;
use crate::delivery::DispatchPhase;
use crate::delivery::DispatchView;
use crate::delivery::SubmissionView;
use crate::delivery::assignment;
use crate::delivery::checkpoint_error;
use crate::delivery::delivery_error;
use crate::delivery::incoming;
use crate::delivery::instructions;
use crate::message::BatchView;
use crate::message::DirectedMessage;
use crate::message::MessageBatch;
use crate::message::MessageRecipient;
use crate::message::MessageView;
use crate::model::applied;
use crate::model_laws::lemma_step_position;
use crate::plan::PlanStepState;
use crate::plan::PlanView;
use crate::request::ActionView;
use crate::request_laws::names;
use crate::runtime::MessageStateView;
use crate::runtime::RuntimeError;
use crate::runtime::RuntimeView;
use crate::runtime_laws::spent_up;
use crate::supervisor_state::StateView;
use crate::text::joined;
use vstd::prelude::*;

verus! {

impl DispatchView {
    /// What holds of a batch on its way, in every phase.
    pub open spec fn accounted(self) -> bool {
        &&& self.visible.id == self.delivery.batch.id
        &&& match self.phase {
            DispatchPhase::Prepare | DispatchPhase::Requeue => !self.delivery.in_flight
                && !self.delivery.implementer_delivered && instructions(
                self.delivery.batch.messages,
            ).len() > 0,
            DispatchPhase::Mark | DispatchPhase::Store | DispatchPhase::Save
            | DispatchPhase::Submit => self.delivery.in_flight
                && !self.delivery.implementer_delivered && instructions(
                self.delivery.batch.messages,
            ).len() > 0,
            DispatchPhase::Freeze => !self.delivery.implementer_delivered
                && self.delivery.error is Some,
            DispatchPhase::Close | DispatchPhase::Done => self.delivery.user_delivered,
        }
    }
}

/// Every admitted batch is accounted.
pub proof fn law_admitted_batches_are_accounted(
    runtime: RuntimeView,
    batch: BatchView,
    stored: Option<DeliveryView>,
    now: int,
)
    ensures
        runtime.dispatched(batch, stored, now) matches Ok(way) ==> way.accounted(),
{
}

/// A batch stays accounted whatever the host reports of its work, and it stays the same batch.
pub proof fn law_batches_stay_accounted(
    way: DispatchView,
    runtime: RuntimeView,
    error: Option<Seq<char>>,
    now: int,
)
    requires
        way.accounted(),
        way.phase != DispatchPhase::Submit,
        way.phase != DispatchPhase::Done,
    ensures
        way.advanced(runtime, error, now).0.accounted(),
        way.advanced(runtime, error, now).0.delivery.batch == way.delivery.batch,
{
}

/// A batch stays accounted whatever becomes of its submission, and it stays the same batch.
pub proof fn law_submitted_batches_stay_accounted(
    way: DispatchView,
    runtime: RuntimeView,
    outcome: Result<SubmissionView, Seq<char>>,
)
    requires
        way.accounted(),
        way.phase == DispatchPhase::Submit,
    ensures
        way.submitted(runtime, outcome).0.accounted(),
        way.submitted(runtime, outcome).0.delivery.batch == way.delivery.batch,
{
}

/// A submission is only made once the batch is recorded as in flight: the phases from that
/// record to the submission leave the delivery as it was recorded.
pub proof fn law_submissions_are_recorded_first(
    way: DispatchView,
    runtime: RuntimeView,
    error: Option<Seq<char>>,
    now: int,
)
    requires
        way.accounted(),
        way.phase != DispatchPhase::Submit,
        way.phase != DispatchPhase::Done,
    ensures
        ({
            let next = way.advanced(runtime, error, now).0;
            &&& next.phase == DispatchPhase::Submit ==> way.phase == DispatchPhase::Save
                && error is None && next.delivery == way.delivery && way.delivery.in_flight
            &&& next.phase == DispatchPhase::Save ==> (way.phase == DispatchPhase::Store
                || way.phase == DispatchPhase::Mark) && error is None && next.delivery
                == way.delivery && way.delivery.in_flight
            &&& next.phase == DispatchPhase::Store ==> way.phase == DispatchPhase::Mark
                && error is None && next.delivery == way.delivery && way.delivery.in_flight
        }),
{
}

/// Instructions that the Implementer has acknowledged are never sent again.
pub proof fn law_acknowledged_instructions_are_not_repeated(
    runtime: RuntimeView,
    batch: BatchView,
    stored: DeliveryView,
    now: int,
    error: Option<Seq<char>>,
)
    requires
        stored.implementer_delivered,
        runtime.dispatched(batch, Some(stored), now) is Ok,
    ensures
        ({
            let way = runtime.dispatched(batch, Some(stored), now)->Ok_0;
            &&& way.phase == DispatchPhase::Close
            &&& way.advanced(runtime, error, now).0.phase == DispatchPhase::Done
        }),
{
}

/// Messages that the user has seen are not shown again: a replay shows nothing of the batch.
pub proof fn law_shown_messages_are_not_repeated(
    runtime: RuntimeView,
    batch: BatchView,
    stored: DeliveryView,
    now: int,
)
    requires
        stored.user_delivered,
        runtime.dispatched(batch, Some(stored), now) is Ok,
    ensures
        runtime.dispatched(batch, Some(stored), now)->Ok_0.visible.messages.len() == 0,
{
}

/// What becomes visible of a batch only grows on its way, and only by the explanation of a
/// failure; the explanation of a failed delivery is left out where the user has seen the batch.
pub proof fn law_only_failures_are_added(
    way: DispatchView,
    runtime: RuntimeView,
    error: Option<Seq<char>>,
    now: int,
)
    requires
        way.accounted(),
        way.phase != DispatchPhase::Submit,
        way.phase != DispatchPhase::Done,
    ensures
        ({
            let next = way.advanced(runtime, error, now).0;
            ||| next.visible == way.visible
            ||| way.phase == DispatchPhase::Freeze && !way.delivery.user_delivered
                && next.visible.messages == way.visible.messages.push(
                delivery_error(way.delivery.batch, way.delivery.error->0),
            )
            ||| way.phase == DispatchPhase::Close && error is Some && next.visible.messages
                == way.visible.messages.push(checkpoint_error(way.delivery.batch, error->0))
        }),
{
}

/// Once a submission has been acknowledged and recorded, replaying the batch sends no
/// instruction and shows no message.
pub proof fn law_replays_repeat_nothing(
    way: DispatchView,
    runtime: RuntimeView,
    restarted: RuntimeView,
    now: int,
)
    requires
        way.accounted(),
        way.phase == DispatchPhase::Submit,
        restarted.admission() is Ok,
    ensures
        ({
            let recorded = way.submitted(runtime, Ok(SubmissionView::Started)).0.delivery;
            restarted.dispatched(way.delivery.batch, Some(recorded), now) == Ok::<
                DispatchView,
                RuntimeError,
            >(
                DispatchView {
                    delivery: recorded,
                    visible: BatchView { messages: Seq::empty(), ..way.delivery.batch },
                    next: None,
                    input: Seq::empty(),
                    phase: DispatchPhase::Close,
                },
            )
        }),
{
}

/// Where execution was interrupted between the record that a batch is in flight and the record
/// of its outcome, the batch is not sent a second time.
pub proof fn law_interrupted_submissions_are_refused(
    way: DispatchView,
    restarted: RuntimeView,
    now: int,
)
    requires
        way.accounted(),
        way.phase == DispatchPhase::Store || way.phase == DispatchPhase::Save || way.phase
            == DispatchPhase::Submit,
        restarted.admission() is Ok,
    ensures
        restarted.dispatched(way.delivery.batch, Some(way.delivery), now) == Err::<
            DispatchView,
            RuntimeError,
        >(RuntimeError::OutcomeUnknown),
{
}

/// A batch that found the Implementer busy waits, and its retry sends the same instructions
/// without showing a message again.
pub proof fn law_waiting_batches_are_retried(
    way: DispatchView,
    runtime: RuntimeView,
    idle: RuntimeView,
    i: int,
    now: int,
)
    requires
        way.accounted(),
        way.phase == DispatchPhase::Submit,
        idle.admission() is Ok,
        idle.instructed_step() == Ok::<int, RuntimeError>(i),
        idle.plan->0.steps[i].state == PlanStepState::Running,
    ensures
        ({
            let (busy, after) = way.submitted(runtime, Ok(SubmissionView::NotIdle));
            let (closing, waiting) = busy.advanced(after, None, now);
            let retried = idle.dispatched(way.delivery.batch, Some(closing.delivery), now);
            &&& exists|k: int|
                0 <= k < waiting.messages.pending_deliveries.len()
                    && #[trigger] waiting.messages.pending_deliveries[k].id
                    == way.delivery.batch.id
            &&& retried is Ok
            &&& retried->Ok_0.phase == DispatchPhase::Prepare
            &&& retried->Ok_0.next is None
            &&& retried->Ok_0.visible.messages.len() == 0
            &&& retried->Ok_0.input == assignment(idle.plan->0, i) + joined(
                instructions(way.delivery.batch.messages),
                "\n"@,
            )
        }),
{
    let (busy, after) = way.submitted(runtime, Ok(SubmissionView::NotIdle));
    let pending = after.messages.pending_deliveries;
    let batch = way.delivery.batch;
    let waiting = busy.advanced(after, None, now).1;
    if !(exists|k: int| 0 <= k < pending.len() && (#[trigger] pending[k]).id == batch.id) {
        assert(waiting.messages.pending_deliveries[pending.len() as int].id == batch.id);
    }
}

/// Where the outcome of a submission is unknown, the batch is refused until someone looks.
pub proof fn law_unknown_outcomes_are_refused(
    runtime: RuntimeView,
    batch: BatchView,
    stored: DeliveryView,
    now: int,
)
    requires
        runtime.admission() is Ok,
        stored.batch == batch,
        stored.in_flight,
    ensures
        runtime.dispatched(batch, Some(stored), now) == Err::<DispatchView, RuntimeError>(
            RuntimeError::OutcomeUnknown,
        ),
{
}

/// A source ID stands for one content.
pub proof fn law_sources_are_not_reused(
    runtime: RuntimeView,
    batch: BatchView,
    stored: DeliveryView,
    now: int,
)
    requires
        runtime.admission() is Ok,
        stored.batch != batch,
    ensures
        runtime.dispatched(batch, Some(stored), now) == Err::<DispatchView, RuntimeError>(
            RuntimeError::SourceReused,
        ),
{
}

/// Any failure before a batch is closed stops admission, and a failure once the batch is in
/// flight leaves it in flight in what is recorded.
pub proof fn law_failures_pause(
    way: DispatchView,
    runtime: RuntimeView,
    error: Seq<char>,
    now: int,
)
    requires
        way.accounted(),
        way.phase != DispatchPhase::Freeze,
        way.phase != DispatchPhase::Done,
        way.phase != DispatchPhase::Submit,
    ensures
        ({
            let (next, after) = way.advanced(runtime, Some(error), now);
            &&& !after.active
            &&& next.delivery.in_flight == way.delivery.in_flight
            &&& way.phase != DispatchPhase::Close ==> {
                &&& next.phase == DispatchPhase::Freeze
                &&& next.advanced(after, None, now).0.delivery.in_flight == way.delivery.in_flight
            }
        }),
{
}

/// A submission that failed or was refused stops admission and stays in flight.
pub proof fn law_failed_submissions_pause(
    way: DispatchView,
    runtime: RuntimeView,
    outcome: Result<SubmissionView, Seq<char>>,
)
    requires
        way.accounted(),
        way.phase == DispatchPhase::Submit,
        outcome is Err || outcome->Ok_0 is Rejected,
    ensures
        !way.submitted(runtime, outcome).1.active,
        way.submitted(runtime, outcome).0.delivery.in_flight,
        !way.submitted(runtime, outcome).0.delivery.implementer_delivered,
{
}

/// Instructions are only sent for a selected step, while execution is admitted, not paused and
/// within its budget.
pub proof fn law_instructions_need_admission(
    runtime: RuntimeView,
    batch: BatchView,
    stored: Option<DeliveryView>,
    now: int,
)
    requires
        runtime.dispatched(batch, stored, now) is Ok,
        runtime.dispatched(batch, stored, now)->Ok_0.phase == DispatchPhase::Prepare,
    ensures
        runtime.active,
        !runtime.stopped,
        !runtime.state.paused,
        !runtime.state.budget_reached(),
        runtime.state.step_id is Some,
        runtime.plan is Some,
        instructions(batch.messages).len() > 0,
{
}

/// Once execution is frozen, no instruction is sent and no selection admits any, until
/// execution is resumed.
pub proof fn law_frozen_executions_send_nothing(
    runtime: RuntimeView,
    frozen: Option<PlanView>,
    now: int,
    version: int,
    step_id: Seq<char>,
    running: bool,
    batch: BatchView,
    stored: Option<DeliveryView>,
)
    ensures
        ({
            let paused = runtime.after_freeze(frozen, now);
            &&& paused.dispatched(batch, stored, now) matches Ok(way) ==> way.phase
                != DispatchPhase::Prepare
            &&& paused.selected(version, step_id, running, now) matches Ok(after)
                ==> !after.active && after.state.paused
        }),
{
}

/// Once the budget is reached, no instruction is sent, no step is selected and no execution is
/// resumed.
pub proof fn law_spent_budgets_stop_execution(
    runtime: RuntimeView,
    now: int,
    version: int,
    step_id: Seq<char>,
    running: bool,
    batch: BatchView,
    stored: Option<DeliveryView>,
)
    requires
        runtime.state.budget_reached(),
    ensures
        runtime.dispatched(batch, stored, now) matches Ok(way) ==> way.phase
            != DispatchPhase::Prepare,
        runtime.selected(version, step_id, running, now) is Err,
        runtime.resumed(now) is Err,
{
}

/// A batch without instructions needs no Implementer and starts nothing.
pub proof fn law_user_messages_need_no_execution(
    runtime: RuntimeView,
    batch: BatchView,
    now: int,
)
    requires
        runtime.admission() is Ok,
        instructions(batch.messages).len() == 0,
    ensures
        runtime.dispatched(batch, None, now) == Ok::<DispatchView, RuntimeError>(
            DispatchView {
                delivery: DeliveryView { user_delivered: true, ..DeliveryView::fresh(batch) },
                visible: batch,
                next: None,
                input: Seq::empty(),
                phase: DispatchPhase::Close,
            },
        ),
{
}

/// A selection starts nothing: the plan and its clocks stay as they are, and a paused execution
/// stays paused and inactive.
pub proof fn law_selection_starts_nothing(
    runtime: RuntimeView,
    version: int,
    step_id: Seq<char>,
    running: bool,
    now: int,
)
    requires
        runtime.selected(version, step_id, running, now) is Ok,
    ensures
        ({
            let after = runtime.selected(version, step_id, running, now)->Ok_0;
            &&& after.plan == runtime.plan
            &&& after.state.step_id == Some(step_id)
            &&& after.state.paused == runtime.state.paused
            &&& after.active == !runtime.state.paused
            &&& after.evidence_review is None
            &&& after.implementer == runtime.implementer
        }),
{
}

/// A freeze stops every clock and loses no time: from then on a step's elapsed time is what it
/// was at the freeze, at whatever time one asks. A step whose clock did not run is untouched.
pub proof fn law_freezing_keeps_time(
    runtime: RuntimeView,
    plan: PlanView,
    reason: Seq<char>,
    now: int,
    at: int,
    i: int,
)
    requires
        runtime.plan == Some(plan),
        0 <= i < plan.steps.len(),
        i64::MIN <= plan.steps[i].elapsed_seconds <= i64::MAX,
    ensures
        ({
            let after = runtime.after_freeze(runtime.frozen_plan(reason, now), now);
            &&& after.plan is Some
            &&& after.state.paused
            &&& after.plan->0.version == plan.version + 1
            &&& after.plan->0.steps.len() == plan.steps.len()
            &&& after.plan->0.steps[i].running_since is None
            &&& after.plan->0.steps[i].elapsed_at(at) == plan.steps[i].elapsed_at(now)
            &&& plan.steps[i].running_since is None ==> after.plan->0.steps[i] == plan.steps[i]
        }),
{
}

/// Freezing a frozen plan changes no step.
pub proof fn law_freezing_twice_changes_no_step(plan: PlanView, now: int, later: int)
    ensures
        plan.halted(now).halted(later).steps == plan.halted(now).steps,
{
    assert(plan.halted(now).halted(later).steps =~= plan.halted(now).steps);
}

/// Where no recorded time or estimate is negative, execution can be frozen at any time.
pub proof fn law_steady_plans_can_be_frozen(
    runtime: RuntimeView,
    plan: PlanView,
    reason: Seq<char>,
    now: int,
)
    requires
        runtime.plan == Some(plan),
        plan.steady(),
        plan.version < i64::MAX,
    ensures
        runtime.freeze_fits(reason, now),
{
    let halted = plan.halted(now);
    assert forall|i: int| 0 <= i < halted.steps.len() implies #[trigger] halted.steps[i].remaining_fits(
        now,
    ) by {
        assert(halted.steps[i] == plan.steps[i].halted(now));
    }
}

/// Execution is resumed only where a step is selected and the budget allows it.
pub proof fn law_resuming_needs_step_and_budget(runtime: RuntimeView, now: int)
    ensures
        runtime.resumed(now) is Ok <==> (!runtime.stopped && runtime.state.step_id is Some
            && !runtime.state.budget_reached()),
        runtime.resumed(now) matches Ok(after) ==> after.active && !after.state.paused && after.plan
            == runtime.plan,
{
}

/// What a batch shows the user: all of it, or nothing where the user has seen it.
pub open spec fn to_be_shown(batch: BatchView, seen: bool, visible: BatchView) -> bool {
    &&& visible.id == batch.id
    &&& visible.sender == batch.sender
    &&& visible.audience == batch.audience
    &&& visible.final_answer == batch.final_answer
    &&& seen ==> visible.messages.len() == 0
    &&& !seen ==> visible.messages == batch.messages
}

/// Whether a batch says something to the Implementer.
pub open spec fn instructs(batch: BatchView) -> bool {
    exists|i: int|
        0 <= i < batch.messages.len() && (#[trigger] batch.messages[i]).recipient
            == MessageRecipient::Implementer
}

proof fn lemma_instructs(messages: Seq<MessageView>)
    ensures
        (instructions(messages).len() > 0) == exists|i: int|
            0 <= i < messages.len() && (#[trigger] messages[i]).recipient
                == MessageRecipient::Implementer,
    decreases messages.len(),
{
    if messages.len() > 0 {
        let rest = messages.drop_last();
        lemma_instructs(rest);
        assert(forall|i: int| 0 <= i < rest.len() ==> #[trigger] rest[i] == messages[i]);
        assert forall|i: int| 0 <= i < messages.len() - 1 implies #[trigger] messages[i]
            == rest[i] by {}
        if messages.last().recipient == MessageRecipient::Implementer {
            assert(messages[messages.len() - 1].recipient == MessageRecipient::Implementer);
        }
    }
}

/// A batch is turned away by a conversation that is stopped or could not be restored, where its
/// ID was used for another batch, and while the outcome of an earlier submission is not known.
pub proof fn law_unanswerable_batches_are_turned_away(
    runtime: RuntimeView,
    batch: BatchView,
    stored: Option<DeliveryView>,
    now: int,
)
    ensures
        ({
            let result = runtime.dispatched(batch, stored, now);
            let open = !runtime.stopped && runtime.restore_error is None;
            &&& runtime.stopped ==> result == Err::<DispatchView, RuntimeError>(
                RuntimeError::Stopped,
            )
            &&& !runtime.stopped && runtime.restore_error is Some ==> result == Err::<
                DispatchView,
                RuntimeError,
            >(RuntimeError::Restore)
            &&& open && stored is Some && stored->0.batch != batch ==> result == Err::<
                DispatchView,
                RuntimeError,
            >(RuntimeError::SourceReused)
            &&& open && stored is Some && stored->0.batch == batch && stored->0.in_flight ==> result
                == Err::<DispatchView, RuntimeError>(RuntimeError::OutcomeUnknown)
            &&& runtime.admission() is Ok == open
        }),
{
}

/// A batch that says nothing to the Implementer, or whose instructions were delivered, needs no
/// execution: what the user has not seen of it is shown, and the user counts as told.
pub proof fn law_batches_without_instructions_are_shown(
    runtime: RuntimeView,
    batch: BatchView,
    stored: Option<DeliveryView>,
    now: int,
)
    requires
        !runtime.stopped,
        runtime.restore_error is None,
        stored matches Some(delivery) ==> delivery.batch == batch && !delivery.in_flight,
        !instructs(batch) || (stored is Some && stored->0.implementer_delivered),
    ensures
        ({
            let result = runtime.dispatched(batch, stored, now);
            let next = result->Ok_0;
            &&& result is Ok
            &&& next.phase == DispatchPhase::Close
            &&& next.next is None
            &&& next.delivery.batch == batch
            &&& next.delivery.user_delivered
            &&& !next.delivery.in_flight
            &&& to_be_shown(batch, stored is Some && stored->0.user_delivered, next.visible)
            &&& stored is None ==> !next.delivery.implementer_delivered
                && next.delivery.error is None
            &&& stored matches Some(delivery) ==> next.delivery.implementer_delivered
                == delivery.implementer_delivered && next.delivery.error == delivery.error
        }),
{
    lemma_instructs(batch.messages);
}

/// What the Implementer is told of a step before its instructions.
pub open spec fn told(plan: PlanView, i: int) -> Seq<char> {
    "Objective: "@ + plan.objective + "\nOverall acceptance: "@ + plan.acceptance + "\nStep "@
        + plan.steps[i].definition.id + ": "@ + plan.steps[i].definition.title
        + "\nStep acceptance: "@ + plan.steps[i].definition.acceptance
        + "\nUser authorization is unchanged. Return your result as an ordinary final reply.\n"@
}

/// Instructions are for the selected step of a conversation that is active, not paused and has
/// tokens left; the step is running or is started. The Implementer is told the task, the step and
/// then the instructions; nothing is recorded before it is resident. The first condition that
/// does not hold is the refusal.
pub proof fn law_instructions_are_for_the_selected_step(
    runtime: RuntimeView,
    batch: BatchView,
    stored: Option<DeliveryView>,
    now: int,
    i: int,
)
    requires
        !runtime.stopped,
        runtime.restore_error is None,
        stored matches Some(delivery) ==> delivery.batch == batch && !delivery.in_flight
            && !delivery.implementer_delivered,
        instructs(batch),
    ensures
        ({
            let result = runtime.dispatched(batch, stored, now);
            let next = result->Ok_0;
            let admitted = runtime.active && !runtime.state.paused && !spent_up(runtime.state);
            let plan = runtime.plan->0;
            let step_id = runtime.state.step_id->0;
            let chosen = admitted && runtime.state.step_id is Some && runtime.plan is Some;
            let start = applied(
                runtime.plan,
                plan.version,
                ActionView::Start { step_id },
                runtime.thread_id,
                now,
                Seq::empty(),
            );
            &&& !runtime.active ==> result == Err::<DispatchView, RuntimeError>(
                RuntimeError::Inactive,
            )
            &&& runtime.active && runtime.state.paused ==> result == Err::<
                DispatchView,
                RuntimeError,
            >(RuntimeError::Paused)
            &&& runtime.active && !runtime.state.paused && spent_up(runtime.state) ==> result
                == Err::<DispatchView, RuntimeError>(RuntimeError::BudgetReached)
            &&& admitted && runtime.state.step_id is None ==> result == Err::<
                DispatchView,
                RuntimeError,
            >(RuntimeError::SelectBeforeSending)
            &&& admitted && runtime.state.step_id is Some && runtime.plan is None ==> result
                == Err::<DispatchView, RuntimeError>(RuntimeError::NoPlan)
            &&& chosen && (forall|j: int|
                0 <= j < plan.steps.len() ==> (#[trigger] plan.steps[j]).definition.id != step_id)
                ==> result == Err::<DispatchView, RuntimeError>(RuntimeError::UnknownSelectedStep)
            &&& chosen && names(plan, step_id, i) && plan.steps[i].state != PlanStepState::Running
                && start is Err ==> result == Err::<DispatchView, RuntimeError>(
                RuntimeError::Plan(start->Err_0),
            )
            &&& chosen && names(plan, step_id, i) && (plan.steps[i].state == PlanStepState::Running
                || start is Ok) ==> {
                &&& result is Ok
                &&& next.phase == DispatchPhase::Prepare
                &&& plan.steps[i].state == PlanStepState::Running ==> next.next is None
                &&& plan.steps[i].state != PlanStepState::Running ==> next.next == Some(
                    start->Ok_0,
                )
                &&& next.input == told(plan, i) + joined(instructions(batch.messages), "\n"@)
                &&& next.delivery.batch == batch
                &&& !next.delivery.in_flight
                &&& !next.delivery.implementer_delivered
                &&& stored is None ==> !next.delivery.user_delivered
                    && next.delivery.error is None
                &&& stored matches Some(delivery) ==> next.delivery == delivery
                &&& to_be_shown(batch, stored is Some && stored->0.user_delivered, next.visible)
            }
        }),
{
    lemma_instructs(batch.messages);
    if let Some(plan) = runtime.plan {
        if let Some(step_id) = runtime.state.step_id {
            lemma_step_position(plan.steps, step_id);
        }
    }
}

/// The instructions of a batch are its messages for the Implementer in their order, each after
/// its ID; the Implementer's own conversation presents just these.
pub proof fn law_instructions_keep_their_order(
    messages: Seq<MessageView>,
    message: MessageView,
    batch: BatchView,
)
    ensures
        instructions(Seq::empty()).len() == 0,
        message.recipient == MessageRecipient::Implementer ==> instructions(messages.push(message))
            == instructions(messages).push(
            "User task update "@ + message.id + ":\n"@ + message.text,
        ),
        message.recipient != MessageRecipient::Implementer ==> instructions(messages.push(message))
            == instructions(messages),
        ({
            let before = incoming(BatchView { messages, ..batch });
            let after = incoming(BatchView { messages: messages.push(message), ..batch });
            &&& incoming(BatchView { messages: Seq::empty(), ..batch }).messages.len() == 0
            &&& message.recipient == MessageRecipient::Implementer ==> after.messages
                == before.messages.push(message)
            &&& message.recipient != MessageRecipient::Implementer ==> after.messages
                == before.messages
            &&& after.id == batch.id
            &&& after.sender == MessageRecipient::User
            &&& after.audience == MessageRecipient::Implementer
            &&& !after.final_answer
        }),
{
    assert(messages.push(message).drop_last() =~= messages);
    if message.recipient == MessageRecipient::Implementer {
        assert(instructions(messages.push(message)) =~= instructions(messages).push(
            "User task update "@ + message.id + ":\n"@ + message.text,
        ));
    }
}

/// Nothing of a batch on its way is changed but what a phase is about.
pub open spec fn same_way(before: DispatchView, after: DispatchView) -> bool {
    &&& after.delivery.batch == before.delivery.batch
    &&& after.delivery.implementer_delivered == before.delivery.implementer_delivered
    &&& after.input == before.input
    &&& after.visible.id == before.visible.id
    &&& after.visible.sender == before.visible.sender
    &&& after.visible.audience == before.visible.audience
    &&& after.visible.final_answer == before.visible.final_answer
}

/// The way of a batch whose phases succeed: once the Implementer is resident the delivery is
/// recorded as in flight, then the started step is stored, then the state is saved, and only then
/// the input is submitted. Each phase changes just that.
pub proof fn law_deliveries_are_recorded_before_they_are_made(
    dispatch: DispatchView,
    runtime: RuntimeView,
    now: int,
)
    ensures
        ({
            let (next, after) = dispatch.advanced(runtime, None, now);
            &&& same_way(dispatch, next)
            &&& dispatch.phase != DispatchPhase::Freeze ==> next.visible == dispatch.visible
            &&& dispatch.phase == DispatchPhase::Prepare ==> next.phase == DispatchPhase::Mark
                && next.delivery.in_flight && next.delivery.user_delivered
                == dispatch.delivery.user_delivered && next.delivery.error
                == dispatch.delivery.error && next.next == dispatch.next && after == runtime
            &&& dispatch.phase == DispatchPhase::Mark ==> next.delivery == dispatch.delivery
                && next.next == dispatch.next && if dispatch.next is Some {
                next.phase == DispatchPhase::Store && after == runtime
            } else {
                next.phase == DispatchPhase::Save && saved_once(runtime, after, now) && after.plan
                    == runtime.plan
            }
            &&& dispatch.phase == DispatchPhase::Store ==> next.phase == DispatchPhase::Save
                && next.delivery == dispatch.delivery && next.next is None && saved_once(
                runtime,
                after,
                now,
            ) && after.plan == (if dispatch.next is Some {
                dispatch.next
            } else {
                runtime.plan
            })
            &&& dispatch.phase == DispatchPhase::Save ==> {
                &&& next.phase == DispatchPhase::Submit
                &&& next.delivery == dispatch.delivery
                &&& next.next == dispatch.next
                &&& after.evidence_review is None
                &&& after.activity_at == now
                &&& after.plan == runtime.plan && after.state == runtime.state && after.messages
                    == runtime.messages && after.active == runtime.active && after.implementer
                    == runtime.implementer && after.stopped == runtime.stopped
            }
            &&& dispatch.phase == DispatchPhase::Requeue ==> next.phase == DispatchPhase::Close
                && next.delivery.user_delivered && next.delivery.in_flight
                == dispatch.delivery.in_flight && next.delivery.error == dispatch.delivery.error
                && after == runtime.queued(dispatch.delivery.batch)
            &&& dispatch.phase == DispatchPhase::Close ==> next.phase == DispatchPhase::Done
                && next.delivery == dispatch.delivery && !after.messages.correction_attempted
                && after.messages.feedback is None && after.active == runtime.active && after.state
                == runtime.state && after.plan == runtime.plan
                && after.messages.pending_deliveries == runtime.messages.pending_deliveries
                && after.messages.turn == runtime.messages.turn && after.messages.generation
                == runtime.messages.generation
            &&& dispatch.phase == DispatchPhase::Done || dispatch.phase == DispatchPhase::Submit
                ==> next == dispatch && after == runtime
        }),
{
}

/// The runtime after one more save of its state, but for the plan.
pub open spec fn saved_once(before: RuntimeView, after: RuntimeView, now: int) -> bool {
    &&& after.state.revision == before.state.revision + 1
    &&& after.state.updated_at == now
    &&& after.state == (StateView {
        revision: after.state.revision,
        updated_at: now,
        ..before.state
    })
    &&& after == (RuntimeView { state: after.state, plan: after.plan, ..before })
}

/// A phase that fails before the end stops admission and freezes the plan; the user is then told
/// why, once. A failure to record the end is shown too and pauses the conversation.
pub proof fn law_failed_phases_stop_and_tell(
    dispatch: DispatchView,
    runtime: RuntimeView,
    error: Seq<char>,
    now: int,
)
    ensures
        ({
            let (next, after) = dispatch.advanced(runtime, Some(error), now);
            let early = dispatch.phase != DispatchPhase::Freeze && dispatch.phase
                != DispatchPhase::Close;
            &&& early ==> {
                &&& next.phase == DispatchPhase::Freeze
                &&& next.delivery.error == Some(error)
                &&& next.delivery.in_flight == dispatch.delivery.in_flight
                &&& next.delivery.user_delivered == dispatch.delivery.user_delivered
                &&& next.visible == dispatch.visible
                &&& next.next == dispatch.next
                &&& same_way(dispatch, next)
                &&& !after.active
                &&& after == (RuntimeView { active: false, ..runtime })
            }
            &&& dispatch.phase == DispatchPhase::Close ==> {
                &&& next.phase == DispatchPhase::Done
                &&& next.delivery == dispatch.delivery
                &&& same_way(dispatch, next)
                &&& next.visible.messages.len() == dispatch.visible.messages.len() + 1
                &&& next.visible.messages.last().recipient == MessageRecipient::User
                &&& next.visible.messages.last().id == dispatch.delivery.batch.id
                    + ":checkpoint-error"@
                &&& next.visible.messages.last().text
                    == "Continuous Planning paused: delivery checkpoint failed: "@ + error
                    + ". Inspect execution history before retrying; accepted work may already have started."@
                &&& next.visible.messages.drop_last() == dispatch.visible.messages
                &&& !after.active
                &&& after.state.paused
                &&& after.plan == runtime.plan
                &&& !after.messages.correction_attempted
                &&& after.messages.feedback is None
            }
        }),
{
    let (next, after) = dispatch.advanced(runtime, Some(error), now);
    assert(dispatch.phase == DispatchPhase::Close ==> next.visible.messages.drop_last()
        =~= dispatch.visible.messages);
}

/// After a freeze for a failed delivery the user is told what failed, unless the user was told of
/// the batch before; then the outcome is recorded.
pub proof fn law_failed_deliveries_are_told_once(
    dispatch: DispatchView,
    runtime: RuntimeView,
    error: Option<Seq<char>>,
    now: int,
)
    requires
        dispatch.phase == DispatchPhase::Freeze,
    ensures
        ({
            let (next, after) = dispatch.advanced(runtime, error, now);
            &&& after == runtime
            &&& next.phase == DispatchPhase::Close
            &&& next.delivery.user_delivered
            &&& next.delivery.in_flight == dispatch.delivery.in_flight
            &&& next.delivery.error == dispatch.delivery.error
            &&& same_way(dispatch, next)
            &&& dispatch.delivery.user_delivered ==> next.visible == dispatch.visible
            &&& !dispatch.delivery.user_delivered ==> {
                &&& next.visible.messages.len() == dispatch.visible.messages.len() + 1
                &&& next.visible.messages.drop_last() == dispatch.visible.messages
                &&& next.visible.messages.last().recipient == MessageRecipient::User
                &&& next.visible.messages.last().id == dispatch.delivery.batch.id
                    + ":delivery-error"@
                &&& dispatch.delivery.error matches Some(failure) ==> next.visible.messages.last(
                ).text
                    == "Continuous Planning paused: batch accepted, but Implementer delivery failed: "@
                    + failure
                    + ". Inspect execution history before retrying; already-started work is not rolled back."@
            }
        }),
{
    let (next, after) = dispatch.advanced(runtime, error, now);
    assert(!dispatch.delivery.user_delivered ==> next.visible.messages.drop_last()
        =~= dispatch.visible.messages);
}

/// The outcome of a submission: one that was taken is delivered and over, one that a busy
/// Implementer did not take waits, one that was rejected or whose outcome is not known stays in
/// flight, and stops admission with its reason.
pub proof fn law_submissions_are_recorded_as_they_went(
    dispatch: DispatchView,
    runtime: RuntimeView,
    outcome: Result<SubmissionView, Seq<char>>,
)
    ensures
        ({
            let (next, after) = dispatch.submitted(runtime, outcome);
            &&& next.visible == dispatch.visible
            &&& next.input == dispatch.input
            &&& next.next == dispatch.next
            &&& next.delivery.batch == dispatch.delivery.batch
            &&& outcome matches Ok(SubmissionView::Started) ==> next.phase == DispatchPhase::Close
                && next.delivery.implementer_delivered && !next.delivery.in_flight
                && next.delivery.user_delivered && next.delivery.error is None && after == runtime
            &&& outcome matches Ok(SubmissionView::NotIdle) ==> next.phase
                == DispatchPhase::Requeue && next.delivery.implementer_delivered
                == dispatch.delivery.implementer_delivered && !next.delivery.in_flight
                && next.delivery.user_delivered == dispatch.delivery.user_delivered
                && next.delivery.error is None && after == runtime
            &&& outcome matches Ok(SubmissionView::Rejected { reason }) ==> next.delivery.error
                == Some("Implementer input was rejected: "@ + reason)
            &&& outcome matches Err(error) ==> next.delivery.error == Some(error)
            &&& (outcome is Err || outcome->Ok_0 is Rejected) ==> next.phase
                == DispatchPhase::Freeze && next.delivery.in_flight == dispatch.delivery.in_flight
                && next.delivery.implementer_delivered == dispatch.delivery.implementer_delivered
                && next.delivery.user_delivered == dispatch.delivery.user_delivered && after == (
            RuntimeView { active: false, ..runtime })
        }),
{
}

/// A batch waits once, behind those that wait already.
pub proof fn law_batches_wait_once_and_in_order(runtime: RuntimeView, batch: BatchView)
    ensures
        ({
            let pending = runtime.messages.pending_deliveries;
            let known = exists|i: int|
                0 <= i < pending.len() && (#[trigger] pending[i]).id == batch.id;
            &&& known ==> runtime.queued(batch) == runtime
            &&& !known ==> runtime.queued(batch).messages.pending_deliveries == pending.push(batch)
            &&& runtime.queued(batch) == (RuntimeView {
                messages: MessageStateView {
                    pending_deliveries: runtime.queued(batch).messages.pending_deliveries,
                    ..runtime.messages
                },
                ..runtime
            })
        }),
{
}

/// What the laws say of a message, a batch, a delivery or a batch on its way, they say of its
/// fields.
pub proof fn law_deliveries_are_told_by_their_fields(
    message: DirectedMessage,
    batch: MessageBatch,
    delivery: Delivery,
    dispatch: Dispatch,
    i: int,
)
    ensures
        message@.id == message.id@,
        message@.recipient == message.recipient,
        message@.text == message.text@,
        batch@.id == batch.id@,
        batch@.sender == batch.sender,
        batch@.audience == batch.audience,
        batch@.final_answer == batch.final_answer,
        batch@.messages.len() == batch.messages@.len(),
        0 <= i < batch.messages@.len() ==> batch@.messages[i] == batch.messages@[i]@,
        delivery@.batch == delivery.batch@,
        delivery@.user_delivered == delivery.user_delivered,
        delivery@.implementer_delivered == delivery.implementer_delivered,
        delivery@.in_flight == delivery.in_flight,
        delivery@.error is Some == delivery.error is Some,
        delivery.error matches Some(error) ==> delivery@.error == Some(error@),
        dispatch@.delivery == dispatch.delivery@,
        dispatch@.visible == dispatch.visible@,
        dispatch@.next is Some == dispatch.next is Some,
        dispatch.next matches Some(plan) ==> dispatch@.next == Some(plan@),
        dispatch@.input == dispatch.input@,
        dispatch@.phase == dispatch.phase,
{
}

} // verus!
