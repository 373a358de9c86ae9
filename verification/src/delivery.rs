//! Message admission, execution identity and automatic report delivery.

use crate::message::message_views;
use crate::message::BatchView;
use crate::message::DirectedMessage;
use crate::message::MessageBatch;
use crate::message::MessageRecipient;
use crate::message::MessageView;
use crate::model::action_fits;
use crate::model::applied;
use crate::model::apply;
use crate::model::find_step;
use crate::model::plan_option;
use crate::model::step_position;
use crate::plan::ContinuousPlanning;
use crate::plan::PlanStepState;
use crate::plan::PlanView;
use crate::request::ActionView;
use crate::request::PlanAction;
use crate::request::PlanActionRequest;
use crate::runtime::batch_views;
use crate::runtime::MessageStateView;
use crate::runtime::PlanRuntime;
use crate::runtime::RuntimeError;
use crate::runtime::RuntimeView;
use crate::supervisor_state::StateView;
use crate::text::clone_text;
use crate::text::join_texts;
use crate::text::joined;
use crate::text::optional_text;
use crate::text::texts;
use vstd::prelude::*;
use vstd::string::StringExecFns;

verus! {

/// One batch and how far each of its targets has got. Each target is recorded separately: a
/// replay must not repeat an acknowledged side effect.
#[derive(Debug, PartialEq, Eq)]
pub struct Delivery {
    pub batch: MessageBatch,
    pub user_delivered: bool,
    pub implementer_delivered: bool,
    /// A submission was begun and its outcome is not recorded.
    pub in_flight: bool,
    pub error: Option<String>,
}

pub struct DeliveryView {
    pub batch: BatchView,
    pub user_delivered: bool,
    pub implementer_delivered: bool,
    pub in_flight: bool,
    pub error: Option<Seq<char>>,
}

impl View for Delivery {
    type V = DeliveryView;

    open spec fn view(&self) -> DeliveryView {
        DeliveryView {
            batch: self.batch@,
            user_delivered: self.user_delivered,
            implementer_delivered: self.implementer_delivered,
            in_flight: self.in_flight,
            error: optional_text(self.error),
        }
    }
}

impl DeliveryView {
    /// A batch that nobody has received.
    pub open spec fn fresh(batch: BatchView) -> DeliveryView {
        DeliveryView {
            batch,
            user_delivered: false,
            implementer_delivered: false,
            in_flight: false,
            error: None,
        }
    }
}

pub open spec fn delivery_option(delivery: Option<Delivery>) -> Option<DeliveryView> {
    match delivery {
        Some(delivery) => Some(delivery@),
        None => None,
    }
}

/// What the host does next for a batch.
#[derive(Clone, Copy, Debug, PartialEq, Eq, Structural)]
pub enum DispatchPhase {
    /// Make an Implementer resident and give it the settings of the conversation.
    Prepare,
    /// Save the delivery, which is now in flight.
    Mark,
    /// Store the revision in which the selected step has started.
    Store,
    /// Save the state.
    Save,
    /// Submit the input.
    Submit,
    /// Save the delivery, which the Implementer was too busy to take.
    Requeue,
    /// Freeze the plan because the delivery failed.
    Freeze,
    /// Save the outcome of the delivery.
    Close,
    /// Show what is visible.
    Done,
}

/// A batch on its way.
#[derive(Debug)]
pub struct Dispatch {
    pub delivery: Delivery,
    /// What the user gets to see.
    pub visible: MessageBatch,
    /// The revision in which the selected step has started, until it is stored.
    pub next: Option<ContinuousPlanning>,
    /// The input for the Implementer.
    pub input: String,
    pub phase: DispatchPhase,
}

pub struct DispatchView {
    pub delivery: DeliveryView,
    pub visible: BatchView,
    pub next: Option<PlanView>,
    pub input: Seq<char>,
    pub phase: DispatchPhase,
}

impl View for Dispatch {
    type V = DispatchView;

    open spec fn view(&self) -> DispatchView {
        DispatchView {
            delivery: self.delivery@,
            visible: self.visible@,
            next: plan_option(self.next),
            input: self.input@,
            phase: self.phase,
        }
    }
}

/// The reply of a conversation to automatic input. Only an idle conversation takes it.
#[derive(Debug, PartialEq, Eq)]
pub enum Submission {
    Started,
    NotIdle,
    Rejected { reason: String },
}

pub enum SubmissionView {
    Started,
    NotIdle,
    Rejected { reason: Seq<char> },
}

impl View for Submission {
    type V = SubmissionView;

    open spec fn view(&self) -> SubmissionView {
        match self {
            Submission::Started => SubmissionView::Started,
            Submission::NotIdle => SubmissionView::NotIdle,
            Submission::Rejected { reason } => SubmissionView::Rejected { reason: reason@ },
        }
    }
}

/// The messages for one recipient, in order.
pub open spec fn addressed(messages: Seq<MessageView>, recipient: MessageRecipient) -> Seq<
    MessageView,
>
    decreases messages.len(),
{
    if messages.len() == 0 {
        Seq::empty()
    } else if messages.last().recipient == recipient {
        addressed(messages.drop_last(), recipient).push(messages.last())
    } else {
        addressed(messages.drop_last(), recipient)
    }
}

/// One instruction as the Implementer reads it.
pub open spec fn instruction(message: MessageView) -> Seq<char> {
    "User task update "@ + message.id + ":\n"@ + message.text
}

pub open spec fn instructions(messages: Seq<MessageView>) -> Seq<Seq<char>> {
    addressed(messages, MessageRecipient::Implementer).map_values(
        |message: MessageView| instruction(message),
    )
}

/// The batch as the Implementer's own conversation presents it.
pub open spec fn incoming(batch: BatchView) -> BatchView {
    BatchView {
        sender: MessageRecipient::User,
        audience: MessageRecipient::Implementer,
        final_answer: false,
        messages: addressed(batch.messages, MessageRecipient::Implementer),
        ..batch
    }
}

/// What the Implementer is told of the plan before its instructions.
pub open spec fn assignment(plan: PlanView, i: int) -> Seq<char> {
    let definition = plan.steps[i].definition;
    "Objective: "@ + plan.objective + "\nOverall acceptance: "@ + plan.acceptance + "\nStep "@
        + definition.id + ": "@ + definition.title + "\nStep acceptance: "@ + definition.acceptance
        + "\nUser authorization is unchanged. Return your result as an ordinary final reply.\n"@
}

pub open spec fn delivery_error(batch: BatchView, error: Seq<char>) -> MessageView {
    MessageView {
        id: batch.id + ":delivery-error"@,
        recipient: MessageRecipient::User,
        text: "Continuous Planning paused: batch accepted, but Implementer delivery failed: "@
            + error
            + ". Inspect execution history before retrying; already-started work is not rolled back."@,
    }
}

pub open spec fn checkpoint_error(batch: BatchView, error: Seq<char>) -> MessageView {
    MessageView {
        id: batch.id + ":checkpoint-error"@,
        recipient: MessageRecipient::User,
        text: "Continuous Planning paused: delivery checkpoint failed: "@ + error
            + ". Inspect execution history before retrying; accepted work may already have started."@,
    }
}

pub const DELIVERY_FAILED_REASON: &'static str = "Implementer input delivery failed";

impl DispatchView {
    pub open spec fn closing(self) -> DispatchView {
        DispatchView {
            delivery: DeliveryView { user_delivered: true, ..self.delivery },
            phase: DispatchPhase::Close,
            ..self
        }
    }

    pub open spec fn failing(self, error: Seq<char>) -> DispatchView {
        DispatchView {
            delivery: DeliveryView { error: Some(error), ..self.delivery },
            phase: DispatchPhase::Freeze,
            ..self
        }
    }

    pub open spec fn showing(self, message: MessageView) -> DispatchView {
        DispatchView {
            visible: BatchView { messages: self.visible.messages.push(message), ..self.visible },
            ..self
        }
    }

    pub open spec fn in_phase(self, phase: DispatchPhase) -> DispatchView {
        DispatchView { phase, ..self }
    }

    /// The batch and the runtime after the host has done what the phase asks for. `error` is the
    /// host's explanation where it failed.
    pub open spec fn advanced(self, runtime: RuntimeView, error: Option<Seq<char>>, now: int) -> (
        DispatchView,
        RuntimeView,
    ) {
        match self.phase {
            DispatchPhase::Freeze => (
                if self.delivery.user_delivered {
                    self.closing()
                } else {
                    self.showing(
                        delivery_error(
                            self.delivery.batch,
                            match self.delivery.error {
                                Some(error) => error,
                                None => Seq::empty(),
                            },
                        ),
                    ).closing()
                },
                runtime,
            ),
            DispatchPhase::Close => {
                let settled = RuntimeView {
                    messages: MessageStateView {
                        correction_attempted: false,
                        feedback: None,
                        ..runtime.messages
                    },
                    ..runtime
                };
                match error {
                    None => (self.in_phase(DispatchPhase::Done), settled),
                    Some(error) => (
                        self.showing(checkpoint_error(self.delivery.batch, error)).in_phase(
                            DispatchPhase::Done,
                        ),
                        RuntimeView {
                            active: false,
                            state: StateView { paused: true, ..settled.state },
                            ..settled
                        },
                    ),
                }
            },
            _ => match error {
                Some(error) => (
                    self.failing(error),
                    RuntimeView { active: false, ..runtime },
                ),
                None => match self.phase {
                    DispatchPhase::Prepare => (
                        DispatchView {
                            delivery: DeliveryView { in_flight: true, ..self.delivery },
                            phase: DispatchPhase::Mark,
                            ..self
                        },
                        runtime,
                    ),
                    DispatchPhase::Mark => if self.next is Some {
                        (self.in_phase(DispatchPhase::Store), runtime)
                    } else {
                        (self.in_phase(DispatchPhase::Save), runtime.stamped(now))
                    },
                    DispatchPhase::Store => (
                        DispatchView { next: None, phase: DispatchPhase::Save, ..self },
                        RuntimeView {
                            plan: match self.next {
                                Some(next) => Some(next),
                                None => runtime.plan,
                            },
                            ..runtime
                        }.stamped(now),
                    ),
                    DispatchPhase::Save => (
                        self.in_phase(DispatchPhase::Submit),
                        RuntimeView { evidence_review: None, activity_at: now, ..runtime },
                    ),
                    DispatchPhase::Requeue => (self.closing(), runtime.queued(self.delivery.batch)),
                    _ => (self, runtime),
                },
            },
        }
    }

    /// The batch and the runtime after a submission. A rejected submission had no effect; one
    /// whose outcome is unknown stays in flight.
    pub open spec fn submitted(
        self,
        runtime: RuntimeView,
        outcome: Result<SubmissionView, Seq<char>>,
    ) -> (DispatchView, RuntimeView) {
        match outcome {
            Ok(SubmissionView::Started) => (
                DispatchView {
                    delivery: DeliveryView {
                        in_flight: false,
                        implementer_delivered: true,
                        error: None,
                        ..self.delivery
                    },
                    ..self
                }.closing(),
                runtime,
            ),
            Ok(SubmissionView::NotIdle) => (
                DispatchView {
                    delivery: DeliveryView { in_flight: false, error: None, ..self.delivery },
                    phase: DispatchPhase::Requeue,
                    ..self
                },
                runtime,
            ),
            Ok(SubmissionView::Rejected { reason }) => (
                self.failing("Implementer input was rejected: "@ + reason),
                RuntimeView { active: false, ..runtime },
            ),
            Err(error) => (self.failing(error), RuntimeView { active: false, ..runtime }),
        }
    }
}

impl RuntimeView {
    /// The batch waits for the Implementer, once.
    pub open spec fn queued(self, batch: BatchView) -> RuntimeView {
        let pending = self.messages.pending_deliveries;
        if exists|i: int| 0 <= i < pending.len() && (#[trigger] pending[i]).id == batch.id {
            self
        } else {
            RuntimeView {
                messages: MessageStateView {
                    pending_deliveries: pending.push(batch),
                    ..self.messages
                },
                ..self
            }
        }
    }

    /// Whether messages are admitted at all.
    pub open spec fn admission(self) -> Result<(), RuntimeError> {
        if self.stopped {
            Err(RuntimeError::Stopped)
        } else if self.restore_error is Some {
            Err(RuntimeError::Restore)
        } else {
            Ok(())
        }
    }

    /// The step that instructions are about, or why none can be sent.
    pub open spec fn instructed_step(self) -> Result<int, RuntimeError> {
        if !self.active {
            Err(RuntimeError::Inactive)
        } else if self.state.paused {
            Err(RuntimeError::Paused)
        } else if self.state.budget_reached() {
            Err(RuntimeError::BudgetReached)
        } else {
            match self.state.step_id {
                None => Err(RuntimeError::SelectBeforeSending),
                Some(id) => match self.plan {
                    None => Err(RuntimeError::NoPlan),
                    Some(plan) => match step_position(plan.steps, id) {
                        None => Err(RuntimeError::UnknownSelectedStep),
                        Some(i) => Ok(i),
                    },
                },
            }
        }
    }

    /// The revision in which the selected step has started, or none where it is running.
    pub open spec fn started_plan(self, i: int, now: int) -> Result<
        Option<PlanView>,
        RuntimeError,
    > {
        let plan = self.plan->0;
        if plan.steps[i].state == PlanStepState::Running {
            Ok(None)
        } else {
            match applied(
                self.plan,
                plan.version,
                ActionView::Start { step_id: plan.steps[i].definition.id },
                self.thread_id,
                now,
                Seq::empty(),
            ) {
                Ok(next) => Ok(Some(next)),
                Err(error) => Err(RuntimeError::Plan(error)),
            }
        }
    }

    /// The way of a batch, given what is recorded of it.
    pub open spec fn dispatched(self, batch: BatchView, stored: Option<DeliveryView>, now: int) -> Result<
        DispatchView,
        RuntimeError,
    > {
        let delivery = match stored {
            Some(delivery) => delivery,
            None => DeliveryView::fresh(batch),
        };
        let visible = if delivery.user_delivered {
            BatchView { messages: Seq::empty(), ..batch }
        } else {
            batch
        };
        let idle = DispatchView {
            delivery,
            visible,
            next: None,
            input: Seq::empty(),
            phase: DispatchPhase::Close,
        };
        match self.admission() {
            Err(error) => Err(error),
            Ok(()) => if delivery.batch != batch {
                Err(RuntimeError::SourceReused)
            } else if delivery.in_flight {
                Err(RuntimeError::OutcomeUnknown)
            } else if instructions(batch.messages).len() == 0 || delivery.implementer_delivered {
                Ok(idle.closing())
            } else {
                match self.instructed_step() {
                    Err(error) => Err(error),
                    Ok(i) => match self.started_plan(i, now) {
                        Err(error) => Err(error),
                        Ok(next) => Ok(
                            DispatchView {
                                next,
                                input: assignment(self.plan->0, i) + joined(
                                    instructions(batch.messages),
                                    "\n"@,
                                ),
                                phase: DispatchPhase::Prepare,
                                ..idle
                            },
                        ),
                    },
                }
            },
        }
    }

    /// The arithmetic of starting the selected step stays in range.
    pub open spec fn start_fits(self, now: int) -> bool {
        self.state.step_id matches Some(step_id) ==> (self.plan matches Some(plan) ==> action_fits(
            self.plan,
            plan.version,
            ActionView::Start { step_id },
            self.thread_id,
            now,
            Seq::empty(),
        ))
    }
}

fn instruction_text(message: &DirectedMessage) -> (text: String)
    ensures
        text@ == instruction(message@),
{
    let mut text = "User task update ".to_owned();
    text.append(message.id.as_str());
    text.append(":\n");
    text.append(message.text.as_str());
    text
}

/// The instructions in a batch, in order.
fn collect_instructions(messages: &Vec<DirectedMessage>) -> (found: Vec<String>)
    ensures
        texts(found@) == instructions(message_views(messages@)),
{
    let ghost views = message_views(messages@);
    let mut found: Vec<String> = Vec::new();
    let mut i: usize = 0;
    assert(texts(found@) =~= instructions(views.take(0)));
    while i < messages.len()
        invariant
            i <= messages@.len(),
            views == message_views(messages@),
            texts(found@) == instructions(views.take(i as int)),
        decreases messages.len() - i,
    {
        assert(views.take(i + 1).drop_last() =~= views.take(i as int));
        assert(views.take(i + 1).last() == messages@[i as int]@);
        if messages[i].recipient == MessageRecipient::Implementer {
            let ghost before = found@;
            found.push(instruction_text(&messages[i]));
            assert(texts(found@) =~= texts(before).push(instruction(messages@[i as int]@)));
            assert(instructions(views.take(i + 1)) =~= instructions(views.take(i as int)).push(
                instruction(messages@[i as int]@),
            ));
        }
        i += 1;
    }
    assert(views.take(i as int) =~= views);
    found
}

/// The batch as the Implementer's own conversation presents it.
pub fn incoming_batch(batch: &MessageBatch) -> (presented: MessageBatch)
    ensures
        presented@ == incoming(batch@),
{
    let ghost views = message_views(batch.messages@);
    let mut messages: Vec<DirectedMessage> = Vec::new();
    let mut i: usize = 0;
    assert(message_views(messages@) =~= addressed(
        views.take(0),
        MessageRecipient::Implementer,
    ));
    while i < batch.messages.len()
        invariant
            i <= batch.messages@.len(),
            views == message_views(batch.messages@),
            message_views(messages@) == addressed(
                views.take(i as int),
                MessageRecipient::Implementer,
            ),
        decreases batch.messages.len() - i,
    {
        assert(views.take(i + 1).drop_last() =~= views.take(i as int));
        assert(views.take(i + 1).last() == batch.messages@[i as int]@);
        if batch.messages[i].recipient == MessageRecipient::Implementer {
            let ghost before = messages@;
            messages.push(batch.messages[i].clone());
            assert(message_views(messages@) =~= message_views(before).push(
                batch.messages@[i as int]@,
            ));
        }
        i += 1;
    }
    assert(views.take(i as int) =~= views);
    MessageBatch {
        id: batch.id.clone(),
        sender: MessageRecipient::User,
        audience: MessageRecipient::Implementer,
        messages,
        final_answer: false,
    }
}

fn assignment_text(plan: &ContinuousPlanning, i: usize) -> (text: String)
    requires
        i < plan.steps@.len(),
    ensures
        text@ == assignment(plan@, i as int),
{
    assert(plan@.steps[i as int] == plan.steps@[i as int]@);
    let definition = &plan.steps[i].definition;
    let mut text = "Objective: ".to_owned();
    text.append(plan.objective.as_str());
    text.append("\nOverall acceptance: ");
    text.append(plan.acceptance.as_str());
    text.append("\nStep ");
    text.append(definition.id.as_str());
    text.append(": ");
    text.append(definition.title.as_str());
    text.append("\nStep acceptance: ");
    text.append(definition.acceptance.as_str());
    text.append(
        "\nUser authorization is unchanged. Return your result as an ordinary final reply.\n",
    );
    text
}

impl PlanRuntime {
    /// Whether messages are admitted at all.
    pub fn admits_messages(&self) -> (result: Result<(), RuntimeError>)
        ensures
            result == self@.admission(),
    {
        if self.stopped {
            Err(RuntimeError::Stopped)
        } else if self.restore_error.is_some() {
            Err(RuntimeError::Restore)
        } else {
            Ok(())
        }
    }

    fn instructed_step(&self) -> (result: Result<usize, RuntimeError>)
        ensures
            (match result {
                Ok(i) => Ok::<int, RuntimeError>(i as int),
                Err(error) => Err(error),
            }) == self@.instructed_step(),
            result matches Ok(i) ==> self.plan is Some && i < self.plan->0.steps@.len(),
    {
        if !self.active {
            return Err(RuntimeError::Inactive);
        }
        if self.state.paused {
            return Err(RuntimeError::Paused);
        }
        if self.state.is_budget_reached() {
            return Err(RuntimeError::BudgetReached);
        }
        match &self.state.step_id {
            None => Err(RuntimeError::SelectBeforeSending),
            Some(id) => match &self.plan {
                None => Err(RuntimeError::NoPlan),
                Some(plan) => match find_step(&plan.steps, id) {
                    None => Err(RuntimeError::UnknownSelectedStep),
                    Some(i) => Ok(i),
                },
            },
        }
    }

    fn started_plan(&self, i: usize, now: i64) -> (result: Result<
        Option<ContinuousPlanning>,
        RuntimeError,
    >)
        requires
            self.plan is Some,
            i < self.plan->0.steps@.len(),
            action_fits(
                self@.plan,
                self@.plan->0.version,
                (ActionView::Start { step_id: self@.plan->0.steps[i as int].definition.id }),
                self@.thread_id,
                now as int,
                Seq::empty(),
            ),
        ensures
            (match result {
                Ok(next) => Ok::<Option<PlanView>, RuntimeError>(plan_option(next)),
                Err(error) => Err(error),
            }) == self@.started_plan(i as int, now as int),
    {
        match &self.plan {
            None => Err(RuntimeError::NoPlan),
            Some(plan) => {
                assert(plan@.steps[i as int] == plan.steps@[i as int]@);
                if plan.steps[i].state == PlanStepState::Running {
                    return Ok(None);
                }
                let request = PlanActionRequest {
                    version: plan.version,
                    operation: PlanAction::Start { step_id: plan.steps[i].definition.id.clone() },
                };
                let no_id = String::new();
                assert(no_id@ =~= Seq::empty());
                match apply(
                    Some(plan.clone()),
                    request,
                    self.thread_id.as_str(),
                    now,
                    no_id.as_str(),
                ) {
                    Ok(next) => Ok(Some(next)),
                    Err(error) => Err(RuntimeError::Plan(error)),
                }
            },
        }
    }

    /// Admits a batch, given what is recorded of it. The result says what the host does first.
    pub fn dispatch(&self, batch: &MessageBatch, stored: Option<Delivery>, now: i64) -> (result:
        Result<Dispatch, RuntimeError>)
        requires
            self@.start_fits(now as int),
        ensures
            (match result {
                Ok(dispatch) => Ok::<DispatchView, RuntimeError>(dispatch@),
                Err(error) => Err(error),
            }) == self@.dispatched(batch@, delivery_option(stored), now as int),
    {
        match self.admits_messages() {
            Err(error) => {
                return Err(error);
            },
            Ok(()) => {},
        }
        let mut delivery = match stored {
            Some(delivery) => delivery,
            None => Delivery {
                batch: batch.clone(),
                user_delivered: false,
                implementer_delivered: false,
                in_flight: false,
                error: None,
            },
        };
        if !delivery.batch.same(batch) {
            return Err(RuntimeError::SourceReused);
        }
        if delivery.in_flight {
            return Err(RuntimeError::OutcomeUnknown);
        }
        let mut visible = batch.clone();
        if delivery.user_delivered {
            visible.messages = Vec::new();
            assert(visible@.messages =~= Seq::empty());
        }
        let found = collect_instructions(&batch.messages);
        assert(texts(found@).len() == found@.len());
        if found.len() == 0 || delivery.implementer_delivered {
            delivery.user_delivered = true;
            let input = String::new();
            assert(input@ =~= Seq::empty());
            return Ok(
                Dispatch { delivery, visible, next: None, input, phase: DispatchPhase::Close },
            );
        }
        let i: usize = match self.instructed_step() {
            Err(error) => {
                return Err(error);
            },
            Ok(i) => i,
        };
        proof {
            crate::model_laws::lemma_step_position(
                self@.plan->0.steps,
                self@.state.step_id->0,
            );
        }
        let next = match self.started_plan(i, now) {
            Err(error) => {
                return Err(error);
            },
            Ok(next) => next,
        };
        match &self.plan {
            None => Err(RuntimeError::NoPlan),
            Some(plan) => {
                let mut input = assignment_text(plan, i);
                input.append(join_texts(&found, "\n").as_str());
                Ok(Dispatch { delivery, visible, next, input, phase: DispatchPhase::Prepare })
            },
        }
    }

    /// Lets a batch wait for the Implementer, once.
    pub fn queue_delivery(&mut self, batch: &MessageBatch)
        ensures
            final(self)@ == old(self)@.queued(batch@),
    {
        let ghost pending = batch_views(self.messages.pending_deliveries@);
        let mut i: usize = 0;
        while i < self.messages.pending_deliveries.len()
            invariant
                i <= self.messages.pending_deliveries@.len(),
                pending == batch_views(self.messages.pending_deliveries@),
                forall|k: int| 0 <= k < i ==> (#[trigger] pending[k]).id != batch@.id,
            decreases self.messages.pending_deliveries.len() - i,
        {
            assert(pending[i as int] == self.messages.pending_deliveries@[i as int]@);
            if self.messages.pending_deliveries[i].id == batch.id {
                return;
            }
            i += 1;
        }
        self.messages.pending_deliveries.push_back(batch.clone());
        assert(batch_views(self.messages.pending_deliveries@) =~= pending.push(batch@));
    }

    /// Takes the oldest batch that waits, for one retry after the Implementer has become idle.
    pub fn retry_pending_delivery(&mut self) -> (batch: Option<MessageBatch>)
        ensures
            (match batch {
                Some(batch) => Some(batch@),
                None => None,
            }) == (if old(self)@.messages.pending_deliveries.len() == 0 {
                None
            } else {
                Some(old(self)@.messages.pending_deliveries[0])
            }),
            final(self)@ == (if batch is None {
                old(self)@
            } else {
                RuntimeView {
                    messages: MessageStateView {
                        pending_deliveries: old(
                            self,
                        )@.messages.pending_deliveries.drop_first(),
                        ..old(self)@.messages
                    },
                    ..old(self)@
                }
            }),
    {
        let ghost before = self.messages.pending_deliveries@;
        let batch = self.messages.pending_deliveries.pop_front();
        if batch.is_some() {
            assert(batch_views(self.messages.pending_deliveries@) =~= batch_views(
                before,
            ).drop_first());
        }
        batch
    }

    /// Puts a batch whose retry failed back in front.
    pub fn restore_pending_delivery(&mut self, batch: MessageBatch)
        ensures
            final(self)@ == (RuntimeView {
                messages: MessageStateView {
                    pending_deliveries: seq![batch@] + old(self)@.messages.pending_deliveries,
                    ..old(self)@.messages
                },
                ..old(self)@
            }),
    {
        let ghost before = self.messages.pending_deliveries@;
        let ghost view = batch@;
        self.messages.pending_deliveries.push_front(batch);
        assert(batch_views(self.messages.pending_deliveries@) =~= seq![view] + batch_views(
            before,
        ));
    }
}

fn show(visible: &mut MessageBatch, message: DirectedMessage)
    ensures
        final(visible)@ == (BatchView {
            messages: old(visible)@.messages.push(message@),
            ..old(visible)@
        }),
{
    let ghost before = visible.messages@;
    let ghost view = message@;
    visible.messages.push(message);
    assert(message_views(visible.messages@) =~= message_views(before).push(view));
}

fn delivery_error_message(batch: &MessageBatch, error: &str) -> (message: DirectedMessage)
    ensures
        message@ == delivery_error(batch@, error@),
{
    let mut id = batch.id.clone();
    id.append(":delivery-error");
    let mut text =
        "Continuous Planning paused: batch accepted, but Implementer delivery failed: ".to_owned();
    text.append(error);
    text.append(
        ". Inspect execution history before retrying; already-started work is not rolled back.",
    );
    DirectedMessage { id, recipient: MessageRecipient::User, text }
}

fn checkpoint_error_message(batch: &MessageBatch, error: &str) -> (message: DirectedMessage)
    ensures
        message@ == checkpoint_error(batch@, error@),
{
    let mut id = batch.id.clone();
    id.append(":checkpoint-error");
    let mut text = "Continuous Planning paused: delivery checkpoint failed: ".to_owned();
    text.append(error);
    text.append(
        ". Inspect execution history before retrying; accepted work may already have started.",
    );
    DirectedMessage { id, recipient: MessageRecipient::User, text }
}

pub open spec fn failure_text(outcome: Result<(), String>) -> Option<Seq<char>> {
    match outcome {
        Ok(()) => None,
        Err(error) => Some(error@),
    }
}

impl Dispatch {
    fn close(&mut self)
        ensures
            final(self)@ == old(self)@.closing(),
    {
        self.delivery.user_delivered = true;
        self.phase = DispatchPhase::Close;
    }

    fn fail(&mut self, runtime: &mut PlanRuntime, error: String)
        ensures
            final(self)@ == old(self)@.failing(error@),
            final(runtime)@ == (RuntimeView { active: false, ..old(runtime)@ }),
    {
        self.delivery.error = Some(error);
        runtime.active = false;
        self.phase = DispatchPhase::Freeze;
    }

    /// Goes on after the host has done what the phase asks for, or has failed to.
    pub fn advance(&mut self, runtime: &mut PlanRuntime, outcome: Result<(), String>, now: i64)
        requires
            old(self)@.phase != DispatchPhase::Submit,
            old(self)@.phase != DispatchPhase::Done,
            old(runtime)@.state.revision < i64::MAX,
        ensures
            (final(self)@, final(runtime)@) == old(self)@.advanced(
                old(runtime)@,
                failure_text(outcome),
                now as int,
            ),
    {
        if self.phase == DispatchPhase::Freeze {
            if !self.delivery.user_delivered {
                let error = match clone_text(&self.delivery.error) {
                    Some(error) => error,
                    None => {
                        let error = String::new();
                        assert(error@ =~= Seq::empty());
                        error
                    },
                };
                let message = delivery_error_message(&self.delivery.batch, error.as_str());
                show(&mut self.visible, message);
            }
            self.close();
            return;
        }
        if self.phase == DispatchPhase::Close {
            match outcome {
                Ok(()) => {},
                Err(error) => {
                    runtime.active = false;
                    runtime.state.paused = true;
                    let message = checkpoint_error_message(&self.delivery.batch, error.as_str());
                    show(&mut self.visible, message);
                },
            }
            runtime.messages.correction_attempted = false;
            runtime.messages.feedback = None;
            self.phase = DispatchPhase::Done;
            return;
        }
        match outcome {
            Err(error) => {
                self.fail(runtime, error);
                return;
            },
            Ok(()) => {},
        }
        match self.phase {
            DispatchPhase::Prepare => {
                self.delivery.in_flight = true;
                self.phase = DispatchPhase::Mark;
            },
            DispatchPhase::Mark => {
                if self.next.is_some() {
                    self.phase = DispatchPhase::Store;
                } else {
                    runtime.save_state(now);
                    self.phase = DispatchPhase::Save;
                }
            },
            DispatchPhase::Store => {
                let mut next: Option<ContinuousPlanning> = None;
                std::mem::swap(&mut next, &mut self.next);
                if next.is_some() {
                    runtime.plan = next;
                }
                runtime.save_state(now);
                self.phase = DispatchPhase::Save;
            },
            DispatchPhase::Save => {
                runtime.evidence_review = None;
                runtime.activity_at = now;
                self.phase = DispatchPhase::Submit;
            },
            _ => {
                runtime.queue_delivery(&self.delivery.batch);
                self.close();
            },
        }
    }

    /// Goes on after the submission.
    pub fn submitted(
        &mut self,
        runtime: &mut PlanRuntime,
        outcome: Result<Submission, String>,
    )
        requires
            old(self)@.phase == DispatchPhase::Submit,
        ensures
            (final(self)@, final(runtime)@) == old(self)@.submitted(
                old(runtime)@,
                match outcome {
                    Ok(submission) => Ok(submission@),
                    Err(error) => Err(error@),
                },
            ),
    {
        match outcome {
            Ok(Submission::Started) => {
                self.delivery.in_flight = false;
                self.delivery.implementer_delivered = true;
                self.delivery.error = None;
                self.close();
            },
            Ok(Submission::NotIdle) => {
                self.delivery.in_flight = false;
                self.delivery.error = None;
                self.phase = DispatchPhase::Requeue;
            },
            Ok(Submission::Rejected { reason }) => {
                let mut error = "Implementer input was rejected: ".to_owned();
                error.append(reason.as_str());
                self.fail(runtime, error);
            },
            Err(error) => {
                self.fail(runtime, error);
            },
        }
    }
}

} // verus!
