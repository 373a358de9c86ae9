use continuous_planning::attention::ImplementerReply;
use continuous_planning::attention::ReportStep;
use continuous_planning::attention::MAX_ATTENTION;
use continuous_planning::attention::TRUNCATED;
use continuous_planning::binding::implementer_settings;
use continuous_planning::binding::AgentStatus;
use continuous_planning::binding::ImplementerBinding;
use continuous_planning::binding::ImplementerSettings;
use continuous_planning::binding::Presentation;
use continuous_planning::binding::TurnStep;
use continuous_planning::delivery::incoming_batch;
use continuous_planning::delivery::Delivery;
use continuous_planning::delivery::Dispatch;
use continuous_planning::delivery::DispatchPhase;
use continuous_planning::delivery::Submission;
use continuous_planning::lifecycle::fork_supervisor;
use continuous_planning::lifecycle::turn_report;
use continuous_planning::lifecycle::ForkStep;
use continuous_planning::lifecycle::ReadyStep;
use continuous_planning::lifecycle::ThreadStart;
use continuous_planning::lifecycle::TurnStepAfter;
use continuous_planning::message::DirectedMessage;
use continuous_planning::message::MessageBatch;
use continuous_planning::message::MessageRecipient;
use continuous_planning::model::PlanError;
use continuous_planning::plan::ContinuousPlanning;
use continuous_planning::plan::PlanReviewState;
use continuous_planning::plan::PlanStage;
use continuous_planning::plan::PlanStepDefinition;
use continuous_planning::plan::PlanStepState;
use continuous_planning::plan::TimedPlanStep;
use continuous_planning::request::PlanAction;
use continuous_planning::request::PlanActionRequest;
use continuous_planning::runtime::ExecutionTurn;
use continuous_planning::runtime::PlanRuntime;
use continuous_planning::runtime::RuntimeError;
use continuous_planning::runtime::WatchTick;
use continuous_planning::supervisor_state::SupervisorState;
use std::collections::VecDeque;

fn step(id: &str, state: PlanStepState) -> TimedPlanStep {
    TimedPlanStep {
        definition: PlanStepDefinition {
            id: id.to_string(),
            stage_id: "S01".to_string(),
            title: format!("Step {id}"),
            acceptance: "Output captured".to_string(),
            dependencies: vec![],
            estimate_seconds: 60,
        },
        state,
        owner: "root".to_string(),
        initial_estimate_seconds: 60,
        elapsed_seconds: 0,
        started_at: None,
        running_since: None,
        submitted_at: None,
        completed_at: None,
        evidence: vec![],
    }
}

fn plan() -> ContinuousPlanning {
    ContinuousPlanning {
        id: "task".to_string(),
        version: 4,
        objective: "Ship".to_string(),
        acceptance: "Verified".to_string(),
        stages: vec![PlanStage {
            id: "S01".to_string(),
            title: "Build".to_string(),
            acceptance: "Reviewed".to_string(),
            assumptions: vec![],
            estimate_seconds: 120,
        }],
        steps: vec![
            step("A01", PlanStepState::Pending),
            step("A02", PlanStepState::Pending),
        ],
        review: PlanReviewState::Idle,
        updated_at: 1000,
        next_review_at: 1300,
        estimated_completion_at: 1120,
        reason: "Initial plan".to_string(),
    }
}

fn running(plan: &mut ContinuousPlanning, index: usize, since: i64) {
    plan.steps[index].state = PlanStepState::Running;
    plan.steps[index].started_at = Some(since);
    plan.steps[index].running_since = Some(since);
}

/// A conversation with a plan, an Implementer and a selected step, ready for instructions.
fn runtime() -> PlanRuntime {
    let state = SupervisorState {
        step_id: Some("A01".to_string()),
        ..SupervisorState::default()
    };
    let mut runtime =
        PlanRuntime::restore("root".to_string(), Ok(Some(plan())), Ok(Some(state)), 1000);
    runtime.state.paused = false;
    runtime.active = true;
    runtime.adopt_implementer("child".to_string(), "epoch".to_string());
    runtime
}

fn message(index: usize, recipient: MessageRecipient, text: &str) -> DirectedMessage {
    DirectedMessage {
        id: format!("source:{index}"),
        recipient,
        text: text.to_string(),
    }
}

fn batch() -> MessageBatch {
    MessageBatch {
        id: "source".to_string(),
        sender: MessageRecipient::Supervisor,
        audience: MessageRecipient::User,
        messages: vec![
            message(1, MessageRecipient::User, "Checking.\n"),
            message(2, MessageRecipient::Implementer, "Run the test.\n"),
            message(3, MessageRecipient::Implementer, "Report the time.\n"),
        ],
        final_answer: false,
    }
}

fn advance_to(dispatch: &mut Dispatch, runtime: &mut PlanRuntime, phase: DispatchPhase) {
    while dispatch.phase != phase {
        dispatch.advance(runtime, Ok(()), 1010);
    }
}

fn turn() -> ExecutionTurn {
    ExecutionTurn {
        turn_id: "turn".to_string(),
        execution_id: "epoch".to_string(),
        step_id: "A01".to_string(),
        generation: 0,
    }
}

fn executing() -> PlanRuntime {
    let mut runtime = runtime();
    if let Some(plan) = &mut runtime.plan {
        running(plan, 0, 1000);
    }
    let (captured, remembered) = runtime.start_turn("turn", "epoch").unwrap();
    assert_eq!(captured, turn());
    assert_eq!(
        remembered,
        Some(TurnStep {
            turn_id: "turn".to_string(),
            step_id: "A01".to_string(),
            title: "Step A01".to_string(),
        })
    );
    runtime
}

fn reply(text: &str) -> Option<ImplementerReply> {
    Some(ImplementerReply {
        id: "reply".to_string(),
        text: text.to_string(),
    })
}

#[test]
fn instructions_travel_through_recorded_phases() {
    let mut runtime = runtime();
    let mut dispatch = runtime.dispatch(&batch(), None, 1010).unwrap();
    assert_eq!(dispatch.phase, DispatchPhase::Prepare);
    assert_eq!(dispatch.visible, batch());
    assert_eq!(
        dispatch.input,
        "Objective: Ship\nOverall acceptance: Verified\nStep A01: Step A01\nStep acceptance: Output captured\nUser authorization is unchanged. Return your result as an ordinary final reply.\nUser task update source:2:\nRun the test.\n\nUser task update source:3:\nReport the time.\n"
    );
    assert_eq!(dispatch.next.as_ref().unwrap().version, 5);
    assert_eq!(runtime.plan, Some(plan()));
    let mut phases = Vec::new();
    while dispatch.phase != DispatchPhase::Submit {
        phases.push((dispatch.phase, dispatch.delivery.in_flight));
        dispatch.advance(&mut runtime, Ok(()), 1010);
    }
    assert_eq!(
        phases,
        vec![
            (DispatchPhase::Prepare, false),
            (DispatchPhase::Mark, true),
            (DispatchPhase::Store, true),
            (DispatchPhase::Save, true),
        ]
    );
    assert_eq!(
        runtime.plan.as_ref().unwrap().steps[0].state,
        PlanStepState::Running
    );
    assert_eq!((runtime.state.revision, runtime.activity_at), (1, 1010));
    dispatch.submitted(&mut runtime, Ok(Submission::Started));
    assert_eq!(dispatch.phase, DispatchPhase::Close);
    dispatch.advance(&mut runtime, Ok(()), 1010);
    assert_eq!(dispatch.phase, DispatchPhase::Done);
    assert_eq!(
        dispatch.delivery,
        Delivery {
            batch: batch(),
            user_delivered: true,
            implementer_delivered: true,
            in_flight: false,
            error: None,
        }
    );
    // A replay of the recorded batch repeats nothing.
    let replayed = runtime
        .dispatch(&batch(), Some(dispatch.delivery), 1020)
        .unwrap();
    assert_eq!(replayed.phase, DispatchPhase::Close);
    assert!(replayed.visible.messages.is_empty() && replayed.input.is_empty());
}

#[test]
fn instructions_for_a_running_step_store_no_revision() {
    let mut runtime = executing();
    let mut dispatch = runtime.dispatch(&batch(), None, 1010).unwrap();
    assert!(dispatch.next.is_none());
    advance_to(&mut dispatch, &mut runtime, DispatchPhase::Submit);
    assert_eq!(runtime.plan.as_ref().unwrap().version, 4);
}

#[test]
fn messages_for_the_user_need_no_execution() {
    let mut runtime = runtime();
    runtime.active = false;
    let mut user = batch();
    user.messages.truncate(1);
    let mut dispatch = runtime.dispatch(&user, None, 1010).unwrap();
    assert_eq!(dispatch.phase, DispatchPhase::Close);
    runtime.messages.correction_attempted = true;
    runtime.messages.feedback = Some("Correct it".to_string());
    dispatch.advance(&mut runtime, Ok(()), 1010);
    assert_eq!(dispatch.visible, user);
    assert!(!runtime.messages.correction_attempted);
    assert_eq!(runtime.messages.feedback, None);
}

#[test]
fn a_busy_implementer_gets_its_instructions_later() {
    let mut runtime = executing();
    let mut dispatch = runtime.dispatch(&batch(), None, 1010).unwrap();
    advance_to(&mut dispatch, &mut runtime, DispatchPhase::Submit);
    dispatch.submitted(&mut runtime, Ok(Submission::NotIdle));
    assert_eq!(dispatch.phase, DispatchPhase::Requeue);
    assert!(!dispatch.delivery.in_flight);
    dispatch.advance(&mut runtime, Ok(()), 1010);
    dispatch.advance(&mut runtime, Ok(()), 1010);
    assert_eq!(dispatch.phase, DispatchPhase::Done);
    assert_eq!(runtime.messages.pending_deliveries, vec![batch()]);
    runtime.queue_delivery(&batch());
    assert_eq!(runtime.messages.pending_deliveries.len(), 1);
    runtime.state.pending_attention = Some("Waiting".to_string());
    assert_eq!(runtime.attention_due(false), None);
    let waiting = runtime.retry_pending_delivery().unwrap();
    let retried = runtime
        .dispatch(&waiting, Some(dispatch.delivery), 1020)
        .unwrap();
    assert_eq!(retried.phase, DispatchPhase::Prepare);
    assert!(retried.visible.messages.is_empty());
    assert!(retried.input.ends_with("Report the time.\n"));
    assert_eq!(runtime.retry_pending_delivery(), None);
    runtime.restore_pending_delivery(waiting);
    assert_eq!(runtime.messages.pending_deliveries, vec![batch()]);
}

#[test]
fn failed_deliveries_pause_and_are_explained_once() {
    for failing in [
        DispatchPhase::Prepare,
        DispatchPhase::Mark,
        DispatchPhase::Store,
        DispatchPhase::Save,
    ] {
        let mut runtime = runtime();
        let mut dispatch = runtime.dispatch(&batch(), None, 1010).unwrap();
        advance_to(&mut dispatch, &mut runtime, failing);
        dispatch.advance(&mut runtime, Err("disk full".to_string()), 1010);
        assert_eq!(dispatch.phase, DispatchPhase::Freeze);
        assert!(!runtime.active);
        dispatch.advance(&mut runtime, Ok(()), 1010);
        assert_eq!(
            dispatch.visible.messages.last().unwrap(),
            &DirectedMessage {
                id: "source:delivery-error".to_string(),
                recipient: MessageRecipient::User,
                text: "Continuous Planning paused: batch accepted, but Implementer delivery failed: disk full. Inspect execution history before retrying; already-started work is not rolled back.".to_string(),
            }
        );
        assert_eq!(dispatch.delivery.error.as_deref(), Some("disk full"));
        assert_eq!(
            dispatch.delivery.in_flight,
            failing != DispatchPhase::Prepare
        );
    }
}

#[test]
fn refused_submissions_stay_in_flight() {
    let mut runtime = runtime();
    let mut dispatch = runtime.dispatch(&batch(), None, 1010).unwrap();
    advance_to(&mut dispatch, &mut runtime, DispatchPhase::Submit);
    dispatch.submitted(
        &mut runtime,
        Ok(Submission::Rejected {
            reason: "Shutdown".to_string(),
        }),
    );
    assert_eq!(
        dispatch.delivery.error.as_deref(),
        Some("Implementer input was rejected: Shutdown")
    );
    dispatch.advance(&mut runtime, Ok(()), 1010);
    dispatch.advance(&mut runtime, Ok(()), 1010);
    assert!(!runtime.active && dispatch.delivery.in_flight);
    assert_eq!(
        runtime
            .dispatch(&batch(), Some(dispatch.delivery), 1020)
            .unwrap_err(),
        RuntimeError::OutcomeUnknown
    );
}

#[test]
fn unrecorded_outcomes_pause_and_are_explained() {
    let mut runtime = runtime();
    let mut dispatch = runtime.dispatch(&batch(), None, 1010).unwrap();
    advance_to(&mut dispatch, &mut runtime, DispatchPhase::Submit);
    dispatch.submitted(&mut runtime, Ok(Submission::Started));
    dispatch.advance(&mut runtime, Err("read only".to_string()), 1010);
    assert_eq!(dispatch.phase, DispatchPhase::Done);
    assert!(!runtime.active && runtime.state.paused);
    assert_eq!(
        dispatch.visible.messages[3],
        DirectedMessage {
            id: "source:checkpoint-error".to_string(),
            recipient: MessageRecipient::User,
            text: "Continuous Planning paused: delivery checkpoint failed: read only. Inspect execution history before retrying; accepted work may already have started.".to_string(),
        }
    );
}

#[test]
fn instructions_need_admission() {
    let refused = |change: &dyn Fn(&mut PlanRuntime)| {
        let mut runtime = runtime();
        change(&mut runtime);
        runtime.dispatch(&batch(), None, 1010).unwrap_err()
    };
    assert_eq!(
        refused(&|runtime| runtime.stopped = true),
        RuntimeError::Stopped
    );
    assert_eq!(
        refused(&|runtime| runtime.restore_error = Some("lost".to_string())),
        RuntimeError::Restore
    );
    assert_eq!(
        refused(&|runtime| runtime.active = false),
        RuntimeError::Inactive
    );
    assert_eq!(
        refused(&|runtime| runtime.state.paused = true),
        RuntimeError::Paused
    );
    assert_eq!(
        refused(&|runtime| {
            runtime.state.token_budget = Some(10);
            runtime.state.total_tokens = 10;
        }),
        RuntimeError::BudgetReached
    );
    assert_eq!(
        refused(&|runtime| runtime.state.step_id = None),
        RuntimeError::SelectBeforeSending
    );
    assert_eq!(refused(&|runtime| runtime.plan = None), RuntimeError::NoPlan);
    assert_eq!(
        refused(&|runtime| runtime.state.step_id = Some("A09".to_string())),
        RuntimeError::UnknownSelectedStep
    );
    assert_eq!(
        refused(&|runtime| {
            if let Some(plan) = &mut runtime.plan {
                running(plan, 1, 1000);
            }
        }),
        RuntimeError::Plan(PlanError::StepRunning)
    );
    let mut other = batch();
    other.final_answer = true;
    let stored = Delivery {
        batch: other,
        user_delivered: false,
        implementer_delivered: false,
        in_flight: false,
        error: None,
    };
    assert_eq!(
        runtime().dispatch(&batch(), Some(stored), 1010).unwrap_err(),
        RuntimeError::SourceReused
    );
}

#[test]
fn the_implementer_sees_only_its_instructions() {
    let incoming = incoming_batch(&batch());
    assert_eq!(incoming.sender, MessageRecipient::User);
    assert_eq!(incoming.audience, MessageRecipient::Implementer);
    assert_eq!(incoming.messages, batch().messages[1..].to_vec());
}

#[test]
fn selecting_a_step_starts_nothing() {
    let mut runtime = runtime();
    runtime.evidence_review = Some((4, "read".to_string()));
    assert_eq!(runtime.select(4, "A02".to_string(), false, 1010), Ok(()));
    assert_eq!(runtime.plan, Some(plan()));
    assert_eq!(runtime.state.step_id.as_deref(), Some("A02"));
    assert_eq!(runtime.evidence_review, None);
    assert!(runtime.active);
    assert_eq!((runtime.state.revision, runtime.state.updated_at), (1, 1010));
    runtime.state.paused = true;
    runtime.select(4, "A01".to_string(), false, 1011).unwrap();
    assert!(!runtime.active && runtime.state.paused);
    assert_eq!(
        runtime.select(4, "A01".to_string(), true, 1012),
        Err(RuntimeError::ImplementerRunning)
    );
    assert_eq!(
        runtime.select(3, "A01".to_string(), false, 1012),
        Err(RuntimeError::Plan(PlanError::StaleVersion))
    );
    runtime.state.token_budget = Some(0);
    assert_eq!(
        runtime.select(4, "A01".to_string(), false, 1012),
        Err(RuntimeError::BudgetNeedsUser)
    );
    runtime.stopped = true;
    assert_eq!(
        runtime.select(4, "A01".to_string(), false, 1012),
        Err(RuntimeError::Stopped)
    );
}

#[test]
fn suspending_freezes_every_clock() {
    let mut runtime = executing();
    assert_eq!(runtime.suspend(), Ok(true));
    let frozen = runtime.freeze("Execution paused", 1030);
    runtime.finish_freeze(frozen, 1030);
    let plan = runtime.plan.as_ref().unwrap();
    assert_eq!(plan.version, 5);
    assert_eq!(plan.reason, "Execution paused");
    assert_eq!(plan.steps[0].state, PlanStepState::Blocked);
    assert_eq!(plan.steps[0].running_since, None);
    for at in [1030, 9000] {
        assert_eq!(plan.steps[0].elapsed_at(at), 30);
    }
    assert_eq!(plan.steps[1].state, PlanStepState::Pending);
    assert!(runtime.state.paused && !runtime.active);
    assert_eq!(runtime.messages.generation, 1);
    // Freezing again changes no step.
    let steps = plan.steps.clone();
    let again = runtime.freeze("Again", 1050).unwrap();
    assert_eq!(again.steps, steps);
    // The turn that ran before is stale.
    runtime.active = true;
    assert!(matches!(
        runtime.finish_execution(&turn(), &reply("Done"), 1060),
        ReportStep::Ignored
    ));
    runtime.restore_error = Some("lost".to_string());
    assert_eq!(runtime.suspend(), Err(RuntimeError::Restore));
}

#[test]
fn frozen_executions_send_nothing_until_resumed() {
    let mut runtime = runtime();
    let frozen = runtime.freeze("Execution paused", 1010);
    runtime.finish_freeze(frozen, 1010);
    assert_eq!(
        runtime.dispatch(&batch(), None, 1020).unwrap_err(),
        RuntimeError::Paused
    );
    runtime.select(5, "A02".to_string(), false, 1020).unwrap();
    assert_eq!(
        runtime.dispatch(&batch(), None, 1020).unwrap_err(),
        RuntimeError::Inactive
    );
    runtime.resume(1030).unwrap();
    let dispatch = runtime.dispatch(&batch(), None, 1030).unwrap();
    assert_eq!(dispatch.phase, DispatchPhase::Prepare);
    assert!(dispatch.input.contains("Step A02: Step A02"));
}

#[test]
fn resuming_needs_a_step_and_a_budget() {
    let mut runtime = runtime();
    runtime.active = false;
    runtime.state.paused = true;
    assert_eq!(runtime.resume(1010), Ok(()));
    assert!(runtime.active && !runtime.state.paused);
    assert_eq!(runtime.plan, Some(plan()));
    runtime.state.token_budget = Some(5);
    runtime.state.total_tokens = 5;
    assert_eq!(runtime.resume(1011), Err(RuntimeError::BudgetNeedsUser));
    runtime.state.step_id = None;
    assert_eq!(runtime.resume(1011), Err(RuntimeError::NoStepSelected));
    runtime.stopped = true;
    assert_eq!(runtime.resume(1011), Err(RuntimeError::Stopped));
}

#[test]
fn replacing_empties_and_refills_the_slot() {
    let mut runtime = runtime();
    assert!(runtime.replace());
    runtime.release_implementer();
    assert!(!runtime.active && !runtime.implementer_matches("epoch"));
    assert!(!runtime.replace());
    runtime.adopt_implementer("next".to_string(), "epoch-two".to_string());
    assert!(runtime.implementer_matches("epoch-two"));
    assert_eq!(runtime.state.implementer_thread_id.as_deref(), Some("next"));
}

#[test]
fn cancelling_the_selected_step_stops_its_execution() {
    let mut runtime = executing();
    let other = runtime
        .cancel(4, "A02".to_string(), "Skip".to_string(), 1010)
        .unwrap();
    assert!(!other.selected && !other.interrupt && runtime.active);
    let cancellation = runtime
        .cancel(4, "A01".to_string(), "Skip".to_string(), 1010)
        .unwrap();
    assert!(cancellation.selected && cancellation.interrupt && !runtime.active);
    assert_eq!(cancellation.plan.steps[0].state, PlanStepState::Cancelled);
    assert_eq!(cancellation.plan.steps[0].elapsed_seconds, 10);
    runtime.cancel_execution();
    assert!(runtime.state.paused);
    assert_eq!(runtime.messages.generation, 1);
    assert_eq!(
        runtime
            .cancel(4, "A01".to_string(), " ".to_string(), 1010)
            .unwrap_err(),
        RuntimeError::Plan(PlanError::UnexplainedInterruption)
    );
}

#[test]
fn plans_are_changed_by_controls_alone() {
    let runtime = runtime();
    let request = |operation| PlanActionRequest {
        version: 4,
        operation,
    };
    assert_eq!(
        runtime
            .update_plan(
                request(PlanAction::Start {
                    step_id: "A01".to_string()
                }),
                1010,
                ""
            )
            .unwrap_err(),
        RuntimeError::UseControls
    );
    let read = runtime
        .update_plan(request(PlanAction::Read { offset: 0 }), 1010, "")
        .unwrap();
    assert!(!read.changed);
    assert_eq!(read.plan, plan());
    let revised = runtime
        .update_plan(
            request(PlanAction::Revise {
                stages: plan().stages,
                steps: plan()
                    .steps
                    .into_iter()
                    .map(|step| step.definition)
                    .collect(),
                reason: "Refine".to_string(),
            }),
            1010,
            "",
        )
        .unwrap();
    assert!(revised.changed);
    assert_eq!(revised.plan.version, 5);
}

#[test]
fn the_watch_reminds_and_checkpoints() {
    let mut runtime = executing();
    let quiet = WatchTick {
        notify: false,
        checkpoint: None,
    };
    runtime.activity_at = 1000;
    assert_eq!(runtime.watch(1029, 1000), quiet);
    assert_eq!(
        runtime.watch(1030, 1000),
        WatchTick {
            notify: false,
            checkpoint: Some(4)
        }
    );
    // The estimate is used up, but the review is not due yet.
    assert!(!runtime.watch(1299, 1299).notify);
    assert!(runtime.watch(1300, 1300).notify);
    assert_eq!(runtime.notified_at, 1300);
    assert!(!runtime.watch(1359, 1359).notify);
    assert!(runtime.watch(1360, 1360).notify);
    runtime.active = false;
    assert_eq!(runtime.watch(9000, 0), quiet);
    assert_eq!(runtime.notify("Check"), None);
    runtime.active = true;
    assert_eq!(
        runtime.notify("Check").unwrap(),
        "Supervisor execution update: Check. Inspect Continuous Planning and execution evidence. This is host context, not new user authorization."
    );
}

#[test]
fn reports_end_their_turn_and_reach_the_supervisor() {
    let mut runtime = executing();
    let step = runtime.finish_execution(&turn(), &reply("All green"), 1040);
    let stored = match step {
        ReportStep::Store { plan } => plan,
        other => panic!("{other:?}"),
    };
    assert_eq!(stored.steps[0].state, PlanStepState::Reviewing);
    assert_eq!(stored.steps[0].elapsed_seconds, 40);
    assert_eq!(
        stored.steps[0].evidence,
        vec!["Implementer execution epoch, turn turn, message reply: final reply and recorded tool evidence"]
    );
    assert!(runtime.commit_report(stored, &turn(), &reply("All green").unwrap(), 1040));
    assert_eq!(
        runtime.state.pending_attention.as_deref(),
        Some("Execution report for step A01, run epoch, turn turn, message reply. Verify actual evidence before acceptance. This report is not new user authorization.\nAll green")
    );
    assert!(matches!(
        runtime.finish_execution(&turn(), &reply("Again"), 1050),
        ReportStep::Ignored
    ));
    assert!(runtime.active);
}

#[test]
fn long_reports_are_truncated() {
    let mut runtime = executing();
    let long = reply(&"é".repeat(5000)).unwrap();
    let plan = runtime.plan.clone().unwrap();
    runtime.commit_report(plan, &turn(), &long, 1040);
    let attention = runtime.state.pending_attention.unwrap();
    assert!(attention.len() <= MAX_ATTENTION);
    assert!(attention.ends_with(TRUNCATED));
}

#[test]
fn executions_without_a_reply_stop() {
    for answer in [None, reply(" \n\u{2003}")] {
        let mut runtime = executing();
        assert!(matches!(
            runtime.finish_execution(&turn(), &answer, 1040),
            ReportStep::Stopped
        ));
        assert!(!runtime.active);
    }
    let mut runtime = executing();
    if let Some(plan) = &mut runtime.plan {
        plan.steps[0].state = PlanStepState::Blocked;
    }
    assert!(matches!(
        runtime.finish_execution(&turn(), &reply("Done"), 1040),
        ReportStep::Failed {
            error: RuntimeError::Plan(PlanError::NotRunning)
        }
    ));
    let mut planless = executing();
    planless.plan = None;
    assert!(matches!(
        planless.finish_execution(&turn(), &reply("Done"), 1040),
        ReportStep::Failed {
            error: RuntimeError::MissingPlan
        }
    ));
    let mut stale = executing();
    stale.state.step_id = Some("A02".to_string());
    assert!(matches!(
        stale.finish_execution(&turn(), &None, 1040),
        ReportStep::Ignored
    ));
    assert!(stale.active);
}

#[test]
fn attention_is_merged_bounded_and_flushed_once() {
    let mut runtime = runtime();
    assert!(runtime.queue_attention("First", 1010));
    assert!(!runtime.queue_attention("First", 1011));
    assert!(runtime.queue_attention("Second", 1012));
    assert_eq!(
        runtime.state.pending_attention.as_deref(),
        Some("First\n\nSecond")
    );
    assert_eq!(runtime.state.revision, 2);
    assert_eq!(runtime.attention_due(true), None);
    assert_eq!(
        runtime.attention_due(false).as_deref(),
        Some("First\n\nSecond")
    );
    assert_eq!(
        runtime.flush_attention("First\n\nSecond", Submission::NotIdle, 1013),
        Ok(false)
    );
    assert_eq!(
        runtime.flush_attention("First", Submission::Started, 1013),
        Ok(false)
    );
    assert_eq!(
        runtime.flush_attention("First\n\nSecond", Submission::Started, 1013),
        Ok(true)
    );
    assert_eq!(runtime.state.pending_attention, None);
    runtime.queue_attention(&"é".repeat(5000), 1014);
    assert_eq!(runtime.state.pending_attention.unwrap().len(), 8192);
}

#[test]
fn feedback_waits_for_a_busy_conversation() {
    let mut runtime = runtime();
    assert_eq!(
        runtime.feedback("Fix it", Submission::Started, 1010),
        Ok(false)
    );
    assert_eq!(
        runtime.feedback("Fix it", Submission::NotIdle, 1010),
        Ok(true)
    );
    assert_eq!(runtime.state.pending_attention.as_deref(), Some("Fix it"));
    assert_eq!(
        runtime.feedback(
            "Fix it",
            Submission::Rejected {
                reason: "Closed".to_string()
            },
            1010
        ),
        Err("Supervisor input was rejected: Closed".to_string())
    );
    let pieces = runtime.start_feedback(&"a".repeat(9000)).unwrap();
    assert_eq!(pieces.len(), 12);
    assert_eq!(
        pieces.iter().map(|piece| piece.body().len()).sum::<usize>(),
        8192
    );
    runtime.stopped = true;
    assert_eq!(
        runtime.start_feedback("Fix it").unwrap_err(),
        RuntimeError::Stopped
    );
}

#[test]
fn restored_conversations_wait_for_the_user() {
    let mut stored = plan();
    running(&mut stored, 0, 900);
    let state = SupervisorState {
        total_tokens: 12,
        ..SupervisorState::default()
    };
    let mut runtime =
        PlanRuntime::restore("root".to_string(), Ok(Some(stored)), Ok(Some(state)), 5000);
    assert!(runtime.state.paused && !runtime.active && !runtime.stopped);
    assert_eq!(runtime.activity_at, 5000);
    assert_eq!(
        runtime.ready(),
        ReadyStep {
            freeze: true,
            watch: true
        }
    );
    let halted = &runtime.plan.as_ref().unwrap().steps[0];
    // Time counts up to the last checkpoint, not while the process was gone.
    assert_eq!(
        (halted.elapsed_seconds, halted.running_since),
        (100, None)
    );
    let mut fresh = PlanRuntime::restore("root".to_string(), Ok(None), Ok(None), 5000);
    assert!(!fresh.state.paused && fresh.restore_error.is_none());
    assert_eq!(
        fresh.ready(),
        ReadyStep {
            freeze: false,
            watch: true
        }
    );
    assert!(fresh.stop());
    assert!(fresh.stopped);
}

#[test]
fn unreadable_conversations_are_preserved_and_disabled() {
    let errors = [
        PlanRuntime::restore("root".to_string(), Err("bad plan".to_string()), Ok(None), 1),
        PlanRuntime::restore("root".to_string(), Ok(None), Err("bad state".to_string()), 1),
        PlanRuntime::restore("root".to_string(), Ok(Some(plan())), Ok(None), 1),
        PlanRuntime::restore(
            "root".to_string(),
            Ok(None),
            Ok(Some(SupervisorState::default())),
            1,
        ),
    ]
    .map(|mut runtime| {
        assert!(runtime.state.paused);
        assert_eq!(
            runtime.ready(),
            ReadyStep {
                freeze: false,
                watch: false
            }
        );
        assert!(!runtime.stop());
        assert_eq!(runtime.use_tokens(5, 1), None);
        assert_eq!(
            runtime.admits_messages(),
            Err(RuntimeError::Restore)
        );
        let text = RuntimeError::Restore.message(&runtime.restore_error);
        assert_eq!(Some(text), runtime.restore_error);
        runtime.restore_error.unwrap()
    });
    assert_eq!(
        errors,
        [
            "Cannot restore Continuous Planning state: bad plan. The stored data is preserved; execution is disabled.",
            "Cannot restore Continuous Planning state: bad state. The stored data is preserved; execution is disabled.",
            "Cannot restore Continuous Planning without its ownership state. The stored plan is preserved; execution is disabled.",
            "Cannot restore Continuous Planning without its plan. The stored ownership state is preserved; execution is disabled.",
        ]
    );
}

#[test]
fn only_root_and_spawned_conversations_are_supervised() {
    let start = || ThreadStart {
        bound: false,
        agent_role: None,
        non_root_agent: false,
        spawned_thread: false,
        persistent: true,
        feature_enabled: true,
    };
    assert!(start().is_supervised());
    let mut spawned = start();
    spawned.non_root_agent = true;
    assert!(!spawned.is_supervised());
    spawned.spawned_thread = true;
    assert!(spawned.is_supervised());
    spawned.agent_role = Some("implementer".to_string());
    assert!(!spawned.is_supervised());
    for change in [
        |start: &mut ThreadStart| start.bound = true,
        |start: &mut ThreadStart| start.persistent = false,
        |start: &mut ThreadStart| start.feature_enabled = false,
    ] {
        let mut refused = start();
        change(&mut refused);
        assert!(!refused.is_supervised());
    }
}

#[test]
fn tokens_are_counted_against_the_budget() {
    let mut runtime = runtime();
    assert_eq!(runtime.use_tokens(40, 1010), Some(false));
    runtime.state.token_budget = Some(100);
    assert_eq!(runtime.use_tokens(59, 1011), Some(false));
    assert_eq!(runtime.use_tokens(1, 1012), Some(true));
    assert_eq!((runtime.state.total_tokens, runtime.state.revision), (100, 3));
    assert_eq!(runtime.use_tokens(i64::MAX, 1013), Some(true));
    assert_eq!(runtime.state.total_tokens, i64::MAX);
}

#[test]
fn message_errors_allow_one_correction() {
    let mut runtime = runtime();
    let error = Some("Continuous Planning message error at line 2".to_string());
    match runtime.finish_turn(&error) {
        TurnStepAfter::Continue { feedback } => assert_eq!(
            feedback.as_deref(),
            Some("Continuous Planning message error at line 2. The complete batch was rejected. Send one corrected complete batch; this is the only correction attempt.")
        ),
        TurnStepAfter::Pause => panic!("paused"),
    }
    assert!(runtime.messages.correction_attempted);
    assert_eq!(runtime.finish_turn(&error), TurnStepAfter::Pause);
    let mut other = executing();
    other.messages.feedback = Some("Pending".to_string());
    assert_eq!(
        other.finish_turn(&Some("network down".to_string())),
        TurnStepAfter::Continue {
            feedback: Some("Pending".to_string())
        }
    );
    assert_eq!(other.messages.feedback, None);
    assert!(!other.messages.correction_attempted);
}

#[test]
fn failed_turns_report_nothing() {
    assert_eq!(turn_report(true, &reply("Done")), None);
    assert_eq!(turn_report(false, &reply("Done")), reply("Done"));
}

#[test]
fn forks_copy_the_snapshot_paused() {
    let state = || SupervisorState {
        implementer_thread_id: Some("child".to_string()),
        ..SupervisorState::default()
    };
    match fork_supervisor("root", Some(plan()), Some(state())).unwrap() {
        ForkStep::Adopt {
            plan: copied,
            state: kept,
            implementer_thread_id,
        } => {
            assert_eq!(copied, Some(plan()));
            assert!(kept.paused);
            assert_eq!(implementer_thread_id.as_deref(), Some("child"));
        }
        ForkStep::Nothing => panic!("nothing adopted"),
    }
    match fork_supervisor("root", None, Some(state())).unwrap() {
        ForkStep::Adopt {
            implementer_thread_id,
            ..
        } => assert_eq!(implementer_thread_id, None),
        ForkStep::Nothing => panic!("nothing adopted"),
    }
    assert!(matches!(
        fork_supervisor("root", None, None),
        Ok(ForkStep::Nothing)
    ));
    assert_eq!(
        fork_supervisor("root", Some(plan()), None).unwrap_err(),
        "Supervisor plan has no persisted ownership state for root"
    );
}

#[test]
fn forks_start_their_own_history_paused() {
    let mut source = plan();
    source.version = 7;
    source.updated_at = 1_010;
    source.steps[0].owner = "root".to_string();
    source.steps[0].state = PlanStepState::Running;
    source.steps[0].elapsed_seconds = 3;
    source.steps[0].running_since = Some(1_000);
    let mut fork = PlanRuntime::restore("fork".to_string(), Ok(None), Ok(None), 2_000);
    let own = fork.fork_plan("root", source.clone());
    assert_eq!(own.version, 1);
    assert_eq!(own.steps[0].owner, "fork");
    assert_eq!(own.steps[0].state, PlanStepState::Blocked);
    assert_eq!(own.steps[0].elapsed_seconds, 13);
    assert_eq!(own.steps[0].running_since, None);
    assert_eq!(own.objective, source.objective);
    fork.commit_plan(own);
    assert_eq!(fork.fork_plan("elsewhere", source).version, 2);
    fork.active = true;
    fork.adopt_fork(
        SupervisorState {
            implementer_thread_id: Some("child".to_string()),
            step_id: Some("A01".to_string()),
            ..SupervisorState::default()
        },
        Some("copy".to_string()),
    );
    assert!(fork.state.paused && !fork.active);
    assert_eq!(fork.state.implementer_thread_id.as_deref(), Some("copy"));
    assert_eq!(fork.state.step_id.as_deref(), Some("A01"));
    assert_eq!(fork.implementer, None);
}

#[test]
fn bindings_present_the_turns_of_their_own_epoch() {
    let mut runtime = executing();
    let mut binding = ImplementerBinding {
        execution_id: "epoch".to_string(),
        turn_steps: VecDeque::new(),
    };
    for index in 0..65 {
        binding.remember_turn(TurnStep {
            turn_id: format!("turn-{index}"),
            step_id: "A01".to_string(),
            title: "Step A01".to_string(),
        });
    }
    assert_eq!(binding.turn_steps.len(), 64);
    assert_eq!(binding.presentation(&runtime, "turn-0"), None);
    assert_eq!(
        binding.presentation(&runtime, "turn-64"),
        Some(Presentation {
            thread_id: "root".to_string(),
            execution_id: "epoch".to_string(),
            step_id: "A01".to_string(),
            title: "Step A01".to_string(),
        })
    );
    assert_eq!(
        binding.supervisor_thread_id(Some(&runtime)).as_deref(),
        Some("root")
    );
    assert_eq!(binding.supervisor_thread_id(None), None);
    assert_eq!(binding.check_activity(Some(&runtime)), Ok(()));
    binding.record_activity(&mut runtime, 9);
    assert_eq!(runtime.state.activity_sequence, 9);
    runtime.record_tool("epoch", 2000);
    runtime.record_tool("older", 3000);
    assert_eq!(runtime.activity_at, 2000);
    runtime.release_implementer();
    assert_eq!(binding.presentation(&runtime, "turn-64"), None);
    assert_eq!(
        binding.check_activity(Some(&runtime)),
        Err(RuntimeError::StaleActivity)
    );
    assert_eq!(
        binding.check_activity(None),
        Err(RuntimeError::SupervisorStopped)
    );
}

#[test]
fn turns_without_a_selected_step_are_not_captured() {
    let mut runtime = runtime();
    runtime.state.step_id = None;
    assert!(runtime.start_turn("turn", "epoch").is_none());
    assert_eq!(runtime.messages.turn, None);
    runtime.state.step_id = Some("A09".to_string());
    assert_eq!(runtime.start_turn("turn", "epoch").unwrap().1, None);
}

#[test]
fn interruptions_reach_every_delegated_conversation() {
    let runtime = runtime();
    let subtree = vec![
        "child".to_string(),
        "grandchild".to_string(),
        "other".to_string(),
    ];
    assert_eq!(
        runtime.interrupted_conversations(AgentStatus::Running, &subtree),
        Ok(Some(vec!["grandchild".to_string(), "other".to_string()]))
    );
    assert_eq!(
        runtime.interrupted_conversations(AgentStatus::Shutdown, &subtree),
        Ok(None)
    );
    let nameless = PlanRuntime::restore("root".to_string(), Ok(None), Ok(None), 1);
    assert_eq!(
        nameless.interrupted_conversations(AgentStatus::Idle, &subtree),
        Err(RuntimeError::MissingIdentity)
    );
}

#[test]
fn implementers_use_no_level_of_delegation() {
    assert_eq!(
        implementer_settings(2, None, true),
        ImplementerSettings {
            agent_max_depth: 3,
            depth: 1,
            fresh_context: true,
            goals_enabled: false,
            update_plan_enabled: false,
            request_user_input_enabled: false,
        }
    );
    let nested = implementer_settings(i32::MAX, Some(4), false);
    assert_eq!((nested.agent_max_depth, nested.depth), (i32::MAX, 5));
}

#[test]
fn explanations_of_refused_controls() {
    let none = None;
    assert_eq!(
        RuntimeError::Plan(PlanError::UnknownStep).message(&none),
        "unknown step"
    );
    assert_eq!(
        RuntimeError::OutcomeUnknown.message(&none),
        "delivery outcome is unknown; inspect the Implementer history before continuing"
    );
    assert_eq!(
        RuntimeError::StaleActivity.message(&none),
        "stale Implementer activity"
    );
}
