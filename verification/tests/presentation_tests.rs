use continuous_planning::binding::ImplementerBinding;
use continuous_planning::binding::TurnStep;
use continuous_planning::display::duration;
use continuous_planning::display::label;
use continuous_planning::display::plus_decimal_text;
use continuous_planning::display::split_lines;
use continuous_planning::display::timestamp;
use continuous_planning::display::timestamp_in;
use continuous_planning::display::wrap_text;
use continuous_planning::display::FIRST_INSTANT;
use continuous_planning::display::LAST_INSTANT;
use continuous_planning::fragments::contribute_thread_context;
use continuous_planning::fragments::fragments;
use continuous_planning::fragments::role_fragments;
use continuous_planning::fragments::ContinuousPlanningFragment;
use continuous_planning::fragments::SupervisorRoleFragment;
use continuous_planning::fragments::SupervisorSession;
use continuous_planning::fragments::IMPLEMENTER;
use continuous_planning::fragments::SUPERVISOR;
use continuous_planning::history::activity_history_page;
use continuous_planning::history::activity_history_query;
use continuous_planning::history::check_activity_size;
use continuous_planning::history::check_appended;
use continuous_planning::history::check_delivery_size;
use continuous_planning::history::check_plan_size;
use continuous_planning::history::parse_cursor;
use continuous_planning::history::plan_history_page;
use continuous_planning::history::plan_history_query;
use continuous_planning::history::recovered_plan;
use continuous_planning::history::row_limit;
use continuous_planning::history::CursorError;
use continuous_planning::history::PageQuery;
use continuous_planning::history::StorageError;
use continuous_planning::message::DirectedMessage;
use continuous_planning::message::MessageRecipient;
use continuous_planning::message_items::implementer_message;
use continuous_planning::message_items::parse_message;
use continuous_planning::message_items::AgentMessage;
use continuous_planning::message_items::MessagePhase;
use continuous_planning::message_parser::MessageParser;
use continuous_planning::pane::discovered_conversations;
use continuous_planning::pane::goals_enabled;
use continuous_planning::pane::DetailKey;
use continuous_planning::pane::Discovery;
use continuous_planning::pane::KeyCode;
use continuous_planning::pane::PlanDetail;
use continuous_planning::pane::PlanKey;
use continuous_planning::pane::PlanPane;
use continuous_planning::pane::SupervisorUi;
use continuous_planning::plan::ContinuousPlanning;
use continuous_planning::plan::PlanReviewState;
use continuous_planning::plan::PlanStage;
use continuous_planning::plan::PlanStepDefinition;
use continuous_planning::plan::PlanStepState;
use continuous_planning::plan::TimedPlanStep;
use continuous_planning::progress::show_times;
use continuous_planning::progress::step_times;
use continuous_planning::progress::ListAction;
use continuous_planning::progress::PlanProgress;
use continuous_planning::progress::StepTimes;
use continuous_planning::protocol::numbered_activity;
use continuous_planning::protocol::supervisor_notification;
use continuous_planning::protocol::supervisor_update;
use continuous_planning::protocol::ItemNotification;
use continuous_planning::protocol::Outgoing;
use continuous_planning::protocol::ProgressNotification;
use continuous_planning::protocol::ResolvedNotification;
use continuous_planning::protocol::ServerNotification;
use continuous_planning::protocol::SupervisorActivity;
use continuous_planning::protocol::ThreadItemKind;
use continuous_planning::runtime::PlanRuntime;
use continuous_planning::supervisor_state::SupervisorState;
use std::collections::VecDeque;

const SECOND: u64 = 1_000_000_000;

fn plan() -> ContinuousPlanning {
    ContinuousPlanning {
        id: "task".to_string(),
        version: 4,
        objective: "Ship".to_string(),
        acceptance: "Verified".to_string(),
        stages: vec![PlanStage {
            id: "S01".to_string(),
            title: "Build".to_string(),
            acceptance: "Reviewed".to_string(),
            assumptions: vec![],
            estimate_seconds: 120,
        }],
        steps: vec![TimedPlanStep {
            definition: PlanStepDefinition {
                id: "A01".to_string(),
                stage_id: "S01".to_string(),
                title: "Inspect".to_string(),
                acceptance: "Output captured".to_string(),
                dependencies: vec![],
                estimate_seconds: 60,
            },
            state: PlanStepState::Running,
            owner: "root".to_string(),
            initial_estimate_seconds: 50,
            elapsed_seconds: 5,
            started_at: None,
            running_since: Some(1000),
            submitted_at: None,
            completed_at: None,
            evidence: vec!["first".to_string(), "second".to_string()],
        }],
        review: PlanReviewState::Idle,
        updated_at: 1000,
        next_review_at: 1300,
        estimated_completion_at: 1120,
        reason: "Started A01".to_string(),
    }
}

fn agent_message(text: &[&str], phase: Option<MessagePhase>) -> AgentMessage {
    AgentMessage {
        id: "source".to_string(),
        content: text.iter().map(|part| part.to_string()).collect(),
        phase,
    }
}

#[test]
fn implementer_messages_stay_private_and_become_replies() {
    let result = implementer_message(&agent_message(&["All ", "green"], None));
    let reply = result.reply.unwrap();
    assert_eq!((reply.id.as_str(), reply.text.as_str()), ("source", "All green"));
    assert_eq!(result.batch.audience, MessageRecipient::Implementer);
    assert_eq!(
        result.batch.messages,
        vec![DirectedMessage {
            id: "source:1".to_string(),
            recipient: MessageRecipient::Supervisor,
            text: "All green".to_string(),
        }]
    );
    assert!(result.batch.final_answer);
    let commentary = implementer_message(&agent_message(
        &["Working"],
        Some(MessagePhase::Commentary),
    ));
    assert!(commentary.reply.is_none() && !commentary.batch.final_answer);
    assert!(implementer_message(&agent_message(&[" \n"], None))
        .reply
        .is_none());
    let long = implementer_message(&agent_message(&[&"é".repeat(3901)], None));
    let text = long.reply.unwrap().text;
    assert!(text.starts_with(&"é".repeat(3900)));
    assert!(text.ends_with(
        "é\n[Reply truncated; read the source Implementer turn for the full report.]"
    ));
}

#[test]
fn rejected_messages_allow_one_correction() {
    let mut runtime = PlanRuntime::restore("root".to_string(), Ok(None), Ok(None), 1000);
    runtime.active = true;
    let message = agent_message(&["plain text"], Some(MessagePhase::FinalAnswer));
    let error = parse_message(&message).unwrap_err();
    assert!(error.starts_with("Continuous Planning message error at line "));
    let first = runtime.reject_message(&message, &error);
    assert!(!first.pause && first.batch.messages.is_empty() && runtime.active);
    assert_eq!(
        runtime.messages.feedback,
        Some(format!("{error}. This batch was rejected before any new delivery. Previously accepted deliveries are preserved. Correct the complete document using <messages>, <user> or <implementer> blocks, and </messages>. You have one correction attempt."))
    );
    let second = runtime.reject_message(&message, &error);
    assert!(second.pause && !runtime.active);
    assert_eq!(runtime.messages.feedback, None);
    assert_eq!(
        second.batch.messages[0].text,
        format!("Continuous Planning paused: {error}")
    );
}

#[test]
fn documents_read_back_whatever_their_cuts() {
    let document = "<messages>\n<user>\nA line.\n\n</user>\n<implementer>\n<user>x\n</implementer>\n</messages>";
    let whole = parse_message(&agent_message(&[document], None)).unwrap();
    assert_eq!(whole.messages.len(), 2);
    assert_eq!(whole.messages[0].id, "source:1");
    for cut in 0..=document.len() {
        let mut parser = MessageParser::default();
        parser.push(&document[..cut]).unwrap();
        parser.push(&document[cut..]).unwrap();
        assert_eq!(parser.finish("source", true).unwrap(), whole);
    }
    let mut parser = MessageParser::default();
    assert!(parser.push("nonsense\n").is_err());
    assert!(parser.push(document).is_err());
    assert!(parser.finish("source", true).is_err());
}

#[test]
fn context_is_cut_into_bounded_fragments() {
    let text = "é".repeat(1000);
    let pieces = fragments(&text);
    assert_eq!(pieces.len(), 3);
    assert!(pieces.iter().all(|piece| piece.0.len() <= 700));
    assert_eq!(
        pieces
            .iter()
            .map(ContinuousPlanningFragment::body)
            .collect::<String>(),
        text
    );
    assert!(fragments("").is_empty());
    let fragment = ContinuousPlanningFragment::new(&("a".repeat(699) + "é"));
    assert_eq!(fragment.0.len(), 699);
    assert_eq!(fragment.role(), "user");
    assert_eq!(fragment.content_kind(), "continuous_planning.context");
    assert_eq!(fragment.markers().1, "</continuous_planning_context>");
}

#[test]
fn role_policies_are_cut_at_sentences() {
    for (session, policy) in [
        (SupervisorSession::Supervisor, SUPERVISOR),
        (SupervisorSession::Implementer, IMPLEMENTER),
    ] {
        let pieces = contribute_thread_context(Some(session));
        assert!(pieces.iter().all(|piece| piece.0.len() <= 700));
        assert_eq!(
            pieces
                .iter()
                .map(SupervisorRoleFragment::body)
                .collect::<String>(),
            policy
        );
        assert_eq!(pieces[0].role(), "developer");
        assert_eq!(pieces[0].content_kind(), "supervisor.role");
        assert_eq!(pieces[0].markers().0, "<supervisor_role>");
    }
    assert!(contribute_thread_context(None).is_empty());
    let text = "a".repeat(500) + ". " + &"b".repeat(400);
    let pieces = role_fragments(&text);
    assert_eq!((pieces[0].0.len(), pieces[1].0.len()), (502, 400));
    assert_eq!(SupervisorRoleFragment::new(&text).0.len(), 700);
}

#[test]
fn cursors_are_integers_within_their_history() {
    assert_eq!(parse_cursor("9223372036854775807"), Ok(i64::MAX));
    assert_eq!(parse_cursor("-9223372036854775808"), Ok(i64::MIN));
    assert_eq!(parse_cursor("+12"), Ok(12));
    assert_eq!(parse_cursor(""), Err(CursorError::Empty));
    assert_eq!(parse_cursor("-"), Err(CursorError::InvalidDigit));
    assert_eq!(parse_cursor("1a"), Err(CursorError::InvalidDigit));
    assert_eq!(
        parse_cursor("9223372036854775808"),
        Err(CursorError::TooLarge)
    );
    assert_eq!(
        parse_cursor("-9223372036854775809"),
        Err(CursorError::TooSmall)
    );
    for text in ["", "-", "+", "1a", "12", "+0", "-00", "9223372036854775808", "99999999999999999999x", "-9223372036854775809"] {
        let expected = text.parse::<i64>();
        match (parse_cursor(text), expected) {
            (Ok(value), Ok(parsed)) => assert_eq!(value, parsed),
            (Err(error), Err(parsed)) => assert_eq!(error.message(), parsed.to_string()),
            (found, parsed) => panic!("{text}: {found:?} {parsed:?}"),
        }
    }
}

#[test]
fn history_queries_are_bounded() {
    assert_eq!(
        plan_history_query(&None, None),
        Ok(PageQuery {
            cursor: i64::MAX,
            limit: 20
        })
    );
    assert_eq!(
        plan_history_query(&Some("7".to_string()), Some(500)),
        Ok(PageQuery {
            cursor: 7,
            limit: 99
        })
    );
    assert_eq!(
        plan_history_query(&Some("0".to_string()), None),
        Err(CursorError::PlanCursor)
    );
    assert_eq!(CursorError::PlanCursor.message(), "invalid plan cursor");
    assert_eq!(
        activity_history_query(&None, Some(0)),
        Ok(PageQuery {
            cursor: 0,
            limit: 1
        })
    );
    assert_eq!(
        activity_history_query(&Some("-1".to_string()), None),
        Err(CursorError::ActivityCursor)
    );
    assert_eq!(CursorError::ActivityCursor.message(), "invalid cursor");
}

#[test]
fn history_pages_continue_after_their_last_row() {
    let versions = [9, 8, 7].map(|version| ContinuousPlanning { version, ..plan() });
    let page = plan_history_page(versions.to_vec(), 2);
    assert_eq!(page.data, versions[..2].to_vec());
    assert_eq!(page.next_cursor.as_deref(), Some("8"));
    assert_eq!(plan_history_page(versions.to_vec(), 3).next_cursor, None);
    let rows = vec![(1, "one".to_string()), (2, "two".to_string())];
    let page = activity_history_page(rows.clone(), 1);
    assert_eq!(page.rows, rows[..1].to_vec());
    assert_eq!(page.next_cursor.as_deref(), Some("1"));
    assert_eq!(activity_history_page(rows, 2).next_cursor, None);
}

#[test]
fn stored_snapshots_are_bounded() {
    assert_eq!(check_plan_size(131_072), Ok(()));
    assert_eq!(check_plan_size(131_073), Err(StorageError::PlanTooLarge));
    assert_eq!(check_activity_size(1_048_576), Ok(()));
    assert_eq!(
        check_activity_size(1_048_577),
        Err(StorageError::ActivityTooLarge)
    );
    assert_eq!(check_delivery_size(65_536), Ok(()));
    assert_eq!(
        check_delivery_size(65_537),
        Err(StorageError::DeliveryTooLarge)
    );
    assert_eq!(check_appended(1), Ok(()));
    assert_eq!(check_appended(0), Err(StorageError::StalePlan));
    assert_eq!(
        StorageError::StalePlan.message(),
        "stale plan version; read the current plan before retrying"
    );
    assert_eq!([0, 7, 101].map(row_limit), [1, 7, 100]);
    assert_eq!(recovered_plan(plan(), 1029).updated_at, 1029);
    assert_eq!(recovered_plan(plan(), 900), plan());
}

fn item(item: ThreadItemKind) -> ItemNotification {
    ItemNotification {
        turn_id: "turn".to_string(),
        item,
        content: "{}".to_string(),
    }
}

fn progress_notification() -> ProgressNotification {
    ProgressNotification {
        turn_id: "turn".to_string(),
        content: "output".to_string(),
    }
}

#[test]
fn only_tool_activity_is_taken_out_of_notifications() {
    let activities = [
        SupervisorActivity::ItemStarted(item(ThreadItemKind::FileChange)),
        SupervisorActivity::ItemCompleted(item(ThreadItemKind::ImageGeneration)),
        SupervisorActivity::CommandOutput(progress_notification()),
        SupervisorActivity::FileOutput(progress_notification()),
        SupervisorActivity::TerminalInteraction(progress_notification()),
        SupervisorActivity::McpProgress(progress_notification()),
    ];
    for activity in activities {
        assert_eq!(activity.turn_id(), "turn");
        let text = format!("{activity:?}");
        let again = SupervisorActivity::from_notification(activity.into_notification());
        assert_eq!(format!("{:?}", again.unwrap()), text);
    }
    for notification in [
        ServerNotification::ItemStarted(item(ThreadItemKind::Other)),
        ServerNotification::ItemCompleted(item(ThreadItemKind::Other)),
        ServerNotification::Other("message".to_string()),
    ] {
        assert_eq!(SupervisorActivity::from_notification(notification), None);
    }
}

#[test]
fn notifications_of_an_execution_reach_its_supervisor() {
    let mut runtime = PlanRuntime::restore("root".to_string(), Ok(None), Ok(None), 1000);
    runtime.adopt_implementer("child".to_string(), "epoch".to_string());
    let binding = ImplementerBinding {
        execution_id: "epoch".to_string(),
        turn_steps: VecDeque::from([TurnStep {
            turn_id: "turn".to_string(),
            step_id: "A01".to_string(),
            title: "Inspect".to_string(),
        }]),
    };
    let started = || ServerNotification::ItemStarted(item(ThreadItemKind::CommandExecution));
    fn send(
        binding: &ImplementerBinding,
        runtime: Option<&PlanRuntime>,
        notification: ServerNotification,
    ) -> Outgoing {
        supervisor_notification(Some(binding), runtime, "child", notification, 1010)
    }
    match send(&binding, Some(&runtime), started()) {
        Outgoing::Record { event } => {
            assert_eq!(
                (event.thread_id.as_str(), event.step_id.as_str(), event.sequence),
                ("root", "A01", 0)
            );
            assert_eq!(event.created_at, 1010);
            match numbered_activity(event, 12) {
                ServerNotification::ThreadSupervisorActivity(event) => {
                    assert_eq!(event.sequence, 12)
                }
                other => panic!("{other:?}"),
            }
        }
        other => panic!("{other:?}"),
    }
    match send(
        &binding,
        Some(&runtime),
        ServerNotification::ServerRequestResolved(ResolvedNotification {
            thread_id: "child".to_string(),
            content: "approved".to_string(),
        }),
    ) {
        Outgoing::Forward {
            notification: ServerNotification::ServerRequestResolved(resolved),
        } => assert_eq!(
            (resolved.thread_id.as_str(), resolved.content.as_str()),
            ("root", "approved")
        ),
        other => panic!("{other:?}"),
    }
    assert!(matches!(
        send(
            &binding,
            Some(&runtime),
            ServerNotification::Other("message".to_string())
        ),
        Outgoing::Withhold
    ));
    assert!(matches!(send(&binding, None, started()), Outgoing::Withhold));
    assert!(matches!(
        supervisor_notification(None, None, "child", started(), 1010),
        Outgoing::Forward { .. }
    ));
    runtime.release_implementer();
    assert!(matches!(
        send(&binding, Some(&runtime), started()),
        Outgoing::Withhold
    ));
    let update = supervisor_update("root".to_string(), 1010, None, Some(plan()));
    assert_eq!(update.state, SupervisorState::default());
    assert_eq!(update.plan, Some(plan()));
}

#[test]
fn durations_and_differences_are_shown_compactly() {
    assert_eq!(
        [0, 59, 60, 3725, -8].map(duration),
        ["0:00", "0:59", "1:00", "62:05", "0:00"]
    );
    assert_eq!([0, 7, -7].map(plus_decimal_text), ["+0", "+7", "-7"]);
}

#[test]
fn times_are_shown_in_the_local_zone() {
    assert_eq!(timestamp(None), "—");
    let shown = timestamp(Some(1_700_000_000));
    assert_eq!(shown.len(), 14);
    for (index, separator) in [(2, '-'), (5, ' '), (8, ':'), (11, ':')] {
        assert_eq!(shown.chars().nth(index), Some(separator));
    }
    assert!(shown.starts_with("11-1"));
    assert_eq!(timestamp(Some(i64::MAX)), "—");
    assert_eq!(timestamp(Some(FIRST_INSTANT)).len(), 14);
    assert_eq!(timestamp(Some(LAST_INSTANT)).len(), 14);
    assert_eq!(timestamp(Some(FIRST_INSTANT - 1)), "—");
    assert_eq!(timestamp(Some(LAST_INSTANT + 1)), "—");
}

#[test]
fn times_are_shown_in_a_given_zone() {
    assert_eq!(timestamp_in(Some(1_700_000_000), 0), "11-14 22:13:20");
    assert_eq!(timestamp_in(Some(1_700_000_000), 7_200), "11-15 00:13:20");
    assert_eq!(timestamp_in(Some(0), -1), "12-31 23:59:59");
    assert_eq!(timestamp_in(Some(951_782_400), 0), "02-29 00:00:00");
    assert_eq!(timestamp_in(Some(FIRST_INSTANT), 0), "01-01 00:00:00");
    assert_eq!(timestamp_in(Some(FIRST_INSTANT), -86_399), "12-31 00:00:01");
    assert_eq!(timestamp_in(Some(LAST_INSTANT), 0), "12-31 23:59:59");
    assert_eq!(timestamp_in(Some(LAST_INSTANT), 86_399), "01-01 23:59:58");
    assert_eq!(timestamp_in(Some(LAST_INSTANT + 1), 0), "—");
    assert_eq!(timestamp_in(None, 0), "—");
}

#[test]
fn the_times_of_a_step_are_its_own() {
    let mut plan = plan();
    plan.steps[0].started_at = Some(11);
    plan.steps[0].submitted_at = Some(12);
    let forecast = plan.forecast_at(1003);
    let times = step_times(&plan, 0, 1003);
    assert_eq!(
        times,
        StepTimes {
            started: Some(11),
            submitted: Some(12),
            completed: None,
            step_eta: forecast.steps[0],
            task_eta: forecast.completed_at,
        }
    );
    plan.steps[0].completed_at = Some(13);
    let times = step_times(&plan, 0, 1003);
    assert_eq!(times.completed, Some(13));
    assert_eq!(times.step_eta, 13);
    let stamps = show_times(&StepTimes {
        started: Some(i64::MAX),
        submitted: None,
        completed: Some(0),
        step_eta: 1_700_000_000,
        task_eta: i64::MIN,
    });
    assert_eq!(stamps.started, "—");
    assert_eq!(stamps.submitted, "—");
    assert_eq!(stamps.completed, timestamp(Some(0)));
    assert_eq!(stamps.step_eta, timestamp(Some(1_700_000_000)));
    assert_eq!(stamps.task_eta, "—");
}

#[test]
fn labels_are_clipped_between_graphemes() {
    assert_eq!(label("Implement", 9), "Implement");
    assert_eq!(label("Implement", 4), "Imp…");
    assert_eq!(label("日本語", 5), "日本…");
    assert_eq!(label("日本語", 4), "日…");
    assert_eq!(label("anything", 0), "");
    assert_eq!(label("e\u{301}e\u{301}e\u{301}", 2), "e\u{301}…");
}

#[test]
fn details_are_wrapped_line_by_line() {
    assert_eq!(split_lines("a\r\nb\n\nc\n"), ["a", "b", "", "c"]);
    assert_eq!(wrap_text("one two three\nfour", 8), "one two\nthree\nfour");
    assert_eq!(wrap_text("ab", 0), "a\nb");
    let mut detail = PlanDetail::new("one two three".to_string());
    assert_eq!(detail.wrapped(7), "one two\nthree");
    assert_eq!(detail.desired_height(80), 10);
    detail.handle_key(DetailKey::Up);
    assert_eq!(detail.scroll, 0);
    detail.handle_key(DetailKey::Down);
    detail.handle_key(DetailKey::Other);
    assert_eq!(detail.scroll, 1);
    assert!(!detail.is_complete());
    detail.handle_key(DetailKey::Close);
    assert!(detail.is_complete());
    let mut cancelled = PlanDetail::new(String::new());
    cancelled.on_ctrl_c();
    assert!(cancelled.is_complete());
}

fn key() -> PlanKey {
    PlanKey {
        covered: false,
        ctrl_c: false,
        focus_plan: false,
        action: None,
        press: true,
    }
}

#[test]
fn keys_reach_the_list_only_while_nothing_covers_it() {
    let mut pane = PlanPane { progress: None };
    assert!(!pane.has_timed_plan(0) && !pane.has_active_timed_plan());
    let focus = PlanKey {
        focus_plan: true,
        ..key()
    };
    assert!(!pane.handle_plan_key(focus, 0).handled);
    pane.update_timed_plan(plan(), "root".to_string(), 1000, 0);
    assert!(pane.has_timed_plan(0) && pane.has_active_timed_plan());
    for refused in [
        PlanKey {
            covered: true,
            ..focus
        },
        PlanKey {
            ctrl_c: true,
            ..focus
        },
        key(),
        PlanKey {
            action: Some(ListAction::Accept),
            ..key()
        },
    ] {
        assert!(!pane.handle_plan_key(refused, 0).handled);
    }
    assert!(pane.handle_plan_key(focus, 0).handled);
    let accept = PlanKey {
        action: Some(ListAction::Accept),
        ..key()
    };
    let outcome = pane.handle_plan_key(accept, 0);
    assert!(outcome.handled);
    assert_eq!(outcome.details.as_deref(), Some("Started A01"));
    let released = PlanKey {
        press: false,
        ..accept
    };
    assert!(!pane.handle_plan_key(released, 0).handled);
    let cancel = PlanKey {
        action: Some(ListAction::Cancel),
        ..key()
    };
    assert!(pane.handle_plan_key(cancel, 0).handled);
    assert!(!pane.progress.unwrap().focused());
}

#[test]
fn details_describe_the_selected_step_at_the_current_time() {
    let mut progress = PlanProgress::new(plan(), "root".to_string(), 1000, SECOND);
    progress.view.selected = Some("step:A01".to_string());
    assert_eq!(progress.timestamp(4 * SECOND + 1), 1003);
    let details = progress.details(4 * SECOND);
    assert!(details.starts_with(
        "A01 Inspect\n\nOutput captured\n\nInitial: 50s · Current: 60s · Actual: 8s · Δ -42s\nStarted: —\nSubmitted: —\nCompleted: —\nStep ETA: "
    ));
    assert!(details.ends_with("\n\nfirst\nsecond\n\nStarted A01"));
}

#[test]
fn newer_states_replace_older_ones() {
    let mut ui = SupervisorUi {
        state: None,
        implementer: false,
    };
    let mut pane = PlanPane { progress: None };
    let state = |revision| SupervisorState {
        revision,
        ..SupervisorState::default()
    };
    let update =
        |revision, plan| supervisor_update("root".to_string(), 1010, Some(state(revision)), plan);
    assert!(!ui.on_supervisor_updated(&mut pane, update(3, Some(plan())), false, 0));
    assert_eq!(ui.state, None);
    assert!(ui.on_supervisor_updated(&mut pane, update(3, Some(plan())), true, 0));
    assert!(ui.on_supervisor_updated(&mut pane, update(2, None), true, 0));
    assert_eq!(ui.state, Some(state(3)));
    assert_eq!(pane.progress.as_ref().unwrap().plan, plan());
    let older = ContinuousPlanning {
        version: 3,
        ..plan()
    };
    ui.on_supervisor_updated(&mut pane, update(4, Some(older)), true, 0);
    assert_eq!(pane.progress.as_ref().unwrap().plan, plan());
    assert!(!ui.set_role(Some("supervisor")));
    assert!(ui.enabled(true) && !ui.enabled(false));
    assert!(ui.set_role(Some("implementer")));
    assert!(!ui.enabled(true));
    assert!(goals_enabled(true, false) && !goals_enabled(true, true));
}

#[test]
fn unknown_conversations_are_discovered() {
    assert_eq!(
        discovered_conversations(Some(false), Some(false), false),
        [Discovery::Supervisor, Discovery::Implementer]
    );
    assert_eq!(
        discovered_conversations(Some(true), Some(false), false),
        [Discovery::Implementer]
    );
    assert!(discovered_conversations(Some(true), Some(true), false).is_empty());
    assert!(discovered_conversations(None, Some(false), false).is_empty());
    assert_eq!(
        discovered_conversations(Some(false), None, false),
        [Discovery::Supervisor]
    );
    assert_eq!(
        discovered_conversations(Some(false), Some(false), true),
        [Discovery::Supervisor]
    );
    assert_eq!(Discovery::Implementer.role(), "implementer");
}

#[test]
fn stages_without_steps_are_rows_of_their_own() {
    let mut planned = plan();
    planned.stages.push(PlanStage {
        id: "S02".to_string(),
        title: "Later".to_string(),
        ..planned.stages[0].clone()
    });
    let mut progress = PlanProgress::new(planned, "root".to_string(), 1000, 0);
    let entries = progress.entries(0);
    assert_eq!(
        entries
            .iter()
            .map(|entry| (entry.key.as_str(), entry.seconds, entry.step))
            .collect::<Vec<_>>(),
        [("step:A01", 60, Some(0)), ("stage:S02", 120, None)]
    );
    progress.view.selected = Some("stage:S02".to_string());
    assert_eq!(progress.details(0), "S02 Later\n\n0:00 → 2:00\n\n");
    progress.view.focused = true;
    progress.view.rows = vec!["step:A01".to_string(), "stage:S02".to_string()];
    assert!(progress.handle_action(ListAction::MoveUp));
    assert!(progress.handle_action(ListAction::MoveUp));
    assert_eq!(progress.view.selected.as_deref(), Some("step:A01"));
    assert!(progress.handle_action(ListAction::MoveDown));
    assert_eq!(progress.view.selected.as_deref(), Some("stage:S02"));
    assert!(!progress.handle_action(ListAction::PageDown));
}

#[test]
fn details_are_closed_and_scrolled_by_their_keys() {
    for (code, key) in [
        (KeyCode::Esc, DetailKey::Close),
        (KeyCode::Enter, DetailKey::Close),
        (KeyCode::Down, DetailKey::Down),
        (KeyCode::PageDown, DetailKey::Down),
        (KeyCode::Up, DetailKey::Up),
        (KeyCode::PageUp, DetailKey::Up),
        (KeyCode::Other, DetailKey::Other),
    ] {
        assert_eq!(DetailKey::from_code(code), key);
    }
    let mut detail = PlanDetail::new("text".to_string());
    for code in [KeyCode::Down, KeyCode::PageDown, KeyCode::Up, KeyCode::Other] {
        detail.handle_key_event(code);
    }
    assert_eq!(detail.scroll, 1);
    detail.handle_key_event(KeyCode::PageUp);
    detail.handle_key_event(KeyCode::PageUp);
    assert_eq!(detail.scroll, 0);
    assert!(!detail.is_complete());
    detail.handle_key_event(KeyCode::Enter);
    assert!(detail.is_complete());
}
