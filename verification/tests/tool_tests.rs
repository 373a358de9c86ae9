use continuous_planning::evidence::join_records;
use continuous_planning::evidence::search_history;
use continuous_planning::evidence::select_evidence;
use continuous_planning::evidence::text_holds;
use continuous_planning::evidence::EvidenceSource;
use continuous_planning::evidence::HistoryItem;
use continuous_planning::evidence::HistoryKind;
use continuous_planning::evidence::SearchRecord;
use continuous_planning::json::remove_json_key;
use continuous_planning::plan::ContinuousPlanning;
use continuous_planning::plan::PlanReviewState;
use continuous_planning::plan::PlanStage;
use continuous_planning::plan::PlanStepDefinition;
use continuous_planning::plan::PlanStepState;
use continuous_planning::plan::TimedPlanStep;
use continuous_planning::runtime::PlanRuntime;
use continuous_planning::runtime::RuntimeError;
use continuous_planning::supervisor_state::SupervisorState;
use continuous_planning::supervisor_state::MAX_NOTES;
use continuous_planning::tool::check_request;
use continuous_planning::tool::page;
use continuous_planning::tool::Page;
use continuous_planning::tool::PlanSummary;
use continuous_planning::tool::StepSummary;
use continuous_planning::tool::SupervisorAction;
use continuous_planning::tool::ToolContext;
use continuous_planning::tool::ToolStep;

fn step(id: &str, state: PlanStepState) -> TimedPlanStep {
    TimedPlanStep {
        definition: PlanStepDefinition {
            id: id.to_string(),
            stage_id: "S01".to_string(),
            title: format!("Step {id}"),
            acceptance: "Output captured".to_string(),
            dependencies: vec![],
            estimate_seconds: 60,
        },
        state,
        owner: "root".to_string(),
        initial_estimate_seconds: 60,
        elapsed_seconds: 0,
        started_at: None,
        running_since: None,
        submitted_at: None,
        completed_at: None,
        evidence: vec![],
    }
}

fn plan() -> ContinuousPlanning {
    let mut submitted = step("A01", PlanStepState::Reviewing);
    submitted.evidence = vec!["turn".to_string()];
    submitted.elapsed_seconds = 30;
    ContinuousPlanning {
        id: "task".to_string(),
        version: 4,
        objective: "Ship".to_string(),
        acceptance: "Verified".to_string(),
        stages: vec![PlanStage {
            id: "S01".to_string(),
            title: "Build".to_string(),
            acceptance: "Reviewed".to_string(),
            assumptions: vec![],
            estimate_seconds: 120,
        }],
        steps: vec![submitted, step("A02", PlanStepState::Pending)],
        review: PlanReviewState::Due,
        updated_at: 1000,
        next_review_at: 1000,
        estimated_completion_at: 1120,
        reason: "Submitted A01 for independent verification".to_string(),
    }
}

fn runtime() -> PlanRuntime {
    let mut runtime = PlanRuntime::restore(
        "root".to_string(),
        Ok(Some(plan())),
        Ok(Some(SupervisorState::default())),
        1000,
    );
    runtime.state.paused = false;
    runtime.active = true;
    runtime.adopt_implementer("child".to_string(), "epoch".to_string());
    runtime
}

fn context() -> ToolContext {
    ToolContext {
        now: 1100,
        id: "fresh-id".to_string(),
        implementer_running: false,
    }
}

fn item(kind: HistoryKind, json: &str) -> HistoryItem {
    HistoryItem {
        kind,
        json: json.to_string(),
    }
}

fn output(call: Option<&str>, json: &str) -> HistoryItem {
    item(
        HistoryKind::FunctionCallOutput {
            answers: call.map(str::to_string),
        },
        json,
    )
}

fn accept(version: i64, evidence: &[&str]) -> SupervisorAction {
    SupervisorAction::Accept {
        version,
        step_id: "A01".to_string(),
        evidence: evidence.iter().map(|item| item.to_string()).collect(),
    }
}

#[test]
fn evidence_is_the_newest_recorded_tool_output() {
    let items = vec![
        item(
            HistoryKind::FunctionCall {
                name: "continuous_planning".to_string(),
                call_id: "control".to_string(),
            },
            "0",
        ),
        output(Some("control"), "1"),
        output(Some("command"), "2"),
        output(None, "3"),
        item(
            HistoryKind::Message {
                role: "user".to_string(),
            },
            "4",
        ),
        item(
            HistoryKind::Message {
                role: "assistant".to_string(),
            },
            "5",
        ),
        item(HistoryKind::WebSearchCall, "6"),
        item(HistoryKind::Other, "7"),
    ];
    assert_eq!(select_evidence(&items), ["6", "5", "3", "2"]);
    let unrecorded: Vec<_> = (0..9)
        .map(|index| item(HistoryKind::Other, &index.to_string()))
        .collect();
    assert_eq!(
        select_evidence(&unrecorded),
        ["8", "7", "6", "5", "4", "3", "2", "1"]
    );
    let many: Vec<_> = (0..20)
        .map(|index| item(HistoryKind::CustomToolCallOutput, &index.to_string()))
        .collect();
    assert_eq!(select_evidence(&many).len(), 16);
}

#[test]
fn evidence_hides_metadata_and_is_remembered_with_its_version() {
    let mut runtime = runtime();
    let items = vec![output(
        Some("command"),
        r#"{ "type": "output", "internal_chat_message_metadata_passthrough": {"a": 1}, "b": [1, 2] }"#,
    )];
    let text = runtime.evidence(&items).unwrap();
    assert_eq!(text, "{\"b\":[1,2],\"type\":\"output\"}\n");
    assert_eq!(runtime.evidence_review, Some((4, text)));
    assert_eq!(
        runtime.evidence(&vec![output(None, "{")]),
        Err(RuntimeError::UnreadableHistory)
    );
    runtime.plan = None;
    assert_eq!(runtime.evidence(&items), Err(RuntimeError::NoTask));
}

#[test]
fn saved_activity_stands_in_for_a_missing_implementer() {
    let mut runtime = runtime();
    runtime.state.activity_sequence = 40;
    assert_eq!(runtime.evidence_source(true), Ok(EvidenceSource::History));
    assert_eq!(
        runtime.evidence_source(false),
        Ok(EvidenceSource::Saved {
            after: 24,
            limit: 16
        })
    );
    runtime.state.implementer_thread_id = None;
    runtime.state.activity_sequence = i64::MIN;
    assert_eq!(
        runtime.evidence_source(true),
        Ok(EvidenceSource::Saved {
            after: i64::MIN,
            limit: 16
        })
    );
    assert_eq!(
        runtime.saved_evidence(&vec![]),
        Err(RuntimeError::NoEvidence)
    );
    assert_eq!(
        runtime.saved_evidence(&vec!["one".to_string(), "two".to_string()]),
        Ok("one\ntwo".to_string())
    );
    assert_eq!(
        runtime.evidence_review,
        Some((4, "one\ntwo".to_string()))
    );
    runtime.plan = None;
    assert_eq!(runtime.evidence_source(true), Err(RuntimeError::NoTask));
}

#[test]
fn histories_are_searched_without_regard_to_case() {
    let runtime = runtime();
    let history: Vec<String> = [
        r#"{"text":"CARGO Test"}"#,
        r#"{"text":"cargo build"}"#,
        r#"{"text":"ÄRGER"}"#,
    ]
    .map(str::to_string)
    .to_vec();
    let inspect =
        |query: Option<&str>, offset| runtime.inspect(true, &history, &query.map(str::to_string), offset);
    assert_eq!(
        inspect(Some("Cargo"), 0).unwrap(),
        "{\"text\":\"cargo build\"}\n{\"text\":\"CARGO Test\"}\n"
    );
    assert_eq!(
        inspect(Some("cargo"), 1).unwrap(),
        "{\"text\":\"CARGO Test\"}\n"
    );
    assert_eq!(inspect(Some("ärger"), 0).unwrap(), "{\"text\":\"ÄRGER\"}\n");
    assert_eq!(inspect(None, 0).unwrap().lines().count(), 3);
    assert_eq!(inspect(Some("absent"), 0), Err(RuntimeError::NoHistory));
    assert_eq!(inspect(None, 3), Err(RuntimeError::NoHistory));
    assert_eq!(inspect(None, 65537), Err(RuntimeError::HistoryOffset));
    assert_eq!(
        runtime.inspect(false, &history, &None, 0),
        Err(RuntimeError::NoExecution)
    );
    assert_eq!(
        runtime.inspect(true, &vec!["nonsense".to_string()], &None, 0),
        Err(RuntimeError::UnreadableHistory)
    );
}

#[test]
fn history_pages_are_bounded() {
    let record = |text: String| SearchRecord {
        lower: text.clone(),
        text,
    };
    let many: Vec<_> = (0..40).map(|index| record(index.to_string())).collect();
    let found = search_history(&many, &None, 0);
    assert_eq!((found.len(), found[0].as_str()), (32, "39"));
    assert_eq!(search_history(&many, &None, 32).len(), 8);
    let large = vec![record("a".to_string()), record("x".repeat(8190))];
    assert_eq!(search_history(&large, &None, 0).len(), 1);
    let exact = vec![record("x".repeat(8191))];
    assert_eq!(search_history(&exact, &None, 0).len(), 1);
    let over = vec![record("x".repeat(8192))];
    assert!(search_history(&over, &None, 0).is_empty());
    assert_eq!(
        join_records(&vec!["a".to_string(), "b".to_string()]),
        "a\nb\n"
    );
    assert!(text_holds("abcabd", "abd") && text_holds("", "") && !text_holds("ab", "abc"));
}

#[test]
fn acceptance_needs_evidence_that_was_read() {
    let mut runtime = runtime();
    let verdict = |runtime: &mut PlanRuntime, action| runtime.execute(action, &context());
    assert_eq!(
        verdict(&mut runtime, accept(4, &["Checked"])).unwrap_err(),
        RuntimeError::EvidenceUnread
    );
    runtime.evidence_review = Some((4, "output".to_string()));
    assert_eq!(
        verdict(&mut runtime, accept(4, &[])).unwrap_err(),
        RuntimeError::UnboundedVerification
    );
    assert_eq!(
        runtime
            .execute(
                accept(4, &["Checked"]),
                &ToolContext {
                    implementer_running: true,
                    ..context()
                }
            )
            .unwrap_err(),
        RuntimeError::ImplementerUnfinished
    );
    let accepted = match verdict(&mut runtime, accept(4, &["Checked", "Twice"])).unwrap() {
        ToolStep::Store { plan } => plan,
        other => panic!("{other:?}"),
    };
    assert_eq!(accepted.version, 5);
    assert_eq!(accepted.steps[0].state, PlanStepState::Completed);
    assert_eq!(accepted.steps[0].completed_at, Some(1100));
    assert_eq!(accepted.reason, "Checked\nTwice");
    assert_eq!(accepted.review, PlanReviewState::Idle);
    assert_eq!(accepted.estimated_completion_at, 1160);
    runtime.commit_plan(accepted);
    assert_eq!(
        verdict(&mut runtime, accept(5, &["Checked"])).unwrap_err(),
        RuntimeError::EvidenceUnread
    );
    runtime.evidence_review = Some((4, "output".to_string()));
    assert_eq!(
        verdict(&mut runtime, accept(4, &["Checked"])).unwrap_err(),
        RuntimeError::StaleTask
    );
    runtime.evidence_review = Some((5, "output".to_string()));
    assert_eq!(
        verdict(&mut runtime, accept(5, &["Checked"])).unwrap_err(),
        RuntimeError::NotSubmitted
    );
    assert_eq!(
        runtime
            .accept(5, &"A09".to_string(), &vec!["Checked".to_string()], false, 1100)
            .unwrap_err(),
        RuntimeError::UnknownStep
    );
    runtime.plan = None;
    assert_eq!(
        verdict(&mut runtime, accept(5, &["Checked"])).unwrap_err(),
        RuntimeError::NoTask
    );
}

#[test]
fn reads_and_evidence_are_paged() {
    let mut runtime = runtime();
    assert!(matches!(
        runtime.execute(SupervisorAction::Read { offset: 7 }, &context()),
        Ok(ToolStep::Read {
            offset: 7,
            with_goal: false
        })
    ));
    assert!(matches!(
        runtime.execute(SupervisorAction::Evidence { offset: 0 }, &context()),
        Ok(ToolStep::Evidence)
    ));
    assert_eq!(
        runtime
            .execute(SupervisorAction::Evidence { offset: 600 }, &context())
            .unwrap_err(),
        RuntimeError::EvidenceOffset
    );
    runtime.evidence_review = Some((4, "x".repeat(700)));
    match runtime.execute(SupervisorAction::Evidence { offset: 600 }, &context()) {
        Ok(ToolStep::Page { page }) => assert_eq!(
            page,
            Page {
                text: "x".repeat(100),
                next_offset: None
            }
        ),
        other => panic!("{other:?}"),
    }
    assert_eq!(
        runtime
            .execute(SupervisorAction::Evidence { offset: 701 }, &context())
            .unwrap_err(),
        RuntimeError::PageOffset
    );
}

#[test]
fn pages_cover_a_text_without_splitting_characters() {
    let text = "é".repeat(301) + &"日本".repeat(200);
    let mut offset = 0;
    let mut whole = String::new();
    loop {
        let part = page(&text, offset).unwrap();
        assert!(part.text.len() <= 600 && !part.text.is_empty());
        whole.push_str(&part.text);
        match part.next_offset {
            Some(next) => offset = next,
            None => break,
        }
    }
    assert_eq!(whole, text);
    assert_eq!(page(&text, 1), Err(RuntimeError::PageOffset));
    assert_eq!(page(&text, text.len() + 1), Err(RuntimeError::PageOffset));
    assert_eq!(
        page(&text, text.len()),
        Ok(Page {
            text: String::new(),
            next_offset: None
        })
    );
    assert_eq!(page("ab", 0).unwrap().next_offset, None);
    assert_eq!(page(&"a".repeat(601), 0).unwrap().next_offset, Some(600));
}

#[test]
fn requests_are_bounded() {
    assert_eq!(check_request(&"x".repeat(65536)), Ok(()));
    assert_eq!(
        check_request(&"x".repeat(65537)),
        Err(RuntimeError::RequestTooLarge)
    );
}

#[test]
fn controls_ask_the_host_for_their_effects() {
    let mut runtime = runtime();
    assert_eq!(
        runtime
            .execute(
                SupervisorAction::Pause {
                    reason: " ".to_string()
                },
                &context()
            )
            .unwrap_err(),
        RuntimeError::UnexplainedPause
    );
    assert!(runtime.active);
    assert!(matches!(
        runtime.execute(
            SupervisorAction::Pause {
                reason: "Ask the user".to_string()
            },
            &context()
        ),
        Ok(ToolStep::Suspend { interrupt: true })
    ));
    assert!(!runtime.active);
    assert!(matches!(
        runtime.execute(
            SupervisorAction::Select {
                version: 4,
                step_id: "A02".to_string()
            },
            &context()
        ),
        Ok(ToolStep::Save)
    ));
    assert!(matches!(
        runtime.execute(SupervisorAction::Resume {}, &context()),
        Ok(ToolStep::Save)
    ));
    assert!(runtime.active);
    assert!(matches!(
        runtime.execute(SupervisorAction::Replace {}, &context()),
        Ok(ToolStep::Replace { interrupt: true })
    ));
    match runtime.execute(
        SupervisorAction::Cancel {
            version: 4,
            step_id: "A02".to_string(),
            reason: "Skip".to_string(),
        },
        &context(),
    ) {
        Ok(ToolStep::Cancel { cancellation }) => {
            assert!(cancellation.selected && cancellation.interrupt);
            assert_eq!(cancellation.plan.version, 5);
        }
        other => panic!("{other:?}"),
    }
    assert!(matches!(
        runtime.execute(
            SupervisorAction::Inspect {
                query: Some("cargo".to_string()),
                offset: 3
            },
            &context()
        ),
        Ok(ToolStep::Inspect { offset: 3, .. })
    ));
    assert!(matches!(
        runtime.execute(
            SupervisorAction::Remember {
                text: "Note".to_string()
            },
            &context()
        ),
        Ok(ToolStep::Save)
    ));
    assert_eq!(runtime.state.memory, ["Note"]);
}

#[test]
fn the_memory_of_a_task_is_bounded() {
    let mut runtime = runtime();
    let revision = runtime.state.revision;
    for index in 0..MAX_NOTES + 2 {
        runtime.remember(format!("note {index}"), 77);
    }
    assert_eq!(runtime.state.memory.len(), 16);
    assert_eq!(runtime.state.memory[0], "note 2");
    assert_eq!(runtime.state.memory[15], "note 17");
    assert_eq!(runtime.state.revision, revision + 18);
    assert_eq!(runtime.state.updated_at, 77);
    runtime.remember("é".repeat(600), 78);
    assert_eq!(runtime.state.memory[14], "note 17");
    assert_eq!(runtime.state.memory[15], "é".repeat(512));
}

#[test]
fn budgets_are_positive_or_lifted() {
    let mut runtime = runtime();
    for tokens in [0, -5] {
        assert_eq!(
            runtime
                .execute(
                    SupervisorAction::Budget {
                        tokens: Some(tokens)
                    },
                    &context()
                )
                .unwrap_err(),
            RuntimeError::InvalidBudget
        );
    }
    runtime
        .execute(SupervisorAction::Budget { tokens: Some(1) }, &context())
        .unwrap();
    assert_eq!(
        (runtime.state.token_budget, runtime.state.revision),
        (Some(1), 1)
    );
    runtime
        .execute(SupervisorAction::Budget { tokens: None }, &context())
        .unwrap();
    assert_eq!(runtime.state.token_budget, None);
}

#[test]
fn changes_of_the_plan_are_stored() {
    let mut empty = PlanRuntime::restore("root".to_string(), Ok(None), Ok(None), 1000);
    let created = empty.execute(
        SupervisorAction::Create {
            version: 0,
            objective: "Ship".to_string(),
            acceptance: "Verified".to_string(),
            stages: plan().stages,
            steps: vec![plan().steps.remove(0).definition],
        },
        &context(),
    );
    match created {
        Ok(ToolStep::Store { plan }) => {
            assert_eq!((plan.id.as_str(), plan.version), ("fresh-id", 1))
        }
        other => panic!("{other:?}"),
    }
    assert!(matches!(
        empty.execute(SupervisorAction::Read { offset: 0 }, &context()),
        Ok(ToolStep::Read {
            with_goal: true,
            ..
        })
    ));
    let mut runtime = runtime();
    let revised = runtime.execute(
        SupervisorAction::Revise {
            version: 4,
            stages: plan().stages,
            steps: plan()
                .steps
                .into_iter()
                .map(|step| step.definition)
                .collect(),
            reason: "Refine".to_string(),
        },
        &context(),
    );
    match revised {
        Ok(ToolStep::Store { plan }) => assert_eq!(plan.reason, "Refine"),
        other => panic!("{other:?}"),
    }
    runtime.restore_error = Some("lost".to_string());
    assert_eq!(
        runtime
            .execute(SupervisorAction::Read { offset: 0 }, &context())
            .unwrap_err(),
        RuntimeError::Restore
    );
}

#[test]
fn summaries_name_the_next_three_steps() {
    let mut runtime = runtime();
    if let Some(plan) = &mut runtime.plan {
        plan.steps[0].state = PlanStepState::Completed;
        for id in ["A03", "A04", "A05"] {
            plan.steps.push(step(id, PlanStepState::Pending));
        }
        plan.steps[2].state = PlanStepState::Cancelled;
    }
    let summary = |id: &str| StepSummary {
        id: id.to_string(),
        state: PlanStepState::Pending,
    };
    assert_eq!(
        runtime.summary(),
        Some(PlanSummary {
            version: 4,
            steps: vec![summary("A02"), summary("A04"), summary("A05")],
        })
    );
    runtime.plan = None;
    assert_eq!(runtime.summary(), None);
}

#[test]
fn keys_are_taken_out_of_the_outermost_object() {
    assert_eq!(
        remove_json_key(r#"{ "b": 1, "a": {"a": 2} }"#, "a").as_deref(),
        Some(r#"{"b":1}"#)
    );
    assert_eq!(
        remove_json_key(r#"{ "b": {"a": 2} }"#, "a").as_deref(),
        Some(r#"{"b":{"a":2}}"#)
    );
    assert_eq!(
        remove_json_key("[ \"a\" ]", "a").as_deref(),
        Some("[\"a\"]")
    );
    assert_eq!(remove_json_key("{", "a"), None);
}
