use continuous_planning::model::apply;
use continuous_planning::model::validate;
use continuous_planning::model::PlanError;
use continuous_planning::plan::saturating_difference;
use continuous_planning::plan::saturating_sum;
use continuous_planning::plan::ContinuousPlanning;
use continuous_planning::plan::PlanForecast;
use continuous_planning::plan::PlanReviewState;
use continuous_planning::plan::PlanStage;
use continuous_planning::plan::PlanStepDefinition;
use continuous_planning::plan::PlanStepState;
use continuous_planning::plan::TimedPlanStep;
use continuous_planning::request::PlanAction;
use continuous_planning::request::PlanActionRequest;

fn stage(id: &str) -> PlanStage {
    PlanStage {
        id: id.to_string(),
        title: format!("Stage {id}"),
        acceptance: "Reviewed".to_string(),
        assumptions: vec![],
        estimate_seconds: 120,
    }
}

fn definition(id: &str, stage_id: &str, dependencies: &[&str]) -> PlanStepDefinition {
    PlanStepDefinition {
        id: id.to_string(),
        stage_id: stage_id.to_string(),
        title: format!("Step {id}"),
        acceptance: "Output captured".to_string(),
        dependencies: dependencies.iter().map(|id| id.to_string()).collect(),
        estimate_seconds: 60,
    }
}

fn create(stages: Vec<PlanStage>, steps: Vec<PlanStepDefinition>) -> PlanAction {
    PlanAction::Create {
        objective: "Ship".to_string(),
        acceptance: "Verified".to_string(),
        stages,
        steps,
    }
}

fn start(id: &str) -> PlanAction {
    PlanAction::Start {
        step_id: id.to_string(),
    }
}

fn pause(id: &str, reason: &str) -> PlanAction {
    PlanAction::Pause {
        step_id: id.to_string(),
        reason: reason.to_string(),
    }
}

fn cancel(id: &str, reason: &str) -> PlanAction {
    PlanAction::Cancel {
        step_id: id.to_string(),
        reason: reason.to_string(),
    }
}

fn submit(id: &str, evidence: &[&str]) -> PlanAction {
    PlanAction::Submit {
        step_id: id.to_string(),
        evidence: evidence.iter().map(|item| item.to_string()).collect(),
    }
}

fn request(
    plan: Option<&ContinuousPlanning>,
    operation: PlanAction,
    now: i64,
) -> Result<ContinuousPlanning, PlanError> {
    apply(
        plan.cloned(),
        PlanActionRequest {
            version: plan.map_or(0, |plan| plan.version),
            operation,
        },
        "root",
        now,
        "fresh-id",
    )
}

fn two_stages() -> ContinuousPlanning {
    request(
        None,
        create(
            vec![stage("S01"), stage("S02")],
            vec![
                definition("A01", "S01", &[]),
                definition("A02", "S01", &["A01"]),
                definition("A03", "S02", &[]),
            ],
        ),
        /*now*/ 1000,
    )
    .unwrap()
}

fn complete(plan: &mut ContinuousPlanning, index: usize, at: i64) {
    plan.steps[index].state = PlanStepState::Completed;
    plan.steps[index].running_since = None;
    plan.steps[index].completed_at = Some(at);
}

fn definitions(plan: &ContinuousPlanning) -> Vec<PlanStepDefinition> {
    plan.steps
        .iter()
        .map(|step| step.definition.clone())
        .collect()
}

#[test]
fn created_plans_start_with_fresh_steps() {
    let plan = two_stages();
    assert_eq!(plan.id, "fresh-id");
    assert_eq!(plan.version, 1);
    assert_eq!(plan.reason, "Initial plan");
    assert_eq!(plan.review, PlanReviewState::Idle);
    assert_eq!(plan.next_review_at, 1300);
    assert_eq!(plan.updated_at, 1000);
    assert_eq!(plan.estimated_completion_at, 1180);
    assert_eq!(
        plan.steps[1],
        TimedPlanStep {
            definition: definition("A02", "S01", &["A01"]),
            state: PlanStepState::Pending,
            owner: "root".to_string(),
            initial_estimate_seconds: 60,
            elapsed_seconds: 0,
            started_at: None,
            running_since: None,
            submitted_at: None,
            completed_at: None,
            evidence: vec![],
        }
    );
}

#[test]
fn requests_without_a_plan_are_refused() {
    assert_eq!(
        request(None, PlanAction::Read { offset: 0 }, 1000),
        Err(PlanError::NoActivePlan)
    );
    assert_eq!(request(None, start("A01"), 1000), Err(PlanError::NoPlan));
    assert_eq!(
        request(
            None,
            PlanAction::Create {
                objective: " \u{3000}".to_string(),
                acceptance: "Verified".to_string(),
                stages: vec![stage("S01")],
                steps: vec![definition("A01", "S01", &[])],
            },
            1000
        ),
        Err(PlanError::MissingObjective)
    );
}

#[test]
fn stale_requests_are_refused_and_leave_the_plan_to_its_reader() {
    let plan = two_stages();
    for version in [0, 2] {
        assert_eq!(
            apply(
                Some(plan.clone()),
                PlanActionRequest {
                    version,
                    operation: start("A01"),
                },
                "root",
                1001,
                "",
            ),
            Err(PlanError::StaleVersion)
        );
    }
    assert_eq!(
        apply(
            Some(plan.clone()),
            PlanActionRequest {
                version: 77,
                operation: PlanAction::Read { offset: 5 },
            },
            "another",
            9999,
            "",
        ),
        Ok(plan)
    );
}

#[test]
fn another_task_waits_for_the_current_one() {
    let plan = two_stages();
    let again = || create(vec![stage("S01")], vec![definition("A01", "S01", &[])]);
    assert_eq!(
        request(Some(&plan), again(), 1001),
        Err(PlanError::UnfinishedPlan)
    );
    let mut unexpanded = plan.clone();
    for index in 0..3 {
        complete(&mut unexpanded, index, 1100);
    }
    unexpanded.steps.pop();
    assert_eq!(
        request(Some(&unexpanded), again(), 1200),
        Err(PlanError::UnexpandedStages)
    );
    let mut finished = plan;
    for index in 0..3 {
        complete(&mut finished, index, 1100);
    }
    finished.id = "old-id".to_string();
    let next = request(Some(&finished), again(), 1200).unwrap();
    assert_eq!((next.id.as_str(), next.version), ("fresh-id", 2));
    assert_eq!(next.steps.len(), 1);
}

#[test]
fn every_change_is_one_revision_of_the_same_task() {
    let mut plan = two_stages();
    let changes = [
        start("A01"),
        pause("A01", "Wait for input"),
        start("A01"),
        submit("A01", &["output"]),
        cancel("A03", "Not needed"),
    ];
    for (index, change) in changes.into_iter().enumerate() {
        let now = 1010 + 10 * index as i64;
        let next = request(Some(&plan), change, now).unwrap();
        assert_eq!(next.version, plan.version + 1);
        assert_eq!(next.id, plan.id);
        assert_eq!(next.updated_at, now);
        assert_eq!(validate(&next), Ok(()));
        assert!(next.is_steady());
        plan = next;
    }
    assert_eq!(plan.steps[0].elapsed_seconds, 20);
    assert_eq!(plan.steps[0].started_at, Some(1010));
    assert_eq!(plan.steps[0].submitted_at, Some(1040));
    assert_eq!(plan.steps[2].state, PlanStepState::Cancelled);
    assert_eq!(plan.reason, "Not needed");
}

#[test]
fn a_start_schedules_its_next_check_within_bounds() {
    let plan = two_stages();
    let started = request(Some(&plan), start("A01"), 1010).unwrap();
    assert_eq!(started.next_review_at, 1070);
    assert_eq!(started.reason, "Started A01");
    assert_eq!(started.steps[0].running_since, Some(1010));
    let mut late = plan.clone();
    late.steps[0].elapsed_seconds = 58;
    assert_eq!(
        request(Some(&late), start("A01"), 1010)
            .unwrap()
            .next_review_at,
        1015
    );
    let mut long = plan;
    long.steps[0].definition.estimate_seconds = 4000;
    assert_eq!(
        request(Some(&long), start("A01"), 1010)
            .unwrap()
            .next_review_at,
        1310
    );
}

#[test]
fn one_step_runs_at_a_time() {
    let mut plan = two_stages();
    plan.steps[1].definition.dependencies.clear();
    let started = request(Some(&plan), start("A01"), 1010).unwrap();
    assert_eq!(
        request(Some(&started), start("A02"), 1011),
        Err(PlanError::StepRunning)
    );
    let paused = request(Some(&started), pause("A01", "Switch"), 1012).unwrap();
    assert_eq!(
        request(Some(&paused), start("A02"), 1013).unwrap().steps[1].state,
        PlanStepState::Running
    );
}

#[test]
fn stages_are_finished_in_order() {
    let mut plan = two_stages();
    assert_eq!(
        request(Some(&plan), start("A02"), 1010),
        Err(PlanError::UnverifiedDependencies)
    );
    assert_eq!(
        request(Some(&plan), start("A03"), 1010),
        Err(PlanError::EarlierStages)
    );
    complete(&mut plan, 0, 1010);
    plan.steps[1].state = PlanStepState::Cancelled;
    assert!(request(Some(&plan), start("A03"), 1020).is_ok());
}

#[test]
fn foreign_unknown_and_finished_steps_stay_untouched() {
    let mut plan = two_stages();
    assert_eq!(
        request(Some(&plan), start("A09"), 1010),
        Err(PlanError::UnknownStep)
    );
    plan.steps[0].owner = "another".to_string();
    assert_eq!(
        request(Some(&plan), start("A01"), 1010),
        Err(PlanError::ForeignStep)
    );
    plan.steps[0].owner = "root".to_string();
    complete(&mut plan, 0, 1005);
    for change in [start("A01"), cancel("A01", "Undo"), pause("A01", "Undo")] {
        assert_eq!(
            request(Some(&plan), change, 1010),
            Err(PlanError::FinishedStep)
        );
    }
    let mut changed = definitions(&plan);
    changed[0].title = "Rewritten".to_string();
    let revision = |steps| PlanAction::Revise {
        stages: plan.stages.clone(),
        steps,
        reason: "Refine".to_string(),
    };
    assert_eq!(
        request(Some(&plan), revision(changed), 1010),
        Err(PlanError::FinishedStep)
    );
    let revised = request(Some(&plan), revision(definitions(&plan)), 1010).unwrap();
    assert_eq!(revised.steps, plan.steps);
}

#[test]
fn only_running_steps_submit_bounded_evidence() {
    let plan = two_stages();
    assert_eq!(
        request(Some(&plan), submit("A01", &["output"]), 1010),
        Err(PlanError::NotRunning)
    );
    let started = request(Some(&plan), start("A01"), 1010).unwrap();
    let long = "x".repeat(1025);
    for evidence in [
        vec![],
        vec!["  "],
        vec!["output"; 9],
        vec![long.as_str()],
    ] {
        assert_eq!(
            request(Some(&started), submit("A01", &evidence), 1020),
            Err(PlanError::UnboundedEvidence)
        );
    }
    let submitted = request(Some(&started), submit("A01", &["output"]), 1020).unwrap();
    assert_eq!(submitted.steps[0].state, PlanStepState::Reviewing);
    assert_eq!(submitted.review, PlanReviewState::Due);
    assert_eq!(submitted.next_review_at, 1020);
    assert_eq!(
        submitted.reason,
        "Submitted A01 for independent verification"
    );
    for now in [1020, 5000] {
        assert_eq!(submitted.steps[0].elapsed_at(now), 10);
    }
}

#[test]
fn interruptions_and_revisions_are_explained() {
    let plan = two_stages();
    for change in [pause("A01", "\t"), cancel("A01", "")] {
        assert_eq!(
            request(Some(&plan), change, 1010),
            Err(PlanError::UnexplainedInterruption)
        );
    }
    assert_eq!(
        request(
            Some(&plan),
            PlanAction::Revise {
                stages: plan.stages.clone(),
                steps: definitions(&plan),
                reason: "\n".to_string(),
            },
            1010
        ),
        Err(PlanError::UnexplainedRevision)
    );
}

#[test]
fn revisions_keep_every_step_in_its_stage() {
    let plan = two_stages();
    let revise = |steps: Vec<PlanStepDefinition>| {
        request(
            Some(&plan),
            PlanAction::Revise {
                stages: plan.stages.clone(),
                steps,
                reason: "Refine".to_string(),
            },
            1010,
        )
    };
    assert_eq!(
        revise(definitions(&plan)[..2].to_vec()),
        Err(PlanError::DroppedStep)
    );
    let mut moved = definitions(&plan);
    moved[1].stage_id = "S02".to_string();
    assert_eq!(revise(moved), Err(PlanError::MovedStep));
    let mut grown = definitions(&plan);
    grown[0].estimate_seconds = 90;
    grown.push(definition("A04", "S02", &["A03"]));
    let revised = revise(grown).unwrap();
    assert_eq!(revised.steps[0].initial_estimate_seconds, 60);
    assert_eq!(revised.steps[0].definition.estimate_seconds, 90);
    assert_eq!(revised.steps[3].initial_estimate_seconds, 60);
    assert_eq!(revised.steps[3].state, PlanStepState::Pending);
    let mut unavailable = plan.clone();
    unavailable.review = PlanReviewState::Unavailable;
    let due = request(
        Some(&unavailable),
        PlanAction::Revise {
            stages: plan.stages.clone(),
            steps: definitions(&plan),
            reason: "Refine".to_string(),
        },
        1010,
    )
    .unwrap();
    assert_eq!(
        (due.review, due.next_review_at),
        (PlanReviewState::Due, 1010)
    );
}

#[test]
fn invalid_plans_are_refused_with_their_first_fault() {
    let mut faults: Vec<(PlanError, ContinuousPlanning)> = Vec::new();
    let mut fault = |error, change: &dyn Fn(&mut ContinuousPlanning)| {
        let mut plan = two_stages();
        change(&mut plan);
        faults.push((error, plan));
    };
    fault(PlanError::TextTooLong, &|plan| {
        plan.objective = "x".repeat(2049)
    });
    fault(PlanError::TextTooLong, &|plan| {
        plan.reason = "é".repeat(1025)
    });
    fault(PlanError::Counts, &|plan| plan.stages.clear());
    fault(PlanError::Counts, &|plan| plan.steps.clear());
    fault(PlanError::Counts, &|plan| {
        plan.stages = (0..17).map(|index| stage(&format!("S{index}"))).collect()
    });
    fault(PlanError::Counts, &|plan| {
        let step = plan.steps[0].clone();
        plan.steps = vec![step; 65];
    });
    fault(PlanError::StageIds, &|plan| {
        plan.stages[1].id = "S01".to_string()
    });
    fault(PlanError::StageIds, &|plan| {
        plan.stages[0].id = String::new()
    });
    fault(PlanError::StageIds, &|plan| {
        plan.stages[0].id = "s".repeat(65)
    });
    fault(PlanError::StageDescription, &|plan| {
        plan.stages[0].title = "Two\nlines".to_string()
    });
    fault(PlanError::StageDescription, &|plan| {
        plan.stages[0].acceptance = String::new()
    });
    fault(PlanError::StageEstimate, &|plan| {
        plan.stages[0].estimate_seconds = 0
    });
    fault(PlanError::StageEstimate, &|plan| {
        plan.stages[0].estimate_seconds = 31_536_001
    });
    fault(PlanError::Assumptions, &|plan| {
        plan.stages[0].assumptions = vec!["x".repeat(513)]
    });
    fault(PlanError::Assumptions, &|plan| {
        plan.stages[0].assumptions = vec![String::new(); 9]
    });
    fault(PlanError::UnknownStage, &|plan| {
        plan.steps[0].definition.stage_id = "S03".to_string()
    });
    fault(PlanError::StageOrder, &|plan| {
        plan.steps[0].definition.stage_id = "S02".to_string()
    });
    fault(PlanError::Dependencies, &|plan| {
        plan.steps[0].definition.dependencies = vec!["A02".to_string()]
    });
    fault(PlanError::Dependencies, &|plan| {
        plan.steps[1].definition.dependencies = vec!["A01".to_string(); 17]
    });
    fault(PlanError::StepIds, &|plan| {
        plan.steps[2].definition.id = "A01".to_string()
    });
    fault(PlanError::StepIds, &|plan| {
        plan.steps[2].definition.id = String::new()
    });
    fault(PlanError::StepDescription, &|plan| {
        plan.steps[2].definition.title = " ".to_string()
    });
    fault(PlanError::StepDescription, &|plan| {
        plan.steps[2].definition.title = "x".repeat(129)
    });
    fault(PlanError::StepEstimate, &|plan| {
        plan.steps[2].definition.estimate_seconds = -1
    });
    for (error, plan) in faults {
        assert_eq!(validate(&plan), Err(error));
    }
    let mut widest = two_stages();
    widest.objective = "é".repeat(1024);
    widest.stages[0].assumptions = vec!["x".repeat(512); 8];
    widest.steps[1].definition.dependencies = vec!["A01".to_string(); 16];
    assert_eq!(validate(&widest), Ok(()));
}

#[test]
fn explanations_of_refused_requests() {
    assert_eq!(
        PlanError::StaleVersion.message(),
        "stale version; read the plan and retry"
    );
    assert_eq!(
        PlanError::UnboundedEvidence.message(),
        "provide 1–8 bounded evidence references"
    );
    assert_eq!(
        PlanError::CannotStart.message(),
        "step cannot start in this state"
    );
}

#[test]
fn forecasts_wait_for_dependencies_executors_and_stages() {
    let mut plan = two_stages();
    plan.steps[0].state = PlanStepState::Running;
    plan.steps[0].running_since = Some(1000);
    assert_eq!(
        plan.forecast_at(1020),
        PlanForecast {
            steps: vec![1060, 1120, 1180],
            completed_at: 1180
        }
    );
    plan.steps[2].owner = "another".to_string();
    assert_eq!(plan.forecast_at(1020).steps, vec![1060, 1120, 1180]);
    // Overdue work has nothing left, and later steps start no earlier than now.
    assert_eq!(plan.forecast_at(1200).steps, vec![1200, 1260, 1320]);
    plan.steps.pop();
    assert_eq!(plan.forecast_at(1020).completed_at, 1240);
}

#[test]
fn complete_plans_keep_their_forecast() {
    let mut plan = two_stages();
    complete(&mut plan, 0, 1100);
    complete(&mut plan, 1, 1300);
    complete(&mut plan, 2, 1200);
    assert!(plan.is_complete());
    for now in [1000, 1300, 9000] {
        assert_eq!(
            plan.forecast_at(now),
            PlanForecast {
                steps: vec![1100, 1300, 1200],
                completed_at: 1300
            }
        );
    }
    for step in &mut plan.steps {
        step.state = PlanStepState::Cancelled;
        step.completed_at = None;
    }
    assert_eq!(plan.forecast_at(9000).completed_at, plan.updated_at);
}

#[test]
fn clocks_that_move_back_add_no_time() {
    let mut step = two_stages().steps.remove(0);
    step.elapsed_seconds = 7;
    step.running_since = Some(100);
    assert_eq!(step.elapsed_at(90), 7);
    assert_eq!(step.elapsed_at(105), 12);
    step.elapsed_seconds = i64::MAX - 1;
    assert_eq!(step.elapsed_at(200), i64::MAX);
    assert_eq!(saturating_sum(i64::MIN, -1), i64::MIN);
    assert_eq!(saturating_difference(i64::MAX, -1), i64::MAX);
}
