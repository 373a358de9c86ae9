//! Requests that change a plan. They never carry elapsed times or completion timestamps.

use crate::plan::definition_views;
use crate::plan::stage_views;
use crate::plan::DefinitionView;
use crate::plan::PlanStage;
use crate::plan::PlanStepDefinition;
use crate::plan::StageView;
use crate::text::texts;
use vstd::prelude::*;

verus! {

/// Model-facing mutations never accept elapsed times or completion timestamps.
#[derive(Debug)]
pub enum PlanAction {
    Create {
        objective: String,
        acceptance: String,
        stages: Vec<PlanStage>,
        steps: Vec<PlanStepDefinition>,
    },
    Revise { stages: Vec<PlanStage>, steps: Vec<PlanStepDefinition>, reason: String },
    Start { step_id: String },
    Pause { step_id: String, reason: String },
    Submit { step_id: String, evidence: Vec<String> },
    Cancel { step_id: String, reason: String },
    Read { offset: usize },
}

pub enum ActionView {
    Create {
        objective: Seq<char>,
        acceptance: Seq<char>,
        stages: Seq<StageView>,
        steps: Seq<DefinitionView>,
    },
    Revise { stages: Seq<StageView>, steps: Seq<DefinitionView>, reason: Seq<char> },
    Start { step_id: Seq<char> },
    Pause { step_id: Seq<char>, reason: Seq<char> },
    Submit { step_id: Seq<char>, evidence: Seq<Seq<char>> },
    Cancel { step_id: Seq<char>, reason: Seq<char> },
    Read { offset: int },
}

impl View for PlanAction {
    type V = ActionView;

    open spec fn view(&self) -> ActionView {
        match self {
            PlanAction::Create { objective, acceptance, stages, steps } => ActionView::Create {
                objective: objective@,
                acceptance: acceptance@,
                stages: stage_views(stages@),
                steps: definition_views(steps@),
            },
            PlanAction::Revise { stages, steps, reason } => ActionView::Revise {
                stages: stage_views(stages@),
                steps: definition_views(steps@),
                reason: reason@,
            },
            PlanAction::Start { step_id } => ActionView::Start { step_id: step_id@ },
            PlanAction::Pause { step_id, reason } => ActionView::Pause {
                step_id: step_id@,
                reason: reason@,
            },
            PlanAction::Submit { step_id, evidence } => ActionView::Submit {
                step_id: step_id@,
                evidence: texts(evidence@),
            },
            PlanAction::Cancel { step_id, reason } => ActionView::Cancel {
                step_id: step_id@,
                reason: reason@,
            },
            PlanAction::Read { offset } => ActionView::Read { offset: *offset as int },
        }
    }
}

#[derive(Debug)]
pub struct PlanActionRequest {
    pub version: i64,
    pub operation: PlanAction,
}

#[derive(Clone, Copy, Debug, PartialEq, Eq, Structural)]
pub enum PlanReviewDecision {
    Continue,
    Accept,
    Revise,
    Interrupt,
    Reassign,
}

#[derive(Debug)]
pub struct PlanAssessment {
    pub decision: PlanReviewDecision,
    pub step_id: String,
    pub reason: String,
    pub next_check_seconds: i64,
}

} // verus!
