//! Durable stage planning. Actual timestamps are assigned by the host, not the model.

use crate::text::clone_texts;
use crate::text::same_texts;
use crate::text::texts;
use vstd::prelude::*;

verus! {

/// The nearest value that a 64-bit signed integer holds.
pub open spec fn saturate(n: int) -> int {
    if n > i64::MAX {
        i64::MAX as int
    } else if n < i64::MIN {
        i64::MIN as int
    } else {
        n
    }
}

pub open spec fn larger(a: int, b: int) -> int {
    if a >= b {
        a
    } else {
        b
    }
}

pub fn saturating_sum(a: i64, b: i64) -> (sum: i64)
    ensures
        sum == saturate(a + b),
{
    match a.checked_add(b) {
        Some(sum) => sum,
        None => if b > 0 {
            i64::MAX
        } else {
            i64::MIN
        },
    }
}

pub fn saturating_difference(a: i64, b: i64) -> (difference: i64)
    ensures
        difference == saturate(a - b),
{
    match a.checked_sub(b) {
        Some(difference) => difference,
        None => if b < 0 {
            i64::MAX
        } else {
            i64::MIN
        },
    }
}

pub fn larger_of(a: i64, b: i64) -> (m: i64)
    ensures
        m == larger(a as int, b as int),
{
    if a >= b {
        a
    } else {
        b
    }
}

pub open spec fn optional_int(value: Option<i64>) -> Option<int> {
    match value {
        Some(n) => Some(n as int),
        None => None,
    }
}

#[derive(Clone, Copy, Debug, PartialEq, Eq, Structural)]
pub enum PlanStepState {
    Pending,
    Running,
    Reviewing,
    Completed,
    Blocked,
    Cancelled,
}

impl Default for PlanStepState {
    fn default() -> (state: Self)
        ensures
            state == PlanStepState::Pending,
    {
        PlanStepState::Pending
    }
}

impl PlanStepState {
    /// Completed and cancelled steps are finished; nothing changes them any more.
    pub open spec fn finished(self) -> bool {
        self == PlanStepState::Completed || self == PlanStepState::Cancelled
    }

    pub fn is_finished(self) -> (yes: bool)
        ensures
            yes == self.finished(),
    {
        matches!(self, PlanStepState::Completed | PlanStepState::Cancelled)
    }
}

#[derive(Debug, PartialEq, Eq)]
pub struct PlanStage {
    pub id: String,
    pub title: String,
    pub acceptance: String,
    pub assumptions: Vec<String>,
    pub estimate_seconds: i64,
}

pub struct StageView {
    pub id: Seq<char>,
    pub title: Seq<char>,
    pub acceptance: Seq<char>,
    pub assumptions: Seq<Seq<char>>,
    pub estimate_seconds: int,
}

impl View for PlanStage {
    type V = StageView;

    open spec fn view(&self) -> StageView {
        StageView {
            id: self.id@,
            title: self.title@,
            acceptance: self.acceptance@,
            assumptions: texts(self.assumptions@),
            estimate_seconds: self.estimate_seconds as int,
        }
    }
}

impl Clone for PlanStage {
    fn clone(&self) -> (copy: Self)
        ensures
            copy@ == self@,
    {
        PlanStage {
            id: self.id.clone(),
            title: self.title.clone(),
            acceptance: self.acceptance.clone(),
            assumptions: clone_texts(&self.assumptions),
            estimate_seconds: self.estimate_seconds,
        }
    }
}

#[derive(Debug, PartialEq, Eq)]
pub struct PlanStepDefinition {
    pub id: String,
    pub stage_id: String,
    pub title: String,
    pub acceptance: String,
    pub dependencies: Vec<String>,
    pub estimate_seconds: i64,
}

pub struct DefinitionView {
    pub id: Seq<char>,
    pub stage_id: Seq<char>,
    pub title: Seq<char>,
    pub acceptance: Seq<char>,
    pub dependencies: Seq<Seq<char>>,
    pub estimate_seconds: int,
}

impl View for PlanStepDefinition {
    type V = DefinitionView;

    open spec fn view(&self) -> DefinitionView {
        DefinitionView {
            id: self.id@,
            stage_id: self.stage_id@,
            title: self.title@,
            acceptance: self.acceptance@,
            dependencies: texts(self.dependencies@),
            estimate_seconds: self.estimate_seconds as int,
        }
    }
}

impl Clone for PlanStepDefinition {
    fn clone(&self) -> (copy: Self)
        ensures
            copy@ == self@,
    {
        PlanStepDefinition {
            id: self.id.clone(),
            stage_id: self.stage_id.clone(),
            title: self.title.clone(),
            acceptance: self.acceptance.clone(),
            dependencies: clone_texts(&self.dependencies),
            estimate_seconds: self.estimate_seconds,
        }
    }
}

impl PlanStepDefinition {
    /// Whether two definitions agree in every field.
    pub fn same(&self, other: &Self) -> (same: bool)
        ensures
            same == (self@ == other@),
    {
        self.id == other.id && self.stage_id == other.stage_id && self.title == other.title
            && self.acceptance == other.acceptance && same_texts(
            &self.dependencies,
            &other.dependencies,
        ) && self.estimate_seconds == other.estimate_seconds
    }
}

#[derive(Debug, PartialEq, Eq)]
pub struct TimedPlanStep {
    pub definition: PlanStepDefinition,
    pub state: PlanStepState,
    pub owner: String,
    pub initial_estimate_seconds: i64,
    pub elapsed_seconds: i64,
    pub started_at: Option<i64>,
    pub running_since: Option<i64>,
    pub submitted_at: Option<i64>,
    pub completed_at: Option<i64>,
    pub evidence: Vec<String>,
}

pub struct StepView {
    pub definition: DefinitionView,
    pub state: PlanStepState,
    pub owner: Seq<char>,
    pub initial_estimate_seconds: int,
    pub elapsed_seconds: int,
    pub started_at: Option<int>,
    pub running_since: Option<int>,
    pub submitted_at: Option<int>,
    pub completed_at: Option<int>,
    pub evidence: Seq<Seq<char>>,
}

impl View for TimedPlanStep {
    type V = StepView;

    open spec fn view(&self) -> StepView {
        StepView {
            definition: self.definition@,
            state: self.state,
            owner: self.owner@,
            initial_estimate_seconds: self.initial_estimate_seconds as int,
            elapsed_seconds: self.elapsed_seconds as int,
            started_at: optional_int(self.started_at),
            running_since: optional_int(self.running_since),
            submitted_at: optional_int(self.submitted_at),
            completed_at: optional_int(self.completed_at),
            evidence: texts(self.evidence@),
        }
    }
}

impl Clone for TimedPlanStep {
    fn clone(&self) -> (copy: Self)
        ensures
            copy@ == self@,
    {
        TimedPlanStep {
            definition: self.definition.clone(),
            state: self.state,
            owner: self.owner.clone(),
            initial_estimate_seconds: self.initial_estimate_seconds,
            elapsed_seconds: self.elapsed_seconds,
            started_at: self.started_at,
            running_since: self.running_since,
            submitted_at: self.submitted_at,
            completed_at: self.completed_at,
            evidence: clone_texts(&self.evidence),
        }
    }
}

impl StepView {
    /// Recorded time plus the time of the current run; a clock that moved back adds nothing.
    pub open spec fn elapsed_at(self, now: int) -> int {
        saturate(
            self.elapsed_seconds + match self.running_since {
                Some(start) => larger(saturate(now - start), 0),
                None => 0,
            },
        )
    }

    /// The estimate less the elapsed time is representable.
    pub open spec fn remaining_fits(self, now: int) -> bool {
        i64::MIN <= self.definition.estimate_seconds - self.elapsed_at(now) <= i64::MAX
    }

    /// Estimated work that is left, never negative.
    pub open spec fn remaining_at(self, now: int) -> int {
        larger(self.definition.estimate_seconds - self.elapsed_at(now), 0)
    }
}

impl TimedPlanStep {
    pub fn elapsed_at(&self, now: i64) -> (elapsed: i64)
        ensures
            elapsed == self@.elapsed_at(now as int),
    {
        match self.running_since {
            Some(start) => saturating_sum(
                self.elapsed_seconds,
                larger_of(saturating_difference(now, start), 0),
            ),
            None => self.elapsed_seconds,
        }
    }
}

#[derive(Clone, Copy, Debug, PartialEq, Eq, Structural)]
pub enum PlanReviewState {
    Idle,
    Due,
    Running,
    Unavailable,
}

impl Default for PlanReviewState {
    fn default() -> (state: Self)
        ensures
            state == PlanReviewState::Idle,
    {
        PlanReviewState::Idle
    }
}

#[derive(Debug, PartialEq, Eq)]
pub struct ContinuousPlanning {
    /// Host-assigned identity, retained across revisions and changed for a new task.
    pub id: String,
    pub version: i64,
    pub objective: String,
    pub acceptance: String,
    pub stages: Vec<PlanStage>,
    pub steps: Vec<TimedPlanStep>,
    pub review: PlanReviewState,
    pub updated_at: i64,
    pub next_review_at: i64,
    pub estimated_completion_at: i64,
    pub reason: String,
}

pub struct PlanView {
    pub id: Seq<char>,
    pub version: int,
    pub objective: Seq<char>,
    pub acceptance: Seq<char>,
    pub stages: Seq<StageView>,
    pub steps: Seq<StepView>,
    pub review: PlanReviewState,
    pub updated_at: int,
    pub next_review_at: int,
    pub estimated_completion_at: int,
    pub reason: Seq<char>,
}

pub open spec fn stage_views(stages: Seq<PlanStage>) -> Seq<StageView> {
    stages.map_values(|stage: PlanStage| stage@)
}

pub open spec fn definition_views(definitions: Seq<PlanStepDefinition>) -> Seq<DefinitionView> {
    definitions.map_values(|definition: PlanStepDefinition| definition@)
}

pub open spec fn step_views(steps: Seq<TimedPlanStep>) -> Seq<StepView> {
    steps.map_values(|step: TimedPlanStep| step@)
}

impl View for ContinuousPlanning {
    type V = PlanView;

    open spec fn view(&self) -> PlanView {
        PlanView {
            id: self.id@,
            version: self.version as int,
            objective: self.objective@,
            acceptance: self.acceptance@,
            stages: stage_views(self.stages@),
            steps: step_views(self.steps@),
            review: self.review,
            updated_at: self.updated_at as int,
            next_review_at: self.next_review_at as int,
            estimated_completion_at: self.estimated_completion_at as int,
            reason: self.reason@,
        }
    }
}

pub fn clone_stages(stages: &Vec<PlanStage>) -> (copy: Vec<PlanStage>)
    ensures
        stage_views(copy@) == stage_views(stages@),
{
    let mut copy: Vec<PlanStage> = Vec::new();
    let mut i: usize = 0;
    while i < stages.len()
        invariant
            i <= stages@.len(),
            copy@.len() == i,
            forall|k: int| 0 <= k < i ==> (#[trigger] copy@[k])@ == stages@[k]@,
        decreases stages.len() - i,
    {
        copy.push(stages[i].clone());
        i += 1;
    }
    assert(stage_views(copy@) =~= stage_views(stages@));
    copy
}

pub fn clone_steps(steps: &Vec<TimedPlanStep>) -> (copy: Vec<TimedPlanStep>)
    ensures
        step_views(copy@) == step_views(steps@),
{
    let mut copy: Vec<TimedPlanStep> = Vec::new();
    let mut i: usize = 0;
    while i < steps.len()
        invariant
            i <= steps@.len(),
            copy@.len() == i,
            forall|k: int| 0 <= k < i ==> (#[trigger] copy@[k])@ == steps@[k]@,
        decreases steps.len() - i,
    {
        copy.push(steps[i].clone());
        i += 1;
    }
    assert(step_views(copy@) =~= step_views(steps@));
    copy
}

impl Clone for ContinuousPlanning {
    fn clone(&self) -> (copy: Self)
        ensures
            copy@ == self@,
    {
        ContinuousPlanning {
            id: self.id.clone(),
            version: self.version,
            objective: self.objective.clone(),
            acceptance: self.acceptance.clone(),
            stages: clone_stages(&self.stages),
            steps: clone_steps(&self.steps),
            review: self.review,
            updated_at: self.updated_at,
            next_review_at: self.next_review_at,
            estimated_completion_at: self.estimated_completion_at,
            reason: self.reason.clone(),
        }
    }
}

/// A forecast at one host timestamp, accounting for stage gates and executor dependencies.
#[derive(Debug, PartialEq, Eq)]
pub struct PlanForecast {
    /// Step completion timestamps in the same order as `ContinuousPlanning::steps`.
    pub steps: Vec<i64>,
    pub completed_at: i64,
}

pub struct ForecastView {
    pub steps: Seq<int>,
    pub completed_at: int,
}

pub open spec fn times(values: Seq<i64>) -> Seq<int> {
    values.map_values(|n: i64| n as int)
}

impl View for PlanForecast {
    type V = ForecastView;

    open spec fn view(&self) -> ForecastView {
        ForecastView { steps: times(self.steps@), completed_at: self.completed_at as int }
    }
}

/// One step as the forecast meets it, stage by stage, with its predicted completion.
pub struct Visit {
    pub step: int,
    pub finish: int,
}

/// The latest of `from` and the completions of some visits.
pub open spec fn latest(visits: Seq<Visit>, from: int) -> int
    decreases visits.len(),
{
    if visits.len() == 0 {
        from
    } else {
        larger(latest(visits.drop_last(), from), visits.last().finish)
    }
}

/// The completion that the most recent visit of a step predicted, or `default` without one.
pub open spec fn visited_finish(visits: Seq<Visit>, step: int, default: int) -> int
    decreases visits.len(),
{
    if visits.len() == 0 {
        default
    } else if visits.last().step == step {
        visits.last().finish
    } else {
        visited_finish(visits.drop_last(), step, default)
    }
}

/// The later of two optional times.
pub open spec fn later(a: Option<int>, b: Option<int>) -> Option<int> {
    match (a, b) {
        (Some(x), Some(y)) => Some(larger(x, y)),
        (Some(x), None) => Some(x),
        (None, y) => y,
    }
}

/// The latest recorded completion among some steps.
pub open spec fn latest_completion(steps: Seq<StepView>) -> Option<int>
    decreases steps.len(),
{
    if steps.len() == 0 {
        None
    } else {
        later(latest_completion(steps.drop_last()), steps.last().completed_at)
    }
}

impl PlanView {
    /// Whether some step belongs to a stage.
    pub open spec fn expanded(self, stage_id: Seq<char>) -> bool {
        exists|i: int|
            0 <= i < self.steps.len() && (#[trigger] self.steps[i]).definition.stage_id == stage_id
    }

    pub open spec fn all_finished(self) -> bool {
        forall|i: int| 0 <= i < self.steps.len() ==> (#[trigger] self.steps[i]).state.finished()
    }

    pub open spec fn all_expanded(self) -> bool {
        forall|k: int| 0 <= k < self.stages.len() ==> self.expanded((#[trigger] self.stages[k]).id)
    }

    /// Whether every step is finished and every stage has steps.
    pub open spec fn complete(self) -> bool {
        self.all_finished() && self.all_expanded()
    }

    pub open spec fn has_stage(self, stage_id: Seq<char>) -> bool {
        exists|k: int| 0 <= k < self.stages.len() && (#[trigger] self.stages[k]).id == stage_id
    }

    /// The remaining time of every step that the forecast adds up is representable.
    pub open spec fn forecast_fits(self, now: int) -> bool {
        forall|i: int|
            0 <= i < self.steps.len() && !(#[trigger] self.steps[i]).state.finished()
                && self.has_stage(self.steps[i].definition.stage_id)
                ==> self.steps[i].remaining_fits(now)
    }

    /// The completion of the most recently visited step with an ID.
    pub open spec fn dependency_finish(self, visits: Seq<Visit>, id: Seq<char>) -> Option<int>
        decreases visits.len(),
    {
        if visits.len() == 0 {
            None
        } else if self.steps[visits.last().step].definition.id == id {
            Some(visits.last().finish)
        } else {
            self.dependency_finish(visits.drop_last(), id)
        }
    }

    /// The latest completion among the dependencies that were visited.
    pub open spec fn dependencies_end(
        self,
        visits: Seq<Visit>,
        dependencies: Seq<Seq<char>>,
    ) -> Option<int>
        decreases dependencies.len(),
    {
        if dependencies.len() == 0 {
            None
        } else {
            later(
                self.dependencies_end(visits, dependencies.drop_last()),
                self.dependency_finish(visits, dependencies.last()),
            )
        }
    }

    /// When an executor is free: no earlier than `now`, nor than any of its visited steps.
    pub open spec fn owner_end(self, visits: Seq<Visit>, owner: Seq<char>, now: int) -> int
        decreases visits.len(),
    {
        if visits.len() == 0 {
            now
        } else if self.steps[visits.last().step].owner == owner {
            larger(self.owner_end(visits.drop_last(), owner, now), visits.last().finish)
        } else {
            self.owner_end(visits.drop_last(), owner, now)
        }
    }

    /// A finished step keeps its completion time. Any other step starts when its stage, its
    /// dependencies and its executor allow, and then takes its remaining time.
    pub open spec fn step_finish(
        self,
        visits: Seq<Visit>,
        step: StepView,
        stage_start: int,
        now: int,
    ) -> int {
        if step.state.finished() {
            match step.completed_at {
                Some(at) => at,
                None => now,
            }
        } else {
            let dependencies = match self.dependencies_end(visits, step.definition.dependencies) {
                Some(at) => at,
                None => now,
            };
            let start = larger(
                larger(stage_start, dependencies),
                self.owner_end(visits, step.owner, now),
            );
            saturate(start + step.remaining_at(now))
        }
    }

    /// The visits after those of a stage's steps among the first `count` steps.
    pub open spec fn visit_stage(
        self,
        stage_id: Seq<char>,
        count: int,
        visits: Seq<Visit>,
        stage_start: int,
        now: int,
    ) -> Seq<Visit>
        decreases count,
    {
        if count <= 0 {
            visits
        } else {
            let before = self.visit_stage(stage_id, count - 1, visits, stage_start, now);
            let step = self.steps[count - 1];
            if step.definition.stage_id == stage_id {
                before.push(
                    Visit {
                        step: count - 1,
                        finish: self.step_finish(before, step, stage_start, now),
                    },
                )
            } else {
                before
            }
        }
    }

    /// The visits and the end of the first `count` stages. A stage starts when the one before
    /// it ends; a stage without steps takes its own estimate.
    pub open spec fn forecast_stages(self, count: int, now: int) -> (Seq<Visit>, int)
        decreases count,
    {
        if count <= 0 {
            (Seq::empty(), now)
        } else {
            let (before, start) = self.forecast_stages(count - 1, now);
            let stage = self.stages[count - 1];
            let after = self.visit_stage(stage.id, self.steps.len() as int, before, start, now);
            let end = if self.expanded(stage.id) {
                latest(after.skip(before.len() as int), start)
            } else {
                saturate(start + stage.estimate_seconds)
            };
            (after, end)
        }
    }

    /// The forecast of a plan. A complete plan keeps the time at which it was completed.
    pub open spec fn forecast_at(self, now: int) -> ForecastView {
        let (visits, end) = self.forecast_stages(self.stages.len() as int, now);
        ForecastView {
            steps: Seq::new(self.steps.len(), |i: int| visited_finish(visits, i, now)),
            completed_at: if self.complete() {
                match latest_completion(self.steps) {
                    Some(at) => at,
                    None => self.updated_at,
                }
            } else {
                end
            },
        }
    }
}

/// The visits that a list of step indices and completions stands for.
spec fn visit_views(visits: Seq<(usize, i64)>) -> Seq<Visit> {
    visits.map_values(|v: (usize, i64)| Visit { step: v.0 as int, finish: v.1 as int })
}

spec fn visits_in_range(visits: Seq<(usize, i64)>, count: nat) -> bool {
    forall|k: int| 0 <= k < visits.len() ==> (#[trigger] visits[k]).0 < count
}

fn later_of(a: Option<i64>, b: Option<i64>) -> (m: Option<i64>)
    ensures
        optional_int(m) == later(optional_int(a), optional_int(b)),
{
    match (a, b) {
        (Some(x), Some(y)) => Some(larger_of(x, y)),
        (Some(x), None) => Some(x),
        (None, y) => y,
    }
}

impl ContinuousPlanning {
    fn dependency_finish(&self, visits: &Vec<(usize, i64)>, id: &String) -> (at: Option<i64>)
        requires
            visits_in_range(visits@, self.steps@.len()),
        ensures
            optional_int(at) == self@.dependency_finish(visit_views(visits@), id@),
    {
        let mut k: usize = visits.len();
        assert(visit_views(visits@).take(k as int) =~= visit_views(visits@));
        while k > 0
            invariant
                k <= visits@.len(),
                visits_in_range(visits@, self.steps@.len()),
                self@.dependency_finish(visit_views(visits@), id@) == self@.dependency_finish(
                    visit_views(visits@).take(k as int),
                    id@,
                ),
            decreases k,
        {
            let ghost seen = visit_views(visits@).take(k as int);
            assert(seen.drop_last() =~= visit_views(visits@).take(k - 1));
            k -= 1;
            let (step, finish) = visits[k];
            assert(self@.steps[step as int] == self.steps@[step as int]@);
            if self.steps[step].definition.id == *id {
                return Some(finish);
            }
        }
        None
    }

    fn dependencies_end(&self, visits: &Vec<(usize, i64)>, dependencies: &Vec<String>) -> (at:
        Option<i64>)
        requires
            visits_in_range(visits@, self.steps@.len()),
        ensures
            optional_int(at) == self@.dependencies_end(
                visit_views(visits@),
                texts(dependencies@),
            ),
    {
        let mut at: Option<i64> = None;
        let mut k: usize = 0;
        while k < dependencies.len()
            invariant
                k <= dependencies@.len(),
                visits_in_range(visits@, self.steps@.len()),
                optional_int(at) == self@.dependencies_end(
                    visit_views(visits@),
                    texts(dependencies@).take(k as int),
                ),
            decreases dependencies.len() - k,
        {
            let ghost seen = texts(dependencies@).take(k + 1);
            assert(seen.drop_last() =~= texts(dependencies@).take(k as int));
            at = later_of(at, self.dependency_finish(visits, &dependencies[k]));
            k += 1;
        }
        assert(texts(dependencies@).take(k as int) =~= texts(dependencies@));
        at
    }

    fn owner_end(&self, visits: &Vec<(usize, i64)>, owner: &String, now: i64) -> (at: i64)
        requires
            visits_in_range(visits@, self.steps@.len()),
        ensures
            at == self@.owner_end(visit_views(visits@), owner@, now as int),
    {
        let mut at: i64 = now;
        let mut k: usize = 0;
        while k < visits.len()
            invariant
                k <= visits@.len(),
                visits_in_range(visits@, self.steps@.len()),
                at == self@.owner_end(visit_views(visits@).take(k as int), owner@, now as int),
            decreases visits.len() - k,
        {
            let ghost seen = visit_views(visits@).take(k + 1);
            assert(seen.drop_last() =~= visit_views(visits@).take(k as int));
            let (step, finish) = visits[k];
            assert(self@.steps[step as int] == self.steps@[step as int]@);
            if self.steps[step].owner == *owner {
                at = larger_of(at, finish);
            }
            k += 1;
        }
        assert(visit_views(visits@).take(k as int) =~= visit_views(visits@));
        at
    }

    fn step_finish(
        &self,
        visits: &Vec<(usize, i64)>,
        step: &TimedPlanStep,
        stage_start: i64,
        now: i64,
    ) -> (finish: i64)
        requires
            visits_in_range(visits@, self.steps@.len()),
            !step.state.finished() ==> step@.remaining_fits(now as int),
        ensures
            finish == self@.step_finish(
                visit_views(visits@),
                step@,
                stage_start as int,
                now as int,
            ),
    {
        if step.state.is_finished() {
            return match step.completed_at {
                Some(at) => at,
                None => now,
            };
        }
        let dependencies = match self.dependencies_end(visits, &step.definition.dependencies) {
            Some(at) => at,
            None => now,
        };
        let start = larger_of(
            larger_of(stage_start, dependencies),
            self.owner_end(visits, &step.owner, now),
        );
        let remaining = larger_of(step.definition.estimate_seconds - step.elapsed_at(now), 0);
        saturating_sum(start, remaining)
    }

    /// Visits the steps of one stage and returns when the stage ends.
    fn visit_stage(
        &self,
        index: usize,
        visits: &mut Vec<(usize, i64)>,
        stage_start: i64,
        now: i64,
    ) -> (end: i64)
        requires
            index < self.stages@.len(),
            visits_in_range(old(visits)@, self.steps@.len()),
            self@.forecast_fits(now as int),
        ensures
            visits_in_range(final(visits)@, self.steps@.len()),
            visit_views(final(visits)@) == self@.visit_stage(
                self@.stages[index as int].id,
                self@.steps.len() as int,
                visit_views(old(visits)@),
                stage_start as int,
                now as int,
            ),
            end == (if self@.expanded(self@.stages[index as int].id) {
                latest(
                    visit_views(final(visits)@).skip(old(visits)@.len() as int),
                    stage_start as int,
                )
            } else {
                saturate(stage_start + self@.stages[index as int].estimate_seconds)
            }),
    {
        let ghost plan = self@;
        let ghost stage_id = plan.stages[index as int].id;
        let ghost before = visit_views(visits@);
        let stage = &self.stages[index];
        let mut expanded = false;
        let mut end: i64 = stage_start;
        let mut i: usize = 0;
        assert(before.skip(before.len() as int) =~= Seq::<Visit>::empty());
        while i < self.steps.len()
            invariant
                i <= self.steps@.len(),
                index < self.stages@.len(),
                plan == self@,
                stage_id == plan.stages[index as int].id,
                stage@ == plan.stages[index as int],
                plan.forecast_fits(now as int),
                visits_in_range(visits@, self.steps@.len()),
                before.len() <= visits@.len(),
                visit_views(visits@) == plan.visit_stage(
                    stage_id,
                    i as int,
                    before,
                    stage_start as int,
                    now as int,
                ),
                end == latest(visit_views(visits@).skip(before.len() as int), stage_start as int),
                expanded == exists|k: int|
                    0 <= k < i && (#[trigger] plan.steps[k]).definition.stage_id == stage_id,
            decreases self.steps.len() - i,
        {
            let step = &self.steps[i];
            assert(plan.steps[i as int] == step@);
            if step.definition.stage_id == stage.id {
                expanded = true;
                assert(plan.has_stage(stage_id));
                let finish = self.step_finish(visits, step, stage_start, now);
                let ghost seen = visit_views(visits@);
                let ghost visit = Visit { step: i as int, finish: finish as int };
                visits.push((i, finish));
                end = larger_of(end, finish);
                assert(visit_views(visits@) =~= seen.push(visit));
                assert(seen.push(visit).skip(before.len() as int) =~= seen.skip(
                    before.len() as int,
                ).push(visit));
                assert(seen.skip(before.len() as int).push(visit).drop_last() =~= seen.skip(
                    before.len() as int,
                ));
            }
            i += 1;
        }
        if expanded {
            end
        } else {
            saturating_sum(stage_start, stage.estimate_seconds)
        }
    }

    /// Whether some step belongs to a stage.
    pub fn is_expanded(&self, stage_id: &String) -> (yes: bool)
        ensures
            yes == self@.expanded(stage_id@),
    {
        let mut i: usize = 0;
        while i < self.steps.len()
            invariant
                i <= self.steps@.len(),
                forall|k: int|
                    0 <= k < i ==> (#[trigger] self@.steps[k]).definition.stage_id != stage_id@,
            decreases self.steps.len() - i,
        {
            assert(self@.steps[i as int] == self.steps@[i as int]@);
            if self.steps[i].definition.stage_id == *stage_id {
                return true;
            }
            i += 1;
        }
        false
    }

    pub fn is_all_finished(&self) -> (yes: bool)
        ensures
            yes == self@.all_finished(),
    {
        let mut i: usize = 0;
        while i < self.steps.len()
            invariant
                i <= self.steps@.len(),
                forall|k: int| 0 <= k < i ==> (#[trigger] self@.steps[k]).state.finished(),
            decreases self.steps.len() - i,
        {
            assert(self@.steps[i as int] == self.steps@[i as int]@);
            if !self.steps[i].state.is_finished() {
                return false;
            }
            i += 1;
        }
        true
    }

    pub fn is_all_expanded(&self) -> (yes: bool)
        ensures
            yes == self@.all_expanded(),
    {
        let mut k: usize = 0;
        while k < self.stages.len()
            invariant
                k <= self.stages@.len(),
                forall|j: int| 0 <= j < k ==> self@.expanded((#[trigger] self@.stages[j]).id),
            decreases self.stages.len() - k,
        {
            assert(self@.stages[k as int] == self.stages@[k as int]@);
            if !self.is_expanded(&self.stages[k].id) {
                return false;
            }
            k += 1;
        }
        true
    }

    /// Whether every step is finished and every stage has steps.
    pub fn is_complete(&self) -> (yes: bool)
        ensures
            yes == self@.complete(),
    {
        self.is_all_finished() && self.is_all_expanded()
    }

    fn latest_completion(&self) -> (at: Option<i64>)
        ensures
            optional_int(at) == latest_completion(self@.steps),
    {
        let mut at: Option<i64> = None;
        let mut i: usize = 0;
        while i < self.steps.len()
            invariant
                i <= self.steps@.len(),
                optional_int(at) == latest_completion(self@.steps.take(i as int)),
            decreases self.steps.len() - i,
        {
            assert(self@.steps.take(i + 1).drop_last() =~= self@.steps.take(i as int));
            at = later_of(at, self.steps[i].completed_at);
            i += 1;
        }
        assert(self@.steps.take(i as int) =~= self@.steps);
        at
    }

    pub fn forecast_at(&self, now: i64) -> (forecast: PlanForecast)
        requires
            self@.forecast_fits(now as int),
        ensures
            forecast@ == self@.forecast_at(now as int),
    {
        let mut visits: Vec<(usize, i64)> = Vec::new();
        let mut completed_at: i64 = now;
        let mut k: usize = 0;
        assert(visit_views(visits@) =~= Seq::<Visit>::empty());
        while k < self.stages.len()
            invariant
                k <= self.stages@.len(),
                self@.forecast_fits(now as int),
                visits_in_range(visits@, self.steps@.len()),
                (visit_views(visits@), completed_at as int) == self@.forecast_stages(
                    k as int,
                    now as int,
                ),
            decreases self.stages.len() - k,
        {
            completed_at = self.visit_stage(k, &mut visits, completed_at, now);
            k += 1;
        }
        let steps = self.predictions(&visits, now);
        if self.is_complete() {
            completed_at = match self.latest_completion() {
                Some(at) => at,
                None => self.updated_at,
            };
        }
        let forecast = PlanForecast { steps, completed_at };
        assert(forecast@.steps =~= self@.forecast_at(now as int).steps);
        forecast
    }

    fn predictions(&self, visits: &Vec<(usize, i64)>, now: i64) -> (steps: Vec<i64>)
        requires
            visits_in_range(visits@, self.steps@.len()),
        ensures
            times(steps@) == Seq::new(
                self.steps@.len(),
                |i: int| visited_finish(visit_views(visits@), i, now as int),
            ),
    {
        let mut steps: Vec<i64> = vec![now; self.steps.len()];
        let mut k: usize = 0;
        while k < visits.len()
            invariant
                k <= visits@.len(),
                visits_in_range(visits@, self.steps@.len()),
                steps@.len() == self.steps@.len(),
                forall|i: int|
                    0 <= i < steps@.len() ==> #[trigger] steps@[i] == visited_finish(
                        visit_views(visits@).take(k as int),
                        i,
                        now as int,
                    ),
            decreases visits.len() - k,
        {
            let ghost seen = visit_views(visits@).take(k + 1);
            assert(seen.drop_last() =~= visit_views(visits@).take(k as int));
            let (step, finish) = visits[k];
            steps.set(step, finish);
            k += 1;
        }
        assert(visit_views(visits@).take(k as int) =~= visit_views(visits@));
        assert(times(steps@) =~= Seq::new(
            self.steps@.len(),
            |i: int| visited_finish(visit_views(visits@), i, now as int),
        ));
        steps
    }
}

} // verus!
