//! A compact live task list: what it shows of a plan, and how it is moved through.

use crate::display::duration;
use crate::display::duration_text;
use crate::display::plus_decimal;
use crate::display::plus_decimal_text;
use crate::display::stamp_of;
use crate::display::timestamp;
use crate::plan::saturate;
use crate::plan::saturating_sum;
use crate::plan::ContinuousPlanning;
use crate::plan::PlanStepState;
use crate::plan::PlanView;
use crate::plan::StageView;
use crate::plan::StepView;
use crate::plan::TimedPlanStep;
use crate::text::decimal;
use crate::text::decimal_text;
use crate::text::join_texts;
use crate::text::joined;
use crate::text::optional_text;
use crate::text::same_text;
use crate::text::signed_decimal;
use crate::text::signed_decimal_text;
use crate::text::texts;
use vstd::prelude::*;
use vstd::string::StringExecFns;

verus! {

/// A movement in a list.
#[derive(Clone, Copy, Debug, PartialEq, Eq, Structural)]
pub enum ListAction {
    MoveUp,
    MoveDown,
    MoveLeft,
    MoveRight,
    PageUp,
    PageDown,
    JumpTop,
    JumpBottom,
    Accept,
    Cancel,
}

/// What the list remembers of the user: whether it has the focus, and which row is selected.
#[derive(Debug, PartialEq, Eq)]
pub struct Viewport {
    pub focused: bool,
    pub selected: Option<String>,
    /// The keys of the rows that were drawn last.
    pub rows: Vec<String>,
}

pub struct ViewportView {
    pub focused: bool,
    pub selected: Option<Seq<char>>,
    pub rows: Seq<Seq<char>>,
}

impl View for Viewport {
    type V = ViewportView;

    open spec fn view(&self) -> ViewportView {
        ViewportView {
            focused: self.focused,
            selected: optional_text(self.selected),
            rows: texts(self.rows@),
        }
    }
}

impl ViewportView {
    pub open spec fn fresh() -> ViewportView {
        ViewportView { focused: false, selected: None, rows: Seq::empty() }
    }
}

impl Default for Viewport {
    fn default() -> (view: Self)
        ensures
            view@ == ViewportView::fresh(),
    {
        let view = Viewport { focused: false, selected: None, rows: Vec::new() };
        assert(view@.rows =~= Seq::empty());
        view
    }
}

/// The task list of one plan, as it was last heard of.
#[derive(Debug, PartialEq, Eq)]
pub struct PlanProgress {
    pub plan: ContinuousPlanning,
    /// The server's clock when the plan was sent, in seconds.
    pub observed_at: i64,
    /// A monotonic clock when the plan was received, in nanoseconds.
    pub received: u64,
    pub view: Viewport,
}

pub struct ProgressView {
    pub plan: PlanView,
    pub observed_at: int,
    pub received: int,
    pub view: ViewportView,
}

impl View for PlanProgress {
    type V = ProgressView;

    open spec fn view(&self) -> ProgressView {
        ProgressView {
            plan: self.plan@,
            observed_at: self.observed_at as int,
            received: self.received as int,
            view: self.view@,
        }
    }
}

/// One row of the list: a step, or a stage that stands for its steps.
#[derive(Debug, PartialEq, Eq)]
pub struct Entry {
    pub key: String,
    pub id: String,
    pub title: String,
    pub seconds: i64,
    pub elapsed: i64,
    pub state: PlanStepState,
    /// The step's place in the plan.
    pub step: Option<usize>,
}

pub struct EntryView {
    pub key: Seq<char>,
    pub id: Seq<char>,
    pub title: Seq<char>,
    pub seconds: int,
    pub elapsed: int,
    pub state: PlanStepState,
    pub step: Option<int>,
}

impl View for Entry {
    type V = EntryView;

    open spec fn view(&self) -> EntryView {
        EntryView {
            key: self.key@,
            id: self.id@,
            title: self.title@,
            seconds: self.seconds as int,
            elapsed: self.elapsed as int,
            state: self.state,
            step: match self.step {
                Some(i) => Some(i as int),
                None => None,
            },
        }
    }
}

pub open spec fn entry_views(entries: Seq<Entry>) -> Seq<EntryView> {
    entries.map_values(|entry: Entry| entry@)
}

pub open spec fn entry_keys(entries: Seq<EntryView>) -> Seq<Seq<char>> {
    entries.map_values(|entry: EntryView| entry.key)
}

/// The first place of a text in a list.
pub open spec fn text_position(items: Seq<Seq<char>>, text: Seq<char>) -> Option<int>
    decreases items.len(),
{
    if items.len() == 0 {
        None
    } else {
        match text_position(items.drop_last(), text) {
            Some(i) => Some(i),
            None => if items.last() == text {
                Some(items.len() - 1)
            } else {
                None
            },
        }
    }
}

proof fn lemma_text_position_in_prefix(items: Seq<Seq<char>>, text: Seq<char>, count: int)
    requires
        0 <= count <= items.len(),
        text_position(items.take(count), text) is Some,
    ensures
        text_position(items, text) == text_position(items.take(count), text),
    decreases items.len() - count,
{
    if count < items.len() {
        assert(items.take(count + 1).drop_last() =~= items.take(count));
        lemma_text_position_in_prefix(items, text, count + 1);
    } else {
        assert(items.take(count) =~= items);
    }
}

fn find_text(items: &Vec<String>, text: &str) -> (found: Option<usize>)
    ensures
        (match found {
            Some(i) => Some(i as int),
            None => None,
        }) == text_position(texts(items@), text@),
        found matches Some(i) ==> i < items@.len(),
{
    let ghost all = texts(items@);
    let mut i: usize = 0;
    while i < items.len()
        invariant
            i <= items@.len(),
            all == texts(items@),
            text_position(all.take(i as int), text@) is None,
        decreases items.len() - i,
    {
        assert(all.take(i + 1).drop_last() =~= all.take(i as int));
        if same_text(items[i].as_str(), text) {
            proof {
                lemma_text_position_in_prefix(all, text@, i + 1);
            }
            return Some(i);
        }
        i += 1;
    }
    assert(all.take(i as int) =~= all);
    None
}

fn find_entry(entries: &Vec<Entry>, key: &str) -> (found: Option<usize>)
    ensures
        (match found {
            Some(i) => Some(i as int),
            None => None,
        }) == text_position(entry_keys(entry_views(entries@)), key@),
        found matches Some(i) ==> i < entries@.len(),
{
    let ghost all = entry_keys(entry_views(entries@));
    let mut i: usize = 0;
    while i < entries.len()
        invariant
            i <= entries@.len(),
            all == entry_keys(entry_views(entries@)),
            text_position(all.take(i as int), key@) is None,
        decreases entries.len() - i,
    {
        assert(all.take(i + 1).drop_last() =~= all.take(i as int));
        assert(all[i as int] == entries@[i as int]@.key);
        if same_text(entries[i].key.as_str(), key) {
            proof {
                lemma_text_position_in_prefix(all, key@, i + 1);
            }
            return Some(i);
        }
        i += 1;
    }
    assert(all.take(i as int) =~= all);
    None
}

/// The places of a stage's steps among the first `count` steps.
pub open spec fn stage_steps(steps: Seq<StepView>, stage_id: Seq<char>, count: int) -> Seq<int>
    decreases count,
{
    if count <= 0 {
        Seq::empty()
    } else if steps[count - 1].definition.stage_id == stage_id {
        stage_steps(steps, stage_id, count - 1).push(count - 1)
    } else {
        stage_steps(steps, stage_id, count - 1)
    }
}

/// The time spent on a stage's steps among the first `count` steps.
pub open spec fn stage_elapsed(
    steps: Seq<StepView>,
    stage_id: Seq<char>,
    count: int,
    now: int,
) -> int
    decreases count,
{
    if count <= 0 {
        0
    } else if steps[count - 1].definition.stage_id == stage_id {
        stage_elapsed(steps, stage_id, count - 1, now) + steps[count - 1].elapsed_at(now)
    } else {
        stage_elapsed(steps, stage_id, count - 1, now)
    }
}

pub open spec fn step_entry(steps: Seq<StepView>, i: int, now: int) -> EntryView {
    let step = steps[i];
    EntryView {
        key: "step:"@ + step.definition.id,
        id: step.definition.id,
        title: step.definition.title,
        seconds: step.definition.estimate_seconds,
        elapsed: step.elapsed_at(now),
        state: step.state,
        step: Some(i),
    }
}

impl PlanView {
    /// Whether a stage is shown as one row: it has no steps yet, or it is complete and all of it
    /// lies before the last four steps of the plan.
    pub open spec fn grouped(self, stage_id: Seq<char>) -> bool {
        let places = stage_steps(self.steps, stage_id, self.steps.len() as int);
        places.len() == 0 || (places.last() < self.steps.len() - 4 && forall|k: int|
            0 <= k < places.len() ==> self.steps[#[trigger] places[k]].state
                == PlanStepState::Completed)
    }

    pub open spec fn stage_entry(self, stage: StageView, now: int) -> EntryView {
        let n = self.steps.len() as int;
        let count = stage_steps(self.steps, stage.id, n).len();
        EntryView {
            key: "stage:"@ + stage.id,
            id: stage.id,
            title: if count == 0 {
                stage.title
            } else {
                stage.title + " ("@ + decimal(count) + " tasks)"@
            },
            seconds: if count == 0 {
                stage.estimate_seconds
            } else {
                stage_elapsed(self.steps, stage.id, n, now)
            },
            elapsed: stage_elapsed(self.steps, stage.id, n, now),
            state: if count == 0 {
                PlanStepState::Pending
            } else {
                PlanStepState::Completed
            },
            step: None,
        }
    }

    /// The rows of one stage.
    pub open spec fn rows_of_stage(self, stage: StageView, now: int) -> Seq<EntryView> {
        if self.grouped(stage.id) {
            seq![self.stage_entry(stage, now)]
        } else {
            stage_steps(self.steps, stage.id, self.steps.len() as int).map_values(
                |i: int| step_entry(self.steps, i, now),
            )
        }
    }

    /// The rows of the first `count` stages.
    pub open spec fn rows_of_stages(self, count: int, now: int) -> Seq<EntryView>
        decreases count,
    {
        if count <= 0 {
            Seq::empty()
        } else {
            self.rows_of_stages(count - 1, now) + self.rows_of_stage(self.stages[count - 1], now)
        }
    }

    pub open spec fn entries(self, now: int) -> Seq<EntryView> {
        self.rows_of_stages(self.stages.len() as int, now)
    }

    /// The times that are added up for the rows of whole stages are representable, as each step
    /// is added.
    pub open spec fn sums_fit(self, now: int) -> bool {
        forall|k: int, count: int|
            0 <= k < self.stages.len() && 0 <= count <= self.steps.len() && self.grouped(
                self.stages[k].id,
            ) ==> i64::MIN <= #[trigger] stage_elapsed(
                self.steps,
                self.stages[k].id,
                count,
                now,
            ) <= i64::MAX
    }
}

pub open spec fn as_ints(places: Seq<usize>) -> Seq<int> {
    places.map_values(|i: usize| i as int)
}

proof fn lemma_stage_steps_in_range(steps: Seq<StepView>, stage_id: Seq<char>, count: int)
    requires
        0 <= count <= steps.len(),
    ensures
        stage_steps(steps, stage_id, count).len() <= count,
        forall|k: int|
            0 <= k < stage_steps(steps, stage_id, count).len() ==> 0 <= #[trigger] stage_steps(
                steps,
                stage_id,
                count,
            )[k] < count,
    decreases count,
{
    if count > 0 {
        lemma_stage_steps_in_range(steps, stage_id, count - 1);
    }
}

fn find_stage_steps(plan: &ContinuousPlanning, stage_id: &String) -> (places: Vec<usize>)
    ensures
        as_ints(places@) == stage_steps(plan@.steps, stage_id@, plan@.steps.len() as int),
        forall|k: int| 0 <= k < places@.len() ==> (#[trigger] places@[k]) < plan.steps@.len(),
{
    let ghost steps = plan@.steps;
    let mut places: Vec<usize> = Vec::new();
    let mut i: usize = 0;
    assert(as_ints(places@) =~= Seq::empty());
    while i < plan.steps.len()
        invariant
            i <= plan.steps@.len(),
            steps == plan@.steps,
            as_ints(places@) == stage_steps(steps, stage_id@, i as int),
            forall|k: int| 0 <= k < places@.len() ==> (#[trigger] places@[k]) < plan.steps@.len(),
        decreases plan.steps.len() - i,
    {
        assert(steps[i as int] == plan.steps@[i as int]@);
        if plan.steps[i].definition.stage_id == *stage_id {
            let ghost before = places@;
            places.push(i);
            assert(as_ints(places@) =~= as_ints(before).push(i as int));
        }
        i += 1;
    }
    places
}

fn all_completed(plan: &ContinuousPlanning, places: &Vec<usize>) -> (yes: bool)
    requires
        forall|k: int| 0 <= k < places@.len() ==> (#[trigger] places@[k]) < plan.steps@.len(),
    ensures
        yes == forall|k: int|
            0 <= k < places@.len() ==> plan@.steps[#[trigger] as_ints(places@)[k]].state
                == PlanStepState::Completed,
{
    let mut k: usize = 0;
    while k < places.len()
        invariant
            k <= places@.len(),
            forall|m: int| 0 <= m < places@.len() ==> (#[trigger] places@[m]) < plan.steps@.len(),
            forall|m: int|
                0 <= m < k ==> plan@.steps[#[trigger] as_ints(places@)[m]].state
                    == PlanStepState::Completed,
        decreases places.len() - k,
    {
        let i: usize = places[k];
        assert(as_ints(places@)[k as int] == i as int);
        assert(plan@.steps[i as int] == plan.steps@[i as int]@);
        if plan.steps[i].state != PlanStepState::Completed {
            return false;
        }
        k += 1;
    }
    true
}

fn sum_elapsed(plan: &ContinuousPlanning, stage_id: &String, now: i64) -> (sum: i64)
    requires
        forall|count: int|
            0 <= count <= plan@.steps.len() ==> i64::MIN <= #[trigger] stage_elapsed(
                plan@.steps,
                stage_id@,
                count,
                now as int,
            ) <= i64::MAX,
    ensures
        sum == stage_elapsed(plan@.steps, stage_id@, plan@.steps.len() as int, now as int),
{
    let ghost steps = plan@.steps;
    let mut sum: i64 = 0;
    let mut i: usize = 0;
    while i < plan.steps.len()
        invariant
            i <= plan.steps@.len(),
            steps == plan@.steps,
            sum == stage_elapsed(steps, stage_id@, i as int, now as int),
            forall|count: int|
                0 <= count <= plan@.steps.len() ==> i64::MIN <= #[trigger] stage_elapsed(
                    plan@.steps,
                    stage_id@,
                    count,
                    now as int,
                ) <= i64::MAX,
        decreases plan.steps.len() - i,
    {
        assert(steps[i as int] == plan.steps@[i as int]@);
        assert(i64::MIN <= stage_elapsed(plan@.steps, stage_id@, i + 1, now as int) <= i64::MAX);
        if plan.steps[i].definition.stage_id == *stage_id {
            sum = sum + plan.steps[i].elapsed_at(now);
        }
        i += 1;
    }
    sum
}

fn make_step_entry(plan: &ContinuousPlanning, i: usize, now: i64) -> (entry: Entry)
    requires
        i < plan.steps@.len(),
    ensures
        entry@ == step_entry(plan@.steps, i as int, now as int),
{
    let step = &plan.steps[i];
    assert(plan@.steps[i as int] == step@);
    let mut key = "step:".to_owned();
    key.append(step.definition.id.as_str());
    Entry {
        key,
        id: step.definition.id.clone(),
        title: step.definition.title.clone(),
        seconds: step.definition.estimate_seconds,
        elapsed: step.elapsed_at(now),
        state: step.state,
        step: Some(i),
    }
}

fn make_stage_entry(plan: &ContinuousPlanning, k: usize, count: usize, now: i64) -> (entry: Entry)
    requires
        k < plan.stages@.len(),
        count == stage_steps(
            plan@.steps,
            plan@.stages[k as int].id,
            plan@.steps.len() as int,
        ).len(),
        forall|c: int|
            0 <= c <= plan@.steps.len() ==> i64::MIN <= #[trigger] stage_elapsed(
                plan@.steps,
                plan@.stages[k as int].id,
                c,
                now as int,
            ) <= i64::MAX,
    ensures
        entry@ == plan@.stage_entry(plan@.stages[k as int], now as int),
{
    let stage = &plan.stages[k];
    assert(plan@.stages[k as int] == stage@);
    let elapsed = sum_elapsed(plan, &stage.id, now);
    let mut key = "stage:".to_owned();
    key.append(stage.id.as_str());
    let mut title = stage.title.clone();
    if count > 0 {
        title.append(" (");
        title.append(decimal_text(count as u64).as_str());
        title.append(" tasks)");
    }
    Entry {
        key,
        id: stage.id.clone(),
        title,
        seconds: if count == 0 {
            stage.estimate_seconds
        } else {
            elapsed
        },
        elapsed,
        state: if count == 0 {
            PlanStepState::Pending
        } else {
            PlanStepState::Completed
        },
        step: None,
    }
}

fn is_grouped(plan: &ContinuousPlanning, places: &Vec<usize>) -> (yes: bool)
    requires
        forall|k: int| 0 <= k < places@.len() ==> (#[trigger] places@[k]) < plan.steps@.len(),
    ensures
        yes == (places@.len() == 0 || (as_ints(places@).last() < plan@.steps.len() - 4
            && forall|k: int|
            0 <= k < places@.len() ==> plan@.steps[#[trigger] as_ints(places@)[k]].state
                == PlanStepState::Completed)),
{
    if places.len() == 0 {
        return true;
    }
    let last: usize = places[places.len() - 1];
    assert(as_ints(places@).last() == last as int);
    let old = plan.steps.len() >= 4 && last < plan.steps.len() - 4;
    old && all_completed(plan, places)
}

fn add_stage_rows(plan: &ContinuousPlanning, k: usize, now: i64, entries: &mut Vec<Entry>)
    requires
        k < plan.stages@.len(),
        plan@.sums_fit(now as int),
    ensures
        entry_views(final(entries)@) == entry_views(old(entries)@) + plan@.rows_of_stage(
            plan@.stages[k as int],
            now as int,
        ),
{
    let ghost before = entries@;
    let stage = &plan.stages[k];
    assert(plan@.stages[k as int] == stage@);
    let places = find_stage_steps(plan, &stage.id);
    let ghost found = stage_steps(plan@.steps, stage@.id, plan@.steps.len() as int);
    assert(found.len() == places@.len());
    if is_grouped(plan, &places) {
        assert(plan@.grouped(stage@.id));
        let entry = make_stage_entry(plan, k, places.len(), now);
        let ghost view = entry@;
        entries.push(entry);
        assert(entry_views(entries@) =~= entry_views(before) + seq![view]);
    } else {
        assert(!plan@.grouped(stage@.id));
        let ghost rows = found.map_values(|i: int| step_entry(plan@.steps, i, now as int));
        let mut j: usize = 0;
        assert(entry_views(before) + rows.take(0) =~= entry_views(before));
        while j < places.len()
            invariant
                j <= places@.len(),
                found.len() == places@.len(),
                found == as_ints(places@),
                rows == found.map_values(|i: int| step_entry(plan@.steps, i, now as int)),
                forall|m: int|
                    0 <= m < places@.len() ==> (#[trigger] places@[m]) < plan.steps@.len(),
                entry_views(entries@) == entry_views(before) + rows.take(j as int),
            decreases places.len() - j,
        {
            let ghost seen = entries@;
            let entry = make_step_entry(plan, places[j], now);
            let ghost view = entry@;
            assert(rows[j as int] == view);
            entries.push(entry);
            assert(entry_views(entries@) =~= entry_views(seen).push(view));
            assert(entry_views(before) + rows.take(j + 1) =~= (entry_views(before) + rows.take(
                j as int,
            )).push(view));
            j += 1;
        }
        assert(rows.take(j as int) =~= rows);
    }
}

/// The rows of a plan.
pub fn plan_entries(plan: &ContinuousPlanning, now: i64) -> (entries: Vec<Entry>)
    requires
        plan@.sums_fit(now as int),
    ensures
        entry_views(entries@) == plan@.entries(now as int),
{
    let mut entries: Vec<Entry> = Vec::new();
    let mut k: usize = 0;
    assert(entry_views(entries@) =~= Seq::empty());
    while k < plan.stages.len()
        invariant
            k <= plan.stages@.len(),
            plan@.sums_fit(now as int),
            entry_views(entries@) == plan@.rows_of_stages(k as int, now as int),
        decreases plan.stages.len() - k,
    {
        add_stage_rows(plan, k, now, &mut entries);
        k += 1;
    }
    entries
}

/// The times in the details of a step, as they are shown.
#[derive(Debug)]
pub struct Stamps {
    pub started: String,
    pub submitted: String,
    pub completed: String,
    pub step_eta: String,
    pub task_eta: String,
}

pub struct StampsView {
    pub started: Seq<char>,
    pub submitted: Seq<char>,
    pub completed: Seq<char>,
    pub step_eta: Seq<char>,
    pub task_eta: Seq<char>,
}

impl View for Stamps {
    type V = StampsView;

    open spec fn view(&self) -> StampsView {
        StampsView {
            started: self.started@,
            submitted: self.submitted@,
            completed: self.completed@,
            step_eta: self.step_eta@,
            task_eta: self.task_eta@,
        }
    }
}

/// The details of a step, given its times as they are shown.
pub open spec fn step_details(plan: PlanView, i: int, now: int, stamps: StampsView) -> Seq<char> {
    let step = plan.steps[i];
    let elapsed = step.elapsed_at(now);
    step.definition.id + " "@ + step.definition.title + "\n\n"@ + step.definition.acceptance
        + "\n\nInitial: "@ + signed_decimal(step.initial_estimate_seconds) + "s · Current: "@
        + signed_decimal(step.definition.estimate_seconds) + "s · Actual: "@ + signed_decimal(
        elapsed,
    ) + "s · Δ "@ + plus_decimal(elapsed - step.initial_estimate_seconds) + "s\nStarted: "@
        + stamps.started + "\nSubmitted: "@ + stamps.submitted + "\nCompleted: "@
        + stamps.completed + "\nStep ETA: "@ + stamps.step_eta + " · Task ETA: "@
        + stamps.task_eta + "\n\n"@ + joined(step.evidence, "\n"@) + "\n\n"@ + plan.reason
}

/// One step in the details of a stage.
pub open spec fn stage_step_details(step: StepView) -> Seq<char> {
    step.definition.id + " "@ + step.definition.title + "\n"@ + step.definition.acceptance + "\n"@
        + joined(step.evidence, "\n"@)
}

/// The details of a stage that stands for its steps.
pub open spec fn stage_details(plan: PlanView, entry: EntryView) -> Seq<char> {
    entry.id + " "@ + entry.title + "\n\n"@ + duration_text(entry.elapsed) + " → "@
        + duration_text(entry.seconds) + "\n\n"@ + joined(
        stage_steps(plan.steps, entry.id, plan.steps.len() as int).map_values(
            |i: int| stage_step_details(plan.steps[i]),
        ),
        "\n\n"@,
    )
}

/// Fills in the details of a step, given its times as they are shown.
pub fn describe_step(plan: &ContinuousPlanning, i: usize, now: i64, stamps: &Stamps) -> (text:
    String)
    requires
        i < plan.steps@.len(),
        i64::MIN <= plan@.steps[i as int].elapsed_at(now as int)
            - plan@.steps[i as int].initial_estimate_seconds <= i64::MAX,
    ensures
        text@ == step_details(plan@, i as int, now as int, stamps@),
{
    let step = &plan.steps[i];
    assert(plan@.steps[i as int] == step@);
    let elapsed = step.elapsed_at(now);
    let mut text = step.definition.id.clone();
    text.append(" ");
    text.append(step.definition.title.as_str());
    text.append("\n\n");
    text.append(step.definition.acceptance.as_str());
    text.append("\n\nInitial: ");
    text.append(signed_decimal_text(step.initial_estimate_seconds).as_str());
    text.append("s · Current: ");
    text.append(signed_decimal_text(step.definition.estimate_seconds).as_str());
    text.append("s · Actual: ");
    text.append(signed_decimal_text(elapsed).as_str());
    text.append("s · Δ ");
    text.append(plus_decimal_text(elapsed - step.initial_estimate_seconds).as_str());
    text.append("s\nStarted: ");
    text.append(stamps.started.as_str());
    text.append("\nSubmitted: ");
    text.append(stamps.submitted.as_str());
    text.append("\nCompleted: ");
    text.append(stamps.completed.as_str());
    text.append("\nStep ETA: ");
    text.append(stamps.step_eta.as_str());
    text.append(" · Task ETA: ");
    text.append(stamps.task_eta.as_str());
    text.append("\n\n");
    text.append(join_texts(&step.evidence, "\n").as_str());
    text.append("\n\n");
    text.append(plan.reason.as_str());
    text
}

fn describe_stage_step(step: &TimedPlanStep) -> (text: String)
    ensures
        text@ == stage_step_details(step@),
{
    let mut text = step.definition.id.clone();
    text.append(" ");
    text.append(step.definition.title.as_str());
    text.append("\n");
    text.append(step.definition.acceptance.as_str());
    text.append("\n");
    text.append(join_texts(&step.evidence, "\n").as_str());
    text
}

fn describe_stage(plan: &ContinuousPlanning, entry: &Entry) -> (text: String)
    ensures
        text@ == stage_details(plan@, entry@),
{
    let places = find_stage_steps(plan, &entry.id);
    let ghost found = stage_steps(plan@.steps, entry@.id, plan@.steps.len() as int);
    let ghost shown = found.map_values(|i: int| stage_step_details(plan@.steps[i]));
    let mut parts: Vec<String> = Vec::new();
    let mut j: usize = 0;
    assert(texts(parts@) =~= shown.take(0));
    while j < places.len()
        invariant
            j <= places@.len(),
            found == as_ints(places@),
            shown == found.map_values(|i: int| stage_step_details(plan@.steps[i])),
            forall|m: int| 0 <= m < places@.len() ==> (#[trigger] places@[m]) < plan.steps@.len(),
            texts(parts@) == shown.take(j as int),
        decreases places.len() - j,
    {
        let i: usize = places[j];
        assert(plan@.steps[i as int] == plan.steps@[i as int]@);
        let ghost before = parts@;
        let part = describe_stage_step(&plan.steps[i]);
        let ghost view = part@;
        assert(shown[j as int] == view);
        parts.push(part);
        assert(texts(parts@) =~= texts(before).push(view));
        assert(shown.take(j + 1) =~= shown.take(j as int).push(view));
        j += 1;
    }
    assert(shown.take(j as int) =~= shown);
    let mut text = entry.id.clone();
    text.append(" ");
    text.append(entry.title.as_str());
    text.append("\n\n");
    text.append(duration(entry.elapsed).as_str());
    text.append(" → ");
    text.append(duration(entry.seconds).as_str());
    text.append("\n\n");
    text.append(join_texts(&parts, "\n\n").as_str());
    text
}

impl ProgressView {
    /// The server's clock by now: what it was, and the time since then.
    pub open spec fn timestamp(self, clock: int) -> int {
        saturate(
            self.observed_at + (if clock >= self.received {
                (clock - self.received) / 1_000_000_000
            } else {
                0
            }),
        )
    }

    pub open spec fn updated(self, plan: PlanView, observed_at: int, received: int) -> ProgressView {
        if plan.version < self.plan.version {
            self
        } else {
            ProgressView {
                plan,
                observed_at,
                received,
                view: if plan.id != self.plan.id {
                    ViewportView::fresh()
                } else {
                    self.view
                },
            }
        }
    }

    /// The row that is selected, or the first one.
    pub open spec fn position(self) -> int {
        match self.view.selected {
            Some(key) => match text_position(self.view.rows, key) {
                Some(i) => i,
                None => 0,
            },
            None => 0,
        }
    }

    /// The last row, or the first where there is none.
    pub open spec fn bottom(self) -> int {
        if self.view.rows.len() == 0 {
            0
        } else {
            self.view.rows.len() - 1
        }
    }

    /// The row that a movement leads to.
    pub open spec fn target(self, action: ListAction) -> Option<int> {
        match action {
            ListAction::MoveUp => Some(
                if self.position() == 0 {
                    0
                } else {
                    self.position() - 1
                },
            ),
            ListAction::MoveDown => Some(
                if self.position() + 1 < self.bottom() {
                    self.position() + 1
                } else {
                    self.bottom()
                },
            ),
            ListAction::JumpTop => Some(0),
            ListAction::JumpBottom => Some(self.bottom()),
            _ => None,
        }
    }

    /// The list after an action, and whether the action was for it.
    pub open spec fn acted(self, action: ListAction) -> (ProgressView, bool) {
        if !self.view.focused {
            (self, false)
        } else if action == ListAction::Cancel {
            (
                ProgressView { view: ViewportView { focused: false, ..self.view }, ..self },
                true,
            )
        } else {
            match self.target(action) {
                None => (self, false),
                Some(next) => (
                    if next < self.view.rows.len() {
                        ProgressView {
                            view: ViewportView {
                                selected: Some(self.view.rows[next]),
                                ..self.view
                            },
                            ..self
                        }
                    } else {
                        self
                    },
                    true,
                ),
            }
        }
    }

    /// The row whose details are shown.
    pub open spec fn detailed(self, now: int) -> Option<int> {
        match self.view.selected {
            Some(key) => text_position(entry_keys(self.plan.entries(now)), key),
            None => None,
        }
    }

    /// The arithmetic of the list stays in range.
    pub open spec fn fits(self, now: int) -> bool {
        &&& self.plan.sums_fit(now)
        &&& self.plan.forecast_fits(now)
        &&& forall|i: int|
            0 <= i < self.plan.steps.len() ==> i64::MIN <= (#[trigger] self.plan.steps[i]).elapsed_at(
                now,
            ) - self.plan.steps[i].initial_estimate_seconds <= i64::MAX
    }
}

/// The times in the details of a step.
#[derive(Clone, Copy, Debug, PartialEq, Eq)]
pub struct StepTimes {
    pub started: Option<i64>,
    pub submitted: Option<i64>,
    pub completed: Option<i64>,
    /// When the step is expected to be complete, or was completed.
    pub step_eta: i64,
    /// When the task is expected to be complete.
    pub task_eta: i64,
}

/// The times of a step, with the forecast for it and for the task.
pub open spec fn times_of(plan: ContinuousPlanning, i: int, now: int, times: StepTimes) -> bool {
    let forecast = plan@.forecast_at(now);
    &&& times.started == plan.steps@[i].started_at
    &&& times.submitted == plan.steps@[i].submitted_at
    &&& times.completed == plan.steps@[i].completed_at
    &&& times.step_eta == match plan.steps@[i].completed_at {
        Some(at) => at as int,
        None => forecast.steps[i],
    }
    &&& times.task_eta == forecast.completed_at
}

/// The times of a step. A completed step was complete when it was completed, and another one is
/// expected to be complete when the forecast says.
pub fn step_times(plan: &ContinuousPlanning, i: usize, now: i64) -> (times: StepTimes)
    requires
        i < plan.steps@.len(),
        plan@.forecast_fits(now as int),
    ensures
        times.started == plan.steps@[i as int].started_at,
        times.submitted == plan.steps@[i as int].submitted_at,
        times.completed == plan.steps@[i as int].completed_at,
        times.step_eta == match plan.steps@[i as int].completed_at {
            Some(at) => at as int,
            None => plan@.forecast_at(now as int).steps[i as int],
        },
        times.task_eta == plan@.forecast_at(now as int).completed_at,
        times_of(*plan, i as int, now as int, times),
{
    let forecast = plan.forecast_at(now);
    assert(forecast@.steps.len() == forecast.steps@.len());
    let step = &plan.steps[i];
    let predicted: i64 = forecast.steps[i];
    StepTimes {
        started: step.started_at,
        submitted: step.submitted_at,
        completed: step.completed_at,
        step_eta: match step.completed_at {
            Some(at) => at,
            None => predicted,
        },
        task_eta: forecast.completed_at,
    }
}

/// Whether some texts show some times, each its own.
pub open spec fn times_shown(times: StepTimes, stamps: StampsView) -> bool {
    &&& stamp_of(times.started, stamps.started)
    &&& stamp_of(times.submitted, stamps.submitted)
    &&& stamp_of(times.completed, stamps.completed)
    &&& stamp_of(Some(times.step_eta), stamps.step_eta)
    &&& stamp_of(Some(times.task_eta), stamps.task_eta)
}

/// Times as they are shown on this machine.
pub fn show_times(times: &StepTimes) -> (stamps: Stamps)
    ensures
        times_shown(*times, stamps@),
{
    Stamps {
        started: timestamp(times.started),
        submitted: timestamp(times.submitted),
        completed: timestamp(times.completed),
        step_eta: timestamp(Some(times.step_eta)),
        task_eta: timestamp(Some(times.task_eta)),
    }
}

/// Whether some texts show the times of a step.
pub open spec fn stamps_of(plan: ContinuousPlanning, i: int, now: int, stamps: StampsView) -> bool {
    exists|times: StepTimes| #[trigger]
        times_of(plan, i, now, times) && times_shown(times, stamps)
}

impl PlanProgress {
    pub fn new(
        plan: ContinuousPlanning,
        _coordinator: String,
        observed_at: i64,
        received: u64,
    ) -> (progress: Self)
        ensures
            progress@ == (ProgressView {
                plan: plan@,
                observed_at: observed_at as int,
                received: received as int,
                view: ViewportView::fresh(),
            }),
    {
        PlanProgress { plan, observed_at, received, view: Viewport::default() }
    }

    /// Takes a newer revision over. Revisions remain monotonic when a conversation starts its
    /// next task, whose list starts afresh.
    pub fn update(&mut self, plan: ContinuousPlanning, observed_at: i64, received: u64)
        ensures
            final(self)@ == old(self)@.updated(plan@, observed_at as int, received as int),
    {
        if plan.version < self.plan.version {
            return;
        }
        if plan.id != self.plan.id {
            self.view = Viewport::default();
        }
        self.plan = plan;
        self.observed_at = observed_at;
        self.received = received;
    }

    pub fn toggle_focus(&mut self)
        ensures
            final(self)@ == (ProgressView {
                view: ViewportView {
                    focused: !old(self)@.view.focused,
                    ..old(self)@.view
                },
                ..old(self)@
            }),
    {
        self.view.focused = !self.view.focused;
    }

    fn position(&self) -> (position: usize)
        ensures
            position == self@.position(),
            position < self.view.rows@.len() || position == 0,
    {
        match &self.view.selected {
            Some(key) => match find_text(&self.view.rows, key.as_str()) {
                Some(i) => i,
                None => 0,
            },
            None => 0,
        }
    }

    pub fn handle_action(&mut self, action: ListAction) -> (handled: bool)
        ensures
            (final(self)@, handled) == old(self)@.acted(action),
    {
        if !self.view.focused {
            return false;
        }
        assert(self@.view.rows.len() == self.view.rows@.len());
        let position: usize = self.position();
        let bottom: usize = if self.view.rows.len() == 0 {
            0
        } else {
            self.view.rows.len() - 1
        };
        let next: usize = match action {
            ListAction::MoveUp => if position == 0 {
                0
            } else {
                position - 1
            },
            ListAction::MoveDown => if position < bottom {
                position + 1
            } else {
                bottom
            },
            ListAction::JumpTop => 0,
            ListAction::JumpBottom => bottom,
            ListAction::Cancel => {
                self.view.focused = false;
                return true;
            },
            ListAction::MoveLeft | ListAction::MoveRight | ListAction::PageUp
            | ListAction::PageDown | ListAction::Accept => {
                return false;
            },
        };
        if next < self.view.rows.len() {
            let key = self.view.rows[next].clone();
            self.view.selected = Some(key);
        }
        true
    }

    pub fn focused(&self) -> (yes: bool)
        ensures
            yes == self@.view.focused,
    {
        self.view.focused
    }

    /// The server's clock by now, in seconds. `clock` is the monotonic clock that `received` was
    /// read from, in nanoseconds.
    pub fn timestamp(&self, clock: u64) -> (now: i64)
        ensures
            now == self@.timestamp(clock as int),
    {
        let passed: u64 = if clock >= self.received {
            (clock - self.received) / 1_000_000_000
        } else {
            0
        };
        saturating_sum(self.observed_at, passed as i64)
    }

    /// The rows of the list.
    pub fn entries(&self, clock: u64) -> (entries: Vec<Entry>)
        requires
            self@.plan.sums_fit(self@.timestamp(clock as int)),
        ensures
            entry_views(entries@) == self@.plan.entries(self@.timestamp(clock as int)),
    {
        plan_entries(&self.plan, self.timestamp(clock))
    }

    /// The details of the selected row, or the reason of the revision where no row is selected.
    /// The times in them are shown in the machine's time zone.
    pub fn details(&self, clock: u64) -> (text: String)
        requires
            self@.fits(self@.timestamp(clock as int)),
        ensures
            ({
                let now = self@.timestamp(clock as int);
                match self@.detailed(now) {
                    None => text@ == self@.plan.reason,
                    Some(row) => {
                        let entry = self@.plan.entries(now)[row];
                        match entry.step {
                            None => text@ == stage_details(self@.plan, entry),
                            Some(i) => exists|stamps: StampsView| #[trigger]
                                stamps_of(self.plan, i, now, stamps) && text@ == step_details(
                                    self@.plan,
                                    i,
                                    now,
                                    stamps,
                                ),
                        }
                    },
                }
            }),
    {
        let now = self.timestamp(clock);
        let entries = plan_entries(&self.plan, now);
        let key = match &self.view.selected {
            None => {
                return self.plan.reason.clone();
            },
            Some(key) => key,
        };
        let row: usize = match find_entry(&entries, key.as_str()) {
            None => {
                return self.plan.reason.clone();
            },
            Some(row) => row,
        };
        let entry = &entries[row];
        assert(self@.plan.entries(now as int)[row as int] == entry@);
        let i: usize = match entry.step {
            None => {
                return describe_stage(&self.plan, entry);
            },
            Some(i) => i,
        };
        proof {
            lemma_entry_steps(self@.plan, self@.plan.stages.len() as int, now as int, row as int);
        }
        let times = step_times(&self.plan, i, now);
        let stamps = show_times(&times);
        let text = describe_step(&self.plan, i, now, &stamps);
        assert(stamps_of(self.plan, i as int, now as int, stamps@));
        text
    }
}

/// A row that stands for a step names one of the plan.
pub proof fn lemma_entry_steps(plan: PlanView, count: int, now: int, row: int)
    requires
        0 <= count <= plan.stages.len(),
        0 <= row < plan.rows_of_stages(count, now).len(),
    ensures
        plan.rows_of_stages(count, now)[row].step matches Some(i) ==> 0 <= i < plan.steps.len()
            && plan.rows_of_stages(count, now)[row] == step_entry(plan.steps, i, now),
    decreases count,
{
    let before = plan.rows_of_stages(count - 1, now);
    let stage = plan.stages[count - 1];
    if row < before.len() {
        lemma_entry_steps(plan, count - 1, now, row);
    } else {
        lemma_stage_steps_in_range(plan.steps, stage.id, plan.steps.len() as int);
        let rows = plan.rows_of_stage(stage, now);
        assert(plan.rows_of_stages(count, now)[row] == rows[row - before.len()]);
    }
}

} // verus!
