//! What the task list promises: every step is shown, under an identity of its own.

use crate::plan::PlanStepState;
use crate::plan::PlanView;
use crate::plan::StepView;
use crate::progress::stage_steps;
use crate::progress::step_entry;
use crate::progress::text_position;
use crate::progress::EntryView;
use crate::progress::ListAction;
use crate::progress::ProgressView;
use crate::progress::ViewportView;
use vstd::prelude::*;

verus! {

pub proof fn lemma_stage_steps(steps: Seq<StepView>, stage_id: Seq<char>, count: int)
    requires
        0 <= count <= steps.len(),
    ensures
        forall|k: int|
            0 <= k < stage_steps(steps, stage_id, count).len() ==> {
                let i = #[trigger] stage_steps(steps, stage_id, count)[k];
                0 <= i < count && steps[i].definition.stage_id == stage_id
            },
        forall|j: int, k: int|
            0 <= j < k < stage_steps(steps, stage_id, count).len() ==> #[trigger] stage_steps(
                steps,
                stage_id,
                count,
            )[j] < #[trigger] stage_steps(steps, stage_id, count)[k],
        forall|i: int|
            0 <= i < count && (#[trigger] steps[i]).definition.stage_id == stage_id
                ==> stage_steps(steps, stage_id, count).contains(i),
    decreases count,
{
    if count > 0 {
        lemma_stage_steps(steps, stage_id, count - 1);
        let before = stage_steps(steps, stage_id, count - 1);
        let after = stage_steps(steps, stage_id, count);
        assert forall|i: int|
            0 <= i < count && (#[trigger] steps[i]).definition.stage_id
                == stage_id implies after.contains(i) by {
            if i == count - 1 {
                assert(after[before.len() as int] == i);
            } else {
                let k = before.index_of(i);
                assert(after[k] == i);
            }
        }
    }
}

/// Where a row comes from: one of the first `count` stages, as a whole or as one of its steps.
spec fn comes_from(plan: PlanView, entry: EntryView, k: int, now: int) -> bool {
    match entry.step {
        None => entry == plan.stage_entry(plan.stages[k], now),
        Some(i) => 0 <= i < plan.steps.len() && entry == step_entry(plan.steps, i, now)
            && plan.steps[i].definition.stage_id == plan.stages[k].id,
    }
}

proof fn lemma_row_origin(plan: PlanView, count: int, now: int, row: int) -> (k: int)
    requires
        0 <= count <= plan.stages.len(),
        0 <= row < plan.rows_of_stages(count, now).len(),
    ensures
        0 <= k < count,
        comes_from(plan, plan.rows_of_stages(count, now)[row], k, now),
        row >= plan.rows_of_stages(count - 1, now).len() ==> k == count - 1,
    decreases count,
{
    let before = plan.rows_of_stages(count - 1, now);
    if row < before.len() {
        lemma_row_origin(plan, count - 1, now, row)
    } else {
        let stage = plan.stages[count - 1];
        lemma_stage_steps(plan.steps, stage.id, plan.steps.len() as int);
        assert(plan.rows_of_stages(count, now)[row] == plan.rows_of_stage(stage, now)[row
            - before.len()]);
        count - 1
    }
}

proof fn lemma_keys_differ(plan: PlanView, count: int, now: int, a: int, b: int)
    requires
        plan.valid(),
        0 <= count <= plan.stages.len(),
        0 <= a < b < plan.rows_of_stages(count, now).len(),
    ensures
        plan.rows_of_stages(count, now)[a].key != plan.rows_of_stages(count, now)[b].key,
    decreases count,
{
    let before = plan.rows_of_stages(count - 1, now);
    let rows = plan.rows_of_stages(count, now);
    if b < before.len() {
        lemma_keys_differ(plan, count - 1, now, a, b);
        assert(rows[a] == before[a] && rows[b] == before[b]);
    } else {
        let j = lemma_row_origin(plan, count, now, a);
        let k = lemma_row_origin(plan, count, now, b);
        reveal_strlit("step:");
        reveal_strlit("stage:");
        match (rows[a].step, rows[b].step) {
            (Some(i), Some(m)) => {
                if i == m {
                    if a < before.len() {
                        let r = lemma_row_origin(plan, count - 1, now, a);
                        assert(rows[a] == before[a]);
                        assert(plan.stages[r].id == plan.stages[k].id);
                    } else {
                        let stage = plan.stages[count - 1];
                        lemma_stage_steps(plan.steps, stage.id, plan.steps.len() as int);
                        let found = stage_steps(plan.steps, stage.id, plan.steps.len() as int);
                        assert(rows[a] == plan.rows_of_stage(stage, now)[a - before.len()]);
                        assert(rows[b] == plan.rows_of_stage(stage, now)[b - before.len()]);
                        assert(found[a - before.len()] < found[b - before.len()]);
                    }
                } else {
                    lemma_prefixed_differ(
                        "step:"@,
                        plan.steps[i].definition.id,
                        plan.steps[m].definition.id,
                    );
                    if i < m {
                        assert(plan.steps[i].definition.id != plan.steps[m].definition.id);
                    } else {
                        assert(plan.steps[m].definition.id != plan.steps[i].definition.id);
                    }
                }
            },
            (None, None) => {
                if a < before.len() {
                    let r = lemma_row_origin(plan, count - 1, now, a);
                    assert(rows[a] == before[a]);
                    lemma_prefixed_differ("stage:"@, plan.stages[r].id, plan.stages[k].id);
                    assert(plan.stages[r].id != plan.stages[k].id);
                } else {
                    let stage = plan.stages[count - 1];
                    assert(rows[a] == plan.rows_of_stage(stage, now)[a - before.len()]);
                    assert(rows[b] == plan.rows_of_stage(stage, now)[b - before.len()]);
                    if !plan.grouped(stage.id) {
                        assert(rows[a].step is Some);
                    }
                }
            },
            (Some(i), None) => {
                assert(rows[a].key[2] == 'e');
                assert(rows[b].key[2] == 'a');
            },
            (None, Some(i)) => {
                assert(rows[a].key[2] == 'a');
                assert(rows[b].key[2] == 'e');
            },
        }
    }
}

proof fn lemma_prefixed_differ(prefix: Seq<char>, a: Seq<char>, b: Seq<char>)
    ensures
        prefix + a == prefix + b <==> a == b,
{
    if prefix + a == prefix + b {
        assert((prefix + a).skip(prefix.len() as int) =~= a);
        assert((prefix + b).skip(prefix.len() as int) =~= b);
    }
}

/// No two rows have the same key: what is selected is one row.
pub proof fn law_rows_have_keys_of_their_own(plan: PlanView, now: int, a: int, b: int)
    requires
        plan.valid(),
        0 <= a < b < plan.entries(now).len(),
    ensures
        plan.entries(now)[a].key != plan.entries(now)[b].key,
{
    lemma_keys_differ(plan, plan.stages.len() as int, now, a, b);
}

proof fn lemma_rows_of_stage_kept(plan: PlanView, count: int, more: int, now: int, row: int)
    requires
        0 <= count <= more,
        0 <= row < plan.rows_of_stages(count, now).len(),
    ensures
        row < plan.rows_of_stages(more, now).len(),
        plan.rows_of_stages(more, now)[row] == plan.rows_of_stages(count, now)[row],
    decreases more - count,
{
    if count < more {
        lemma_rows_of_stage_kept(plan, count, more - 1, now, row);
    }
}

/// Every step has its own row, or stands behind the row of its whole stage.
pub proof fn law_every_step_is_shown(plan: PlanView, now: int, i: int)
    requires
        plan.valid(),
        0 <= i < plan.steps.len(),
    ensures
        exists|row: int|
            0 <= row < plan.entries(now).len() && {
                let entry = #[trigger] plan.entries(now)[row];
                ||| entry == step_entry(plan.steps, i, now)
                ||| entry.step is None && entry.id == plan.steps[i].definition.stage_id
                    && plan.steps[i].state == PlanStepState::Completed
            },
{
    let n = plan.steps.len() as int;
    let id = plan.steps[i].definition.stage_id;
    assert(plan.has_stage(id));
    let k = choose|k: int| 0 <= k < plan.stages.len() && (#[trigger] plan.stages[k]).id == id;
    let stage = plan.stages[k];
    lemma_stage_steps(plan.steps, id, n);
    let found = stage_steps(plan.steps, id, n);
    let place = found.index_of(i);
    let before = plan.rows_of_stages(k, now);
    let row = if plan.grouped(id) {
        before.len() as int
    } else {
        before.len() + place
    };
    if plan.grouped(id) {
        assert(plan.steps[found[place]].state == PlanStepState::Completed);
        assert(plan.rows_of_stage(stage, now)[0] == plan.stage_entry(stage, now));
    } else {
        assert(plan.rows_of_stage(stage, now)[place] == step_entry(plan.steps, i, now));
    }
    assert(plan.rows_of_stages(k + 1, now)[row] == plan.rows_of_stage(stage, now)[row
        - before.len()]);
    lemma_rows_of_stage_kept(plan, k + 1, plan.stages.len() as int, now, row);
    let entry = plan.entries(now)[row];
}

/// The revision that is shown never goes back, and a revision of the same task keeps the focus
/// and the selection.
pub proof fn law_shown_revisions_are_monotonic(
    progress: ProgressView,
    plan: PlanView,
    observed_at: int,
    received: int,
)
    ensures
        progress.updated(plan, observed_at, received).plan.version >= progress.plan.version,
        plan.version < progress.plan.version ==> progress.updated(plan, observed_at, received)
            == progress,
        plan.id == progress.plan.id ==> progress.updated(plan, observed_at, received).view
            == progress.view,
        plan.version >= progress.plan.version && plan.id != progress.plan.id ==> progress.updated(
            plan,
            observed_at,
            received,
        ).view == ViewportView::fresh(),
{
}

proof fn lemma_text_position(items: Seq<Seq<char>>, text: Seq<char>)
    ensures
        text_position(items, text) matches Some(i) ==> 0 <= i < items.len() && items[i] == text,
    decreases items.len(),
{
    if items.len() > 0 {
        lemma_text_position(items.drop_last(), text);
    }
}

/// A movement leads to a row that was drawn, and changes nothing but the selection.
pub proof fn law_movements_select_drawn_rows(progress: ProgressView, action: ListAction)
    requires
        progress.view.focused,
        progress.view.rows.len() > 0,
        action == ListAction::MoveUp || action == ListAction::MoveDown || action
            == ListAction::JumpTop || action == ListAction::JumpBottom,
    ensures
        ({
            let (after, handled) = progress.acted(action);
            &&& handled
            &&& after.plan == progress.plan
            &&& after.view.focused
            &&& after.view.rows == progress.view.rows
            &&& after.view.selected matches Some(key) && progress.view.rows.contains(key)
        }),
{
    if let Some(key) = progress.view.selected {
        lemma_text_position(progress.view.rows, key);
    }
    let next = progress.target(action)->0;
    assert(0 <= next < progress.view.rows.len());
    assert(progress.view.rows.contains(progress.view.rows[next]));
}

} // verus!
