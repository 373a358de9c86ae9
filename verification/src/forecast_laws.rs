//! What a forecast respects: dependencies, executors, stages and what is already done.

use crate::model::stage_rank;
use crate::model_laws::lemma_stage_position;
use crate::model_laws::valid_stage;
use crate::plan::latest;
use crate::plan::latest_completion;
use crate::plan::saturate;
use crate::plan::visited_finish;
use crate::plan::ContinuousPlanning;
use crate::plan::PlanForecast;
use crate::plan::PlanView;
use crate::plan::StepView;
use crate::plan::Visit;
use crate::request_laws::clocked_step;
use crate::request_laws::has_steps;
use crate::request_laws::law_elapsed_time_is_spent_time;
use crate::request_laws::law_sound_plans_are_valid;
use crate::request_laws::over;
use crate::request_laws::sound_plan;
use crate::request_laws::spent;
use vstd::prelude::*;

verus! {

/// The recorded completions are times of the host clock.
spec fn clocked(plan: PlanView, now: int) -> bool {
    &&& i64::MIN <= now <= i64::MAX
    &&& forall|i: int|
        0 <= i < plan.steps.len() ==> ((#[trigger] plan.steps[i]).completed_at matches Some(at)
            ==> i64::MIN <= at <= i64::MAX)
}

/// Visits of the first steps, one each and in order, all within the range of the clock.
spec fn in_order(plan: PlanView, visits: Seq<Visit>) -> bool {
    &&& visits.len() <= plan.steps.len()
    &&& forall|k: int|
        0 <= k < visits.len() ==> (#[trigger] visits[k]).step == k && i64::MIN <= visits[k].finish
            <= i64::MAX
}

proof fn lemma_latest(visits: Seq<Visit>, from: int)
    ensures
        latest(visits, from) >= from,
        forall|k: int| 0 <= k < visits.len() ==> (#[trigger] visits[k]).finish <= latest(
            visits,
            from,
        ),
        (from <= i64::MAX && forall|k: int|
            0 <= k < visits.len() ==> (#[trigger] visits[k]).finish <= i64::MAX) ==> latest(
            visits,
            from,
        ) <= i64::MAX,
    decreases visits.len(),
{
    if visits.len() > 0 {
        lemma_latest(visits.drop_last(), from);
        assert(forall|k: int|
            0 <= k < visits.len() - 1 ==> #[trigger] visits.drop_last()[k] == visits[k]);
        assert forall|k: int| 0 <= k < visits.len() implies (#[trigger] visits[k]).finish
            <= latest(visits, from) by {
            if k < visits.len() - 1 {
                assert(visits.drop_last()[k] == visits[k]);
            }
        }
    }
}

proof fn lemma_owner_end(plan: PlanView, visits: Seq<Visit>, owner: Seq<char>, now: int)
    requires
        in_order(plan, visits),
        i64::MIN <= now <= i64::MAX,
    ensures
        now <= plan.owner_end(visits, owner, now) <= i64::MAX,
        forall|k: int|
            0 <= k < visits.len() && (#[trigger] plan.steps[k]).owner == owner ==> visits[k].finish
                <= plan.owner_end(visits, owner, now),
    decreases visits.len(),
{
    if visits.len() > 0 {
        let rest = visits.drop_last();
        assert(in_order(plan, rest)) by {
            assert(forall|k: int| 0 <= k < rest.len() ==> #[trigger] rest[k] == visits[k]);
        }
        lemma_owner_end(plan, rest, owner, now);
        assert(visits[visits.len() - 1].step == visits.len() - 1);
    }
}

proof fn lemma_dependency_finish(plan: PlanView, visits: Seq<Visit>, id: Seq<char>)
    requires
        in_order(plan, visits),
        forall|i: int, j: int|
            0 <= i < j < plan.steps.len() ==> (#[trigger] plan.steps[i]).definition.id != (
            #[trigger] plan.steps[j]).definition.id,
    ensures
        plan.dependency_finish(visits, id) matches Some(at) ==> i64::MIN <= at <= i64::MAX,
        forall|k: int|
            0 <= k < visits.len() && (#[trigger] plan.steps[k]).definition.id == id
                ==> plan.dependency_finish(visits, id) == Some(visits[k].finish),
    decreases visits.len(),
{
    if visits.len() > 0 {
        let rest = visits.drop_last();
        assert(in_order(plan, rest)) by {
            assert(forall|k: int| 0 <= k < rest.len() ==> #[trigger] rest[k] == visits[k]);
        }
        lemma_dependency_finish(plan, rest, id);
        assert(visits[visits.len() - 1].step == visits.len() - 1);
        assert(forall|k: int| 0 <= k < rest.len() ==> #[trigger] rest[k] == visits[k]);
    }
}

proof fn lemma_dependencies_end(
    plan: PlanView,
    visits: Seq<Visit>,
    dependencies: Seq<Seq<char>>,
    now: int,
)
    requires
        in_order(plan, visits),
        forall|i: int, j: int|
            0 <= i < j < plan.steps.len() ==> (#[trigger] plan.steps[i]).definition.id != (
            #[trigger] plan.steps[j]).definition.id,
    ensures
        plan.dependencies_end(visits, dependencies) matches Some(at) ==> i64::MIN <= at
            <= i64::MAX,
        forall|k: int, d: int|
            0 <= k < visits.len() && 0 <= d < dependencies.len() && (
            #[trigger] plan.steps[k]).definition.id == #[trigger] dependencies[d]
                ==> (plan.dependencies_end(visits, dependencies) matches Some(at)
                && visits[k].finish <= at),
    decreases dependencies.len(),
{
    if dependencies.len() > 0 {
        let rest = dependencies.drop_last();
        lemma_dependencies_end(plan, visits, rest, now);
        lemma_dependency_finish(plan, visits, dependencies.last());
        assert forall|k: int, d: int|
            0 <= k < visits.len() && 0 <= d < dependencies.len() && (
            #[trigger] plan.steps[k]).definition.id == #[trigger] dependencies[d] implies (
        plan.dependencies_end(visits, dependencies) matches Some(at) && visits[k].finish
            <= at) by {
            if d < rest.len() {
                assert(rest[d] == dependencies[d]);
            }
        }
    }
}

/// What the prediction of an unfinished step waits for, given the visits of those before it.
#[verifier::opaque]
spec fn waits(plan: PlanView, visits: Seq<Visit>, k: int, stage_start: int, now: int) -> bool {
    let step = plan.steps[k];
    let finish = visits[k].finish;
    !step.state.finished() ==> {
        &&& finish >= saturate(stage_start + step.remaining_at(now))
        &&& finish >= saturate(now + step.remaining_at(now))
        &&& forall|j: int|
            0 <= j < k && (#[trigger] plan.steps[j]).owner == step.owner ==> finish >= saturate(
                visits[j].finish + step.remaining_at(now),
            )
        &&& forall|j: int, d: int|
            0 <= j < k && 0 <= d < step.definition.dependencies.len() && (
            #[trigger] plan.steps[j]).definition.id == #[trigger] step.definition.dependencies[d]
                ==> finish >= saturate(visits[j].finish + step.remaining_at(now))
    }
}

proof fn lemma_step_finish(
    plan: PlanView,
    visits: Seq<Visit>,
    k: int,
    stage_start: int,
    now: int,
)
    requires
        plan.valid(),
        clocked(plan, now),
        0 <= k < visits.len() <= plan.steps.len(),
        in_order(plan, visits.take(k)),
        i64::MIN <= stage_start <= i64::MAX,
        visits[k] == (Visit {
            step: k,
            finish: plan.step_finish(visits.take(k), plan.steps[k], stage_start, now),
        }),
    ensures
        i64::MIN <= visits[k].finish <= i64::MAX,
        waits(plan, visits, k, stage_start, now),
{
    reveal(waits);
    let step = plan.steps[k];
    let seen = visits.take(k);
    lemma_owner_end(plan, seen, step.owner, now);
    lemma_dependencies_end(plan, seen, step.definition.dependencies, now);
    assert(forall|j: int| 0 <= j < k ==> #[trigger] seen[j] == visits[j]);
    assert(step.completed_at matches Some(at) ==> i64::MIN <= at <= i64::MAX);
    if !step.state.finished() {
        assert forall|j: int|
            0 <= j < k && (#[trigger] plan.steps[j]).owner == step.owner implies visits[k].finish
            >= saturate(visits[j].finish + step.remaining_at(now)) by {
            assert(seen[j].finish <= plan.owner_end(seen, step.owner, now));
        }
        assert forall|j: int, d: int|
            0 <= j < k && 0 <= d < step.definition.dependencies.len() && (
            #[trigger] plan.steps[j]).definition.id
                == #[trigger] step.definition.dependencies[d] implies visits[k].finish >= saturate(
            visits[j].finish + step.remaining_at(now),
        ) by {
            assert(seen[j].finish <= plan.dependencies_end(
                seen,
                step.definition.dependencies,
            )->0);
        }
    }
}

/// More visits and an earlier stage change nothing in what a prediction waits for.
proof fn lemma_waits_longer(
    plan: PlanView,
    visits: Seq<Visit>,
    more: Seq<Visit>,
    k: int,
    stage_start: int,
    earlier: int,
    now: int,
)
    requires
        waits(plan, visits, k, stage_start, now),
        earlier <= stage_start,
        forall|j: int| 0 <= j <= k ==> #[trigger] more[j] == visits[j],
        0 <= k,
    ensures
        waits(plan, more, k, earlier, now),
{
    reveal(waits);
    assert(more[k] == visits[k]);
    let step = plan.steps[k];
    assert forall|j: int, d: int|
        0 <= j < k && 0 <= d < step.definition.dependencies.len() && (
        #[trigger] plan.steps[j]).definition.id == #[trigger] step.definition.dependencies[d]
            && !step.state.finished() implies more[k].finish >= saturate(
        more[j].finish + step.remaining_at(now),
    ) by {
        assert(more[j] == visits[j]);
    }
}

/// Among the steps of a valid plan, those of one stage come before those of the next.
spec fn first_of_rank(plan: PlanView, c: int, rank: int) -> bool {
    &&& 0 <= c <= plan.steps.len()
    &&& forall|i: int|
        0 <= i < c ==> stage_rank(plan.stages, #[trigger] plan.steps[i]) < rank
    &&& forall|i: int|
        c <= i < plan.steps.len() ==> stage_rank(plan.stages, #[trigger] plan.steps[i]) >= rank
}

proof fn lemma_rank_is_stage(plan: PlanView, i: int, rank: int)
    requires
        plan.valid(),
        0 <= i < plan.steps.len(),
        0 <= rank < plan.stages.len(),
    ensures
        (plan.steps[i].definition.stage_id == plan.stages[rank].id) == (stage_rank(
            plan.stages,
            plan.steps[i],
        ) == rank),
{
    lemma_stage_position(plan.stages, plan.steps[i].definition.stage_id);
    assert(plan.has_stage(plan.steps[i].definition.stage_id));
}

/// The visits of one stage's steps among the first `count` steps.
proof fn lemma_visit_stage(
    plan: PlanView,
    rank: int,
    count: int,
    before: Seq<Visit>,
    stage_start: int,
    now: int,
)
    requires
        plan.valid(),
        clocked(plan, now),
        0 <= rank < plan.stages.len(),
        0 <= count <= plan.steps.len(),
        in_order(plan, before),
        first_of_rank(plan, before.len() as int, rank),
        i64::MIN <= stage_start <= i64::MAX,
    ensures
        ({
            let after = plan.visit_stage(plan.stages[rank].id, count, before, stage_start, now);
            &&& in_order(plan, after)
            &&& before.len() <= after.len()
            &&& after.take(before.len() as int) == before
            &&& forall|k: int|
                before.len() <= k < after.len() ==> stage_rank(
                    plan.stages,
                    #[trigger] plan.steps[k],
                ) == rank
            &&& after.len() < count ==> stage_rank(plan.stages, plan.steps[after.len() as int])
                > rank
            &&& count <= before.len() ==> after == before
            &&& count >= before.len() ==> after.len() <= count
            &&& forall|k: int|
                before.len() <= k < after.len() ==> #[trigger] waits(
                    plan,
                    after,
                    k,
                    stage_start,
                    now,
                )
        }),
    decreases count,
{
    let id = plan.stages[rank].id;
    let after = plan.visit_stage(id, count, before, stage_start, now);
    let c = before.len() as int;
    if count == 0 {
        assert(after.take(c) =~= before);
    } else {
        let earlier = plan.visit_stage(id, count - 1, before, stage_start, now);
        lemma_visit_stage(plan, rank, count - 1, before, stage_start, now);
        lemma_rank_is_stage(plan, count - 1, rank);
        if plan.steps[count - 1].definition.stage_id == id {
            assert(stage_rank(plan.stages, plan.steps[count - 1]) == rank);
            assert(count - 1 >= c);
            if earlier.len() < count - 1 {
                assert(stage_rank(plan.stages, plan.steps[earlier.len() as int]) > rank);
                assert(stage_rank(plan.stages, plan.steps[earlier.len() as int]) <= stage_rank(
                    plan.stages,
                    plan.steps[count - 1],
                ));
            }
            assert(earlier.len() == count - 1);
            assert(after.take(count - 1) =~= earlier);
            lemma_step_finish(plan, after, count - 1, stage_start, now);
            assert(after.take(c) =~= earlier.take(c));
            assert forall|k: int| c <= k < after.len() implies #[trigger] waits(
                plan,
                after,
                k,
                stage_start,
                now,
            ) by {
                if k < count - 1 {
                    assert(waits(plan, earlier, k, stage_start, now));
                    assert(forall|j: int| 0 <= j <= k ==> #[trigger] after[j] == earlier[j]);
                    lemma_waits_longer(plan, earlier, after, k, stage_start, stage_start, now);
                }
            }
            assert forall|k: int| 0 <= k < after.len() implies (#[trigger] after[k]).step == k
                && i64::MIN <= after[k].finish <= i64::MAX by {
                if k < count - 1 {
                    assert(after[k] == earlier[k]);
                }
            }
        } else {
            if earlier.len() < count {
                if earlier.len() == count - 1 {
                    if count - 1 >= c {
                        assert(stage_rank(plan.stages, plan.steps[count - 1]) > rank);
                    }
                }
            }
        }
    }
}

/// The visits of the first stages and what they wait for.
spec fn staged(plan: PlanView, visits: Seq<Visit>, end: int, now: int) -> bool {
    &&& in_order(plan, visits)
    &&& now <= end <= i64::MAX
    &&& forall|k: int| 0 <= k < visits.len() ==> (#[trigger] visits[k]).finish <= end
    &&& forall|k: int| 0 <= k < visits.len() ==> #[trigger] waits(plan, visits, k, now, now)
    &&& forall|j: int, k: int|
        0 <= j < k < visits.len() && stage_rank(plan.stages, #[trigger] plan.steps[j])
            < stage_rank(plan.stages, #[trigger] plan.steps[k])
            && !plan.steps[k].state.finished() ==> visits[k].finish >= saturate(
            visits[j].finish + plan.steps[k].remaining_at(now),
        )
}

/// The visits of one more stage after those of the stages before it.
#[verifier::opaque]
spec fn extends(
    plan: PlanView,
    before: Seq<Visit>,
    visits: Seq<Visit>,
    rank: int,
    start: int,
    now: int,
) -> bool {
    &&& staged(plan, before, start, now)
    &&& first_of_rank(plan, before.len() as int, rank)
    &&& in_order(plan, visits)
    &&& before.len() <= visits.len()
    &&& visits.take(before.len() as int) == before
    &&& forall|k: int|
        before.len() <= k < visits.len() ==> stage_rank(plan.stages, #[trigger] plan.steps[k])
            == rank
    &&& visits.len() < plan.steps.len() ==> stage_rank(
        plan.stages,
        plan.steps[visits.len() as int],
    ) > rank
    &&& forall|k: int|
        before.len() <= k < visits.len() ==> #[trigger] waits(plan, visits, k, start, now)
}

proof fn lemma_extended_prefix(
    plan: PlanView,
    before: Seq<Visit>,
    visits: Seq<Visit>,
    rank: int,
    start: int,
    now: int,
)
    requires
        extends(plan, before, visits, rank, start, now),
    ensures
        forall|k: int| 0 <= k < before.len() ==> #[trigger] visits[k] == before[k],
{
    reveal(extends);
    assert forall|k: int| 0 <= k < before.len() implies #[trigger] visits[k] == before[k] by {
        assert(visits.take(before.len() as int)[k] == visits[k]);
    }
}

proof fn lemma_extended_waits(
    plan: PlanView,
    before: Seq<Visit>,
    visits: Seq<Visit>,
    rank: int,
    start: int,
    now: int,
    k: int,
)
    requires
        extends(plan, before, visits, rank, start, now),
        0 <= k < visits.len(),
    ensures
        waits(plan, visits, k, now, now),
{
    lemma_extended_prefix(plan, before, visits, rank, start, now);
    reveal(extends);
    if k < before.len() {
        assert(waits(plan, before, k, now, now));
        lemma_waits_longer(plan, before, visits, k, now, now, now);
    } else {
        assert(waits(plan, visits, k, start, now));
        lemma_waits_longer(plan, visits, visits, k, start, now, now);
    }
}

proof fn lemma_extended_stages(
    plan: PlanView,
    before: Seq<Visit>,
    visits: Seq<Visit>,
    rank: int,
    start: int,
    now: int,
    j: int,
    k: int,
)
    requires
        extends(plan, before, visits, rank, start, now),
        0 <= j < k < visits.len(),
        stage_rank(plan.stages, plan.steps[j]) < stage_rank(plan.stages, plan.steps[k]),
        !plan.steps[k].state.finished(),
    ensures
        visits[k].finish >= saturate(visits[j].finish + plan.steps[k].remaining_at(now)),
{
    lemma_extended_prefix(plan, before, visits, rank, start, now);
    reveal(extends);
    if k >= before.len() {
        assert(waits(plan, visits, k, start, now));
        reveal(waits);
        assert(j < before.len());
        assert(before[j].finish <= start);
    } else {
        assert(visits[j] == before[j] && visits[k] == before[k]);
    }
}

proof fn lemma_extended_ranks(
    plan: PlanView,
    before: Seq<Visit>,
    visits: Seq<Visit>,
    rank: int,
    start: int,
    now: int,
)
    requires
        extends(plan, before, visits, rank, start, now),
        forall|i: int, j: int|
            0 <= i < j < plan.steps.len() ==> stage_rank(plan.stages, #[trigger] plan.steps[i])
                <= stage_rank(plan.stages, #[trigger] plan.steps[j]),
    ensures
        first_of_rank(plan, visits.len() as int, rank + 1),
{
    reveal(extends);
    let m = visits.len() as int;
    assert forall|i: int| m <= i < plan.steps.len() implies stage_rank(
        plan.stages,
        #[trigger] plan.steps[i],
    ) >= rank + 1 by {
        if m < i {
            assert(stage_rank(plan.stages, plan.steps[m]) <= stage_rank(
                plan.stages,
                plan.steps[i],
            ));
        }
    }
    assert forall|i: int| 0 <= i < m implies stage_rank(plan.stages, #[trigger] plan.steps[i])
        < rank + 1 by {
        if i < before.len() {
            assert(stage_rank(plan.stages, plan.steps[i]) < rank);
        }
    }
}

proof fn lemma_extended_end(
    plan: PlanView,
    before: Seq<Visit>,
    visits: Seq<Visit>,
    rank: int,
    start: int,
    now: int,
)
    requires
        extends(plan, before, visits, rank, start, now),
    ensures
        now <= start <= latest(visits.skip(before.len() as int), start) <= i64::MAX,
        forall|k: int|
            0 <= k < visits.len() ==> (#[trigger] visits[k]).finish <= latest(
                visits.skip(before.len() as int),
                start,
            ),
        visits.len() == before.len() ==> forall|k: int|
            0 <= k < visits.len() ==> (#[trigger] visits[k]).finish <= start,
{
    lemma_extended_prefix(plan, before, visits, rank, start, now);
    reveal(extends);
    let c = before.len() as int;
    let fresh = visits.skip(c);
    lemma_latest(fresh, start);
    assert(forall|k: int| 0 <= k < fresh.len() ==> #[trigger] fresh[k] == visits[k + c]);
    assert forall|k: int| 0 <= k < visits.len() implies (#[trigger] visits[k]).finish <= latest(
        fresh,
        start,
    ) by {
        if k >= c {
            assert(fresh[k - c] == visits[k]);
        } else {
            assert(before[k].finish <= start);
        }
    }
}

proof fn lemma_forecast_stages(plan: PlanView, count: int, now: int)
    requires
        plan.valid(),
        clocked(plan, now),
        0 <= count <= plan.stages.len(),
    ensures
        ({
            let (visits, end) = plan.forecast_stages(count, now);
            &&& staged(plan, visits, end, now)
            &&& first_of_rank(plan, visits.len() as int, count)
        }),
    decreases count,
{
    let (visits, end) = plan.forecast_stages(count, now);
    if count == 0 {
        assert(first_of_rank(plan, 0, 0)) by {
            assert forall|i: int| 0 <= i < plan.steps.len() implies stage_rank(
                plan.stages,
                #[trigger] plan.steps[i],
            ) >= 0 by {
                lemma_stage_position(plan.stages, plan.steps[i].definition.stage_id);
            }
        }
    } else {
        let (before, start) = plan.forecast_stages(count - 1, now);
        let rank = count - 1;
        lemma_forecast_stages(plan, rank, now);
        assert(extends(plan, before, visits, rank, start, now)) by {
            lemma_visit_stage(plan, rank, plan.steps.len() as int, before, start, now);
            reveal(extends);
        }
        lemma_extended_ranks(plan, before, visits, rank, start, now);
        lemma_extended_end(plan, before, visits, rank, start, now);
        assert(plan.stages[rank].estimate_seconds > 0);
        if !plan.expanded(plan.stages[rank].id) {
            assert(visits.len() == before.len()) by {
                reveal(extends);
                if visits.len() > before.len() {
                    let c = before.len() as int;
                    lemma_rank_is_stage(plan, c, rank);
                    assert(plan.steps[c].definition.stage_id == plan.stages[rank].id);
                }
            }
        }
        assert(in_order(plan, visits)) by {
            reveal(extends);
        }
        assert forall|k: int| 0 <= k < visits.len() implies #[trigger] waits(
            plan,
            visits,
            k,
            now,
            now,
        ) by {
            lemma_extended_waits(plan, before, visits, rank, start, now, k);
        }
        assert forall|j: int, k: int|
            0 <= j < k < visits.len() && stage_rank(plan.stages, #[trigger] plan.steps[j])
                < stage_rank(plan.stages, #[trigger] plan.steps[k])
                && !plan.steps[k].state.finished() implies visits[k].finish >= saturate(
            visits[j].finish + plan.steps[k].remaining_at(now),
        ) by {
            lemma_extended_stages(plan, before, visits, rank, start, now, j, k);
        }
    }
}

proof fn lemma_visited_finish(plan: PlanView, visits: Seq<Visit>, i: int, default: int)
    requires
        in_order(plan, visits),
        0 <= i < visits.len(),
    ensures
        visited_finish(visits, i, default) == visits[i].finish,
    decreases visits.len(),
{
    let rest = visits.drop_last();
    assert(visits[visits.len() - 1].step == visits.len() - 1);
    if i < rest.len() {
        assert(in_order(plan, rest)) by {
            assert(forall|k: int| 0 <= k < rest.len() ==> #[trigger] rest[k] == visits[k]);
        }
        lemma_visited_finish(plan, rest, i, default);
    }
}

proof fn lemma_forecast(plan: PlanView, now: int)
    requires
        plan.valid(),
        clocked(plan, now),
    ensures
        ({
            let (visits, end) = plan.forecast_stages(plan.stages.len() as int, now);
            &&& staged(plan, visits, end, now)
            &&& visits.len() == plan.steps.len()
            &&& forall|i: int|
                0 <= i < plan.steps.len() ==> #[trigger] plan.forecast_at(now).steps[i]
                    == visits[i].finish
        }),
{
    let n = plan.stages.len() as int;
    let (visits, end) = plan.forecast_stages(n, now);
    lemma_forecast_stages(plan, n, now);
    let m = visits.len() as int;
    if m < plan.steps.len() {
        assert(stage_rank(plan.stages, plan.steps[m]) >= n);
        lemma_stage_position(plan.stages, plan.steps[m].definition.stage_id);
        assert(plan.has_stage(plan.steps[m].definition.stage_id));
    }
    assert forall|i: int| 0 <= i < plan.steps.len() implies #[trigger] plan.forecast_at(
        now,
    ).steps[i] == visits[i].finish by {
        lemma_visited_finish(plan, visits, i, now);
    }
}

/// An unfinished step `i` is predicted to end no earlier than its remaining work after `now`,
/// and no earlier than that after each earlier step `j` it has to wait for: one that it depends
/// on, one of the same executor, or one of an earlier stage.
pub proof fn law_forecast_waits(plan: ContinuousPlanning, now: i64, j: int, i: int)
    requires
        plan@.valid(),
        0 <= j < i < plan@.steps.len(),
        !plan@.steps[i].state.finished(),
    ensures
        ({
            let step = plan@.steps[i];
            let times = plan@.forecast_at(now as int).steps;
            &&& times[i] >= saturate(now + step.remaining_at(now as int))
            &&& (plan@.steps[j].owner == step.owner || step.definition.dependencies.contains(
                plan@.steps[j].definition.id,
            ) || stage_rank(plan@.stages, plan@.steps[j]) < stage_rank(plan@.stages, step))
                ==> times[i] >= saturate(times[j] + step.remaining_at(now as int))
        }),
{
    lemma_plan_is_clocked(plan, now);
    lemma_forecast(plan@, now as int);
    let (visits, end) = plan@.forecast_stages(plan@.stages.len() as int, now as int);
    let step = plan@.steps[i];
    reveal(waits);
    assert(waits(plan@, visits, i, now as int, now as int));
    assert(plan@.forecast_at(now as int).steps[i] == visits[i].finish);
    assert(plan@.forecast_at(now as int).steps[j] == visits[j].finish);
    if step.definition.dependencies.contains(plan@.steps[j].definition.id) {
        let d = step.definition.dependencies.index_of(plan@.steps[j].definition.id);
        assert(step.definition.dependencies[d] == plan@.steps[j].definition.id);
    }
}

proof fn lemma_plan_is_clocked(plan: ContinuousPlanning, now: i64)
    ensures
        clocked(plan@, now as int),
{
    assert forall|i: int| 0 <= i < plan@.steps.len() implies ((
    #[trigger] plan@.steps[i]).completed_at matches Some(at) ==> i64::MIN <= at <= i64::MAX) by {
        assert(plan@.steps[i] == plan.steps@[i]@);
    }
}

/// A finished step is predicted to end when it ended.
pub proof fn law_forecast_keeps_finished_steps(plan: ContinuousPlanning, now: i64, i: int)
    requires
        plan@.valid(),
        0 <= i < plan@.steps.len(),
        plan@.steps[i].state.finished(),
    ensures
        plan@.forecast_at(now as int).steps[i] == (match plan@.steps[i].completed_at {
            Some(at) => at,
            None => now as int,
        }),
{
    lemma_plan_is_clocked(plan, now);
    lemma_forecast(plan@, now as int);
    let n = plan@.stages.len() as int;
    lemma_finished_visits(plan@, n, now as int);
    let (visits, end) = plan@.forecast_stages(n, now as int);
    assert(plan@.forecast_at(now as int).steps[i] == visits[i].finish);
    assert(visits[i].step == i);
}

spec fn finished_finish(step: StepView, now: int) -> int {
    match step.completed_at {
        Some(at) => at,
        None => now,
    }
}

spec fn finished_kept(plan: PlanView, visits: Seq<Visit>, now: int) -> bool {
    forall|k: int|
        0 <= k < visits.len() && plan.steps[(#[trigger] visits[k]).step].state.finished()
            ==> visits[k].finish == finished_finish(plan.steps[visits[k].step], now)
}

proof fn lemma_finished_visit_stage(
    plan: PlanView,
    id: Seq<char>,
    count: int,
    before: Seq<Visit>,
    start: int,
    now: int,
)
    requires
        finished_kept(plan, before, now),
    ensures
        finished_kept(plan, plan.visit_stage(id, count, before, start, now), now),
    decreases count,
{
    if count > 0 {
        lemma_finished_visit_stage(plan, id, count - 1, before, start, now);
    }
}

proof fn lemma_finished_visits(plan: PlanView, count: int, now: int)
    ensures
        finished_kept(plan, plan.forecast_stages(count, now).0, now),
    decreases count,
{
    if count > 0 {
        lemma_finished_visits(plan, count - 1, now);
        let (before, start) = plan.forecast_stages(count - 1, now);
        lemma_finished_visit_stage(
            plan,
            plan.stages[count - 1].id,
            plan.steps.len() as int,
            before,
            start,
            now,
        );
    }
}

/// A plan with work left is predicted to end no earlier than now and than each of its steps.
pub proof fn law_forecast_ends_last(plan: ContinuousPlanning, now: i64, i: int)
    requires
        plan@.valid(),
        !plan@.complete(),
        0 <= i < plan@.steps.len(),
    ensures
        plan@.forecast_at(now as int).completed_at >= now,
        plan@.forecast_at(now as int).completed_at >= plan@.forecast_at(now as int).steps[i],
{
    lemma_plan_is_clocked(plan, now);
    lemma_forecast(plan@, now as int);
    let (visits, end) = plan@.forecast_stages(plan@.stages.len() as int, now as int);
    assert(plan@.forecast_at(now as int).steps[i] == visits[i].finish);
}

/// The predicted end of a complete plan is the time at which it ended, at whatever time one asks.
pub proof fn law_forecast_of_complete_plan_is_fixed(plan: PlanView, now: int, at: int)
    requires
        plan.complete(),
    ensures
        plan.forecast_at(now).completed_at == plan.forecast_at(at).completed_at,
        plan.forecast_at(now).completed_at == (match latest_completion(plan.steps) {
            Some(at) => at,
            None => plan.updated_at,
        }),
{
}

/// The seconds of work that are left of a step: its estimate less what was spent, and none where
/// that much was spent already.
pub open spec fn work_left(step: StepView, now: int) -> int {
    let left = step.definition.estimate_seconds - spent(step, now);
    if left > 0 {
        left
    } else {
        0
    }
}

/// A time some seconds later, on a clock that stops at its last second.
pub open spec fn after(at: int, seconds: int) -> int {
    if at + seconds > 0x7fff_ffff_ffff_ffff {
        0x7fff_ffff_ffff_ffff
    } else {
        at + seconds
    }
}

/// Whether the step `i` cannot begin before the step `j` ends: `j` comes before it, and it depends
/// on `j` or has the same executor.
pub open spec fn waits_for(plan: PlanView, i: int, j: int) -> bool {
    &&& 0 <= j < i
    &&& plan.steps[j].owner == plan.steps[i].owner
        || plan.steps[i].definition.dependencies.contains(plan.steps[j].definition.id)
}

/// Whether a step that is not over begins at a time: the latest of now, of the end of the stages
/// before its own, and of the ends of the steps that it waits for.
pub open spec fn begins(
    plan: PlanView,
    times: Seq<int>,
    stage_start: int,
    now: int,
    i: int,
    start: int,
) -> bool {
    &&& start >= now
    &&& start >= stage_start
    &&& forall|j: int| #[trigger] waits_for(plan, i, j) ==> start >= times[j]
    &&& start == now || start == stage_start || exists|j: int|
        #[trigger] waits_for(plan, i, j) && start == times[j]
}

/// Whether a stage ends at a time: when the last of its steps ends, but not before it began; and
/// where it has no steps, when its estimate is used up.
pub open spec fn ends(plan: PlanView, times: Seq<int>, k: int, start: int, end: int) -> bool {
    if has_steps(plan, k) {
        &&& end >= start
        &&& forall|i: int| #[trigger] of_stage(plan, i, k) ==> end >= times[i]
        &&& end == start || exists|i: int| #[trigger] of_stage(plan, i, k) && end == times[i]
    } else {
        end == after(start, plan.stages[k].estimate_seconds)
    }
}

/// Whether a step is one of a stage's.
pub open spec fn of_stage(plan: PlanView, i: int, k: int) -> bool {
    0 <= i < plan.steps.len() && plan.steps[i].definition.stage_id == plan.stages[k].id
}

/// Whether some times are the predicted ends of a plan's steps, and `gates` those of its stages,
/// after the time at which the first one begins.
pub open spec fn schedule(plan: PlanView, now: int, times: Seq<int>, gates: Seq<int>) -> bool {
    &&& times.len() == plan.steps.len()
    &&& gates.len() == plan.stages.len() + 1
    &&& gates[0] == now
    &&& forall|k: int|
        0 <= k < plan.stages.len() ==> #[trigger] ends(plan, times, k, gates[k], gates[k + 1])
    &&& forall|i: int|
        0 <= i < plan.steps.len() && over(#[trigger] plan.steps[i]) ==> times[i] == (
        match plan.steps[i].completed_at {
            Some(at) => at,
            None => now,
        })
    &&& forall|i: int, k: int|
        #[trigger] of_stage(plan, i, k) && 0 <= k < plan.stages.len() && !over(plan.steps[i])
            ==> begins_and_ends(plan, times, gates[k], now, i)
}

/// Whether a step that is not over is predicted to end when the work that is left of it is done.
pub open spec fn begins_and_ends(
    plan: PlanView,
    times: Seq<int>,
    stage_start: int,
    now: int,
    i: int,
) -> bool {
    exists|start: int| #[trigger]
        begins(plan, times, stage_start, now, i, start) && times[i] == after(
            start,
            work_left(plan.steps[i], now),
        )
}

proof fn lemma_owner_end_reached(plan: PlanView, visits: Seq<Visit>, owner: Seq<char>, now: int)
    requires
        in_order(plan, visits),
    ensures
        plan.owner_end(visits, owner, now) == now || exists|j: int|
            0 <= j < visits.len() && (#[trigger] plan.steps[j]).owner == owner
                && visits[j].finish == plan.owner_end(visits, owner, now),
    decreases visits.len(),
{
    if visits.len() > 0 {
        let rest = visits.drop_last();
        let last = visits.len() - 1;
        assert(in_order(plan, rest)) by {
            assert(forall|k: int| 0 <= k < rest.len() ==> #[trigger] rest[k] == visits[k]);
        }
        lemma_owner_end_reached(plan, rest, owner, now);
        assert(visits[last].step == last);
        let end = plan.owner_end(visits, owner, now);
        if plan.steps[last].owner == owner && end == visits[last].finish {
            assert(plan.steps[last].owner == owner);
        } else if end != now {
            let j = choose|j: int|
                0 <= j < rest.len() && (#[trigger] plan.steps[j]).owner == owner
                    && rest[j].finish == end;
            assert(plan.steps[j].owner == owner && visits[j].finish == end);
        }
    }
}

proof fn lemma_dependency_reached(plan: PlanView, visits: Seq<Visit>, id: Seq<char>)
    requires
        in_order(plan, visits),
    ensures
        plan.dependency_finish(visits, id) matches Some(at) ==> exists|j: int|
            0 <= j < visits.len() && (#[trigger] plan.steps[j]).definition.id == id
                && visits[j].finish == at,
    decreases visits.len(),
{
    if visits.len() > 0 {
        let rest = visits.drop_last();
        let last = visits.len() - 1;
        assert(in_order(plan, rest)) by {
            assert(forall|k: int| 0 <= k < rest.len() ==> #[trigger] rest[k] == visits[k]);
        }
        lemma_dependency_reached(plan, rest, id);
        assert(visits[last].step == last);
        if let Some(at) = plan.dependency_finish(visits, id) {
            if plan.steps[last].definition.id == id {
                assert(plan.steps[last].definition.id == id && visits[last].finish == at);
            } else {
                let j = choose|j: int|
                    0 <= j < rest.len() && (#[trigger] plan.steps[j]).definition.id == id
                        && rest[j].finish == at;
                assert(plan.steps[j].definition.id == id && visits[j].finish == at);
            }
        }
    }
}

proof fn lemma_dependencies_reached(plan: PlanView, visits: Seq<Visit>, ids: Seq<Seq<char>>)
    requires
        in_order(plan, visits),
    ensures
        plan.dependencies_end(visits, ids) matches Some(at) ==> exists|j: int|
            0 <= j < visits.len() && ids.contains((#[trigger] plan.steps[j]).definition.id)
                && visits[j].finish == at,
    decreases ids.len(),
{
    if ids.len() > 0 {
        let rest = ids.drop_last();
        let last = ids.last();
        lemma_dependencies_reached(plan, visits, rest);
        lemma_dependency_reached(plan, visits, last);
        if let Some(at) = plan.dependencies_end(visits, ids) {
            assert(ids[ids.len() - 1] == last);
            if plan.dependency_finish(visits, last) == Some(at) {
                let j = choose|j: int|
                    0 <= j < visits.len() && (#[trigger] plan.steps[j]).definition.id == last
                        && visits[j].finish == at;
                assert(ids.contains(plan.steps[j].definition.id));
            } else {
                let j = choose|j: int|
                    0 <= j < visits.len() && rest.contains((#[trigger] plan.steps[j]).definition.id)
                        && visits[j].finish == at;
                let d = rest.index_of(plan.steps[j].definition.id);
                assert(ids[d] == rest[d]);
                assert(ids.contains(plan.steps[j].definition.id));
            }
        }
    }
}

/// The visits of a stage predict each of its steps from those before it.
proof fn lemma_visits_predict(
    plan: PlanView,
    rank: int,
    count: int,
    before: Seq<Visit>,
    stage_start: int,
    now: int,
    k: int,
)
    requires
        plan.valid(),
        clocked(plan, now),
        0 <= rank < plan.stages.len(),
        0 <= count <= plan.steps.len(),
        in_order(plan, before),
        first_of_rank(plan, before.len() as int, rank),
        i64::MIN <= stage_start <= i64::MAX,
        before.len() <= k < plan.visit_stage(
            plan.stages[rank].id,
            count,
            before,
            stage_start,
            now,
        ).len(),
    ensures
        ({
            let after = plan.visit_stage(plan.stages[rank].id, count, before, stage_start, now);
            after[k].finish == plan.step_finish(after.take(k), plan.steps[k], stage_start, now)
        }),
    decreases count,
{
    let id = plan.stages[rank].id;
    let all = plan.visit_stage(id, count, before, stage_start, now);
    lemma_visit_stage(plan, rank, count, before, stage_start, now);
    if count > 0 {
        let earlier = plan.visit_stage(id, count - 1, before, stage_start, now);
        lemma_visit_stage(plan, rank, count - 1, before, stage_start, now);
        if plan.steps[count - 1].definition.stage_id == id {
            assert(all == earlier.push(
                Visit {
                    step: count - 1,
                    finish: plan.step_finish(earlier, plan.steps[count - 1], stage_start, now),
                },
            ));
            let last = all.len() - 1;
            assert(all[last].step == last);
            if k < last {
                lemma_visits_predict(plan, rank, count - 1, before, stage_start, now, k);
                assert(all.take(k) =~= earlier.take(k));
            } else {
                assert(all.take(k) =~= earlier);
            }
        } else {
            lemma_visits_predict(plan, rank, count - 1, before, stage_start, now, k);
        }
    }
}

/// The visits and the ends of the first stages go on unchanged in those of more stages, and each
/// step is predicted from the steps before it and the end of the stages before its own.
proof fn lemma_predictions(plan: PlanView, count: int, now: int, k: int)
    requires
        plan.valid(),
        clocked(plan, now),
        0 <= count <= plan.stages.len(),
        0 <= k < plan.forecast_stages(count, now).0.len(),
    ensures
        ({
            let visits = plan.forecast_stages(count, now).0;
            let rank = stage_rank(plan.stages, plan.steps[k]);
            &&& 0 <= rank < count
            &&& visits[k].finish == plan.step_finish(
                visits.take(k),
                plan.steps[k],
                plan.forecast_stages(rank, now).1,
                now,
            )
        }),
    decreases count,
{
    let (visits, end) = plan.forecast_stages(count, now);
    let (before, start) = plan.forecast_stages(count - 1, now);
    let rank = count - 1;
    lemma_forecast_stages(plan, rank, now);
    lemma_forecast_stages(plan, count, now);
    lemma_visit_stage(plan, rank, plan.steps.len() as int, before, start, now);
    assert(forall|j: int| 0 <= j < before.len() ==> #[trigger] visits[j] == before[j]) by {
        assert forall|j: int| 0 <= j < before.len() implies #[trigger] visits[j] == before[j] by {
            assert(visits.take(before.len() as int)[j] == visits[j]);
        }
    }
    if k < before.len() {
        lemma_predictions(plan, rank, now, k);
        assert(visits.take(k) =~= before.take(k));
    } else {
        lemma_visits_predict(plan, rank, plan.steps.len() as int, before, start, now, k);
        assert(stage_rank(plan.stages, plan.steps[k]) == rank);
    }
}

proof fn lemma_begins(plan: PlanView, visits: Seq<Visit>, stage_start: int, now: int, i: int)
    requires
        plan.valid(),
        clocked(plan, now),
        in_order(plan, visits),
        visits.len() == plan.steps.len(),
        0 <= i < visits.len(),
        now <= stage_start <= i64::MAX,
        !over(plan.steps[i]),
        clocked_step(plan.steps[i]),
        visits[i].finish == plan.step_finish(visits.take(i), plan.steps[i], stage_start, now),
    ensures
        begins_and_ends(
            plan,
            Seq::new(plan.steps.len(), |j: int| visits[j].finish),
            stage_start,
            now,
            i,
        ),
{
    let times = Seq::new(plan.steps.len(), |j: int| visits[j].finish);
    let step = plan.steps[i];
    let seen = visits.take(i);
    let ids = step.definition.dependencies;
    assert(in_order(plan, seen)) by {
        assert(forall|k: int| 0 <= k < seen.len() ==> #[trigger] seen[k] == visits[k]);
    }
    lemma_owner_end(plan, seen, step.owner, now);
    lemma_owner_end_reached(plan, seen, step.owner, now);
    lemma_dependencies_end(plan, seen, ids, now);
    lemma_dependencies_reached(plan, seen, ids);
    law_elapsed_time_is_spent_time(step, now);
    let free = plan.owner_end(seen, step.owner, now);
    let ready = match plan.dependencies_end(seen, ids) {
        Some(at) => at,
        None => now,
    };
    let gate = crate::plan::larger(stage_start, ready);
    let start = crate::plan::larger(gate, free);
    assert forall|j: int| #[trigger] waits_for(plan, i, j) implies start >= times[j] by {
        assert(seen[j] == visits[j]);
        if plan.steps[j].owner == step.owner {
            assert(seen[j].finish <= free);
        } else {
            let d = ids.index_of(plan.steps[j].definition.id);
            assert(plan.steps[j].definition.id == ids[d]);
        }
    }
    if start != now && start != stage_start {
        if start == free {
            let j = choose|j: int|
                0 <= j < seen.len() && (#[trigger] plan.steps[j]).owner == step.owner
                    && seen[j].finish == free;
            assert(waits_for(plan, i, j) && times[j] == start);
        } else {
            assert(plan.dependencies_end(seen, ids) == Some(start));
            let j = choose|j: int|
                0 <= j < seen.len() && ids.contains((#[trigger] plan.steps[j]).definition.id)
                    && seen[j].finish == start;
            assert(waits_for(plan, i, j) && times[j] == start);
        }
    }
    assert(begins(plan, times, stage_start, now, i, start));
}

proof fn lemma_latest_reached(visits: Seq<Visit>, from: int)
    ensures
        latest(visits, from) == from || exists|k: int|
            0 <= k < visits.len() && (#[trigger] visits[k]).finish == latest(visits, from),
    decreases visits.len(),
{
    if visits.len() > 0 {
        let rest = visits.drop_last();
        lemma_latest_reached(rest, from);
        let all = latest(visits, from);
        if all == visits.last().finish {
            assert(visits[visits.len() - 1].finish == all);
        } else if all != from {
            let k = choose|k: int| 0 <= k < rest.len() && (#[trigger] rest[k]).finish == all;
            assert(visits[k].finish == all);
        }
    }
}

proof fn lemma_ends(plan: PlanView, now: int, k: int)
    requires
        plan.valid(),
        clocked(plan, now),
        0 <= k < plan.stages.len(),
    ensures
        ends(
            plan,
            plan.forecast_at(now).steps,
            k,
            plan.forecast_stages(k, now).1,
            plan.forecast_stages(k + 1, now).1,
        ),
{
    let n = plan.stages.len() as int;
    let times = plan.forecast_at(now).steps;
    let (before, start) = plan.forecast_stages(k, now);
    let (visits, end) = plan.forecast_stages(k + 1, now);
    lemma_forecast(plan, now);
    lemma_forecast_stages(plan, k, now);
    lemma_forecast_stages(plan, k + 1, now);
    lemma_visit_stage(plan, k, plan.steps.len() as int, before, start, now);
    lemma_stages_go_on(plan, k + 1, n, now);
    let all = plan.forecast_stages(n, now).0;
    let fresh = visits.skip(before.len() as int);
    let c = before.len() as int;
    lemma_latest(fresh, start);
    lemma_latest_reached(fresh, start);
    assert(has_steps(plan, k) == plan.expanded(plan.stages[k].id));
    if has_steps(plan, k) {
        assert forall|i: int| #[trigger] of_stage(plan, i, k) implies c <= i < visits.len()
            && times[i] == fresh[i - c].finish by {
            lemma_rank_is_stage(plan, i, k);
            assert(stage_rank(plan.stages, plan.steps[i]) == k);
            assert(times[i] == all[i].finish);
            assert(all[i] == visits[i]);
        }
        assert forall|i: int| #[trigger] of_stage(plan, i, k) implies end >= times[i] by {
            assert(fresh[i - c].finish <= latest(fresh, start));
        }
        if end != start {
            let m = choose|m: int|
                0 <= m < fresh.len() && (#[trigger] fresh[m]).finish == latest(fresh, start);
            let i = m + c;
            assert(stage_rank(plan.stages, plan.steps[i]) == k);
            lemma_rank_is_stage(plan, i, k);
            assert(of_stage(plan, i, k));
            assert(times[i] == end);
        }
    } else {
        assert(valid_stage(plan.stages[k]));
    }
}

/// The visits of some stages are the first ones of those of more stages.
proof fn lemma_stages_go_on(plan: PlanView, count: int, more: int, now: int)
    requires
        plan.valid(),
        clocked(plan, now),
        0 <= count <= more <= plan.stages.len(),
    ensures
        ({
            let some = plan.forecast_stages(count, now).0;
            let all = plan.forecast_stages(more, now).0;
            &&& some.len() <= all.len()
            &&& forall|k: int| 0 <= k < some.len() ==> #[trigger] all[k] == some[k]
        }),
    decreases more - count,
{
    if count < more {
        lemma_stages_go_on(plan, count, more - 1, now);
        let (before, start) = plan.forecast_stages(more - 1, now);
        lemma_forecast_stages(plan, more - 1, now);
        lemma_visit_stage(plan, more - 1, plan.steps.len() as int, before, start, now);
        let all = plan.forecast_stages(more, now).0;
        let some = plan.forecast_stages(count, now).0;
        assert forall|k: int| 0 <= k < some.len() implies #[trigger] all[k] == some[k] by {
            assert(all.take(before.len() as int)[k] == all[k]);
            assert(before[k] == some[k]);
        }
    }
}

/// The ends of a plan's stages as they are predicted, after the time at which the first begins.
spec fn gates_of(plan: PlanView, now: int) -> Seq<int> {
    Seq::new(plan.stages.len() + 1, |k: int| plan.forecast_stages(k, now).1)
}

/// Whether something is left of a plan: a step that is not over, or a stage without steps.
pub open spec fn something_left(plan: PlanView) -> bool {
    ||| exists|i: int| 0 <= i < plan.steps.len() && !over(#[trigger] plan.steps[i])
    ||| exists|k: int| 0 <= k < plan.stages.len() && !#[trigger] has_steps(plan, k)
}

/// A forecast is exact. A step that is not over, whatever its state, ends when the work that is
/// left of it is done after the latest of now, the end of the stages before its own, and the ends
/// of its dependencies and of its executor's earlier steps; one that is over ended when it did. A
/// stage ends with the last of its steps, or without steps when its estimate is used up. The plan
/// ends with its last stage.
pub proof fn law_forecasts_are_exact(plan: ContinuousPlanning, now: i64)
    requires
        sound_plan(plan@),
    ensures
        exists|gates: Seq<int>| #[trigger]
            schedule(plan@, now as int, plan@.forecast_at(now as int).steps, gates) && (
            something_left(plan@) ==> plan@.forecast_at(now as int).completed_at
                == gates[plan@.stages.len() as int]),
{
    let view = plan@;
    let at = now as int;
    law_sound_plans_are_valid(view);
    lemma_plan_is_clocked(plan, now);
    lemma_forecast(view, at);
    let n = view.stages.len() as int;
    let (visits, end) = view.forecast_stages(n, at);
    let times = view.forecast_at(at).steps;
    let gates = gates_of(view, at);
    assert(times =~= Seq::new(view.steps.len(), |j: int| visits[j].finish));
    assert forall|k: int| 0 <= k < n implies #[trigger] ends(
        view,
        times,
        k,
        gates[k],
        gates[k + 1],
    ) by {
        lemma_ends(view, at, k);
    }
    assert forall|i: int| 0 <= i < view.steps.len() && over(#[trigger] view.steps[i]) implies (
    times[i] == (match view.steps[i].completed_at {
        Some(ended) => ended,
        None => at,
    })) by {
        law_forecast_keeps_finished_steps(plan, now, i);
    }
    assert forall|i: int, k: int|
        #[trigger] of_stage(view, i, k) && 0 <= k < view.stages.len() && !over(
            view.steps[i],
        ) implies begins_and_ends(view, times, gates[k], at, i) by {
        lemma_rank_is_stage(view, i, k);
        lemma_predictions(view, n, at, i);
        lemma_forecast_stages(view, k, at);
        assert(view.steps[i] == plan.steps@[i]@);
        lemma_begins(view, visits, gates[k], at, i);
    }
    assert(schedule(view, at, times, gates));
    if something_left(view) {
        if exists|i: int| 0 <= i < view.steps.len() && !over(#[trigger] view.steps[i]) {
            let i = choose|i: int| 0 <= i < view.steps.len() && !over(#[trigger] view.steps[i]);
            assert(!view.steps[i].state.finished());
        } else {
            let k = choose|k: int| 0 <= k < view.stages.len() && !#[trigger] has_steps(view, k);
            assert(!view.expanded(view.stages[k].id));
        }
        assert(!view.complete());
        assert(view.forecast_at(at).completed_at == gates[n]);
    }
}

/// A plan of which nothing is left ended when the last of its steps was completed, and where no
/// completion is recorded, at its last change.
pub proof fn law_complete_plans_ended_with_their_last_step(plan: PlanView, now: int)
    requires
        forall|i: int| 0 <= i < plan.steps.len() ==> over(#[trigger] plan.steps[i]),
        forall|k: int| 0 <= k < plan.stages.len() ==> #[trigger] has_steps(plan, k),
    ensures
        ({
            let end = plan.forecast_at(now).completed_at;
            &&& forall|i: int|
                0 <= i < plan.steps.len() ==> ((#[trigger] plan.steps[i]).completed_at matches Some(
                    at,
                ) ==> at <= end)
            &&& (exists|i: int|
                0 <= i < plan.steps.len() && (#[trigger] plan.steps[i]).completed_at is Some)
                ==> exists|i: int|
                0 <= i < plan.steps.len() && (#[trigger] plan.steps[i]).completed_at == Some(end)
            &&& (forall|i: int|
                0 <= i < plan.steps.len() ==> (#[trigger] plan.steps[i]).completed_at is None)
                ==> end == plan.updated_at
        }),
{
    assert(plan.all_expanded()) by {
        assert forall|k: int| 0 <= k < plan.stages.len() implies plan.expanded(
            (#[trigger] plan.stages[k]).id,
        ) by {
            assert(has_steps(plan, k));
        }
    }
    assert(plan.all_finished());
    lemma_latest_completion(plan.steps);
}

proof fn lemma_latest_completion(steps: Seq<StepView>)
    ensures
        latest_completion(steps) matches Some(end) ==> (forall|i: int|
            0 <= i < steps.len() ==> ((#[trigger] steps[i]).completed_at matches Some(at) ==> at
                <= end)) && exists|i: int|
            0 <= i < steps.len() && (#[trigger] steps[i]).completed_at == Some(end),
        latest_completion(steps) is None ==> forall|i: int|
            0 <= i < steps.len() ==> (#[trigger] steps[i]).completed_at is None,
    decreases steps.len(),
{
    if steps.len() > 0 {
        let rest = steps.drop_last();
        let last = steps.len() - 1;
        lemma_latest_completion(rest);
        assert(forall|i: int| 0 <= i < rest.len() ==> #[trigger] rest[i] == steps[i]);
        assert forall|i: int| 0 <= i < last implies #[trigger] steps[i] == rest[i] by {}
        if let Some(end) = latest_completion(steps) {
            if steps[last].completed_at == Some(end) {
            } else {
                let i = choose|i: int|
                    0 <= i < rest.len() && (#[trigger] rest[i]).completed_at == Some(end);
                assert(steps[i].completed_at == Some(end));
            }
        }
    }
}

/// What the laws say of a forecast, they say of its fields.
pub proof fn law_forecasts_are_told_by_their_fields(forecast: PlanForecast, i: int)
    ensures
        forecast@.completed_at == forecast.completed_at,
        forecast@.steps.len() == forecast.steps@.len(),
        0 <= i < forecast.steps@.len() ==> forecast@.steps[i] == forecast.steps@[i],
{
}

} // verus!
