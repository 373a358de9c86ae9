//! What is shown of a plan and how it is written, told by the fields of the plan.

use crate::display::clipped_label;
use crate::display::clock_shown;
use crate::display::display_width;
use crate::display::duration_text;
use crate::display::glyphs_fitting;
use crate::display::glyphs_text;
use crate::display::graphemes;
use crate::display::line_end;
use crate::display::lines_of;
use crate::display::plus_decimal;
use crate::display::stamp;
use crate::display::stamp_in;
use crate::display::stamp_of;
use crate::display::stamped_shape;
use crate::display::text_glyphs;
use crate::display::within_a_day;
use crate::display::wrapped;
use crate::display::wrapped_lines;
use crate::display::Glyph;
use crate::display::GlyphView;
use crate::display::STAMP_FORMAT;
use crate::pane::details_of;
use crate::plan::ContinuousPlanning;
use crate::plan::PlanStepState;
use crate::plan::PlanView;
use crate::plan::StageView;
use crate::plan::StepView;
use crate::plan::TimedPlanStep;
use crate::progress::entry_keys;
use crate::progress::entry_views;
use crate::progress::stage_details;
use crate::progress::stage_elapsed;
use crate::progress::stage_step_details;
use crate::progress::stage_steps;
use crate::progress::stamps_of;
use crate::progress::step_details;
use crate::progress::step_entry;
use crate::progress::text_position;
use crate::progress::times_of;
use crate::progress::times_shown;
use crate::progress::Entry;
use crate::progress::EntryView;
use crate::progress::ListAction;
use crate::progress::PlanProgress;
use crate::progress::ProgressView;
use crate::progress::Stamps;
use crate::progress::StampsView;
use crate::progress::StepTimes;
use crate::progress::ViewportView;
use crate::progress_laws::lemma_stage_steps;
use crate::request_laws::clocked_step;
use crate::request_laws::law_elapsed_time_is_spent_time;
use crate::request_laws::spent;
use crate::text::decimal;
use crate::text::joined;
use crate::text::signed_decimal;
use vstd::prelude::*;

verus! {

/// A duration is written in minutes and seconds, the seconds in two digits. There is none below
/// zero.
pub proof fn law_durations_are_minutes_and_seconds(seconds: int)
    ensures
        ({
            let text = duration_text(seconds);
            let n = text.len() as int;
            let shown = if seconds < 0 {
                0
            } else {
                seconds
            };
            &&& n > 3
            &&& text.take(n - 3) == decimal((shown / 60) as nat)
            &&& text[n - 3] == ':'
            &&& '0' <= text[n - 2] <= '5'
            &&& '0' <= text[n - 1] <= '9'
            &&& (text[n - 2] as int - '0' as int) * 10 + (text[n - 1] as int - '0' as int) == shown
                % 60
        }),
{
    let shown = if seconds < 0 {
        0
    } else {
        seconds
    };
    let minutes = decimal((shown / 60) as nat);
    crate::text_laws::law_numbers_are_written_in_digits((shown / 60) as nat);
    assert(duration_text(seconds).take(duration_text(seconds).len() - 3) =~= minutes);
}

/// A time is written as a stamp where the calendar has it, and as a dash where it has not or there
/// is none.
pub proof fn law_times_are_written_as_stamps(value: Option<i64>, offset: int)
    ensures
        value is None ==> stamp_in(value, offset) == "—"@,
        value matches Some(at) ==> {
            &&& -8334601228800 <= at <= 8210266876799 ==> stamp_in(value, offset) == stamp(
                at as int,
                offset,
                "%m-%d %H:%M:%S"@,
            )
            &&& !(-8334601228800 <= at <= 8210266876799) ==> stamp_in(value, offset) == "—"@
        },
{
}

/// The number that two digits of a text stand for.
pub open spec fn two_digits(text: Seq<char>, i: int) -> int {
    (text[i] as int - '0' as int) * 10 + (text[i + 1] as int - '0' as int)
}

/// A stamp has two digits for each of the month, the day, the hour, the minute and the second, with
/// their separators, and shows the time of day.
pub proof fn law_stamps_show_the_time_of_day(text: Seq<char>, local: int)
    requires
        stamped_shape(text),
        clock_shown(text, local),
    ensures
        text.len() == 14,
        text[2] == '-',
        text[5] == ' ',
        text[8] == ':',
        text[11] == ':',
        two_digits(text, 6) * 3600 + two_digits(text, 9) * 60 + two_digits(text, 12) == local
            % 86400,
{
}

proof fn lemma_line_end(line: Seq<char>, rest: Seq<char>)
    requires
        !line.contains('\n'),
    ensures
        line_end(line) == line.len(),
        line_end(line + seq!['\n'] + rest) == line.len(),
    decreases line.len(),
{
    let whole = line + seq!['\n'] + rest;
    if line.len() > 0 {
        assert(line[0] != '\n') by {
            assert(line.contains(line[0]));
        }
        assert(!line.drop_first().contains('\n')) by {
            if line.drop_first().contains('\n') {
                let i = line.drop_first().index_of('\n');
                assert(line[i + 1] == '\n');
            }
        }
        lemma_line_end(line.drop_first(), rest);
        assert(whole.drop_first() =~= line.drop_first() + seq!['\n'] + rest);
        assert(whole[0] == line[0]);
    } else {
        assert(whole[0] == '\n');
    }
}

/// A text is read in lines: each ends at a line feed, with a carriage return before it or without,
/// and the last one where the text does.
pub proof fn law_texts_are_read_in_lines(line: Seq<char>, rest: Seq<char>)
    requires
        !line.contains('\n'),
    ensures
        lines_of(Seq::empty()).len() == 0,
        line.len() > 0 ==> lines_of(line) == seq![line],
        line.len() == 0 || line.last() != '\r' ==> lines_of(line + seq!['\n'] + rest) == seq![line]
            + lines_of(rest),
        line.len() > 0 && line.last() == '\r' ==> lines_of(line + seq!['\n'] + rest) == seq![
            line.take(line.len() - 1),
        ] + lines_of(rest),
{
    lemma_line_end(line, rest);
    let whole = line + seq!['\n'] + rest;
    assert(whole.take(line.len() as int) =~= line);
    assert(whole.skip(line.len() as int + 1) =~= rest);
    if line.len() > 0 {
        assert(line.drop_last() =~= line.take(line.len() - 1));
    }
}

/// Each line is wrapped for itself, in order.
pub proof fn law_lines_are_wrapped_in_order(lines: Seq<Seq<char>>, line: Seq<char>, width: nat)
    ensures
        wrapped_lines(Seq::empty(), width).len() == 0,
        wrapped_lines(lines.push(line), width) == wrapped_lines(lines, width) + wrapped(line, width),
{
    assert(lines.push(line).drop_last() =~= lines);
}

/// The columns that some glyphs take together.
pub open spec fn columns(glyphs: Seq<GlyphView>) -> int
    decreases glyphs.len(),
{
    if glyphs.len() == 0 {
        0
    } else {
        glyphs[0].width + columns(glyphs.drop_first())
    }
}

/// As many glyphs as fit, counted from the first: one more would not.
pub open spec fn as_many_as_fit(glyphs: Seq<GlyphView>, room: int, n: int) -> bool {
    &&& 0 <= n <= glyphs.len()
    &&& n > 0 ==> columns(glyphs.take(n)) <= room
    &&& n < glyphs.len() ==> columns(glyphs.take(n + 1)) > room
}

proof fn lemma_as_many_as_fit(glyphs: Seq<GlyphView>, room: int)
    requires
        forall|i: int| 0 <= i < glyphs.len() ==> (#[trigger] glyphs[i]).width >= 0,
    ensures
        as_many_as_fit(glyphs, room, glyphs_fitting(glyphs, room) as int),
    decreases glyphs.len(),
{
    reveal_with_fuel(columns, 2);
    if glyphs.len() > 0 {
        let rest = glyphs.drop_first();
        let left = room - glyphs[0].width;
        assert forall|i: int| 0 <= i < rest.len() implies (#[trigger] rest[i]).width >= 0 by {
            assert(rest[i] == glyphs[i + 1]);
        }
        if glyphs[0].width > room {
            assert(glyphs.take(1).drop_first() =~= Seq::<GlyphView>::empty());
            assert(columns(glyphs.take(1)) == glyphs[0].width);
        } else {
            lemma_as_many_as_fit(rest, left);
            let m = glyphs_fitting(rest, left) as int;
            assert(glyphs.take(m + 1).drop_first() =~= rest.take(m));
            assert(rest.take(0) =~= Seq::<GlyphView>::empty());
            if m < rest.len() {
                assert(glyphs.take(m + 2).drop_first() =~= rest.take(m + 1));
            }
        }
    }
}

/// A label shows its title as far as it fits: whole where there is room, and otherwise as much as
/// fits beside an ellipsis.
pub proof fn law_labels_show_as_much_as_fits(glyphs: Seq<GlyphView>, total: int, width: int)
    requires
        forall|i: int| 0 <= i < glyphs.len() ==> (#[trigger] glyphs[i]).width >= 0,
    ensures
        total > width && width > 0 ==> exists|n: int| #[trigger]
            as_many_as_fit(glyphs, width - 1, n) && clipped_label(glyphs, total, width)
                == glyphs_text(glyphs.take(n)) + seq!['…'],
        total <= width || width <= 0 ==> exists|n: int| #[trigger]
            as_many_as_fit(glyphs, width, n) && clipped_label(glyphs, total, width)
                == glyphs_text(glyphs.take(n)),
{
    lemma_as_many_as_fit(glyphs, width - 1);
    lemma_as_many_as_fit(glyphs, width);
    let n = glyphs_fitting(glyphs, width - 1) as int;
    let text = glyphs_text(glyphs.take(n));
    assert(text.push('…') =~= text + seq!['…']);
}

/// The glyphs of a title are its graphemes in order, each as wide as it is shown, and their text is
/// what they are.
pub proof fn law_titles_are_made_of_graphemes(
    title: Seq<char>,
    glyph: GlyphView,
    glyphs: Seq<GlyphView>,
    i: int,
)
    ensures
        text_glyphs(title).len() == graphemes(title).len(),
        0 <= i < graphemes(title).len() ==> text_glyphs(title)[i].text == graphemes(title)[i]
            && text_glyphs(title)[i].width == display_width(graphemes(title)[i]),
        glyphs_text(Seq::empty()).len() == 0,
        glyphs_text(seq![glyph] + glyphs) == glyph.text + glyphs_text(glyphs),
{
    assert((seq![glyph] + glyphs).drop_first() =~= glyphs);
}

/// A step has a row of its own with its ID, its title, its estimate, the time spent on it, and its
/// state.
pub proof fn law_rows_of_steps_hold_the_step(steps: Seq<StepView>, i: int, now: int)
    requires
        0 <= i < steps.len(),
        clocked_step(steps[i]),
        -0x8000_0000_0000_0000 <= now <= 0x7fff_ffff_ffff_ffff,
    ensures
        ({
            let row = step_entry(steps, i, now);
            &&& row.key == "step:"@ + steps[i].definition.id
            &&& row.id == steps[i].definition.id
            &&& row.title == steps[i].definition.title
            &&& row.seconds == steps[i].definition.estimate_seconds
            &&& row.elapsed == spent(steps[i], now)
            &&& row.state == steps[i].state
            &&& row.step == Some(i)
        }),
{
    law_elapsed_time_is_spent_time(steps[i], now);
}

/// The time spent on a stage is that spent on its steps.
pub proof fn law_stages_take_the_time_of_their_steps(
    steps: Seq<StepView>,
    stage_id: Seq<char>,
    count: int,
    now: int,
)
    requires
        0 <= count < steps.len(),
        clocked_step(steps[count]),
        -0x8000_0000_0000_0000 <= now <= 0x7fff_ffff_ffff_ffff,
    ensures
        stage_elapsed(steps, stage_id, 0, now) == 0,
        steps[count].definition.stage_id == stage_id ==> stage_elapsed(
            steps,
            stage_id,
            count + 1,
            now,
        ) == stage_elapsed(steps, stage_id, count, now) + spent(steps[count], now),
        steps[count].definition.stage_id != stage_id ==> stage_elapsed(
            steps,
            stage_id,
            count + 1,
            now,
        ) == stage_elapsed(steps, stage_id, count, now),
{
    law_elapsed_time_is_spent_time(steps[count], now);
}

/// A stage is folded into one row while it has no steps, and once all of its steps are completed
/// and none of them is among the last four of the plan.
pub open spec fn folded(plan: PlanView, stage_id: Seq<char>) -> bool {
    forall|i: int|
        0 <= i < plan.steps.len() && (#[trigger] plan.steps[i]).definition.stage_id == stage_id
            ==> plan.steps[i].state is Completed && i + 4 < plan.steps.len()
}

/// The list is made of the stages in order, each folded or with a row for each of its steps, in the
/// order of the plan. Nothing else is in it.
pub proof fn law_lists_show_the_stages_in_order(plan: PlanView, k: int, now: int)
    requires
        0 <= k < plan.stages.len(),
    ensures
        plan.entries(now) == plan.rows_of_stages(plan.stages.len() as int, now),
        plan.rows_of_stages(0, now).len() == 0,
        plan.rows_of_stages(k + 1, now) == plan.rows_of_stages(k, now) + plan.rows_of_stage(
            plan.stages[k],
            now,
        ),
        ({
            let stage: StageView = plan.stages[k];
            let rows = plan.rows_of_stage(stage, now);
            let places = stage_steps(plan.steps, stage.id, plan.steps.len() as int);
            &&& folded(plan, stage.id) ==> rows == seq![plan.stage_entry(stage, now)]
            &&& !folded(plan, stage.id) ==> {
                &&& rows.len() == places.len()
                &&& forall|j: int|
                    0 <= j < rows.len() ==> (#[trigger] rows[j]) == step_entry(
                        plan.steps,
                        places[j],
                        now,
                    )
            }
            &&& forall|i: int|
                places.contains(i) <==> 0 <= i < plan.steps.len()
                    && (#[trigger] plan.steps[i]).definition.stage_id == stage.id
            &&& forall|a: int, b: int|
                0 <= a < b < places.len() ==> #[trigger] places[a] < #[trigger] places[b]
        }),
{
    let stage: StageView = plan.stages[k];
    let n = plan.steps.len() as int;
    let places = stage_steps(plan.steps, stage.id, n);
    lemma_stage_steps(plan.steps, stage.id, n);
    assert forall|i: int|
        places.contains(i) implies 0 <= i < n && (#[trigger] plan.steps[i]).definition.stage_id
        == stage.id by {
        let j = places.index_of(i);
        assert(places[j] == i);
    }
    assert(plan.grouped(stage.id) == folded(plan, stage.id)) by {
        if plan.grouped(stage.id) {
            if places.len() == 0 {
                assert forall|i: int| 0 <= i < n implies (
                #[trigger] plan.steps[i]).definition.stage_id != stage.id by {
                    if plan.steps[i].definition.stage_id == stage.id {
                        assert(places.contains(i));
                    }
                }
            } else {
                assert forall|i: int|
                    0 <= i < n && (#[trigger] plan.steps[i]).definition.stage_id
                        == stage.id implies plan.steps[i].state is Completed && i + 4 < n by {
                    assert(places.contains(i));
                    let j = places.index_of(i);
                    assert(plan.steps[places[j]].state == PlanStepState::Completed);
                    if j < places.len() - 1 {
                        assert(places[j] < places[places.len() - 1]);
                    }
                }
            }
        }
        if folded(plan, stage.id) && places.len() > 0 {
            let last = places.last();
            assert(last == places[places.len() - 1]);
            assert(plan.steps[last].definition.stage_id == stage.id);
            assert forall|j: int| 0 <= j < places.len() implies plan.steps[#[trigger] places[j]].state
                == PlanStepState::Completed by {
                assert(plan.steps[places[j]].definition.stage_id == stage.id);
            }
        }
    }
    let rows = plan.rows_of_stage(stage, now);
    if !folded(plan, stage.id) {
        assert forall|j: int| 0 <= j < rows.len() implies (#[trigger] rows[j]) == step_entry(
            plan.steps,
            places[j],
            now,
        ) by {}
    }
}

/// The row of a folded stage tells the stage, the number of its tasks and the time they took; of a
/// stage without any, what it is expected to take.
pub proof fn law_rows_of_stages_hold_the_stage(plan: PlanView, stage: StageView, now: int)
    ensures
        ({
            let n = plan.steps.len() as int;
            let count = stage_steps(plan.steps, stage.id, n).len();
            let time = stage_elapsed(plan.steps, stage.id, n, now);
            let row = plan.stage_entry(stage, now);
            &&& row.key == "stage:"@ + stage.id
            &&& row.id == stage.id
            &&& row.step is None
            &&& row.elapsed == time
            &&& count == 0 ==> row.title == stage.title && row.seconds == stage.estimate_seconds
                && row.state is Pending
            &&& count > 0 ==> row.title == stage.title + " ("@ + decimal(count) + " tasks)"@
                && row.seconds == time && row.state is Completed
        }),
{
}

/// The row that is selected: the first one with its key.
pub open spec fn at_row(rows: Seq<Seq<char>>, key: Seq<char>, i: int) -> bool {
    &&& 0 <= i < rows.len()
    &&& rows[i] == key
    &&& forall|j: int| 0 <= j < i ==> #[trigger] rows[j] != key
}

/// A row is found by its key, the first where there are several.
pub proof fn law_rows_are_found_by_their_key(rows: Seq<Seq<char>>, key: Seq<char>)
    ensures
        text_position(rows, key) matches Some(i) ==> at_row(rows, key, i),
        text_position(rows, key) is None ==> forall|i: int|
            0 <= i < rows.len() ==> #[trigger] rows[i] != key,
    decreases rows.len(),
{
    if rows.len() > 0 {
        let before = rows.drop_last();
        law_rows_are_found_by_their_key(before, key);
        assert forall|i: int| 0 <= i < before.len() implies before[i] == rows[i] by {}
        match text_position(before, key) {
            Some(i) => {
                assert forall|j: int| 0 <= j < i implies #[trigger] rows[j] != key by {
                    assert(before[j] != key);
                }
            },
            None => {
                assert forall|j: int| 0 <= j < rows.len() - 1 implies #[trigger] rows[j]
                    != key by {
                    assert(before[j] != key);
                }
            },
        }
    }
}

/// Where the selection stands among the drawn rows; at the top where it is not among them.
pub open spec fn stands_at(view: ViewportView, i: int) -> bool {
    if view.selected is Some && view.rows.contains(view.selected->0) {
        at_row(view.rows, view.selected->0, i)
    } else {
        i == 0
    }
}

/// The keys move the selection by one row, or to either end, and not beyond; the last one gives the
/// focus up. All others, and all without the focus, are left to others.
pub proof fn law_keys_move_the_selection(progress: ProgressView, i: int)
    requires
        stands_at(progress.view, i),
    ensures
        ({
            let view = progress.view;
            let n = view.rows.len() as int;
            let moved = |to: int|
                (
                    ProgressView {
                        view: ViewportView { selected: Some(view.rows[to]), ..view },
                        ..progress
                    },
                    true,
                );
            &&& view.focused && n > 0 ==> {
                &&& progress.acted(ListAction::MoveUp) == moved(
                    if i > 0 {
                        i - 1
                    } else {
                        0
                    },
                )
                &&& progress.acted(ListAction::MoveDown) == moved(
                    if i < n - 1 {
                        i + 1
                    } else {
                        n - 1
                    },
                )
                &&& progress.acted(ListAction::JumpTop) == moved(0)
                &&& progress.acted(ListAction::JumpBottom) == moved(n - 1)
            }
            &&& view.focused ==> progress.acted(ListAction::Cancel) == (
                ProgressView { view: ViewportView { focused: false, ..view }, ..progress },
                true,
            )
            &&& view.focused && n == 0 ==> {
                &&& progress.acted(ListAction::MoveUp) == (progress, true)
                &&& progress.acted(ListAction::MoveDown) == (progress, true)
                &&& progress.acted(ListAction::JumpTop) == (progress, true)
                &&& progress.acted(ListAction::JumpBottom) == (progress, true)
            }
            &&& forall|action: ListAction|
                !view.focused || action is MoveLeft || action is MoveRight || action is PageUp
                    || action is PageDown || action is Accept ==> #[trigger] progress.acted(action)
                    == (progress, false)
        }),
{
    let view = progress.view;
    if let Some(key) = view.selected {
        law_rows_are_found_by_their_key(view.rows, key);
        if view.rows.contains(key) {
            let k = view.rows.index_of(key);
            assert(view.rows[k] == key);
            let found = text_position(view.rows, key)->0;
            assert(at_row(view.rows, key, found));
            if found < i {
                assert(view.rows[found] != key);
            }
            if i < found {
                assert(view.rows[i] != key);
            }
            assert(found == i);
        } else if let Some(found) = text_position(view.rows, key) {
            assert(view.rows.contains(view.rows[found]));
        }
    }
    assert(progress.position() == i);
}

/// The clock of the list is that of the server when the plan was sent, and the whole seconds since
/// it was received.
pub proof fn law_the_list_keeps_the_time_of_the_server(progress: ProgressView, clock: int, seconds: int)
    requires
        -0x8000_0000_0000_0000 <= progress.observed_at <= 0x7fff_ffff_ffff_ffff,
        0 <= clock - progress.received - seconds * 1000000000 < 1000000000 || clock
            < progress.received && seconds == 0,
        0 <= seconds,
    ensures
        progress.observed_at + seconds <= 0x7fff_ffff_ffff_ffff ==> progress.timestamp(clock)
            == progress.observed_at + seconds,
        progress.observed_at + seconds > 0x7fff_ffff_ffff_ffff ==> progress.timestamp(clock)
            == 0x7fff_ffff_ffff_ffff,
{
    if clock >= progress.received {
        let passed = clock - progress.received;
        assert(passed / 1_000_000_000 == seconds) by (nonlinear_arith)
            requires
                0 <= passed - seconds * 1000000000 < 1000000000,
        ;
    }
}

/// A plan that is as new as the one that is shown, or newer, takes its place with the times it came
/// with; the list begins anew with a new task. An older one changes nothing.
pub proof fn law_newer_plans_are_shown(
    progress: ProgressView,
    plan: PlanView,
    observed_at: int,
    received: int,
)
    ensures
        ({
            let after = progress.updated(plan, observed_at, received);
            &&& plan.version < progress.plan.version ==> after == progress
            &&& plan.version >= progress.plan.version ==> {
                &&& after.plan == plan
                &&& after.observed_at == observed_at
                &&& after.received == received
                &&& plan.id == progress.plan.id ==> after.view == progress.view
                &&& plan.id != progress.plan.id ==> {
                    &&& !after.view.focused
                    &&& after.view.selected is None
                    &&& after.view.rows.len() == 0
                }
            }
        }),
{
}

/// The details are those of the row that is selected.
pub proof fn law_details_are_those_of_the_selection(progress: ProgressView, now: int)
    ensures
        ({
            let rows = progress.plan.entries(now);
            &&& progress.view.selected is None ==> progress.detailed(now) is None
            &&& progress.detailed(now) matches Some(i) ==> {
                &&& progress.view.selected is Some
                &&& 0 <= i < rows.len()
                &&& rows[i].key == progress.view.selected->0
                &&& forall|j: int| 0 <= j < i ==> (#[trigger] rows[j]).key != rows[i].key
            }
            &&& progress.detailed(now) is None && progress.view.selected is Some ==> forall|i: int|
                0 <= i < rows.len() ==> (#[trigger] rows[i]).key != progress.view.selected->0
        }),
{
    let rows = progress.plan.entries(now);
    let keys = entry_keys(rows);
    if let Some(key) = progress.view.selected {
        law_rows_are_found_by_their_key(keys, key);
        assert forall|i: int| 0 <= i < rows.len() implies keys[i] == (#[trigger] rows[i]).key by {}
    }
}

/// The details of a step tell what it is, how it was estimated and timed, its evidence, and why the
/// plan was last revised.
pub proof fn law_details_of_steps_tell_the_step(
    plan: PlanView,
    i: int,
    now: int,
    stamps: StampsView,
)
    requires
        0 <= i < plan.steps.len(),
        clocked_step(plan.steps[i]),
        -0x8000_0000_0000_0000 <= now <= 0x7fff_ffff_ffff_ffff,
    ensures
        ({
            let step: StepView = plan.steps[i];
            step_details(plan, i, now, stamps) == step.definition.id + " "@ + step.definition.title
                + "\n\n"@ + step.definition.acceptance + "\n\nInitial: "@ + signed_decimal(
                step.initial_estimate_seconds,
            ) + "s · Current: "@ + signed_decimal(step.definition.estimate_seconds)
                + "s · Actual: "@ + signed_decimal(spent(step, now)) + "s · Δ "@ + plus_decimal(
                spent(step, now) - step.initial_estimate_seconds,
            ) + "s\nStarted: "@ + stamps.started + "\nSubmitted: "@ + stamps.submitted
                + "\nCompleted: "@ + stamps.completed + "\nStep ETA: "@ + stamps.step_eta
                + " · Task ETA: "@ + stamps.task_eta + "\n\n"@ + joined(step.evidence, "\n"@)
                + "\n\n"@ + plan.reason
        }),
{
    law_elapsed_time_is_spent_time(plan.steps[i], now);
}

/// A step as the details of its stage tell it.
pub open spec fn told_in_its_stage(step: StepView) -> Seq<char> {
    step.definition.id + " "@ + step.definition.title + "\n"@ + step.definition.acceptance + "\n"@
        + joined(step.evidence, "\n"@)
}

/// The details of a folded stage tell its times, and each of its steps with its evidence.
pub proof fn law_details_of_stages_tell_their_steps(plan: PlanView, row: EntryView)
    ensures
        ({
            let places = stage_steps(plan.steps, row.id, plan.steps.len() as int);
            let parts = places.map_values(|i: int| told_in_its_stage(plan.steps[i]));
            stage_details(plan, row) == row.id + " "@ + row.title + "\n\n"@ + duration_text(
                row.elapsed,
            ) + " → "@ + duration_text(row.seconds) + "\n\n"@ + joined(parts, "\n\n"@)
        }),
{
    let places = stage_steps(plan.steps, row.id, plan.steps.len() as int);
    assert(places.map_values(|i: int| told_in_its_stage(plan.steps[i])) =~= places.map_values(
        |i: int| stage_step_details(plan.steps[i]),
    ));
}

/// What the laws say of the list, they say of its fields.
pub proof fn law_lists_are_told_by_their_fields(
    progress: PlanProgress,
    entries: Seq<Entry>,
    stamps: Stamps,
    glyph: Glyph,
    i: int,
)
    ensures
        progress@.plan == progress.plan@,
        progress@.observed_at == progress.observed_at,
        progress@.received == progress.received,
        progress@.view.focused == progress.view.focused,
        progress@.view.selected is Some == progress.view.selected is Some,
        progress.view.selected matches Some(key) ==> progress@.view.selected == Some(key@),
        progress@.view.rows.len() == progress.view.rows@.len(),
        0 <= i < progress.view.rows@.len() ==> progress@.view.rows[i] == progress.view.rows@[i]@,
        entry_views(entries).len() == entries.len(),
        0 <= i < entries.len() ==> {
            let view = entry_views(entries)[i];
            &&& view.key == entries[i].key@
            &&& view.id == entries[i].id@
            &&& view.title == entries[i].title@
            &&& view.seconds == entries[i].seconds
            &&& view.elapsed == entries[i].elapsed
            &&& view.state == entries[i].state
            &&& view.step is Some == entries[i].step is Some
            &&& entries[i].step matches Some(step) ==> view.step == Some(step as int)
        },
        stamps@.started == stamps.started@,
        stamps@.submitted == stamps.submitted@,
        stamps@.completed == stamps.completed@,
        stamps@.step_eta == stamps.step_eta@,
        stamps@.task_eta == stamps.task_eta@,
        glyph@.text == glyph.text@,
        glyph@.width == glyph.width,
{
}

/// The times of a step are those recorded in it; what is expected of it and of the task is what the
/// forecast says, unless the step is completed.
pub proof fn law_times_come_from_the_step_and_the_forecast(
    plan: ContinuousPlanning,
    i: int,
    now: int,
    times: StepTimes,
)
    ensures
        times_of(plan, i, now, times) ==> {
            let step: TimedPlanStep = plan.steps@[i];
            &&& times.started == step.started_at
            &&& times.submitted == step.submitted_at
            &&& times.completed == step.completed_at
            &&& step.completed_at matches Some(at) ==> times.step_eta == at
            &&& step.completed_at is None ==> times.step_eta == plan@.forecast_at(now).steps[i]
            &&& times.task_eta == plan@.forecast_at(now).completed_at
        },
{
}

/// A time as it is shown: the stamp of it in some time zone, or a dash.
pub open spec fn shown_as(value: Option<i64>, text: Seq<char>) -> bool {
    match value {
        None => text == "—"@,
        Some(at) => if -8334601228800 <= at <= 8210266876799 {
            exists|offset: int|
                -86400 < offset < 86400 && text == #[trigger] stamp(
                    at as int,
                    offset,
                    "%m-%d %H:%M:%S"@,
                )
        } else {
            text == "—"@
        },
    }
}

/// Each time is shown for what it is.
pub proof fn law_each_time_is_shown(value: Option<i64>, text: Seq<char>, times: StepTimes, stamps: StampsView)
    ensures
        stamp_of(value, text) ==> shown_as(value, text),
        times_shown(times, stamps) ==> {
            &&& shown_as(times.started, stamps.started)
            &&& shown_as(times.submitted, stamps.submitted)
            &&& shown_as(times.completed, stamps.completed)
            &&& shown_as(Some(times.step_eta), stamps.step_eta)
            &&& shown_as(Some(times.task_eta), stamps.task_eta)
        },
{
    assert forall|value: Option<i64>, text: Seq<char>| #[trigger]
        stamp_of(value, text) implies shown_as(value, text) by {
        if let Some(at) = value {
            if -8334601228800 <= at <= 8210266876799 {
                let offset = choose|offset: int|
                    within_a_day(offset) && text == #[trigger] stamp(
                        at as int,
                        offset,
                        STAMP_FORMAT@,
                    ) && clock_shown(text, at + offset);
                assert(text == stamp(at as int, offset, "%m-%d %H:%M:%S"@));
            }
        }
    }
}

/// The details are those of the selected step with its times as they are shown, those of the
/// selected stage, and the reason of the plan where nothing is selected.
pub proof fn law_details_tell_the_selection(progress: PlanProgress, clock: u64, text: Seq<char>)
    requires
        details_of(progress, clock, text),
    ensures
        ({
            let now = progress@.timestamp(clock as int);
            let row = progress@.detailed(now);
            &&& row is None ==> text == progress.plan.reason@
            &&& row is Some && progress@.plan.entries(now)[row->0].step is None ==> text
                == stage_details(progress@.plan, progress@.plan.entries(now)[row->0])
            &&& row is Some && progress@.plan.entries(now)[row->0].step is Some
                ==> exists|times: StepTimes, stamps: StampsView| #[trigger]
                step_told(
                    progress.plan,
                    progress@.plan.entries(now)[row->0].step->0,
                    now,
                    times,
                    stamps,
                    text,
                )
        }),
{
    let now = progress@.timestamp(clock as int);
    let row = progress@.detailed(now);
    if row is Some && progress@.plan.entries(now)[row->0].step is Some {
        let i = progress@.plan.entries(now)[row->0].step->0;
        let stamps = choose|stamps: StampsView| #[trigger]
            stamps_of(progress.plan, i, now, stamps) && text == step_details(
                progress@.plan,
                i,
                now,
                stamps,
            );
        let times = choose|times: StepTimes| #[trigger]
            times_of(progress.plan, i, now, times) && times_shown(times, stamps);
        assert(step_told(progress.plan, i, now, times, stamps, text));
    }
}

/// A step is told with its times, and these as they are shown.
pub open spec fn step_told(
    plan: ContinuousPlanning,
    i: int,
    now: int,
    times: StepTimes,
    stamps: StampsView,
    text: Seq<char>,
) -> bool {
    &&& times_of(plan, i, now, times)
    &&& times_shown(times, stamps)
    &&& text == step_details(plan@, i, now, stamps)
}

} // verus!
