//! Where everything stands on the screen and how it looks, told in columns, lines and styles.

use crate::display::clipped_label;
use crate::display::display_width;
use crate::display::duration_text;
use crate::display::lemma_duration_len;
use crate::display::text_glyphs;
use crate::layout::entry_widths;
use crate::layout::first_segment;
use crate::layout::has_overview;
use crate::layout::id_widths;
use crate::layout::list_height;
use crate::layout::minimum_sum;
use crate::layout::minimum_total;
use crate::layout::overview_segments;
use crate::layout::planned;
use crate::layout::row_layout;
use crate::layout::segment_seconds;
use crate::layout::segment_start;
use crate::layout::segment_width;
use crate::layout::segments_total;
use crate::layout::shares_fit;
use crate::layout::vertical_layout;
use crate::layout::widest_elapsed;
use crate::layout::widest_estimate;
use crate::layout::widest_name;
use crate::layout::widths_of;
use crate::layout::without_margin;
use crate::layout::Area;
use crate::layout::RowLayout;
use crate::layout::RowWidths;
use crate::layout::SegmentPlan;
use crate::pane::DetailKey;
use crate::pane::Discovery;
use crate::pane::KeyCode;
use crate::plan::PlanStepState;
use crate::plan::PlanView;
use crate::plan::StepView;
use crate::progress::EntryView;
use crate::progress::ProgressView;
use crate::progress::ViewportView;
use crate::render::bar_begun;
use crate::render::completed_count;
use crate::render::default_selection;
use crate::render::drawn_view;
use crate::render::filled_cells;
use crate::render::heading;
use crate::render::last_running;
use crate::render::marks;
use crate::render::names;
use crate::render::overview_drawing;
use crate::render::row_drawing;
use crate::render::rows_drawing;
use crate::render::state_mark;
use crate::render::state_tone;
use crate::render::timings;
use crate::render::title_style;
use crate::render::Draw;
use crate::render::DrawView;
use crate::render::Span;
use crate::render::SpanView;
use crate::render::TextStyle;
use crate::render::Tone;
use crate::request_laws::has_steps;
use crate::text::decimal;
use vstd::prelude::*;

verus! {

/// The larger of two numbers.
pub open spec fn most(a: int, b: int) -> int {
    if a < b {
        b
    } else {
        a
    }
}

/// The columns of a row are those that its times, its ID and its title take.
pub proof fn law_rows_are_as_wide_as_their_texts(entry: EntryView, elapsed: i64, seconds: i64)
    requires
        entry.elapsed == elapsed,
        entry.seconds == seconds,
        display_width(entry.id) <= usize::MAX,
        display_width(entry.title) <= usize::MAX,
    ensures
        ({
            let widths = entry_widths(entry);
            &&& widths.elapsed == duration_text(entry.elapsed).len()
            &&& widths.estimate == duration_text(entry.seconds).len()
            &&& widths.id == display_width(entry.id)
            &&& widths.title == display_width(entry.title)
        }),
{
    lemma_duration_len(elapsed);
    lemma_duration_len(seconds);
}

/// The widest row gives each width. The name of a row takes six columns, its ID, a space, and its
/// title as far as it has twelve columns.
pub proof fn law_the_widest_row_counts(rows: Seq<RowWidths>, row: RowWidths)
    ensures
        widest_elapsed(Seq::empty()) == 0,
        widest_estimate(Seq::empty()) == 0,
        widest_name(Seq::empty()) == 0,
        widest_elapsed(rows.push(row)) == most(widest_elapsed(rows), row.elapsed as int),
        widest_estimate(rows.push(row)) == most(widest_estimate(rows), row.estimate as int),
        row.title >= 12 ==> widest_name(rows.push(row)) == most(widest_name(rows), row.id + 19),
        row.title < 12 ==> widest_name(rows.push(row)) == most(
            widest_name(rows),
            row.id + row.title + 7,
        ),
{
    assert(rows.push(row).drop_last() =~= rows);
}

/// Rows show as much of their times as there is room for behind the widest name: a bar between both
/// times, an arrow between them, the estimate alone, or nothing.
pub proof fn law_rows_show_the_times_that_fit(rows: Seq<RowWidths>, width: int)
    requires
        0 <= widest_elapsed(rows) <= 23,
        0 <= widest_estimate(rows) <= 23,
    ensures
        ({
            let layout = row_layout(rows, width);
            let both = widest_elapsed(rows) + widest_estimate(rows);
            let room = width - widest_name(rows);
            &&& layout.estimate == widest_estimate(rows)
            &&& room >= both + 16 ==> layout.timing is Bar && layout.trailing == both + 16
            &&& both + 5 <= room < both + 16 ==> layout.timing is Arrow && layout.trailing == both
                + 5
            &&& widest_estimate(rows) + 2 <= room < both + 5 ==> layout.timing is Estimate
                && layout.trailing == widest_estimate(rows) + 2
            &&& room < widest_estimate(rows) + 2 ==> layout.timing is Hidden && layout.trailing == 0
        }),
{
}

/// The columns that a segment needs: those of its ID and one more, and at least four.
pub open spec fn needed(ids: Seq<int>, i: int) -> int {
    most(ids[i] + 1, 4)
}

proof fn lemma_segment_start(ids: Seq<int>, count: int, used: int, width: int)
    requires
        0 <= count <= ids.len(),
        used <= width,
    ensures
        ({
            let start = segment_start(ids, count, used, width);
            let from = minimum_total(ids, count);
            &&& 0 <= start <= count
            &&& used + minimum_total(ids, start) - from <= width
            &&& start > 0 ==> used + minimum_total(ids, start - 1) - from > width
        }),
    decreases count,
{
    if count > 0 {
        assert(minimum_total(ids, count - 1) == needed(ids, count - 1) + minimum_total(ids, count));
        if used + needed(ids, count - 1) <= width {
            lemma_segment_start(ids, count - 1, used + needed(ids, count - 1), width);
        }
    }
}

/// The overview shows the last entries, as many as have room for what they need.
pub proof fn law_overviews_show_the_last_entries(ids: Seq<int>, width: int, i: int)
    requires
        0 <= width,
    ensures
        minimum_total(ids, ids.len() as int) == 0,
        0 <= i < ids.len() ==> minimum_total(ids, i) == needed(ids, i) + minimum_total(ids, i + 1),
        0 <= first_segment(ids, width) <= ids.len(),
        minimum_total(ids, first_segment(ids, width)) <= width,
        first_segment(ids, width) > 0 ==> minimum_total(ids, first_segment(ids, width) - 1) > width,
{
    lemma_segment_start(ids, ids.len() as int, 0, width);
}

/// A segment stands for the time that was spent on a finished entry, and for the estimate of any
/// other; never for less than nothing.
pub proof fn law_segments_stand_for_time(entry: EntryView)
    ensures
        entry.state is Completed || entry.state is Cancelled ==> segment_seconds(entry) == most(
            entry.elapsed,
            0,
        ),
        !(entry.state is Completed || entry.state is Cancelled) ==> segment_seconds(entry) == most(
            entry.seconds,
            0,
        ),
{
}

/// A segment takes what it needs and its share; the last one takes what is left over too.
pub proof fn law_segments_take_their_share(
    views: Seq<EntryView>,
    width: int,
    shares: Seq<u16>,
    k: int,
)
    requires
        0 <= width <= u16::MAX,
        views.len() <= usize::MAX,
        shares.len() == views.len() - first_segment(id_widths(views), width),
        minimum_sum(shares, shares.len() as int) <= width - minimum_total(
            id_widths(views),
            first_segment(id_widths(views), width),
        ),
        0 <= k < shares.len(),
        0 <= needed(id_widths(views), first_segment(id_widths(views), width) + k) + shares[k]
            <= u16::MAX,
        k == shares.len() - 1 ==> needed(
            id_widths(views),
            first_segment(id_widths(views), width) + k,
        ) + shares[k] + width - minimum_total(
            id_widths(views),
            first_segment(id_widths(views), width),
        ) - minimum_sum(shares, shares.len() as int) <= u16::MAX,
    ensures
        ({
            let ids = id_widths(views);
            let start = first_segment(ids, width);
            let segments = overview_segments(views, width, shares);
            let left = width - minimum_total(ids, start) - minimum_sum(shares, shares.len() as int);
            &&& segments.len() == shares.len()
            &&& segments[k].0 == start + k
            &&& k < shares.len() - 1 ==> segments[k].1 == needed(ids, start + k) + shares[k]
            &&& k == shares.len() - 1 ==> segments[k].1 == needed(ids, start + k) + shares[k] + left
        }),
{
    law_overviews_show_the_last_entries(id_widths(views), width, 0);
}

/// The widths of a row of segments add up, one after the other; so do shares.
pub proof fn law_segments_stand_side_by_side(segments: Seq<(usize, u16)>, shares: Seq<u16>, k: int)
    requires
        0 <= k,
    ensures
        segments_total(segments, 0) == 0,
        segments_total(segments, k + 1) == segments_total(segments, k) + segments[k].1,
        minimum_sum(shares, 0) == 0,
        minimum_sum(shares, k + 1) == minimum_sum(shares, k) + shares[k],
{
}

/// The list shows up to five rows below its heading, and below them the overview on two lines where
/// there is room for it: with an empty line before it where there is room for that too.
pub proof fn law_lists_fill_their_lines(ids: Seq<int>, width: int, height: int)
    requires
        0 <= height <= u16::MAX,
    ensures
        ({
            let rows = if ids.len() < 5 {
                ids.len() as int
            } else {
                5
            };
            let shown = has_overview(ids, width);
            let layout = vertical_layout(ids, width, height);
            &&& shown <==> first_segment(ids, most(width - 4, 0)) < ids.len()
            &&& without_margin(width) == most(width - 4, 0)
            &&& height > rows ==> layout.rows == rows
            &&& 0 < height <= rows ==> layout.rows == height - 1
            &&& height == 0 ==> layout.rows == 0
            &&& shown && height >= rows + 4 ==> layout.overview_y == Some((rows + 2) as u16)
            &&& shown && height == rows + 3 ==> layout.overview_y == Some((rows + 1) as u16)
            &&& !shown || height < rows + 3 ==> layout.overview_y is None
            &&& shown ==> list_height(ids, width) == rows + 4
            &&& !shown ==> list_height(ids, width) == rows + 1
        }),
{
}

/// How a state looks: its colour, its mark, and what is done to the title.
pub proof fn law_states_look_different(state: PlanStepState, selected: bool)
    ensures
        state_tone(state) is Cyan <==> state is Running || state is Reviewing,
        state_tone(state) is Red <==> state is Blocked,
        state_tone(state) is Dim <==> state is Completed || state is Cancelled || state is Pending,
        state is Completed ==> state_mark(state) == "✔ "@,
        state is Cancelled ==> state_mark(state) == "× "@,
        state is Running || state is Pending ==> state_mark(state) == "□ "@,
        state is Reviewing ==> state_mark(state) == "◷ "@,
        state is Blocked ==> state_mark(state) == "! "@,
        title_style(state, selected).tone == state_tone(state),
        title_style(state, selected).bold <==> state is Running,
        title_style(state, selected).crossed_out <==> state is Completed,
        title_style(state, selected).underlined <==> selected,
{
}

/// A style of one colour and nothing else.
pub open spec fn only(tone: Tone) -> TextStyle {
    TextStyle { tone, bold: false, crossed_out: false, underlined: false }
}

/// A row begins with its branch and the mark of its state.
pub proof fn law_rows_begin_with_their_mark(entry: EntryView, row: int, selected: bool, area: Area)
    ensures
        ({
            let draw = marks(entry, row, selected, area);
            &&& draw matches DrawView::Line { x, y, spans, width }
            &&& x == area.x
            &&& y == area.y + 1 + row
            &&& width == area.width
            &&& spans.len() == 2
            &&& selected ==> spans[0].text == "  › "@ && spans[0].style == only(Tone::Cyan)
            &&& !selected && row == 0 ==> spans[0].text == "  └ "@ && spans[0].style == only(
                Tone::Dim,
            )
            &&& !selected && row != 0 ==> spans[0].text == "    "@ && spans[0].style == only(
                Tone::Dim,
            )
            &&& spans[1].text == state_mark(entry.state)
            &&& spans[1].style == only(state_tone(entry.state))
        }),
{
}

/// Then come the ID, from the seventh column on, and the title a column behind it, each clipped to
/// the room it has: the ID to the end of the row, the title up to the times.
pub proof fn law_rows_show_id_and_title(
    entry: EntryView,
    row: int,
    selected: bool,
    area: Area,
    layout: RowLayout,
)
    ensures
        ({
            let draws = names(entry, row, selected, area, layout);
            let id = DrawView::Text {
                x: area.x + 6,
                y: area.y + 1 + row,
                text: clipped_label(
                    text_glyphs(entry.id),
                    display_width(entry.id) as int,
                    area.width - 6,
                ),
                width: area.width - 6,
                style: only(state_tone(entry.state)),
            };
            let room = most(area.width - layout.trailing, 0) - display_width(entry.id) - 7;
            let title = DrawView::Text {
                x: area.x + display_width(entry.id) + 7,
                y: area.y + 1 + row,
                text: clipped_label(
                    text_glyphs(entry.title),
                    display_width(entry.title) as int,
                    room,
                ),
                width: room,
                style: title_style(entry.state, selected),
            };
            &&& area.width <= 6 ==> draws.len() == 0
            &&& area.width > 6 && room <= 0 ==> draws == seq![id]
            &&& area.width > 6 && room > 0 ==> draws == seq![id, title]
        }),
{
}

/// A text in a dim colour that ends before a column.
pub open spec fn dim_before(end: int, y: int, text: Seq<char>) -> DrawView {
    DrawView::Text {
        x: end - text.len(),
        y,
        text,
        width: text.len() as int,
        style: only(Tone::Dim),
    }
}

/// Last come the times, at the right end of the row: the estimate, and before it the elapsed time,
/// with a bar of ten columns or an arrow between them.
pub proof fn law_rows_end_with_their_times(
    entry: EntryView,
    row: int,
    area: Area,
    layout: RowLayout,
)
    ensures
        ({
            let draws = timings(entry, row, area, layout);
            let y = area.y + 1 + row;
            let right = area.x + area.width;
            let inner = right - layout.estimate - 2;
            let estimate = dim_before(right, y, duration_text(entry.seconds));
            &&& layout.timing is Hidden ==> draws.len() == 0
            &&& layout.timing is Estimate ==> draws == seq![estimate]
            &&& layout.timing is Bar ==> draws == seq![
                estimate,
                dim_before(inner - 12, y, duration_text(entry.elapsed)),
                DrawView::Bar {
                    x: inner - 10,
                    y,
                    width: 10,
                    elapsed: entry.elapsed,
                    seconds: entry.seconds,
                    state: entry.state,
                },
            ]
            &&& layout.timing is Arrow ==> draws == seq![
                estimate,
                dim_before(inner - 1, y, duration_text(entry.elapsed)),
                DrawView::Text { x: inner, y, text: "→"@, width: 1, style: only(Tone::Dim) },
            ]
        }),
{
}

/// The rows are drawn from the top, each with its mark, its names and its times; the one that is
/// selected while the list has the focus is drawn as such.
pub proof fn law_rows_are_drawn_in_order(
    entries: Seq<EntryView>,
    row: int,
    view: ViewportView,
    area: Area,
    layout: RowLayout,
)
    requires
        0 <= row < entries.len(),
    ensures
        rows_drawing(entries, 0, view, area, layout).len() == 0,
        ({
            let entry: EntryView = entries[row];
            let selected = view.focused && view.selected == Some(entry.key);
            rows_drawing(entries, row + 1, view, area, layout) == rows_drawing(
                entries,
                row,
                view,
                area,
                layout,
            ) + seq![marks(entry, row, selected, area)] + names(entry, row, selected, area, layout)
                + timings(entry, row, area, layout)
        }),
{
    let entry: EntryView = entries[row];
    let selected = view.focused && view.selected == Some(entry.key);
    let before = rows_drawing(entries, row, view, area, layout);
    assert(before + row_drawing(entry, row, selected, area, layout) =~= before + seq![
        marks(entry, row, selected, area),
    ] + names(entry, row, selected, area, layout) + timings(entry, row, area, layout));
}

/// The overview is drawn from the left: the ID of each entry above its bar, and a junction where
/// one bar follows another, filled if the bar that begins there is begun.
pub proof fn law_overviews_are_drawn_in_order(
    entries: Seq<EntryView>,
    segments: Seq<(usize, u16)>,
    k: int,
    x: int,
    y: int,
)
    requires
        0 <= k < segments.len(),
    ensures
        overview_drawing(entries, segments, 0, x, y).len() == 0,
        ({
            let entry: EntryView = entries[segments[k].0 as int];
            let at = x + segments_total(segments, k);
            let width = segments[k].1 as int;
            let drawn = overview_drawing(entries, segments, k, x, y) + seq![
                DrawView::Text {
                    x: at,
                    y,
                    text: entry.id,
                    width,
                    style: only(state_tone(entry.state)),
                },
                DrawView::Bar {
                    x: at,
                    y: y + 1,
                    width,
                    elapsed: entry.elapsed,
                    seconds: entry.seconds,
                    state: entry.state,
                },
            ];
            let junction = DrawView::Junction {
                x: at,
                y: y + 1,
                filled: entry.state is Completed || entry.elapsed > 0,
            };
            &&& k == 0 ==> overview_drawing(entries, segments, k + 1, x, y) == drawn
            &&& k > 0 ==> overview_drawing(entries, segments, k + 1, x, y) == drawn.push(junction)
        }),
{
}

/// A bar is begun once time was spent on its entry or the entry is completed. It is filled as far
/// as it is covered, at least by one cell once it is begun, and never beyond its width.
pub proof fn law_bars_are_filled_as_far_as_covered(
    state: PlanStepState,
    elapsed: int,
    covered: int,
    begun: bool,
    width: int,
)
    requires
        0 <= covered,
        0 <= width,
    ensures
        bar_begun(state, elapsed) <==> state is Completed || elapsed > 0,
        covered >= width ==> filled_cells(covered, begun, width) == width,
        0 < covered <= width ==> filled_cells(covered, begun, width) == covered,
        covered == 0 && !begun ==> filled_cells(covered, begun, width) == 0,
        covered == 0 && begun && width > 0 ==> filled_cells(covered, begun, width) == 1,
{
}

/// The heading tells how many of the steps are completed.
pub proof fn law_the_heading_counts_completed_steps(
    steps: Seq<StepView>,
    step: StepView,
    plan: PlanView,
    area: Area,
)
    ensures
        completed_count(Seq::empty()) == 0,
        step.state is Completed ==> completed_count(steps.push(step)) == completed_count(steps) + 1,
        !(step.state is Completed) ==> completed_count(steps.push(step)) == completed_count(steps),
        ({
            let draw = heading(plan, area);
            &&& draw matches DrawView::Line { x, y, spans, width }
            &&& x == area.x
            &&& y == area.y
            &&& width == area.width
            &&& spans.len() == 3
            &&& spans[0].text == "• "@
            &&& spans[0].style == only(Tone::Dim)
            &&& spans[1].text == "Task List"@
            &&& spans[1].style == (TextStyle {
                tone: Tone::Plain,
                bold: true,
                crossed_out: false,
                underlined: false,
            })
            &&& spans[2].text == "  "@ + decimal(completed_count(plan.steps)) + "/"@ + decimal(
                plan.steps.len(),
            )
            &&& spans[2].style == only(Tone::Dim)
        }),
{
    assert(steps.push(step).drop_last() =~= steps);
}

proof fn lemma_last_running(entries: Seq<EntryView>)
    ensures
        match last_running(entries) {
            None => forall|i: int|
                0 <= i < entries.len() ==> !((#[trigger] entries[i]).state is Running),
            Some(key) => exists|i: int|
                {
                    &&& 0 <= i < entries.len()
                    &&& (#[trigger] entries[i]).key == key
                    &&& entries[i].state is Running
                    &&& none_running_after(entries, i)
                },
        },
    decreases entries.len(),
{
    if entries.len() > 0 {
        let before = entries.drop_last();
        let last = entries.len() - 1;
        lemma_last_running(before);
        if entries[last].state is Running {
            assert(none_running_after(entries, last));
        } else if last_running(before) is Some {
            let key = last_running(before)->0;
            let i = choose|i: int|
                {
                    &&& 0 <= i < before.len()
                    &&& (#[trigger] before[i]).key == key
                    &&& before[i].state is Running
                    &&& none_running_after(before, i)
                };
            assert(entries[i] == before[i]);
            assert forall|j: int| i < j < entries.len() implies !((
            #[trigger] entries[j]).state is Running) by {
                if j < last {
                    assert(before[j] == entries[j]);
                }
            }
            assert(none_running_after(entries, i));
        } else {
            assert forall|i: int| 0 <= i < entries.len() implies !((
            #[trigger] entries[i]).state is Running) by {
                if i < last {
                    assert(before[i] == entries[i]);
                }
            }
        }
    }
}

/// No entry behind one is running.
pub open spec fn none_running_after(entries: Seq<EntryView>, i: int) -> bool {
    forall|j: int| i < j < entries.len() ==> !((#[trigger] entries[j]).state is Running)
}

/// What is selected unless the user selected something: the last running entry, or the first one
/// where none is running.
pub open spec fn selected_alone(entries: Seq<EntryView>, selected: Option<Seq<char>>) -> bool {
    if none_running_after(entries, -1) {
        selected == if entries.len() == 0 {
            None
        } else {
            Some(entries[0].key)
        }
    } else {
        exists|i: int|
            {
                &&& 0 <= i < entries.len()
                &&& selected == Some((#[trigger] entries[i]).key)
                &&& entries[i].state is Running
                &&& none_running_after(entries, i)
            }
    }
}

/// The list selects by itself, unless it has the focus and the row that was selected is shown.
/// What is shown is remembered, in order.
pub proof fn law_lists_select_by_themselves(view: ViewportView, visible: Seq<EntryView>, i: int)
    ensures
        ({
            let after = drawn_view(view, visible);
            let kept = view.focused && view.selected is Some && exists|i: int|
                0 <= i < visible.len() && (#[trigger] visible[i]).key == view.selected->0;
            &&& after.focused == view.focused
            &&& after.rows.len() == visible.len()
            &&& 0 <= i < visible.len() ==> after.rows[i] == visible[i].key
            &&& kept ==> after.selected == view.selected
            &&& !kept ==> selected_alone(visible, after.selected)
        }),
{
    let after = drawn_view(view, visible);
    let rows = after.rows;
    assert forall|i: int| 0 <= i < visible.len() implies rows[i] == (#[trigger] visible[i]).key by {}
    let kept = view.focused && view.selected is Some && exists|i: int|
        0 <= i < visible.len() && (#[trigger] visible[i]).key == view.selected->0;
    if view.selected is Some {
        let key = view.selected->0;
        if rows.contains(key) {
            let k = rows.index_of(key);
            assert(visible[k].key == key);
        } else if kept {
            let k = choose|k: int| 0 <= k < visible.len() && (#[trigger] visible[k]).key == key;
            assert(rows[k] == key);
            assert(false);
        }
    }
    if !kept {
        assert(after.selected == default_selection(visible));
        lemma_last_running(visible);
        if last_running(visible) is Some {
            let key = last_running(visible)->0;
            let k = choose|k: int|
                {
                    &&& 0 <= k < visible.len()
                    &&& (#[trigger] visible[k]).key == key
                    &&& visible[k].state is Running
                    &&& none_running_after(visible, k)
                };
            assert(after.selected == Some(visible[k].key));
        } else {
            assert(none_running_after(visible, -1));
        }
    }
}

/// The last rows are visible, as many as there are lines for. The heading is drawn first, then the
/// rows, then the overview where there is room for it, four columns from the left.
pub proof fn law_lists_are_drawn_from_the_top(
    progress: ProgressView,
    now: int,
    area: Area,
    segments: Seq<(usize, u16)>,
)
    ensures
        ({
            let entries = progress.plan.entries(now);
            let layout = vertical_layout(
                id_widths(entries),
                area.width as int,
                area.height as int,
            );
            let visible = progress.visible(now, area);
            let view = drawn_view(progress.view, visible);
            let list = seq![heading(progress.plan, area)] + rows_drawing(
                visible,
                visible.len() as int,
                view,
                area,
                row_layout(widths_of(visible), area.width as int),
            );
            &&& layout.rows <= entries.len() ==> {
                &&& visible.len() == layout.rows
                &&& visible == entries.subrange(
                    entries.len() - layout.rows,
                    entries.len() as int,
                )
            }
            &&& layout.overview_y is None ==> progress.drawing(now, area, segments) == list
            &&& layout.overview_y matches Some(y) ==> progress.drawing(now, area, segments) == list
                + overview_drawing(
                entries,
                segments,
                segments.len() as int,
                area.x + 4,
                area.y + y,
            )
        }),
{
    let entries = progress.plan.entries(now);
    let layout = vertical_layout(id_widths(entries), area.width as int, area.height as int);
    if layout.rows <= entries.len() {
        assert(progress.visible(now, area) =~= entries.subrange(
            entries.len() - layout.rows,
            entries.len() as int,
        ));
    }
}

/// A list takes no lines once its plan is complete, every stage with steps and every step finished,
/// unless it has the focus.
pub proof fn law_complete_lists_go_away(progress: ProgressView, now: int, width: int)
    ensures
        ({
            let plan: PlanView = progress.plan;
            let over = forall|i: int|
                0 <= i < plan.steps.len() ==> {
                    let state = (#[trigger] plan.steps[i]).state;
                    state is Completed || state is Cancelled
                };
            let planned = forall|k: int| 0 <= k < plan.stages.len() ==> #[trigger] has_steps(plan, k);
            let height = progress.desired_height(now, width);
            &&& over && planned && !progress.view.focused ==> height == 0
            &&& !over || !planned || progress.view.focused ==> height == list_height(
                id_widths(plan.entries(now)),
                width,
            )
        }),
{
    let plan: PlanView = progress.plan;
    let over = forall|i: int|
        0 <= i < plan.steps.len() ==> {
            let state = (#[trigger] plan.steps[i]).state;
            state is Completed || state is Cancelled
        };
    let planned = forall|k: int| 0 <= k < plan.stages.len() ==> #[trigger] has_steps(plan, k);
    if plan.all_finished() {
        assert forall|i: int| 0 <= i < plan.steps.len() implies {
            let state = (#[trigger] plan.steps[i]).state;
            state is Completed || state is Cancelled
        } by {
            assert(plan.steps[i].state.finished());
        }
    }
    assert(over ==> plan.all_finished());
    if plan.all_expanded() {
        assert forall|k: int| 0 <= k < plan.stages.len() implies #[trigger] has_steps(plan, k) by {
            assert(plan.expanded(plan.stages[k].id));
        }
    }
    if planned {
        assert forall|k: int| 0 <= k < plan.stages.len() implies plan.expanded(
            (#[trigger] plan.stages[k]).id,
        ) by {
            assert(has_steps(plan, k));
        }
    }
}

/// A plan is in progress while one of its steps is running or waits for review.
pub proof fn law_plans_are_in_progress_while_steps_are(plan: PlanView)
    ensures
        plan.in_progress() <==> exists|i: int|
            0 <= i < plan.steps.len() && {
                let state = (#[trigger] plan.steps[i]).state;
                state is Running || state is Reviewing
            },
{
    if plan.in_progress() {
        let i = choose|i: int|
            0 <= i < plan.steps.len() && ((#[trigger] plan.steps[i]).state
                == PlanStepState::Running || plan.steps[i].state == PlanStepState::Reviewing);
        assert(plan.steps[i].state is Running || plan.steps[i].state is Reviewing);
    }
}

/// The keys of the details: two close them, two go down, two go up; and the names of the two
/// conversations that can be found.
pub proof fn law_details_have_their_keys(code: KeyCode)
    ensures
        DetailKey::bound(code) is Close <==> code is Esc || code is Enter,
        DetailKey::bound(code) is Down <==> code is Down || code is PageDown,
        DetailKey::bound(code) is Up <==> code is Up || code is PageUp,
        DetailKey::bound(code) is Other <==> code is Other,
        Discovery::Supervisor.name() == "supervisor"@,
        Discovery::Implementer.name() == "implementer"@,
{
}

/// What the laws say of what is drawn, they say of its fields.
pub proof fn law_drawings_are_told_by_their_fields(draw: Draw, spans: Seq<Span>, i: int)
    ensures
        match draw {
            Draw::Line { x, y, spans, width } => {
                &&& draw@ matches DrawView::Line { x: ax, y: ay, spans: shown, width: columns }
                &&& ax == x
                &&& ay == y
                &&& columns == width
                &&& shown.len() == spans@.len()
                &&& 0 <= i < shown.len() ==> shown[i].text == spans@[i].text@ && shown[i].style
                    == spans@[i].style
            },
            Draw::Text { x, y, text, width, style } => draw@ == (DrawView::Text {
                x: x as int,
                y: y as int,
                text: text@,
                width: width as int,
                style,
            }),
            Draw::Bar { x, y, width, elapsed, seconds, state } => draw@ == (DrawView::Bar {
                x: x as int,
                y: y as int,
                width: width as int,
                elapsed: elapsed as int,
                seconds: seconds as int,
                state,
            }),
            Draw::Junction { x, y, filled } => draw@ == (DrawView::Junction {
                x: x as int,
                y: y as int,
                filled,
            }),
        },
        0 <= i < spans.len() ==> spans[i]@ == (SpanView {
            text: spans[i].text@,
            style: spans[i].style,
        }),
{
}

/// The segments of the overview are planned for the last entries that fit: each with the columns it
/// needs and the time it stands for, and all that is left of the width to be shared.
pub proof fn law_overviews_are_planned_for_the_last_entries(
    plan: SegmentPlan,
    views: Seq<EntryView>,
    width: int,
    k: int,
)
    requires
        planned(plan, views, width),
        0 <= k < views.len() - plan.start,
    ensures
        ({
            let ids = id_widths(views);
            &&& ids.len() == views.len()
            &&& ids[plan.start + k] == display_width(views[plan.start + k].id)
            &&& plan.start == first_segment(ids, width)
            &&& plan.minimums@.len() == views.len() - plan.start
            &&& plan.seconds@.len() == views.len() - plan.start
            &&& plan.minimums@[k] == needed(ids, plan.start + k)
            &&& plan.seconds@[k] == segment_seconds(views[plan.start + k])
            &&& plan.extra == width - minimum_total(ids, plan.start as int)
        }),
{
}

/// Shares are settled where there is one for each segment and together they are not more than what
/// is left to be shared: each segment takes its own, and the last one the rest.
pub proof fn law_shares_are_settled(
    views: Seq<EntryView>,
    width: int,
    plan: SegmentPlan,
    shares: Seq<u16>,
    k: int,
)
    requires
        0 <= k < plan.minimums@.len(),
    ensures
        ({
            let ids = id_widths(views);
            let start = first_segment(ids, width);
            shares_fit(views, width, shares) <==> shares.len() == views.len() - start
                && minimum_total(ids, start) + minimum_sum(shares, shares.len() as int) <= width
        }),
        k < plan.minimums@.len() - 1 ==> segment_width(plan, shares, k) == plan.minimums@[k]
            + shares[k],
        k == plan.minimums@.len() - 1 ==> segment_width(plan, shares, k) == plan.minimums@[k]
            + shares[k] + plan.extra - minimum_sum(shares, plan.minimums@.len() as int),
{
}

} // verus!
