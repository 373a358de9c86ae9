//! What a task list draws: independently measured row metadata and a continuous overview.

use crate::display::clipped_label;
use crate::display::display_width;
use crate::display::duration;
use crate::display::duration_text;
use crate::display::label;
use crate::display::measure;
use crate::display::text_glyphs;
use crate::layout::entry_widths;
use crate::layout::id_widths;
use crate::layout::lemma_entry_widths;
use crate::layout::lemma_widest;
use crate::layout::lemma_widest_covers;
use crate::layout::list_height;
use crate::layout::measure_list;
use crate::layout::lemma_segments_have_width;
use crate::layout::overview_segments;
use crate::layout::plan_segments;
use crate::layout::planned;
use crate::layout::row_layout;
use crate::layout::segments_total;
use crate::layout::share_segments;
use crate::layout::shares_fit;
use crate::layout::timing_columns;
use crate::layout::vertical_layout;
use crate::layout::widest_elapsed;
use crate::layout::widest_estimate;
use crate::layout::widest_name;
use crate::layout::widths_of;
use crate::layout::without_margin;
use crate::layout::Area;
use crate::layout::RowLayout;
use crate::layout::SegmentPlan;
use crate::layout::Timing;
use crate::layout::VerticalLayout;
use crate::layout::BAR_WIDTH;
use crate::plan::ContinuousPlanning;
use crate::plan::PlanStepState;
use crate::plan::PlanView;
use crate::plan::StepView;
use crate::progress::entry_keys;
use crate::progress::entry_views;
use crate::progress::plan_entries;
use crate::progress::Entry;
use crate::progress::EntryView;
use crate::progress::PlanProgress;
use crate::progress::ProgressView;
use crate::progress::ViewportView;
use crate::text::decimal;
use crate::text::decimal_text;
use crate::text::holds_text;
use crate::text::is_text;
use crate::text::optional_text;
use crate::text::texts;
use vstd::prelude::*;
use vstd::slice::slice_subrange;
use vstd::string::StringExecFns;

verus! {

/// The colour of a text.
#[derive(Clone, Copy, Debug, PartialEq, Eq, Structural)]
pub enum Tone {
    Plain,
    Dim,
    Cyan,
    Red,
}

/// How a text is drawn.
#[derive(Clone, Copy, Debug, PartialEq, Eq, Structural)]
pub struct TextStyle {
    pub tone: Tone,
    pub bold: bool,
    pub crossed_out: bool,
    pub underlined: bool,
}

pub open spec fn plain(tone: Tone) -> TextStyle {
    TextStyle { tone, bold: false, crossed_out: false, underlined: false }
}

fn plain_style(tone: Tone) -> (style: TextStyle)
    ensures
        style == plain(tone),
{
    TextStyle { tone, bold: false, crossed_out: false, underlined: false }
}

/// A text within a line, with its style.
#[derive(Debug, PartialEq, Eq)]
pub struct Span {
    pub text: String,
    pub style: TextStyle,
}

pub struct SpanView {
    pub text: Seq<char>,
    pub style: TextStyle,
}

impl View for Span {
    type V = SpanView;

    open spec fn view(&self) -> SpanView {
        SpanView { text: self.text@, style: self.style }
    }
}

pub open spec fn span_views(spans: Seq<Span>) -> Seq<SpanView> {
    spans.map_values(|span: Span| span@)
}

/// One thing to draw.
#[derive(Debug, PartialEq, Eq)]
pub enum Draw {
    /// A line of spans within some columns.
    Line { x: u16, y: u16, spans: Vec<Span>, width: u16 },
    /// A text within some columns.
    Text { x: u16, y: u16, text: String, width: u16, style: TextStyle },
    /// A bar that is filled as far as the elapsed time has used up the estimate, and wholly where
    /// the entry is complete.
    Bar { x: u16, y: u16, width: u16, elapsed: i64, seconds: i64, state: PlanStepState },
    /// Where one bar of the overview begins after another.
    Junction { x: u16, y: u16, filled: bool },
}

pub enum DrawView {
    Line { x: int, y: int, spans: Seq<SpanView>, width: int },
    Text { x: int, y: int, text: Seq<char>, width: int, style: TextStyle },
    Bar { x: int, y: int, width: int, elapsed: int, seconds: int, state: PlanStepState },
    Junction { x: int, y: int, filled: bool },
}

impl View for Draw {
    type V = DrawView;

    open spec fn view(&self) -> DrawView {
        match self {
            Draw::Line { x, y, spans, width } => DrawView::Line {
                x: *x as int,
                y: *y as int,
                spans: span_views(spans@),
                width: *width as int,
            },
            Draw::Text { x, y, text, width, style } => DrawView::Text {
                x: *x as int,
                y: *y as int,
                text: text@,
                width: *width as int,
                style: *style,
            },
            Draw::Bar { x, y, width, elapsed, seconds, state } => DrawView::Bar {
                x: *x as int,
                y: *y as int,
                width: *width as int,
                elapsed: *elapsed as int,
                seconds: *seconds as int,
                state: *state,
            },
            Draw::Junction { x, y, filled } => DrawView::Junction {
                x: *x as int,
                y: *y as int,
                filled: *filled,
            },
        }
    }
}

pub open spec fn draw_views(draws: Seq<Draw>) -> Seq<DrawView> {
    draws.map_values(|draw: Draw| draw@)
}

/// The tone of a state.
pub open spec fn state_tone(state: PlanStepState) -> Tone {
    match state {
        PlanStepState::Running | PlanStepState::Reviewing => Tone::Cyan,
        PlanStepState::Blocked => Tone::Red,
        PlanStepState::Completed | PlanStepState::Cancelled | PlanStepState::Pending => Tone::Dim,
    }
}

/// The mark of a state; a cancelled step is told from a complete one.
pub open spec fn state_mark(state: PlanStepState) -> Seq<char> {
    match state {
        PlanStepState::Completed => "✔ "@,
        PlanStepState::Cancelled => "× "@,
        PlanStepState::Running | PlanStepState::Pending => "□ "@,
        PlanStepState::Reviewing => "◷ "@,
        PlanStepState::Blocked => "! "@,
    }
}

/// The style of a title.
pub open spec fn title_style(state: PlanStepState, selected: bool) -> TextStyle {
    TextStyle {
        tone: state_tone(state),
        bold: state == PlanStepState::Running,
        crossed_out: state == PlanStepState::Completed,
        underlined: selected,
    }
}

pub open spec fn row_branch(row: int, selected: bool) -> Seq<char> {
    if selected {
        "  › "@
    } else if row == 0 {
        "  └ "@
    } else {
        "    "@
    }
}

/// The columns left of a title: marks, ID and a gap.
pub open spec fn title_prefix(entry: EntryView) -> int {
    display_width(entry.id) as int + 7
}

/// The columns that a title gets.
pub open spec fn title_columns(entry: EntryView, width: int, trailing: int) -> int {
    let left = if width < trailing {
        0
    } else {
        width - trailing
    };
    if left < title_prefix(entry) {
        0
    } else {
        left - title_prefix(entry)
    }
}

/// The marks of a row.
pub open spec fn marks(entry: EntryView, row: int, selected: bool, area: Area) -> DrawView {
    DrawView::Line {
        x: area.x as int,
        y: area.y + 1 + row,
        spans: seq![
            SpanView {
                text: row_branch(row, selected),
                style: plain(
                    if selected {
                        Tone::Cyan
                    } else {
                        Tone::Dim
                    },
                ),
            },
            SpanView { text: state_mark(entry.state), style: plain(state_tone(entry.state)) },
        ],
        width: area.width as int,
    }
}

/// The ID and the title of a row.
pub open spec fn names(
    entry: EntryView,
    row: int,
    selected: bool,
    area: Area,
    layout: RowLayout,
) -> Seq<DrawView> {
    let y = area.y + 1 + row;
    let available = area.width - 6;
    let columns = title_columns(entry, area.width as int, layout.trailing as int);
    if available <= 0 {
        Seq::empty()
    } else {
        let id = DrawView::Text {
            x: area.x + 6,
            y,
            text: clipped_label(
                text_glyphs(entry.id),
                display_width(entry.id) as int,
                available,
            ),
            width: available,
            style: plain(state_tone(entry.state)),
        };
        if columns <= 0 {
            seq![id]
        } else {
            seq![
                id,
                DrawView::Text {
                    x: area.x + title_prefix(entry),
                    y,
                    text: clipped_label(
                        text_glyphs(entry.title),
                        display_width(entry.title) as int,
                        columns,
                    ),
                    width: columns,
                    style: title_style(entry.state, selected),
                },
            ]
        }
    }
}

pub open spec fn dim_text(x: int, y: int, text: Seq<char>) -> DrawView {
    DrawView::Text { x, y, text, width: text.len() as int, style: plain(Tone::Dim) }
}

pub open spec fn entry_bar(entry: EntryView, x: int, y: int, width: int) -> DrawView {
    DrawView::Bar {
        x,
        y,
        width,
        elapsed: entry.elapsed,
        seconds: entry.seconds,
        state: entry.state,
    }
}

/// The timing of a row, at its right end.
pub open spec fn timings(entry: EntryView, row: int, area: Area, layout: RowLayout) -> Seq<
    DrawView,
> {
    let y = area.y + 1 + row;
    let right = area.x + area.width;
    let elapsed = duration_text(entry.elapsed);
    let estimate = duration_text(entry.seconds);
    let end = dim_text(right - estimate.len(), y, estimate);
    match layout.timing {
        Timing::Hidden => Seq::empty(),
        Timing::Estimate => seq![end],
        Timing::Bar => {
            let bar = right - layout.estimate - 2 - BAR_WIDTH;
            seq![
                end,
                dim_text(bar - 2 - elapsed.len(), y, elapsed),
                entry_bar(entry, bar, y, BAR_WIDTH as int),
            ]
        },
        Timing::Arrow => {
            let arrow = right - layout.estimate - 2;
            seq![
                end,
                dim_text(arrow - 1 - elapsed.len(), y, elapsed),
                DrawView::Text { x: arrow, y, text: "→"@, width: 1, style: plain(Tone::Dim) },
            ]
        },
    }
}

/// One row of the list.
pub open spec fn row_drawing(
    entry: EntryView,
    row: int,
    selected: bool,
    area: Area,
    layout: RowLayout,
) -> Seq<DrawView> {
    seq![marks(entry, row, selected, area)] + names(entry, row, selected, area, layout) + timings(
        entry,
        row,
        area,
        layout,
    )
}

/// The first `count` rows of the list.
pub open spec fn rows_drawing(
    entries: Seq<EntryView>,
    count: int,
    view: ViewportView,
    area: Area,
    layout: RowLayout,
) -> Seq<DrawView>
    decreases count,
{
    if count <= 0 {
        Seq::empty()
    } else {
        rows_drawing(entries, count - 1, view, area, layout) + row_drawing(
            entries[count - 1],
            count - 1,
            view.focused && view.selected == Some(entries[count - 1].key),
            area,
            layout,
        )
    }
}

/// The first `count` segments of the overview, from column `x` on.
pub open spec fn overview_drawing(
    entries: Seq<EntryView>,
    segments: Seq<(usize, u16)>,
    count: int,
    x: int,
    y: int,
) -> Seq<DrawView>
    decreases count,
{
    if count <= 0 {
        Seq::empty()
    } else {
        let k = count - 1;
        let entry = entries[segments[k].0 as int];
        let at = x + segments_total(segments, k);
        let width = segments[k].1 as int;
        let drawn = overview_drawing(entries, segments, k, x, y) + seq![
            DrawView::Text {
                x: at,
                y,
                text: entry.id,
                width,
                style: plain(state_tone(entry.state)),
            },
            entry_bar(entry, at, y + 1, width),
        ];
        if k > 0 {
            drawn.push(
                DrawView::Junction {
                    x: at,
                    y: y + 1,
                    filled: bar_begun(entry.state, entry.elapsed),
                },
            )
        } else {
            drawn
        }
    }
}

/// Whether there is any progress for a bar to show.
pub open spec fn bar_begun(state: PlanStepState, elapsed: int) -> bool {
    state == PlanStepState::Completed || elapsed > 0
}

/// Whether there is any progress for a bar to show.
pub fn is_bar_begun(state: PlanStepState, elapsed: i64) -> (yes: bool)
    ensures
        yes == bar_begun(state, elapsed as int),
{
    state == PlanStepState::Completed || elapsed > 0
}

/// The cells of a bar that are filled, given the whole cells that its progress covers: at least
/// one where there is any progress, and never more than there are.
pub open spec fn filled_cells(covered: int, begun: bool, width: int) -> int {
    let least = if begun && covered < 1 {
        1
    } else {
        covered
    };
    if least > width {
        width
    } else {
        least
    }
}

/// The cells of a bar that are filled.
pub fn fill_cells(covered: u16, begun: bool, width: u16) -> (filled: u16)
    ensures
        filled == filled_cells(covered as int, begun, width as int),
        filled <= width,
        begun && width > 0 ==> filled > 0,
{
    let least: u16 = if begun && covered < 1 {
        1
    } else {
        covered
    };
    if least > width {
        width
    } else {
        least
    }
}

/// The mark between two segments of the overview continues the bar that it stands on: it is drawn
/// as filled exactly where the first cell of the bar is.
pub proof fn law_junctions_continue_their_bars(
    state: PlanStepState,
    elapsed: int,
    covered: int,
    width: int,
)
    requires
        width > 0,
        covered >= 0,
        !bar_begun(state, elapsed) ==> covered == 0,
    ensures
        (filled_cells(covered, bar_begun(state, elapsed), width) > 0) == bar_begun(state, elapsed),
{
}

/// How many steps are complete.
pub open spec fn completed_count(steps: Seq<StepView>) -> nat
    decreases steps.len(),
{
    if steps.len() == 0 {
        0
    } else {
        completed_count(steps.drop_last()) + if steps.last().state == PlanStepState::Completed {
            1nat
        } else {
            0
        }
    }
}

/// The heading of the list.
pub open spec fn heading(plan: PlanView, area: Area) -> DrawView {
    DrawView::Line {
        x: area.x as int,
        y: area.y as int,
        spans: seq![
            SpanView { text: "• "@, style: plain(Tone::Dim) },
            SpanView { text: "Task List"@, style: TextStyle { bold: true, ..plain(Tone::Plain) } },
            SpanView {
                text: "  "@ + decimal(completed_count(plan.steps)) + "/"@ + decimal(
                    plan.steps.len(),
                ),
                style: plain(Tone::Dim),
            },
        ],
        width: area.width as int,
    }
}

/// The last row that runs, or the first row.
pub open spec fn default_selection(entries: Seq<EntryView>) -> Option<Seq<char>> {
    match last_running(entries) {
        Some(key) => Some(key),
        None => if entries.len() == 0 {
            None
        } else {
            Some(entries[0].key)
        },
    }
}

pub open spec fn last_running(entries: Seq<EntryView>) -> Option<Seq<char>>
    decreases entries.len(),
{
    if entries.len() == 0 {
        None
    } else if entries.last().state == PlanStepState::Running {
        Some(entries.last().key)
    } else {
        last_running(entries.drop_last())
    }
}

/// The viewport after drawing some rows. The selection stays while it is visible and the list
/// has the focus; else it follows what runs.
pub open spec fn drawn_view(view: ViewportView, visible: Seq<EntryView>) -> ViewportView {
    let rows = entry_keys(visible);
    ViewportView {
        rows,
        selected: if view.focused && (view.selected matches Some(key) && rows.contains(key)) {
            view.selected
        } else {
            default_selection(visible)
        },
        ..view
    }
}

impl ProgressView {
    /// The rows that are visible in an area.
    pub open spec fn visible(self, now: int, area: Area) -> Seq<EntryView> {
        let entries = self.plan.entries(now);
        let rows = vertical_layout(
            id_widths(entries),
            area.width as int,
            area.height as int,
        ).rows;
        entries.skip(entries.len() - rows)
    }

    /// What is drawn in an area, given the settled segments of the overview.
    pub open spec fn drawing(self, now: int, area: Area, segments: Seq<(usize, u16)>) -> Seq<
        DrawView,
    > {
        let entries = self.plan.entries(now);
        let visible = self.visible(now, area);
        let view = drawn_view(self.view, visible);
        let layout = row_layout(widths_of(visible), area.width as int);
        let list = seq![heading(self.plan, area)] + rows_drawing(
            visible,
            visible.len() as int,
            view,
            area,
            layout,
        );
        match vertical_layout(
            id_widths(entries),
            area.width as int,
            area.height as int,
        ).overview_y {
            Some(y) => list + overview_drawing(
                entries,
                segments,
                segments.len() as int,
                area.x + 4,
                area.y + y,
            ),
            None => list,
        }
    }

    /// The lines that the list asks for; a complete plan without the focus needs none.
    pub open spec fn desired_height(self, now: int, width: int) -> int {
        if self.plan.complete() && !self.view.focused {
            0
        } else {
            list_height(id_widths(self.plan.entries(now)), width)
        }
    }
}

/// What is drawn of a list, and whether it is to be drawn again in a second.
#[derive(Debug)]
pub struct Frame {
    pub draws: Vec<Draw>,
    pub animate: bool,
}

/// The tone of a state.
pub fn state_tone_of(state: PlanStepState) -> (tone: Tone)
    ensures
        tone == state_tone(state),
{
    match state {
        PlanStepState::Running | PlanStepState::Reviewing => Tone::Cyan,
        PlanStepState::Blocked => Tone::Red,
        PlanStepState::Completed | PlanStepState::Cancelled | PlanStepState::Pending => Tone::Dim,
    }
}

fn state_mark_of(state: PlanStepState) -> (mark: &'static str)
    ensures
        mark@ == state_mark(state),
{
    match state {
        PlanStepState::Completed => "✔ ",
        PlanStepState::Cancelled => "× ",
        PlanStepState::Running | PlanStepState::Pending => "□ ",
        PlanStepState::Reviewing => "◷ ",
        PlanStepState::Blocked => "! ",
    }
}

fn make_span(text: &str, style: TextStyle) -> (span: Span)
    ensures
        span@ == (SpanView { text: text@, style }),
{
    Span { text: text.to_owned(), style }
}

fn make_marks(entry: &Entry, row: usize, selected: bool, area: Area) -> (draw: Draw)
    requires
        area.on_screen(),
        row + 1 < area.height,
    ensures
        draw@ == marks(entry@, row as int, selected, area),
{
    let branch = if selected {
        "  › "
    } else if row == 0 {
        "  └ "
    } else {
        "    "
    };
    let tone = if selected {
        Tone::Cyan
    } else {
        Tone::Dim
    };
    let mut spans: Vec<Span> = Vec::new();
    spans.push(make_span(branch, plain_style(tone)));
    spans.push(
        make_span(state_mark_of(entry.state), plain_style(state_tone_of(entry.state))),
    );
    let draw = Draw::Line { x: area.x, y: area.y + 1 + row as u16, spans, width: area.width };
    assert(draw@->spans =~= marks(entry@, row as int, selected, area)->spans);
    draw
}

fn push_draw(draws: &mut Vec<Draw>, draw: Draw)
    ensures
        draw_views(final(draws)@) == draw_views(old(draws)@).push(draw@),
{
    let ghost before = draws@;
    let ghost view = draw@;
    draws.push(draw);
    assert(draw_views(draws@) =~= draw_views(before).push(view));
}

fn draw_names(
    draws: &mut Vec<Draw>,
    entry: &Entry,
    row: usize,
    selected: bool,
    area: Area,
    layout: RowLayout,
)
    requires
        area.on_screen(),
        row + 1 < area.height,
    ensures
        draw_views(final(draws)@) == draw_views(old(draws)@) + names(
            entry@,
            row as int,
            selected,
            area,
            layout,
        ),
{
    let ghost before = draw_views(draws@);
    if area.width <= 6 {
        assert(before + Seq::<DrawView>::empty() =~= before);
        return;
    }
    let y: u16 = area.y + 1 + row as u16;
    let available: u16 = area.width - 6;
    let id = label(entry.id.as_str(), available);
    push_draw(
        draws,
        Draw::Text {
            x: area.x + 6,
            y,
            text: id,
            width: available,
            style: plain_style(state_tone_of(entry.state)),
        },
    );
    let id_width: usize = measure(entry.id.as_str());
    let left: u16 = if area.width < layout.trailing {
        0
    } else {
        area.width - layout.trailing
    };
    if left as usize <= 7 || id_width >= left as usize - 7 {
        assert(title_columns(entry@, area.width as int, layout.trailing as int) <= 0);
        assert(draw_views(draws@) =~= before + names(
            entry@,
            row as int,
            selected,
            area,
            layout,
        ));
        return;
    }
    let prefix: u16 = 7 + id_width as u16;
    let columns: u16 = left - prefix;
    let title = label(entry.title.as_str(), columns);
    push_draw(
        draws,
        Draw::Text {
            x: area.x + prefix,
            y,
            text: title,
            width: columns,
            style: TextStyle {
                tone: state_tone_of(entry.state),
                bold: entry.state == PlanStepState::Running,
                crossed_out: entry.state == PlanStepState::Completed,
                underlined: selected,
            },
        },
    );
    assert(draw_views(draws@) =~= before + names(entry@, row as int, selected, area, layout));
}

fn make_dim_text(x: u16, y: u16, text: String) -> (draw: Draw)
    requires
        text@.len() <= 23,
        crate::display::printable(text@),
    ensures
        draw@ == dim_text(x as int, y as int, text@),
{
    let width: usize = measure(text.as_str());
    Draw::Text { x, y, text, width: width as u16, style: plain_style(Tone::Dim) }
}

fn draw_timings(draws: &mut Vec<Draw>, entry: &Entry, row: usize, area: Area, layout: RowLayout)
    requires
        area.on_screen(),
        row + 1 < area.height,
        layout.timing != Timing::Hidden ==> {
            &&& duration_text(entry@.seconds).len() <= layout.estimate
            &&& timing_columns(
                layout.timing,
                duration_text(entry@.elapsed).len() as int,
                layout.estimate as int,
            ) <= area.width
        },
    ensures
        draw_views(final(draws)@) == draw_views(old(draws)@) + timings(
            entry@,
            row as int,
            area,
            layout,
        ),
{
    let ghost before = draw_views(draws@);
    let y: u16 = area.y + 1 + row as u16;
    let right: u16 = area.x + area.width;
    let elapsed = duration(entry.elapsed);
    let estimate = duration(entry.seconds);
    let elapsed_width: u16 = measure(elapsed.as_str()) as u16;
    let estimate_width: u16 = measure(estimate.as_str()) as u16;
    match layout.timing {
        Timing::Hidden => {
            assert(before + Seq::<DrawView>::empty() =~= before);
        },
        Timing::Estimate => {
            push_draw(draws, make_dim_text(right - estimate_width, y, estimate));
            assert(draw_views(draws@) =~= before + timings(entry@, row as int, area, layout));
        },
        Timing::Bar => {
            push_draw(draws, make_dim_text(right - estimate_width, y, estimate));
            let bar: u16 = right - layout.estimate - 2 - BAR_WIDTH;
            push_draw(draws, make_dim_text(bar - 2 - elapsed_width, y, elapsed));
            push_draw(
                draws,
                Draw::Bar {
                    x: bar,
                    y,
                    width: BAR_WIDTH,
                    elapsed: entry.elapsed,
                    seconds: entry.seconds,
                    state: entry.state,
                },
            );
            assert(draw_views(draws@) =~= before + timings(entry@, row as int, area, layout));
        },
        Timing::Arrow => {
            push_draw(draws, make_dim_text(right - estimate_width, y, estimate));
            let arrow: u16 = right - layout.estimate - 2;
            push_draw(draws, make_dim_text(arrow - 1 - elapsed_width, y, elapsed));
            push_draw(
                draws,
                Draw::Text {
                    x: arrow,
                    y,
                    text: "→".to_owned(),
                    width: 1,
                    style: plain_style(Tone::Dim),
                },
            );
            assert(draw_views(draws@) =~= before + timings(entry@, row as int, area, layout));
        },
    }
}

proof fn lemma_row_fits(visible: Seq<EntryView>, row: int, width: int)
    requires
        0 <= row < visible.len(),
    ensures
        ({
            let layout = row_layout(widths_of(visible), width);
            let elapsed = widest_elapsed(widths_of(visible));
            let estimate = widest_estimate(widths_of(visible));
            0 <= elapsed <= 23 && 0 <= estimate <= 23 && entry_widths(visible[row]).elapsed
                == duration_text(visible[row].elapsed).len() && entry_widths(visible[row]).estimate
                == duration_text(visible[row].seconds).len() ==> (layout.timing != Timing::Hidden
                ==> {
                &&& duration_text(visible[row].seconds).len() <= layout.estimate
                &&& timing_columns(
                    layout.timing,
                    duration_text(visible[row].elapsed).len() as int,
                    layout.estimate as int,
                ) <= width
            })
        }),
{
    let rows = widths_of(visible);
    lemma_widest_covers(rows, row);
    assert(rows[row] == entry_widths(visible[row]));
    assert(widest_name(rows) >= 0);
}

fn count_completed(plan: &ContinuousPlanning) -> (count: u64)
    ensures
        count == completed_count(plan@.steps),
{
    let ghost steps = plan@.steps;
    let mut count: u64 = 0;
    let mut i: usize = 0;
    assert(steps.take(0) =~= Seq::empty());
    while i < plan.steps.len()
        invariant
            i <= plan.steps@.len(),
            count <= i,
            steps == plan@.steps,
            count == completed_count(steps.take(i as int)),
        decreases plan.steps.len() - i,
    {
        assert(steps.take(i + 1).drop_last() =~= steps.take(i as int));
        assert(steps.take(i + 1).last() == plan.steps@[i as int]@);
        if plan.steps[i].state == PlanStepState::Completed {
            count += 1;
        }
        i += 1;
    }
    assert(steps.take(i as int) =~= steps);
    count
}

fn make_heading(plan: &ContinuousPlanning, area: Area) -> (draw: Draw)
    ensures
        draw@ == heading(plan@, area),
{
    let mut spans: Vec<Span> = Vec::new();
    spans.push(make_span("• ", plain_style(Tone::Dim)));
    spans.push(
        make_span(
            "Task List",
            TextStyle { tone: Tone::Plain, bold: true, crossed_out: false, underlined: false },
        ),
    );
    let mut count = "  ".to_owned();
    count.append(decimal_text(count_completed(plan)).as_str());
    count.append("/");
    count.append(decimal_text(plan.steps.len() as u64).as_str());
    assert(plan@.steps.len() == plan.steps@.len());
    spans.push(make_span(count.as_str(), plain_style(Tone::Dim)));
    let draw = Draw::Line { x: area.x, y: area.y, spans, width: area.width };
    assert(draw@->spans =~= heading(plan@, area)->spans);
    draw
}

fn keys_of(entries: &[Entry]) -> (keys: Vec<String>)
    ensures
        texts(keys@) == entry_keys(entry_views(entries@)),
{
    let mut keys: Vec<String> = Vec::new();
    let mut i: usize = 0;
    while i < entries.len()
        invariant
            i <= entries@.len(),
            keys@.len() == i,
            forall|k: int| 0 <= k < i ==> (#[trigger] keys@[k])@ == entries@[k]@.key,
        decreases entries.len() - i,
    {
        keys.push(entries[i].key.clone());
        i += 1;
    }
    assert(texts(keys@) =~= entry_keys(entry_views(entries@)));
    keys
}

fn find_default_selection(entries: &[Entry]) -> (key: Option<String>)
    ensures
        optional_text(key) == default_selection(entry_views(entries@)),
{
    let ghost views = entry_views(entries@);
    let mut i: usize = entries.len();
    assert(views.take(i as int) =~= views);
    while i > 0
        invariant
            i <= entries@.len(),
            views == entry_views(entries@),
            last_running(views) == last_running(views.take(i as int)),
        decreases i,
    {
        assert(views.take(i as int).drop_last() =~= views.take(i - 1));
        assert(views.take(i as int).last() == entries@[i - 1]@);
        i -= 1;
        if entries[i].state == PlanStepState::Running {
            return Some(entries[i].key.clone());
        }
    }
    if entries.len() == 0 {
        None
    } else {
        assert(views[0] == entries@[0]@);
        Some(entries[0].key.clone())
    }
}

fn draw_overview(
    draws: &mut Vec<Draw>,
    entries: &Vec<Entry>,
    segments: &Vec<(usize, u16)>,
    x: u16,
    y: u16,
)
    requires
        x + segments_total(segments@, segments@.len() as int) <= u16::MAX,
        y < u16::MAX,
        forall|k: int| 0 <= k < segments@.len() ==> (#[trigger] segments@[k]).0 < entries@.len(),
    ensures
        draw_views(final(draws)@) == draw_views(old(draws)@) + overview_drawing(
            entry_views(entries@),
            segments@,
            segments@.len() as int,
            x as int,
            y as int,
        ),
{
    let ghost before = draw_views(draws@);
    let ghost views = entry_views(entries@);
    let mut at: u16 = x;
    let mut k: usize = 0;
    assert(before + Seq::<DrawView>::empty() =~= before);
    while k < segments.len()
        invariant
            k <= segments@.len(),
            views == entry_views(entries@),
            x + segments_total(segments@, segments@.len() as int) <= u16::MAX,
            y < u16::MAX,
            at == x + segments_total(segments@, k as int),
            forall|j: int| 0 <= j < segments@.len() ==> (#[trigger] segments@[j]).0 < entries@.len(),
            draw_views(draws@) == before + overview_drawing(
                views,
                segments@,
                k as int,
                x as int,
                y as int,
            ),
        decreases segments.len() - k,
    {
        let ghost seen = draw_views(draws@);
        let (index, width) = segments[k];
        let entry = &entries[index];
        assert(views[index as int] == entry@);
        proof {
            lemma_segments_total_grows(segments@, k + 1, segments@.len() as int);
        }
        push_draw(
            draws,
            Draw::Text {
                x: at,
                y,
                text: entry.id.clone(),
                width,
                style: plain_style(state_tone_of(entry.state)),
            },
        );
        push_draw(
            draws,
            Draw::Bar {
                x: at,
                y: y + 1,
                width,
                elapsed: entry.elapsed,
                seconds: entry.seconds,
                state: entry.state,
            },
        );
        if k > 0 {
            push_draw(
                draws,
                Draw::Junction {
                    x: at,
                    y: y + 1,
                    filled: is_bar_begun(entry.state, entry.elapsed),
                },
            );
        }
        assert(draw_views(draws@) =~= before + overview_drawing(
            views,
            segments@,
            k + 1,
            x as int,
            y as int,
        ));
        at = at + width;
        k += 1;
    }
}

proof fn lemma_segments_total_grows(segments: Seq<(usize, u16)>, count: int, more: int)
    requires
        0 <= count <= more <= segments.len(),
    ensures
        segments_total(segments, count) <= segments_total(segments, more),
    decreases more,
{
    if count < more {
        lemma_segments_total_grows(segments, count, more - 1);
    }
}

impl PlanProgress {
    /// The lines that the list asks for.
    pub fn desired_height(&self, width: u16, clock: u64) -> (height: u16)
        requires
            self@.plan.sums_fit(self@.timestamp(clock as int)),
        ensures
            height == self@.desired_height(self@.timestamp(clock as int), width as int),
    {
        if self.plan.is_complete() && !self.view.focused {
            return 0;
        }
        let entries = plan_entries(&self.plan, self.timestamp(clock));
        measure_list(entries.as_slice(), width)
    }

    /// The segments of the overview in some columns, before their widths are settled.
    pub fn overview(&self, width: u16, clock: u64) -> (plan: SegmentPlan)
        requires
            self@.plan.sums_fit(self@.timestamp(clock as int)),
        ensures
            planned(
                plan,
                self@.plan.entries(self@.timestamp(clock as int)),
                without_margin(width as int),
            ),
    {
        let entries = plan_entries(&self.plan, self.timestamp(clock));
        plan_segments(
            entries.as_slice(),
            if width < 4 {
                0
            } else {
                width - 4
            },
        )
    }

    /// What is drawn in an area, given how the columns that the overview has left are shared out
    /// among its segments; nothing where the shares are not those of the overview. The rows and
    /// the selection are remembered.
    pub fn render(&mut self, area: Area, clock: u64, shares: &Vec<u16>) -> (frame: Option<Frame>)
        requires
            area.on_screen(),
            old(self)@.plan.sums_fit(old(self)@.timestamp(clock as int)),
        ensures
            ({
                let now = old(self)@.timestamp(clock as int);
                let entries = old(self)@.plan.entries(now);
                let width = without_margin(area.width as int);
                if area.width == 0 || area.height == 0 {
                    &&& frame matches Some(frame)
                    &&& draw_views(frame.draws@) == Seq::<DrawView>::empty()
                    &&& !frame.animate
                    &&& final(self)@ == old(self)@
                } else if !shares_fit(entries, width, shares@) {
                    frame is None && final(self)@ == old(self)@
                } else {
                    &&& frame matches Some(frame)
                    &&& draw_views(frame.draws@) == old(self)@.drawing(
                        now,
                        area,
                        overview_segments(entries, width, shares@),
                    )
                    &&& frame.animate == old(self)@.plan.running()
                    &&& final(self)@ == (ProgressView {
                        view: drawn_view(old(self)@.view, old(self)@.visible(now, area)),
                        ..old(self)@
                    })
                }
            }),
    {
        if area.width == 0 || area.height == 0 {
            let draws: Vec<Draw> = Vec::new();
            assert(draw_views(draws@) =~= Seq::empty());
            return Some(Frame { draws, animate: false });
        }
        let entries = plan_entries(&self.plan, self.timestamp(clock));
        let width: u16 = if area.width < 4 {
            0
        } else {
            area.width - 4
        };
        let ghost views = entry_views(entries@);
        match share_segments(entries.as_slice(), width, shares) {
            None => None,
            Some(segments) => {
                proof {
                    if segments@.len() > 0 {
                        lemma_segments_have_width(views, width as int);
                    }
                }
                Some(self.draw_list(area, clock, &segments))
            },
        }
    }

    /// What is drawn in an area, given the settled segments of the overview.
    fn draw_list(&mut self, area: Area, clock: u64, segments: &Vec<(usize, u16)>) -> (frame: Frame)
        requires
            area.on_screen(),
            old(self)@.plan.sums_fit(old(self)@.timestamp(clock as int)),
            4 + segments_total(segments@, segments@.len() as int) <= area.width
                || segments@.len() == 0,
            forall|k: int|
                0 <= k < segments@.len() ==> (#[trigger] segments@[k]).0 < old(
                    self,
                )@.plan.entries(old(self)@.timestamp(clock as int)).len(),
        ensures
            ({
                let now = old(self)@.timestamp(clock as int);
                if area.width == 0 || area.height == 0 {
                    draw_views(frame.draws@) == Seq::<DrawView>::empty() && !frame.animate
                        && final(self)@ == old(self)@
                } else {
                    &&& draw_views(frame.draws@) == old(self)@.drawing(now, area, segments@)
                    &&& frame.animate == old(self)@.plan.running()
                    &&& final(self)@ == (ProgressView {
                        view: drawn_view(old(self)@.view, old(self)@.visible(now, area)),
                        ..old(self)@
                    })
                }
            }),
    {
        let mut draws: Vec<Draw> = Vec::new();
        assert(draw_views(draws@) =~= Seq::empty());
        if area.width == 0 || area.height == 0 {
            return Frame { draws, animate: false };
        }
        let ghost progress = self@;
        let now = self.timestamp(clock);
        let entries = plan_entries(&self.plan, now);
        let ghost all = entry_views(entries@);
        assert(id_widths(all).len() == entries@.len());
        let layout = VerticalLayout::new(entries.as_slice(), area);
        let first: usize = entries.len() - layout.rows;
        let visible = slice_subrange(entries.as_slice(), first, entries.len());
        let ghost shown = entry_views(visible@);
        assert(shown =~= progress.visible(now as int, area));
        let rows = RowLayout::new(visible, area.width);
        let keys = keys_of(visible);
        let kept = self.view.focused && match &self.view.selected {
            Some(key) => holds_text(&keys, key),
            None => false,
        };
        if !kept {
            self.view.selected = find_default_selection(visible);
        }
        self.view.rows = keys;
        assert(self@.view == drawn_view(progress.view, shown));
        push_draw(&mut draws, make_heading(&self.plan, area));
        let ghost begun = seq![heading(progress.plan, area)];
        assert(draw_views(draws@) =~= begun);
        let mut row: usize = 0;
        assert(begun + Seq::<DrawView>::empty() =~= begun);
        while row < visible.len()
            invariant
                row <= visible@.len(),
                visible@.len() == layout.rows,
                shown == entry_views(visible@),
                area.on_screen(),
                layout.rows < area.height,
                rows == row_layout(widths_of(shown), area.width as int),
                draw_views(draws@) == begun + rows_drawing(
                    shown,
                    row as int,
                    self@.view,
                    area,
                    rows,
                ),
            decreases visible.len() - row,
        {
            let ghost seen = draw_views(draws@);
            let entry = &visible[row];
            assert(shown[row as int] == entry@);
            let selected = self.view.focused && is_text(
                &self.view.selected,
                entry.key.as_str(),
            );
            proof {
                lemma_entry_widths(visible@);
                lemma_widest(widths_of(shown));
                lemma_row_fits(shown, row as int, area.width as int);
            }
            push_draw(&mut draws, make_marks(entry, row, selected, area));
            draw_names(&mut draws, entry, row, selected, area, rows);
            draw_timings(&mut draws, entry, row, area, rows);
            assert(draw_views(draws@) =~= seen + row_drawing(
                entry@,
                row as int,
                selected,
                area,
                rows,
            ));
            assert(begun + rows_drawing(shown, row + 1, self@.view, area, rows) =~= (begun
                + rows_drawing(shown, row as int, self@.view, area, rows)) + row_drawing(
                entry@,
                row as int,
                selected,
                area,
                rows,
            ));
            row += 1;
        }
        match layout.overview_y {
            Some(overview_y) => {
                if segments.len() > 0 {
                    draw_overview(
                        &mut draws,
                        &entries,
                        segments,
                        area.x + 4,
                        area.y + overview_y,
                    );
                }
                assert(draw_views(draws@) =~= progress.drawing(now as int, area, segments@));
            },
            None => {},
        }
        Frame { draws, animate: self.plan.is_running() }
    }
}

} // verus!
