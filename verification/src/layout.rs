//! Shared measurements for task rows and the two aligned overview lines.

use crate::display::display_width;
use crate::display::duration;
use crate::display::duration_text;
use crate::display::lemma_duration_len;
use crate::display::measure;
use crate::progress::entry_views;
use crate::progress::Entry;
use crate::progress::EntryView;
use vstd::prelude::*;

verus! {

/// The most rows that are shown.
pub const MAX_ROWS: usize = 5;

/// The columns of a row's bar.
pub const BAR_WIDTH: u16 = 10;

/// A part of the screen. It does not reach beyond the last column or the last line there can be.
#[derive(Clone, Copy, Debug, PartialEq, Eq, Structural)]
pub struct Area {
    pub x: u16,
    pub y: u16,
    pub width: u16,
    pub height: u16,
}

impl Area {
    pub open spec fn on_screen(self) -> bool {
        self.x + self.width <= u16::MAX && self.y + self.height <= u16::MAX
    }
}

/// How much of its timing a row shows.
#[derive(Clone, Copy, Debug, PartialEq, Eq, Structural)]
pub enum Timing {
    Bar,
    Arrow,
    Estimate,
    Hidden,
}

/// How the rows are divided between titles and timing.
#[derive(Clone, Copy, Debug, PartialEq, Eq, Structural)]
pub struct RowLayout {
    pub timing: Timing,
    /// The columns of the widest estimate.
    pub estimate: u16,
    /// Includes the two-column gap separating the title from the metadata.
    pub trailing: u16,
}

/// The columns that the parts of a row take.
#[derive(Clone, Copy, Debug, PartialEq, Eq, Structural)]
pub struct RowWidths {
    pub elapsed: usize,
    pub estimate: usize,
    pub id: usize,
    pub title: usize,
}

pub open spec fn greater(a: int, b: int) -> int {
    if a >= b {
        a
    } else {
        b
    }
}

pub open spec fn widest_elapsed(rows: Seq<RowWidths>) -> int
    decreases rows.len(),
{
    if rows.len() == 0 {
        0
    } else {
        greater(widest_elapsed(rows.drop_last()), rows.last().elapsed as int)
    }
}

pub open spec fn widest_estimate(rows: Seq<RowWidths>) -> int
    decreases rows.len(),
{
    if rows.len() == 0 {
        0
    } else {
        greater(widest_estimate(rows.drop_last()), rows.last().estimate as int)
    }
}

/// The columns that a row needs for its marks, its ID and a readable part of its title.
pub open spec fn name_columns(row: RowWidths) -> int {
    6 + row.id + 1 + if row.title < 12 {
        row.title as int
    } else {
        12
    }
}

pub open spec fn widest_name(rows: Seq<RowWidths>) -> int
    decreases rows.len(),
{
    if rows.len() == 0 {
        0
    } else {
        greater(widest_name(rows.drop_last()), name_columns(rows.last()))
    }
}

/// The columns that a timing takes after the title.
pub open spec fn timing_columns(timing: Timing, elapsed: int, estimate: int) -> int {
    match timing {
        Timing::Bar => elapsed + estimate + BAR_WIDTH + 6,
        Timing::Arrow => elapsed + estimate + 5,
        Timing::Estimate => estimate + 2,
        Timing::Hidden => 0,
    }
}

/// The fullest timing that leaves room for the names.
pub open spec fn fullest_timing(names: int, elapsed: int, estimate: int, width: int) -> Timing {
    if names + timing_columns(Timing::Bar, elapsed, estimate) <= width {
        Timing::Bar
    } else if names + timing_columns(Timing::Arrow, elapsed, estimate) <= width {
        Timing::Arrow
    } else if names + timing_columns(Timing::Estimate, elapsed, estimate) <= width {
        Timing::Estimate
    } else {
        Timing::Hidden
    }
}

pub open spec fn row_layout(rows: Seq<RowWidths>, width: int) -> RowLayout {
    let elapsed = widest_elapsed(rows);
    let estimate = widest_estimate(rows);
    let timing = fullest_timing(widest_name(rows), elapsed, estimate, width);
    RowLayout {
        timing,
        estimate: estimate as u16,
        trailing: timing_columns(timing, elapsed, estimate) as u16,
    }
}

/// The columns that the parts of an entry's row take.
pub open spec fn entry_widths(entry: EntryView) -> RowWidths {
    RowWidths {
        elapsed: duration_text(entry.elapsed).len() as usize,
        estimate: duration_text(entry.seconds).len() as usize,
        id: display_width(entry.id) as usize,
        title: display_width(entry.title) as usize,
    }
}

pub open spec fn widths_of(entries: Seq<EntryView>) -> Seq<RowWidths> {
    entries.map_values(|entry: EntryView| entry_widths(entry))
}

/// The parts of a duration fit in a line.
pub open spec fn timed(rows: Seq<RowWidths>) -> bool {
    forall|i: int|
        0 <= i < rows.len() ==> (#[trigger] rows[i]).elapsed <= 23 && rows[i].estimate <= 23
}

pub proof fn lemma_widest(rows: Seq<RowWidths>)
    requires
        timed(rows),
    ensures
        0 <= widest_elapsed(rows) <= 23,
        0 <= widest_estimate(rows) <= 23,
        0 <= widest_name(rows),
    decreases rows.len(),
{
    if rows.len() > 0 {
        let rest = rows.drop_last();
        assert(timed(rest)) by {
            assert forall|i: int| 0 <= i < rest.len() implies (#[trigger] rest[i]).elapsed <= 23
                && rest[i].estimate <= 23 by {
                assert(rest[i] == rows[i]);
            }
        }
        lemma_widest(rest);
        assert(rows[rows.len() - 1].elapsed <= 23);
    }
}

/// The timing of every entry fits in a few columns.
pub proof fn lemma_entry_widths(entries: Seq<Entry>)
    ensures
        timed(widths_of(entry_views(entries))),
        forall|i: int|
            0 <= i < entries.len() ==> {
                let entry = #[trigger] entry_views(entries)[i];
                &&& entry_widths(entry).elapsed == duration_text(entry.elapsed).len()
                &&& entry_widths(entry).estimate == duration_text(entry.seconds).len()
            },
{
    let views = entry_views(entries);
    let rows = widths_of(views);
    assert forall|i: int| 0 <= i < entries.len() implies ({
        let entry = #[trigger] entry_views(entries)[i];
        &&& entry_widths(entry).elapsed == duration_text(entry.elapsed).len()
        &&& entry_widths(entry).estimate == duration_text(entry.seconds).len()
    }) by {
        assert(views[i] == entries[i]@);
        lemma_duration_len(entries[i].elapsed);
        lemma_duration_len(entries[i].seconds);
    }
    assert forall|i: int| 0 <= i < rows.len() implies (#[trigger] rows[i]).elapsed <= 23
        && rows[i].estimate <= 23 by {
        assert(rows[i] == entry_widths(views[i]));
        assert(views[i] == entries[i]@);
        lemma_duration_len(entries[i].elapsed);
        lemma_duration_len(entries[i].seconds);
    }
}

/// No row takes more than the widest one.
pub proof fn lemma_widest_covers(rows: Seq<RowWidths>, i: int)
    requires
        0 <= i < rows.len(),
    ensures
        rows[i].elapsed <= widest_elapsed(rows),
        rows[i].estimate <= widest_estimate(rows),
        name_columns(rows[i]) <= widest_name(rows),
    decreases rows.len(),
{
    if i < rows.len() - 1 {
        lemma_widest_covers(rows.drop_last(), i);
        assert(rows.drop_last()[i] == rows[i]);
    }
}

impl RowLayout {
    /// The layout of rows whose parts take the given columns.
    pub fn from_widths(rows: &Vec<RowWidths>, width: u16) -> (layout: Self)
        requires
            timed(rows@),
        ensures
            layout == row_layout(rows@, width as int),
            layout.timing != Timing::Hidden ==> layout.trailing <= width,
            layout.trailing <= 62,
            layout.estimate <= 23,
    {
        let mut elapsed: usize = 0;
        let mut estimate: usize = 0;
        let mut names: u128 = 0;
        let mut i: usize = 0;
        assert(rows@.take(0) =~= Seq::empty());
        while i < rows.len()
            invariant
                i <= rows@.len(),
                elapsed == widest_elapsed(rows@.take(i as int)),
                estimate == widest_estimate(rows@.take(i as int)),
                names == widest_name(rows@.take(i as int)),
                names <= usize::MAX + 19,
            decreases rows.len() - i,
        {
            assert(rows@.take(i + 1).drop_last() =~= rows@.take(i as int));
            let row = rows[i];
            if row.elapsed > elapsed {
                elapsed = row.elapsed;
            }
            if row.estimate > estimate {
                estimate = row.estimate;
            }
            let title: u128 = if row.title < 12 {
                row.title as u128
            } else {
                12
            };
            let name: u128 = 7 + (row.id as u128) + title;
            if name > names {
                names = name;
            }
            i += 1;
        }
        assert(rows@.take(i as int) =~= rows@);
        proof {
            lemma_widest(rows@);
        }
        let wide: u128 = width as u128;
        let bar: u16 = (elapsed + estimate) as u16 + BAR_WIDTH + 6;
        let arrow: u16 = (elapsed + estimate) as u16 + 5;
        let plain: u16 = estimate as u16 + 2;
        if names + bar as u128 <= wide {
            RowLayout { timing: Timing::Bar, estimate: estimate as u16, trailing: bar }
        } else if names + arrow as u128 <= wide {
            RowLayout { timing: Timing::Arrow, estimate: estimate as u16, trailing: arrow }
        } else if names + plain as u128 <= wide {
            RowLayout { timing: Timing::Estimate, estimate: estimate as u16, trailing: plain }
        } else {
            RowLayout { timing: Timing::Hidden, estimate: estimate as u16, trailing: 0 }
        }
    }

    /// The layout of some rows in the columns that are there.
    pub fn new(entries: &[Entry], width: u16) -> (layout: Self)
        ensures
            layout == row_layout(widths_of(entry_views(entries@)), width as int),
            layout.timing != Timing::Hidden ==> layout.trailing <= width,
            layout.trailing <= 62,
            layout.estimate <= 23,
    {
        let rows = measure_rows(entries);
        RowLayout::from_widths(&rows, width)
    }
}

/// The columns that the parts of some rows take.
fn measure_rows(entries: &[Entry]) -> (rows: Vec<RowWidths>)
    ensures
        rows@ == widths_of(entry_views(entries@)),
        timed(rows@),
{
    let mut rows: Vec<RowWidths> = Vec::new();
    let mut i: usize = 0;
    while i < entries.len()
        invariant
            i <= entries@.len(),
            rows@.len() == i,
            forall|k: int| 0 <= k < i ==> (#[trigger] rows@[k]) == entry_widths(entries@[k]@),
            timed(rows@),
        decreases entries.len() - i,
    {
        let elapsed = duration(entries[i].elapsed);
        let estimate = duration(entries[i].seconds);
        rows.push(
            RowWidths {
                elapsed: measure(elapsed.as_str()),
                estimate: measure(estimate.as_str()),
                id: measure(entries[i].id.as_str()),
                title: measure(entries[i].title.as_str()),
            },
        );
        i += 1;
    }
    assert(rows@ =~= widths_of(entry_views(entries@)));
    rows
}

/// The least columns of a segment: its ID and a gap, and never less than four.
pub open spec fn segment_minimum(id_width: int) -> int {
    greater(id_width + 1, 4)
}

/// The first of the last segments that are shown whole, when `used` columns are taken.
pub open spec fn segment_start(ids: Seq<int>, count: int, used: int, width: int) -> int
    decreases count,
{
    if count <= 0 || used + segment_minimum(ids[count - 1]) > width {
        count
    } else {
        segment_start(ids, count - 1, used + segment_minimum(ids[count - 1]), width)
    }
}

pub open spec fn first_segment(ids: Seq<int>, width: int) -> int {
    segment_start(ids, ids.len() as int, 0, width)
}

/// The least columns of the segments from `start` on.
pub open spec fn minimum_total(ids: Seq<int>, start: int) -> int
    decreases ids.len() - start,
{
    if start >= ids.len() {
        0
    } else {
        segment_minimum(ids[start]) + minimum_total(ids, start + 1)
    }
}

pub open spec fn sizes(values: Seq<usize>) -> Seq<int> {
    values.map_values(|n: usize| n as int)
}

proof fn lemma_segment_start(ids: Seq<int>, count: int, used: int, width: int)
    requires
        0 <= count <= ids.len(),
        0 <= used <= width,
        used == minimum_total(ids, count),
    ensures
        0 <= segment_start(ids, count, used, width) <= count,
        0 <= minimum_total(ids, segment_start(ids, count, used, width)) <= width,
    decreases count,
{
    if count > 0 && used + segment_minimum(ids[count - 1]) <= width {
        lemma_segment_start(ids, count - 1, used + segment_minimum(ids[count - 1]), width);
    }
}

fn find_first_segment(ids: &Vec<usize>, width: u16) -> (found: (usize, u16))
    ensures
        found.0 == first_segment(sizes(ids@), width as int),
        found.0 <= ids@.len(),
        found.1 == minimum_total(sizes(ids@), found.0 as int),
        found.1 <= width,
{
    let ghost all = sizes(ids@);
    let mut start: usize = ids.len();
    let mut used: u16 = 0;
    while start > 0
        invariant
            start <= ids@.len(),
            all == sizes(ids@),
            used <= width,
            used == minimum_total(all, start as int),
            first_segment(all, width as int) == segment_start(
                all,
                start as int,
                used as int,
                width as int,
            ),
        decreases start,
    {
        let id: usize = ids[start - 1];
        assert(all[start - 1] == id as int);
        if id >= (width - used) as usize || width - used < 4 {
            return (start, used);
        }
        let minimum: u16 = if id < 3 {
            4
        } else {
            id as u16 + 1
        };
        used = used + minimum;
        start -= 1;
    }
    (start, used)
}

/// The columns that the IDs of some rows take.
pub open spec fn id_widths(entries: Seq<EntryView>) -> Seq<int> {
    entries.map_values(|entry: EntryView| display_width(entry.id) as int)
}

fn measure_ids(entries: &[Entry]) -> (ids: Vec<usize>)
    ensures
        sizes(ids@) == id_widths(entry_views(entries@)),
{
    let mut ids: Vec<usize> = Vec::new();
    let mut i: usize = 0;
    while i < entries.len()
        invariant
            i <= entries@.len(),
            ids@.len() == i,
            forall|k: int| 0 <= k < i ==> (#[trigger] ids@[k]) == display_width(entries@[k]@.id),
        decreases entries.len() - i,
    {
        ids.push(measure(entries[i].id.as_str()));
        i += 1;
    }
    assert(sizes(ids@) =~= id_widths(entry_views(entries@)));
    ids
}

/// The time that a segment's width grows with: what was spent on a finished entry, and the
/// estimate of any other.
pub open spec fn segment_seconds(entry: EntryView) -> int {
    greater(
        if entry.state.finished() {
            entry.elapsed
        } else {
            entry.seconds
        },
        0,
    )
}

/// The segments of an overview before their widths are settled: which entries are shown, how
/// many columns each needs, how many are left to share out, and the times to share them by.
#[derive(Debug, PartialEq, Eq)]
pub struct SegmentPlan {
    pub start: usize,
    pub minimums: Vec<u16>,
    pub extra: u16,
    pub seconds: Vec<i64>,
}

/// Whether a plan is that of the overview of some rows.
pub open spec fn planned(plan: SegmentPlan, views: Seq<EntryView>, width: int) -> bool {
    let ids = id_widths(views);
    let n = views.len();
    &&& plan.start == first_segment(ids, width)
    &&& plan.start <= n
    &&& plan.minimums@.len() == n - plan.start
    &&& plan.seconds@.len() == n - plan.start
    &&& forall|k: int|
        0 <= k < n - plan.start ==> #[trigger] plan.minimums@[k] == segment_minimum(
            ids[plan.start + k],
        )
    &&& forall|k: int|
        0 <= k < n - plan.start ==> #[trigger] plan.seconds@[k] == segment_seconds(
            views[plan.start + k],
        )
    &&& plan.extra == width - minimum_total(ids, plan.start as int)
    &&& minimum_sum(plan.minimums@, plan.minimums@.len() as int) + plan.extra == width
}

/// Plans the overview of some rows. Only complete segments at the end are shown.
pub fn plan_segments(entries: &[Entry], width: u16) -> (plan: SegmentPlan)
    ensures
        planned(plan, entry_views(entries@), width as int),
{
    let ghost views = entry_views(entries@);
    let ids = measure_ids(entries);
    let ghost all = sizes(ids@);
    let (start, used) = find_first_segment(&ids, width);
    proof {
        lemma_segment_start(all, all.len() as int, 0, width as int);
    }
    let mut minimums: Vec<u16> = Vec::new();
    let mut seconds: Vec<i64> = Vec::new();
    let mut i: usize = start;
    while i < entries.len()
        invariant
            start <= i <= entries@.len(),
            ids@.len() == entries@.len(),
            all == sizes(ids@),
            views == entry_views(entries@),
            minimums@.len() == i - start,
            seconds@.len() == i - start,
            minimum_total(all, start as int) <= width,
            minimum_total(all, start as int) == minimum_sum(minimums@, i - start)
                + minimum_total(all, i as int),
            0 <= minimum_sum(minimums@, i - start),
            forall|k: int|
                0 <= k < i - start ==> #[trigger] minimums@[k] == segment_minimum(all[start + k]),
            forall|k: int|
                0 <= k < i - start ==> #[trigger] seconds@[k] == segment_seconds(views[start + k]),
        decreases entries.len() - i,
    {
        let entry = &entries[i];
        assert(views[i as int] == entry@);
        assert(all[i as int] == ids@[i as int] as int);
        let spent: i64 = if entry.state.is_finished() {
            entry.elapsed
        } else {
            entry.seconds
        };
        proof {
            lemma_minimum_total_positive(all, i + 1);
        }
        assert(segment_minimum(all[i as int]) <= width);
        let minimum: u16 = if ids[i] < 3 {
            4
        } else {
            ids[i] as u16 + 1
        };
        let ghost before = minimums@;
        minimums.push(minimum);
        proof {
            lemma_minimum_sum_prefix(before, minimums@, i - start);
        }
        seconds.push(
            if spent < 0 {
                0
            } else {
                spent
            },
        );
        i += 1;
    }
    SegmentPlan { start, minimums, extra: width - used, seconds }
}

proof fn lemma_minimum_total_positive(ids: Seq<int>, start: int)
    ensures
        minimum_total(ids, start) >= 0,
    decreases ids.len() - start,
{
    if start < ids.len() {
        lemma_minimum_total_positive(ids, start + 1);
    }
}

/// The columns of the first `count` widths.
pub open spec fn minimum_sum(widths: Seq<u16>, count: int) -> int
    decreases count,
{
    if count <= 0 {
        0
    } else {
        minimum_sum(widths, count - 1) + widths[count - 1]
    }
}

proof fn lemma_minimum_sum_prefix(a: Seq<u16>, b: Seq<u16>, count: int)
    requires
        0 <= count <= a.len(),
        count <= b.len(),
        forall|k: int| 0 <= k < count ==> a[k] == b[k],
    ensures
        minimum_sum(a, count) == minimum_sum(b, count),
    decreases count,
{
    if count > 0 {
        lemma_minimum_sum_prefix(a, b, count - 1);
    }
}

proof fn lemma_minimum_sum_grows(widths: Seq<u16>, count: int, more: int)
    requires
        0 <= count <= more <= widths.len(),
    ensures
        0 <= minimum_sum(widths, count) <= minimum_sum(widths, more),
    decreases more,
{
    if more > count {
        lemma_minimum_sum_grows(widths, count, more - 1);
    } else if count > 0 {
        lemma_minimum_sum_grows(widths, count - 1, count - 1);
    }
}

/// One segment of the overview: its entry and its columns.
pub open spec fn segment_width(plan: SegmentPlan, shares: Seq<u16>, k: int) -> int {
    let n = plan.minimums@.len() as int;
    plan.minimums@[k] + shares[k] + if k == n - 1 {
        plan.extra - minimum_sum(shares, n)
    } else {
        0
    }
}

/// Settles the widths of the segments: each gets its share of the columns that are left, and the
/// last one what remains.
pub fn settle_segments(plan: &SegmentPlan, shares: &Vec<u16>) -> (segments: Vec<(usize, u16)>)
    requires
        shares@.len() == plan.minimums@.len(),
        minimum_sum(shares@, shares@.len() as int) <= plan.extra,
        minimum_sum(plan.minimums@, plan.minimums@.len() as int) + plan.extra <= u16::MAX,
        plan.start + plan.minimums@.len() <= usize::MAX,
    ensures
        segments@.len() == plan.minimums@.len(),
        forall|k: int|
            0 <= k < segments@.len() ==> (#[trigger] segments@[k]).0 == plan.start + k
                && segments@[k].1 == segment_width(*plan, shares@, k),
{
    let mut left: u16 = plan.extra;
    let mut segments: Vec<(usize, u16)> = Vec::new();
    let mut k: usize = 0;
    while k < shares.len()
        invariant
            k <= shares@.len() == plan.minimums@.len(),
            segments@.len() == k,
            minimum_sum(shares@, shares@.len() as int) <= plan.extra,
            minimum_sum(plan.minimums@, plan.minimums@.len() as int) + plan.extra <= u16::MAX,
            plan.start + plan.minimums@.len() <= usize::MAX,
            left == plan.extra - minimum_sum(shares@, k as int),
            forall|j: int|
                0 <= j < k ==> (#[trigger] segments@[j]).0 == plan.start + j && segments@[j].1
                    == segment_width(*plan, shares@, j),
        decreases shares.len() - k,
    {
        proof {
            lemma_minimum_sum_grows(shares@, k + 1, shares@.len() as int);
            lemma_minimum_sum_grows(shares@, k as int, k as int);
            lemma_minimum_sum_grows(
                plan.minimums@,
                k + 1,
                plan.minimums@.len() as int,
            );
            lemma_minimum_sum_grows(plan.minimums@, k as int, k as int);
        }
        left = left - shares[k];
        let share: u16 = if k + 1 == shares.len() {
            shares[k] + left
        } else {
            shares[k]
        };
        segments.push((plan.start + k, plan.minimums[k] + share));
        k += 1;
    }
    segments
}

/// The columns of some segments.
pub open spec fn segments_total(segments: Seq<(usize, u16)>, count: int) -> int
    decreases count,
{
    if count <= 0 {
        0
    } else {
        segments_total(segments, count - 1) + segments[count - 1].1
    }
}

/// The segments fill the overview without a gap, and each is wide enough for its ID.
pub proof fn law_segments_fill_the_overview(
    plan: SegmentPlan,
    shares: Seq<u16>,
    segments: Seq<(usize, u16)>,
    k: int,
)
    requires
        shares.len() == plan.minimums@.len(),
        segments.len() == plan.minimums@.len(),
        minimum_sum(shares, shares.len() as int) <= plan.extra,
        forall|j: int|
            0 <= j < segments.len() ==> (#[trigger] segments[j]).1 == segment_width(
                plan,
                shares,
                j,
            ),
        0 <= k < segments.len(),
    ensures
        segments_total(segments, segments.len() as int) == minimum_sum(
            plan.minimums@,
            plan.minimums@.len() as int,
        ) + plan.extra,
        segments[k].1 >= plan.minimums@[k],
{
    let n = segments.len() as int;
    lemma_segments_total(plan, shares, segments, n);
}

proof fn lemma_segments_total(
    plan: SegmentPlan,
    shares: Seq<u16>,
    segments: Seq<(usize, u16)>,
    count: int,
)
    requires
        shares.len() == plan.minimums@.len(),
        segments.len() == plan.minimums@.len(),
        forall|j: int|
            0 <= j < segments.len() ==> (#[trigger] segments[j]).1 == segment_width(
                plan,
                shares,
                j,
            ),
        0 <= count <= segments.len(),
    ensures
        segments_total(segments, count) == minimum_sum(plan.minimums@, count) + (if count
            == segments.len() && count > 0 {
            plan.extra as int
        } else {
            minimum_sum(shares, count)
        }),
    decreases count,
{
    if count > 0 {
        lemma_segments_total(plan, shares, segments, count - 1);
    }
}

/// Whether some shares of the columns that are left are those of an overview: one for each of its
/// segments, and no more columns than there are.
pub open spec fn shares_fit(views: Seq<EntryView>, width: int, shares: Seq<u16>) -> bool {
    let ids = id_widths(views);
    let start = first_segment(ids, width);
    &&& shares.len() == views.len() - start
    &&& minimum_sum(shares, shares.len() as int) <= width - minimum_total(ids, start)
}

/// The segments of an overview, given the shares: which rows they stand for, and their columns.
/// Each has what it needs and its share, and the last one what remains besides.
pub open spec fn overview_segments(
    views: Seq<EntryView>,
    width: int,
    shares: Seq<u16>,
) -> Seq<(usize, u16)> {
    let ids = id_widths(views);
    let start = first_segment(ids, width);
    let n = views.len() - start;
    let remainder = width - minimum_total(ids, start) - minimum_sum(shares, n);
    Seq::new(
        n as nat,
        |k: int|
            (
                (start + k) as usize,
                (segment_minimum(ids[start + k]) + shares[k] + if k == n - 1 {
                    remainder
                } else {
                    0
                }) as u16,
            ),
    )
}

fn is_shared_out(extra: u16, shares: &Vec<u16>) -> (yes: bool)
    ensures
        yes == (minimum_sum(shares@, shares@.len() as int) <= extra),
{
    let mut left: u16 = extra;
    let mut k: usize = 0;
    while k < shares.len()
        invariant
            k <= shares@.len(),
            left == extra - minimum_sum(shares@, k as int),
        decreases shares.len() - k,
    {
        if shares[k] > left {
            proof {
                lemma_minimum_sum_grows(shares@, k + 1, shares@.len() as int);
            }
            return false;
        }
        left = left - shares[k];
        k += 1;
    }
    true
}

/// An overview that shows a segment has columns for it.
pub proof fn lemma_segments_have_width(views: Seq<EntryView>, width: int)
    requires
        first_segment(id_widths(views), width) < views.len(),
    ensures
        width >= 4,
{
    let ids = id_widths(views);
    if width < 4 {
        assert(segment_minimum(ids[ids.len() - 1]) >= 4);
    }
}

/// Plans the overview of some rows and settles it with the shares of the columns that are left;
/// nothing where the shares are not those of the overview.
pub fn share_segments(entries: &[Entry], width: u16, shares: &Vec<u16>) -> (segments: Option<
    Vec<(usize, u16)>,
>)
    ensures
        segments is Some == shares_fit(entry_views(entries@), width as int, shares@),
        segments matches Some(segments) ==> segments@ == overview_segments(
            entry_views(entries@),
            width as int,
            shares@,
        ) && (segments@.len() == 0 || segments_total(segments@, segments@.len() as int) == width)
            && forall|k: int| 0 <= k < segments@.len() ==> (#[trigger] segments@[k]).0 < entries@.len(),
{
    let plan = plan_segments(entries, width);
    if shares.len() != plan.minimums.len() || !is_shared_out(plan.extra, shares) {
        return None;
    }
    assert(plan.start + plan.minimums@.len() == entries.len());
    let segments = settle_segments(&plan, shares);
    proof {
        if segments@.len() > 0 {
            law_segments_fill_the_overview(plan, shares@, segments@, 0);
        }
        assert(segments@ =~= overview_segments(entry_views(entries@), width as int, shares@));
    }
    Some(segments)
}

/// How the lines of an area are divided.
#[derive(Clone, Copy, Debug, PartialEq, Eq, Structural)]
pub struct VerticalLayout {
    pub rows: usize,
    /// The line of the overview, where there is room for both of its lines.
    pub overview_y: Option<u16>,
}

pub open spec fn shown_rows(count: int) -> int {
    if count < MAX_ROWS {
        count
    } else {
        MAX_ROWS as int
    }
}

pub open spec fn without_margin(width: int) -> int {
    if width < 4 {
        0
    } else {
        width - 4
    }
}

/// Whether some rows have an overview in the columns that are there.
pub open spec fn has_overview(ids: Seq<int>, width: int) -> bool {
    first_segment(ids, without_margin(width)) < ids.len()
}

/// Under pressure the blank line above the overview goes first, then the overview as a whole.
pub open spec fn vertical_layout(ids: Seq<int>, width: int, height: int) -> VerticalLayout {
    let rows = shown_rows(ids.len() as int);
    VerticalLayout {
        rows: (if height == 0 {
            0
        } else if rows < height - 1 {
            rows
        } else {
            height - 1
        }) as usize,
        overview_y: if has_overview(ids, width) && height >= rows + 3 {
            Some(
                (1 + rows + if height >= rows + 4 {
                    1int
                } else {
                    0
                }) as u16,
            )
        } else {
            None
        },
    }
}

fn is_overview(entries: &[Entry], width: u16) -> (yes: bool)
    ensures
        yes == has_overview(id_widths(entry_views(entries@)), width as int),
{
    let ids = measure_ids(entries);
    let columns: u16 = if width < 4 {
        0
    } else {
        width - 4
    };
    let (start, _) = find_first_segment(&ids, columns);
    assert(ids@.len() == sizes(ids@).len());
    start < ids.len()
}

impl VerticalLayout {
    pub fn new(entries: &[Entry], area: Area) -> (layout: Self)
        ensures
            layout == vertical_layout(
                id_widths(entry_views(entries@)),
                area.width as int,
                area.height as int,
            ),
            layout.rows <= entries@.len(),
            layout.rows <= MAX_ROWS,
            area.height > 0 ==> layout.rows < area.height,
            layout.overview_y matches Some(y) ==> y + 1 < area.height,
    {
        assert(id_widths(entry_views(entries@)).len() == entries@.len());
        let rows: usize = if entries.len() < MAX_ROWS {
            entries.len()
        } else {
            MAX_ROWS
        };
        let height: usize = area.height as usize;
        let overview_y: Option<u16> = if is_overview(entries, area.width) && height >= rows + 3 {
            let spacer: u16 = if height >= rows + 4 {
                1
            } else {
                0
            };
            Some(1 + rows as u16 + spacer)
        } else {
            None
        };
        let room: usize = if height == 0 {
            0
        } else {
            height - 1
        };
        VerticalLayout {
            rows: if rows < room {
                rows
            } else {
                room
            },
            overview_y,
        }
    }
}

/// The lines that a list of rows asks for.
pub open spec fn list_height(ids: Seq<int>, width: int) -> int {
    1 + shown_rows(ids.len() as int) + if has_overview(ids, width) {
        3int
    } else {
        0
    }
}

pub fn measure_list(entries: &[Entry], width: u16) -> (height: u16)
    ensures
        height == list_height(id_widths(entry_views(entries@)), width as int),
{
    assert(id_widths(entry_views(entries@)).len() == entries@.len());
    let rows: u16 = if entries.len() < MAX_ROWS {
        entries.len() as u16
    } else {
        MAX_ROWS as u16
    };
    if is_overview(entries, width) {
        1 + rows + 3
    } else {
        1 + rows
    }
}

} // verus!
