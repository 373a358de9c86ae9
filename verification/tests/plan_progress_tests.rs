use continuous_planning::display::label;
use continuous_planning::layout::plan_segments;
use continuous_planning::layout::share_segments;
use continuous_planning::layout::Area;
use continuous_planning::layout::RowLayout;
use continuous_planning::layout::SegmentPlan;
use continuous_planning::layout::Timing::Arrow;
use continuous_planning::layout::Timing::Bar;
use continuous_planning::layout::Timing::Estimate;
use continuous_planning::layout::Timing::Hidden;
use continuous_planning::layout::VerticalLayout;
use continuous_planning::plan::ContinuousPlanning;
use continuous_planning::plan::PlanReviewState;
use continuous_planning::plan::PlanStage;
use continuous_planning::plan::PlanStepDefinition;
use continuous_planning::plan::PlanStepState;
use continuous_planning::plan::TimedPlanStep;
use continuous_planning::progress::Entry;
use continuous_planning::progress::ListAction;
use continuous_planning::progress::PlanProgress;
use continuous_planning::render::fill_cells;
use continuous_planning::render::is_bar_begun;
use continuous_planning::render::state_tone_of;
use continuous_planning::render::Draw;
use continuous_planning::render::TextStyle;
use continuous_planning::render::Tone;
use ratatui::buffer::Buffer;
use ratatui::layout::Rect;
use ratatui::style::Style;
use ratatui::style::Stylize;
use ratatui::text::Line;
use ratatui::text::Span;
use unicode_width::UnicodeWidthStr;

/// The monotonic clock of these tests stands still before anything is received.
const CLOCK: u64 = 0;

const RECEIVED: u64 = 3_600_000_000_000;

fn fixture() -> ContinuousPlanning {
    ContinuousPlanning {
        id: "task-one".to_string(),
        version: 1,
        objective: "Ship".to_string(),
        acceptance: "Verified".to_string(),
        stages: vec![PlanStage {
            id: "S01".into(),
            title: "Ship".into(),
            acceptance: "Verified".into(),
            assumptions: vec![],
            estimate_seconds: 180,
        }],
        steps: ["Inspect", "Implement", "Test"]
            .into_iter()
            .enumerate()
            .map(|(index, title)| TimedPlanStep {
                definition: PlanStepDefinition {
                    id: format!("A{:02}", index + 1),
                    stage_id: "S01".to_string(),
                    title: title.to_string(),
                    acceptance: "Check output".to_string(),
                    dependencies: vec![],
                    estimate_seconds: 60,
                },
                state: if index == 0 {
                    PlanStepState::Completed
                } else if index == 1 {
                    PlanStepState::Running
                } else {
                    PlanStepState::Pending
                },
                owner: "root".to_string(),
                initial_estimate_seconds: 60,
                elapsed_seconds: if index == 0 { 25 } else { 0 },
                started_at: if index < 2 { Some(1000) } else { None },
                running_since: if index == 1 { Some(1010) } else { None },
                submitted_at: if index == 0 { Some(1020) } else { None },
                completed_at: if index == 0 { Some(1025) } else { None },
                evidence: vec![],
            })
            .collect(),
        review: PlanReviewState::Idle,
        updated_at: 1040,
        next_review_at: 1070,
        estimated_completion_at: 1130,
        reason: "Updated estimate".to_string(),
    }
}

fn progress(plan: ContinuousPlanning) -> PlanProgress {
    let observed_at = plan.updated_at;
    PlanProgress::new(plan, "root".to_string(), observed_at, RECEIVED)
}

fn shares(plan: &SegmentPlan) -> Vec<u16> {
    let weights: Vec<f64> = plan
        .seconds
        .iter()
        .map(|seconds| (*seconds as f64).ln_1p())
        .collect();
    let total = weights.iter().sum::<f64>().max(1.0);
    weights
        .iter()
        .map(|weight| (f64::from(plan.extra) * weight / total).floor() as u16)
        .collect()
}

fn segments(entries: &[Entry], width: u16) -> Vec<(usize, u16)> {
    let shares = shares(&plan_segments(entries, width));
    share_segments(entries, width, &shares).unwrap()
}

fn style(style: &TextStyle) -> Style {
    let mut drawn = match style.tone {
        Tone::Plain => Style::default(),
        Tone::Dim => Style::default().dim(),
        Tone::Cyan => Style::default().cyan(),
        Tone::Red => Style::default().red(),
    };
    if style.bold {
        drawn = drawn.bold();
    }
    if style.crossed_out {
        drawn = drawn.crossed_out();
    }
    if style.underlined {
        drawn = drawn.underlined();
    }
    drawn
}

fn bar(buf: &mut Buffer, area: Rect, elapsed: i64, seconds: i64, state: PlanStepState) {
    let fraction = if state == PlanStepState::Completed {
        1.0
    } else {
        (elapsed as f64 / seconds.max(1) as f64).clamp(0.0, 1.0)
    };
    assert_eq!(is_bar_begun(state, elapsed), fraction > 0.0);
    let covered = (fraction * f64::from(area.width)).floor() as u16;
    let filled = fill_cells(covered, fraction > 0.0, area.width);
    let tone = match state_tone_of(state) {
        Tone::Cyan => Style::default().cyan(),
        Tone::Red => Style::default().red(),
        Tone::Dim => Style::default().dim(),
        Tone::Plain => Style::default(),
    };
    for x in 0..area.width {
        buf[(area.x + x, area.y)]
            .set_symbol(if x < filled { "━" } else { "─" })
            .set_style(if x < filled { tone } else { Style::default().dim() });
    }
}

fn render(progress: &mut PlanProgress, area: Rect, buf: &mut Buffer) {
    let shares = shares(&progress.overview(area.width, CLOCK));
    let place = Area {
        x: area.x,
        y: area.y,
        width: area.width,
        height: area.height,
    };
    for draw in progress.render(place, CLOCK, &shares).unwrap().draws {
        match draw {
            Draw::Line { x, y, spans, width } => {
                let line = Line::from(
                    spans
                        .iter()
                        .map(|span| Span::styled(span.text.clone(), style(&span.style)))
                        .collect::<Vec<_>>(),
                );
                buf.set_line(x, y, &line, width);
            }
            Draw::Text {
                x,
                y,
                text,
                width,
                style: drawn,
            } => {
                buf.set_stringn(x, y, text, usize::from(width), style(&drawn));
            }
            Draw::Bar {
                x,
                y,
                width,
                elapsed,
                seconds,
                state,
            } => bar(buf, Rect::new(x, y, width, 1), elapsed, seconds, state),
            Draw::Junction { x, y, filled } => {
                assert_eq!(buf[(x, y)].symbol() == "━", filled);
                buf[(x, y)]
                    .set_symbol(if filled { "┿" } else { "┼" })
                    .set_style(Style::default().dim());
            }
        }
    }
}

fn rendered(progress: &mut PlanProgress, width: u16) -> Buffer {
    let mut buf = Buffer::empty(Rect::new(
        /*x*/ 0,
        /*y*/ 0,
        width,
        progress.desired_height(width, CLOCK),
    ));
    let area = buf.area;
    render(progress, area, &mut buf);
    buf
}

fn snapshot(progress: &mut PlanProgress, width: u16) -> String {
    let text = buffer_text(&rendered(progress, width));
    assert!(text.lines().all(|line| line.width() == usize::from(width)));
    text
}

/// The lines of a frame without the blanks that fill them up to the width.
fn lines(frame: &str) -> Vec<&str> {
    frame.lines().map(str::trim_end).collect()
}

fn buffer_text(buf: &Buffer) -> String {
    (buf.area.y..buf.area.bottom())
        .map(|y| {
            let mut line = String::new();
            let mut x = buf.area.x;
            while x < buf.area.right() {
                let symbol = buf[(x, y)].symbol();
                line.push_str(symbol);
                x += symbol.width().max(/*other*/ 1) as u16;
            }
            line
        })
        .collect::<Vec<_>>()
        .join("\n")
}

#[test]
fn task_list_wide_and_narrow() {
    let mut plan = fixture();
    plan.steps[1].definition.title = "验证实现路径".into();
    let mut progress = progress(plan);
    let frames: [(u16, &[&str]); 8] = [
        (
            80,
            &[
                "• Task List  1/3",
                "  └ ✔ A01 Inspect                                         0:25  ━━━━━━━━━━  1:00",
                "    □ A02 验证实现路径                                    0:30  ━━━━━─────  1:00",
                "    □ A03 Test                                            0:00  ──────────  1:00",
                "",
                "    A01                   A02                       A03",
                "    ━━━━━━━━━━━━━━━━━━━━━━┿━━━━━━━━━━━━─────────────┼───────────────────────────",
            ],
        ),
        (
            46,
            &[
                "• Task List  1/3",
                "  └ ✔ A01 Inspect       0:25  ━━━━━━━━━━  1:00",
                "    □ A02 验证实现路径  0:30  ━━━━━─────  1:00",
                "    □ A03 Test          0:00  ──────────  1:00",
                "",
                "    A01         A02           A03",
                "    ━━━━━━━━━━━━┿━━━━━━───────┼───────────────",
            ],
        ),
        (
            45,
            &[
                "• Task List  1/3",
                "  └ ✔ A01 Inspect                 0:25 → 1:00",
                "    □ A02 验证实现路径            0:30 → 1:00",
                "    □ A03 Test                    0:00 → 1:00",
                "",
                "    A01         A02           A03",
                "    ━━━━━━━━━━━━┿━━━━━━───────┼──────────────",
            ],
        ),
        (
            35,
            &[
                "• Task List  1/3",
                "  └ ✔ A01 Inspect       0:25 → 1:00",
                "    □ A02 验证实现路径  0:30 → 1:00",
                "    □ A03 Test          0:00 → 1:00",
                "",
                "    A01      A02       A03",
                "    ━━━━━━━━━┿━━━━─────┼───────────",
            ],
        ),
        (
            34,
            &[
                "• Task List  1/3",
                "  └ ✔ A01 Inspect             1:00",
                "    □ A02 验证实现路径        1:00",
                "    □ A03 Test                1:00",
                "",
                "    A01      A02       A03",
                "    ━━━━━━━━━┿━━━━─────┼──────────",
            ],
        ),
        (
            28,
            &[
                "• Task List  1/3",
                "  └ ✔ A01 Inspect       1:00",
                "    □ A02 验证实现路径  1:00",
                "    □ A03 Test          1:00",
                "",
                "    A01    A02     A03",
                "    ━━━━━━━┿━━━────┼────────",
            ],
        ),
        (
            27,
            &[
                "• Task List  1/3",
                "  └ ✔ A01 Inspect",
                "    □ A02 验证实现路径",
                "    □ A03 Test",
                "",
                "    A01    A02    A03",
                "    ━━━━━━━┿━━────┼────────",
            ],
        ),
        (
            12,
            &[
                "• Task List",
                "  └ ✔ A01 I…",
                "    □ A02 …",
                "    □ A03 T…",
                "",
                "    A02 A03",
                "    ━━──┼───",
            ],
        ),
    ];
    for (width, frame) in frames {
        assert_eq!(lines(&snapshot(&mut progress, width)), frame);
    }
    let buf = rendered(&mut progress, /*width*/ 80);
    assert_eq!(
        (
            buf[(10, 1)].fg,
            buf[(10, 1)].modifier,
            buf[(6, 1)].modifier,
            buf[(10, 2)].fg,
            buf[(10, 2)].modifier
        ),
        (
            ratatui::style::Color::Reset,
            ratatui::style::Modifier::DIM | ratatui::style::Modifier::CROSSED_OUT,
            ratatui::style::Modifier::DIM,
            ratatui::style::Color::Cyan,
            ratatui::style::Modifier::BOLD
        )
    );
}

#[test]
fn timing_degrades_at_measured_boundaries_and_recovers() {
    let mut plan = fixture();
    plan.steps[1].definition.title = "验证实现路径".into();
    let mut progress = progress(plan);
    let entries = progress.entries(CLOCK);
    assert_eq!(
        [46, 45, 35, 34, 28, 27, 28, 35, 46].map(|width| RowLayout::new(&entries, width).timing),
        [
            Bar, Arrow, Arrow, Estimate, Estimate, Hidden, Estimate, Arrow, Bar
        ]
    );
    for width in [46, 45, 35, 34, 28, 27] {
        let rows = snapshot(&mut progress, width);
        let running = rows.lines().nth(2).unwrap();
        assert!(running.contains("A02 验证实现路径"));
        if (35..46).contains(&width) {
            assert!(running.ends_with("0:30 → 1:00"));
        }
        if (28..35).contains(&width) {
            assert!(running.ends_with("1:00"));
        }
    }
}

#[test]
fn overview_is_continuous_with_aligned_ids_and_minimum_widths() {
    let mut plan = fixture();
    plan.steps[2].definition.id = "legacy-long-id".into();
    let mut progress = progress(plan);
    for width in [19, 26, 32, 80] {
        let entries = progress.entries(CLOCK);
        let segments = segments(&entries, width - 4);
        let buf = rendered(&mut progress, width);
        let mut x = 4;
        let y = buf.area.height - 2;
        for (position, (index, size)) in segments.iter().copied().enumerate() {
            assert!(usize::from(size) >= (entries[index].id.width() + 1).max(4));
            assert_eq!(buf[(x, y)].symbol(), &entries[index].id[..1]);
            if position > 0 {
                assert!(matches!(buf[(x, y + 1)].symbol(), "┼" | "┿"));
            }
            x += size;
        }
        assert_eq!(x, width);
        assert!((4..width).all(|x| buf[(x, y + 1)].symbol() != " "));
    }
    assert!(segments(&progress.entries(CLOCK), /*width*/ 14).is_empty());
    assert_eq!(
        lines(&snapshot(&mut progress, /*width*/ 32)),
        [
            "• Task List  1/3",
            "  └ ✔ A01 Inspect           1:00",
            "    □ A02 Implement         1:00",
            "    □ legacy-long-id Test   1:00",
            "",
            "    A01  A02  legacy-long-id",
            "    ━━━━━┿━───┼─────────────────",
        ]
    );
}

#[test]
fn logarithmic_widths_and_latest_whole_segments() {
    let mut plan = fixture();
    plan.steps[0].state = PlanStepState::Pending;
    plan.steps[0].elapsed_seconds = 0;
    for (step, seconds) in plan.steps.iter_mut().zip([1, 100, 10000]) {
        step.definition.estimate_seconds = seconds;
    }
    let mut progress = progress(plan);
    let sizes = segments(&progress.entries(CLOCK), /*width*/ 80);
    assert!(sizes[0].1 < sizes[1].1 && sizes[1].1 < sizes[2].1 && sizes[2].1 < 3 * sizes[1].1);
    assert_eq!(
        segments(&progress.entries(CLOCK), /*width*/ 8),
        vec![(1, 4), (2, 4)]
    );
    assert_eq!(
        segments(&progress.entries(CLOCK), /*width*/ 4),
        vec![(2, 4)]
    );
    assert_eq!(
        lines(&snapshot(&mut progress, /*width*/ 12)),
        [
            "• Task List",
            "  └ □ A01 I…",
            "    □ A02 I…",
            "    □ A03 T…",
            "",
            "    A02 A03",
            "    ━───┼───",
        ]
    );
}

#[test]
fn identities_survive_revision_and_stage_aggregation() {
    let mut plan = fixture();
    let mut stage = plan.stages[0].clone();
    stage.id = "S09".into();
    stage.title = "Next".into();
    plan.stages.push(stage);
    for step in &mut plan.steps {
        step.state = PlanStepState::Completed;
        step.running_since = None;
    }
    for index in 3..8 {
        let mut step = plan.steps[2].clone();
        step.definition.id = format!("A{:02}", index + 1);
        step.definition.stage_id = "S09".into();
        step.state = PlanStepState::Pending;
        plan.steps.push(step);
    }
    let mut progress = progress(plan.clone());
    assert_eq!(progress.entries(CLOCK)[0].id, "S01");
    assert_eq!(progress.entries(CLOCK)[0].title, "Ship (3 tasks)");
    assert_eq!(progress.plan, plan);
    plan.version += 1;
    progress.update(plan, /*observed_at*/ 1040, RECEIVED);
    assert_eq!(progress.desired_height(/*width*/ 80, CLOCK), 9);
    assert_eq!(
        lines(&snapshot(&mut progress, /*width*/ 64)),
        [
            "• Task List  3/8",
            "  └ □ A04 Test                            0:00  ──────────  1:00",
            "    □ A05 Test                            0:00  ──────────  1:00",
            "    □ A06 Test                            0:00  ──────────  1:00",
            "    □ A07 Test                            0:00  ──────────  1:00",
            "    □ A08 Test                            0:00  ──────────  1:00",
            "",
            "    S01     A04       A05       A06       A07       A08",
            "    ━━━━━━━━┼─────────┼─────────┼─────────┼─────────┼───────────",
        ]
    );
}

#[test]
fn keyboard_details_revision_and_restoration_use_original_ids() {
    let mut plan = fixture();
    plan.steps[1].definition.id = "legacy-task-42".into();
    let mut shown = progress(plan.clone());
    rendered(&mut shown, /*width*/ 80);
    shown.toggle_focus();
    assert!(shown.details(CLOCK).starts_with("legacy-task-42 Implement"));
    plan.version += 1;
    plan.steps[1].definition.title = "Revised".into();
    plan.steps.reverse();
    shown.update(plan.clone(), /*observed_at*/ 1100, RECEIVED);
    rendered(&mut shown, /*width*/ 80);
    assert!(shown.details(CLOCK).starts_with("legacy-task-42 Revised"));
    assert_eq!(shown.plan.steps[1].elapsed_at(shown.timestamp(CLOCK)), 90);
    assert_eq!(
        lines(&snapshot(&mut shown, /*width*/ 80)),
        [
            "• Task List  1/3",
            "  └ □ A03 Test                                            0:00  ──────────  1:00",
            "  › □ legacy-task-42 Revised                              1:30  ━━━━━━━━━━  1:00",
            "    ✔ A01 Inspect                                         0:25  ━━━━━━━━━━  1:00",
            "",
            "    A03                   legacy-task-42                   A01",
            "    ──────────────────────┿━━━━━━━━━━━━━━━━━━━━━━━━━━━━━━━━┿━━━━━━━━━━━━━━━━━━━━",
        ]
    );
    let restored = progress(plan.clone());
    assert_eq!(
        restored
            .entries(CLOCK)
            .iter()
            .map(|entry| &entry.id)
            .collect::<Vec<_>>(),
        plan.steps
            .iter()
            .map(|step| &step.definition.id)
            .collect::<Vec<_>>()
    );
    assert!(shown.handle_action(ListAction::JumpTop));
    assert!(shown.details(CLOCK).starts_with("A03 Test"));
    assert!(shown.handle_action(ListAction::JumpBottom));
    assert!(shown.details(CLOCK).starts_with("A01 Inspect"));
    assert!(shown.handle_action(ListAction::Cancel));
    assert!(!shown.focused());
    let mut next = fixture();
    next.id = "next-plan".into();
    next.version = 3;
    shown.update(next.clone(), /*observed_at*/ 1040, RECEIVED);
    assert_eq!(shown.view.selected, None);
    shown.update(fixture(), /*observed_at*/ 1040, RECEIVED);
    assert_eq!(shown.plan, next);
}

#[test]
fn height_pressure_drops_spacer_then_entire_overview() {
    let mut shown = progress(fixture());
    let frames: [&[&str]; 7] = [
        &["• Task List  1/3"],
        &[
            "• Task List  1/3",
            "  └ □ A03 Test    0:00  ──────────  1:00",
        ],
        &[
            "• Task List  1/3",
            "  └ □ A02 Implement          0:30 → 1:00",
            "    □ A03 Test               0:00 → 1:00",
        ],
        &[
            "• Task List  1/3",
            "  └ ✔ A01 Inspect            0:25 → 1:00",
            "    □ A02 Implement          0:30 → 1:00",
            "    □ A03 Test               0:00 → 1:00",
        ],
        &[
            "• Task List  1/3",
            "  └ ✔ A01 Inspect            0:25 → 1:00",
            "    □ A02 Implement          0:30 → 1:00",
            "    □ A03 Test               0:00 → 1:00",
            "",
        ],
        &[
            "• Task List  1/3",
            "  └ ✔ A01 Inspect            0:25 → 1:00",
            "    □ A02 Implement          0:30 → 1:00",
            "    □ A03 Test               0:00 → 1:00",
            "    A01       A02         A03",
            "    ━━━━━━━━━━┿━━━━━──────┼─────────────",
        ],
        &[
            "• Task List  1/3",
            "  └ ✔ A01 Inspect            0:25 → 1:00",
            "    □ A02 Implement          0:30 → 1:00",
            "    □ A03 Test               0:00 → 1:00",
            "",
            "    A01       A02         A03",
            "    ━━━━━━━━━━┿━━━━━──────┼─────────────",
        ],
    ];
    for height in 1..=7 {
        let mut buf = Buffer::empty(Rect::new(
            /*x*/ 2, /*y*/ 3, /*width*/ 40, height,
        ));
        let area = buf.area;
        render(&mut shown, area, &mut buf);
        assert_eq!(lines(&buffer_text(&buf)), frames[usize::from(height) - 1]);
        assert_eq!(
            shown.view.rows.len(),
            usize::from(height.saturating_sub(1)).min(3)
        );
        let place = Area {
            x: area.x,
            y: area.y,
            width: area.width,
            height: area.height,
        };
        assert_eq!(
            VerticalLayout::new(&shown.entries(CLOCK), place).overview_y,
            match height {
                6 => Some(4),
                7 => Some(5),
                _ => None,
            }
        );
    }
    for width in 0..12 {
        let mut buf = Buffer::empty(Rect::new(
            /*x*/ 5, /*y*/ 4, width, /*height*/ 0,
        ));
        let area = buf.area;
        render(&mut shown, area, &mut buf);
        rendered(&mut shown, width);
    }
    let mut completed = fixture();
    for step in &mut completed.steps {
        step.state = PlanStepState::Completed;
    }
    let mut completed = progress(completed);
    assert_eq!(completed.desired_height(/*width*/ 80, CLOCK), 0);
    completed.toggle_focus();
    assert_eq!(completed.desired_height(/*width*/ 80, CLOCK), 7);
}

#[test]
fn state_markers_keep_cancellation_distinct() {
    let mut plan = fixture();
    plan.steps[0].state = PlanStepState::Cancelled;
    plan.steps[1].state = PlanStepState::Reviewing;
    plan.steps[1].elapsed_seconds = 85;
    plan.steps[1].running_since = None;
    plan.steps[2].state = PlanStepState::Blocked;
    assert_eq!(
        lines(&snapshot(&mut progress(plan), /*width*/ 64)),
        [
            "• Task List  0/3",
            "  └ × A01 Inspect                         0:25  ━━━━──────  1:00",
            "    ◷ A02 Implement                       1:25  ━━━━━━━━━━  1:00",
            "    ! A03 Test                            0:00  ──────────  1:00",
            "",
            "    A01              A02                  A03",
            "    ━━━━━━━──────────┿━━━━━━━━━━━━━━━━━━━━┼─────────────────────",
        ]
    );
}

#[test]
fn tiny_progress_and_long_times_survive_adaptive_layout() {
    let mut plan = fixture();
    plan.steps[1].running_since = None;
    plan.steps[1].elapsed_seconds = 1;
    plan.steps[1].definition.title = "验证e\u{301}执行路径".into();
    plan.steps[2].definition.estimate_seconds = 600000;
    let mut progress = progress(plan);
    let frames: [(u16, &[&str]); 5] = [
        (
            80,
            &[
                "• Task List  1/3",
                "  └ ✔ A01 Inspect                                     0:25  ━━━━━━━━━━      1:00",
                "    □ A02 验证e\u{301}执行路径                               0:01  ━─────────      1:00",
                "    □ A03 Test                                        0:00  ──────────  10000:00",
                "",
                "    A01           A02             A03",
                "    ━━━━━━━━━━━━━━┿───────────────┼─────────────────────────────────────────────",
            ],
        ),
        (
            46,
            &[
                "• Task List  1/3",
                "  └ ✔ A01 Inspect              0:25 →     1:00",
                "    □ A02 验证e\u{301}执行路径        0:01 →     1:00",
                "    □ A03 Test                 0:00 → 10000:00",
                "",
                "    A01     A02      A03",
                "    ━━━━━━━━┿────────┼────────────────────────",
            ],
        ),
        (
            36,
            &[
                "• Task List  1/3",
                "  └ ✔ A01 Inspect               1:00",
                "    □ A02 验证e\u{301}执行路径         1:00",
                "    □ A03 Test              10000:00",
                "",
                "    A01    A02    A03",
                "    ━━━━━━━┿──────┼─────────────────",
            ],
        ),
        (
            30,
            &[
                "• Task List  1/3",
                "  └ ✔ A01 Inspect",
                "    □ A02 验证e\u{301}执行路径",
                "    □ A03 Test",
                "",
                "    A01   A02   A03",
                "    ━━━━━━┿─────┼─────────────",
            ],
        ),
        (
            22,
            &[
                "• Task List  1/3",
                "  └ ✔ A01 Inspect",
                "    □ A02 验证e\u{301}执行路…",
                "    □ A03 Test",
                "",
                "    A01 A02  A03",
                "    ━━━━┿────┼────────",
            ],
        ),
    ];
    for (width, frame) in frames {
        assert_eq!(lines(&snapshot(&mut progress, width)), frame);
    }
    let text = snapshot(&mut progress, /*width*/ 80);
    assert!(
        text.lines()
            .nth(2)
            .unwrap()
            .ends_with("0:01  ━─────────      1:00")
    );
    assert_eq!(label("e\u{301}验证", /*width*/ 2), "e\u{301}…");
}

#[test]
fn shares_belong_to_their_overview() {
    let mut progress = progress(fixture());
    let plan = progress.overview(40, CLOCK);
    assert_eq!(plan.minimums, [4, 4, 4]);
    assert_eq!(plan.extra, 24);
    assert_eq!(
        share_segments(&progress.entries(CLOCK), 36, &vec![1, 2, 3]),
        Some(vec![(0, 5), (1, 6), (2, 25)])
    );
    let area = Area {
        x: 0,
        y: 0,
        width: 40,
        height: 8,
    };
    let frame = progress.render(area, CLOCK, &vec![1, 2, 3]).unwrap();
    let bars: Vec<(u16, u16)> = frame
        .draws
        .iter()
        .filter_map(|draw| match draw {
            Draw::Bar { x, y: 6, width, .. } => Some((*x, *width)),
            _ => None,
        })
        .collect();
    assert_eq!(bars, [(4, 5), (9, 6), (15, 25)]);
    assert!(progress.render(area, CLOCK, &vec![1, 2]).is_none());
    assert!(progress.render(area, CLOCK, &vec![20, 3, 2]).is_none());
    let none = Area { height: 0, ..area };
    assert!(progress.render(none, CLOCK, &vec![]).unwrap().draws.is_empty());
}

#[test]
fn a_begun_bar_shows_a_cell_and_no_bar_overflows() {
    assert_eq!(fill_cells(0, true, 10), 1);
    assert_eq!(fill_cells(0, false, 10), 0);
    assert_eq!(fill_cells(7, true, 10), 7);
    assert_eq!(fill_cells(11, true, 10), 10);
    assert_eq!(fill_cells(0, true, 0), 0);
    assert!(is_bar_begun(PlanStepState::Completed, 0));
    assert!(is_bar_begun(PlanStepState::Running, 1));
    assert!(!is_bar_begun(PlanStepState::Running, 0));
    assert_eq!(state_tone_of(PlanStepState::Blocked), Tone::Red);
}
