//! The task list below a conversation: which keys are for it, and the details it opens.

use crate::display::lines_of;
use crate::display::wrap_text;
use crate::display::wrapped_lines;
use crate::plan::ContinuousPlanning;
use crate::plan::PlanStepState;
use crate::plan::PlanView;
use crate::progress::stage_details;
use crate::progress::stamps_of;
use crate::progress::step_details;
use crate::progress::ListAction;
use crate::progress::PlanProgress;
use crate::progress::ProgressView;
use crate::progress::StampsView;
use crate::progress::ViewportView;
use crate::protocol::ThreadSupervisorUpdatedNotification;
use crate::supervisor_state::SupervisorState;
use crate::text::joined;
use crate::text::same_text;
use vstd::prelude::*;

verus! {

/// The task list of a conversation, where it has a plan.
#[derive(Debug, PartialEq, Eq)]
pub struct PlanPane {
    pub progress: Option<PlanProgress>,
}

pub open spec fn pane_view(progress: Option<PlanProgress>) -> Option<ProgressView> {
    match progress {
        Some(progress) => Some(progress@),
        None => None,
    }
}

/// A key as the plan's bindings read it.
#[derive(Clone, Copy, Debug, PartialEq, Eq, Structural)]
pub struct PlanKey {
    /// Something above the list takes the keys: a dialog, a popup or questions.
    pub covered: bool,
    pub ctrl_c: bool,
    pub focus_plan: bool,
    pub action: Option<ListAction>,
    /// A press, as opposed to a repetition or a release.
    pub press: bool,
}

/// What a key did: whether it was for the list, and the details it opened.
#[derive(Debug, PartialEq, Eq)]
pub struct KeyOutcome {
    pub handled: bool,
    pub details: Option<String>,
}

impl PlanView {
    /// Whether a step runs or waits for its review.
    pub open spec fn in_progress(self) -> bool {
        exists|i: int|
            0 <= i < self.steps.len() && ((#[trigger] self.steps[i]).state
                == PlanStepState::Running || self.steps[i].state == PlanStepState::Reviewing)
    }
}

impl ContinuousPlanning {
    pub fn is_in_progress(&self) -> (yes: bool)
        ensures
            yes == self@.in_progress(),
    {
        let mut i: usize = 0;
        while i < self.steps.len()
            invariant
                i <= self.steps@.len(),
                forall|k: int|
                    0 <= k < i ==> (#[trigger] self@.steps[k]).state != PlanStepState::Running
                        && self@.steps[k].state != PlanStepState::Reviewing,
            decreases self.steps.len() - i,
        {
            assert(self@.steps[i as int] == self.steps@[i as int]@);
            if self.steps[i].state == PlanStepState::Running || self.steps[i].state
                == PlanStepState::Reviewing {
                return true;
            }
            i += 1;
        }
        false
    }
}

/// Whether a text is the details of a list's selected row.
pub open spec fn details_of(progress: PlanProgress, clock: u64, text: Seq<char>) -> bool {
    let now = progress@.timestamp(clock as int);
    match progress@.detailed(now) {
        None => text == progress@.plan.reason,
        Some(row) => {
            let entry = progress@.plan.entries(now)[row];
            match entry.step {
                None => text == stage_details(progress@.plan, entry),
                Some(i) => exists|stamps: StampsView| #[trigger]
                    stamps_of(progress.plan, i, now, stamps) && text == step_details(
                        progress@.plan,
                        i,
                        now,
                        stamps,
                    ),
            }
        },
    }
}

impl PlanPane {
    /// Shows a plan, or a newer revision of the one that is shown.
    pub fn update_timed_plan(
        &mut self,
        plan: ContinuousPlanning,
        coordinator: String,
        observed_at: i64,
        received: u64,
    )
        ensures
            pane_view(final(self).progress) == Some(
                match pane_view(old(self).progress) {
                    Some(progress) => progress.updated(
                        plan@,
                        observed_at as int,
                        received as int,
                    ),
                    None => ProgressView {
                        plan: plan@,
                        observed_at: observed_at as int,
                        received: received as int,
                        view: ViewportView::fresh(),
                    },
                },
            ),
    {
        let mut progress: Option<PlanProgress> = None;
        std::mem::swap(&mut progress, &mut self.progress);
        match progress {
            Some(progress) => {
                let mut progress = progress;
                progress.update(plan, observed_at, received);
                self.progress = Some(progress);
            },
            None => {
                self.progress = Some(PlanProgress::new(plan, coordinator, observed_at, received));
            },
        }
    }

    /// Whether the list asks for any line.
    pub fn has_timed_plan(&self, clock: u64) -> (yes: bool)
        requires
            self.progress matches Some(progress) ==> progress@.plan.sums_fit(
                progress@.timestamp(clock as int),
            ),
        ensures
            yes == (self.progress matches Some(progress) && progress@.desired_height(
                progress@.timestamp(clock as int),
                1,
            ) > 0),
    {
        match &self.progress {
            Some(progress) => progress.desired_height(1, clock) > 0,
            None => false,
        }
    }

    /// Whether a step runs or waits for its review.
    pub fn has_active_timed_plan(&self) -> (yes: bool)
        ensures
            yes == (self.progress matches Some(progress) && progress@.plan.in_progress()),
    {
        match &self.progress {
            Some(progress) => progress.plan.is_in_progress(),
            None => false,
        }
    }

    /// Handles a key. One key moves the focus to the list and back; with the focus, the list is
    /// moved through and opens the details of a row.
    pub fn handle_plan_key(&mut self, key: PlanKey, clock: u64) -> (outcome: KeyOutcome)
        requires
            old(self).progress matches Some(progress) ==> progress@.fits(
                progress@.timestamp(clock as int),
            ),
        ensures
            match old(self).progress {
                None => !outcome.handled && outcome.details is None && final(self).progress is None,
                Some(progress) => {
                    let after = pane_view(final(self).progress);
                    if key.covered || key.ctrl_c {
                        !outcome.handled && outcome.details is None && after == Some(progress@)
                    } else if key.focus_plan {
                        outcome.handled && outcome.details is None && after == Some(
                            ProgressView {
                                view: ViewportView {
                                    focused: !progress@.view.focused,
                                    ..progress@.view
                                },
                                ..progress@
                            },
                        )
                    } else if progress@.view.focused && key.action == Some(ListAction::Accept)
                        && key.press {
                        outcome.handled && after == Some(progress@) && (
                        outcome.details matches Some(text) && details_of(progress, clock, text@))
                    } else {
                        match key.action {
                            None => !outcome.handled && outcome.details is None && after == Some(
                                progress@,
                            ),
                            Some(action) => (after, outcome.handled) == (
                                Some(progress@.acted(action).0),
                                progress@.acted(action).1,
                            ) && outcome.details is None,
                        }
                    }
                },
            },
    {
        if key.covered || key.ctrl_c || self.progress.is_none() {
            return KeyOutcome { handled: false, details: None };
        }
        let mut progress: Option<PlanProgress> = None;
        std::mem::swap(&mut progress, &mut self.progress);
        match progress {
            None => KeyOutcome { handled: false, details: None },
            Some(progress) => {
                let mut progress = progress;
                let outcome = if key.focus_plan {
                    progress.toggle_focus();
                    KeyOutcome { handled: true, details: None }
                } else if progress.focused() && key.press && matches!(
                    key.action,
                    Some(ListAction::Accept)
                ) {
                    KeyOutcome { handled: true, details: Some(progress.details(clock)) }
                } else {
                    match key.action {
                        None => KeyOutcome { handled: false, details: None },
                        Some(action) => {
                            let handled = progress.handle_action(action);
                            KeyOutcome { handled, details: None }
                        },
                    }
                };
                self.progress = Some(progress);
                outcome
            },
        }
    }
}

/// A key of the terminal, as far as the details of a row tell keys apart.
#[derive(Clone, Copy, Debug, PartialEq, Eq, Structural)]
pub enum KeyCode {
    Esc,
    Enter,
    Down,
    PageDown,
    Up,
    PageUp,
    Other,
}

/// A key in the details of a row.
#[derive(Clone, Copy, Debug, PartialEq, Eq, Structural)]
pub enum DetailKey {
    Close,
    Down,
    Up,
    Other,
}

impl DetailKey {
    /// What a key does in the details: Escape and Enter close them, Down and Page Down scroll
    /// down, Up and Page Up scroll up, and no other key does anything.
    pub open spec fn bound(code: KeyCode) -> DetailKey {
        match code {
            KeyCode::Esc | KeyCode::Enter => DetailKey::Close,
            KeyCode::Down | KeyCode::PageDown => DetailKey::Down,
            KeyCode::Up | KeyCode::PageUp => DetailKey::Up,
            KeyCode::Other => DetailKey::Other,
        }
    }

    pub fn from_code(code: KeyCode) -> (key: Self)
        ensures
            key == DetailKey::bound(code),
    {
        match code {
            KeyCode::Esc | KeyCode::Enter => DetailKey::Close,
            KeyCode::Down | KeyCode::PageDown => DetailKey::Down,
            KeyCode::Up | KeyCode::PageUp => DetailKey::Up,
            KeyCode::Other => DetailKey::Other,
        }
    }
}

/// The details of a row, on top of the list.
#[derive(Debug, PartialEq, Eq)]
pub struct PlanDetail {
    pub text: String,
    pub done: bool,
    pub scroll: u16,
}

impl PlanDetail {
    pub fn new(text: String) -> (detail: Self)
        ensures
            detail.text@ == text@,
            !detail.done,
            detail.scroll == 0,
    {
        PlanDetail { text, done: false, scroll: 0 }
    }

    /// Handles a key of the terminal.
    pub fn handle_key_event(&mut self, code: KeyCode)
        ensures
            final(self).text@ == old(self).text@,
            final(self).done == (old(self).done || code == KeyCode::Esc || code == KeyCode::Enter),
            final(self).scroll == (match code {
                KeyCode::Down | KeyCode::PageDown => if old(self).scroll == u16::MAX {
                    u16::MAX
                } else {
                    (old(self).scroll + 1) as u16
                },
                KeyCode::Up | KeyCode::PageUp => if old(self).scroll == 0 {
                    0
                } else {
                    (old(self).scroll - 1) as u16
                },
                _ => old(self).scroll,
            }),
    {
        self.handle_key(DetailKey::from_code(code));
    }

    pub fn handle_key(&mut self, key: DetailKey)
        ensures
            final(self).text@ == old(self).text@,
            final(self).done == (old(self).done || key == DetailKey::Close),
            final(self).scroll == (match key {
                DetailKey::Down => if old(self).scroll == u16::MAX {
                    u16::MAX
                } else {
                    (old(self).scroll + 1) as u16
                },
                DetailKey::Up => if old(self).scroll == 0 {
                    0
                } else {
                    (old(self).scroll - 1) as u16
                },
                _ => old(self).scroll,
            }),
    {
        match key {
            DetailKey::Close => {
                self.done = true;
            },
            DetailKey::Down => {
                if self.scroll < u16::MAX {
                    self.scroll = self.scroll + 1;
                }
            },
            DetailKey::Up => {
                if self.scroll > 0 {
                    self.scroll = self.scroll - 1;
                }
            },
            DetailKey::Other => {},
        }
    }

    pub fn is_complete(&self) -> (yes: bool)
        ensures
            yes == self.done,
    {
        self.done
    }

    pub fn on_ctrl_c(&mut self)
        ensures
            final(self).done,
            final(self).text@ == old(self).text@,
            final(self).scroll == old(self).scroll,
    {
        self.done = true;
    }

    /// The lines that the details ask for.
    pub fn desired_height(&self, _width: u16) -> (height: u16)
        ensures
            height == 10,
    {
        10
    }

    /// The text wrapped to the columns that are there.
    pub fn wrapped(&self, width: u16) -> (text: String)
        ensures
            text@ == joined(
                wrapped_lines(
                    lines_of(self.text@),
                    if width == 0 {
                        1
                    } else {
                        width as nat
                    },
                ),
                "\n"@,
            ),
    {
        wrap_text(self.text.as_str(), width)
    }
}

/// What a client keeps of the supervision of its conversation.
#[derive(Debug, PartialEq, Eq)]
pub struct SupervisorUi {
    pub state: Option<SupervisorState>,
    /// The conversation is an Implementer's, which is only looked at.
    pub implementer: bool,
}

/// The hint in the input of an Implementer's conversation.
pub const READ_ONLY_HINT: &'static str = "Viewing Implementer · read only · Shift+Tab to switch conversations";

impl SupervisorUi {
    /// Takes over the role of the conversation. An Implementer's is read only, which the result
    /// says.
    pub fn set_role(&mut self, role: Option<&str>) -> (read_only: bool)
        ensures
            read_only == (role matches Some(role) && role@ == "implementer"@),
            final(self).implementer == read_only,
            final(self).state == old(self).state,
    {
        let implementer = match role {
            Some(role) => same_text(role, "implementer"),
            None => false,
        };
        self.implementer = implementer;
        implementer
    }

    pub fn enabled(&self, continuous_planning: bool) -> (yes: bool)
        ensures
            yes == (continuous_planning && !self.implementer),
    {
        continuous_planning && !self.implementer
    }

    /// Takes over a change where supervision is enabled: a state that is no older than the one
    /// that is known, and a plan for the list. The result says whether to draw again.
    pub fn on_supervisor_updated(
        &mut self,
        pane: &mut PlanPane,
        update: ThreadSupervisorUpdatedNotification,
        continuous_planning: bool,
        received: u64,
    ) -> (redraw: bool)
        ensures
            redraw == (continuous_planning && !old(self).implementer),
            final(self).implementer == old(self).implementer,
            !redraw ==> *final(self) == *old(self) && *final(pane) == *old(pane),
            redraw ==> ({
                let newer = old(self).state is None || old(self).state->0.revision
                    <= update.state.revision;
                &&& final(self).state == (if newer {
                    Some(update.state)
                } else {
                    old(self).state
                })
                &&& match update.plan {
                    None => *final(pane) == *old(pane),
                    Some(plan) => pane_view(final(pane).progress) == Some(
                        match pane_view(old(pane).progress) {
                            Some(progress) => progress.updated(
                                plan@,
                                update.observed_at as int,
                                received as int,
                            ),
                            None => ProgressView {
                                plan: plan@,
                                observed_at: update.observed_at as int,
                                received: received as int,
                                view: ViewportView::fresh(),
                            },
                        },
                    ),
                }
            }),
    {
        if !self.enabled(continuous_planning) {
            return false;
        }
        let newer = match &self.state {
            Some(state) => state.revision <= update.state.revision,
            None => true,
        };
        if newer {
            self.state = Some(update.state);
        }
        match update.plan {
            Some(plan) => {
                pane.update_timed_plan(plan, update.thread_id, update.observed_at, received);
            },
            None => {},
        }
        true
    }
}

/// Whether goals are offered: never beside continuous planning.
pub fn goals_enabled(goals: bool, continuous_planning: bool) -> (yes: bool)
    ensures
        yes == (goals && !continuous_planning),
{
    goals && !continuous_planning
}

/// A conversation that the navigator learns of.
#[derive(Clone, Copy, Debug, PartialEq, Eq, Structural)]
pub enum Discovery {
    Supervisor,
    Implementer,
}

impl Discovery {
    pub open spec fn name(self) -> Seq<char> {
        match self {
            Discovery::Supervisor => "supervisor"@,
            Discovery::Implementer => "implementer"@,
        }
    }

    /// The role under which the navigator lists the conversation.
    pub fn role(self) -> (role: &'static str)
        ensures
            role@ == self.name(),
    {
        match self {
            Discovery::Supervisor => "supervisor",
            Discovery::Implementer => "implementer",
        }
    }
}

/// Which conversations of a pair the navigator does not know yet. For each of the two, nothing
/// stands for an ID that names no conversation; without a Supervisor nothing is learnt. Where both
/// are the same conversation, it is the Supervisor's.
pub fn discovered_conversations(
    supervisor_known: Option<bool>,
    implementer_known: Option<bool>,
    same: bool,
) -> (found: Vec<Discovery>)
    ensures
        found@ == (match supervisor_known {
            None => Seq::empty(),
            Some(known) => (if known {
                Seq::empty()
            } else {
                seq![Discovery::Supervisor]
            }) + (if implementer_known == Some(false) && !same {
                seq![Discovery::Implementer]
            } else {
                Seq::empty()
            }),
        }),
{
    let mut found: Vec<Discovery> = Vec::new();
    match supervisor_known {
        None => {
            return found;
        },
        Some(known) => {
            if !known {
                found.push(Discovery::Supervisor);
            }
        },
    }
    match implementer_known {
        Some(known) => {
            if !known && !same {
                found.push(Discovery::Implementer);
            }
        },
        None => {},
    }
    assert(found@ =~= (match supervisor_known {
        None => Seq::empty(),
        Some(known) => (if known {
            Seq::empty()
        } else {
            seq![Discovery::Supervisor]
        }) + (if implementer_known == Some(false) && !same {
            seq![Discovery::Implementer]
        } else {
            Seq::empty()
        }),
    }));
    found
}

} // verus!
