//! The tool with which the Supervisor manages its plan.

use crate::model::action_fits;
use crate::plan::definition_views;
use crate::plan::stage_views;
use crate::plan::ContinuousPlanning;
use crate::plan::PlanStage;
use crate::plan::PlanStepDefinition;
use crate::plan::PlanStepState;
use crate::plan::StepView;
use crate::request::ActionView;
use crate::request::PlanAction;
use crate::request::PlanActionRequest;
use crate::runtime::Cancellation;
use crate::runtime::PlanRuntime;
use crate::runtime::RuntimeError;
use crate::runtime::RuntimeView;
use crate::supervisor_state::noted;
use crate::supervisor_state::StateView;
use crate::text::blank;
use crate::text::byte_len;
use crate::text::char_byte_count;
use crate::text::char_bytes;
use crate::text::clip;
use crate::text::clip_end;
use crate::text::from_chars;
use crate::text::is_blank;
use crate::text::lemma_clip_is_longest_prefix;
use crate::text::lemma_utf8_len_at_least_chars;
use crate::text::lemma_utf8_len_concat;
use crate::text::optional_text;
use crate::text::texts;
use crate::text::to_chars;
use crate::text::utf8_len;
use vstd::prelude::*;

verus! {

/// The largest request, in bytes.
pub const MAX_REQUEST: usize = 65536;

/// The largest page of a text, in bytes.
pub const PAGE_BYTES: usize = 600;

#[derive(Debug)]
pub enum SupervisorAction {
    Read { offset: usize },
    Evidence { offset: usize },
    Inspect { query: Option<String>, offset: usize },
    Remember { text: String },
    Create {
        version: i64,
        objective: String,
        acceptance: String,
        stages: Vec<PlanStage>,
        steps: Vec<PlanStepDefinition>,
    },
    Revise {
        version: i64,
        stages: Vec<PlanStage>,
        steps: Vec<PlanStepDefinition>,
        reason: String,
    },
    Select { version: i64, step_id: String },
    Pause { reason: String },
    Resume {  },
    Replace {  },
    Budget { tokens: Option<i64> },
    Accept { version: i64, step_id: String, evidence: Vec<String> },
    Cancel { version: i64, step_id: String, reason: String },
}

/// A part of a text, and where the next part begins.
#[derive(Debug, PartialEq, Eq)]
pub struct Page {
    pub text: String,
    pub next_offset: Option<usize>,
}

pub struct PageView {
    pub text: Seq<char>,
    pub next_offset: Option<int>,
}

impl View for Page {
    type V = PageView;

    open spec fn view(&self) -> PageView {
        PageView {
            text: self.text@,
            next_offset: match self.next_offset {
                Some(offset) => Some(offset as int),
                None => None,
            },
        }
    }
}

/// How many characters make up the first `offset` bytes, where no character is split there.
pub open spec fn chars_before(s: Seq<char>, offset: int) -> Option<int>
    decreases s.len(),
{
    if offset == 0 {
        Some(0)
    } else if s.len() == 0 || offset < char_bytes(s[0]) {
        None
    } else {
        match chars_before(s.drop_first(), offset - char_bytes(s[0])) {
            Some(n) => Some(n + 1),
            None => None,
        }
    }
}

/// The page of a text at a byte offset.
pub open spec fn page_at(s: Seq<char>, offset: int) -> Result<PageView, RuntimeError> {
    match chars_before(s, offset) {
        None => Err(RuntimeError::PageOffset),
        Some(n) => {
            let text = clip(s.skip(n), PAGE_BYTES as int);
            Ok(
                PageView {
                    text,
                    next_offset: if n + text.len() < s.len() {
                        Some(offset + utf8_len(text))
                    } else {
                        None
                    },
                },
            )
        },
    }
}

pub proof fn lemma_chars_before(s: Seq<char>, offset: int)
    requires
        offset >= 0,
    ensures
        chars_before(s, offset) matches Some(n) ==> 0 <= n <= s.len() && utf8_len(s.take(n))
            == offset,
        chars_before(s, offset) is None ==> forall|n: int|
            0 <= n <= s.len() ==> utf8_len(#[trigger] s.take(n)) != offset,
    decreases s.len(),
{
    assert(s.take(0) =~= Seq::<char>::empty());
    if offset != 0 && s.len() > 0 && offset >= char_bytes(s[0]) {
        let rest = s.drop_first();
        let left = offset - char_bytes(s[0]);
        lemma_chars_before(rest, left);
        if let Some(n) = chars_before(rest, left) {
            assert(s.take(n + 1).drop_first() =~= rest.take(n));
        }
        assert forall|n: int| 0 < n <= s.len() implies utf8_len(#[trigger] s.take(n))
            == char_bytes(s[0]) + utf8_len(rest.take(n - 1)) by {
            assert(s.take(n).drop_first() =~= rest.take(n - 1));
        }
    } else if offset != 0 && s.len() > 0 {
        assert forall|n: int| 0 <= n <= s.len() implies utf8_len(#[trigger] s.take(n))
            != offset by {
            if n > 0 {
                assert(s.take(n)[0] == s[0]);
            }
        }
    }
}

fn count_before(chars: &Vec<char>, offset: usize) -> (found: Option<usize>)
    ensures
        (match found {
            Some(n) => Some(n as int),
            None => None,
        }) == chars_before(chars@, offset as int),
        found matches Some(n) ==> n <= chars@.len(),
{
    let mut n: usize = 0;
    let mut left: usize = offset;
    assert(chars@.skip(0) =~= chars@);
    while left > 0
        invariant
            n <= chars@.len(),
            chars_before(chars@, offset as int) == (match chars_before(
                chars@.skip(n as int),
                left as int,
            ) {
                Some(m) => Some(m + n),
                None => None,
            }),
        decreases left,
    {
        if n == chars.len() {
            return None;
        }
        assert(chars@.skip(n as int)[0] == chars@[n as int]);
        assert(chars@.skip(n as int).drop_first() =~= chars@.skip(n + 1));
        let size: usize = char_byte_count(chars[n]);
        if left < size {
            return None;
        }
        left = left - size;
        n += 1;
    }
    Some(n)
}

/// The page of a text at a byte offset.
pub fn page(text: &str, offset: usize) -> (result: Result<Page, RuntimeError>)
    ensures
        (match result {
            Ok(page) => Ok::<PageView, RuntimeError>(page@),
            Err(error) => Err(error),
        }) == page_at(text@, offset as int),
{
    let chars = to_chars(text);
    match count_before(&chars, offset) {
        None => Err(RuntimeError::PageOffset),
        Some(n) => {
            proof {
                lemma_chars_before(text@, offset as int);
                lemma_clip_is_longest_prefix(text@.skip(n as int), PAGE_BYTES as int);
            }
            let end: usize = clip_end(&chars, n, PAGE_BYTES);
            let part = from_chars(&chars, n, end);
            let ghost rest = text@.skip(n as int);
            assert(part@ =~= clip(rest, PAGE_BYTES as int));
            let next_offset = if end < chars.len() {
                proof {
                    assert(text@.take(n as int) + part@ =~= text@.take(end as int));
                    lemma_utf8_len_concat(text@.take(n as int), part@);
                    lemma_utf8_len_concat(text@.take(end as int), text@.skip(end as int));
                    assert(text@.take(end as int) + text@.skip(end as int) =~= text@);
                }
                let whole: usize = byte_len(text);
                let size: usize = byte_len(part.as_str());
                assert(offset + size <= whole);
                Some(offset + size)
            } else {
                None
            };
            Ok(Page { text: part, next_offset })
        },
    }
}

/// A page at an offset that another page named continues where that one ended, is bounded, and
/// is not empty: reading from page to page gives the whole text.
pub proof fn law_pages_cover_the_text(s: Seq<char>, offset: int)
    requires
        offset >= 0,
        page_at(s, offset) is Ok,
    ensures
        ({
            let page = page_at(s, offset)->Ok_0;
            let n = chars_before(s, offset)->0;
            &&& utf8_len(page.text) <= PAGE_BYTES
            &&& page.text == s.subrange(n, n + page.text.len())
            &&& n < s.len() ==> page.text.len() > 0
            &&& page.next_offset is None ==> n + page.text.len() == s.len()
            &&& page.next_offset matches Some(next) ==> {
                &&& next > offset
                &&& page_at(s, next) is Ok
                &&& chars_before(s, next) == Some((n + page.text.len()) as int)
            }
        }),
{
    lemma_chars_before(s, offset);
    let n = chars_before(s, offset)->0;
    let rest = s.skip(n);
    let text = clip(rest, PAGE_BYTES as int);
    lemma_clip_is_longest_prefix(rest, PAGE_BYTES as int);
    assert(text =~= s.subrange(n, n + text.len()));
    if n < s.len() {
        assert(char_bytes(rest[0]) <= 4);
        assert(text.len() > 0);
        lemma_utf8_len_at_least_chars(text);
        let m = n + text.len();
        assert(s.take(n) + text =~= s.take(m));
        lemma_utf8_len_concat(s.take(n), text);
        let next = offset + utf8_len(text);
        lemma_chars_before(s, next);
        assert(utf8_len(s.take(m)) == next);
        let found = chars_before(s, next)->0;
        lemma_same_prefix(s, found, m);
    }
}

pub proof fn lemma_same_prefix(s: Seq<char>, a: int, b: int)
    requires
        0 <= a <= s.len(),
        0 <= b <= s.len(),
        utf8_len(s.take(a)) == utf8_len(s.take(b)),
    ensures
        a == b,
{
    if a < b {
        assert(s.take(b) =~= s.take(a) + s.subrange(a, b));
        lemma_utf8_len_concat(s.take(a), s.subrange(a, b));
        lemma_utf8_len_at_least_chars(s.subrange(a, b));
    } else if b < a {
        assert(s.take(a) =~= s.take(b) + s.subrange(b, a));
        lemma_utf8_len_concat(s.take(b), s.subrange(b, a));
        lemma_utf8_len_at_least_chars(s.subrange(b, a));
    }
}

/// Whether a request is small enough to be read.
pub fn check_request(arguments: &str) -> (result: Result<(), RuntimeError>)
    ensures
        result == (if utf8_len(arguments@) > MAX_REQUEST {
            Err::<(), RuntimeError>(RuntimeError::RequestTooLarge)
        } else {
            Ok(())
        }),
{
    if byte_len(arguments) > MAX_REQUEST {
        Err(RuntimeError::RequestTooLarge)
    } else {
        Ok(())
    }
}

/// What an accepted request asks of the host.
#[derive(Debug)]
pub enum ToolStep {
    /// Show the plan and the state from an offset; without a plan, the goal of an earlier kind of
    /// task too.
    Read { offset: usize, with_goal: bool },
    /// Read the evidence and show its first page.
    Evidence,
    /// Show a page.
    Page { page: Page },
    /// Search the Implementer's history.
    Inspect { query: Option<String>, offset: usize },
    /// Store a revision and commit it.
    Store { plan: ContinuousPlanning },
    /// Save the state.
    Save,
    /// Interrupt the Implementer where there is one, then freeze the plan.
    Suspend { interrupt: bool },
    /// Interrupt and shut down the Implementer where there is one, freeze the plan, and make a
    /// new Implementer resident.
    Replace { interrupt: bool },
    /// Interrupt the Implementer where that is asked for, then store the revision.
    Cancel { cancellation: Cancellation },
    /// Nothing: the plan is as it was.
    Nothing,
}

/// An unfinished step in the reply to a request.
#[derive(Debug, PartialEq, Eq)]
pub struct StepSummary {
    pub id: String,
    pub state: PlanStepState,
}

/// The reply to a request that changed something: the version and what is to be done next.
#[derive(Debug, PartialEq, Eq)]
pub struct PlanSummary {
    pub version: i64,
    pub steps: Vec<StepSummary>,
}

pub struct StepSummaryView {
    pub id: Seq<char>,
    pub state: PlanStepState,
}

impl View for StepSummary {
    type V = StepSummaryView;

    open spec fn view(&self) -> StepSummaryView {
        StepSummaryView { id: self.id@, state: self.state }
    }
}

pub open spec fn summary_views(steps: Seq<StepSummary>) -> Seq<StepSummaryView> {
    steps.map_values(|step: StepSummary| step@)
}

/// The unfinished steps, in order.
pub open spec fn unfinished(steps: Seq<StepView>) -> Seq<StepSummaryView>
    decreases steps.len(),
{
    if steps.len() == 0 {
        Seq::empty()
    } else if steps.last().state.finished() {
        unfinished(steps.drop_last())
    } else {
        unfinished(steps.drop_last()).push(
            StepSummaryView { id: steps.last().definition.id, state: steps.last().state },
        )
    }
}

/// The first three of some steps.
pub open spec fn first_three(steps: Seq<StepSummaryView>) -> Seq<StepSummaryView> {
    if steps.len() <= 3 {
        steps
    } else {
        steps.take(3)
    }
}

proof fn lemma_unfinished_grows(steps: Seq<StepView>, i: int)
    requires
        0 <= i <= steps.len(),
    ensures
        unfinished(steps.take(i)).len() <= unfinished(steps).len(),
        unfinished(steps).take(unfinished(steps.take(i)).len() as int) == unfinished(
            steps.take(i),
        ),
    decreases steps.len() - i,
{
    if i < steps.len() {
        lemma_unfinished_grows(steps, i + 1);
        let more = unfinished(steps.take(i + 1));
        let less = unfinished(steps.take(i));
        assert(steps.take(i + 1).drop_last() =~= steps.take(i));
        assert(more.take(less.len() as int) =~= less);
        assert(unfinished(steps).take(less.len() as int) =~= unfinished(steps).take(
            more.len() as int,
        ).take(less.len() as int));
    } else {
        assert(steps.take(i) =~= steps);
        assert(unfinished(steps).take(unfinished(steps).len() as int) =~= unfinished(steps));
    }
}

/// What a tool call knows of the host: the clock, the identity for a new plan, and whether the
/// Implementer is running.
pub struct ToolContext {
    pub now: i64,
    pub id: String,
    pub implementer_running: bool,
}

impl SupervisorAction {
    /// The plan operation that an action stands for.
    pub open spec fn plan_action(self) -> Option<(int, ActionView)> {
        match self {
            SupervisorAction::Create { version, objective, acceptance, stages, steps } => Some(
                (
                    version as int,
                    ActionView::Create {
                        objective: objective@,
                        acceptance: acceptance@,
                        stages: stage_views(stages@),
                        steps: definition_views(steps@),
                    },
                ),
            ),
            SupervisorAction::Revise { version, stages, steps, reason } => Some(
                (
                    version as int,
                    ActionView::Revise {
                        stages: stage_views(stages@),
                        steps: definition_views(steps@),
                        reason: reason@,
                    },
                ),
            ),
            SupervisorAction::Select { version, step_id } => Some(
                (version as int, ActionView::Start { step_id: step_id@ }),
            ),
            SupervisorAction::Cancel { version, step_id, reason } => Some(
                (version as int, ActionView::Cancel { step_id: step_id@, reason: reason@ }),
            ),
            _ => None,
        }
    }

    /// The arithmetic that an action asks for stays in range.
    pub open spec fn fits(self, runtime: RuntimeView, context: ToolContext) -> bool {
        &&& runtime.state.revision < i64::MAX
        &&& self.plan_action() matches Some((version, action)) ==> action_fits(
            runtime.plan,
            version,
            action,
            runtime.thread_id,
            context.now as int,
            if self is Select || self is Cancel {
                Seq::empty()
            } else {
                context.id@
            },
        )
        &&& self matches SupervisorAction::Accept { version, step_id, evidence }
            ==> runtime.accept_fits(step_id@, texts(evidence@), context.now as int)
    }
}

/// What a request leads to: the error it is refused with, or the step that the host performs
/// and the runtime that it performs it on.
pub open spec fn executed(
    action: SupervisorAction,
    before: RuntimeView,
    context: ToolContext,
    result: Result<ToolStep, RuntimeError>,
    after: RuntimeView,
) -> bool {
    let now = context.now as int;
    if before.restore_error is Some {
        result == Err::<ToolStep, RuntimeError>(RuntimeError::Restore) && after == before
    } else {
        match action {
            SupervisorAction::Read { offset } => after == before && result == Ok::<
                ToolStep,
                RuntimeError,
            >(ToolStep::Read { offset, with_goal: before.plan is None }),
            SupervisorAction::Evidence { offset } => after == before && (if offset == 0 {
                result == Ok::<ToolStep, RuntimeError>(ToolStep::Evidence)
            } else {
                match before.evidence_review {
                    None => result == Err::<ToolStep, RuntimeError>(RuntimeError::EvidenceOffset),
                    Some((_, text)) => match page_at(text, offset as int) {
                        Err(error) => result == Err::<ToolStep, RuntimeError>(error),
                        Ok(expected) => result matches Ok(ToolStep::Page { page }) && page@
                            == expected,
                    },
                }
            }),
            SupervisorAction::Inspect { query, offset } => after == before && (
            result matches Ok(ToolStep::Inspect { query: asked, offset: from }) && from == offset
                && optional_text(asked) == optional_text(query)),
            SupervisorAction::Remember { text } => result == Ok::<ToolStep, RuntimeError>(
                ToolStep::Save,
            ) && after == before.remembering(text@, now),
            SupervisorAction::Create { .. } | SupervisorAction::Revise { .. } => {
                let (version, operation) = action.plan_action()->0;
                after == before && match before.updated_plan(version, operation, now, context.id@) {
                    Err(error) => result == Err::<ToolStep, RuntimeError>(error),
                    Ok(next) => if before.plan is None || before.plan->0.version != next.version {
                        result matches Ok(ToolStep::Store { plan }) && plan@ == next
                    } else {
                        result == Ok::<ToolStep, RuntimeError>(ToolStep::Nothing)
                    },
                }
            },
            SupervisorAction::Select { version, step_id } => match before.selected(
                version as int,
                step_id@,
                context.implementer_running,
                now,
            ) {
                Err(error) => result == Err::<ToolStep, RuntimeError>(error) && after == before,
                Ok(next) => result == Ok::<ToolStep, RuntimeError>(ToolStep::Save) && after
                    == next,
            },
            SupervisorAction::Pause { reason } => if blank(reason@) {
                result == Err::<ToolStep, RuntimeError>(RuntimeError::UnexplainedPause) && after
                    == before
            } else {
                result == Ok::<ToolStep, RuntimeError>(
                    ToolStep::Suspend { interrupt: before.implementer is Some },
                ) && after == (RuntimeView { active: false, ..before })
            },
            SupervisorAction::Resume {  } => match before.resumed(now) {
                Err(error) => result == Err::<ToolStep, RuntimeError>(error) && after == before,
                Ok(next) => result == Ok::<ToolStep, RuntimeError>(ToolStep::Save) && after
                    == next,
            },
            SupervisorAction::Replace {  } => result == Ok::<ToolStep, RuntimeError>(
                ToolStep::Replace { interrupt: before.implementer is Some },
            ) && after == (RuntimeView { active: false, ..before }),
            SupervisorAction::Budget { tokens } => if tokens matches Some(n) && n <= 0 {
                result == Err::<ToolStep, RuntimeError>(RuntimeError::InvalidBudget) && after
                    == before
            } else {
                result == Ok::<ToolStep, RuntimeError>(ToolStep::Save) && after == RuntimeView {
                    state: StateView {
                        token_budget: crate::plan::optional_int(tokens),
                        ..before.state
                    },
                    ..before
                }.stamped(now)
            },
            SupervisorAction::Accept { version, step_id, evidence } => after == before
                && match before.accepted(
                version as int,
                step_id@,
                texts(evidence@),
                context.implementer_running,
                now,
            ) {
                Err(error) => result == Err::<ToolStep, RuntimeError>(error),
                Ok(next) => result matches Ok(ToolStep::Store { plan }) && plan@ == next,
            },
            SupervisorAction::Cancel { version, step_id, reason } => match before.cancelled_plan(
                version as int,
                step_id@,
                reason@,
                now,
            ) {
                Err(error) => result == Err::<ToolStep, RuntimeError>(error) && after == before,
                Ok(next) => result matches Ok(ToolStep::Cancel { cancellation }) && {
                    &&& cancellation.plan@ == next
                    &&& cancellation.selected == (before.state.step_id == Some(step_id@))
                    &&& cancellation.interrupt == (cancellation.selected
                        && before.implementer is Some)
                    &&& after == (if cancellation.selected {
                        RuntimeView { active: false, ..before }
                    } else {
                        before
                    })
                },
            },
        }
    }
}

impl RuntimeView {
    /// The runtime once a note was kept.
    pub open spec fn remembering(self, text: Seq<char>, now: int) -> RuntimeView {
        RuntimeView {
            state: StateView { memory: noted(self.state.memory, text), ..self.state },
            ..self
        }.stamped(now)
    }
}

impl PlanRuntime {
    /// Keeps a note in the bounded memory of the task; the host then saves the state.
    pub fn remember(&mut self, text: String, now: i64)
        requires
            old(self)@.state.revision < i64::MAX,
        ensures
            final(self)@ == old(self)@.remembering(text@, now as int),
    {
        self.state.note(text.as_str());
        self.save_state(now);
    }

    fn store_update(&self, version: i64, operation: PlanAction, context: &ToolContext) -> (result:
        Result<ToolStep, RuntimeError>)
        requires
            action_fits(
                self@.plan,
                version as int,
                operation@,
                self@.thread_id,
                context.now as int,
                context.id@,
            ),
        ensures
            match self@.updated_plan(
                version as int,
                operation@,
                context.now as int,
                context.id@,
            ) {
                Err(error) => result == Err::<ToolStep, RuntimeError>(error),
                Ok(next) => if self@.plan is None || self@.plan->0.version != next.version {
                    result matches Ok(ToolStep::Store { plan }) && plan@ == next
                } else {
                    result == Ok::<ToolStep, RuntimeError>(ToolStep::Nothing)
                },
            },
    {
        let request = PlanActionRequest { version, operation };
        match self.update_plan(request, context.now, context.id.as_str()) {
            Err(error) => Err(error),
            Ok(update) => if update.changed {
                Ok(ToolStep::Store { plan: update.plan })
            } else {
                Ok(ToolStep::Nothing)
            },
        }
    }

    /// Performs one request of the Supervisor as far as the runtime goes.
    pub fn execute(&mut self, action: SupervisorAction, context: &ToolContext) -> (result: Result<
        ToolStep,
        RuntimeError,
    >)
        requires
            action.fits(old(self)@, *context),
        ensures
            executed(action, old(self)@, *context, result, final(self)@),
    {
        if self.restore_error.is_some() {
            return Err(RuntimeError::Restore);
        }
        match action {
            SupervisorAction::Read { offset } => Ok(
                ToolStep::Read { offset, with_goal: self.plan.is_none() },
            ),
            SupervisorAction::Evidence { offset } => {
                if offset == 0 {
                    return Ok(ToolStep::Evidence);
                }
                match &self.evidence_review {
                    None => Err(RuntimeError::EvidenceOffset),
                    Some((_, text)) => match page(text.as_str(), offset) {
                        Err(error) => Err(error),
                        Ok(page) => Ok(ToolStep::Page { page }),
                    },
                }
            },
            SupervisorAction::Inspect { query, offset } => Ok(ToolStep::Inspect { query, offset }),
            SupervisorAction::Remember { text } => {
                self.remember(text, context.now);
                Ok(ToolStep::Save)
            },
            SupervisorAction::Create { version, objective, acceptance, stages, steps } => {
                self.store_update(
                    version,
                    PlanAction::Create { objective, acceptance, stages, steps },
                    context,
                )
            },
            SupervisorAction::Revise { version, stages, steps, reason } => self.store_update(
                version,
                PlanAction::Revise { stages, steps, reason },
                context,
            ),
            SupervisorAction::Select { version, step_id } => match self.select(
                version,
                step_id,
                context.implementer_running,
                context.now,
            ) {
                Err(error) => Err(error),
                Ok(()) => Ok(ToolStep::Save),
            },
            SupervisorAction::Pause { reason } => {
                if is_blank(reason.as_str()) {
                    return Err(RuntimeError::UnexplainedPause);
                }
                match self.suspend() {
                    Err(error) => Err(error),
                    Ok(interrupt) => Ok(ToolStep::Suspend { interrupt }),
                }
            },
            SupervisorAction::Resume {  } => match self.resume(context.now) {
                Err(error) => Err(error),
                Ok(()) => Ok(ToolStep::Save),
            },
            SupervisorAction::Replace {  } => Ok(ToolStep::Replace { interrupt: self.replace() }),
            SupervisorAction::Budget { tokens } => {
                match tokens {
                    Some(limit) => {
                        if limit <= 0 {
                            return Err(RuntimeError::InvalidBudget);
                        }
                    },
                    None => {},
                }
                self.state.token_budget = tokens;
                self.save_state(context.now);
                Ok(ToolStep::Save)
            },
            SupervisorAction::Accept { version, step_id, evidence } => match self.accept(
                version,
                &step_id,
                &evidence,
                context.implementer_running,
                context.now,
            ) {
                Err(error) => Err(error),
                Ok(plan) => Ok(ToolStep::Store { plan }),
            },
            SupervisorAction::Cancel { version, step_id, reason } => match self.cancel(
                version,
                step_id,
                reason,
                context.now,
            ) {
                Err(error) => Err(error),
                Ok(cancellation) => Ok(ToolStep::Cancel { cancellation }),
            },
        }
    }

    /// The reply to a request that changed something.
    pub fn summary(&self) -> (summary: Option<PlanSummary>)
        ensures
            match self@.plan {
                None => summary is None,
                Some(plan) => summary matches Some(summary) && summary.version == plan.version
                    && summary_views(summary.steps@) == first_three(unfinished(plan.steps)),
            },
    {
        match &self.plan {
            None => None,
            Some(plan) => {
                let ghost views = plan@.steps;
                let mut steps: Vec<StepSummary> = Vec::new();
                let mut i: usize = 0;
                assert(views.take(0) =~= Seq::empty());
                assert(summary_views(steps@) =~= Seq::empty());
                while i < plan.steps.len() && steps.len() < 3
                    invariant
                        i <= plan.steps@.len(),
                        views == plan@.steps,
                        steps@.len() <= 3,
                        summary_views(steps@) == unfinished(views.take(i as int)),
                    decreases plan.steps.len() - i,
                {
                    assert(views.take(i + 1).drop_last() =~= views.take(i as int));
                    assert(views.take(i + 1).last() == plan.steps@[i as int]@);
                    if !plan.steps[i].state.is_finished() {
                        let ghost before = steps@;
                        let step = StepSummary {
                            id: plan.steps[i].definition.id.clone(),
                            state: plan.steps[i].state,
                        };
                        let ghost view = step@;
                        steps.push(step);
                        assert(summary_views(steps@) =~= summary_views(before).push(view));
                    }
                    i += 1;
                }
                proof {
                    lemma_unfinished_grows(views, i as int);
                    assert(summary_views(steps@).len() == steps@.len());
                    if i == views.len() {
                        assert(views.take(i as int) =~= views);
                        assert(unfinished(views).take(3) =~= unfinished(views)
                            || unfinished(views).len() != 3);
                    }
                    if unfinished(views).len() == 3 {
                        assert(unfinished(views).take(3) =~= unfinished(views));
                    }
                }
                Some(PlanSummary { version: plan.version, steps })
            },
        }
    }
}

} // verus!
