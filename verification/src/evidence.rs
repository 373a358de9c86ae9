//! Implementer reports are checked against host-recorded execution history.

use crate::json::json_without_key;
use crate::json::lowercase;
use crate::json::lowercase_text;
use crate::json::remove_json_key;
use crate::model::evident;
use crate::model::find_step;
use crate::model::finish_revision;
use crate::model::is_evident;
use crate::model::replace_step;
use crate::model::step_position;
use crate::plan::saturate;
use crate::plan::saturating_difference;
use crate::plan::ContinuousPlanning;
use crate::plan::PlanReviewState;
use crate::plan::PlanStepState;
use crate::plan::PlanView;
use crate::plan::StepView;
use crate::runtime::PlanRuntime;
use crate::runtime::RuntimeError;
use crate::runtime::RuntimeView;
use crate::text::byte_len;
use crate::text::join_texts;
use crate::text::joined;
use crate::text::optional_text;
use crate::text::same_text;
use crate::text::texts;
use crate::text::to_chars;
use crate::text::utf8_len;
use vstd::prelude::*;
use vstd::string::StringExecFns;

verus! {

/// The key under which the host keeps metadata that is not evidence.
pub const METADATA_KEY: &'static str = "internal_chat_message_metadata_passthrough";

/// The tool whose calls are control, not evidence.
pub const CONTROL_TOOL: &'static str = "continuous_planning";

/// The largest offset into a history.
pub const MAX_HISTORY_OFFSET: usize = 65536;

/// The largest answer to a search, in bytes and in records.
pub const MAX_HISTORY_BYTES: usize = 8192;

pub const MAX_HISTORY_RECORDS: usize = 32;

/// What a record of the Implementer's history is, as far as evidence goes.
#[derive(Debug, PartialEq, Eq)]
pub enum HistoryKind {
    FunctionCall { name: String, call_id: String },
    FunctionCallOutput { answers: Option<String> },
    CustomToolCallOutput,
    WebSearchCall,
    ImageGenerationCall,
    Message { role: String },
    Other,
}

pub enum KindView {
    FunctionCall { name: Seq<char>, call_id: Seq<char> },
    FunctionCallOutput { answers: Option<Seq<char>> },
    CustomToolCallOutput,
    WebSearchCall,
    ImageGenerationCall,
    Message { role: Seq<char> },
    Other,
}

impl View for HistoryKind {
    type V = KindView;

    open spec fn view(&self) -> KindView {
        match self {
            HistoryKind::FunctionCall { name, call_id } => KindView::FunctionCall {
                name: name@,
                call_id: call_id@,
            },
            HistoryKind::FunctionCallOutput { answers } => KindView::FunctionCallOutput {
                answers: optional_text(*answers),
            },
            HistoryKind::CustomToolCallOutput => KindView::CustomToolCallOutput,
            HistoryKind::WebSearchCall => KindView::WebSearchCall,
            HistoryKind::ImageGenerationCall => KindView::ImageGenerationCall,
            HistoryKind::Message { role } => KindView::Message { role: role@ },
            HistoryKind::Other => KindView::Other,
        }
    }
}

/// One record of the Implementer's history, with its JSON.
#[derive(Debug, PartialEq, Eq)]
pub struct HistoryItem {
    pub kind: HistoryKind,
    pub json: String,
}

pub struct HistoryView {
    pub kind: KindView,
    pub json: Seq<char>,
}

impl View for HistoryItem {
    type V = HistoryView;

    open spec fn view(&self) -> HistoryView {
        HistoryView { kind: self.kind@, json: self.json@ }
    }
}

pub open spec fn history_views(items: Seq<HistoryItem>) -> Seq<HistoryView> {
    items.map_values(|item: HistoryItem| item@)
}

/// Whether a call ID is that of a control call.
pub open spec fn control_call(items: Seq<HistoryView>, id: Seq<char>) -> bool {
    exists|i: int|
        0 <= i < items.len() && (#[trigger] items[i]).kind == (KindView::FunctionCall {
            name: CONTROL_TOOL@,
            call_id: id,
        })
}

/// Whether a record is evidence: a tool's output that is not control, or a final message.
pub open spec fn recorded(items: Seq<HistoryView>, item: HistoryView) -> bool {
    match item.kind {
        KindView::FunctionCallOutput { answers } => match answers {
            Some(id) => !control_call(items, id),
            None => true,
        },
        KindView::CustomToolCallOutput => true,
        KindView::WebSearchCall => true,
        KindView::ImageGenerationCall => true,
        KindView::Message { role } => role == "assistant"@,
        _ => false,
    }
}

/// The most recent records that are evidence, the newest first.
pub open spec fn latest_recorded(
    all: Seq<HistoryView>,
    items: Seq<HistoryView>,
    limit: int,
) -> Seq<HistoryView>
    decreases items.len(),
{
    if items.len() == 0 || limit <= 0 {
        Seq::empty()
    } else if recorded(all, items.last()) {
        seq![items.last()] + latest_recorded(all, items.drop_last(), limit - 1)
    } else {
        latest_recorded(all, items.drop_last(), limit)
    }
}

/// The most recent records of any kind, the newest first.
pub open spec fn latest_items(items: Seq<HistoryView>, limit: int) -> Seq<HistoryView>
    decreases items.len(),
{
    if items.len() == 0 || limit <= 0 {
        Seq::empty()
    } else {
        seq![items.last()] + latest_items(items.drop_last(), limit - 1)
    }
}

/// What is shown as evidence: sixteen records that are evidence, or eight of any kind where
/// there is none.
pub open spec fn evidence_items(items: Seq<HistoryView>) -> Seq<HistoryView> {
    let found = latest_recorded(items, items, 16);
    if found.len() == 0 {
        latest_items(items, 8)
    } else {
        found
    }
}

/// Records with a line feed after each.
pub open spec fn record_lines(records: Seq<Seq<char>>) -> Seq<char>
    decreases records.len(),
{
    if records.len() == 0 {
        Seq::empty()
    } else {
        (record_lines(records.drop_last()) + records.last()).push('\n')
    }
}

/// The records without their metadata, or nothing where one is not JSON.
pub open spec fn stripped(jsons: Seq<Seq<char>>) -> Option<Seq<Seq<char>>>
    decreases jsons.len(),
{
    if jsons.len() == 0 {
        Some(Seq::empty())
    } else {
        match (stripped(jsons.drop_last()), json_without_key(jsons.last(), METADATA_KEY@)) {
            (Some(before), Some(record)) => Some(before.push(record)),
            _ => None,
        }
    }
}

pub open spec fn jsons(items: Seq<HistoryView>) -> Seq<Seq<char>> {
    items.map_values(|item: HistoryView| item.json)
}

/// Where execution evidence comes from.
#[derive(Clone, Copy, Debug, PartialEq, Eq, Structural)]
pub enum EvidenceSource {
    /// The activity that the host has saved, after a sequence number.
    Saved { after: i64, limit: u32 },
    /// The history of the Implementer.
    History,
}

impl RuntimeView {
    /// The plan with one submitted step accepted, or why it cannot be.
    pub open spec fn accepted(
        self,
        version: int,
        step_id: Seq<char>,
        evidence: Seq<Seq<char>>,
        implementer_running: bool,
        now: int,
    ) -> Result<PlanView, RuntimeError> {
        if !evident(evidence) {
            Err(RuntimeError::UnboundedVerification)
        } else if self.evidence_review is None || (self.evidence_review->0).0 != version {
            Err(RuntimeError::EvidenceUnread)
        } else if self.implementer is Some && implementer_running {
            Err(RuntimeError::ImplementerUnfinished)
        } else {
            match self.plan {
                None => Err(RuntimeError::NoTask),
                Some(plan) => if plan.version != version {
                    Err(RuntimeError::StaleTask)
                } else {
                    match step_position(plan.steps, step_id) {
                        None => Err(RuntimeError::UnknownStep),
                        Some(i) => if plan.steps[i].state != PlanStepState::Reviewing
                            || plan.steps[i].evidence.len() == 0 {
                            Err(RuntimeError::NotSubmitted)
                        } else {
                            Ok(accepted_draft(plan, i, evidence, now).revised_at(now))
                        },
                    }
                },
            }
        }
    }

    /// The arithmetic of an acceptance stays in range.
    pub open spec fn accept_fits(
        self,
        step_id: Seq<char>,
        evidence: Seq<Seq<char>>,
        now: int,
    ) -> bool {
        self.plan matches Some(plan) ==> (step_position(plan.steps, step_id) matches Some(i)
            ==> accepted_draft(plan, i, evidence, now).revision_fits(now))
    }
}

/// A plan in which a step is complete, before it is timed.
pub open spec fn accepted_draft(
    plan: PlanView,
    i: int,
    evidence: Seq<Seq<char>>,
    now: int,
) -> PlanView {
    PlanView {
        steps: plan.steps.update(
            i,
            StepView {
                state: PlanStepState::Completed,
                completed_at: Some(now),
                ..plan.steps[i]
            },
        ),
        review: PlanReviewState::Idle,
        reason: joined(evidence, "\n"@),
        ..plan
    }
}

fn is_control_call(items: &Vec<HistoryItem>, id: &String) -> (yes: bool)
    ensures
        yes == control_call(history_views(items@), id@),
{
    let ghost views = history_views(items@);
    let mut i: usize = 0;
    while i < items.len()
        invariant
            i <= items@.len(),
            views == history_views(items@),
            forall|k: int|
                0 <= k < i ==> (#[trigger] views[k]).kind != (KindView::FunctionCall {
                    name: CONTROL_TOOL@,
                    call_id: id@,
                }),
        decreases items.len() - i,
    {
        assert(views[i as int] == items@[i as int]@);
        match &items[i].kind {
            HistoryKind::FunctionCall { name, call_id } => {
                if same_text(name.as_str(), CONTROL_TOOL) && *call_id == *id {
                    return true;
                }
            },
            _ => {},
        }
        i += 1;
    }
    false
}

fn is_recorded(items: &Vec<HistoryItem>, item: &HistoryItem) -> (yes: bool)
    ensures
        yes == recorded(history_views(items@), item@),
{
    match &item.kind {
        HistoryKind::FunctionCallOutput { answers } => match answers {
            Some(id) => !is_control_call(items, id),
            None => true,
        },
        HistoryKind::CustomToolCallOutput => true,
        HistoryKind::WebSearchCall => true,
        HistoryKind::ImageGenerationCall => true,
        HistoryKind::Message { role } => same_text(role.as_str(), "assistant"),
        HistoryKind::FunctionCall { .. } => false,
        HistoryKind::Other => false,
    }
}

fn latest_jsons(items: &Vec<HistoryItem>, only_recorded: bool, limit: usize) -> (found: Vec<
    String,
>)
    ensures
        texts(found@) == jsons(
            if only_recorded {
                latest_recorded(history_views(items@), history_views(items@), limit as int)
            } else {
                latest_items(history_views(items@), limit as int)
            },
        ),
{
    let ghost views = history_views(items@);
    let ghost whole = if only_recorded {
        latest_recorded(views, views, limit as int)
    } else {
        latest_items(views, limit as int)
    };
    let mut found: Vec<String> = Vec::new();
    let mut i: usize = items.len();
    assert(views.take(i as int) =~= views);
    assert(texts(found@) + jsons(whole) =~= jsons(whole));
    while i > 0 && found.len() < limit
        invariant
            i <= items@.len(),
            found@.len() <= limit,
            views == history_views(items@),
            texts(found@) + jsons(
                if only_recorded {
                    latest_recorded(views, views.take(i as int), limit - found@.len())
                } else {
                    latest_items(views.take(i as int), limit - found@.len())
                },
            ) == jsons(whole),
        decreases i,
    {
        let ghost seen = views.take(i as int);
        let ghost left = limit - found@.len();
        assert(seen.drop_last() =~= views.take(i - 1));
        assert(seen.last() == items@[i - 1]@);
        i -= 1;
        if !only_recorded || is_recorded(items, &items[i]) {
            let ghost before = found@;
            let ghost rest = if only_recorded {
                latest_recorded(views, views.take(i as int), left - 1)
            } else {
                latest_items(views.take(i as int), left - 1)
            };
            found.push(items[i].json.clone());
            assert(texts(found@) =~= texts(before).push(items@[i as int]@.json));
            assert(jsons(seq![items@[i as int]@] + rest) =~= seq![items@[i as int]@.json] + jsons(
                rest,
            ));
            assert(texts(before) + (seq![items@[i as int]@.json] + jsons(rest)) =~= texts(found@)
                + jsons(rest));
        }
    }
    proof {
        let rest = if only_recorded {
            latest_recorded(views, views.take(i as int), limit - found@.len())
        } else {
            latest_items(views.take(i as int), limit - found@.len())
        };
        assert(rest =~= Seq::empty());
        assert(jsons(rest) =~= Seq::empty());
        assert(texts(found@) + jsons(rest) =~= texts(found@));
    }
    found
}

/// The JSON of what is shown as evidence, the newest first.
pub fn select_evidence(items: &Vec<HistoryItem>) -> (selected: Vec<String>)
    ensures
        texts(selected@) == jsons(evidence_items(history_views(items@))),
{
    let found = latest_jsons(items, true, 16);
    if found.len() == 0 {
        assert(texts(found@).len() == 0);
        latest_jsons(items, false, 8)
    } else {
        assert(texts(found@).len() == found@.len());
        found
    }
}

/// Takes the metadata out of some records.
fn strip_records(records: &Vec<String>) -> (result: Option<Vec<String>>)
    ensures
        (match result {
            Some(found) => Some(texts(found@)),
            None => None,
        }) == stripped(texts(records@)),
{
    let ghost whole = texts(records@);
    let mut found: Vec<String> = Vec::new();
    let mut i: usize = 0;
    assert(whole.take(0) =~= Seq::empty());
    assert(texts(found@) =~= Seq::empty());
    while i < records.len()
        invariant
            i <= records@.len(),
            whole == texts(records@),
            stripped(whole.take(i as int)) == Some(texts(found@)),
        decreases records.len() - i,
    {
        assert(whole.take(i + 1).drop_last() =~= whole.take(i as int));
        assert(whole.take(i + 1).last() == records@[i as int]@);
        match remove_json_key(records[i].as_str(), METADATA_KEY) {
            None => {
                proof {
                    lemma_unreadable_stays(whole, i + 1);
                }
                return None;
            },
            Some(record) => {
                let ghost before = found@;
                let ghost text = record@;
                found.push(record);
                assert(texts(found@) =~= texts(before).push(text));
            },
        }
        i += 1;
    }
    assert(whole.take(i as int) =~= whole);
    Some(found)
}

proof fn lemma_unreadable_stays(jsons: Seq<Seq<char>>, count: int)
    requires
        0 <= count <= jsons.len(),
        stripped(jsons.take(count)) is None,
    ensures
        stripped(jsons) is None,
    decreases jsons.len() - count,
{
    if count < jsons.len() {
        assert(jsons.take(count + 1).drop_last() =~= jsons.take(count));
        lemma_unreadable_stays(jsons, count + 1);
    } else {
        assert(jsons.take(count) =~= jsons);
    }
}

/// Puts a line feed after each record.
pub fn join_records(records: &Vec<String>) -> (text: String)
    ensures
        text@ == record_lines(texts(records@)),
{
    let ghost whole = texts(records@);
    let mut text = String::new();
    let mut i: usize = 0;
    assert(whole.take(0) =~= Seq::empty());
    assert(text@ =~= Seq::empty());
    while i < records.len()
        invariant
            i <= records@.len(),
            whole == texts(records@),
            text@ == record_lines(whole.take(i as int)),
        decreases records.len() - i,
    {
        assert(whole.take(i + 1).drop_last() =~= whole.take(i as int));
        text.append(records[i].as_str());
        text.push('\n');
        i += 1;
    }
    assert(whole.take(i as int) =~= whole);
    text
}

/// Whether a text holds another.
pub open spec fn holds(text: Seq<char>, needle: Seq<char>) -> bool {
    exists|i: int|
        0 <= i <= text.len() - needle.len() && #[trigger] text.subrange(i, i + needle.len())
            == needle
}

fn matches_at(text: &Vec<char>, needle: &Vec<char>, at: usize) -> (yes: bool)
    requires
        at + needle@.len() <= text@.len(),
    ensures
        yes == (text@.subrange(at as int, at + needle@.len()) == needle@),
{
    let size: usize = text.len();
    let mut k: usize = 0;
    while k < needle.len()
        invariant
            k <= needle@.len(),
            at + needle@.len() <= text@.len() == size,
            forall|m: int| 0 <= m < k ==> text@[at + m] == needle@[m],
        decreases needle.len() - k,
    {
        if text[at + k] != needle[k] {
            assert(text@.subrange(at as int, at + needle@.len())[k as int] == text@[at + k]);
            return false;
        }
        k += 1;
    }
    assert(text@.subrange(at as int, at + needle@.len()) =~= needle@);
    true
}

/// Whether a text holds another.
pub fn text_holds(text: &str, needle: &str) -> (yes: bool)
    ensures
        yes == holds(text@, needle@),
{
    let chars = to_chars(text);
    let sought = to_chars(needle);
    if sought.len() > chars.len() {
        return false;
    }
    let last: usize = chars.len() - sought.len();
    let mut i: usize = 0;
    loop
        invariant
            i <= last,
            chars@ == text@,
            sought@ == needle@,
            last + needle@.len() == text@.len(),
            forall|k: int|
                0 <= k < i ==> #[trigger] text@.subrange(k, k + needle@.len()) != needle@,
        decreases last - i,
    {
        if matches_at(&chars, &sought, i) {
            return true;
        }
        if i == last {
            return false;
        }
        i += 1;
    }
}

/// One record of a history as a search sees it.
#[derive(Debug)]
pub struct SearchRecord {
    pub text: String,
    /// The text in lower case.
    pub lower: String,
}

pub struct SearchView {
    pub text: Seq<char>,
    pub lower: Seq<char>,
}

impl View for SearchRecord {
    type V = SearchView;

    open spec fn view(&self) -> SearchView {
        SearchView { text: self.text@, lower: self.lower@ }
    }
}

pub open spec fn search_views(records: Seq<SearchRecord>) -> Seq<SearchView> {
    records.map_values(|record: SearchRecord| record@)
}

pub open spec fn searched(needle: Option<Seq<char>>, record: SearchView) -> bool {
    needle matches Some(needle) ==> holds(record.lower, needle)
}

/// The texts of the records that a search finds, the newest first.
pub open spec fn found_records(records: Seq<SearchView>, needle: Option<Seq<char>>) -> Seq<
    Seq<char>,
>
    decreases records.len(),
{
    if records.len() == 0 {
        Seq::empty()
    } else if searched(needle, records.last()) {
        seq![records.last().text] + found_records(records.drop_last(), needle)
    } else {
        found_records(records.drop_last(), needle)
    }
}

/// How many of some records fit in a number of bytes, each with its line feed, and in a number
/// of records.
pub open spec fn fitting(records: Seq<Seq<char>>, bytes: int, limit: int) -> nat
    decreases records.len(),
{
    if records.len() == 0 || limit <= 0 || utf8_len(records[0]) + 1 > bytes {
        0
    } else {
        1 + fitting(records.drop_first(), bytes - utf8_len(records[0]) - 1, limit - 1)
    }
}

/// The page of a history that a search answers with.
pub open spec fn history_page(records: Seq<SearchView>, needle: Option<Seq<char>>, offset: int) -> Seq<
    Seq<char>,
> {
    let found = found_records(records, needle);
    let rest = if offset >= found.len() {
        Seq::empty()
    } else {
        found.skip(offset)
    };
    rest.take(fitting(rest, MAX_HISTORY_BYTES as int, MAX_HISTORY_RECORDS as int) as int)
}

proof fn lemma_fitting(records: Seq<Seq<char>>, bytes: int, limit: int)
    ensures
        fitting(records, bytes, limit) <= records.len(),
        limit >= 0 ==> fitting(records, bytes, limit) <= limit,
    decreases records.len(),
{
    if records.len() > 0 && limit > 0 && utf8_len(records[0]) + 1 <= bytes {
        lemma_fitting(records.drop_first(), bytes - utf8_len(records[0]) - 1, limit - 1);
    }
}

fn find_records(records: &Vec<SearchRecord>, needle: &Option<String>) -> (found: Vec<usize>)
    ensures
        forall|k: int| 0 <= k < found@.len() ==> (#[trigger] found@[k]) < records@.len(),
        found@.map_values(|i: usize| records@[i as int]@.text) == found_records(
            search_views(records@),
            optional_text(*needle),
        ),
{
    let ghost views = search_views(records@);
    let ghost sought = optional_text(*needle);
    let ghost pick = |i: usize| records@[i as int]@.text;
    let mut found: Vec<usize> = Vec::new();
    let mut i: usize = records.len();
    assert(views.take(i as int) =~= views);
    assert(found@.map_values(pick) + found_records(views, sought) =~= found_records(
        views,
        sought,
    ));
    while i > 0
        invariant
            i <= records@.len(),
            views == search_views(records@),
            sought == optional_text(*needle),
            pick == (|i: usize| records@[i as int]@.text),
            forall|k: int| 0 <= k < found@.len() ==> (#[trigger] found@[k]) < records@.len(),
            found@.map_values(pick) + found_records(views.take(i as int), sought)
                == found_records(views, sought),
        decreases i,
    {
        let ghost seen = views.take(i as int);
        assert(seen.drop_last() =~= views.take(i - 1));
        assert(seen.last() == records@[i - 1]@);
        i -= 1;
        let hit = match needle {
            Some(needle) => text_holds(records[i].lower.as_str(), needle.as_str()),
            None => true,
        };
        if hit {
            let ghost before = found@;
            let ghost rest = found_records(views.take(i as int), sought);
            found.push(i);
            assert(found@.map_values(pick) =~= before.map_values(pick).push(
                records@[i as int]@.text,
            ));
            assert(before.map_values(pick) + (seq![records@[i as int]@.text] + rest)
                =~= found@.map_values(pick) + rest);
        }
    }
    assert(views.take(0) =~= Seq::empty());
    assert(found@.map_values(pick) + Seq::<Seq<char>>::empty() =~= found@.map_values(pick));
    found
}

/// The page of a history that a search answers with, the newest record first.
pub fn search_history(records: &Vec<SearchRecord>, needle: &Option<String>, offset: usize) -> (page:
    Vec<String>)
    ensures
        texts(page@) == history_page(
            search_views(records@),
            optional_text(*needle),
            offset as int,
        ),
{
    let found = find_records(records, needle);
    let ghost pick = |i: usize| records@[i as int]@.text;
    let ghost all = found_records(search_views(records@), optional_text(*needle));
    let mut page: Vec<String> = Vec::new();
    assert(all.len() == found@.len());
    if offset >= found.len() {
        assert(texts(page@) =~= Seq::<Seq<char>>::empty().take(0));
        return page;
    }
    let ghost rest = all.skip(offset as int);
    let mut left: usize = MAX_HISTORY_BYTES;
    let mut k: usize = offset;
    assert(rest.skip(0) =~= rest);
    assert(texts(page@) =~= rest.take(0));
    loop
        invariant
            offset <= k <= found@.len(),
            found@.len() == all.len(),
            rest == all.skip(offset as int),
            pick == (|i: usize| records@[i as int]@.text),
            all == found@.map_values(pick),
            forall|m: int| 0 <= m < found@.len() ==> (#[trigger] found@[m]) < records@.len(),
            page@.len() == k - offset,
            page@.len() <= MAX_HISTORY_RECORDS,
            left <= MAX_HISTORY_BYTES,
            texts(page@) == rest.take(k - offset),
            fitting(rest, MAX_HISTORY_BYTES as int, MAX_HISTORY_RECORDS as int) == (k - offset)
                + fitting(
                rest.skip(k - offset),
                left as int,
                MAX_HISTORY_RECORDS - (k - offset),
            ),
        ensures
            texts(page@) == rest.take(
                fitting(rest, MAX_HISTORY_BYTES as int, MAX_HISTORY_RECORDS as int) as int,
            ),
        decreases found@.len() - k,
    {
        if k >= found.len() || page.len() >= MAX_HISTORY_RECORDS {
            break;
        }
        let record = &records[found[k]];
        assert(rest.skip(k - offset)[0] == record@.text);
        let size: usize = byte_len(record.text.as_str());
        if size >= left {
            break;
        }
        let ghost before = page@;
        page.push(record.text.clone());
        assert(texts(page@) =~= texts(before).push(record@.text));
        assert(rest.take(k - offset + 1) =~= rest.take(k - offset).push(record@.text));
        assert(rest.skip(k - offset).drop_first() =~= rest.skip(k - offset + 1));
        left = left - size - 1;
        k += 1;
    }
    page
}

impl RuntimeView {
    /// Whether the state names an Implementer, by what can be the name of a conversation.
    pub open spec fn identified(self, valid: bool) -> bool {
        self.state.implementer_thread_id is Some && valid
    }
}

impl PlanRuntime {
    /// Whether the state names an Implementer. `valid` says whether a name there is that of a
    /// conversation.
    pub fn is_identified(&self, valid: bool) -> (yes: bool)
        ensures
            yes == self@.identified(valid),
    {
        self.state.implementer_thread_id.is_some() && valid
    }

    /// Where evidence comes from. `valid` says whether the Implementer's name is that of a
    /// conversation.
    pub fn evidence_source(&self, valid: bool) -> (result: Result<EvidenceSource, RuntimeError>)
        ensures
            result == (if self@.plan is None {
                Err::<EvidenceSource, RuntimeError>(RuntimeError::NoTask)
            } else if self@.identified(valid) {
                Ok(EvidenceSource::History)
            } else {
                Ok(
                    EvidenceSource::Saved {
                        after: saturate(self@.state.activity_sequence - 16) as i64,
                        limit: 16,
                    },
                )
            }),
    {
        if self.plan.is_none() {
            return Err(RuntimeError::NoTask);
        }
        if self.is_identified(valid) {
            Ok(EvidenceSource::History)
        } else {
            Ok(
                EvidenceSource::Saved {
                    after: saturating_difference(self.state.activity_sequence, 16),
                    limit: 16,
                },
            )
        }
    }

    fn remember_review(&mut self, text: &String) -> (known: bool)
        ensures
            known == (old(self)@.plan is Some),
            final(self)@ == (match old(self)@.plan {
                Some(plan) => RuntimeView {
                    evidence_review: Some((plan.version, text@)),
                    ..old(self)@
                },
                None => old(self)@,
            }),
    {
        let version: i64 = match &self.plan {
            Some(plan) => plan.version,
            None => {
                return false;
            },
        };
        self.evidence_review = Some((version, text.clone()));
        true
    }

    /// Reads the evidence that the host has saved, and remembers for which plan it was read.
    pub fn saved_evidence(&mut self, records: &Vec<String>) -> (result: Result<
        String,
        RuntimeError,
    >)
        ensures
            ({
                let text = joined(texts(records@), "\n"@);
                match old(self)@.plan {
                    None => result == Err::<String, RuntimeError>(RuntimeError::NoTask)
                        && final(self)@ == old(self)@,
                    Some(plan) => if text.len() == 0 {
                        result == Err::<String, RuntimeError>(RuntimeError::NoEvidence)
                            && final(self)@ == old(self)@
                    } else {
                        (result matches Ok(output) && output@ == text) && final(self)@ == (
                        RuntimeView { evidence_review: Some((plan.version, text)), ..old(self)@ })
                    },
                }
            }),
    {
        if self.plan.is_none() {
            return Err(RuntimeError::NoTask);
        }
        let text = join_texts(records, "\n");
        if to_chars(text.as_str()).len() == 0 {
            return Err(RuntimeError::NoEvidence);
        }
        let _ = self.remember_review(&text);
        Ok(text)
    }

    /// Reads the evidence in the Implementer's history, and remembers for which plan it was
    /// read.
    pub fn evidence(&mut self, items: &Vec<HistoryItem>) -> (result: Result<String, RuntimeError>)
        ensures
            match old(self)@.plan {
                None => result == Err::<String, RuntimeError>(RuntimeError::NoTask) && final(self)@
                    == old(self)@,
                Some(plan) => match stripped(jsons(evidence_items(history_views(items@)))) {
                    None => result == Err::<String, RuntimeError>(RuntimeError::UnreadableHistory)
                        && final(self)@ == old(self)@,
                    Some(records) => (result matches Ok(output) && output@ == record_lines(
                        records,
                    )) && final(self)@ == (RuntimeView {
                        evidence_review: Some((plan.version, record_lines(records))),
                        ..old(self)@
                    }),
                },
            },
    {
        if self.plan.is_none() {
            return Err(RuntimeError::NoTask);
        }
        let selected = select_evidence(items);
        match strip_records(&selected) {
            None => Err(RuntimeError::UnreadableHistory),
            Some(records) => {
                let text = join_records(&records);
                let _ = self.remember_review(&text);
                Ok(text)
            },
        }
    }

    /// Accepts a submitted step. The evidence must have been read for this very version, and the
    /// Implementer must have stopped.
    pub fn accept(
        &self,
        version: i64,
        step_id: &String,
        evidence: &Vec<String>,
        implementer_running: bool,
        now: i64,
    ) -> (result: Result<ContinuousPlanning, RuntimeError>)
        requires
            self@.accept_fits(step_id@, texts(evidence@), now as int),
        ensures
            (match result {
                Ok(plan) => Ok::<PlanView, RuntimeError>(plan@),
                Err(error) => Err(error),
            }) == self@.accepted(
                version as int,
                step_id@,
                texts(evidence@),
                implementer_running,
                now as int,
            ),
    {
        if !is_evident(evidence) {
            return Err(RuntimeError::UnboundedVerification);
        }
        match &self.evidence_review {
            Some((reviewed, _)) => {
                if *reviewed != version {
                    return Err(RuntimeError::EvidenceUnread);
                }
            },
            None => {
                return Err(RuntimeError::EvidenceUnread);
            },
        }
        if self.implementer.is_some() && implementer_running {
            return Err(RuntimeError::ImplementerUnfinished);
        }
        match &self.plan {
            None => Err(RuntimeError::NoTask),
            Some(plan) => {
                if plan.version != version {
                    return Err(RuntimeError::StaleTask);
                }
                match find_step(&plan.steps, step_id) {
                    None => Err(RuntimeError::UnknownStep),
                    Some(i) => {
                        assert(plan@.steps[i as int] == plan.steps@[i as int]@);
                        assert(plan@.steps[i as int].evidence.len()
                            == plan.steps@[i as int].evidence@.len());
                        if plan.steps[i].state != PlanStepState::Reviewing
                            || plan.steps[i].evidence.len() == 0 {
                            return Err(RuntimeError::NotSubmitted);
                        }
                        let mut next = plan.clone();
                        let mut step = plan.steps[i].clone();
                        step.state = PlanStepState::Completed;
                        step.completed_at = Some(now);
                        assert(next.steps@.len() == next@.steps.len());
                        replace_step(&mut next, i, step);
                        next.review = PlanReviewState::Idle;
                        next.reason = join_texts(evidence, "\n");
                        assert(next@ == accepted_draft(
                            plan@,
                            i as int,
                            texts(evidence@),
                            now as int,
                        ));
                        finish_revision(&mut next, now);
                        Ok(next)
                    },
                }
            },
        }
    }
}

/// The records of a history as a search sees them.
pub open spec fn search_records(records: Seq<Seq<char>>) -> Seq<SearchView> {
    records.map_values(|text: Seq<char>| SearchView { text, lower: lowercase(text) })
}

/// The lower case of a query where there is one.
pub open spec fn search_needle(query: Option<Seq<char>>) -> Option<Seq<char>> {
    match query {
        Some(query) => Some(lowercase(query)),
        None => None,
    }
}

impl PlanRuntime {
    /// Searches the private Implementer history and returns bounded matching records. `history`
    /// holds the JSON of its records, the oldest first; `valid` says whether the Implementer's
    /// name is that of a conversation.
    pub fn inspect(
        &self,
        valid: bool,
        history: &Vec<String>,
        query: &Option<String>,
        offset: usize,
    ) -> (result: Result<String, RuntimeError>)
        ensures
            (match result {
                Ok(text) => Ok::<Seq<char>, RuntimeError>(text@),
                Err(error) => Err(error),
            }) == (if offset > MAX_HISTORY_OFFSET {
                Err(RuntimeError::HistoryOffset)
            } else if !self@.identified(valid) {
                Err(RuntimeError::NoExecution)
            } else {
                match stripped(texts(history@)) {
                    None => Err(RuntimeError::UnreadableHistory),
                    Some(records) => {
                        let page = history_page(
                            search_records(records),
                            search_needle(optional_text(*query)),
                            offset as int,
                        );
                        if page.len() == 0 {
                            Err(RuntimeError::NoHistory)
                        } else {
                            Ok(record_lines(page))
                        }
                    },
                }
            }),
    {
        if offset > MAX_HISTORY_OFFSET {
            return Err(RuntimeError::HistoryOffset);
        }
        if !self.is_identified(valid) {
            return Err(RuntimeError::NoExecution);
        }
        let needle = match query {
            Some(query) => Some(lowercase_text(query.as_str())),
            None => None,
        };
        let texts_found = match strip_records(history) {
            None => {
                return Err(RuntimeError::UnreadableHistory);
            },
            Some(found) => found,
        };
        let mut records: Vec<SearchRecord> = Vec::new();
        let mut i: usize = 0;
        while i < texts_found.len()
            invariant
                i <= texts_found@.len(),
                records@.len() == i,
                forall|k: int|
                    0 <= k < i ==> (#[trigger] records@[k])@ == (SearchView {
                        text: texts_found@[k]@,
                        lower: lowercase(texts_found@[k]@),
                    }),
            decreases texts_found.len() - i,
        {
            let text = texts_found[i].clone();
            let lower = lowercase_text(text.as_str());
            records.push(SearchRecord { text, lower });
            i += 1;
        }
        assert(search_views(records@) =~= search_records(texts(texts_found@)));
        let page = search_history(&records, &needle, offset);
        assert(texts(page@).len() == page@.len());
        if page.len() == 0 {
            return Err(RuntimeError::NoHistory);
        }
        Ok(join_records(&page))
    }
}

} // verus!
