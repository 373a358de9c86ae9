//! What acceptance and the reading of evidence promise.

use crate::evidence::control_call;
use crate::evidence::evidence_items;
use crate::evidence::fitting;
use crate::evidence::found_records;
use crate::evidence::history_page;
use crate::evidence::history_views;
use crate::evidence::jsons;
use crate::evidence::latest_items;
use crate::evidence::latest_recorded;
use crate::evidence::record_lines;
use crate::evidence::recorded;
use crate::evidence::search_needle;
use crate::evidence::search_records;
use crate::evidence::search_views;
use crate::evidence::stripped;
use crate::evidence::HistoryItem;
use crate::evidence::HistoryKind;
use crate::evidence::HistoryView;
use crate::evidence::KindView;
use crate::evidence::SearchRecord;
use crate::evidence::SearchView;
use crate::evidence::MAX_HISTORY_BYTES;
use crate::evidence::MAX_HISTORY_RECORDS;
use crate::json::json_keys;
use crate::json::json_text;
use crate::json::json_value;
use crate::json::json_without;
use crate::json::lowercase;
use crate::model::step_position;
use crate::model_laws::lemma_step_position;
use crate::plan::PlanStepState;
use crate::plan::StepView;
use crate::runtime::RuntimeView;
use crate::text::lemma_utf8_len_concat;
use crate::text::lemma_utf8_len_is_encoding_len;
use crate::text::lemma_utf8_len_push;
use crate::text::utf8_len;
use vstd::prelude::*;
use vstd::utf8::encode_utf8;

verus! {

/// A step is accepted only after its evidence was read for the very version that is accepted,
/// only once it was submitted with evidence, and only while the Implementer is not running. It
/// is completed with its recorded times, and every other step stays as it is.
pub proof fn law_acceptance_needs_read_evidence(
    runtime: RuntimeView,
    version: int,
    step_id: Seq<char>,
    evidence: Seq<Seq<char>>,
    running: bool,
    now: int,
)
    requires
        runtime.accepted(version, step_id, evidence, running, now) is Ok,
    ensures
        ({
            let next = runtime.accepted(version, step_id, evidence, running, now)->Ok_0;
            let plan = runtime.plan->0;
            let i = step_position(plan.steps, step_id)->0;
            &&& runtime.evidence_review matches Some((reviewed, _)) && reviewed == version
            &&& runtime.plan is Some
            &&& plan.version == version
            &&& !(runtime.implementer is Some && running)
            &&& 0 <= i < plan.steps.len()
            &&& plan.steps[i].definition.id == step_id
            &&& plan.steps[i].state == PlanStepState::Reviewing
            &&& plan.steps[i].evidence.len() > 0
            &&& next.version == version + 1
            &&& next.id == plan.id
            &&& next.steps == plan.steps.update(
                i,
                StepView {
                    state: PlanStepState::Completed,
                    completed_at: Some(now),
                    ..plan.steps[i]
                },
            )
        }),
{
    lemma_step_position(runtime.plan->0.steps, step_id);
}

/// An acceptance uses up its version: the evidence that was read does not accept a second step.
pub proof fn law_read_evidence_accepts_once(
    runtime: RuntimeView,
    version: int,
    step_id: Seq<char>,
    evidence: Seq<Seq<char>>,
    running: bool,
    now: int,
    other: Seq<char>,
    again: Seq<Seq<char>>,
    asked: int,
    later: int,
)
    requires
        runtime.accepted(version, step_id, evidence, running, now) is Ok,
    ensures
        ({
            let next = runtime.accepted(version, step_id, evidence, running, now)->Ok_0;
            let after = (RuntimeView { plan: Some(next), ..runtime });
            after.accepted(asked, other, again, running, later) is Err
        }),
{
}

proof fn lemma_fitting_lines(records: Seq<Seq<char>>, bytes: int, limit: int)
    requires
        bytes >= 0,
        limit >= 0,
    ensures
        fitting(records, bytes, limit) <= records.len(),
        fitting(records, bytes, limit) <= limit,
        utf8_len(record_lines(records.take(fitting(records, bytes, limit) as int))) <= bytes,
    decreases records.len(),
{
    let n = fitting(records, bytes, limit) as int;
    if records.len() == 0 || limit <= 0 || utf8_len(records[0]) + 1 > bytes {
        assert(records.take(0) =~= Seq::empty());
    } else {
        let rest = records.drop_first();
        let left = bytes - utf8_len(records[0]) - 1;
        lemma_fitting_lines(rest, left, limit - 1);
        assert(records.take(n) =~= seq![records[0]] + rest.take(n - 1));
        lemma_lines_of_first(records[0], rest.take(n - 1));
    }
}

proof fn lemma_lines_of_first(first: Seq<char>, rest: Seq<Seq<char>>)
    ensures
        utf8_len(record_lines(seq![first] + rest)) == utf8_len(first) + 1 + utf8_len(
            record_lines(rest),
        ),
    decreases rest.len(),
{
    let all = seq![first] + rest;
    if rest.len() == 0 {
        assert(all.drop_last() =~= Seq::empty());
        assert(Seq::<char>::empty() + first =~= first);
        reveal_with_fuel(record_lines, 2);
        lemma_utf8_len_push(first, '\n');
    } else {
        lemma_lines_of_first(first, rest.drop_last());
        assert(all.drop_last() =~= seq![first] + rest.drop_last());
        let last = rest.last();
        let a = record_lines(all.drop_last());
        let b = record_lines(rest.drop_last());
        lemma_utf8_len_push(a + last, '\n');
        lemma_utf8_len_push(b + last, '\n');
        lemma_utf8_len_concat(a, last);
        lemma_utf8_len_concat(b, last);
    }
}

/// The answer to a search is bounded in records and in bytes.
pub proof fn law_history_pages_are_bounded(
    records: Seq<SearchView>,
    needle: Option<Seq<char>>,
    offset: int,
)
    requires
        offset >= 0,
    ensures
        history_page(records, needle, offset).len() <= MAX_HISTORY_RECORDS,
        utf8_len(record_lines(history_page(records, needle, offset))) <= MAX_HISTORY_BYTES,
{
    let found = found_records(records, needle);
    let rest = if offset >= found.len() {
        Seq::empty()
    } else {
        found.skip(offset)
    };
    lemma_fitting_lines(rest, MAX_HISTORY_BYTES as int, MAX_HISTORY_RECORDS as int);
}

/// What is evidence: what a tool gave back, unless it answers a call of the planning tool itself,
/// a web search, a generated image, and what the assistant said.
pub open spec fn is_evidence(all: Seq<HistoryView>, item: HistoryView) -> bool {
    ||| item.kind is CustomToolCallOutput
    ||| item.kind is WebSearchCall
    ||| item.kind is ImageGenerationCall
    ||| item.kind == (KindView::Message { role: "assistant"@ })
    ||| (item.kind matches KindView::FunctionCallOutput { answers } && forall|i: int|
        0 <= i < all.len() ==> !((#[trigger] all[i]).kind matches KindView::FunctionCall {
            name,
            call_id,
        } && name == "continuous_planning"@ && answers == Some(call_id)))
}

/// The newest records come first, the evidence among them up to sixteen, and where there is no
/// evidence the newest eight of any kind.
pub proof fn law_the_latest_evidence_comes_first(
    all: Seq<HistoryView>,
    items: Seq<HistoryView>,
    item: HistoryView,
    limit: int,
)
    ensures
        latest_recorded(all, Seq::empty(), limit).len() == 0,
        latest_items(Seq::empty(), limit).len() == 0,
        limit <= 0 ==> latest_recorded(all, items, limit).len() == 0 && latest_items(
            items,
            limit,
        ).len() == 0,
        limit > 0 && is_evidence(all, item) ==> latest_recorded(all, items.push(item), limit)
            == seq![item] + latest_recorded(all, items, limit - 1),
        limit > 0 && !is_evidence(all, item) ==> latest_recorded(all, items.push(item), limit)
            == latest_recorded(all, items, limit),
        limit > 0 ==> latest_items(items.push(item), limit) == seq![item] + latest_items(
            items,
            limit - 1,
        ),
        latest_recorded(all, all, 16).len() > 0 ==> evidence_items(all) == latest_recorded(
            all,
            all,
            16,
        ),
        latest_recorded(all, all, 16).len() == 0 ==> evidence_items(all) == latest_items(all, 8),
{
    assert(items.push(item).drop_last() =~= items);
    assert(items.push(item).last() == item);
    if let KindView::FunctionCallOutput { answers } = item.kind {
        if let Some(id) = answers {
            if control_call(all, id) {
                let i = choose|i: int|
                    0 <= i < all.len() && (#[trigger] all[i]).kind == (KindView::FunctionCall {
                        name: "continuous_planning"@,
                        call_id: id,
                    });
                assert(all[i].kind is FunctionCall);
                assert(!is_evidence(all, item));
            }
        }
    }
    assert(recorded(all, item) == is_evidence(all, item));
}

/// A record is shown as it was recorded, without the metadata of the host; one that is no JSON
/// makes the history unreadable.
pub proof fn law_records_are_shown_without_metadata(records: Seq<Seq<char>>)
    ensures
        stripped(records) is Some <==> forall|i: int|
            0 <= i < records.len() ==> json_value(#[trigger] records[i]) is Some,
        stripped(records) matches Some(shown) ==> {
            &&& shown.len() == records.len()
            &&& forall|i: int|
                0 <= i < records.len() ==> {
                    let value = json_value(records[i])->0;
                    (#[trigger] shown[i]) == json_text(
                        if json_keys(value) is Some {
                            json_without(value, "internal_chat_message_metadata_passthrough"@)
                        } else {
                            value
                        },
                    )
                }
        },
    decreases records.len(),
{
    if records.len() > 0 {
        let before = records.drop_last();
        law_records_are_shown_without_metadata(before);
        assert forall|i: int| 0 <= i < before.len() implies before[i] == records[i] by {}
        if stripped(records) is None {
            if stripped(before) is None {
                let i = choose|i: int|
                    0 <= i < before.len() && json_value(#[trigger] before[i]) is None;
                assert(json_value(records[i]) is None);
            } else {
                assert(json_value(records[records.len() - 1]) is None);
            }
        } else {
            assert forall|i: int| 0 <= i < records.len() implies json_value(
                #[trigger] records[i],
            ) is Some by {
                if i < before.len() {
                    assert(json_value(before[i]) is Some);
                }
            }
        }
    }
}

/// Each record is a line of its own, in order.
pub proof fn law_each_record_is_a_line(records: Seq<Seq<char>>, record: Seq<char>)
    ensures
        record_lines(Seq::empty()).len() == 0,
        record_lines(records.push(record)) == record_lines(records) + record + seq!['\n'],
{
    assert(records.push(record).drop_last() =~= records);
    assert((record_lines(records) + record).push('\n') =~= record_lines(records) + record
        + seq!['\n']);
}

/// A search finds the records that hold what is looked for, in lower case, and every record where
/// nothing is looked for; the newest first.
pub proof fn law_searches_find_what_they_look_for(
    records: Seq<SearchView>,
    record: SearchView,
    needle: Option<Seq<char>>,
)
    ensures
        found_records(Seq::empty(), needle).len() == 0,
        ({
            let hit = needle is None || exists|i: int|
                0 <= i <= record.lower.len() - needle->0.len() && #[trigger] record.lower.subrange(
                    i,
                    i + needle->0.len(),
                ) == needle->0;
            &&& hit ==> found_records(records.push(record), needle) == seq![record.text]
                + found_records(records, needle)
            &&& !hit ==> found_records(records.push(record), needle) == found_records(
                records,
                needle,
            )
        }),
{
    assert(records.push(record).drop_last() =~= records);
}

proof fn lemma_fitting_is_most(records: Seq<Seq<char>>, bytes: int, limit: int)
    requires
        bytes >= 0,
        limit >= 0,
        fitting(records, bytes, limit) < records.len(),
        fitting(records, bytes, limit) < limit,
    ensures
        utf8_len(record_lines(records.take(fitting(records, bytes, limit) as int + 1))) > bytes,
    decreases records.len(),
{
    let n = fitting(records, bytes, limit) as int;
    let rest = records.drop_first();
    if utf8_len(records[0]) + 1 > bytes {
        assert(records.take(1) =~= seq![records[0]] + Seq::<Seq<char>>::empty());
        lemma_lines_of_first(records[0], Seq::empty());
    } else {
        let left = bytes - utf8_len(records[0]) - 1;
        lemma_fitting_is_most(rest, left, limit - 1);
        assert(records.take(n + 1) =~= seq![records[0]] + rest.take(n));
        lemma_lines_of_first(records[0], rest.take(n));
    }
}

/// A page of a history is what a search finds, from the offset on, as many records as 32 records
/// and 8192 bytes have room for.
pub proof fn law_history_pages_are_full(
    records: Seq<SearchView>,
    needle: Option<Seq<char>>,
    offset: int,
)
    requires
        offset >= 0,
    ensures
        ({
            let found = found_records(records, needle);
            let page = history_page(records, needle, offset);
            let size = page.len() as int;
            &&& offset >= found.len() ==> size == 0
            &&& size <= 32
            &&& encode_utf8(record_lines(page)).len() <= 8192
            &&& offset < found.len() ==> {
                &&& offset + size <= found.len()
                &&& page == found.subrange(offset, offset + size)
                &&& offset + size < found.len() && size < 32 ==> encode_utf8(
                    record_lines(found.subrange(offset, offset + size + 1)),
                ).len() > 8192
            }
        }),
{
    let found = found_records(records, needle);
    let page = history_page(records, needle, offset);
    let size = page.len() as int;
    law_history_pages_are_bounded(records, needle, offset);
    lemma_utf8_len_is_encoding_len(record_lines(page));
    if offset < found.len() {
        let rest = found.skip(offset);
        lemma_fitting_lines(rest, 8192, 32);
        assert(page =~= found.subrange(offset, offset + size));
        if offset + size < found.len() && size < 32 {
            lemma_fitting_is_most(rest, 8192, 32);
            assert(rest.take(size + 1) =~= found.subrange(offset, offset + size + 1));
            lemma_utf8_len_is_encoding_len(
                record_lines(found.subrange(offset, offset + size + 1)),
            );
        }
    }
}

/// A history is searched by its records in lower case, for the query in lower case.
pub proof fn law_searches_ignore_case(records: Seq<Seq<char>>, query: Option<Seq<char>>, i: int)
    ensures
        search_records(records).len() == records.len(),
        0 <= i < records.len() ==> search_records(records)[i].text == records[i]
            && search_records(records)[i].lower == lowercase(records[i]),
        query is None ==> search_needle(query) is None,
        query matches Some(query) ==> search_needle(Some(query)) == Some(lowercase(query)),
{
}

/// What the laws say of a history, they say of the fields of its records.
pub proof fn law_histories_are_told_by_their_fields(
    items: Seq<HistoryItem>,
    records: Seq<SearchRecord>,
    i: int,
)
    ensures
        history_views(items).len() == items.len(),
        jsons(history_views(items)).len() == items.len(),
        0 <= i < items.len() ==> {
            let item = items[i];
            let view = history_views(items)[i];
            &&& view.json == item.json@
            &&& jsons(history_views(items))[i] == item.json@
            &&& match item.kind {
                HistoryKind::FunctionCall { name, call_id } => view.kind
                    == (KindView::FunctionCall { name: name@, call_id: call_id@ }),
                HistoryKind::FunctionCallOutput { answers: Some(id) } => view.kind
                    == (KindView::FunctionCallOutput { answers: Some(id@) }),
                HistoryKind::FunctionCallOutput { answers: None } => view.kind
                    == (KindView::FunctionCallOutput { answers: None }),
                HistoryKind::CustomToolCallOutput => view.kind is CustomToolCallOutput,
                HistoryKind::WebSearchCall => view.kind is WebSearchCall,
                HistoryKind::ImageGenerationCall => view.kind is ImageGenerationCall,
                HistoryKind::Message { role } => view.kind == (KindView::Message { role: role@ }),
                HistoryKind::Other => view.kind is Other,
            }
        },
        search_views(records).len() == records.len(),
        0 <= i < records.len() ==> search_views(records)[i].text == records[i].text@
            && search_views(records)[i].lower == records[i].lower@,
{
}

/// An Implementer is known where the state names one and the name is that of a conversation.
pub proof fn law_implementers_are_known_by_their_conversation(runtime: RuntimeView, valid: bool)
    ensures
        runtime.identified(valid) <==> valid && runtime.state.implementer_thread_id is Some,
{
}

} // verus!
