//! How numbers, cursors, fragments and activity are written and read.

use crate::conversation_laws::law_clipped_texts_are_the_longest_beginnings;
use crate::conversation_laws::longest_beginning;
use crate::display::plus_decimal;
use crate::fragments::last_break;
use crate::fragments::pieces;
use crate::fragments::role_cut;
use crate::fragments::role_pieces;
use crate::history::digits_value;
use crate::history::integer_value;
use crate::history::page_limit;
use crate::history::page_query;
use crate::history::CursorError;
use crate::history::PageQuery;
use crate::history::StorageError;
use crate::model::PlanError;
use crate::protocol::ServerNotification;
use crate::protocol::SupervisorActivity;
use crate::protocol::ThreadItemKind;
use crate::request_laws::bytes;
use crate::runtime::RuntimeError;
use crate::text::clip;
use crate::text::clip_count;
use crate::text::decimal;
use crate::text::lemma_clip_is_longest_prefix;
use crate::text::lemma_utf8_len_concat;
use crate::text::lemma_utf8_len_is_encoding_len;
use crate::text::signed_decimal;
use vstd::prelude::*;

verus! {

/// Whether a text is made of the digits from 0 to 9 alone.
pub open spec fn digits(text: Seq<char>) -> bool {
    forall|i: int| 0 <= i < text.len() ==> '0' <= #[trigger] text[i] <= '9'
}

/// The number that some digits stand for, the most significant first.
pub open spec fn number(text: Seq<char>) -> int
    decreases text.len(),
{
    if text.len() == 0 {
        0
    } else {
        number(text.drop_last()) * 10 + (text.last() as int - '0' as int)
    }
}

/// A number is written in digits that stand for it, without a zero before them. A negative one has
/// a minus sign in front; a difference always has a sign.
pub proof fn law_numbers_are_written_in_digits(n: nat)
    ensures
        decimal(n).len() > 0,
        digits(decimal(n)),
        number(decimal(n)) == n,
        n > 0 ==> decimal(n)[0] != '0',
        n == 0 ==> decimal(n).len() == 1,
        signed_decimal(n as int) == decimal(n),
        n > 0 ==> signed_decimal(-n) == seq!['-'] + decimal(n),
        plus_decimal(n as int) == seq!['+'] + decimal(n),
        n > 0 ==> plus_decimal(-n) == seq!['-'] + decimal(n),
    decreases n,
{
    reveal_strlit("+");
    assert("+"@ =~= seq!['+']);
    let text = decimal(n);
    if n < 10 {
        assert(text.drop_last() =~= Seq::<char>::empty());
        reveal_with_fuel(number, 2);
    } else {
        law_numbers_are_written_in_digits(n / 10);
        assert(text.drop_last() =~= decimal(n / 10));
        assert(text[0] == decimal(n / 10)[0]);
        assert forall|i: int| 0 <= i < text.len() implies '0' <= #[trigger] text[i] <= '9' by {
            if i < text.len() - 1 {
                assert(text[i] == decimal(n / 10)[i]);
            }
        }
    }
}

/// The whole numbers that a cursor can stand for.
pub open spec fn cursor_range(n: int) -> bool {
    -0x8000_0000_0000_0000 <= n <= 0x7fff_ffff_ffff_ffff
}

/// The digits of a cursor give the number they stand for, with its sign, if they are digits and the
/// number is in range. The first character that is none, or that leads out of the range, is the
/// fault.
pub proof fn law_cursors_are_read_by_their_digits(text: Seq<char>, negative: bool, next: char)
    ensures
        ({
            let value = if negative {
                -number(text)
            } else {
                number(text)
            };
            &&& digits_value(text, negative) is Ok <==> digits(text) && cursor_range(value)
            &&& digits_value(text, negative) matches Ok(n) ==> n == value
            &&& digits(text) ==> number(text) >= 0
        }),
        digits_value(text, negative) matches Err(fault) ==> digits_value(text.push(next), negative)
            == Err::<int, CursorError>(fault),
        digits_value(text, negative) is Ok && !('0' <= next <= '9') ==> digits_value(
            text.push(next),
            negative,
        ) == Err::<int, CursorError>(CursorError::InvalidDigit),
        digits_value(text, negative) is Ok && '0' <= next <= '9' && digits_value(
            text.push(next),
            negative,
        ) is Err ==> digits_value(text.push(next), negative) == Err::<int, CursorError>(
            if negative {
                CursorError::TooSmall
            } else {
                CursorError::TooLarge
            },
        ),
    decreases text.len(),
{
    assert(text.push(next).drop_last() =~= text);
    assert(text.push(next).last() == next);
    if text.len() > 0 {
        let before = text.drop_last();
        law_cursors_are_read_by_their_digits(before, negative, text.last());
        assert(before.push(text.last()) =~= text);
        assert(digits(text) <==> digits(before) && '0' <= text.last() <= '9') by {
            if digits(text) {
                assert forall|i: int| 0 <= i < before.len() implies '0' <= #[trigger] before[i]
                    <= '9' by {
                    assert(before[i] == text[i]);
                }
                assert('0' <= text[text.len() - 1] <= '9');
            }
            if digits(before) && '0' <= text.last() <= '9' {
                assert forall|i: int| 0 <= i < text.len() implies '0' <= #[trigger] text[i]
                    <= '9' by {
                    if i < before.len() {
                        assert(text[i] == before[i]);
                    }
                }
            }
        }
    }
    let value = if negative {
        -number(text)
    } else {
        number(text)
    };
    if digits_value(text, negative) is Ok {
        assert(digits_value(text, negative) == Ok::<int, CursorError>(value));
    }
}

/// A cursor is a sign, or none, and at least one digit.
pub proof fn law_cursors_are_signed_numbers(text: Seq<char>)
    ensures
        integer_value(Seq::empty()) == Err::<int, CursorError>(CursorError::Empty),
        integer_value(seq!['-']) == Err::<int, CursorError>(CursorError::InvalidDigit),
        integer_value(seq!['+']) == Err::<int, CursorError>(CursorError::InvalidDigit),
        text.len() > 0 ==> integer_value(seq!['-'] + text) == digits_value(text, true),
        text.len() > 0 ==> integer_value(seq!['+'] + text) == digits_value(text, false),
        text.len() > 0 && text[0] != '-' && text[0] != '+' ==> integer_value(text) == digits_value(
            text,
            false,
        ),
{
    assert((seq!['-'] + text).drop_first() =~= text);
    assert((seq!['+'] + text).drop_first() =~= text);
    if text.len() == 1 {
        assert(digits_value(text, false) is Ok || digits_value(text, false) is Err);
    }
}

/// A page holds as many entries as were asked for, from one to ninety-nine; it begins at its cursor,
/// or at the start where there is none, and a cursor before the first entry is refused.
pub proof fn law_pages_are_asked_for(
    cursor: Option<Seq<char>>,
    limit: Option<u32>,
    start: int,
    default: u32,
    least: int,
    error: CursorError,
)
    requires
        cursor_range(start),
        1 <= default <= 99,
    ensures
        1 <= page_limit(limit, default) <= 99,
        limit is None ==> page_limit(limit, default) == default,
        limit matches Some(asked) ==> {
            &&& 1 <= asked <= 99 ==> page_limit(limit, default) == asked
            &&& asked == 0 ==> page_limit(limit, default) == 1
            &&& asked > 99 ==> page_limit(limit, default) == 99
        },
        ({
            let number = match cursor {
                Some(text) => integer_value(text),
                None => Ok(start),
            };
            let query = page_query(cursor, limit, start, default, least, error);
            &&& number matches Err(fault) ==> query == Err::<PageQuery, CursorError>(fault)
            &&& number matches Ok(n) ==> {
                &&& n < least ==> query == Err::<PageQuery, CursorError>(error)
                &&& n >= least ==> query is Ok && query->Ok_0.cursor == n && query->Ok_0.limit
                    == page_limit(limit, default)
            }
        }),
{
    if let Some(text) = cursor {
        if text.len() > 0 {
            law_cursors_are_read_by_their_digits(text, false, '0');
            law_cursors_are_read_by_their_digits(text.drop_first(), true, '0');
            law_cursors_are_read_by_their_digits(text.drop_first(), false, '0');
        }
    }
}

/// A text is cut into the longest fragments of 700 bytes, one after the other.
pub proof fn law_fragments_are_as_long_as_they_can_be(text: Seq<char>)
    ensures
        text.len() == 0 ==> pieces(text).len() == 0,
        text.len() > 0 ==> {
            &&& pieces(text).len() > 0
            &&& longest_beginning(pieces(text)[0], text, 700)
            &&& pieces(text).drop_first() == pieces(text.skip(pieces(text)[0].len() as int))
        },
{
    if text.len() > 0 {
        law_clipped_texts_are_the_longest_beginnings(text, 700);
        lemma_clip_is_longest_prefix(text, 700);
        assert(pieces(text).drop_first() =~= pieces(text.skip(clip_count(text, 700) as int)));
        assert(clip(text, 700).len() == clip_count(text, 700));
    }
}

/// Whether a sentence ends with the first characters of a text.
pub open spec fn sentence_ends(text: Seq<char>, n: int) -> bool {
    2 <= n <= text.len() && text[n - 2] == '.' && text[n - 1] == ' '
}

proof fn lemma_last_break_is_last(text: Seq<char>)
    ensures
        match last_break(text) {
            Some(i) => {
                &&& sentence_ends(text, i + 2)
                &&& forall|n: int| i + 2 < n <= text.len() ==> !#[trigger] sentence_ends(text, n)
            },
            None => forall|n: int| !#[trigger] sentence_ends(text, n),
        },
    decreases text.len(),
{
    if text.len() >= 2 && !(text[text.len() - 2] == '.' && text[text.len() - 1] == ' ') {
        let before = text.drop_last();
        lemma_last_break_is_last(before);
        assert forall|n: int| n <= before.len() implies #[trigger] sentence_ends(text, n)
            == sentence_ends(before, n) by {
            if 2 <= n <= before.len() {
                assert(before[n - 2] == text[n - 2] && before[n - 1] == text[n - 1]);
            }
        }
        assert(!sentence_ends(text, text.len() as int));
        if let Some(i) = last_break(before) {
            assert(sentence_ends(before, i + 2));
            assert(sentence_ends(text, i + 2));
            assert forall|n: int| i + 2 < n <= text.len() implies !#[trigger] sentence_ends(
                text,
                n,
            ) by {
                if n <= before.len() {
                    assert(!sentence_ends(before, n));
                }
            }
        } else {
            assert forall|n: int| !#[trigger] sentence_ends(text, n) by {
                if n <= before.len() {
                    assert(!sentence_ends(before, n));
                }
            }
        }
    }
}

/// A policy that does not fit into 700 bytes is cut behind the last sentence that does, and where
/// not even one does, as late as possible.
pub proof fn law_policies_are_cut_at_their_sentences(text: Seq<char>)
    ensures
        text.len() == 0 ==> role_pieces(text).len() == 0,
        text.len() > 0 ==> {
            let first = role_pieces(text)[0];
            let cut = first.len() as int;
            &&& role_pieces(text).len() > 0
            &&& first == text.take(cut)
            &&& role_pieces(text).drop_first() == role_pieces(text.skip(cut))
            &&& bytes(first) <= 700
            &&& bytes(text) <= 700 ==> first == text
            &&& bytes(text) > 700 ==> {
                ||| sentence_ends(text, cut) && forall|n: int|
                    cut < n <= text.len() && sentence_ends(text, n) ==> bytes(
                        #[trigger] text.take(n),
                    ) > 700
                ||| longest_beginning(first, text, 700) && forall|n: int|
                    n <= cut ==> !#[trigger] sentence_ends(text, n)
            }
        },
{
    if text.len() > 0 {
        law_clipped_texts_are_the_longest_beginnings(text, 700);
        lemma_clip_is_longest_prefix(text, 700);
        let cap = clip_count(text, 700) as int;
        let cut = role_cut(text);
        let head = text.take(cap);
        lemma_last_break_is_last(head);
        assert forall|n: int| n <= cap implies #[trigger] sentence_ends(text, n) == sentence_ends(
            head,
            n,
        ) by {
            if 2 <= n <= cap {
                assert(head[n - 2] == text[n - 2] && head[n - 1] == text[n - 1]);
            }
        }
        assert(0 <= cut <= cap) by {
            if cap < text.len() {
                if let Some(i) = last_break(head) {
                    assert(sentence_ends(head, i + 2));
                }
            }
        }
        assert(role_pieces(text)[0] == text.take(cut));
        assert(role_pieces(text).drop_first() =~= role_pieces(text.skip(cut)));
        assert(head.take(cut) =~= text.take(cut));
        lemma_utf8_len_concat(head.take(cut), head.skip(cut));
        assert(head.take(cut) + head.skip(cut) =~= head);
        lemma_utf8_len_is_encoding_len(text.take(cut));
        lemma_utf8_len_is_encoding_len(head);
        lemma_utf8_len_is_encoding_len(text);
        if cap == text.len() {
            assert(text.take(cut) =~= text);
            assert(text.take(cap) =~= text);
        } else if last_break(head) is Some {
            let i = last_break(head)->0;
            assert(sentence_ends(head, cut));
            assert(sentence_ends(text, cut));
            assert forall|n: int| cut < n <= text.len() && sentence_ends(text, n) implies bytes(
                #[trigger] text.take(n),
            ) > 700 by {
                lemma_utf8_len_is_encoding_len(text.take(n));
                if n <= cap {
                    assert(!sentence_ends(head, n));
                }
            }
            if bytes(text) <= 700 {
                assert(clip(text, 700) == text);
                assert(false);
            }
        } else {
            assert(text.take(cut) =~= clip(text, 700));
            assert forall|n: int| n <= cut implies !#[trigger] sentence_ends(text, n) by {
                assert(!sentence_ends(head, n));
            }
            if bytes(text) <= 700 {
                assert(clip(text, 700) == text);
                assert(false);
            }
        }
    }
}

/// The tools whose items are activity: commands, changes of files, calls of servers, searches and
/// images.
pub proof fn law_tools_make_activity(item: ThreadItemKind)
    ensures
        item.executes() <==> {
            ||| item is CommandExecution
            ||| item is FileChange
            ||| item is McpToolCall
            ||| item is WebSearch
            ||| item is ImageGeneration
        },
{
}

/// Each notification about a tool is an activity of its own, with what it holds, and belongs to the
/// turn that it names; each activity is shown as the notification that it was.
pub proof fn law_activity_is_told_as_it_was(activity: SupervisorActivity)
    ensures
        match activity {
            SupervisorActivity::ItemStarted(value) => activity.notification()
                == ServerNotification::ItemStarted(value) && activity.turn() == value.turn_id@,
            SupervisorActivity::ItemCompleted(value) => activity.notification()
                == ServerNotification::ItemCompleted(value) && activity.turn() == value.turn_id@,
            SupervisorActivity::CommandOutput(value) => activity.notification()
                == ServerNotification::CommandExecutionOutputDelta(value) && activity.turn()
                == value.turn_id@,
            SupervisorActivity::FileOutput(value) => activity.notification()
                == ServerNotification::FileChangeOutputDelta(value) && activity.turn()
                == value.turn_id@,
            SupervisorActivity::TerminalInteraction(value) => activity.notification()
                == ServerNotification::TerminalInteraction(value) && activity.turn()
                == value.turn_id@,
            SupervisorActivity::McpProgress(value) => activity.notification()
                == ServerNotification::McpToolCallProgress(value) && activity.turn()
                == value.turn_id@,
        },
{
}

/// What is stored has a size: 131072 bytes for a plan, 1048576 for an activity, 65536 for a
/// delivery and for a request. The offset into a history is at most 65536.
pub proof fn law_what_is_stored_has_a_size()
    ensures
        crate::history::MAX_PLAN_BYTES == 131072,
        crate::history::MAX_ACTIVITY_BYTES == 1048576,
        crate::history::MAX_DELIVERY_BYTES == 65536,
        crate::tool::MAX_REQUEST == 65536,
        crate::evidence::MAX_HISTORY_OFFSET == 65536,
{
}

/// A refused change of a plan is explained: each reason has its words.
pub proof fn law_refused_changes_are_explained(error: PlanError)
    ensures
        error == PlanError::NoActivePlan ==> error.text() == "no active plan"@,
        error == PlanError::StaleVersion ==> error.text() == "stale version; read the plan and retry"@,
        error == PlanError::UnfinishedPlan ==> error.text() == "finish or cancel the existing plan before creating another task"@,
        error == PlanError::UnexpandedStages ==> error.text() == "resolve unexpanded stages before creating another task"@,
        error == PlanError::MissingObjective ==> error.text() == "objective and acceptance are required"@,
        error == PlanError::NoPlan ==> error.text() == "create a plan first"@,
        error == PlanError::UnexplainedRevision ==> error.text() == "explain the revision"@,
        error == PlanError::DroppedStep ==> error.text() == "retain old steps; cancel rather than delete them"@,
        error == PlanError::FinishedStep ==> error.text() == "finished steps are immutable"@,
        error == PlanError::MovedStep ==> error.text() == "step stage identity is immutable"@,
        error == PlanError::UnknownStep ==> error.text() == "unknown step"@,
        error == PlanError::ForeignStep ==> error.text() == "step belongs to another executor"@,
        error == PlanError::StepRunning ==> error.text() == "pause the running step first"@,
        error == PlanError::UnverifiedDependencies ==> error.text() == "dependencies must be verified first"@,
        error == PlanError::EarlierStages ==> error.text() == "verify earlier stages before advancing"@,
        error == PlanError::CannotStart ==> error.text() == "step cannot start in this state"@,
        error == PlanError::NotRunning ==> error.text() == "only a running step may submit evidence"@,
        error == PlanError::UnboundedEvidence ==> error.text() == "provide 1–8 bounded evidence references"@,
        error == PlanError::UnexplainedInterruption ==> error.text() == "explain the interruption"@,
        error == PlanError::TextTooLong ==> error.text() == "plan text too long"@,
        error == PlanError::Counts ==> error.text() == "use 1–16 stages and 1–64 steps"@,
        error == PlanError::StageIds ==> error.text() == "stage IDs must be unique and bounded"@,
        error == PlanError::StageDescription ==> error.text() == "invalid stage description"@,
        error == PlanError::StageEstimate ==> error.text() == "invalid stage estimate"@,
        error == PlanError::Assumptions ==> error.text() == "assumptions too large"@,
        error == PlanError::UnknownStage ==> error.text() == "unknown stage"@,
        error == PlanError::StageOrder ==> error.text() == "keep steps in stage order"@,
        error == PlanError::Dependencies ==> error.text() == "at most 16 dependencies must precede the step"@,
        error == PlanError::StepIds ==> error.text() == "step IDs must be unique and bounded"@,
        error == PlanError::StepDescription ==> error.text() == "invalid step description"@,
        error == PlanError::StepEstimate ==> error.text() == "invalid step estimate"@,
{
}

/// A refused request is explained: each reason has its words, a refused change those of its own
/// reason, and a conversation that was not restored what kept it from that.
pub proof fn law_refused_requests_are_explained(error: RuntimeError, restore: Option<Seq<char>>)
    ensures
        error == RuntimeError::UseControls ==> error.text(restore) == "use Implementer controls for execution"@,
        error == RuntimeError::Stopped ==> error.text(restore) == "Supervisor is stopped"@,
        error == RuntimeError::ImplementerRunning ==> error.text(restore) == "pause the Implementer before selecting another step"@,
        error == RuntimeError::BudgetNeedsUser ==> error.text(restore) == "task token budget reached; ask the user before increasing it"@,
        error == RuntimeError::NoStepSelected ==> error.text(restore) == "select a step first"@,
        error == RuntimeError::SourceReused ==> error.text(restore) == "source message ID reused with different content"@,
        error == RuntimeError::OutcomeUnknown ==> error.text(restore) == "delivery outcome is unknown; inspect the Implementer history before continuing"@,
        error == RuntimeError::Inactive ==> error.text(restore) == "Continuous Planning is paused; resume before sending instructions"@,
        error == RuntimeError::Paused ==> error.text(restore) == "Continuous Planning is paused"@,
        error == RuntimeError::BudgetReached ==> error.text(restore) == "task token budget reached"@,
        error == RuntimeError::SelectBeforeSending ==> error.text(restore) == "select a step before sending instructions"@,
        error == RuntimeError::NoPlan ==> error.text(restore) == "create a plan first"@,
        error == RuntimeError::UnknownSelectedStep ==> error.text(restore) == "unknown selected step"@,
        error == RuntimeError::UnboundedVerification ==> error.text(restore) == "record bounded verification evidence"@,
        error == RuntimeError::EvidenceUnread ==> error.text(restore) == "read the submitted execution evidence before acceptance"@,
        error == RuntimeError::ImplementerUnfinished ==> error.text(restore) == "wait for Implementer to stop before acceptance"@,
        error == RuntimeError::NoTask ==> error.text(restore) == "no task"@,
        error == RuntimeError::StaleTask ==> error.text(restore) == "stale version; read current task"@,
        error == RuntimeError::UnknownStep ==> error.text(restore) == "unknown step"@,
        error == RuntimeError::NotSubmitted ==> error.text(restore) == "Implementer must finish with a final reply before acceptance"@,
        error == RuntimeError::NoEvidence ==> error.text(restore) == "no saved execution evidence; ask Implementer to verify the current state"@,
        error == RuntimeError::NoExecution ==> error.text(restore) == "no Implementer execution exists"@,
        error == RuntimeError::HistoryOffset ==> error.text(restore) == "history offset is too large"@,
        error == RuntimeError::NoHistory ==> error.text(restore) == "no matching Implementer history"@,
        error == RuntimeError::UnreadableHistory ==> error.text(restore) == "unreadable Implementer history"@,
        error == RuntimeError::UnexplainedPause ==> error.text(restore) == "explain the pause"@,
        error == RuntimeError::InvalidBudget ==> error.text(restore) == "provide a positive total budget or null to remove an explicitly lifted limit"@,
        error == RuntimeError::EvidenceOffset ==> error.text(restore) == "read evidence from offset zero first"@,
        error == RuntimeError::PageOffset ==> error.text(restore) == "invalid page offset"@,
        error == RuntimeError::RequestTooLarge ==> error.text(restore) == "request too large"@,
        error == RuntimeError::MissingPlan ==> error.text(restore) == "no plan"@,
        error == RuntimeError::MissingIdentity ==> error.text(restore) == "missing Implementer identity"@,
        error == RuntimeError::SupervisorStopped ==> error.text(restore) == "Supervisor stopped"@,
        error == RuntimeError::StaleActivity ==> error.text(restore) == "stale Implementer activity"@,
        error matches RuntimeError::Plan(reason) ==> error.text(restore) == reason.text(),
        error == RuntimeError::Restore && restore is Some ==> error.text(restore) == restore->0,
        error == RuntimeError::Restore && restore is None ==> error.text(restore).len() == 0,
{
}

/// A refused cursor is explained.
pub proof fn law_refused_cursors_are_explained(error: CursorError)
    ensures
        error == CursorError::Empty ==> error.text() == "cannot parse integer from empty string"@,
        error == CursorError::InvalidDigit ==> error.text() == "invalid digit found in string"@,
        error == CursorError::TooLarge ==> error.text() == "number too large to fit in target type"@,
        error == CursorError::TooSmall ==> error.text() == "number too small to fit in target type"@,
        error == CursorError::PlanCursor ==> error.text() == "invalid plan cursor"@,
        error == CursorError::ActivityCursor ==> error.text() == "invalid cursor"@,
{
}

/// What is not stored is explained.
pub proof fn law_refused_storage_is_explained(error: StorageError)
    ensures
        error == StorageError::PlanTooLarge ==> error.text() == "plan exceeds storage limit"@,
        error == StorageError::StalePlan ==> error.text() == "stale plan version; read the current plan before retrying"@,
        error == StorageError::ActivityTooLarge ==> error.text() == "supervisor activity exceeds storage limit"@,
        error == StorageError::DeliveryTooLarge ==> error.text() == "message delivery snapshot exceeds limit"@,
{
}

} // verus!
