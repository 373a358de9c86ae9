//! How a stream of text becomes a batch of messages, told by its characters and lines.

use crate::message::BatchView;
use crate::message::MessageRecipient;
use crate::message::MessageView;
use crate::message_laws::document;
use crate::message_laws::lines_text;
use crate::message_laws::opening_tag;
use crate::message_laws::plain_line;
use crate::message_laws::written_blocks;
use crate::message_laws::Block;
use crate::message_parser::block_id;
use crate::message_parser::closing_tag;
use crate::message_parser::opening_recipient;
use crate::message_parser::without_return;
use crate::message_parser::ParserView;
use crate::request_laws::bytes;
use crate::request_laws::law_blank_texts_are_illegible;
use crate::request_laws::legible;
use crate::text::decimal;
use crate::text::lemma_utf8_len_is_encoding_len;
use vstd::prelude::*;

verus! {

/// The tags are fixed, a carriage return before a line feed belongs to the end of the line, and a
/// message is known by its batch and its place, counted from one.
pub proof fn law_tags_are_fixed(line: Seq<char>, id: Seq<char>, index: nat)
    ensures
        closing_tag(MessageRecipient::User) == "</user>"@,
        closing_tag(MessageRecipient::Implementer) == "</implementer>"@,
        opening_recipient(line) == Some(MessageRecipient::User) <==> line == "<user>"@,
        opening_recipient(line) == Some(MessageRecipient::Implementer) <==> line
            == "<implementer>"@,
        opening_recipient(line) != Some(MessageRecipient::Supervisor),
        line.len() == 0 || line.last() != '\r' ==> without_return(line) == line,
        without_return(line.push('\r')) == line,
        block_id(id, index as int) == id + ":"@ + decimal(index + 1),
{
    reveal_strlit("<user>");
    reveal_strlit("<implementer>");
    assert("<user>"@.len() != "<implementer>"@.len());
    assert(line.push('\r').drop_last() =~= line);
}

/// A fault names the line and the block it was found in, counted from one.
pub open spec fn fault(p: ParserView, reason: Seq<char>) -> Option<Seq<char>> {
    Some(
        "Continuous Planning message error at line "@ + decimal(
            if p.line_number < 1 {
                1
            } else {
                p.line_number as nat
            },
        ) + ", block "@ + decimal(
            if p.block_number < 1 {
                1
            } else {
                p.block_number as nat
            },
        ) + ": "@ + reason,
    )
}

/// A line outside of every block begins the document, opens a block or ends the document; whatever
/// else it is, is a fault.
pub proof fn law_lines_outside_of_blocks(p: ParserView, line: Seq<char>)
    requires
        p.error is None,
        p.current is None,
    ensures
        ({
            let q = p.with_line(line);
            &&& q.line_number == p.line_number + 1
            &&& q.bytes == p.bytes
            &&& q.visible == p.visible
            &&& q.line == p.line
            &&& q.error is Some ==> q.messages == p.messages && q.current is None && q.started
                == p.started && q.ended == p.ended
            &&& !p.started ==> {
                &&& line == "<messages>"@ ==> q == ParserView {
                    started: true,
                    line_number: p.line_number + 1,
                    ..p
                }
                &&& line != "<messages>"@ ==> q.error == fault(q, "expected <messages>"@)
            }
            &&& p.started && p.ended ==> q.error == fault(
                q,
                "content after the message terminator"@,
            )
            &&& p.started && !p.ended ==> {
                &&& line == "</messages>"@ && p.messages.len() == 0 ==> q.error == fault(
                    q,
                    "batch must contain at least one message"@,
                )
                &&& line == "</messages>"@ && p.messages.len() > 0 ==> q == ParserView {
                    ended: true,
                    line_number: p.line_number + 1,
                    ..p
                }
                &&& line == "<user>"@ && p.messages.len() != 8 ==> opened(
                    p,
                    q,
                    MessageRecipient::User,
                )
                &&& line == "<implementer>"@ && p.messages.len() != 8 ==> opened(
                    p,
                    q,
                    MessageRecipient::Implementer,
                )
                &&& (line == "<user>"@ || line == "<implementer>"@) && p.messages.len() == 8
                    ==> q.error == fault(q, "batch exceeds eight messages"@)
                &&& line != "<user>"@ && line != "<implementer>"@ && line != "</messages>"@
                    ==> q.error == fault(q, "expected <user>, <implementer>, or </messages>"@)
            }
        }),
{
    reveal_strlit("<user>");
    reveal_strlit("<implementer>");
    reveal_strlit("</messages>");
    assert("<user>"@.len() != "</messages>"@.len());
    assert("<implementer>"@.len() != "</messages>"@.len());
    assert("<user>"@.len() != "<implementer>"@.len());
    let q = p.with_line(line);
    if q.current is Some {
        assert(q.messages.drop_last() =~= p.messages);
    }
}

/// A block that was just opened: one more message, for its recipient, with nothing in it yet.
pub open spec fn opened(p: ParserView, q: ParserView, recipient: MessageRecipient) -> bool {
    &&& q.error is None
    &&& q.started
    &&& !q.ended
    &&& q.current == Some(recipient)
    &&& q.block_number == p.messages.len() + 1
    &&& q.candidate == p.candidate
    &&& q.messages.len() == p.messages.len() + 1
    &&& q.messages.drop_last() == p.messages
    &&& q.messages.last().recipient == recipient
    &&& q.messages.last().text.len() == 0
}

/// A line inside of a block closes it, where there is something to read in it, or is a line of its
/// text. The end of the document is a fault there.
pub proof fn law_lines_inside_of_blocks(p: ParserView, line: Seq<char>)
    requires
        p.error is None,
        p.started,
        !p.ended,
        p.messages.len() > 0,
        p.current == Some(MessageRecipient::User) || p.current == Some(
            MessageRecipient::Implementer,
        ),
    ensures
        ({
            let q = p.with_line(line);
            let close = if p.current == Some(MessageRecipient::User) {
                "</user>"@
            } else {
                "</implementer>"@
            };
            &&& q.line_number == p.line_number + 1
            &&& q.block_number == p.block_number
            &&& q.bytes == p.bytes
            &&& q.visible == p.visible
            &&& q.started
            &&& !q.ended
            &&& line == "</messages>"@ ==> q.error == fault(
                q,
                "close the current message before </messages>"@,
            )
            &&& line == close && legible(p.messages.last().text) ==> q == ParserView {
                current: None,
                candidate: Seq::empty(),
                line_number: p.line_number + 1,
                ..p
            }
            &&& line == close && !legible(p.messages.last().text) ==> q.error == fault(
                q,
                "message must contain nonempty text"@,
            )
            &&& line != close && line != "</messages>"@ ==> {
                &&& q.error is None
                &&& q.current == p.current
                &&& q.candidate == p.candidate
                &&& q.messages.len() == p.messages.len()
                &&& q.messages.drop_last() == p.messages.drop_last()
                &&& q.messages.last().id == p.messages.last().id
                &&& q.messages.last().recipient == p.messages.last().recipient
                &&& q.messages.last().text == p.messages.last().text + line + seq!['\n']
            }
        }),
{
    law_blank_texts_are_illegible(p.messages.last().text);
    reveal_strlit("</user>");
    reveal_strlit("</implementer>");
    reveal_strlit("</messages>");
    assert("</user>"@.len() != "</messages>"@.len());
    assert("</implementer>"@.len() != "</messages>"@.len());
    assert((p.messages.last().text + line).push('\n') =~= p.messages.last().text + line + seq![
        '\n',
    ]);
    let q = p.with_line(line);
    assert(q.messages.drop_last() =~= p.messages.drop_last());
}

/// A stream is read character by character: up to 8192 bytes in all, in lines. Nothing is read
/// after a fault.
pub proof fn law_streams_are_read_in_order(p: ParserView, chars: Seq<char>, ch: char)
    ensures
        p.fed(Seq::empty()) == p,
        p.fed(chars).error is Some ==> p.fed(chars.push(ch)) == p.fed(chars),
        p.fed(chars).error is None ==> p.fed(chars.push(ch)) == p.fed(chars).step(ch),
        p.error is Some ==> p.pushed(chars) == p,
        p.error is None ==> p.pushed(chars) == (ParserView { visible: Seq::empty(), ..p }).fed(
            chars,
        ),
{
    assert(chars.push(ch).drop_last() =~= chars);
}

/// One more character is counted by its bytes, and makes a fault where they are too many. A line
/// feed ends the line, any other character belongs to it.
pub proof fn law_characters_make_lines(p: ParserView, ch: char)
    requires
        p.error is None,
    ensures
        ({
            let q = p.step(ch);
            let size = bytes(seq![ch]);
            let shown = p.observed(ch);
            &&& p.bytes + size > 8192 ==> q.error == fault(q, "batch exceeds 8 KiB"@)
                && q.line_number == p.line_number + 1 && q.messages == p.messages && q.visible
                == p.visible
            &&& p.bytes + size <= 8192 && ch != '\n' ==> q == ParserView {
                bytes: p.bytes + size,
                line: p.line + seq![ch],
                visible: shown.visible,
                candidate: shown.candidate,
                ..p
            }
            &&& p.bytes + size <= 8192 && ch == '\n' ==> q == ParserView {
                bytes: p.bytes + 1,
                line: Seq::empty(),
                visible: shown.visible,
                candidate: shown.candidate,
                ..p
            }.with_line(
                if p.line.len() > 0 && p.line[p.line.len() - 1] == '\r' {
                    p.line.take(p.line.len() - 1)
                } else {
                    p.line
                },
            )
        }),
{
    let one = seq![ch];
    lemma_utf8_len_is_encoding_len(one);
    assert(one.drop_first() =~= Seq::<char>::empty());
    reveal_with_fuel(crate::text::utf8_len, 2);
    assert(p.line.push(ch) =~= p.line + one);
    if p.line.len() > 0 {
        assert(p.line.drop_last() =~= p.line.take(p.line.len() - 1));
    }
}

/// What is written to the user is shown as it comes; what may be the end of the block waits, and is
/// shown as soon as it is not.
pub proof fn law_the_end_of_a_block_is_not_shown(p: ParserView, ch: char)
    ensures
        ({
            let q = p.observed(ch);
            let waits = p.candidate + seq![ch];
            &&& p == ParserView { visible: p.visible, candidate: p.candidate, ..q }
            &&& p.current != Some(MessageRecipient::User) ==> q == p
            &&& p.current == Some(MessageRecipient::User) && p.candidate.len() == 0 ==> {
                &&& ch == '<' ==> q.visible == p.visible && q.candidate == seq!['<']
                &&& ch != '<' ==> q.visible == p.visible + seq![ch] && q.candidate.len() == 0
            }
            &&& p.current == Some(MessageRecipient::User) && p.candidate.len() > 0 ==> {
                &&& p.candidate == "</user>"@ && ch == '\n' ==> q == p
                &&& waits.is_prefix_of("</user>"@) ==> q.visible == p.visible && q.candidate
                    == waits
                &&& !waits.is_prefix_of("</user>"@) && !(p.candidate == "</user>"@ && ch == '\n')
                    ==> q.visible == p.visible + waits && q.candidate.len() == 0
            }
        }),
{
    let waits = p.candidate + seq![ch];
    assert(p.candidate.push(ch) =~= waits);
    assert(p.visible.push(ch) =~= p.visible + seq![ch]);
    if p.candidate.len() == 0 {
        assert(p.candidate.push('<') =~= seq!['<']);
    }
    if p.candidate == "</user>"@ && ch == '\n' {
        assert(waits.len() > "</user>"@.len());
    }
}

/// A stream ends with its last line, whether or not a line feed stands behind it. It gives a batch
/// where the document has ended, with the messages it held; any other end is a fault.
pub proof fn law_batches_come_from_ended_documents(p: ParserView, id: Seq<char>, final_answer: bool)
    requires
        p.error is None,
    ensures
        ({
            let end = if p.line.len() == 0 {
                p
            } else {
                (ParserView { line: Seq::empty(), ..p }).with_line(p.line)
            };
            let result = p.finished(id, final_answer);
            &&& end.error matches Some(error) ==> result == Err::<BatchView, Seq<char>>(error)
            &&& end.error is None && !end.ended ==> result is Err && fault(
                end,
                "missing message terminator"@,
            ) == Some(result->Err_0)
            &&& end.error is None && end.ended ==> {
                let batch = result->Ok_0;
                &&& result is Ok
                &&& batch.id == id
                &&& batch.sender == MessageRecipient::Supervisor
                &&& batch.audience == MessageRecipient::User
                &&& batch.final_answer == final_answer
                &&& batch.messages.len() == end.messages.len()
                &&& forall|i: int|
                    0 <= i < end.messages.len() ==> {
                        &&& (#[trigger] batch.messages[i]).recipient == end.messages[i].recipient
                        &&& batch.messages[i].text == end.messages[i].text
                        &&& batch.messages[i].id == id + ":"@ + decimal((i + 1) as nat)
                    }
            }
        }),
{
}

/// What was read of a document so far: whole blocks, and the lines of the block that is open.
pub struct Draft {
    pub blocks: Seq<Block>,
    pub lines: Seq<Seq<char>>,
}

spec fn same_messages(messages: Seq<MessageView>, blocks: Seq<Block>) -> bool {
    &&& messages.len() == blocks.len()
    &&& forall|i: int|
        0 <= i < blocks.len() ==> {
            &&& (#[trigger] blocks[i]).recipient == messages[i].recipient
            &&& blocks[i].text() == messages[i].text
            &&& blocks[i].plain()
        }
}

spec fn drafted(p: ParserView, read: Seq<char>, draft: Draft) -> bool {
    let head = "<messages>"@.push('\n') + written_blocks(draft.blocks);
    &&& !p.line.contains('\n')
    &&& !p.line.contains('\r')
    &&& !p.started ==> read == p.line && !p.ended && p.current is None && p.messages.len() == 0
    &&& p.started && p.current is None ==> same_messages(p.messages, draft.blocks)
    &&& p.started && p.current is None && !p.ended ==> read == head + p.line
    &&& p.ended ==> p.started && p.current is None && p.messages.len() > 0 && read == document(
        draft.blocks,
    ).push('\n') + p.line
    &&& p.current matches Some(recipient) ==> {
        &&& p.started
        &&& !p.ended
        &&& recipient != MessageRecipient::Supervisor
        &&& p.messages.len() > 0
        &&& same_messages(p.messages.drop_last(), draft.blocks)
        &&& p.messages.last().recipient == recipient
        &&& p.messages.last().text == lines_text(draft.lines)
        &&& forall|i: int|
            0 <= i < draft.lines.len() ==> plain_line(#[trigger] draft.lines[i], recipient)
        &&& read == head + opening_tag(recipient).push('\n') + lines_text(draft.lines) + p.line
    }
    &&& p.messages.len() <= 8
}

proof fn lemma_without(s: Seq<char>, t: Seq<char>, c: char)
    requires
        !s.contains(c),
        t.len() <= s.len(),
        t == s.take(t.len() as int),
    ensures
        !t.contains(c),
{
    if t.contains(c) {
        let i = t.index_of(c);
        assert(s[i] == c);
    }
}

/// What a stream without carriage returns holds as long as there is no fault in it.
proof fn lemma_drafted(read: Seq<char>) -> (draft: Draft)
    requires
        !read.contains('\r'),
        ParserView::initial().fed(read).error is None,
    ensures
        drafted(ParserView::initial().fed(read), read, draft),
    decreases read.len(),
{
    let p = ParserView::initial().fed(read);
    if read.len() == 0 {
        let draft = Draft { blocks: Seq::empty(), lines: Seq::empty() };
        assert(read =~= p.line);
        draft
    } else {
        let rest = read.drop_last();
        let ch = read.last();
        assert(rest =~= read.take(rest.len() as int));
        lemma_without(read, rest, '\r');
        assert(ch != '\r') by {
            assert(read[read.len() - 1] == ch);
        }
        let q = ParserView::initial().fed(rest);
        assert(q.error is None);
        assert(p == q.step(ch));
        let draft = lemma_drafted(rest);
        assert(read =~= rest.push(ch));
        law_characters_make_lines(q, ch);
        if ch != '\n' {
            assert(p.line =~= q.line.push(ch));
            assert(!p.line.contains('\n') && !p.line.contains('\r')) by {
                assert forall|i: int| 0 <= i < p.line.len() implies p.line[i] != '\n' && p.line[i]
                    != '\r' by {
                    if i < q.line.len() {
                        assert(p.line[i] == q.line[i]);
                        assert(q.line.contains(q.line[i]));
                    }
                }
            }
            let head = "<messages>"@.push('\n') + written_blocks(draft.blocks);
            if !q.started {
                assert(read =~= p.line);
            } else if q.ended {
                assert(read =~= document(draft.blocks).push('\n') + p.line);
            } else if q.current is None {
                assert(read =~= head + p.line);
            } else {
                let recipient = q.current->0;
                assert(read =~= head + opening_tag(recipient).push('\n') + lines_text(draft.lines)
                    + p.line);
            }
            draft
        } else {
            let line = q.line;
            assert(line.len() > 0 ==> line[line.len() - 1] != '\r') by {
                if line.len() > 0 {
                    assert(line.contains(line[line.len() - 1]));
                }
            }
            let shown = q.observed(ch);
            let r = ParserView {
                bytes: q.bytes + 1,
                line: Seq::empty(),
                visible: shown.visible,
                candidate: shown.candidate,
                ..q
            };
            assert(p == r.with_line(line));
            lemma_drafted_line(q, r, p, rest, draft)
        }
    }
}

proof fn lemma_line_outside(
    q: ParserView,
    r: ParserView,
    p: ParserView,
    rest: Seq<char>,
    draft: Draft,
) -> (next: Draft)
    requires
        drafted(q, rest, draft),
        q.error is None,
        r.error is None,
        r.line == Seq::<char>::empty(),
        r.started == q.started,
        r.ended == q.ended,
        r.current == q.current,
        r.messages == q.messages,
        p == r.with_line(q.line),
        p.error is None,
        r.current is None,
    ensures
        drafted(p, rest.push('\n'), next),
{
    let line = q.line;
    let head = "<messages>"@.push('\n') + written_blocks(draft.blocks);
    let read = rest.push('\n');
    law_lines_outside_of_blocks(r, line);
    assert(p.line == r.line);
    if !r.started {
        assert(line == "<messages>"@);
        let next = Draft { blocks: Seq::empty(), lines: Seq::empty() };
        assert(written_blocks(next.blocks) =~= Seq::empty());
        assert(read =~= "<messages>"@.push('\n') + written_blocks(next.blocks) + p.line);
        next
    } else if line == "</messages>"@ {
        assert(read =~= document(draft.blocks).push('\n') + p.line);
        draft
    } else {
        let recipient = p.current->0;
        assert(line == opening_tag(recipient));
        let next = Draft { blocks: draft.blocks, lines: Seq::empty() };
        assert(lines_text(next.lines) =~= Seq::empty());
        assert(p.messages.last().text =~= Seq::empty());
        assert(read =~= head + opening_tag(recipient).push('\n') + lines_text(next.lines)
            + p.line);
        next
    }
}

proof fn lemma_line_closes(
    q: ParserView,
    r: ParserView,
    p: ParserView,
    rest: Seq<char>,
    draft: Draft,
) -> (next: Draft)
    requires
        drafted(q, rest, draft),
        q.error is None,
        r.error is None,
        r.line == Seq::<char>::empty(),
        r.started == q.started,
        r.ended == q.ended,
        r.current == q.current,
        r.messages == q.messages,
        p == r.with_line(q.line),
        p.error is None,
        r.current matches Some(recipient) && q.line == closing_tag(recipient),
    ensures
        drafted(p, rest.push('\n'), next),
{
    let line = q.line;
    let read = rest.push('\n');
    let recipient = r.current->0;
    law_lines_inside_of_blocks(r, line);
    law_tags_are_fixed(line, line, 0);
    let block = Block { recipient, lines: draft.lines };
    law_blank_texts_are_illegible(r.messages.last().text);
    let next = Draft { blocks: draft.blocks.push(block), lines: Seq::empty() };
    assert(next.blocks.drop_last() =~= draft.blocks);
    assert(block.plain());
    assert(same_messages(p.messages, next.blocks)) by {
        assert forall|i: int| 0 <= i < next.blocks.len() implies {
            &&& (#[trigger] next.blocks[i]).recipient == p.messages[i].recipient
            &&& next.blocks[i].text() == p.messages[i].text
            &&& next.blocks[i].plain()
        } by {
            if i < draft.blocks.len() {
                assert(next.blocks[i] == draft.blocks[i]);
                assert(r.messages.drop_last()[i] == r.messages[i]);
            }
        }
    }
    assert(p.line == r.line);
    let before = "<messages>"@.push('\n') + written_blocks(draft.blocks);
    let open = opening_tag(recipient).push('\n');
    assert(written_blocks(next.blocks) == written_blocks(draft.blocks) + block.written());
    assert(rest == before + open + lines_text(draft.lines) + line);
    assert(read =~= before + (open + lines_text(draft.lines) + line.push('\n')));
    assert("<messages>"@.push('\n') + written_blocks(next.blocks) + p.line =~= before
        + block.written());
    next
}

proof fn lemma_line_is_text(
    q: ParserView,
    r: ParserView,
    p: ParserView,
    rest: Seq<char>,
    draft: Draft,
) -> (next: Draft)
    requires
        drafted(q, rest, draft),
        q.error is None,
        r.error is None,
        r.line == Seq::<char>::empty(),
        r.started == q.started,
        r.ended == q.ended,
        r.current == q.current,
        r.messages == q.messages,
        p == r.with_line(q.line),
        p.error is None,
        r.current matches Some(recipient) && q.line != closing_tag(recipient),
    ensures
        drafted(p, rest.push('\n'), next),
{
    let line = q.line;
    let read = rest.push('\n');
    let recipient = r.current->0;
    let before = "<messages>"@.push('\n') + written_blocks(draft.blocks);
    let open = opening_tag(recipient).push('\n');
    law_lines_inside_of_blocks(r, line);
    law_tags_are_fixed(line, line, 0);
    assert(line.len() > 0 ==> line.last() != '\r') by {
        if line.len() > 0 {
            assert(line.contains(line[line.len() - 1]));
        }
    }
    let next = Draft { blocks: draft.blocks, lines: draft.lines.push(line) };
    assert(next.lines.drop_last() =~= draft.lines);
    assert(plain_line(line, recipient));
    assert forall|i: int| 0 <= i < next.lines.len() implies plain_line(
        #[trigger] next.lines[i],
        recipient,
    ) by {
        if i < draft.lines.len() {
            assert(next.lines[i] == draft.lines[i]);
        }
    }
    assert(lines_text(next.lines) =~= lines_text(draft.lines) + line + seq!['\n']);
    assert(p.line == r.line);
    assert(rest == before + open + lines_text(draft.lines) + line);
    assert(read =~= before + open + (lines_text(draft.lines) + line + seq!['\n']));
    assert(before + open + lines_text(next.lines) + p.line =~= before + open + lines_text(
        next.lines,
    ));
    next
}

proof fn lemma_drafted_line(
    q: ParserView,
    r: ParserView,
    p: ParserView,
    rest: Seq<char>,
    draft: Draft,
) -> (next: Draft)
    requires
        drafted(q, rest, draft),
        q.error is None,
        r.error is None,
        r.line == Seq::<char>::empty(),
        r.started == q.started,
        r.ended == q.ended,
        r.current == q.current,
        r.messages == q.messages,
        p == r.with_line(q.line),
        p.error is None,
    ensures
        drafted(p, rest.push('\n'), next),
{
    if r.current is None {
        lemma_line_outside(q, r, p, rest, draft)
    } else if q.line == closing_tag(r.current->0) {
        lemma_line_closes(q, r, p, rest, draft)
    } else {
        lemma_line_is_text(q, r, p, rest, draft)
    }
}

/// The messages of a batch are those of a document.
pub open spec fn batch_of(batch: BatchView, blocks: Seq<Block>) -> bool {
    &&& 1 <= blocks.len() <= 8
    &&& batch.messages.len() == blocks.len()
    &&& forall|i: int|
        0 <= i < blocks.len() ==> {
            &&& (#[trigger] blocks[i]).plain()
            &&& batch.messages[i].recipient == blocks[i].recipient
            &&& batch.messages[i].text == blocks[i].text()
        }
}

/// A stream without carriage returns gives a batch only if it is the document of that batch, with
/// or without a line feed at its end.
pub proof fn law_accepted_streams_are_documents(
    stream: Seq<char>,
    id: Seq<char>,
    final_answer: bool,
)
    requires
        !stream.contains('\r'),
        ParserView::initial().pushed(stream).finished(id, final_answer) is Ok,
    ensures
        exists|blocks: Seq<Block>| #[trigger]
            batch_of(
                ParserView::initial().pushed(stream).finished(id, final_answer)->Ok_0,
                blocks,
            ) && (stream == document(blocks) || stream == document(blocks) + seq!['\n']),
{
    let start = ParserView::initial();
    assert((ParserView { visible: Seq::empty(), ..start }) == start);
    let p = start.fed(stream);
    assert(p == start.pushed(stream));
    assert(p.error is None);
    let draft = lemma_drafted(stream);
    law_batches_come_from_ended_documents(p, id, final_answer);
    let batch = p.finished(id, final_answer)->Ok_0;
    if p.line.len() == 0 {
        assert(p.ended);
        assert(document(draft.blocks).push('\n') + p.line =~= document(draft.blocks) + seq!['\n']);
        assert(batch_of(batch, draft.blocks));
    } else {
        let r = ParserView { line: Seq::empty(), ..p };
        let end = r.with_line(p.line);
        if p.current is None {
            law_lines_outside_of_blocks(r, p.line);
            assert(stream =~= document(draft.blocks));
            assert(batch_of(batch, draft.blocks));
        } else {
            law_lines_inside_of_blocks(r, p.line);
            assert(false);
        }
    }
}

/// A stream begins with nothing read, and what became visible is taken once.
pub proof fn law_streams_begin_with_nothing(p: ParserView)
    ensures
        ({
            let start = ParserView::initial();
            &&& start.bytes == 0
            &&& start.line.len() == 0
            &&& start.line_number == 0
            &&& start.block_number == 0
            &&& !start.started
            &&& !start.ended
            &&& start.current is None
            &&& start.messages.len() == 0
            &&& start.visible.len() == 0
            &&& start.candidate.len() == 0
            &&& start.error is None
        }),
        p.visible.len() == 0 ==> p.visible_delta() is None,
        p.visible.len() > 0 ==> p.visible_delta() == Some(p.visible),
        p.taken().visible.len() == 0,
        p == (ParserView { visible: p.visible, ..p.taken() }),
        p.error is None ==> p.outcome() is Ok,
        p.error matches Some(error) ==> p.outcome() == Err::<(), Seq<char>>(error),
{
}

} // verus!
