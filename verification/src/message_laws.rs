//! What the message protocol promises of every stream.

use crate::fragments::concatenated;
use crate::message::BatchView;
use crate::message::MessageRecipient;
use crate::message::MessageView;
use crate::message_parser::block_id;
use crate::message_parser::closing_tag;
use crate::message_parser::opening_recipient;
use crate::message_parser::without_return;
use crate::message_parser::ParserView;
use crate::message_parser::MAX_BATCH_BYTES;
use crate::message_parser::MAX_MESSAGES;
use crate::text::blank;
use crate::text::char_bytes;
use crate::text::lemma_utf8_len_concat;
use crate::text::lemma_utf8_len_push;
use crate::text::utf8_len;
use vstd::prelude::*;

verus! {

proof fn lemma_fed_concat(p: ParserView, a: Seq<char>, b: Seq<char>)
    ensures
        p.fed(a + b) == (if p.fed(a).error is Some {
            p.fed(a)
        } else {
            p.fed(a).fed(b)
        }),
    decreases b.len(),
{
    if b.len() == 0 {
        assert(a + b =~= a);
    } else {
        lemma_fed_concat(p, a, b.drop_last());
        assert((a + b).drop_last() =~= a + b.drop_last());
        assert((a + b).last() == b.last());
    }
}

spec fn seen(p: ParserView, visible: Seq<char>) -> ParserView {
    ParserView { visible, ..p }
}

proof fn lemma_visible_accumulates(p: ParserView, before: Seq<char>, chars: Seq<char>)
    requires
        p.visible == Seq::<char>::empty(),
    ensures
        seen(p, before).fed(chars) == seen(p.fed(chars), before + p.fed(chars).visible),
    decreases chars.len(),
{
    if chars.len() == 0 {
        assert(before + p.visible =~= before);
    } else {
        lemma_visible_accumulates(p, before, chars.drop_last());
        let q = p.fed(chars.drop_last());
        let r = seen(p, before).fed(chars.drop_last());
        assert(r == seen(q, before + q.visible));
        if q.error is None {
            let ch = chars.last();
            if char_bytes(ch) <= MAX_BATCH_BYTES - q.bytes {
                let q1 = ParserView { bytes: q.bytes + char_bytes(ch), ..q };
                let r1 = ParserView { bytes: r.bytes + char_bytes(ch), ..r };
                assert(r1.observed(ch).visible =~= before + q1.observed(ch).visible);
                assert(r1.observed(ch) == seen(q1.observed(ch), before + q1.observed(ch).visible));
            }
        }
    }
}

/// Where the stream is cut makes no difference: two parts one after the other leave the parser
/// as the whole does, and what becomes visible of the parts is what becomes visible of the whole.
pub proof fn law_cuts_make_no_difference(p: ParserView, a: Seq<char>, b: Seq<char>)
    requires
        p.error is None,
    ensures
        ({
            let whole = p.pushed(a + b);
            let first = p.pushed(a);
            let second = first.pushed(b);
            &&& first.error is Some ==> whole == first && second == first
            &&& first.error is None ==> whole == (ParserView {
                visible: first.visible + second.visible,
                ..second
            })
        }),
{
    let start = ParserView { visible: Seq::empty(), ..p };
    lemma_fed_concat(start, a, b);
    let first = p.pushed(a);
    if first.error is None {
        let cleared = seen(first, Seq::empty());
        lemma_visible_accumulates(cleared, first.visible, b);
        assert(seen(cleared, first.visible) == first);
    }
}

/// A parser that failed reads nothing more, keeps its error and never gives a batch.
pub proof fn law_failures_are_final(
    p: ParserView,
    delta: Seq<char>,
    id: Seq<char>,
    final_answer: bool,
)
    requires
        p.error is Some,
    ensures
        p.pushed(delta) == p,
        p.finished(id, final_answer) == Err::<BatchView, Seq<char>>(p.error->0),
{
}

/// A batch holds between one and eight messages, each for the user or the Implementer, each
/// with text, and each with an ID made of the batch's ID and its place.
pub proof fn law_batches_are_complete(p: ParserView, id: Seq<char>, final_answer: bool)
    requires
        p.wf(),
        p.finished(id, final_answer) is Ok,
    ensures
        ({
            let batch = p.finished(id, final_answer)->Ok_0;
            &&& batch.id == id
            &&& batch.sender == MessageRecipient::Supervisor
            &&& batch.audience == MessageRecipient::User
            &&& batch.final_answer == final_answer
            &&& 1 <= batch.messages.len() <= MAX_MESSAGES
            &&& forall|i: int|
                0 <= i < batch.messages.len() ==> {
                    &&& (#[trigger] batch.messages[i]).id == block_id(id, i)
                    &&& batch.messages[i].recipient != MessageRecipient::Supervisor
                    &&& !blank(batch.messages[i].text)
                }
        }),
{
}

/// A character becomes visible only inside a message for the user.
pub proof fn law_only_user_text_is_visible(p: ParserView, ch: char)
    requires
        p.current != Some(MessageRecipient::User),
    ensures
        p.step(ch).visible == p.visible,
{
}

/// A message as it is written: its recipient and its lines.
pub struct Block {
    pub recipient: MessageRecipient,
    pub lines: Seq<Seq<char>>,
}

/// Lines with a line feed after each.
pub open spec fn lines_text(lines: Seq<Seq<char>>) -> Seq<char>
    decreases lines.len(),
{
    if lines.len() == 0 {
        Seq::empty()
    } else {
        (lines_text(lines.drop_last()) + lines.last()).push('\n')
    }
}

pub open spec fn opening_tag(recipient: MessageRecipient) -> Seq<char> {
    match recipient {
        MessageRecipient::User => "<user>"@,
        MessageRecipient::Implementer => "<implementer>"@,
        MessageRecipient::Supervisor => "<supervisor>"@,
    }
}

/// A line that a message can hold as it is.
pub open spec fn plain_line(line: Seq<char>, recipient: MessageRecipient) -> bool {
    &&& !line.contains('\n')
    &&& without_return(line) == line
    &&& line != closing_tag(recipient)
    &&& line != "</messages>"@
}

impl Block {
    pub open spec fn text(self) -> Seq<char> {
        lines_text(self.lines)
    }

    pub open spec fn plain(self) -> bool {
        &&& self.recipient != MessageRecipient::Supervisor
        &&& forall|i: int|
            0 <= i < self.lines.len() ==> plain_line(#[trigger] self.lines[i], self.recipient)
        &&& !blank(self.text())
    }

    pub open spec fn written(self) -> Seq<char> {
        opening_tag(self.recipient).push('\n') + self.text() + closing_tag(self.recipient).push(
            '\n',
        )
    }
}

pub open spec fn written_blocks(blocks: Seq<Block>) -> Seq<char>
    decreases blocks.len(),
{
    if blocks.len() == 0 {
        Seq::empty()
    } else {
        written_blocks(blocks.drop_last()) + blocks.last().written()
    }
}

/// The canonical document of some messages.
pub open spec fn document(blocks: Seq<Block>) -> Seq<char> {
    "<messages>"@.push('\n') + written_blocks(blocks) + "</messages>"@
}

/// A parser without what it shows on the way.
spec fn hidden(p: ParserView) -> ParserView {
    ParserView { visible: Seq::empty(), candidate: Seq::empty(), ..p }
}

proof fn lemma_core_of_line(p: ParserView, q: ParserView, line: Seq<char>)
    requires
        hidden(p) == hidden(q),
    ensures
        hidden(p.with_line(line)) == hidden(q.with_line(line)),
{
    assert(p.bytes == hidden(p).bytes && q.bytes == hidden(q).bytes);
    assert(p.line == hidden(p).line && q.line == hidden(q).line);
    assert(p.line_number == hidden(p).line_number && q.line_number == hidden(q).line_number);
    assert(p.block_number == hidden(p).block_number && q.block_number == hidden(q).block_number);
    assert(p.started == hidden(p).started && q.started == hidden(q).started);
    assert(p.ended == hidden(p).ended && q.ended == hidden(q).ended);
    assert(p.current == hidden(p).current && q.current == hidden(q).current);
    assert(p.messages == hidden(p).messages && q.messages == hidden(q).messages);
    assert(p.error == hidden(p).error && q.error == hidden(q).error);
}

proof fn lemma_feed_characters(p: ParserView, chars: Seq<char>)
    requires
        p.error is None,
        !chars.contains('\n'),
        p.bytes + utf8_len(chars) <= MAX_BATCH_BYTES,
    ensures
        p.fed(chars).error is None,
        hidden(p.fed(chars)) == hidden(
            ParserView { bytes: p.bytes + utf8_len(chars), line: p.line + chars, ..p },
        ),
    decreases chars.len(),
{
    if chars.len() == 0 {
        assert(p.line + chars =~= p.line);
    } else {
        let rest = chars.drop_last();
        let ch = chars.last();
        assert(rest.push(ch) =~= chars);
        lemma_utf8_len_push(rest, ch);
        assert(!rest.contains('\n')) by {
            if rest.contains('\n') {
                let i = rest.index_of('\n');
                assert(chars[i] == '\n');
            }
        }
        lemma_feed_characters(p, rest);
        let q = p.fed(rest);
        assert(q.bytes == hidden(q).bytes);
        assert(q.line == hidden(q).line);
        assert(chars[chars.len() - 1] == ch);
        assert(ch != '\n');
        assert(p.line + chars =~= (p.line + rest).push(ch));
        let next = p.fed(chars);
        assert(next == q.step(ch));
        assert(hidden(next) == ParserView {
            bytes: q.bytes + char_bytes(ch),
            line: q.line.push(ch),
            ..hidden(q)
        });
    }
}

/// A complete line does what the line alone does.
proof fn lemma_feed_line(p: ParserView, line: Seq<char>)
    requires
        p.error is None,
        p.line.len() == 0,
        !line.contains('\n'),
        without_return(line) == line,
        p.bytes + utf8_len(line) + 1 <= MAX_BATCH_BYTES,
    ensures
        hidden(p.fed(line.push('\n'))) == hidden(
            ParserView { bytes: p.bytes + utf8_len(line) + 1, ..p }.with_line(line),
        ),
{
    lemma_feed_characters(p, line);
    let q = p.fed(line);
    let whole = line.push('\n');
    assert(whole.drop_last() =~= line);
    assert(p.line + line =~= line);
    assert(q.bytes == hidden(q).bytes);
    assert(q.line == hidden(q).line);
    assert(p.fed(whole) == q.step('\n'));
    let r = ParserView { bytes: q.bytes + 1, ..q }.observed('\n');
    assert(p.line =~= Seq::<char>::empty());
    lemma_core_of_line(
        ParserView { line: Seq::empty(), ..r },
        ParserView { bytes: p.bytes + utf8_len(line) + 1, ..p },
        line,
    );
}

/// The state between two blocks.
spec fn between(p: ParserView, messages: Seq<MessageView>) -> bool {
    &&& p.error is None
    &&& p.started
    &&& !p.ended
    &&& p.current is None
    &&& p.line.len() == 0
    &&& p.messages == messages
    &&& 0 <= p.bytes
}

spec fn unnamed(block: Block) -> MessageView {
    MessageView { id: Seq::empty(), recipient: block.recipient, text: block.text() }
}

/// The state inside a block.
spec fn inside(p: ParserView, messages: Seq<MessageView>, recipient: MessageRecipient) -> bool {
    &&& p.error is None
    &&& p.started
    &&& !p.ended
    &&& p.current == Some(recipient)
    &&& p.line.len() == 0
    &&& p.messages == messages
}

proof fn lemma_feed_lines(
    p: ParserView,
    messages: Seq<MessageView>,
    recipient: MessageRecipient,
    lines: Seq<Seq<char>>,
)
    requires
        messages.len() > 0,
        messages.last().text == Seq::<char>::empty(),
        inside(p, messages, recipient),
        forall|i: int|
            0 <= i < lines.len() ==> plain_line(#[trigger] lines[i], recipient),
        p.bytes + utf8_len(lines_text(lines)) <= MAX_BATCH_BYTES,
    ensures
        ({
            let q = p.fed(lines_text(lines));
            &&& inside(
                q,
                messages.drop_last().push(
                    MessageView { text: lines_text(lines), ..messages.last() },
                ),
                recipient,
            )
            &&& q.bytes == p.bytes + utf8_len(lines_text(lines))
        }),
    decreases lines.len(),
{
    if lines.len() == 0 {
        assert(messages.drop_last().push(
            MessageView { text: Seq::empty(), ..messages.last() },
        ) =~= messages);
    } else {
        let rest = lines.drop_last();
        let line = lines.last();
        assert(plain_line(lines[lines.len() - 1], recipient));
        assert forall|i: int| 0 <= i < rest.len() implies plain_line(
            #[trigger] rest[i],
            recipient,
        ) by {
            assert(rest[i] == lines[i]);
        }
        let head = lines_text(rest);
        let tail = line.push('\n');
        assert(lines_text(lines) =~= head + tail);
        lemma_utf8_len_concat(head, tail);
        lemma_utf8_len_push(line, '\n');
        lemma_feed_lines(p, messages, recipient, rest);
        lemma_fed_concat(p, head, tail);
        let q = p.fed(head);
        lemma_feed_line(q, line);
        let r = q.fed(tail);
        let expected = ParserView { bytes: q.bytes + utf8_len(line) + 1, ..q }.with_line(line);
        assert(hidden(r) == hidden(expected));
        lemma_core_fields(r, expected);
        let before = MessageView { text: head, ..messages.last() };
        assert(q.messages.last() == before);
        assert(q.messages.drop_last() =~= messages.drop_last());
        assert((head + line).push('\n') =~= lines_text(lines));
    }
}

proof fn lemma_core_fields(p: ParserView, q: ParserView)
    requires
        hidden(p) == hidden(q),
    ensures
        p.bytes == q.bytes,
        p.line == q.line,
        p.started == q.started,
        p.ended == q.ended,
        p.current == q.current,
        p.messages == q.messages,
        p.error == q.error,
{
    assert(p.bytes == hidden(p).bytes && q.bytes == hidden(q).bytes);
    assert(p.line == hidden(p).line && q.line == hidden(q).line);
    assert(p.started == hidden(p).started && q.started == hidden(q).started);
    assert(p.ended == hidden(p).ended && q.ended == hidden(q).ended);
    assert(p.current == hidden(p).current && q.current == hidden(q).current);
    assert(p.messages == hidden(p).messages && q.messages == hidden(q).messages);
    assert(p.error == hidden(p).error && q.error == hidden(q).error);
}

proof fn lemma_tags(recipient: MessageRecipient)
    requires
        recipient != MessageRecipient::Supervisor,
    ensures
        !opening_tag(recipient).contains('\n'),
        !closing_tag(recipient).contains('\n'),
        without_return(opening_tag(recipient)) == opening_tag(recipient),
        without_return(closing_tag(recipient)) == closing_tag(recipient),
        opening_recipient(opening_tag(recipient)) == Some(recipient),
        opening_tag(recipient) != "</messages>"@,
        closing_tag(recipient) != "</messages>"@,
{
    reveal_strlit("<user>");
    reveal_strlit("</user>");
    reveal_strlit("<implementer>");
    reveal_strlit("</implementer>");
    reveal_strlit("</messages>");
    if recipient == MessageRecipient::Implementer {
        assert("<implementer>"@.len() != "<user>"@.len());
        assert("<implementer>"@.len() != "</messages>"@.len());
        assert("</implementer>"@.len() != "</messages>"@.len());
    } else {
        assert("<user>"@.len() != "</messages>"@.len());
        assert("</user>"@.len() != "</messages>"@.len());
    }
}

proof fn lemma_feed_block(p: ParserView, messages: Seq<MessageView>, block: Block)
    requires
        between(p, messages),
        messages.len() < MAX_MESSAGES,
        block.plain(),
        p.bytes + utf8_len(block.written()) <= MAX_BATCH_BYTES,
    ensures
        between(p.fed(block.written()), messages.push(unnamed(block))),
        p.fed(block.written()).bytes == p.bytes + utf8_len(block.written()),
{
    let recipient = block.recipient;
    let open = opening_tag(recipient).push('\n');
    let close = closing_tag(recipient).push('\n');
    let text = block.text();
    lemma_tags(recipient);
    lemma_utf8_len_concat(open + text, close);
    lemma_utf8_len_concat(open, text);
    lemma_utf8_len_push(opening_tag(recipient), '\n');
    lemma_utf8_len_push(closing_tag(recipient), '\n');
    lemma_fed_concat(p, open + text, close);
    lemma_fed_concat(p, open, text);
    lemma_feed_line(p, opening_tag(recipient));
    let a = p.fed(open);
    let opened = ParserView {
        bytes: p.bytes + utf8_len(opening_tag(recipient)) + 1,
        ..p
    }.with_line(opening_tag(recipient));
    lemma_core_fields(a, opened);
    let empty = MessageView { id: Seq::empty(), recipient, text: Seq::empty() };
    let begun = messages.push(empty);
    assert(inside(a, begun, recipient));
    lemma_feed_lines(a, begun, recipient, block.lines);
    let b = a.fed(text);
    assert(begun.drop_last() =~= messages);
    let filled = messages.push(unnamed(block));
    assert(inside(b, filled, recipient));
    lemma_feed_line(b, closing_tag(recipient));
    let c = b.fed(close);
    let closed = ParserView {
        bytes: b.bytes + utf8_len(closing_tag(recipient)) + 1,
        ..b
    }.with_line(closing_tag(recipient));
    lemma_core_fields(c, closed);
}

spec fn unnamed_blocks(blocks: Seq<Block>) -> Seq<MessageView> {
    blocks.map_values(|block: Block| unnamed(block))
}

proof fn lemma_feed_blocks(p: ParserView, blocks: Seq<Block>)
    requires
        between(p, Seq::empty()),
        blocks.len() <= MAX_MESSAGES,
        forall|i: int| 0 <= i < blocks.len() ==> (#[trigger] blocks[i]).plain(),
        p.bytes + utf8_len(written_blocks(blocks)) <= MAX_BATCH_BYTES,
    ensures
        between(p.fed(written_blocks(blocks)), unnamed_blocks(blocks)),
        p.fed(written_blocks(blocks)).bytes == p.bytes + utf8_len(written_blocks(blocks)),
    decreases blocks.len(),
{
    if blocks.len() == 0 {
        assert(unnamed_blocks(blocks) =~= Seq::empty());
    } else {
        let rest = blocks.drop_last();
        let block = blocks.last();
        let head = written_blocks(rest);
        assert(blocks[blocks.len() - 1].plain());
        assert forall|i: int| 0 <= i < rest.len() implies (#[trigger] rest[i]).plain() by {
            assert(rest[i] == blocks[i]);
        }
        lemma_utf8_len_concat(head, block.written());
        lemma_feed_blocks(p, rest);
        lemma_fed_concat(p, head, block.written());
        lemma_feed_block(p.fed(head), unnamed_blocks(rest), block);
        assert(unnamed_blocks(blocks) =~= unnamed_blocks(rest).push(unnamed(block)));
    }
}

/// Reading the canonical document of one to eight messages gives back those messages, where it
/// fits the largest batch and no line of a message looks like a tag.
pub proof fn law_documents_read_back(blocks: Seq<Block>, id: Seq<char>, final_answer: bool)
    requires
        1 <= blocks.len() <= MAX_MESSAGES,
        forall|i: int| 0 <= i < blocks.len() ==> (#[trigger] blocks[i]).plain(),
        utf8_len(document(blocks)) <= MAX_BATCH_BYTES,
    ensures
        ParserView::initial().pushed(document(blocks)).finished(id, final_answer) == Ok::<
            BatchView,
            Seq<char>,
        >(
            BatchView {
                id,
                sender: MessageRecipient::Supervisor,
                audience: MessageRecipient::User,
                messages: Seq::new(
                    blocks.len(),
                    |i: int|
                        MessageView {
                            id: block_id(id, i),
                            recipient: blocks[i].recipient,
                            text: blocks[i].text(),
                        },
                ),
                final_answer,
            },
        ),
{
    let start = ParserView::initial();
    let open = "<messages>"@.push('\n');
    let body = written_blocks(blocks);
    let close = "</messages>"@;
    reveal_strlit("<messages>");
    reveal_strlit("</messages>");
    lemma_utf8_len_concat(open + body, close);
    lemma_utf8_len_concat(open, body);
    lemma_utf8_len_push("<messages>"@, '\n');
    assert(ParserView { visible: Seq::empty(), ..start } == start);
    lemma_fed_concat(start, open + body, close);
    lemma_fed_concat(start, open, body);
    lemma_feed_line(start, "<messages>"@);
    let a = start.fed(open);
    let begun = ParserView { bytes: start.bytes + utf8_len("<messages>"@) + 1, ..start }.with_line(
        "<messages>"@,
    );
    lemma_core_fields(a, begun);
    lemma_feed_blocks(a, blocks);
    let b = a.fed(body);
    lemma_feed_characters(b, close);
    let c = b.fed(close);
    let expected = ParserView { bytes: b.bytes + utf8_len(close), line: b.line + close, ..b };
    lemma_core_fields(c, expected);
    assert(b.line + close =~= close);
    let done = ParserView { line: Seq::empty(), ..c }.with_line(close);
    assert(done.ended && done.error is None);
    assert(c.line.len() > 0);
    let batch = c.finished(id, final_answer)->Ok_0;
    assert(batch.messages =~= Seq::new(
        blocks.len(),
        |i: int|
            MessageView {
                id: block_id(id, i),
                recipient: blocks[i].recipient,
                text: blocks[i].text(),
            },
    ));
}

/// A parser that was given a stream in parts, and whose visible text was taken after each.
pub open spec fn streamed(parts: Seq<Seq<char>>) -> ParserView
    decreases parts.len(),
{
    if parts.len() == 0 {
        ParserView::initial()
    } else {
        streamed(parts.drop_last()).pushed(parts.last()).taken()
    }
}

/// The visible texts that were taken on the way, one after the other.
pub open spec fn streamed_text(parts: Seq<Seq<char>>) -> Seq<char>
    decreases parts.len(),
{
    if parts.len() == 0 {
        Seq::empty()
    } else {
        streamed_text(parts.drop_last()) + match streamed(parts.drop_last()).pushed(
            parts.last(),
        ).visible_delta() {
            Some(text) => text,
            None => Seq::empty(),
        }
    }
}

/// The texts for the user, one after the other.
pub open spec fn user_text(messages: Seq<MessageView>) -> Seq<char>
    decreases messages.len(),
{
    if messages.len() == 0 {
        Seq::empty()
    } else if messages.last().recipient == MessageRecipient::User {
        user_text(messages.drop_last()) + messages.last().text
    } else {
        user_text(messages.drop_last())
    }
}

/// No text for the user holds the character that a tag begins with.
pub open spec fn without_markup(messages: Seq<MessageView>) -> bool {
    forall|i: int|
        0 <= i < messages.len() && (#[trigger] messages[i]).recipient == MessageRecipient::User
            ==> !messages[i].text.contains('<')
}

proof fn lemma_concatenated_last(parts: Seq<Seq<char>>)
    requires
        parts.len() > 0,
    ensures
        concatenated(parts) == concatenated(parts.drop_last()) + parts.last(),
    decreases parts.len(),
{
    if parts.len() == 1 {
        assert(parts.drop_first() =~= Seq::empty());
        assert(parts.drop_last() =~= Seq::empty());
        assert(concatenated(parts.drop_first()) =~= Seq::empty());
        assert(concatenated(parts.drop_last()) =~= Seq::empty());
        assert(concatenated(parts) =~= concatenated(parts.drop_last()) + parts.last());
    } else {
        lemma_concatenated_last(parts.drop_first());
        assert(parts.drop_first().drop_last() =~= parts.drop_last().drop_first());
        assert(parts.drop_first().last() == parts.last());
        assert(concatenated(parts) =~= concatenated(parts.drop_last()) + parts.last());
    }
}

/// What was shown of a stream that is read at once is what was shown of its parts.
proof fn lemma_streamed(parts: Seq<Seq<char>>)
    requires
        streamed(parts).error is None,
    ensures
        seen(streamed(parts), streamed_text(parts)) == ParserView::initial().fed(
            concatenated(parts),
        ),
    decreases parts.len(),
{
    let start = ParserView::initial();
    if parts.len() > 0 {
        let rest = parts.drop_last();
        let last = parts.last();
        let p = streamed(rest);
        lemma_streamed(rest);
        lemma_concatenated_last(parts);
        lemma_fed_concat(start, concatenated(rest), last);
        let shown = streamed_text(rest);
        assert(p.taken().visible == Seq::<char>::empty());
        lemma_visible_accumulates(p.taken(), shown, last);
        assert(seen(p.taken(), shown) == seen(p, shown));
        let q = p.pushed(last);
        assert(q == p.taken().fed(last));
        if q.visible.len() == 0 {
            assert(q.visible =~= Seq::empty());
        }
        assert(streamed_text(parts) == shown + q.visible);
    }
}

/// An open block is the latest message.
spec fn aligned(p: ParserView) -> bool {
    &&& p.current matches Some(recipient) ==> p.started && p.messages.len() > 0
        && p.messages.last().recipient == recipient
    &&& p.ended ==> p.current is None
}

proof fn lemma_aligned(chars: Seq<char>)
    ensures
        aligned(ParserView::initial().fed(chars)),
    decreases chars.len(),
{
    if chars.len() > 0 {
        lemma_aligned(chars.drop_last());
    }
}

/// How what a parser has shown relates to what it has read, where no carriage return occurs. In a
/// message for the user the unfinished line is shown, or held back because it may be the closing
/// tag, or can only become a line that holds markup.
spec fn projected(p: ParserView) -> bool {
    &&& !p.line.contains('\r')
    &&& if p.current == Some(MessageRecipient::User) {
        ||| p.candidate.len() == 0 && !p.line.contains('<') && p.visible == user_text(p.messages)
            + p.line
        ||| p.candidate.len() > 0 && p.line == p.candidate && p.candidate.is_prefix_of("</user>"@)
            && p.visible == user_text(p.messages)
        ||| p.line.contains('<') && !p.line.is_prefix_of("</user>"@)
    } else {
        p.candidate.len() == 0 && p.visible == user_text(p.messages)
    }
}

proof fn lemma_texts_only_grow(p: ParserView, ch: char)
    requires
        aligned(p),
        p.step(ch).error is None,
        without_markup(p.step(ch).messages),
    ensures
        without_markup(p.messages),
{
    let q = p.step(ch);
    assert forall|i: int|
        0 <= i < p.messages.len() && (#[trigger] p.messages[i]).recipient
            == MessageRecipient::User implies !p.messages[i].text.contains('<') by {
        let after = q.messages[i];
        assert(after.recipient == p.messages[i].recipient);
        if p.messages[i].text.contains('<') {
            let k = p.messages[i].text.index_of('<');
            assert(after.text[k] == '<');
        }
    }
}

proof fn lemma_contains_push(s: Seq<char>, ch: char, x: char)
    ensures
        s.push(ch).contains(x) == (s.contains(x) || ch == x),
{
    if s.contains(x) {
        let k = s.index_of(x);
        assert(s.push(ch)[k] == x);
    }
    if ch == x {
        assert(s.push(ch)[s.len() as int] == x);
    }
    if s.push(ch).contains(x) && ch != x {
        let k = s.push(ch).index_of(x);
        assert(s[k] == x);
    }
}

/// A line that extends no beginning of a tag is none either.
proof fn lemma_prefix_push(s: Seq<char>, ch: char, tag: Seq<char>)
    requires
        s.push(ch).is_prefix_of(tag),
    ensures
        s.is_prefix_of(tag),
{
    assert(s.push(ch) =~= tag.subrange(0, s.len() as int + 1));
    assert forall|i: int| 0 <= i < s.len() implies s[i] == tag[i] by {
        assert(s.push(ch)[i] == tag.subrange(0, s.len() as int + 1)[i]);
    }
    assert(s =~= tag.subrange(0, s.len() as int));
}

/// A further character of a line.
proof fn lemma_projected_character(p: ParserView, ch: char)
    requires
        projected(p),
        ch != '\n',
        ch != '\r',
        p.step(ch).error is None,
        p.error is None,
    ensures
        projected(p.step(ch)),
{
    let tag = "</user>"@;
    let q = p.step(ch);
    lemma_contains_push(p.line, ch, '\r');
    lemma_contains_push(p.line, ch, '<');
    if p.current == Some(MessageRecipient::User) {
        reveal_strlit("</user>");
        if p.line.contains('<') && !p.line.is_prefix_of(tag) {
            if p.line.push(ch).is_prefix_of(tag) {
                lemma_prefix_push(p.line, ch, tag);
            }
        } else if p.candidate.len() == 0 {
            if ch == '<' {
                if p.line.len() == 0 {
                    assert(p.line =~= p.candidate);
                    assert(q.candidate =~= tag.subrange(0, 1));
                } else if q.line.is_prefix_of(tag) {
                    assert(q.line[0] == tag.subrange(0, q.line.len() as int)[0]);
                    assert(p.line[0] == '<');
                }
            } else {
                assert((user_text(p.messages) + p.line).push(ch) =~= user_text(p.messages)
                    + p.line.push(ch));
            }
        } else {
            assert(p.candidate[0] == tag.subrange(0, p.candidate.len() as int)[0]);
            assert(p.line.contains('<'));
        }
    }
}

proof fn lemma_user_text_last(messages: Seq<MessageView>, message: MessageView)
    ensures
        user_text(messages.push(message)) == (if message.recipient == MessageRecipient::User {
            user_text(messages) + message.text
        } else {
            user_text(messages)
        }),
{
    assert(messages.push(message).drop_last() =~= messages);
}

/// The end of a line.
proof fn lemma_projected_line(p: ParserView)
    requires
        aligned(p),
        projected(p),
        p.error is None,
        p.step('\n').error is None,
        without_markup(p.step('\n').messages),
    ensures
        projected(p.step('\n')),
{
    let tag = "</user>"@;
    let q = p.step('\n');
    let line = p.line;
    reveal_strlit("</user>");
    reveal_strlit("</messages>");
    assert(without_return(line) == line) by {
        if line.len() > 0 && line.last() == '\r' {
            assert(line.contains('\r'));
        }
    }
    match p.current {
        Some(recipient) => {
            let message = p.messages.last();
            let earlier = p.messages.drop_last();
            assert(earlier.push(message) =~= p.messages);
            lemma_user_text_last(earlier, message);
            let longer = MessageView { text: (message.text + line).push('\n'), ..message };
            lemma_user_text_last(earlier, longer);
            if q.current is Some {
                assert(q.messages == earlier.push(longer));
                if recipient == MessageRecipient::User {
                    assert(q.messages.last() == longer);
                    assert(!q.messages[q.messages.len() - 1].text.contains('<'));
                    if line.contains('<') {
                        let k = line.index_of('<');
                        assert(longer.text[message.text.len() + k] == '<');
                    }
                    if p.candidate.len() > 0 && p.line == p.candidate
                        && p.candidate.is_prefix_of(tag) {
                        assert(p.candidate[0] == tag.subrange(0, p.candidate.len() as int)[0]);
                        assert(line[0] == '<');
                    }
                    assert((user_text(earlier) + message.text + line).push('\n')
                        =~= user_text(earlier) + longer.text);
                    assert(q.visible == p.visible.push('\n'));
                    assert(user_text(q.messages) + q.line =~= user_text(q.messages));
                }
            } else {
                assert(line == closing_tag(recipient));
                if recipient == MessageRecipient::User {
                    assert(tag =~= tag.subrange(0, tag.len() as int));
                    assert(line[0] == '<');
                    assert(line.contains('<'));
                }
            }
        },
        None => {
            if q.current is Some {
                lemma_user_text_last(p.messages, q.messages.last());
                assert(q.messages == p.messages.push(q.messages.last()));
                assert(user_text(p.messages) + Seq::<char>::empty() =~= user_text(p.messages));
                assert(user_text(q.messages) + q.line =~= user_text(q.messages));
            }
        },
    }
}

proof fn lemma_projected(chars: Seq<char>)
    requires
        !chars.contains('\r'),
        ParserView::initial().fed(chars).error is None,
        without_markup(ParserView::initial().fed(chars).messages),
    ensures
        projected(ParserView::initial().fed(chars)),
    decreases chars.len(),
{
    if chars.len() > 0 {
        let rest = chars.drop_last();
        let p = ParserView::initial().fed(rest);
        let ch = chars.last();
        assert(rest.push(ch) =~= chars);
        lemma_contains_push(rest, ch, '\r');
        lemma_aligned(rest);
        lemma_texts_only_grow(p, ch);
        lemma_projected(rest);
        if ch == '\n' {
            lemma_projected_line(p);
        } else {
            lemma_projected_character(p, ch);
        }
    }
}

proof fn lemma_user_text_unnamed(a: Seq<MessageView>, b: Seq<MessageView>)
    requires
        a.len() == b.len(),
        forall|i: int|
            0 <= i < a.len() ==> (#[trigger] a[i]).recipient == b[i].recipient && a[i].text
                == b[i].text,
    ensures
        user_text(a) == user_text(b),
    decreases a.len(),
{
    if a.len() > 0 {
        assert(a[a.len() - 1].recipient == b[b.len() - 1].recipient);
        assert forall|i: int| 0 <= i < a.len() - 1 implies (#[trigger] a.drop_last()[i]).recipient
            == b.drop_last()[i].recipient && a.drop_last()[i].text == b.drop_last()[i].text by {
            assert(a[i].recipient == b[i].recipient);
        }
        lemma_user_text_unnamed(a.drop_last(), b.drop_last());
    }
}

/// While a document streams in, in whatever parts, the user is shown the texts for the user and
/// nothing else: the visible texts that are taken after each part, one after the other, are the
/// texts for the user of the batch. Taking twice gives nothing the second time, and what is given
/// is never empty. The lines of the document end in a line feed alone, and no text for the user
/// holds the character that a tag begins with.
pub proof fn law_the_user_sees_the_user_text(
    parts: Seq<Seq<char>>,
    id: Seq<char>,
    final_answer: bool,
)
    requires
        streamed(parts).finished(id, final_answer) is Ok,
        !concatenated(parts).contains('\r'),
        without_markup(streamed(parts).finished(id, final_answer)->Ok_0.messages),
    ensures
        streamed_text(parts) == user_text(streamed(parts).finished(id, final_answer)->Ok_0.messages),
        streamed(parts).visible_delta() is None,
        forall|p: ParserView| #[trigger] p.visible_delta() matches Some(text) ==> text.len() > 0,
        forall|p: ParserView| (#[trigger] p.taken()).visible_delta() is None,
{
    let p = streamed(parts);
    let whole = concatenated(parts);
    let batch = p.finished(id, final_answer)->Ok_0;
    lemma_streamed(parts);
    let read = ParserView::initial().fed(whole);
    assert(read == seen(p, streamed_text(parts)));
    assert(read.messages == p.messages && read.current == p.current && read.error == p.error);
    lemma_aligned(whole);
    assert(p.current is None);
    assert(batch.messages.len() == p.messages.len());
    assert forall|i: int| 0 <= i < p.messages.len() implies (#[trigger] p.messages[i]).recipient
        == batch.messages[i].recipient && p.messages[i].text == batch.messages[i].text by {}
    assert(without_markup(p.messages)) by {
        assert forall|i: int|
            0 <= i < p.messages.len() && (#[trigger] p.messages[i]).recipient
                == MessageRecipient::User implies !p.messages[i].text.contains('<') by {
            assert(batch.messages[i].recipient == MessageRecipient::User);
        }
    }
    lemma_projected(whole);
    lemma_user_text_unnamed(p.messages, batch.messages);
}

} // verus!
