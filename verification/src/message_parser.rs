//! A bounded, side-effect-free protocol for directed Supervisor messages.
//!
//! The canonical wire form is structural and avoids natural-language `To:` markers:
//!
//! ```text
//! <messages>
//! <user>
//! I am checking the result.
//! </user>
//! <implementer>
//! Verify the selected step.
//! </implementer>
//! </messages>
//! ```

use crate::message::message_views;
use crate::message::BatchView;
use crate::message::DirectedMessage;
use crate::message::MessageBatch;
use crate::message::MessageRecipient;
use crate::message::MessageView;
use crate::text::blank;
use crate::text::char_byte_count;
use crate::text::char_bytes;
use crate::text::decimal;
use crate::text::decimal_text;
use crate::text::is_blank;
use crate::text::optional_text;
use crate::text::to_chars;
use vstd::prelude::*;
use vstd::string::StringExecFns;

verus! {

/// The largest batch, in bytes.
pub const MAX_BATCH_BYTES: usize = 8192;

/// The most messages in a batch.
pub const MAX_MESSAGES: usize = 8;

/// A parser in the middle of a stream.
pub struct ParserView {
    /// Bytes read so far.
    pub bytes: int,
    /// The characters of the line that is not yet complete.
    pub line: Seq<char>,
    pub line_number: int,
    pub block_number: int,
    pub started: bool,
    pub ended: bool,
    /// The recipient of the open block.
    pub current: Option<MessageRecipient>,
    pub messages: Seq<MessageView>,
    /// Text for the user that the latest push completed.
    pub visible: Seq<char>,
    /// What may turn out to be the closing tag of a user block.
    pub candidate: Seq<char>,
    pub error: Option<Seq<char>>,
}

pub open spec fn at_least_one(n: int) -> int {
    if n < 1 {
        1
    } else {
        n
    }
}

/// The closing tag of a block.
pub open spec fn closing_tag(recipient: MessageRecipient) -> Seq<char> {
    match recipient {
        MessageRecipient::User => "</user>"@,
        MessageRecipient::Implementer => "</implementer>"@,
        MessageRecipient::Supervisor => "</supervisor>"@,
    }
}

/// The recipient that an opening tag names.
pub open spec fn opening_recipient(line: Seq<char>) -> Option<MessageRecipient> {
    if line == "<user>"@ {
        Some(MessageRecipient::User)
    } else if line == "<implementer>"@ {
        Some(MessageRecipient::Implementer)
    } else {
        None
    }
}

/// A complete line without its line terminator.
pub open spec fn without_return(line: Seq<char>) -> Seq<char> {
    if line.len() > 0 && line.last() == '\r' {
        line.drop_last()
    } else {
        line
    }
}

impl ParserView {
    pub open spec fn initial() -> ParserView {
        ParserView {
            bytes: 0,
            line: Seq::empty(),
            line_number: 0,
            block_number: 0,
            started: false,
            ended: false,
            current: None,
            messages: Seq::empty(),
            visible: Seq::empty(),
            candidate: Seq::empty(),
            error: None,
        }
    }

    pub open spec fn error_text(self, reason: Seq<char>) -> Seq<char> {
        "Continuous Planning message error at line "@ + decimal(
            at_least_one(self.line_number) as nat,
        ) + ", block "@ + decimal(at_least_one(self.block_number) as nat) + ": "@ + reason
    }

    pub open spec fn failed(self, reason: Seq<char>) -> ParserView {
        ParserView { error: Some(self.error_text(reason)), ..self }
    }

    /// One more character of the stream, as the user may see it. Only the open user block is
    /// visible, and what may be its closing tag waits until it turns out not to be.
    pub open spec fn observed(self, ch: char) -> ParserView {
        if self.current != Some(MessageRecipient::User) {
            self
        } else if self.candidate.len() == 0 {
            if ch == '<' {
                ParserView { candidate: self.candidate.push(ch), ..self }
            } else {
                ParserView { visible: self.visible.push(ch), ..self }
            }
        } else if ch == '\n' && self.candidate == "</user>"@ {
            self
        } else if self.candidate.push(ch).is_prefix_of("</user>"@) {
            ParserView { candidate: self.candidate.push(ch), ..self }
        } else {
            ParserView {
                visible: self.visible + self.candidate.push(ch),
                candidate: Seq::empty(),
                ..self
            }
        }
    }

    /// One more complete line.
    pub open spec fn with_line(self, line: Seq<char>) -> ParserView {
        let p = ParserView { line_number: self.line_number + 1, ..self };
        if !p.started {
            if line != "<messages>"@ {
                p.failed("expected <messages>"@)
            } else {
                ParserView { started: true, ..p }
            }
        } else if p.ended {
            p.failed("content after the message terminator"@)
        } else if line == "</messages>"@ {
            if p.current is Some {
                p.failed("close the current message before </messages>"@)
            } else if p.messages.len() == 0 {
                p.failed("batch must contain at least one message"@)
            } else {
                ParserView { ended: true, ..p }
            }
        } else {
            match p.current {
                Some(recipient) => {
                    let message = p.messages.last();
                    if line == closing_tag(recipient) {
                        if blank(message.text) {
                            p.failed("message must contain nonempty text"@)
                        } else {
                            ParserView { current: None, candidate: Seq::empty(), ..p }
                        }
                    } else {
                        ParserView {
                            messages: p.messages.drop_last().push(
                                MessageView {
                                    text: (message.text + line).push('\n'),
                                    ..message
                                },
                            ),
                            ..p
                        }
                    }
                },
                None => match opening_recipient(line) {
                    None => p.failed("expected <user>, <implementer>, or </messages>"@),
                    Some(recipient) => if p.messages.len() == MAX_MESSAGES {
                        p.failed("batch exceeds eight messages"@)
                    } else {
                        ParserView {
                            block_number: (p.messages.len() + 1) as int,
                            messages: p.messages.push(
                                MessageView {
                                    id: Seq::empty(),
                                    recipient,
                                    text: Seq::empty(),
                                },
                            ),
                            current: Some(recipient),
                            ..p
                        }
                    },
                },
            }
        }
    }

    /// One more character.
    pub open spec fn step(self, ch: char) -> ParserView {
        if char_bytes(ch) > MAX_BATCH_BYTES - self.bytes {
            ParserView { line_number: self.line_number + 1, ..self }.failed(
                "batch exceeds 8 KiB"@,
            )
        } else {
            let p = ParserView { bytes: self.bytes + char_bytes(ch), ..self }.observed(ch);
            if ch == '\n' {
                ParserView { line: Seq::empty(), ..p }.with_line(without_return(p.line))
            } else {
                ParserView { line: p.line.push(ch), ..p }
            }
        }
    }

    /// Some more characters; nothing is read after an error.
    pub open spec fn fed(self, chars: Seq<char>) -> ParserView
        decreases chars.len(),
    {
        if chars.len() == 0 {
            self
        } else {
            let p = self.fed(chars.drop_last());
            if p.error is Some {
                p
            } else {
                p.step(chars.last())
            }
        }
    }

    /// The parser after a part of the stream.
    pub open spec fn pushed(self, delta: Seq<char>) -> ParserView {
        if self.error is Some {
            self
        } else {
            ParserView { visible: Seq::empty(), ..self }.fed(delta)
        }
    }

    /// The text that became visible, where there is any.
    pub open spec fn visible_delta(self) -> Option<Seq<char>> {
        if self.visible.len() == 0 {
            None
        } else {
            Some(self.visible)
        }
    }

    /// The parser once the visible text was taken.
    pub open spec fn taken(self) -> ParserView {
        ParserView { visible: Seq::empty(), ..self }
    }

    pub open spec fn outcome(self) -> Result<(), Seq<char>> {
        match self.error {
            Some(error) => Err(error),
            None => Ok(()),
        }
    }

    /// The whole batch, or why there is none. A batch is never returned in part.
    pub open spec fn finished(self, id: Seq<char>, final_answer: bool) -> Result<
        BatchView,
        Seq<char>,
    > {
        let p = if self.error is Some || self.line.len() == 0 {
            self
        } else {
            ParserView { line: Seq::empty(), ..self }.with_line(self.line)
        };
        if let Some(error) = p.error {
            Err(error)
        } else if !p.ended {
            Err(p.error_text("missing message terminator"@))
        } else {
            Ok(
                BatchView {
                    id,
                    sender: MessageRecipient::Supervisor,
                    audience: MessageRecipient::User,
                    messages: Seq::new(
                        p.messages.len(),
                        |i: int| MessageView { id: block_id(id, i), ..p.messages[i] },
                    ),
                    final_answer,
                },
            )
        }
    }

    /// What a parser keeps while it reads.
    pub open spec fn wf(self) -> bool {
        &&& 0 <= self.bytes <= MAX_BATCH_BYTES
        &&& 0 <= self.line_number <= self.bytes + if self.error is Some {
            1int
        } else {
            0
        }
        &&& 0 <= self.block_number <= MAX_MESSAGES
        &&& self.messages.len() <= MAX_MESSAGES
        &&& self.current is Some ==> self.messages.len() > 0
        &&& self.current != Some(MessageRecipient::Supervisor)
        &&& self.ended ==> self.current is None && self.messages.len() > 0
        &&& self.current matches Some(recipient) ==> self.messages.last().recipient == recipient
        &&& forall|i: int|
            0 <= i < self.messages.len() ==> (#[trigger] self.messages[i]).recipient
                != MessageRecipient::Supervisor
        &&& forall|i: int|
            0 <= i < self.messages.len() - if self.current is Some {
                1int
            } else {
                0
            } ==> !blank((#[trigger] self.messages[i]).text)
    }
}

/// Block IDs append their one-based index to the ID of their source.
pub open spec fn block_id(id: Seq<char>, index: int) -> Seq<char> {
    id + ":"@ + decimal((index + 1) as nat)
}

/// Reads a stream of text in parts and collects the messages in it.
pub struct MessageParser {
    bytes: usize,
    line: Vec<char>,
    line_number: usize,
    block_number: usize,
    started: bool,
    ended: bool,
    current: Option<MessageRecipient>,
    messages: Vec<DirectedMessage>,
    visible_delta: String,
    visible_markup_candidate: Vec<char>,
    error: Option<String>,
}

impl View for MessageParser {
    type V = ParserView;

    closed spec fn view(&self) -> ParserView {
        ParserView {
            bytes: self.bytes as int,
            line: self.line@,
            line_number: self.line_number as int,
            block_number: self.block_number as int,
            started: self.started,
            ended: self.ended,
            current: self.current,
            messages: message_views(self.messages@),
            visible: self.visible_delta@,
            candidate: self.visible_markup_candidate@,
            error: optional_text(self.error),
        }
    }
}

impl Default for MessageParser {
    fn default() -> (parser: Self)
        ensures
            parser@ == ParserView::initial(),
            parser@.wf(),
    {
        let parser = MessageParser {
            bytes: 0,
            line: Vec::new(),
            line_number: 0,
            block_number: 0,
            started: false,
            ended: false,
            current: None,
            messages: Vec::new(),
            visible_delta: String::new(),
            visible_markup_candidate: Vec::new(),
            error: None,
        };
        assert(parser@.messages =~= Seq::empty());
        assert(parser@.visible =~= Seq::empty());
        parser
    }
}

fn chars_are(chars: &Vec<char>, text: &str) -> (same: bool)
    ensures
        same == (chars@ == text@),
{
    let expected = to_chars(text);
    if chars.len() != expected.len() {
        return false;
    }
    starts(&expected, chars)
}

/// Whether `chars` begins with `prefix`.
fn starts(chars: &Vec<char>, prefix: &Vec<char>) -> (yes: bool)
    ensures
        yes == prefix@.is_prefix_of(chars@),
        chars@.len() == prefix@.len() ==> yes == (chars@ == prefix@),
{
    if prefix.len() > chars.len() {
        return false;
    }
    let mut i: usize = 0;
    while i < prefix.len()
        invariant
            i <= prefix@.len() <= chars@.len(),
            forall|k: int| 0 <= k < i ==> prefix@[k] == chars@[k],
        decreases prefix.len() - i,
    {
        if prefix[i] != chars[i] {
            assert(chars@.subrange(0, prefix@.len() as int)[i as int] == chars@[i as int]);
            return false;
        }
        i += 1;
    }
    assert(prefix@ =~= chars@.subrange(0, prefix@.len() as int));
    if chars.len() == prefix.len() {
        assert(chars@ =~= prefix@);
    }
    true
}

fn append_chars(text: &mut String, chars: &Vec<char>)
    ensures
        final(text)@ == old(text)@ + chars@,
{
    let mut i: usize = 0;
    let ghost before = text@;
    assert(before + chars@.take(0) =~= before);
    while i < chars.len()
        invariant
            i <= chars@.len(),
            text@ == before + chars@.take(i as int),
        decreases chars.len() - i,
    {
        text.push(chars[i]);
        assert(before + chars@.take(i + 1) =~= (before + chars@.take(i as int)).push(
            chars@[i as int],
        ));
        i += 1;
    }
    assert(chars@.take(i as int) =~= chars@);
}

impl MessageParser {
    fn error_text(&self, reason: &str) -> (text: String)
        ensures
            text@ == self@.error_text(reason@),
    {
        let line: u64 = if self.line_number < 1 {
            1
        } else {
            self.line_number as u64
        };
        let block: u64 = if self.block_number < 1 {
            1
        } else {
            self.block_number as u64
        };
        let mut text = "Continuous Planning message error at line ".to_owned();
        text.append(decimal_text(line).as_str());
        text.append(", block ");
        text.append(decimal_text(block).as_str());
        text.append(": ");
        text.append(reason);
        text
    }

    fn fail(&mut self, reason: &str)
        ensures
            final(self)@ == old(self)@.failed(reason@),
    {
        let error = self.error_text(reason);
        self.error = Some(error);
    }

    fn observe_stream_char(&mut self, ch: char)
        ensures
            final(self)@ == old(self)@.observed(ch),
    {
        match self.current {
            Some(MessageRecipient::User) => {},
            _ => {
                return;
            },
        }
        if self.visible_markup_candidate.len() == 0 {
            if ch == '<' {
                self.visible_markup_candidate.push(ch);
            } else {
                self.visible_delta.push(ch);
            }
            return;
        }
        if ch == '\n' && chars_are(&self.visible_markup_candidate, "</user>") {
            return;
        }
        self.visible_markup_candidate.push(ch);
        let closing = to_chars("</user>");
        if starts(&closing, &self.visible_markup_candidate) {
            return;
        }
        append_chars(&mut self.visible_delta, &self.visible_markup_candidate);
        self.visible_markup_candidate = Vec::new();
    }

    fn process_line(&mut self, line: &Vec<char>)
        requires
            old(self)@.wf(),
            old(self)@.line_number < usize::MAX,
        ensures
            final(self)@ == old(self)@.with_line(line@),
    {
        self.line_number = self.line_number + 1;
        if !self.started {
            if !chars_are(line, "<messages>") {
                self.fail("expected <messages>");
                return;
            }
            self.started = true;
            return;
        }
        if self.ended {
            self.fail("content after the message terminator");
            return;
        }
        if chars_are(line, "</messages>") {
            if self.current.is_some() {
                self.fail("close the current message before </messages>");
                return;
            }
            if self.messages.len() == 0 {
                self.fail("batch must contain at least one message");
                return;
            }
            self.ended = true;
            return;
        }
        if let Some(recipient) = self.current {
            let closing = match recipient {
                MessageRecipient::User => "</user>",
                MessageRecipient::Implementer => "</implementer>",
                MessageRecipient::Supervisor => "</supervisor>",
            };
            let last: usize = self.messages.len() - 1;
            assert(self@.messages.last() == self.messages@[last as int]@);
            if chars_are(line, closing) {
                if is_blank(self.messages[last].text.as_str()) {
                    self.fail("message must contain nonempty text");
                    return;
                }
                self.current = None;
                self.visible_markup_candidate = Vec::new();
                return;
            }
            let ghost before = self.messages@;
            let mut message = self.messages[last].clone();
            append_chars(&mut message.text, line);
            message.text.push('\n');
            let ghost added = message@;
            self.messages.set(last, message);
            assert(message_views(self.messages@) =~= message_views(before).drop_last().push(added));
            return;
        }
        let recipient = if chars_are(line, "<user>") {
            MessageRecipient::User
        } else if chars_are(line, "<implementer>") {
            MessageRecipient::Implementer
        } else {
            self.fail("expected <user>, <implementer>, or </messages>");
            return;
        };
        if self.messages.len() == MAX_MESSAGES {
            self.fail("batch exceeds eight messages");
            return;
        }
        self.block_number = self.messages.len() + 1;
        let ghost before = self.messages@;
        let message = DirectedMessage { id: String::new(), recipient, text: String::new() };
        let ghost added = message@;
        self.messages.push(message);
        assert(added.id =~= Seq::empty() && added.text =~= Seq::empty());
        assert(message_views(self.messages@) =~= message_views(before).push(added));
        self.current = Some(recipient);
    }

    fn step(&mut self, ch: char)
        requires
            old(self)@.wf(),
            old(self)@.error is None,
        ensures
            final(self)@ == old(self)@.step(ch),
            final(self)@.wf(),
    {
        proof {
            lemma_step_keeps_wf(self@, ch);
        }
        let size: usize = char_byte_count(ch);
        if size > MAX_BATCH_BYTES - self.bytes {
            self.line_number = self.line_number + 1;
            self.fail("batch exceeds 8 KiB");
            return;
        }
        self.bytes = self.bytes + size;
        self.observe_stream_char(ch);
        if ch == '\n' {
            let mut line: Vec<char> = Vec::new();
            std::mem::swap(&mut line, &mut self.line);
            if line.len() > 0 && line[line.len() - 1] == '\r' {
                let ghost whole = line@;
                let _ = line.pop();
                assert(line@ =~= whole.drop_last());
            }
            self.process_line(&line);
        } else {
            self.line.push(ch);
        }
    }

    /// Reads one more part of the stream. After the first error nothing more is read.
    pub fn push(&mut self, delta: &str) -> (result: Result<(), String>)
        requires
            old(self)@.wf(),
        ensures
            final(self)@.wf(),
            final(self)@ == old(self)@.pushed(delta@),
            (match result {
                Ok(()) => Ok::<(), Seq<char>>(()),
                Err(error) => Err(error@),
            }) == final(self)@.outcome(),
    {
        if let Some(error) = &self.error {
            return Err(error.clone());
        }
        self.visible_delta = String::new();
        let ghost start = self@;
        assert(start.visible =~= Seq::empty());
        let chars = to_chars(delta);
        let mut i: usize = 0;
        assert(chars@.take(0) =~= Seq::<char>::empty());
        while i < chars.len()
            invariant
                i <= chars@.len(),
                chars@ == delta@,
                old(self)@.error is None,
                start == (ParserView { visible: Seq::empty(), ..old(self)@ }),
                self@.wf(),
                self@.error is None,
                self@ == start.fed(chars@.take(i as int)),
            decreases chars.len() - i,
        {
            assert(chars@.take(i + 1).drop_last() =~= chars@.take(i as int));
            self.step(chars[i]);
            i += 1;
            if let Some(error) = &self.error {
                proof {
                    lemma_error_stops(start, chars@, i as int);
                }
                return Err(error.clone());
            }
        }
        assert(chars@.take(i as int) =~= chars@);
        Ok(())
    }

    /// Text for the user that the latest push completed.
    pub fn take_visible_delta(&mut self) -> (delta: Option<String>)
        ensures
            optional_text(delta) == old(self)@.visible_delta(),
            final(self)@ == old(self)@.taken(),
            old(self)@.wf() ==> final(self)@.wf(),
    {
        let mut taken = String::new();
        std::mem::swap(&mut taken, &mut self.visible_delta);
        assert(self@.visible =~= Seq::empty());
        if to_chars(taken.as_str()).len() == 0 {
            None
        } else {
            Some(taken)
        }
    }

    /// Ends the stream. The batch is complete or there is none.
    pub fn finish(self, id: &str, final_answer: bool) -> (result: Result<MessageBatch, String>)
        requires
            self@.wf(),
        ensures
            (match result {
                Ok(batch) => Ok::<BatchView, Seq<char>>(batch@),
                Err(error) => Err(error@),
            }) == self@.finished(id@, final_answer),
    {
        let mut parser = self;
        if let Some(error) = &parser.error {
            return Err(error.clone());
        }
        if parser.line.len() > 0 {
            proof {
                lemma_line_keeps_wf(
                    ParserView { line: Seq::empty(), ..parser@ },
                    parser@.line,
                );
            }
            let mut line: Vec<char> = Vec::new();
            std::mem::swap(&mut line, &mut parser.line);
            parser.process_line(&line);
            if let Some(error) = &parser.error {
                return Err(error.clone());
            }
        }
        if !parser.ended {
            return Err(parser.error_text("missing message terminator"));
        }
        let mut messages: Vec<DirectedMessage> = Vec::new();
        let mut i: usize = 0;
        while i < parser.messages.len()
            invariant
                i <= parser.messages@.len() <= MAX_MESSAGES,
                messages@.len() == i,
                forall|k: int|
                    0 <= k < i ==> (#[trigger] messages@[k])@ == (MessageView {
                        id: block_id(id@, k),
                        ..parser.messages@[k]@
                    }),
            decreases parser.messages.len() - i,
        {
            let mut message = parser.messages[i].clone();
            let mut block = id.to_owned();
            block.append(":");
            block.append(decimal_text((i + 1) as u64).as_str());
            message.id = block;
            messages.push(message);
            i += 1;
        }
        assert(message_views(messages@) =~= Seq::new(
            parser@.messages.len(),
            |i: int| MessageView { id: block_id(id@, i), ..parser@.messages[i] },
        ));
        Ok(
            MessageBatch {
                id: id.to_owned(),
                sender: MessageRecipient::Supervisor,
                audience: MessageRecipient::User,
                messages,
                final_answer,
            },
        )
    }
}

proof fn lemma_error_stops(start: ParserView, chars: Seq<char>, count: int)
    requires
        0 <= count <= chars.len(),
        start.fed(chars.take(count)).error is Some,
    ensures
        start.fed(chars) == start.fed(chars.take(count)),
    decreases chars.len() - count,
{
    if count < chars.len() {
        assert(chars.take(count + 1).drop_last() =~= chars.take(count));
        lemma_error_stops(start, chars, count + 1);
    } else {
        assert(chars.take(count) =~= chars);
    }
}

proof fn lemma_line_keeps_wf(p: ParserView, line: Seq<char>)
    requires
        p.wf(),
        p.error is None,
    ensures
        p.with_line(line).messages.len() <= MAX_MESSAGES,
        p.line_number < p.bytes ==> p.with_line(line).wf(),
{
}

proof fn lemma_step_keeps_wf(p: ParserView, ch: char)
    requires
        p.wf(),
        p.error is None,
    ensures
        p.step(ch).wf(),
{
    if char_bytes(ch) <= MAX_BATCH_BYTES - p.bytes {
        let q = ParserView { bytes: p.bytes + char_bytes(ch), ..p }.observed(ch);
        if ch == '\n' {
            lemma_line_keeps_wf(
                ParserView { line: Seq::empty(), ..q },
                without_return(q.line),
            );
        }
    }
}

} // verus!
