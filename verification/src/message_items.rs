//! Turn item transformation is the admission gate, before any client display.

use crate::attention::lemma_same_bytes;
use crate::attention::optional_reply;
use crate::attention::ImplementerReply;
use crate::attention::ReplyView;
use crate::attention::TRUNCATED;
use crate::fragments::concatenated;
use crate::message::message_views;
use crate::message::BatchView;
use crate::message::DirectedMessage;
use crate::message::MessageBatch;
use crate::message::MessageRecipient;
use crate::message::MessageView;
use crate::message_parser::MessageParser;
use crate::message_parser::ParserView;
use crate::runtime::MessageStateView;
use crate::runtime::PlanRuntime;
use crate::runtime::RuntimeView;
use crate::text::blank;
use crate::text::byte_len;
use crate::text::clip;
use crate::text::clip_text;
use crate::text::is_blank;
use crate::text::lemma_clip_is_longest_prefix;
use crate::text::texts;
use vstd::prelude::*;
use vstd::string::StringExecFns;

verus! {

/// The longest reply that is kept whole, in bytes.
pub const MAX_REPLY: usize = 7800;

/// Whether an assistant message is an answer or a comment on the way to one.
#[derive(Clone, Copy, Debug, PartialEq, Eq, Structural)]
pub enum MessagePhase {
    Commentary,
    FinalAnswer,
}

/// An assistant message as the model finished it.
#[derive(Debug, PartialEq, Eq)]
pub struct AgentMessage {
    pub id: String,
    pub content: Vec<String>,
    pub phase: Option<MessagePhase>,
}

impl AgentMessage {
    pub open spec fn text(self) -> Seq<char> {
        concatenated(texts(self.content@))
    }

    /// A message is an answer unless it says that it is a comment.
    pub open spec fn answers(self) -> bool {
        self.phase != Some(MessagePhase::Commentary)
    }

    /// The text of all parts.
    pub fn whole_text(&self) -> (text: String)
        ensures
            text@ == self.text(),
    {
        let ghost parts = texts(self.content@);
        let mut text = String::new();
        let mut i: usize = 0;
        assert(parts.skip(0) =~= parts);
        assert(text@ + concatenated(parts) =~= concatenated(parts));
        while i < self.content.len()
            invariant
                i <= self.content@.len(),
                parts == texts(self.content@),
                text@ + concatenated(parts.skip(i as int)) == concatenated(parts),
            decreases self.content.len() - i,
        {
            let ghost rest = parts.skip(i as int);
            assert(rest.drop_first() =~= parts.skip(i + 1));
            assert(rest[0] == self.content@[i as int]@);
            let ghost before = text@;
            text.append(self.content[i].as_str());
            assert(before + (rest[0] + concatenated(parts.skip(i + 1))) =~= text@ + concatenated(
                parts.skip(i + 1),
            ));
            i += 1;
        }
        assert(parts.skip(i as int) =~= Seq::empty());
        assert(text@ + Seq::<char>::empty() =~= text@);
        text
    }

    pub fn is_answer(&self) -> (yes: bool)
        ensures
            yes == self.answers(),
    {
        match self.phase {
            Some(MessagePhase::Commentary) => false,
            _ => true,
        }
    }
}

/// A reply as it is kept for its report.
pub open spec fn kept_reply(text: Seq<char>) -> Seq<char> {
    let shown = clip(text, MAX_REPLY as int);
    if shown.len() < text.len() {
        shown + TRUNCATED@
    } else {
        text
    }
}

/// What a message of the Implementer becomes: the reply it leaves, and its presentation.
#[derive(Debug)]
pub struct ImplementerMessage {
    pub reply: Option<ImplementerReply>,
    pub batch: MessageBatch,
}

fn first_block_id(id: &str) -> (block: String)
    ensures
        block@ == id@ + ":1"@,
{
    let mut block = id.to_owned();
    block.append(":1");
    block
}

fn one_message(id: &str, recipient: MessageRecipient, text: String) -> (messages: Vec<
    DirectedMessage,
>)
    ensures
        message_views(messages@) == seq![
            MessageView { id: id@ + ":1"@, recipient, text: text@ },
        ],
{
    let mut messages: Vec<DirectedMessage> = Vec::new();
    let message = DirectedMessage { id: first_block_id(id), recipient, text };
    let ghost view = message@;
    messages.push(message);
    assert(message_views(messages@) =~= seq![view]);
    messages
}

/// Presents a message of the Implementer in its own conversation. Only a final answer with text
/// is a reply.
pub fn implementer_message(message: &AgentMessage) -> (result: ImplementerMessage)
    ensures
        optional_reply(result.reply) == (if message.answers() && !blank(message.text()) {
            Some(ReplyView { id: message.id@, text: kept_reply(message.text()) })
        } else {
            None
        }),
        result.batch@ == (BatchView {
            id: message.id@,
            sender: MessageRecipient::Implementer,
            audience: MessageRecipient::Implementer,
            messages: seq![
                MessageView {
                    id: message.id@ + ":1"@,
                    recipient: MessageRecipient::Supervisor,
                    text: message.text(),
                },
            ],
            final_answer: message.answers(),
        }),
{
    let text = message.whole_text();
    let final_answer = message.is_answer();
    let reply = if final_answer && !is_blank(text.as_str()) {
        let mut kept = clip_text(text.as_str(), MAX_REPLY);
        proof {
            lemma_clip_is_longest_prefix(text@, MAX_REPLY as int);
            lemma_same_bytes(text@, kept@.len() as int);
        }
        if byte_len(kept.as_str()) < byte_len(text.as_str()) {
            kept.append(TRUNCATED);
        }
        Some(ImplementerReply { id: message.id.clone(), text: kept })
    } else {
        None
    };
    let messages = one_message(message.id.as_str(), MessageRecipient::Supervisor, text);
    ImplementerMessage {
        reply,
        batch: MessageBatch {
            id: message.id.clone(),
            sender: MessageRecipient::Implementer,
            audience: MessageRecipient::Implementer,
            messages,
            final_answer,
        },
    }
}

/// Reads a message of the Supervisor as a batch.
pub fn parse_message(message: &AgentMessage) -> (result: Result<MessageBatch, String>)
    ensures
        (match result {
            Ok(batch) => Ok::<BatchView, Seq<char>>(batch@),
            Err(error) => Err(error@),
        }) == ParserView::initial().pushed(message.text()).finished(
            message.id@,
            message.answers(),
        ),
{
    let text = message.whole_text();
    let mut parser = MessageParser::default();
    match parser.push(text.as_str()) {
        Err(error) => Err(error),
        Ok(()) => parser.finish(message.id.as_str(), message.is_answer()),
    }
}

/// What a rejected message becomes.
#[derive(Debug)]
pub struct Rejection {
    pub batch: MessageBatch,
    /// Whether the host has to suspend execution.
    pub pause: bool,
}

pub open spec fn correction_request(error: Seq<char>) -> Seq<char> {
    error
        + ". This batch was rejected before any new delivery. Previously accepted deliveries are preserved. Correct the complete document using <messages>, <user> or <implementer> blocks, and </messages>. You have one correction attempt."@
}

impl RuntimeView {
    /// The runtime after a rejected message: the first one asks for a correction, the second one
    /// stops admission.
    pub open spec fn after_rejection(self, error: Seq<char>) -> RuntimeView {
        if self.messages.correction_attempted {
            RuntimeView {
                active: false,
                messages: MessageStateView { feedback: None, ..self.messages },
                ..self
            }
        } else {
            RuntimeView {
                messages: MessageStateView {
                    correction_attempted: true,
                    feedback: Some(correction_request(error)),
                    ..self.messages
                },
                ..self
            }
        }
    }

    /// What the user sees of a rejected message: nothing, or why planning is paused.
    pub open spec fn rejection_messages(self, id: Seq<char>, error: Seq<char>) -> Seq<MessageView> {
        if self.messages.correction_attempted {
            seq![
                MessageView {
                    id: id + ":1"@,
                    recipient: MessageRecipient::User,
                    text: "Continuous Planning paused: "@ + error,
                },
            ]
        } else {
            Seq::empty()
        }
    }
}

impl PlanRuntime {
    /// Rejects a message as a whole.
    pub fn reject_message(&mut self, message: &AgentMessage, error: &str) -> (rejection: Rejection)
        ensures
            final(self)@ == old(self)@.after_rejection(error@),
            rejection.pause == old(self)@.messages.correction_attempted,
            rejection.batch@ == (BatchView {
                id: message.id@,
                sender: MessageRecipient::Supervisor,
                audience: MessageRecipient::User,
                messages: old(self)@.rejection_messages(message.id@, error@),
                final_answer: message.answers(),
            }),
    {
        let pause = self.messages.correction_attempted;
        let messages = if pause {
            self.active = false;
            self.messages.feedback = None;
            let mut text = "Continuous Planning paused: ".to_owned();
            text.append(error);
            one_message(message.id.as_str(), MessageRecipient::User, text)
        } else {
            self.messages.correction_attempted = true;
            let mut feedback = error.to_owned();
            feedback.append(
                ". This batch was rejected before any new delivery. Previously accepted deliveries are preserved. Correct the complete document using <messages>, <user> or <implementer> blocks, and </messages>. You have one correction attempt.",
            );
            self.messages.feedback = Some(feedback);
            let messages: Vec<DirectedMessage> = Vec::new();
            assert(message_views(messages@) =~= Seq::empty());
            messages
        };
        Rejection {
            batch: MessageBatch {
                id: message.id.clone(),
                sender: MessageRecipient::Supervisor,
                audience: MessageRecipient::User,
                messages,
                final_answer: message.is_answer(),
            },
            pause,
        }
    }
}

/// There is one correction attempt: the second rejection in a row stops admission.
pub proof fn law_one_correction_attempt(
    runtime: RuntimeView,
    first: Seq<char>,
    second: Seq<char>,
)
    ensures
        runtime.after_rejection(first).messages.correction_attempted,
        !runtime.after_rejection(first).after_rejection(second).active,
        runtime.after_rejection(first).after_rejection(second).messages.feedback is None,
{
}

} // verus!
