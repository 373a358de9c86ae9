//! Host-addressed messages. Rendering them must never dispatch them again.

use vstd::prelude::*;

verus! {

#[derive(Clone, Copy, Debug, PartialEq, Eq, Structural)]
pub enum MessageRecipient {
    User,
    Supervisor,
    Implementer,
}

#[derive(Debug, PartialEq, Eq)]
pub struct DirectedMessage {
    pub id: String,
    pub recipient: MessageRecipient,
    pub text: String,
}

pub struct MessageView {
    pub id: Seq<char>,
    pub recipient: MessageRecipient,
    pub text: Seq<char>,
}

impl View for DirectedMessage {
    type V = MessageView;

    open spec fn view(&self) -> MessageView {
        MessageView { id: self.id@, recipient: self.recipient, text: self.text@ }
    }
}

impl Clone for DirectedMessage {
    fn clone(&self) -> (copy: Self)
        ensures
            copy@ == self@,
    {
        DirectedMessage {
            id: self.id.clone(),
            recipient: self.recipient,
            text: self.text.clone(),
        }
    }
}

impl DirectedMessage {
    pub fn same(&self, other: &Self) -> (same: bool)
        ensures
            same == (self@ == other@),
    {
        self.id == other.id && self.recipient == other.recipient && self.text == other.text
    }
}

#[derive(Debug, PartialEq, Eq)]
pub struct MessageBatch {
    /// The source assistant message ID; block IDs append their one-based index.
    pub id: String,
    pub sender: MessageRecipient,
    /// Conversation in which this host-generated projection is presented.
    pub audience: MessageRecipient,
    pub messages: Vec<DirectedMessage>,
    pub final_answer: bool,
}

pub struct BatchView {
    pub id: Seq<char>,
    pub sender: MessageRecipient,
    pub audience: MessageRecipient,
    pub messages: Seq<MessageView>,
    pub final_answer: bool,
}

pub open spec fn message_views(messages: Seq<DirectedMessage>) -> Seq<MessageView> {
    messages.map_values(|message: DirectedMessage| message@)
}

impl View for MessageBatch {
    type V = BatchView;

    open spec fn view(&self) -> BatchView {
        BatchView {
            id: self.id@,
            sender: self.sender,
            audience: self.audience,
            messages: message_views(self.messages@),
            final_answer: self.final_answer,
        }
    }
}

pub fn clone_messages(messages: &Vec<DirectedMessage>) -> (copy: Vec<DirectedMessage>)
    ensures
        message_views(copy@) == message_views(messages@),
{
    let mut copy: Vec<DirectedMessage> = Vec::new();
    let mut i: usize = 0;
    while i < messages.len()
        invariant
            i <= messages@.len(),
            copy@.len() == i,
            forall|k: int| 0 <= k < i ==> (#[trigger] copy@[k])@ == messages@[k]@,
        decreases messages.len() - i,
    {
        copy.push(messages[i].clone());
        i += 1;
    }
    assert(message_views(copy@) =~= message_views(messages@));
    copy
}

impl Clone for MessageBatch {
    fn clone(&self) -> (copy: Self)
        ensures
            copy@ == self@,
    {
        MessageBatch {
            id: self.id.clone(),
            sender: self.sender,
            audience: self.audience,
            messages: clone_messages(&self.messages),
            final_answer: self.final_answer,
        }
    }
}

impl MessageBatch {
    /// Whether two batches agree in every field.
    pub fn same(&self, other: &Self) -> (same: bool)
        ensures
            same == (self@ == other@),
    {
        if self.id != other.id || self.sender != other.sender || self.audience != other.audience
            || self.final_answer != other.final_answer || self.messages.len()
            != other.messages.len() {
            assert(self@.messages.len() == self.messages@.len());
            assert(other@.messages.len() == other.messages@.len());
            return false;
        }
        let mut i: usize = 0;
        while i < self.messages.len()
            invariant
                i <= self.messages@.len(),
                self.messages@.len() == other.messages@.len(),
                forall|k: int| 0 <= k < i ==> self@.messages[k] == other@.messages[k],
            decreases self.messages.len() - i,
        {
            if !self.messages[i].same(&other.messages[i]) {
                assert(self@.messages[i as int] != other@.messages[i as int]);
                return false;
            }
            i += 1;
        }
        assert(self@.messages =~= other@.messages);
        true
    }
}

} // verus!
