//! The conversation log: messages tagged by role, append-only.

use vstd::prelude::*;

verus! {

/// Who authored a message.
#[derive(Clone, Copy, Debug, PartialEq, Eq, Structural)]
pub enum MessageRole {
    System,
    User,
    Model,
}

/// One entry of the conversation history.
#[derive(Debug, Clone)]
pub struct Message {
    pub role: MessageRole,
    pub content: String,
}

/// The mathematical shape of a message.
pub struct MessageV {
    pub role: MessageRole,
    pub content: Seq<char>,
}

impl View for Message {
    type V = MessageV;

    open spec fn view(&self) -> MessageV {
        MessageV { role: self.role, content: self.content@ }
    }
}

impl DeepView for Message {
    type V = MessageV;

    open spec fn deep_view(&self) -> MessageV {
        self.view()
    }
}

impl Message {
    /// A system-authored message.
    pub fn system(content: &str) -> (r: Message)
        ensures
            r@.role == MessageRole::System,
            r@.content == content@,
    {
        Message { role: MessageRole::System, content: content.to_owned() }
    }

    /// A message typed by the user, or a synthesized observation.
    pub fn user(content: &str) -> (r: Message)
        ensures
            r@.role == MessageRole::User,
            r@.content == content@,
    {
        Message { role: MessageRole::User, content: content.to_owned() }
    }

    /// A verbatim reply from the model.
    pub fn model(content: &str) -> (r: Message)
        ensures
            r@.role == MessageRole::Model,
            r@.content == content@,
    {
        Message { role: MessageRole::Model, content: content.to_owned() }
    }
}

} // verus!
