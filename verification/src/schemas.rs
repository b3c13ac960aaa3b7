//! Shared data model: segments, encode requests, completion messages.

use vstd::prelude::*;

verus! {

/// A model output vector. Each coordinate is carried as the bit pattern
/// of one 32-bit float; the library never computes on coordinates, it
/// only moves them whole, so the bit pattern is the faithful value.
pub type Embedding = Vec<u32>;

/// One batch encode request as the dispatcher's queue holds it: the
/// texts to embed, in order, and the ticket its reply is matched by.
/// The single-use reply channel itself belongs to the surrounding
/// program; the ticket stands for it here.
pub struct EncodingRequest {
    pub raw: Vec<String>,
    pub ticket: u64,
}

/// One stored segment: its text, its embedding, the document it came
/// from and its position there. `relevence` is populated only as the
/// result of a similarity query, never persisted.
pub struct DocumentRef {
    pub embedding: Embedding,
    pub raw: String,
    pub relevence: Option<u32>,
    pub doc_ref: String,
    pub segment: u64,
}

/// Who says a conversation message.
#[derive(Clone, Copy, PartialEq, Eq, Structural, Debug)]
pub enum OpenAiCompletionRole {
    System,
    User,
    Assistant,
}

/// The completion model the service is asked for.
#[derive(Clone, Copy, PartialEq, Eq, Structural, Debug)]
pub enum OpenAiCompletionModel {
    GPT35TURBO,
}

/// One conversation message.
#[derive(Clone, Debug)]
pub struct OpenAiCompletionMessage {
    pub role: OpenAiCompletionRole,
    pub content: String,
}

impl OpenAiCompletionRole {
    /// The role's name on the wire.
    pub fn label(&self) -> (r: &'static str)
        ensures
            self is System ==> r@ == "system"@,
            self is User ==> r@ == "user"@,
            self is Assistant ==> r@ == "assistant"@,
    {
        match self {
            OpenAiCompletionRole::System => "system",
            OpenAiCompletionRole::User => "user",
            OpenAiCompletionRole::Assistant => "assistant",
        }
    }
}

impl OpenAiCompletionModel {
    /// The model's name on the wire.
    pub fn label(&self) -> (r: &'static str)
        ensures
            r@ == "gpt-3.5-turbo"@,
    {
        "gpt-3.5-turbo"
    }
}

impl OpenAiCompletionMessage {
    /// An equal message, fresh.
    pub fn duplicate(&self) -> (r: OpenAiCompletionMessage)
        ensures
            r == *self,
    {
        OpenAiCompletionMessage { role: self.role, content: self.content.clone() }
    }
}

/// A full request to the completion service: the model and the message
/// list, oldest first.
pub struct OpenAiCompletionRequest {
    pub model: OpenAiCompletionModel,
    pub messages: Vec<OpenAiCompletionMessage>,
}

/// A question as the serving layer receives it.
pub struct Question {
    pub question: String,
}

} // verus!
