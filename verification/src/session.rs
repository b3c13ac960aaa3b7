//! The conversation session: message-list construction and history.
//!
//! A session owns its history. Each ask builds the full message list for
//! the completion service (persona, retrieved context, prior history, a
//! greeting exchange on the first ask, the question); the service call
//! itself is made by the surrounding program, and the session then applies
//! the outcome: a success appends the question and the answer, a failure
//! leaves the history untouched.

use vstd::prelude::*;
use crate::errors::PipelineError;
use crate::schemas::{OpenAiCompletionMessage, OpenAiCompletionModel, OpenAiCompletionRequest,
    OpenAiCompletionRole};

verus! {

/// The fixed persona line every request opens with.
pub open spec fn spec_persona() -> Seq<char> {
    "You are a chatbot assistant"@
}

/// The synthetic greeting question inserted before the first real ask.
pub open spec fn spec_greeting_user() -> Seq<char> {
    "Hello"@
}

/// The synthetic greeting reply inserted before the first real ask.
pub open spec fn spec_greeting_assistant() -> Seq<char> {
    "Hi, I am a chat assistant. How many i help you today?"@
}

/// How many messages a request built over a history of `h` messages
/// holds: persona and context, the history, the greeting exchange when
/// the history is empty, and the question.
pub open spec fn spec_message_count(h: nat) -> nat {
    if h == 0 {
        5
    } else {
        h + 3
    }
}

/// The message list for one ask is exactly: a System persona message, a
/// System message carrying the retrieved context, the prior history
/// verbatim, a synthetic User/Assistant greeting exchange only when the
/// history is empty, and the question as the final User message.
pub open spec fn spec_built_messages(
    r: Seq<OpenAiCompletionMessage>,
    context: Seq<char>,
    history: Seq<OpenAiCompletionMessage>,
    prompt: Seq<char>,
) -> bool {
    &&& r.len() == spec_message_count(history.len())
    &&& r[0].role is System
    &&& r[0].content@ == spec_persona()
    &&& r[1].role is System
    &&& r[1].content@ == context
    &&& forall|i: int| 0 <= i < history.len() ==> r[2 + i] == history[i]
    &&& history.len() == 0 ==> {
        &&& r[2].role is User
        &&& r[2].content@ == spec_greeting_user()
        &&& r[3].role is Assistant
        &&& r[3].content@ == spec_greeting_assistant()
    }
    &&& r.last().role is User
    &&& r.last().content@ == prompt
}

/// One pending completion call: the retrieved context and the history to
/// replay.
pub struct Completion {
    context: String,
    history: Vec<OpenAiCompletionMessage>,
}

impl Completion {
    /// The context, as specifications see it.
    pub closed spec fn spec_context(&self) -> Seq<char> {
        self.context@
    }

    /// The history to replay, as specifications see it.
    pub closed spec fn spec_history(&self) -> Seq<OpenAiCompletionMessage> {
        self.history@
    }

    pub fn new(context: String, history: Vec<OpenAiCompletionMessage>) -> (r: Completion)
        ensures
            r.spec_context() == context@,
            r.spec_history() == history@,
    {
        Completion { context, history }
    }

    /// The full request for one ask over this context and history.
    pub fn build_request(&self, prompt: String) -> (r: OpenAiCompletionRequest)
        ensures
            r.model is GPT35TURBO,
            spec_built_messages(r.messages@, self.spec_context(), self.spec_history(), prompt@),
    {
        let mut messages: Vec<OpenAiCompletionMessage> = Vec::new();
        messages.push(
            OpenAiCompletionMessage {
                role: OpenAiCompletionRole::System,
                content: persona_text(),
            },
        );
        messages.push(
            OpenAiCompletionMessage {
                role: OpenAiCompletionRole::System,
                content: self.context.clone(),
            },
        );
        let n = self.history.len();
        let mut i: usize = 0;
        while i < n
            invariant
                i <= n,
                n == self.history@.len(),
                messages@.len() == 2 + i,
                messages@[0].role is System,
                messages@[0].content@ == spec_persona(),
                messages@[1].role is System,
                messages@[1].content@ == self.spec_context(),
                forall|j: int| 0 <= j < i ==> messages@[2 + j] == self.history@[j],
            decreases n - i,
        {
            messages.push(self.history[i].duplicate());
            i = i + 1;
        }
        if n == 0 {
            messages.push(
                OpenAiCompletionMessage {
                    role: OpenAiCompletionRole::User,
                    content: greeting_user_text(),
                },
            );
            messages.push(
                OpenAiCompletionMessage {
                    role: OpenAiCompletionRole::Assistant,
                    content: greeting_assistant_text(),
                },
            );
        }
        messages.push(
            OpenAiCompletionMessage { role: OpenAiCompletionRole::User, content: prompt },
        );
        OpenAiCompletionRequest { model: OpenAiCompletionModel::GPT35TURBO, messages }
    }
}

fn persona_text() -> (r: String)
    ensures
        r@ == spec_persona(),
{
    let r = "You are a chatbot assistant";
    r.to_owned()
}

fn greeting_user_text() -> (r: String)
    ensures
        r@ == spec_greeting_user(),
{
    let r = "Hello";
    r.to_owned()
}

fn greeting_assistant_text() -> (r: String)
    ensures
        r@ == spec_greeting_assistant(),
{
    let r = "Hi, I am a chat assistant. How many i help you today?";
    r.to_owned()
}

/// A successful ask appended exactly the question and the answer, in
/// that order, to an otherwise untouched history.
pub open spec fn spec_success_step(
    before: Seq<OpenAiCompletionMessage>,
    after: Seq<OpenAiCompletionMessage>,
    prompt: Seq<char>,
    answer: Seq<char>,
) -> bool {
    &&& after.len() == before.len() + 2
    &&& forall|i: int| 0 <= i < before.len() ==> after[i] == before[i]
    &&& after[before.len() as int].role is User
    &&& after[before.len() as int].content@ == prompt
    &&& after.last().role is Assistant
    &&& after.last().content@ == answer
}

/// One caller's conversation: the append-only history.
pub struct Session {
    pub history: Vec<OpenAiCompletionMessage>,
}

impl Session {
    /// A fresh session with no history.
    pub fn new() -> (r: Session)
        ensures
            r.history@.len() == 0,
    {
        Session { history: Vec::new() }
    }

    /// Applies the outcome of one ask. On success the question and the
    /// answer are appended to the history and the answer is returned; on
    /// failure the history is left exactly as it was and the failure is
    /// surfaced.
    pub fn apply_outcome(&mut self, prompt: String, outcome: Result<String, PipelineError>) -> (r:
        Result<String, PipelineError>)
        ensures
            outcome is Ok ==> {
                &&& spec_success_step(
                    old(self).history@,
                    final(self).history@,
                    prompt@,
                    outcome.unwrap()@,
                )
                &&& r == outcome
            },
            outcome is Err ==> {
                &&& final(self).history@ == old(self).history@
                &&& r == outcome
            },
    {
        match outcome {
            Ok(answer) => {
                self.history.push(
                    OpenAiCompletionMessage { role: OpenAiCompletionRole::User, content: prompt },
                );
                self.history.push(
                    OpenAiCompletionMessage {
                        role: OpenAiCompletionRole::Assistant,
                        content: answer.clone(),
                    },
                );
                Ok(answer)
            },
            Err(e) => Err(e),
        }
    }
}

/// What a socket delivered, as the session protocol sees it.
#[derive(Clone, Copy, PartialEq, Eq, Structural, Debug)]
pub enum WsFrame {
    Text,
    Ping,
    Pong,
    Binary,
    Close,
    Failure,
}

/// What the serving loop does with one frame.
#[derive(Clone, Copy, PartialEq, Eq, Structural, Debug)]
pub enum WsAction {
    Answer,
    Ignore,
    Terminate,
}

/// The duplex protocol: a text frame is a question and is answered;
/// ping and pong are acknowledged transparently; a binary frame, a close
/// frame or a socket failure terminates the session at once.
pub fn ws_action(frame: WsFrame) -> (r: WsAction)
    ensures
        frame is Text ==> r is Answer,
        frame is Ping || frame is Pong ==> r is Ignore,
        frame is Binary || frame is Close || frame is Failure ==> r is Terminate,
{
    match frame {
        WsFrame::Text => WsAction::Answer,
        WsFrame::Ping => WsAction::Ignore,
        WsFrame::Pong => WsAction::Ignore,
        WsFrame::Binary => WsAction::Terminate,
        WsFrame::Close => WsAction::Terminate,
        WsFrame::Failure => WsAction::Terminate,
    }
}

/// Law: after two successful asks on a fresh session the history holds
/// exactly four messages in call order: User, Assistant, User,
/// Assistant, carrying the two questions and the two answers; and a
/// failed ask changes nothing, since a failure step is the identity on
/// the history.
pub proof fn lemma_history_after_two_asks(
    h0: Seq<OpenAiCompletionMessage>,
    h1: Seq<OpenAiCompletionMessage>,
    h2: Seq<OpenAiCompletionMessage>,
    p1: Seq<char>,
    a1: Seq<char>,
    p2: Seq<char>,
    a2: Seq<char>,
)
    requires
        h0.len() == 0,
        spec_success_step(h0, h1, p1, a1),
        spec_success_step(h1, h2, p2, a2),
    ensures
        h2.len() == 4,
        h2[0].role is User,
        h2[0].content@ == p1,
        h2[1].role is Assistant,
        h2[1].content@ == a1,
        h2[2].role is User,
        h2[2].content@ == p2,
        h2[3].role is Assistant,
        h2[3].content@ == a2,
{
}

} // verus!
