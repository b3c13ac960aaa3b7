//! Reading the completion and transcription services' JSON replies.
//!
//! The reply arrives as a `serde_json::Value`, opaque to verification.
//! The walk through it goes through trusted accessors whose results are
//! named — each is a function of the value and the key alone — and
//! everything decided about those results (which keys are read, the role
//! names, the fallbacks, the error on a malformed body) is verified
//! here, with contracts stated over the names.

use vstd::prelude::*;
use crate::errors::PipelineError;
use crate::schemas::{OpenAiCompletionMessage, OpenAiCompletionRole};
use crate::strutil::str_eq;

verus! {

broadcast use vstd::string::group_string_axioms;

#[verifier::external_type_specification]
#[verifier::external_body]
pub struct ExValue(serde_json::Value);

/// What `serde_json::Value::get` returns for a string key: a function of
/// the value and the key alone.
pub uninterp spec fn spec_json_get(v: serde_json::Value, key: Seq<char>) -> Option<
    serde_json::Value,
>;

/// What `serde_json::Value::get` returns for a numeric index: a function
/// of the value and the index alone.
pub uninterp spec fn spec_json_index(v: serde_json::Value, i: int) -> Option<serde_json::Value>;

/// What `serde_json::Value::as_str` returns: a function of the value
/// alone.
pub uninterp spec fn spec_json_str(v: serde_json::Value) -> Option<Seq<char>>;

/// Relies on serde_json::Value::get with a string key: the entry under
/// that key when the value is an object holding it, `None` otherwise.
/// The result is `spec_json_get` of the value and the key.
#[verifier::external_body]
fn json_get<'a>(v: &'a serde_json::Value, key: &str) -> (r: Option<&'a serde_json::Value>)
    ensures
        match spec_json_get(*v, key@) {
            Some(u) => r is Some && *r.unwrap() == u,
            None => r is None,
        },
{
    v.get(key)
}

/// Relies on serde_json::Value::get with a numeric index: the element at
/// that position when the value is an array long enough, `None`
/// otherwise. The result is `spec_json_index` of the value and the
/// index.
#[verifier::external_body]
fn json_get_index<'a>(v: &'a serde_json::Value, i: usize) -> (r: Option<&'a serde_json::Value>)
    ensures
        match spec_json_index(*v, i as int) {
            Some(u) => r is Some && *r.unwrap() == u,
            None => r is None,
        },
{
    v.get(i)
}

/// Relies on serde_json::Value::as_str: the borrowed string when the
/// value is a JSON string, `None` otherwise. The result is
/// `spec_json_str` of the value.
#[verifier::external_body]
fn json_as_str<'a>(v: &'a serde_json::Value) -> (r: Option<&'a str>)
    ensures
        match spec_json_str(*v) {
            Some(s) => r is Some && r.unwrap()@ == s,
            None => r is None,
        },
{
    v.as_str()
}

/// The message value of a completion reply: the `message` of the first
/// entry under `choices`, when each step of that walk is present.
pub open spec fn spec_reply_message(v: serde_json::Value) -> Option<serde_json::Value> {
    match spec_json_get(v, "choices"@) {
        Some(choices) => match spec_json_index(choices, 0) {
            Some(first) => spec_json_get(first, "message"@),
            None => None,
        },
        None => None,
    }
}

/// The two strings a completion reply carries: the `role` and `content`
/// of the reply's message, when both are present and are strings.
pub open spec fn spec_reply_parts(v: serde_json::Value) -> Option<(Seq<char>, Seq<char>)> {
    match spec_reply_message(v) {
        Some(message) => match spec_json_get(message, "role"@) {
            Some(rv) => match spec_json_str(rv) {
                Some(role) => match spec_json_get(message, "content"@) {
                    Some(cv) => match spec_json_str(cv) {
                        Some(content) => Some((role, content)),
                        None => None,
                    },
                    None => None,
                },
                None => None,
            },
            None => None,
        },
        None => None,
    }
}

/// The message a role name and a content string denote: the three role
/// names the service uses, and nothing else, are accepted.
pub fn message_from_parts(role: &str, content: String) -> (r: Option<OpenAiCompletionMessage>)
    ensures
        role@ == "system"@ ==> {
            &&& r is Some
            &&& r.unwrap().role is System
            &&& r.unwrap().content == content
        },
        role@ == "user"@ ==> {
            &&& r is Some
            &&& r.unwrap().role is User
            &&& r.unwrap().content == content
        },
        role@ == "assistant"@ ==> {
            &&& r is Some
            &&& r.unwrap().role is Assistant
            &&& r.unwrap().content == content
        },
        role@ != "system"@ && role@ != "user"@ && role@ != "assistant"@ ==> r is None,
{
    proof {
        reveal_strlit("system");
        reveal_strlit("user");
        reveal_strlit("assistant");
        assert("system"@.len() == 6);
        assert("user"@.len() == 4);
        assert("assistant"@.len() == 9);
        assert("system"@ != "user"@);
        assert("system"@ != "assistant"@);
        assert("user"@ != "assistant"@);
    }
    if str_eq(role, "system") {
        Some(OpenAiCompletionMessage { role: OpenAiCompletionRole::System, content })
    } else if str_eq(role, "user") {
        Some(OpenAiCompletionMessage { role: OpenAiCompletionRole::User, content })
    } else if str_eq(role, "assistant") {
        Some(OpenAiCompletionMessage { role: OpenAiCompletionRole::Assistant, content })
    } else {
        None
    }
}

/// The assistant message inside a completion reply. When the walk
/// choices → first entry → message → role and content yields two
/// strings, the result is `Ok` of exactly that content under the role
/// the name maps to; in every other case — any step missing, a
/// non-string part, an unknown role name — the result is the service's
/// failure, never a panic.
pub fn extract_completion(v: &serde_json::Value) -> (r: Result<
    OpenAiCompletionMessage,
    PipelineError,
>)
    ensures
        match spec_reply_parts(*v) {
            Some(parts) => {
                if parts.0 == "system"@ {
                    &&& r is Ok
                    &&& r.unwrap().role is System
                    &&& r.unwrap().content@ == parts.1
                } else if parts.0 == "user"@ {
                    &&& r is Ok
                    &&& r.unwrap().role is User
                    &&& r.unwrap().content@ == parts.1
                } else if parts.0 == "assistant"@ {
                    &&& r is Ok
                    &&& r.unwrap().role is Assistant
                    &&& r.unwrap().content@ == parts.1
                } else {
                    r == Err::<OpenAiCompletionMessage, PipelineError>(PipelineError::ServiceError)
                }
            },
            None => r == Err::<OpenAiCompletionMessage, PipelineError>(PipelineError::ServiceError),
        },
{
    let choices = match json_get(v, "choices") {
        Some(c) => c,
        None => {
            return Err(PipelineError::ServiceError);
        },
    };
    let first = match json_get_index(choices, 0) {
        Some(c) => c,
        None => {
            return Err(PipelineError::ServiceError);
        },
    };
    let message = match json_get(first, "message") {
        Some(m) => m,
        None => {
            return Err(PipelineError::ServiceError);
        },
    };
    let role = match json_get(message, "role") {
        Some(rv) => match json_as_str(rv) {
            Some(s) => s,
            None => {
                return Err(PipelineError::ServiceError);
            },
        },
        None => {
            return Err(PipelineError::ServiceError);
        },
    };
    let content = match json_get(message, "content") {
        Some(cv) => match json_as_str(cv) {
            Some(s) => s.to_owned(),
            None => {
                return Err(PipelineError::ServiceError);
            },
        },
        None => {
            return Err(PipelineError::ServiceError);
        },
    };
    match message_from_parts(role, content) {
        Some(m) => Ok(m),
        None => Err(PipelineError::ServiceError),
    }
}

/// The transcript a transcription reply carries: the string under
/// `text`, or the empty string when that field is absent or not a
/// string.
pub open spec fn spec_transcript(v: serde_json::Value) -> Seq<char> {
    match spec_json_get(v, "text"@) {
        Some(tv) => match spec_json_str(tv) {
            Some(s) => s,
            None => Seq::empty(),
        },
        None => Seq::empty(),
    }
}

/// The transcript inside a transcription reply: exactly the string under
/// `text`, or the empty string when the reply lacks one.
pub fn extract_transcript(v: &serde_json::Value) -> (r: String)
    ensures
        r@ == spec_transcript(*v),
{
    match json_get(v, "text") {
        Some(tv) => match json_as_str(tv) {
            Some(s) => s.to_owned(),
            None => String::new(),
        },
        None => String::new(),
    }
}

} // verus!
