use ragcore::errors::PipelineError;
use ragcore::schemas::{OpenAiCompletionMessage, OpenAiCompletionRole};
use ragcore::session::{ws_action, Completion, Session, WsAction, WsFrame};
use ragcore::strutil::trim_leading_newlines;

#[test]
fn history_after_two_successful_asks() {
    let mut session = Session::new();
    let first = session.apply_outcome("one?".to_string(), Ok("answer one".to_string()));
    assert_eq!(first, Ok("answer one".to_string()));
    let second = session.apply_outcome("two?".to_string(), Ok("answer two".to_string()));
    assert_eq!(second, Ok("answer two".to_string()));
    assert_eq!(session.history.len(), 4);
    assert!(matches!(session.history[0].role, OpenAiCompletionRole::User));
    assert_eq!(session.history[0].content, "one?");
    assert!(matches!(session.history[1].role, OpenAiCompletionRole::Assistant));
    assert_eq!(session.history[1].content, "answer one");
    assert!(matches!(session.history[2].role, OpenAiCompletionRole::User));
    assert_eq!(session.history[2].content, "two?");
    assert!(matches!(session.history[3].role, OpenAiCompletionRole::Assistant));
    assert_eq!(session.history[3].content, "answer two");
}

#[test]
fn failed_ask_leaves_history_unchanged() {
    let mut session = Session::new();
    session
        .apply_outcome("one?".to_string(), Ok("answer one".to_string()))
        .unwrap();
    let failed = session.apply_outcome("two?".to_string(), Err(PipelineError::ServiceError));
    assert_eq!(failed, Err(PipelineError::ServiceError));
    assert_eq!(session.history.len(), 2);
    assert_eq!(session.history[0].content, "one?");
    assert_eq!(session.history[1].content, "answer one");
}

#[test]
fn first_ask_carries_greeting_exchange() {
    let completion = Completion::new("ctx".to_string(), vec![]);
    let request = completion.build_request("question?".to_string());
    let msgs = &request.messages;
    assert_eq!(msgs.len(), 5);
    assert!(matches!(msgs[0].role, OpenAiCompletionRole::System));
    assert_eq!(msgs[0].content, "You are a chatbot assistant");
    assert!(matches!(msgs[1].role, OpenAiCompletionRole::System));
    assert_eq!(msgs[1].content, "ctx");
    assert!(matches!(msgs[2].role, OpenAiCompletionRole::User));
    assert_eq!(msgs[2].content, "Hello");
    assert!(matches!(msgs[3].role, OpenAiCompletionRole::Assistant));
    assert!(matches!(msgs[4].role, OpenAiCompletionRole::User));
    assert_eq!(msgs[4].content, "question?");
}

#[test]
fn later_asks_replay_history_without_greeting() {
    let history = vec![
        OpenAiCompletionMessage {
            role: OpenAiCompletionRole::User,
            content: "earlier?".to_string(),
        },
        OpenAiCompletionMessage {
            role: OpenAiCompletionRole::Assistant,
            content: "earlier!".to_string(),
        },
    ];
    let completion = Completion::new("ctx".to_string(), history);
    let request = completion.build_request("now?".to_string());
    let msgs = &request.messages;
    assert_eq!(msgs.len(), 5);
    assert_eq!(msgs[2].content, "earlier?");
    assert_eq!(msgs[3].content, "earlier!");
    assert!(matches!(msgs[4].role, OpenAiCompletionRole::User));
    assert_eq!(msgs[4].content, "now?");
}

#[test]
fn terminal_display_strips_leading_newlines() {
    assert_eq!(trim_leading_newlines("\n\nanswer"), "answer");
    assert_eq!(trim_leading_newlines("answer\n"), "answer\n");
    assert_eq!(trim_leading_newlines(""), "");
}

#[test]
fn ws_protocol_actions() {
    assert!(matches!(ws_action(WsFrame::Text), WsAction::Answer));
    assert!(matches!(ws_action(WsFrame::Ping), WsAction::Ignore));
    assert!(matches!(ws_action(WsFrame::Pong), WsAction::Ignore));
    assert!(matches!(ws_action(WsFrame::Binary), WsAction::Terminate));
    assert!(matches!(ws_action(WsFrame::Close), WsAction::Terminate));
    assert!(matches!(ws_action(WsFrame::Failure), WsAction::Terminate));
}
