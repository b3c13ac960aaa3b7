use ragcore::errors::PipelineError;
use ragcore::jsonx::{extract_completion, extract_transcript, message_from_parts};
use ragcore::schemas::{OpenAiCompletionModel, OpenAiCompletionRole};

#[test]
fn extracts_the_first_choice_message() {
    let body = r#"{"choices":[{"message":{"role":"assistant","content":"hello there"}}]}"#;
    let v: serde_json::Value = serde_json::from_str(body).unwrap();
    let msg = extract_completion(&v).unwrap();
    assert!(matches!(msg.role, OpenAiCompletionRole::Assistant));
    assert_eq!(msg.content, "hello there");
}

#[test]
fn malformed_bodies_are_service_errors() {
    let cases = [
        r#"{}"#,
        r#"{"choices":[]}"#,
        r#"{"choices":[{"no_message":1}]}"#,
        r#"{"choices":[{"message":{"role":"assistant"}}]}"#,
        r#"{"choices":[{"message":{"content":"x"}}]}"#,
        r#"{"choices":[{"message":{"role":"oracle","content":"x"}}]}"#,
        r#"{"choices":[{"message":{"role":7,"content":"x"}}]}"#,
        r#"[1,2,3]"#,
    ];
    for body in cases {
        let v: serde_json::Value = serde_json::from_str(body).unwrap();
        let out = extract_completion(&v);
        assert_eq!(out.unwrap_err(), PipelineError::ServiceError);
    }
}

#[test]
fn role_names_map_exactly() {
    let m = message_from_parts("system", "s".to_string()).unwrap();
    assert!(matches!(m.role, OpenAiCompletionRole::System));
    let m = message_from_parts("user", "u".to_string()).unwrap();
    assert!(matches!(m.role, OpenAiCompletionRole::User));
    assert_eq!(m.content, "u");
    let m = message_from_parts("assistant", "a".to_string()).unwrap();
    assert!(matches!(m.role, OpenAiCompletionRole::Assistant));
    assert!(message_from_parts("Assistant", "a".to_string()).is_none());
    assert!(message_from_parts("", "a".to_string()).is_none());
}

#[test]
fn transcripts_fall_back_to_empty() {
    let v: serde_json::Value = serde_json::from_str(r#"{"text":"spoken words"}"#).unwrap();
    assert_eq!(extract_transcript(&v), "spoken words");
    let v: serde_json::Value = serde_json::from_str(r#"{"text":7}"#).unwrap();
    assert_eq!(extract_transcript(&v), "");
    let v: serde_json::Value = serde_json::from_str(r#"{"other":"x"}"#).unwrap();
    assert_eq!(extract_transcript(&v), "");
}

#[test]
fn wire_labels_are_fixed() {
    assert_eq!(OpenAiCompletionRole::System.label(), "system");
    assert_eq!(OpenAiCompletionRole::User.label(), "user");
    assert_eq!(OpenAiCompletionRole::Assistant.label(), "assistant");
    assert_eq!(OpenAiCompletionModel::GPT35TURBO.label(), "gpt-3.5-turbo");
}

#[test]
fn error_labels_name_each_kind() {
    assert_eq!(PipelineError::IOError.label(), "io error");
    assert_eq!(PipelineError::ModelError.label(), "model error");
    assert_eq!(PipelineError::ServiceError.label(), "service error");
    assert_eq!(PipelineError::StorageError.label(), "storage error");
    assert_eq!(PipelineError::ConfigError.label(), "config error");
}
