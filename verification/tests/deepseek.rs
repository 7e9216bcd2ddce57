use telos_agent::deepseek_response::{
    parse_assistant_message, parse_chat_response, parse_fim_choice, parse_fim_response,
    parse_stop_reason, parse_tool_call, parse_usage, required_usize,
};
use telos_agent::error::{AgentError, ProviderError};
use telos_agent::message::{ContentBlock, Role};
use telos_agent::provider::StopReason;

fn value(text: &str) -> serde_json::Value {
    serde_json::from_str(text).unwrap()
}

fn invalid_message(error: AgentError) -> String {
    match error {
        AgentError::Provider(ProviderError::InvalidResponse(message)) => message,
        other => panic!("unexpected error {other:?}"),
    }
}

#[test]
fn chat_response_with_reasoning_text_tool_call_and_usage() {
    let reply = value(
        r#"{
            "model": "deepseek-chat",
            "choices": [{
                "finish_reason": "tool_calls",
                "message": {
                    "reasoning_content": "think first",
                    "content": "calling a tool",
                    "tool_calls": [{
                        "id": "call_1",
                        "function": {"name": "read_file", "arguments": "{\"path\": \"a.txt\"}"}
                    }]
                }
            }],
            "usage": {
                "prompt_tokens": 10,
                "completion_tokens": 5,
                "total_tokens": 15,
                "completion_tokens_details": {"reasoning_tokens": 3}
            }
        }"#,
    );
    let response = parse_chat_response(reply).unwrap();
    assert_eq!(response.stop_reason, StopReason::ToolUse);
    assert_eq!(response.model.as_deref(), Some("deepseek-chat"));
    let usage = response.usage.unwrap();
    assert_eq!(usage.input_tokens, 10);
    assert_eq!(usage.output_tokens, 5);
    assert_eq!(usage.total_tokens, Some(15));
    assert_eq!(usage.reasoning_tokens, Some(3));
    assert_eq!(usage.prompt_cache_hit_tokens, None);
    assert_eq!(response.message.role, Role::Assistant);
    assert_eq!(response.message.blocks.len(), 3);
    match &response.message.blocks[0] {
        ContentBlock::Thinking(block) => {
            assert_eq!(block.text, "think first");
            assert!(block.signature.is_none());
            assert!(!block.is_redacted);
        },
        other => panic!("unexpected block {other:?}"),
    }
    match &response.message.blocks[1] {
        ContentBlock::Text(block) => assert_eq!(block.text, "calling a tool"),
        other => panic!("unexpected block {other:?}"),
    }
    match &response.message.blocks[2] {
        ContentBlock::ToolCall(call) => {
            assert_eq!(call.id, "call_1");
            assert_eq!(call.name, "read_file");
            assert_eq!(call.arguments, value(r#"{"path": "a.txt"}"#));
        },
        other => panic!("unexpected block {other:?}"),
    }
}

#[test]
fn chat_response_skips_empty_text_and_defaults_stop_reason() {
    let reply = value(r#"{"choices": [{"message": {"content": "", "reasoning_content": ""}}]}"#);
    let response = parse_chat_response(reply).unwrap();
    assert!(response.message.blocks.is_empty());
    assert_eq!(response.stop_reason, StopReason::EndTurn);
    assert!(response.usage.is_none());
    assert!(response.model.is_none());
}

#[test]
fn chat_response_errors_name_what_is_missing() {
    let missing_choice = parse_chat_response(value(r#"{"choices": []}"#)).unwrap_err();
    assert_eq!(invalid_message(missing_choice), "provider response missing choice");
    let no_array = parse_chat_response(value(r#"{"choices": {}}"#)).unwrap_err();
    assert_eq!(invalid_message(no_array), "provider response missing choice");
    let missing_message = parse_chat_response(value(r#"{"choices": [{}]}"#)).unwrap_err();
    assert_eq!(invalid_message(missing_message), "provider response missing message");
    let bad_usage = parse_chat_response(value(
        r#"{"choices": [{"message": {"content": "hi"}}], "usage": {"prompt_tokens": 1}}"#,
    ))
    .unwrap_err();
    assert_eq!(invalid_message(bad_usage), "usage missing completion_tokens");
}

#[test]
fn tool_call_defaults_and_argument_errors() {
    let call = parse_tool_call(&value(r#"{"function": {}}"#)).unwrap();
    assert_eq!(call.id, "");
    assert_eq!(call.name, "");
    assert_eq!(call.arguments, value("{}"));

    let missing = parse_tool_call(&value(r#"{"id": "x"}"#)).unwrap_err();
    assert_eq!(invalid_message(missing), "tool call missing function");

    let bad = parse_tool_call(&value(r#"{"function": {"name": "t", "arguments": "{not json"}}"#))
        .unwrap_err();
    let text = invalid_message(bad);
    let expected = serde_json::from_str::<serde_json::Value>("{not json").unwrap_err().to_string();
    assert_eq!(text, format!("invalid tool arguments: {expected}"));
}

#[test]
fn assistant_message_stops_at_first_bad_tool_call() {
    let message = value(
        r#"{"content": "x", "tool_calls": [
            {"function": {"name": "a"}},
            {"id": "no-function"},
            {"function": {"name": "c", "arguments": "oops"}}
        ]}"#,
    );
    let error = parse_assistant_message(&message).unwrap_err();
    assert_eq!(invalid_message(error), "tool call missing function");
}

#[test]
fn usage_requires_prompt_and_completion_tokens() {
    let error = parse_usage(&value(r#"{"completion_tokens": 2}"#)).unwrap_err();
    assert_eq!(invalid_message(error), "usage missing prompt_tokens");
    let error = required_usize(&value(r#"{"other": 1}"#), "other_tokens").unwrap_err();
    assert_eq!(invalid_message(error), "usage missing other_tokens");
    let usage = parse_usage(&value(
        r#"{"prompt_tokens": 7, "completion_tokens": 8, "prompt_cache_hit_tokens": 2, "prompt_cache_miss_tokens": 5}"#,
    ))
    .unwrap();
    assert_eq!(usage.input_tokens, 7);
    assert_eq!(usage.output_tokens, 8);
    assert_eq!(usage.prompt_cache_hit_tokens, Some(2));
    assert_eq!(usage.prompt_cache_miss_tokens, Some(5));
    assert_eq!(usage.total_tokens, None);
    assert_eq!(usage.reasoning_tokens, None);
}

#[test]
fn stop_reason_only_tool_calls_means_tool_use() {
    assert_eq!(parse_stop_reason(Some(&value(r#""tool_calls""#))), StopReason::ToolUse);
    assert_eq!(parse_stop_reason(Some(&value(r#""stop""#))), StopReason::EndTurn);
    assert_eq!(parse_stop_reason(Some(&value("3"))), StopReason::EndTurn);
    assert_eq!(parse_stop_reason(None), StopReason::EndTurn);
}

#[test]
fn fim_response_decodes_choices_and_metadata() {
    let reply = value(
        r#"{
            "id": "fim-1", "object": "text_completion", "created": 42, "model": "deepseek-chat",
            "choices": [
                {"index": 0, "text": "fn main() {}", "finish_reason": "stop", "logprobs": null},
                {"text": "second", "logprobs": {"tokens": []}}
            ],
            "usage": {"prompt_tokens": 3, "completion_tokens": 4}
        }"#,
    );
    let response = parse_fim_response(reply).unwrap();
    assert_eq!(response.id.as_deref(), Some("fim-1"));
    assert_eq!(response.object.as_deref(), Some("text_completion"));
    assert_eq!(response.created, Some(42));
    assert_eq!(response.model.as_deref(), Some("deepseek-chat"));
    assert_eq!(response.choices.len(), 2);
    assert_eq!(response.choices[0].text, "fn main() {}");
    assert_eq!(response.choices[0].finish_reason.as_deref(), Some("stop"));
    assert!(response.choices[0].logprobs.is_none());
    assert_eq!(response.choices[1].index, 0);
    assert_eq!(response.choices[1].logprobs, Some(value(r#"{"tokens": []}"#)));
    assert_eq!(response.usage.unwrap().output_tokens, 4);
}

#[test]
fn fim_response_errors() {
    let error = parse_fim_response(value(r#"{"id": "x"}"#)).unwrap_err();
    assert_eq!(invalid_message(error), "FIM response missing choices");
    let error = parse_fim_response(value(r#"{"choices": [{"text": "a"}, {"index": 1}]}"#)).unwrap_err();
    assert_eq!(invalid_message(error), "FIM choice missing text");
    let error = parse_fim_choice(&value(r#"{"text": 5}"#)).unwrap_err();
    assert_eq!(invalid_message(error), "FIM choice missing text");
}
