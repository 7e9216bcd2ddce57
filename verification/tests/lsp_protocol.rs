use telos_agent::error::AgentError;
use telos_agent::lsp_protocol::{
    check_workspace_path, content_length, decode_message, encode_message, frame_message, operation_request,
    response_step, server_request_reply, ResponseStep,
};

fn value(text: &str) -> serde_json::Value {
    serde_json::from_str(text).unwrap()
}

#[test]
fn maps_only_read_only_operations() {
    assert_eq!(operation_request("hover", "file:///x", 1, 2).unwrap().0, "textDocument/hover");
    assert!(operation_request("execute_command", "file:///x", 0, 0).is_err());
}

#[test]
fn operation_parameters() {
    let (method, params) = operation_request("references", "file:///a.rs", 3, 4).unwrap();
    assert_eq!(method, "textDocument/references");
    assert_eq!(
        params,
        value(
            r#"{"textDocument":{"uri":"file:///a.rs"},"position":{"line":3,"character":4},"context":{"includeDeclaration":true}}"#
        )
    );
    let (method, params) = operation_request("document_symbols", "file:///a.rs", 3, 4).unwrap();
    assert_eq!(method, "textDocument/documentSymbol");
    assert_eq!(params, value(r#"{"textDocument":{"uri":"file:///a.rs"}}"#));
    assert_eq!(operation_request("definition", "u", 0, 0).unwrap().0, "textDocument/definition");
    assert_eq!(operation_request("diagnostics", "u", 0, 0).unwrap().0, "textDocument/diagnostic");
    match operation_request("rename", "u", 0, 0).unwrap_err() {
        AgentError::Validation(message) => assert_eq!(message, "unsupported LSP operation `rename`"),
        other => panic!("unexpected error {other:?}"),
    }
}

#[test]
fn answers_server_requests_read_only() {
    let configuration = value(
        r#"{"jsonrpc":"2.0","id":7,"method":"workspace/configuration","params":{"items":[{},{}]}}"#,
    );
    assert_eq!(
        server_request_reply(&configuration).unwrap(),
        value(r#"{"jsonrpc":"2.0","id":7,"result":[null,null]}"#)
    );
    let progress = value(r#"{"id":"x","method":"window/workDoneProgress/create"}"#);
    assert_eq!(
        server_request_reply(&progress).unwrap(),
        value(r#"{"jsonrpc":"2.0","id":"x","result":null}"#)
    );
    let edit = value(r#"{"id":1,"method":"workspace/applyEdit","params":{}}"#);
    assert_eq!(
        server_request_reply(&edit).unwrap(),
        value(
            r#"{"jsonrpc":"2.0","id":1,"result":{"applied":false,"failureReason":"telos-agent LSP bridge is read-only"}}"#
        )
    );
    let unknown = value(r#"{"id":2,"method":"custom/thing"}"#);
    assert_eq!(
        server_request_reply(&unknown).unwrap(),
        value(
            r#"{"jsonrpc":"2.0","id":2,"error":{"code":-32601,"message":"unsupported server request `custom/thing`"}}"#
        )
    );
    assert!(server_request_reply(&value(r#"{"method":"window/logMessage"}"#)).is_none());
    assert!(server_request_reply(&value(r#"{"id":3}"#)).is_none());
}

#[test]
fn waits_for_the_matching_reply() {
    match response_step(&value(r#"{"id":5,"result":{"contents":"docs"}}"#), 5) {
        ResponseStep::Finished(Ok(result)) => assert_eq!(result, value(r#"{"contents":"docs"}"#)),
        _ => panic!("expected a result"),
    }
    match response_step(&value(r#"{"id":5}"#), 5) {
        ResponseStep::Finished(Ok(result)) => assert!(result.is_null()),
        _ => panic!("expected a null result"),
    }
    match response_step(&value(r#"{"id":5,"error":{"code":1}}"#), 5) {
        ResponseStep::Finished(Err(message)) => {
            assert_eq!(message, r#"language server returned error: {"code":1}"#)
        },
        _ => panic!("expected an error"),
    }
    match response_step(&value(r#"{"id":4,"method":"workspace/workspaceFolders"}"#), 5) {
        ResponseStep::Answer(Some(reply)) => {
            assert_eq!(reply, value(r#"{"jsonrpc":"2.0","id":4,"result":null}"#))
        },
        _ => panic!("expected an answer"),
    }
    match response_step(&value(r#"{"method":"textDocument/publishDiagnostics"}"#), 5) {
        ResponseStep::Answer(None) => {},
        _ => panic!("expected no answer"),
    }
}

#[test]
fn frames_and_parses_messages() {
    assert_eq!(frame_message(b"{}"), b"Content-Length: 2\r\n\r\n{}".to_vec());
    let encoded = encode_message(&value(r#"{"a":1}"#)).unwrap();
    assert_eq!(encoded, b"Content-Length: 7\r\n\r\n{\"a\":1}".to_vec());
    assert_eq!(decode_message(b"{\"a\":1}").unwrap(), value(r#"{"a":1}"#));
    assert!(decode_message(b"{").is_err());

    let headers = vec!["Content-Type: x\r\n".to_string(), "Content-Length:  42 \r\n".to_string()];
    assert_eq!(content_length(&headers), Ok(42));
    let overridden = vec!["Content-Length: 1\r\n".to_string(), "Content-Length: nope\r\n".to_string()];
    assert_eq!(content_length(&overridden), Err("missing Content-Length header".to_string()));
    assert_eq!(content_length(&vec![]), Err("missing Content-Length header".to_string()));
    let huge = vec!["Content-Length: 16777217\n".to_string()];
    assert_eq!(content_length(&huge), Err("language server response exceeds 16 MiB".to_string()));
    let limit = vec!["Content-Length: +16777216\r\n".to_string()];
    assert_eq!(content_length(&limit), Ok(16777216));
}

#[test]
fn rejects_paths_outside_workspace() {
    let root = "/tmp/workspace-root";
    let outside = "/tmp/outside-file.rs";
    assert!(check_workspace_path(outside, root).is_err());
    assert!(check_workspace_path("/tmp/workspace-root/src/main.rs", root).is_ok());
    match check_workspace_path("/tmp/workspace-root-other/a.rs", root).unwrap_err() {
        AgentError::PermissionDenied(message) => assert_eq!(
            message,
            "LSP path /tmp/workspace-root-other/a.rs is outside workspace /tmp/workspace-root"
        ),
        other => panic!("unexpected error: {other:?}"),
    }
}
