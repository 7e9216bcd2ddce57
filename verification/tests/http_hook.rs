use telos_agent::error::AgentError;
use telos_agent::http_hook::http_hook_method;

fn message(error: AgentError) -> String {
    match error {
        AgentError::ToolExecution { tool, message } => {
            assert_eq!(tool, "HttpHook");
            message
        }
        other => panic!("unexpected error: {other:?}"),
    }
}

#[test]
fn exec_http_hook_rejects_invalid_method() {
    let err = message(http_hook_method("not a method").unwrap_err());

    assert!(err.contains("invalid HTTP method"), "{err}");
}

#[test]
fn standard_and_extension_methods_are_accepted() {
    assert_eq!(http_hook_method("POST").unwrap(), reqwest::Method::POST);
    assert_eq!(http_hook_method("GET").unwrap(), reqwest::Method::GET);
    assert_eq!(http_hook_method("PURGE").unwrap().as_str(), "PURGE");
}

#[test]
fn empty_and_non_token_methods_are_refused() {
    assert_eq!(
        message(http_hook_method("").unwrap_err()),
        "invalid HTTP method ``: invalid HTTP method"
    );
    assert!(http_hook_method("GÉT").is_err());
    assert!(http_hook_method("GET\n").is_err());
}
