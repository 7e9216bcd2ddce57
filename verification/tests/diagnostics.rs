use telos_agent::diagnostics::{
    sanitized_event_for_failure, SanitizedToolFailure, ToolFailureEvent, ToolFailureKind,
    ToolFailureSanitizer,
};

fn sanitizer(root: &str, env: &[(&str, &str)]) -> ToolFailureSanitizer {
    let env: Vec<(String, String)> =
        env.iter().map(|(k, v)| (k.to_string(), v.to_string())).collect();
    ToolFailureSanitizer::new(root.to_string(), &env, None)
}

#[test]
fn sanitizer_redacts_sensitive_values() {
    let mut sanitizer = sanitizer("/home/alice/project", &[("API_KEY", "sk-secret-value")]);
    sanitizer.home_dir = Some("/home/alice".to_string());
    let text = "token sk-secret-value at /home/alice/project/src/main.rs user a@example.com https://example.com/path?secret=1";
    let sanitized = sanitizer.sanitize_text(text);
    assert!(!sanitized.contains("sk-secret-value"));
    assert!(!sanitized.contains("/home/alice"));
    assert!(!sanitized.contains("a@example.com"));
    assert!(!sanitized.contains("secret=1"));
    assert!(sanitized.contains("<ENV_VALUE>"));
    assert!(sanitized.contains("<PROJECT>"));
    assert!(sanitized.contains("<EMAIL>"));
}

#[test]
fn event_signature_is_stable_for_sanitized_failures() {
    let event = ToolFailureEvent::new(
        "s1",
        2,
        "call-1",
        "Bash",
        ToolFailureKind::ExecutionError,
        SanitizedToolFailure {
            argument_summary: "cargo test".into(),
            error_summary: "Command failed with exit code Some(101)".into(),
            exit_code: Some(101),
        },
    );
    assert_eq!(
        event.signature,
        "Bash:execution_error:exit=101:cargo test:Command failed with exit code Some(101)"
    );
}

#[test]
fn powershell_arguments_are_summarized_like_shell_commands() {
    let arguments: serde_json::Value =
        serde_json::from_str(r#"{ "command": "Get-ChildItem -Force C:\\Users\\alice" }"#).unwrap();
    let failure = sanitizer("/nonexistent-root", &[]).sanitize_failure("PowerShell", &arguments, "boom");
    assert_eq!(failure.argument_summary, "Get-ChildItem");
}

#[test]
fn sanitized_text_exact_pipeline() {
    let mut s = sanitizer("/work/repo", &[("TOKEN", "abcd1234"), ("SHORT", "xyz")]);
    s.home_dir = Some("/home/bob".to_string());
    let out = s.sanitize_text("cd /work/repo/src and /home/bob/x  /tmp/y abcd1234 xyz");
    assert_eq!(out, "cd <PROJECT>/src and <HOME>/x <TMP>/y <ENV_VALUE> xyz");
}

#[test]
fn secret_like_tokens_and_queries_are_redacted() {
    let s = sanitizer("/nowhere", &[]);
    assert_eq!(s.sanitize_text("auth (Bearer123)."), "auth (<SECRET>).");
    assert_eq!(s.sanitize_text("key=ghp_ABC and GitHub_Pat_x"), "key=ghp_ABC and <SECRET>");
    assert_eq!(s.sanitize_text("see http://h/p?q=1 plain?x"), "see http://h/p<QUERY> plain?x");
}

#[test]
fn longer_env_values_are_replaced_first() {
    let s = sanitizer("/nowhere", &[("A", "abcd"), ("B", "abcdef")]);
    assert_eq!(s.sanitize_text("abcdef abcd"), "<ENV_VALUE> <ENV_VALUE>");
}

#[test]
fn failure_summary_extracts_exit_code_and_truncates() {
    let s = sanitizer("/nowhere", &[]);
    let args: serde_json::Value = serde_json::from_str(r#"{"path": "src/lib.rs"}"#).unwrap();
    let long = format!("exit code Some(-7) {}", "x".repeat(3000));
    let f = s.sanitize_failure("Read", &args, &long);
    assert_eq!(f.exit_code, Some(-7));
    assert_eq!(f.argument_summary, "src/lib.rs");
    assert!(f.error_summary.ends_with("<truncated>"));
    assert_eq!(f.error_summary.chars().count(), 2000 + "<truncated>".len());
    let none = s.sanitize_failure("Other", &args, "exit code Some(oops)");
    assert_eq!(none.exit_code, None);
}

#[test]
fn argument_summary_falls_back_to_json_text() {
    let s = sanitizer("/nowhere", &[]);
    let args: serde_json::Value = serde_json::from_str(r#"{"n": 1}"#).unwrap();
    let f = s.sanitize_failure("Calc", &args, "bad");
    assert_eq!(f.argument_summary, r#"{"n":1}"#);
    let cmd: serde_json::Value = serde_json::from_str(r#"{"command": "git status --short\nls"}"#).unwrap();
    assert_eq!(s.sanitize_failure("bash", &cmd, "e").argument_summary, "git status");
}

#[test]
fn failure_kind_names_are_snake_case() {
    assert_eq!(ToolFailureKind::ValidationError.as_str(), "validation_error");
    assert_eq!(ToolFailureKind::PermissionRequired.as_str(), "permission_required");
    assert_eq!(ToolFailureKind::ToolNotFound.as_str(), "tool_not_found");
    assert_eq!(ToolFailureKind::ExecutionPanic.as_str(), "execution_panic");
}

#[test]
fn event_for_failure_combines_sanitizing_and_signature() {
    let args: serde_json::Value = serde_json::from_str(r#"{"url": "https://x.io/a?k=v"}"#).unwrap();
    let env = vec![("K".to_string(), "secretvalue".to_string())];
    let event = sanitized_event_for_failure(
        "s", 1, "c", "Fetch", ToolFailureKind::ExecutionError, &args,
        "failed: secretvalue\nsecond line", "/proj", &env, None,
    );
    assert_eq!(event.argument_summary, "https://x.io/a<QUERY>");
    assert_eq!(event.error_summary, "failed: <ENV_VALUE> second line");
    assert_eq!(event.signature, "Fetch:execution_error:https://x.io/a<QUERY>:failed: <ENV_VALUE> second line");
}
