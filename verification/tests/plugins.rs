use std::path::PathBuf;

use telos_agent::error::AgentError;
use telos_agent::hooks::HookPhase;
use telos_agent::plugin_command::{
    is_bare_executable, join_path, normalize_component_name, normalize_env_key,
    plugin_component_namespace, resolve_plugin_command, CommandHook, CommandPolicy, LimitedOutput,
};
use telos_agent::plugin_id::PluginId;
use telos_agent::plugin_manifest::{
    CommandPolicyDef, DependencyRef, LspServerEntry, McpServerEntry, PoliciesConfig,
    SessionPolicyDef, ToolPolicyDef,
};
use telos_agent::plugin_tools::{
    check_tool_spec, mcp_server_entry_to_config, mcp_server_problems, namespaced_server_id,
    CommandTool, InterruptBehavior, LspTool, McpServerConfig, PermissionDecision, PluginError,
    ToolPermission,
    ToolSpec,
};

fn object() -> serde_json::Value {
    serde_json::Value::Object(serde_json::Map::new())
}

fn command(name: Option<&str>, cmd: &str, timeout: u64) -> CommandPolicyDef {
    CommandPolicyDef { name: name.map(String::from), command: cmd.into(), args: Vec::new(), timeout }
}

#[test]
fn resolves_plugin_root_in_commands_and_arguments() {
    let root = PathBuf::from("example-plugin");
    let policy = CommandPolicy::new(
        "p".into(),
        "./bin/check".into(),
        vec!["${PLUGIN_ROOT}/config.json".into()],
        1000,
        root.to_string_lossy().into_owned(),
        Vec::new(),
    );
    assert_eq!(PathBuf::from(policy.command_path()), root.join("./bin/check"));
    assert_eq!(PathBuf::from(policy.resolve(&policy.args()[0])), root.join("config.json"));
}

#[test]
fn command_policy_keeps_bare_and_absolute_commands() {
    let policy = CommandPolicy::new("p".into(), "python3".into(), vec![], 10, "/opt/p".into(), vec![]);
    assert_eq!(policy.command_path(), "python3");
    let policy = CommandPolicy::new("p".into(), "/usr/bin/env".into(), vec![], 10, "/opt/p".into(), vec![]);
    assert_eq!(policy.command_path(), "/usr/bin/env");
    let policy =
        CommandPolicy::new("p".into(), "${PLUGIN_ROOT}/run.sh".into(), vec!["a".into()], 10, "/opt/p".into(), vec![]);
    assert_eq!(policy.command_path(), "/opt/p/run.sh");
    assert_eq!(policy.resolved_args(), vec!["a".to_string()]);
    assert_eq!(policy.name(), "p");
    assert_eq!(policy.timeout_ms(), 10);
}

#[test]
fn component_namespace_encoding_does_not_collapse_dots_and_underscores() {
    assert_ne!(normalize_component_name("formatter.one"), normalize_component_name("formatter_one"));
}

#[test]
fn component_names_encode_every_other_byte_in_hex() {
    assert_eq!(normalize_component_name("formatter.one"), "formatter_x2eone");
    assert_eq!(normalize_component_name("formatter_one"), "formatter_x5fone");
    assert_eq!(normalize_component_name("a-B9"), "a-B9");
    assert_eq!(normalize_component_name("é"), "_xc3_xa9");
    assert_eq!(normalize_component_name(""), "");
}

#[test]
fn component_namespace_joins_name_and_marketplace() {
    let id = PluginId { name: "fmt".into(), marketplace: "my.mkt".into() };
    assert_eq!(plugin_component_namespace(&id), "fmt__my_x2emkt");
    assert_eq!(namespaced_server_id("fmt@mkt", "srv one"), "plugin__fmt@mkt__srv_x20one");
}

#[test]
fn env_keys_are_upper_cased_with_underscores() {
    assert_eq!(normalize_env_key("foo-bar"), "FOO_BAR");
    assert_eq!(normalize_env_key("foo_bar"), "FOO_BAR");
    assert_eq!(normalize_env_key("apiKey2"), "APIKEY2");
}

#[test]
fn paths_join_like_pathbuf() {
    assert_eq!(join_path("a", "b"), "a/b");
    assert_eq!(join_path("a/", "b"), "a/b");
    assert_eq!(join_path("", "b"), "b");
    assert_eq!(join_path("a", "/b"), "/b");
    assert!(is_bare_executable("node"));
    assert!(!is_bare_executable("./node"));
    assert!(!is_bare_executable("bin/node"));
    assert!(!is_bare_executable("bin\\node"));
    assert_eq!(resolve_plugin_command("bin/tool", "/opt/plugin"), "/opt/plugin/bin/tool");
    assert_eq!(resolve_plugin_command("tool", "/opt/plugin"), "tool");
}

#[test]
fn command_hook_answers_with_trimmed_stdout() {
    let hook = CommandHook::new("h".into(), "echo".into(), vec![], HookPhase::Stop, 500);
    assert_eq!(hook.name(), "h");
    assert_eq!(hook.phase(), HookPhase::Stop);
    assert_eq!(hook.timeout_ms(), 500);
    assert!(CommandHook::reply("  \n ").is_none());
    let reply = CommandHook::reply("  done \n").unwrap();
    assert_eq!(reply.text_content(), "done");
}

#[test]
fn limited_output_keeps_bytes_up_to_the_limit() {
    let mut out = LimitedOutput::new();
    out.absorb(&[1, 2, 3], 4);
    assert_eq!(out.bytes, vec![1, 2, 3]);
    assert!(!out.truncated);
    out.absorb(&[4, 5], 4);
    assert_eq!(out.bytes, vec![1, 2, 3, 4]);
    assert!(out.truncated);
    out.absorb(&[], 4);
    assert!(out.truncated);
}

#[test]
fn parse_dependency_ref_default_marketplace() {
    let dep = DependencyRef {
        name: "my-dep".into(),
        marketplace: None,
        version: semver::VersionReq::parse("^1.2").unwrap(),
    };
    assert_eq!(dep.display(), "my-dep");
    let id = dep.resolve("my-marketplace");
    assert_eq!(id.to_string(), "my-dep@my-marketplace");
}

#[test]
fn parse_dependency_ref_qualified() {
    let dep = DependencyRef {
        name: "dep".into(),
        marketplace: Some("other-mkt".into()),
        version: semver::VersionReq::parse("=2.0.0").unwrap(),
    };
    assert_eq!(dep.display(), "dep@other-mkt");
    let id = dep.resolve("my-marketplace");
    assert_eq!(id.to_string(), "dep@other-mkt");
}

#[test]
fn policy_validation_rejects_invalid_commands_timeouts_and_matchers() {
    let mut policies = PoliciesConfig::empty();
    policies.model_response.push(command(Some(""), "", 0));
    policies
        .tool_before_invoke
        .push(ToolPolicyDef { matcher: Some("[".into()), command: command(None, "check", 30_000) });

    let errors = policies.validate();
    assert!(errors.iter().any(|error| error.contains("name must not be empty")));
    assert!(errors.iter().any(|error| error.contains("command must not be empty")));
    assert!(errors.iter().any(|error| error.contains("timeout must be greater than zero")));
    assert!(errors.iter().any(|error| error.contains("matcher is invalid")));
}

#[test]
fn policy_validation_names_each_offending_path() {
    let mut policies = PoliciesConfig::empty();
    policies.turn_start.push(command(None, "ok", 5));
    policies.turn_start.push(command(None, "  ", 5));
    let errors = policies.validate();
    assert_eq!(errors, vec!["policies.turnStart[1].command must not be empty".to_string()]);
}

#[test]
fn parses_all_semantic_policy_boundaries() {
    let mut policies = PoliciesConfig::empty();
    policies.session_start.push(SessionPolicyDef { mode: None, command: command(None, "start", 30_000) });
    policies.session_end.push(command(None, "end", 30_000));
    policies.turn_start.push(command(None, "turn", 30_000));
    policies.model_before_request.push(command(None, "before-model", 30_000));
    policies.model_response.push(command(None, "after-model", 30_000));
    policies.tool_before_invoke.push(ToolPolicyDef { matcher: None, command: command(None, "before-tool", 30_000) });
    policies.tool_after_invoke.push(ToolPolicyDef { matcher: None, command: command(None, "after-tool", 30_000) });
    policies.turn_before_finish.push(command(None, "finish", 30_000));

    assert_eq!(policies.session_start.len(), 1);
    assert_eq!(policies.session_end.len(), 1);
    assert_eq!(policies.turn_start.len(), 1);
    assert_eq!(policies.model_before_request.len(), 1);
    assert_eq!(policies.model_response.len(), 1);
    assert_eq!(policies.tool_before_invoke.len(), 1);
    assert_eq!(policies.tool_after_invoke.len(), 1);
    assert_eq!(policies.turn_before_finish.len(), 1);
    assert!(policies.validate().is_empty());
}

fn tool_spec(command: &str, args: Vec<String>, env: Vec<(String, String)>) -> ToolSpec {
    ToolSpec {
        name: "test".into(),
        description: "test".into(),
        input_schema: object(),
        command: command.into(),
        args,
        env,
        timeout_ms: 5000,
        is_concurrency_safe: false,
        permission: ToolPermission::Ask,
    }
}

#[test]
fn command_tool_from_spec_substitutes_plugin_root() {
    let spec = tool_spec(
        "${PLUGIN_ROOT}/bin/tool",
        vec!["--config".into(), "${PLUGIN_ROOT}/config.json".into()],
        vec![("TOOL_HOME".into(), "${PLUGIN_ROOT}/home".into())],
    );

    let tool = CommandTool::from_spec(spec, "/opt/plugin");
    assert_eq!(tool.command(), "/opt/plugin/bin/tool");
    assert_eq!(tool.args(), &vec!["--config".to_string(), "/opt/plugin/config.json".to_string()]);
    assert_eq!(tool.env_value("TOOL_HOME").unwrap(), "/opt/plugin/home");
}

#[test]
fn command_tool_from_spec_resolves_relative_plugin_command() {
    let root = PathBuf::from("/tmp/plugin-root");
    let spec = tool_spec("bin/tool", vec![], vec![]);

    let tool = CommandTool::from_spec(spec, &root.to_string_lossy());

    assert_eq!(PathBuf::from(tool.command()), root.join("bin").join("tool"));
}

#[test]
fn plugin_tool_env_lays_spec_over_plugin_env() {
    let spec = tool_spec("tool", vec![], vec![("A".into(), "spec".into())]);
    let tool = CommandTool::from_spec_with_env(
        spec,
        ".",
        vec![("A".into(), "plugin".into()), ("B".into(), "configured".into())],
    );
    assert_eq!(tool.env_value("A").unwrap(), "spec");
    assert_eq!(tool.env_value("B").unwrap(), "configured");
    assert!(tool.env_value("C").is_none());
    assert!(!tool.inherits_context_env());
    assert!(matches!(tool.check_permission(), PermissionDecision::Ask { .. }));
}

#[test]
fn tool_specs_with_problems_are_rejected_with_all_of_them() {
    let mut spec = tool_spec(" ", vec![], vec![("".into(), "x".into()), ("A=B".into(), "y".into())]);
    spec.timeout_ms = 0;
    spec.input_schema = serde_json::Value::Null;
    let err = check_tool_spec(spec).unwrap_err();
    match err {
        PluginError::ManifestValidation { errors } => assert_eq!(
            errors,
            vec![
                "tool command must not be empty".to_string(),
                "tool timeoutMs must be greater than zero".to_string(),
                "tool inputSchema must be a JSON object".to_string(),
                "tool environment key `` is invalid".to_string(),
                "tool environment key `A=B` is invalid".to_string(),
            ]
        ),
        other => panic!("unexpected error {other:?}"),
    }
    assert!(check_tool_spec(tool_spec("echo", vec![], vec![])).is_ok());
}

#[test]
fn mcp_entries_become_configs_rooted_in_the_plugin() {
    let entry = McpServerEntry {
        command: "./server".into(),
        args: vec!["${PLUGIN_ROOT}/cfg".into()],
        env: vec![("K".into(), "${PLUGIN_ROOT}".into())],
        auto_connect: false,
        timeout_ms: 10,
    };
    let config = mcp_server_entry_to_config(entry, &vec![("BASE".into(), "1".into())], "/p");
    assert_eq!(config.command, "/p/./server");
    assert_eq!(config.args, vec!["/p/cfg".to_string()]);
    assert_eq!(config.env, vec![("BASE".to_string(), "1".to_string()), ("K".to_string(), "/p".to_string())]);
    assert_eq!(config.cwd.as_deref(), Some("/p"));
    assert!(!config.auto_connect);
    assert_eq!(config.timeout_ms, 10);

    let defaults = McpServerConfig::new("npx", vec!["server".into()]);
    assert_eq!(defaults.command, "npx");
    assert!(defaults.auto_connect);
    assert_eq!(defaults.timeout_ms, 60_000);
}

#[test]
fn mcp_server_declarations_are_checked() {
    let entry = McpServerEntry { command: "".into(), args: vec![], env: vec![("=".into(), "v".into())], auto_connect: true, timeout_ms: 0 };
    let problems = mcp_server_problems(&vec![("s".into(), entry)]);
    assert_eq!(
        problems,
        vec![
            "MCP server `s` command must not be empty".to_string(),
            "MCP server `s` timeoutMs must be greater than zero".to_string(),
            "MCP server `s` has an invalid environment key".to_string(),
        ]
    );
}

fn lsp_entry(transport: &str, langs: Vec<(String, String)>) -> LspServerEntry {
    LspServerEntry { command: "fake-lsp".into(), args: vec![], extension_to_language: langs, transport: transport.into(), env: vec![] }
}

#[test]
fn lsp_servers_must_use_stdio_and_map_languages() {
    let err = LspTool::new("t".into(), "fake", lsp_entry("tcp", vec![(".rs".into(), "rust".into())]), "/p", vec![]);
    assert!(matches!(err, Err(AgentError::Config(m)) if m == "LSP server `fake` uses unsupported transport `tcp`"));
    let err = LspTool::new("t".into(), "fake", lsp_entry("stdio", vec![]), "/p", vec![]);
    assert!(matches!(err, Err(AgentError::Config(m)) if m == "LSP server `fake` must declare extensionToLanguage"));
    let tool = LspTool::new("t".into(), "fake", lsp_entry("stdio", vec![(".rs".into(), "rust".into()), ("py".into(), "python".into())]), "/p", vec![]).unwrap();
    assert_eq!(tool.language_id("src/main.rs").unwrap(), "rust");
    assert_eq!(tool.language_id("x.py").unwrap(), "python");
    assert!(matches!(tool.language_id("x.go"), Err(AgentError::Validation(m)) if m == "no language mapping for extension `go`"));
    assert_eq!(tool.definition().name, "t");
    assert!(tool.definition().input_schema.is_object());
}

fn policy_message(result: Result<(), AgentError>) -> String {
    match result.unwrap_err() {
        AgentError::ToolExecution { tool, message } => {
            assert_eq!(tool, "guard");
            message
        }
        other => panic!("unexpected error: {other:?}"),
    }
}

#[test]
fn policy_exit_failures_report_stderr_or_status() {
    let policy = CommandPolicy::new("guard".into(), "./guard".into(), vec![], 10, "/opt/p".into(), vec![]);
    assert!(policy.check_exit(true, "exit status: 0", "", false, false).is_ok());
    assert_eq!(
        policy_message(policy.check_exit(false, "exit status: 2", "  \n", false, false)),
        "policy exited with status exit status: 2"
    );
    assert_eq!(
        policy_message(policy.check_exit(false, "exit status: 1", " denied \n", false, false)),
        "denied"
    );
    assert_eq!(
        policy_message(policy.check_exit(false, "exit status: 1", "long story", true, false)),
        "long story… [truncated]"
    );
    assert_eq!(
        policy_message(policy.check_exit(true, "exit status: 0", "", false, true)),
        "policy output exceeded 1048576 bytes"
    );
}

#[test]
fn command_tools_are_cancelled_by_an_interrupt() {
    let spec = ToolSpec {
        name: "t".into(),
        description: "d".into(),
        input_schema: object(),
        command: "echo".into(),
        args: vec![],
        env: vec![],
        timeout_ms: 10,
        is_concurrency_safe: false,
        permission: ToolPermission::Allow,
    };
    let tool = CommandTool::from_spec(spec, "/opt/p");
    assert_eq!(tool.interrupt_behavior(), InterruptBehavior::Cancel);
}

#[test]
fn command_tool_output_becomes_its_json_result() {
    let spec = tool_spec("/bin/tool", vec![], vec![]);
    let tool = CommandTool::from_spec(spec, "/opt/plugin");
    let name = tool.definition().name;
    let value = tool.output_result(br#"{"ok":true}"#, false).unwrap();
    assert_eq!(value.get("ok").and_then(|v| v.as_bool()), Some(true));
    match tool.output_result(b"not json", false) {
        Err(AgentError::ToolExecution { tool, message }) => {
            assert_eq!(tool, name);
            assert!(message.starts_with("invalid JSON output: "));
        }
        other => panic!("unexpected result: {other:?}"),
    }
    match tool.output_result(br#"{"ok":true}"#, true) {
        Err(AgentError::ToolExecution { message, .. }) => {
            assert_eq!(message, "tool output exceeded 16777216 bytes")
        }
        other => panic!("unexpected result: {other:?}"),
    }
}

#[test]
fn policy_outcomes_are_read_as_json() {
    let policy = CommandPolicy::new("guard".into(), "./guard".into(), vec![], 10, "/opt/p".into(), vec![]);
    let value = policy.outcome_value(br#"{"decision":"allow"}"#).unwrap();
    assert_eq!(value.get("decision").and_then(|d| d.as_str()), Some("allow"));
    match policy.outcome_value(b"{") {
        Err(AgentError::ToolExecution { tool, message }) => {
            assert_eq!(tool, "guard");
            assert!(message.starts_with("invalid policy outcome: "));
        }
        other => panic!("unexpected result: {other:?}"),
    }
}

#[test]
fn lsp_tools_are_named_under_the_plugin_namespace() {
    assert_eq!(
        telos_agent::plugin_tools::lsp_tool_name("mkt_x2fdemo", "rust-analyzer"),
        namespaced_server_id("mkt_x2fdemo__lsp", "rust-analyzer")
    );
    assert_eq!(telos_agent::plugin_tools::lsp_tool_name("ns", "ts"), "plugin__ns__lsp__ts");
}
