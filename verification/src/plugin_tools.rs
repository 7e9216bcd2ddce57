//! Tools and servers that plugins declare: command tools, MCP servers and
//! LSP servers, built from their declarations and checked before use.
use vstd::prelude::*;

use crate::text::texts;

use crate::error::AgentError;
use crate::json::{
    json_bytes_error_text, json_from_bytes, json_from_str, json_is_object, json_null, json_object, json_parsed,
    json_parsed_bytes,
};
use crate::plugin_command::{
    command_location, env_lookup, extend_env, normalize_component_name, pair_texts,
    resolve_command, root_subst, subst_all, subst_values, substitute_all, component_name,
};
use crate::plugin_id::PluginId;
use crate::plugin_manifest::{LspServerEntry, McpServerEntry};
use crate::text::{chars_of, contains_char_exec, extend_str, is_blank, string_of, trim};

verus! {

// ---------------------------------------------------------------------------
// Tool API
// ---------------------------------------------------------------------------

/// What a model sees of a tool: its name, description and argument schema.
#[derive(Debug)]
pub struct ToolDefinition {
    pub name: String,
    pub description: String,
    pub input_schema: serde_json::Value,
}

impl Clone for ToolDefinition {
    fn clone(&self) -> (r: Self)
        ensures
            r == *self,
    {
        ToolDefinition {
            name: self.name.clone(),
            description: self.description.clone(),
            input_schema: self.input_schema.clone(),
        }
    }
}

/// Whether a tool call may run.
#[derive(Debug, PartialEq, Eq)]
pub enum PermissionDecision {
    Allow,
    Ask { reason: String },
    Deny { reason: String },
}

impl Clone for PermissionDecision {
    fn clone(&self) -> (r: Self)
        ensures
            r == *self,
    {
        match self {
            PermissionDecision::Allow => PermissionDecision::Allow,
            PermissionDecision::Ask { reason } => PermissionDecision::Ask { reason: reason.clone() },
            PermissionDecision::Deny { reason } => PermissionDecision::Deny { reason: reason.clone() },
        }
    }
}

/// Failures of plugin loading.
#[derive(Debug, Clone, PartialEq, Eq)]
pub enum PluginError {
    /// A manifest or spec file could not be read or parsed.
    ManifestParse { path: String, reason: String },
    /// A manifest or spec was read but breaks the schema's rules.
    ManifestValidation { errors: Vec<String> },
    Io(String),
    Json(String),
    /// No installed plugin has this id.
    PluginNotFound { plugin_id: String, marketplace: String },
    /// Plugin requirements run in a circle; the first id is repeated last.
    CircularDependency { cycle: Vec<PluginId> },
    /// A required plugin is missing or not enabled.
    DependencyUnsatisfied { dependency: String, reason: DependencyReason },
    /// A required plugin is present at a version the requirement excludes.
    DependencyVersionConflict {
        plugin: Box<PluginId>,
        required: Box<semver::VersionReq>,
        actual: Box<semver::Version>,
        required_by: Box<PluginId>,
    },
    /// Other enabled or installed plugins still need this one.
    DependencyRequiredBy { dependency: PluginId, dependents: Vec<PluginId> },
    /// One component of a plugin failed to load.
    ComponentLoadFailed(PluginId, String),
    /// A required user configuration value of the plugin is not set.
    UserConfigRequired { id: PluginId },
    /// The plugin's user configuration values break its declared options.
    UserConfigValidation { errors: Vec<String> },
    /// Only some of a plugin's components loaded.
    Degraded { id: PluginId, loaded: usize, total: usize },
    /// A marketplace refresh would drop plugins that are enabled or required.
    MarketplaceRefreshBlocked { plugins: Vec<PluginId> },
    /// Plugins from the marketplace are still installed.
    MarketplaceInUse { marketplace: String, plugins: Vec<PluginId> },
    /// No marketplace of this name is registered; `available` are those that are.
    MarketplaceNotFound { marketplace: String, available: Vec<String> },
    Other(String),
}

/// Why a required plugin does not satisfy a requirement.
#[derive(Debug, Clone, Copy, PartialEq, Eq, Structural)]
pub enum DependencyReason {
    NotFound,
    NotEnabled,
}

// ---------------------------------------------------------------------------
// Command tools
// ---------------------------------------------------------------------------

/// What a user's interrupt does to a tool that is running.
#[derive(Debug, Clone, Copy, PartialEq, Eq, Structural)]
pub enum InterruptBehavior {
    /// The tool is stopped.
    Cancel,
    /// The interrupt waits until the tool has finished.
    Block,
}

/// Default permission decision of a plugin tool.
#[derive(Debug, Clone, Copy, PartialEq, Eq, Structural)]
pub enum ToolPermission {
    Allow,
    Ask,
    Deny,
}

pub fn default_tool_timeout_ms() -> (r: u64)
    ensures
        r == 60_000,
{
    60_000
}

pub fn default_permission() -> (r: ToolPermission)
    ensures
        r == ToolPermission::Ask,
{
    ToolPermission::Ask
}

/// Declarative JSON spec for a plugin tool (e.g. `tools/my-tool.json`).
#[derive(Debug)]
pub struct ToolSpec {
    pub name: String,
    pub description: String,
    pub input_schema: serde_json::Value,
    pub command: String,
    pub args: Vec<String>,
    pub env: Vec<(String, String)>,
    pub timeout_ms: u64,
    pub is_concurrency_safe: bool,
    /// Default permission decision when no rule matches.
    pub permission: ToolPermission,
}

/// An environment key a process can be given: non-empty, no `=` and no NUL.
pub open spec fn valid_env_key(key: Seq<char>) -> bool {
    key.len() > 0 && !key.contains('=') && !key.contains('\0')
}

pub fn is_valid_env_key(key: &str) -> (r: bool)
    ensures
        r == valid_env_key(key@),
{
    let v = chars_of(key);
    v.len() > 0 && !contains_char_exec(v.as_slice(), '=') && !contains_char_exec(v.as_slice(), '\0')
}

/// Problems of the environment keys, one per invalid key, in order.
pub open spec fn env_key_errors(env: Seq<(Seq<char>, Seq<char>)>) -> Seq<Seq<char>>
    decreases env.len(),
{
    if env.len() == 0 {
        seq![]
    } else if valid_env_key(env.last().0) {
        env_key_errors(env.drop_last())
    } else {
        env_key_errors(env.drop_last()).push(
            "tool environment key `"@ + env.last().0 + "` is invalid"@,
        )
    }
}

/// Every problem of a tool spec.
pub open spec fn tool_spec_errors(spec: ToolSpec) -> Seq<Seq<char>> {
    (if trim(spec.name@).len() == 0 {
        seq!["tool name must not be empty"@]
    } else {
        seq![]
    }) + (if trim(spec.command@).len() == 0 {
        seq!["tool command must not be empty"@]
    } else {
        seq![]
    }) + (if spec.timeout_ms == 0 {
        seq!["tool timeoutMs must be greater than zero"@]
    } else {
        seq![]
    }) + (if !json_object(spec.input_schema) {
        seq!["tool inputSchema must be a JSON object"@]
    } else {
        seq![]
    }) + env_key_errors(pair_texts(spec.env@))
}

fn push_str(errors: &mut Vec<String>, text: &str)
    ensures
        texts(final(errors)@) == texts(old(errors)@).push(text@),
{
    errors.push(string_of(chars_of(text).as_slice()));
    assert(texts(errors@) =~= texts(old(errors)@).push(text@));
}

fn push_chars(errors: &mut Vec<String>, text: &Vec<char>)
    ensures
        texts(final(errors)@) == texts(old(errors)@).push(text@),
{
    errors.push(string_of(text.as_slice()));
    assert(texts(errors@) =~= texts(old(errors)@).push(text@));
}

/// The problems of a tool spec: blank name or command, zero timeout, a schema
/// that is not an object, invalid environment keys.
pub fn tool_spec_problems(spec: &ToolSpec) -> (r: Vec<String>)
    ensures
        texts(r@) == tool_spec_errors(*spec),
{
    let mut errors: Vec<String> = Vec::new();
    let ghost e0 = texts(errors@);
    if is_blank(spec.name.as_str()) {
        push_str(&mut errors, "tool name must not be empty");
    }
    let ghost e1 = texts(errors@);
    if is_blank(spec.command.as_str()) {
        push_str(&mut errors, "tool command must not be empty");
    }
    let ghost e2 = texts(errors@);
    if spec.timeout_ms == 0 {
        push_str(&mut errors, "tool timeoutMs must be greater than zero");
    }
    let ghost e3 = texts(errors@);
    if !json_is_object(&spec.input_schema) {
        push_str(&mut errors, "tool inputSchema must be a JSON object");
    }
    let ghost e4 = texts(errors@);
    let ghost env = pair_texts(spec.env@);
    let mut i: usize = 0;
    assert(env_key_errors(env.take(0)) =~= Seq::<Seq<char>>::empty());
    assert(e4 + Seq::<Seq<char>>::empty() =~= e4);
    while i < spec.env.len()
        invariant
            i <= spec.env.len(),
            env == pair_texts(spec.env@),
            texts(errors@) == e4 + env_key_errors(env.take(i as int)),
        decreases spec.env.len() - i,
    {
        let key = &spec.env[i].0;
        assert(env.take(i + 1).drop_last() =~= env.take(i as int));
        assert(env.take(i + 1).last().0 == key@);
        if !is_valid_env_key(key.as_str()) {
            let mut text: Vec<char> = Vec::new();
            extend_str(&mut text, "tool environment key `");
            extend_str(&mut text, key.as_str());
            extend_str(&mut text, "` is invalid");
            push_chars(&mut errors, &text);
        }
        assert(texts(errors@) =~= e4 + env_key_errors(env.take(i + 1)));
        i = i + 1;
    }
    assert(env.take(spec.env.len() as int) =~= env);
    assert(texts(errors@) =~= tool_spec_errors(*spec));
    errors
}

/// A parsed tool spec accepted when it has no problems, else rejected with them all.
pub fn check_tool_spec(spec: ToolSpec) -> (r: Result<ToolSpec, PluginError>)
    ensures
        tool_spec_errors(spec).len() == 0 <==> r is Ok,
        r matches Ok(s) ==> s == spec,
        r matches Err(e) ==> e matches PluginError::ManifestValidation { errors } && texts(errors@)
            == tool_spec_errors(spec),
{
    let errors = tool_spec_problems(&spec);
    if errors.len() == 0 {
        Ok(spec)
    } else {
        Err(PluginError::ManifestValidation { errors })
    }
}

/// The reason given with a plugin tool's default decision.
pub open spec fn permission_reason(p: ToolPermission) -> Seq<char> {
    match p {
        ToolPermission::Allow => seq![],
        ToolPermission::Ask => "plugin tool requires approval"@,
        ToolPermission::Deny => "plugin tool is configured to deny by default"@,
    }
}

/// The decision matches the declared permission, with its fixed reason.
pub open spec fn decision_for(d: PermissionDecision, p: ToolPermission) -> bool {
    match p {
        ToolPermission::Allow => d == PermissionDecision::Allow,
        ToolPermission::Ask => d matches PermissionDecision::Ask { reason } && reason@
            == permission_reason(p),
        ToolPermission::Deny => d matches PermissionDecision::Deny { reason } && reason@
            == permission_reason(p),
    }
}

fn decision_of(p: ToolPermission) -> (r: PermissionDecision)
    ensures
        decision_for(r, p),
{
    match p {
        ToolPermission::Allow => PermissionDecision::Allow,
        ToolPermission::Ask => PermissionDecision::Ask {
            reason: string_of(chars_of("plugin tool requires approval").as_slice()),
        },
        ToolPermission::Deny => PermissionDecision::Deny {
            reason: string_of(chars_of("plugin tool is configured to deny by default").as_slice()),
        },
    }
}

/// A tool backed by a subprocess command: arguments go to its stdin as JSON
/// and its stdout JSON is the result.
pub struct CommandTool {
    definition: ToolDefinition,
    command: String,
    args: Vec<String>,
    env: Vec<(String, String)>,
    timeout_ms: u64,
    is_concurrency_safe: bool,
    default_permission: PermissionDecision,
    inherit_context_env: bool,
}

impl CommandTool {
    pub closed spec fn spec_definition(self) -> ToolDefinition {
        self.definition
    }

    pub closed spec fn spec_command(self) -> Seq<char> {
        self.command@
    }

    pub closed spec fn spec_args(self) -> Seq<Seq<char>> {
        texts(self.args@)
    }

    pub closed spec fn spec_env(self) -> Seq<(Seq<char>, Seq<char>)> {
        pair_texts(self.env@)
    }

    pub closed spec fn spec_timeout_ms(self) -> u64 {
        self.timeout_ms
    }

    pub closed spec fn spec_concurrency_safe(self) -> bool {
        self.is_concurrency_safe
    }

    pub closed spec fn spec_permission(self) -> PermissionDecision {
        self.default_permission
    }

    pub closed spec fn spec_inherits_env(self) -> bool {
        self.inherit_context_env
    }

    /// Build a CommandTool from a parsed ToolSpec.
    pub fn from_spec(spec: ToolSpec, plugin_root: &str) -> (r: Self)
        ensures
            r.spec_definition().name == spec.name,
            r.spec_definition().description == spec.description,
            r.spec_definition().input_schema == spec.input_schema,
            r.spec_command() == command_location(root_subst(spec.command@, plugin_root@), plugin_root@),
            r.spec_args() == subst_all(texts(spec.args@), plugin_root@),
            r.spec_env() == subst_values(pair_texts(spec.env@), plugin_root@),
            r.spec_timeout_ms() == spec.timeout_ms,
            r.spec_concurrency_safe() == spec.is_concurrency_safe,
            decision_for(r.spec_permission(), spec.permission),
            !r.spec_inherits_env(),
    {
        let r = Self::from_spec_with_env(spec, plugin_root, Vec::new());
        assert(pair_texts(Seq::<(String, String)>::empty()) =~= Seq::<(Seq<char>, Seq<char>)>::empty());
        assert(r.spec_env() =~= subst_values(pair_texts(spec.env@), plugin_root@));
        r
    }

    /// Build a CommandTool from a parsed ToolSpec: `plugin_root` is prepended to
    /// relative command paths and substituted for `${PLUGIN_ROOT}` in the command,
    /// args and env values; the spec's env is laid over `plugin_env`.
    pub fn from_spec_with_env(spec: ToolSpec, plugin_root: &str, plugin_env: Vec<(String, String)>) -> (r:
        Self)
        ensures
            r.spec_definition().name == spec.name,
            r.spec_definition().description == spec.description,
            r.spec_definition().input_schema == spec.input_schema,
            r.spec_command() == command_location(root_subst(spec.command@, plugin_root@), plugin_root@),
            r.spec_args() == subst_all(texts(spec.args@), plugin_root@),
            r.spec_env() == pair_texts(plugin_env@) + subst_values(pair_texts(spec.env@), plugin_root@),
            r.spec_timeout_ms() == spec.timeout_ms,
            r.spec_concurrency_safe() == spec.is_concurrency_safe,
            decision_for(r.spec_permission(), spec.permission),
            !r.spec_inherits_env(),
    {
        let args = substitute_all(&spec.args, plugin_root);
        let mut env = plugin_env;
        extend_env(&mut env, &spec.env, plugin_root);
        let command = resolve_command(spec.command.as_str(), plugin_root);
        let default_permission = decision_of(spec.permission);
        CommandTool {
            definition: ToolDefinition {
                name: spec.name,
                description: spec.description,
                input_schema: spec.input_schema,
            },
            command,
            args,
            env,
            timeout_ms: spec.timeout_ms,
            is_concurrency_safe: spec.is_concurrency_safe,
            default_permission,
            inherit_context_env: false,
        }
    }

    /// Create a CommandTool directly (for programmatic construction); it also
    /// passes on the caller's environment.
    pub fn new(
        definition: ToolDefinition,
        command: String,
        args: Vec<String>,
        env: Vec<(String, String)>,
        timeout_ms: u64,
        is_concurrency_safe: bool,
        default_permission: PermissionDecision,
    ) -> (r: Self)
        ensures
            r.spec_definition() == definition,
            r.spec_command() == command@,
            r.spec_args() == texts(args@),
            r.spec_env() == pair_texts(env@),
            r.spec_timeout_ms() == timeout_ms,
            r.spec_concurrency_safe() == is_concurrency_safe,
            r.spec_permission() == default_permission,
            r.spec_inherits_env(),
    {
        CommandTool {
            definition,
            command,
            args,
            env,
            timeout_ms,
            is_concurrency_safe,
            default_permission,
            inherit_context_env: true,
        }
    }

    pub fn definition(&self) -> (r: ToolDefinition)
        ensures
            r == self.spec_definition(),
    {
        self.definition.clone()
    }

    pub fn command(&self) -> (r: &str)
        ensures
            r@ == self.spec_command(),
    {
        self.command.as_str()
    }

    pub fn args(&self) -> (r: &Vec<String>)
        ensures
            texts(r@) == self.spec_args(),
    {
        &self.args
    }

    pub fn env(&self) -> (r: &Vec<(String, String)>)
        ensures
            pair_texts(r@) == self.spec_env(),
    {
        &self.env
    }

    /// The value the tool's environment gives `key`.
    pub fn env_value(&self, key: &str) -> (r: Option<String>)
        ensures
            r is Some <==> env_lookup(self.spec_env(), key@) is Some,
            r matches Some(v) ==> env_lookup(self.spec_env(), key@) == Some(v@),
    {
        crate::plugin_command::env_get(&self.env, key)
    }

    pub fn timeout_ms(&self) -> (r: u64)
        ensures
            r == self.spec_timeout_ms(),
    {
        self.timeout_ms
    }

    pub fn is_concurrency_safe(&self) -> (r: bool)
        ensures
            r == self.spec_concurrency_safe(),
    {
        self.is_concurrency_safe
    }

    pub fn check_permission(&self) -> (r: PermissionDecision)
        ensures
            r == self.spec_permission(),
    {
        self.default_permission.clone()
    }

    /// What an interrupt does to a running command tool: it is cancelled.
    pub fn interrupt_behavior(&self) -> (r: InterruptBehavior)
        ensures
            r == InterruptBehavior::Cancel,
    {
        InterruptBehavior::Cancel
    }

    pub fn inherits_context_env(&self) -> (r: bool)
        ensures
            r == self.spec_inherits_env(),
    {
        self.inherit_context_env
    }

    /// The error for a command that exited unsuccessfully.
    pub fn exit_failure(&self, status: &str, stderr: &str) -> (r: AgentError)
        ensures
            r matches AgentError::ToolExecution { tool, message } && tool@ == self.spec_definition().name@
                && message@ == "tool exited with status "@ + status@ + ": "@ + trim(stderr@),
    {
        let mut text: Vec<char> = Vec::new();
        extend_str(&mut text, "tool exited with status ");
        extend_str(&mut text, status);
        extend_str(&mut text, ": ");
        let t = crate::text::trimmed_string(stderr);
        extend_str(&mut text, t.as_str());
        AgentError::ToolExecution { tool: self.definition.name.clone(), message: string_of(text.as_slice()) }
    }

    /// The result of a run that exited successfully, from what the tool
    /// wrote on stdout: output cut short at [`MAX_TOOL_OUTPUT_BYTES`] is
    /// refused, else the output must be JSON, which is the result.
    pub fn output_result(&self, stdout: &[u8], truncated: bool) -> (r: Result<serde_json::Value, AgentError>)
        ensures
            truncated ==> (r matches Err(e) && (e matches AgentError::ToolExecution { tool, message }
                && tool@ == self.spec_definition().name@ && message@ == "tool output exceeded 16777216 bytes"@)),
            !truncated ==> match json_parsed_bytes(stdout@) {
                Some(v) => r == Ok::<serde_json::Value, AgentError>(v),
                None => r matches Err(e) && (e matches AgentError::ToolExecution { tool, message }
                    && tool@ == self.spec_definition().name@ && message@ == "invalid JSON output: "@
                    + json_bytes_error_text(stdout@)),
            },
    {
        if truncated {
            return Err(
                AgentError::ToolExecution {
                    tool: self.definition.name.clone(),
                    message: "tool output exceeded 16777216 bytes".to_owned(),
                },
            );
        }
        match json_from_bytes(stdout) {
            Ok(v) => Ok(v),
            Err(reason) => {
                let mut text = chars_of("invalid JSON output: ");
                extend_str(&mut text, reason.as_str());
                Err(AgentError::ToolExecution { tool: self.definition.name.clone(), message: string_of(text.as_slice()) })
            },
        }
    }
}

/// The most a command tool may write on stdout, in bytes.
pub const MAX_TOOL_OUTPUT_BYTES: usize = 16777216;

// ---------------------------------------------------------------------------
// MCP servers
// ---------------------------------------------------------------------------

/// Configuration for one MCP server: how its process is spawned and talked to.
#[derive(Debug, Clone)]
pub struct McpServerConfig {
    /// The command to spawn (e.g. "npx", "uvx", "node").
    pub command: String,
    /// Arguments passed to the command.
    pub args: Vec<String>,
    /// Additional environment variables passed to the child process.
    pub env: Vec<(String, String)>,
    /// Working directory for the child process.
    pub cwd: Option<String>,
    /// Auto-connect on session start.
    pub auto_connect: bool,
    /// Request timeout in milliseconds.
    pub timeout_ms: u64,
}

impl Default for McpServerConfig {
    fn default() -> (r: Self)
        ensures
            r.command@ == Seq::<char>::empty(),
            r.args@.len() == 0,
            r.env@.len() == 0,
            r.cwd is None,
            r.auto_connect,
            r.timeout_ms == 60_000,
    {
        McpServerConfig {
            command: String::new(),
            args: Vec::new(),
            env: Vec::new(),
            cwd: None,
            auto_connect: true,
            timeout_ms: 60_000,
        }
    }
}

impl McpServerConfig {
    /// A config with the given command and arguments, all else default.
    pub fn new(command: &str, args: Vec<String>) -> (r: Self)
        ensures
            r.command@ == command@,
            r.args@ == args@,
            r.env@.len() == 0,
            r.cwd is None,
            r.auto_connect,
            r.timeout_ms == 60_000,
    {
        McpServerConfig {
            command: string_of(chars_of(command).as_slice()),
            args,
            env: Vec::new(),
            cwd: None,
            auto_connect: true,
            timeout_ms: 60_000,
        }
    }
}

/// A plugin's MCP server declaration as a runnable config: `${PLUGIN_ROOT}`
/// substituted, relative commands under the plugin root, run in the plugin root.
pub fn mcp_server_entry_to_config(
    entry: McpServerEntry,
    plugin_env: &Vec<(String, String)>,
    plugin_root: &str,
) -> (r: McpServerConfig)
    ensures
        r.command@ == command_location(root_subst(entry.command@, plugin_root@), plugin_root@),
        texts(r.args@) == subst_all(texts(entry.args@), plugin_root@),
        pair_texts(r.env@) == pair_texts(plugin_env@) + subst_values(pair_texts(entry.env@), plugin_root@),
        r.cwd matches Some(c) && c@ == plugin_root@,
        r.auto_connect == entry.auto_connect,
        r.timeout_ms == entry.timeout_ms,
{
    let mut env = clone_pairs(plugin_env);
    extend_env(&mut env, &entry.env, plugin_root);
    let command = resolve_command(entry.command.as_str(), plugin_root);
    let args = substitute_all(&entry.args, plugin_root);
    McpServerConfig {
        command,
        args,
        env,
        cwd: Some(string_of(chars_of(plugin_root).as_slice())),
        auto_connect: entry.auto_connect,
        timeout_ms: entry.timeout_ms,
    }
}

fn clone_pairs(v: &Vec<(String, String)>) -> (r: Vec<(String, String)>)
    ensures
        pair_texts(r@) == pair_texts(v@),
{
    let mut out: Vec<(String, String)> = Vec::new();
    let mut i: usize = 0;
    while i < v.len()
        invariant
            i <= v.len(),
            pair_texts(out@) == pair_texts(v@).take(i as int),
        decreases v.len() - i,
    {
        let p = (v[i].0.clone(), v[i].1.clone());
        assert((p.0@, p.1@) == pair_texts(v@)[i as int]);
        let ghost before = pair_texts(out@);
        out.push(p);
        assert(pair_texts(out@) =~= before.push((p.0@, p.1@)));
        assert(pair_texts(out@) =~= pair_texts(v@).take(i + 1));
        i = i + 1;
    }
    assert(pair_texts(v@).take(v.len() as int) =~= pair_texts(v@));
    out
}

/// Problems of one declared MCP server.
pub open spec fn mcp_server_errors(name: Seq<char>, entry: McpServerEntry) -> Seq<Seq<char>> {
    (if trim(name).len() == 0 {
        seq!["MCP server name must not be empty"@]
    } else {
        seq![]
    }) + (if trim(entry.command@).len() == 0 {
        seq!["MCP server `"@ + name + "` command must not be empty"@]
    } else {
        seq![]
    }) + (if entry.timeout_ms == 0 {
        seq!["MCP server `"@ + name + "` timeoutMs must be greater than zero"@]
    } else {
        seq![]
    }) + (if exists|i: int| 0 <= i < entry.env@.len() && !valid_env_key(#[trigger] entry.env@[i].0@) {
        seq!["MCP server `"@ + name + "` has an invalid environment key"@]
    } else {
        seq![]
    })
}

/// Problems of all declared MCP servers, in order.
pub open spec fn mcp_servers_errors(servers: Seq<(String, McpServerEntry)>) -> Seq<Seq<char>>
    decreases servers.len(),
{
    if servers.len() == 0 {
        seq![]
    } else {
        mcp_servers_errors(servers.drop_last()) + mcp_server_errors(
            servers.last().0@,
            servers.last().1,
        )
    }
}

fn any_invalid_key(env: &Vec<(String, String)>) -> (r: bool)
    ensures
        r == exists|i: int| 0 <= i < env@.len() && !valid_env_key(#[trigger] env@[i].0@),
{
    let mut i: usize = 0;
    while i < env.len()
        invariant
            i <= env.len(),
            forall|j: int| 0 <= j < i ==> valid_env_key(#[trigger] env@[j].0@),
        decreases env.len() - i,
    {
        if !is_valid_env_key(env[i].0.as_str()) {
            return true;
        }
        i = i + 1;
    }
    false
}

fn server_text(head: &str, name: &str, tail: &str) -> (r: Vec<char>)
    ensures
        r@ == head@ + name@ + tail@,
{
    let mut t: Vec<char> = Vec::new();
    extend_str(&mut t, head);
    extend_str(&mut t, name);
    extend_str(&mut t, tail);
    t
}

/// The problems of a plugin's declared MCP servers: blank names or commands,
/// zero timeouts, invalid environment keys.
pub fn mcp_server_problems(servers: &Vec<(String, McpServerEntry)>) -> (r: Vec<String>)
    ensures
        texts(r@) == mcp_servers_errors(servers@),
{
    let mut errors: Vec<String> = Vec::new();
    let mut i: usize = 0;
    assert(texts(errors@) =~= mcp_servers_errors(servers@.take(0)));
    while i < servers.len()
        invariant
            i <= servers.len(),
            texts(errors@) == mcp_servers_errors(servers@.take(i as int)),
        decreases servers.len() - i,
    {
        let name = servers[i].0.as_str();
        let entry = &servers[i].1;
        let ghost before = texts(errors@);
        if is_blank(name) {
            push_str(&mut errors, "MCP server name must not be empty");
        }
        let ghost b1 = texts(errors@);
        if is_blank(entry.command.as_str()) {
            push_chars(&mut errors, &server_text("MCP server `", name, "` command must not be empty"));
        }
        let ghost b2 = texts(errors@);
        if entry.timeout_ms == 0 {
            push_chars(
                &mut errors,
                &server_text("MCP server `", name, "` timeoutMs must be greater than zero"),
            );
        }
        let ghost b3 = texts(errors@);
        if any_invalid_key(&entry.env) {
            push_chars(&mut errors, &server_text("MCP server `", name, "` has an invalid environment key"));
        }
        proof {
            let t = servers@.take(i + 1);
            assert(t.drop_last() =~= servers@.take(i as int));
            assert(t.last() == servers@[i as int]);
            assert(texts(errors@) =~= before + mcp_server_errors(name@, *entry));
        }
        i = i + 1;
    }
    assert(servers@.take(servers.len() as int) =~= servers@);
    errors
}

/// `plugin__<plugin id>__<encoded server name>`: a server's name in the MCP manager.
pub open spec fn server_namespace(plugin_id: Seq<char>, name: Seq<char>) -> Seq<char> {
    "plugin__"@ + plugin_id + "__"@ + component_name(name)
}

pub fn namespaced_server_id(plugin_id: &str, name: &str) -> (r: String)
    ensures
        r@ == server_namespace(plugin_id@, name@),
{
    let n = normalize_component_name(name);
    let mut t: Vec<char> = Vec::new();
    extend_str(&mut t, "plugin__");
    extend_str(&mut t, plugin_id);
    extend_str(&mut t, "__");
    extend_str(&mut t, n.as_str());
    string_of(t.as_slice())
}

// ---------------------------------------------------------------------------
// LSP servers
// ---------------------------------------------------------------------------

/// The tool name of a plugin's LSP server `name`:
/// `plugin__<namespace>__lsp__<encoded server name>`.
pub fn lsp_tool_name(namespace: &str, name: &str) -> (r: String)
    ensures
        r@ == server_namespace(namespace@ + "__lsp"@, name@),
{
    let mut ns = chars_of(namespace);
    extend_str(&mut ns, "__lsp");
    namespaced_server_id(string_of(ns.as_slice()).as_str(), name)
}

/// The file extension of a path, as `Path::extension` reports it.
pub uninterp spec fn path_extension_of(path: Seq<char>) -> Option<Seq<char>>;

/// `Path::new(path).extension()` read as UTF-8, named, not stated.
#[verifier::external_body]
pub fn path_extension(path: &str) -> (r: Option<String>)
    ensures
        r is Some <==> path_extension_of(path@) is Some,
        r matches Some(e) ==> path_extension_of(path@) == Some(e@),
{
    std::path::Path::new(path).extension().and_then(|e| e.to_str()).map(str::to_owned)
}

/// A language server bridged as a read-only tool.
pub struct LspTool {
    definition: ToolDefinition,
    command: String,
    args: Vec<String>,
    env: Vec<(String, String)>,
    extension_to_language: Vec<(String, String)>,
}

/// The JSON schema of the LSP tool's arguments.
pub open spec fn lsp_schema_text() -> Seq<char> {
    "{\"type\":\"object\",\"properties\":{\"operation\":{\"type\":\"string\",\"enum\":[\"hover\",\"definition\",\"references\",\"document_symbols\",\"diagnostics\"]},\"filePath\":{\"type\":\"string\"},\"line\":{\"type\":\"integer\",\"minimum\":0},\"character\":{\"type\":\"integer\",\"minimum\":0}},\"required\":[\"operation\",\"filePath\"],\"additionalProperties\":false}"@
}

/// Why an LSP server declaration is refused, if it is.
pub open spec fn lsp_entry_error(server: Seq<char>, entry: LspServerEntry) -> Option<Seq<char>> {
    if entry.transport@ != "stdio"@ {
        Some("LSP server `"@ + server + "` uses unsupported transport `"@ + entry.transport@ + "`"@)
    } else if trim(entry.command@).len() == 0 {
        Some("LSP server `"@ + server + "` must declare a command"@)
    } else if entry.extension_to_language@.len() == 0 {
        Some("LSP server `"@ + server + "` must declare extensionToLanguage"@)
    } else if exists|i: int|
        0 <= i < entry.extension_to_language@.len() && (trim(
            (#[trigger] entry.extension_to_language@[i]).0@,
        ).len() == 0 || trim(entry.extension_to_language@[i].1@).len() == 0) {
        Some("LSP server `"@ + server + "` has an empty extension or language mapping"@)
    } else if exists|i: int| 0 <= i < entry.env@.len() && !valid_env_key(#[trigger] entry.env@[i].0@) {
        Some("LSP server `"@ + server + "` has an invalid environment key"@)
    } else {
        None
    }
}

fn any_blank_mapping(m: &Vec<(String, String)>) -> (r: bool)
    ensures
        r == exists|i: int|
            0 <= i < m@.len() && (trim((#[trigger] m@[i]).0@).len() == 0 || trim(m@[i].1@).len()
                == 0),
{
    let mut i: usize = 0;
    while i < m.len()
        invariant
            i <= m.len(),
            forall|j: int|
                0 <= j < i ==> !(trim((#[trigger] m@[j]).0@).len() == 0 || trim(m@[j].1@).len() == 0),
        decreases m.len() - i,
    {
        if is_blank(m[i].0.as_str()) || is_blank(m[i].1.as_str()) {
            return true;
        }
        i = i + 1;
    }
    false
}

fn config_error(head: &str, name: &str, tail: &str) -> (r: AgentError)
    ensures
        r matches AgentError::Config(m) && m@ == head@ + name@ + tail@,
{
    AgentError::Config(string_of(server_text(head, name, tail).as_slice()))
}

impl LspTool {
    pub closed spec fn spec_definition(self) -> ToolDefinition {
        self.definition
    }

    pub closed spec fn spec_command(self) -> Seq<char> {
        self.command@
    }

    pub closed spec fn spec_args(self) -> Seq<Seq<char>> {
        texts(self.args@)
    }

    pub closed spec fn spec_env(self) -> Seq<(Seq<char>, Seq<char>)> {
        pair_texts(self.env@)
    }

    pub closed spec fn spec_languages(self) -> Seq<(Seq<char>, Seq<char>)> {
        pair_texts(self.extension_to_language@)
    }

    /// Check a plugin's LSP server declaration and build the tool that bridges it.
    pub fn new(
        tool_name: String,
        server_name: &str,
        entry: LspServerEntry,
        plugin_root: &str,
        plugin_env: Vec<(String, String)>,
    ) -> (r: Result<Self, AgentError>)
        ensures
            lsp_entry_error(server_name@, entry) is None <==> r is Ok,
            r matches Err(e) ==> e matches AgentError::Config(m) && Some(m@) == lsp_entry_error(
                server_name@,
                entry,
            ),
            r matches Ok(t) ==> {
                &&& t.spec_definition().name == tool_name
                &&& t.spec_definition().description@ == "Query the `"@ + server_name@
                    + "` language server for hover, definition, references, document symbols, or diagnostics. Positions are zero-based."@
                &&& json_parsed(lsp_schema_text()) matches Some(v) ==> t.spec_definition().input_schema == v
                &&& t.spec_command() == command_location(root_subst(entry.command@, plugin_root@), plugin_root@)
                &&& t.spec_args() == subst_all(texts(entry.args@), plugin_root@)
                &&& t.spec_env() == pair_texts(plugin_env@) + subst_values(pair_texts(entry.env@), plugin_root@)
                &&& t.spec_languages() == pair_texts(entry.extension_to_language@)
            },
    {
        let transport = chars_of(entry.transport.as_str());
        let stdio = chars_of("stdio");
        if !crate::text::seq_eq(transport.as_slice(), stdio.as_slice()) {
            let mut t = server_text("LSP server `", server_name, "` uses unsupported transport `");
            extend_str(&mut t, entry.transport.as_str());
            extend_str(&mut t, "`");
            return Err(AgentError::Config(string_of(t.as_slice())));
        }
        if is_blank(entry.command.as_str()) {
            return Err(config_error("LSP server `", server_name, "` must declare a command"));
        }
        if entry.extension_to_language.len() == 0 {
            return Err(config_error("LSP server `", server_name, "` must declare extensionToLanguage"));
        }
        if any_blank_mapping(&entry.extension_to_language) {
            return Err(
                config_error("LSP server `", server_name, "` has an empty extension or language mapping"),
            );
        }
        if any_invalid_key(&entry.env) {
            return Err(config_error("LSP server `", server_name, "` has an invalid environment key"));
        }
        let mut env = plugin_env;
        extend_env(&mut env, &entry.env, plugin_root);
        let command = resolve_command(entry.command.as_str(), plugin_root);
        let args = substitute_all(&entry.args, plugin_root);
        let description = server_text(
            "Query the `",
            server_name,
            "` language server for hover, definition, references, document symbols, or diagnostics. Positions are zero-based.",
        );
        let schema = match json_from_str(
            "{\"type\":\"object\",\"properties\":{\"operation\":{\"type\":\"string\",\"enum\":[\"hover\",\"definition\",\"references\",\"document_symbols\",\"diagnostics\"]},\"filePath\":{\"type\":\"string\"},\"line\":{\"type\":\"integer\",\"minimum\":0},\"character\":{\"type\":\"integer\",\"minimum\":0}},\"required\":[\"operation\",\"filePath\"],\"additionalProperties\":false}",
        ) {
            Ok(v) => v,
            Err(_) => json_null(),
        };
        Ok(LspTool {
            definition: ToolDefinition {
                name: tool_name,
                description: string_of(description.as_slice()),
                input_schema: schema,
            },
            command,
            args,
            env,
            extension_to_language: entry.extension_to_language,
        })
    }

    pub fn definition(&self) -> (r: ToolDefinition)
        ensures
            r == self.spec_definition(),
    {
        self.definition.clone()
    }

    pub fn command(&self) -> (r: &str)
        ensures
            r@ == self.spec_command(),
    {
        self.command.as_str()
    }

    pub fn args(&self) -> (r: &Vec<String>)
        ensures
            texts(r@) == self.spec_args(),
    {
        &self.args
    }

    pub fn env(&self) -> (r: &Vec<(String, String)>)
        ensures
            pair_texts(r@) == self.spec_env(),
    {
        &self.env
    }

    /// The language id for the file at `path`: the mapping of `.<extension>`,
    /// else of the bare extension.
    pub fn language_id(&self, path: &str) -> (r: Result<String, AgentError>)
        ensures
            ({
                let ext = match path_extension_of(path@) {
                    Some(e) => e,
                    None => seq![],
                };
                let dotted = env_lookup(self.spec_languages(), "."@ + ext);
                let bare = env_lookup(self.spec_languages(), ext);
                &&& r is Ok <==> (dotted is Some || bare is Some)
                &&& r matches Ok(l) ==> Some(l@) == (if dotted is Some { dotted } else { bare })
                &&& r matches Err(e) ==> e matches AgentError::Validation(m) && m@
                    == "no language mapping for extension `"@ + ext + "`"@
            }),
    {
        let ext = match path_extension(path) {
            Some(e) => e,
            None => string_of(Vec::<char>::new().as_slice()),
        };
        let mut dotted: Vec<char> = Vec::new();
        extend_str(&mut dotted, ".");
        extend_str(&mut dotted, ext.as_str());
        let dotted = string_of(dotted.as_slice());
        if let Some(l) = crate::plugin_command::env_get(&self.extension_to_language, dotted.as_str()) {
            return Ok(l);
        }
        if let Some(l) = crate::plugin_command::env_get(&self.extension_to_language, ext.as_str()) {
            return Ok(l);
        }
        Err(AgentError::Validation(
            string_of(server_text("no language mapping for extension `", ext.as_str(), "`").as_slice()),
        ))
    }

    /// A failure of this tool with `message`.
    pub fn failure(&self, message: &str) -> (r: AgentError)
        ensures
            r matches AgentError::ToolExecution { tool, message: m } && tool@ == self.spec_definition().name@
                && m@ == message@,
    {
        AgentError::ToolExecution {
            tool: self.definition.name.clone(),
            message: string_of(chars_of(message).as_slice()),
        }
    }
}

} // verus!
