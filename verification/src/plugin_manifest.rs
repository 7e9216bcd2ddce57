//! Plugin manifest types — the schema of `plugin.json`, and its policy checks.
//!
//! Maps of the JSON schema are held as lists of `(key, value)` pairs.
use vstd::prelude::*;

use crate::text::texts;

use crate::pattern::{glob_error, glob_error_text, glob_valid};
use crate::plugin_id::PluginId;
use crate::text::{chars_of, extend_chars, extend_str, is_blank, nat_digits, string_of, trim, u64_text};

verus! {

/// How a session was opened.
#[derive(Debug, Clone, Copy, PartialEq, Eq, Structural)]
pub enum SessionMode {
    Create,
    Resume,
}

/// Author or maintainer of a plugin or marketplace.
#[derive(Debug, Clone)]
pub struct PluginAuthor {
    pub name: String,
    pub email: Option<String>,
    pub url: Option<String>,
}

#[derive(Debug, Clone, Copy, PartialEq, Eq, Structural)]
pub enum ConfigOptionType {
    String,
    Number,
    Boolean,
    Directory,
    File,
}

/// `semver::VersionReq`, carried opaquely.
#[verifier::external_type_specification]
#[verifier::external_body]
pub struct ExVersionReq(semver::VersionReq);

/// `<semver::VersionReq as Clone>::clone`, which `derive(Clone)` writes: the
/// copy holds the same comparators.
pub assume_specification[ <semver::VersionReq as Clone>::clone ](v: &semver::VersionReq) -> (r:
    semver::VersionReq)
    ensures
        r == *v,
;

/// `semver::Version`, carried opaquely.
#[verifier::external_type_specification]
#[verifier::external_body]
pub struct ExVersion(semver::Version);

/// `<semver::Version as Clone>::clone`, which `derive(Clone)` writes: the copy
/// holds the same numbers, pre-release and build identifiers.
pub assume_specification[ <semver::Version as Clone>::clone ](v: &semver::Version) -> (r:
    semver::Version)
    ensures
        r == *v,
;

/// Whether `version` satisfies every comparator of `req`.
pub uninterp spec fn version_matches(req: semver::VersionReq, version: semver::Version) -> bool;

/// `semver::VersionReq::matches`; its answer is named, not stated.
#[verifier::external_body]
pub fn version_req_matches(req: &semver::VersionReq, version: &semver::Version) -> (r: bool)
    ensures
        r == version_matches(*req, *version),
{
    req.matches(version)
}

/// A versioned dependency reference. Omitting `marketplace` resolves against
/// the declaring plugin's marketplace.
#[derive(Debug)]
pub struct DependencyRef {
    pub name: String,
    pub marketplace: Option<String>,
    pub version: semver::VersionReq,
}

fn clone_opt(s: &Option<String>) -> (r: Option<String>)
    ensures
        r == *s,
{
    match s {
        Some(v) => Some(v.clone()),
        None => None,
    }
}

impl Clone for DependencyRef {
    fn clone(&self) -> (r: Self)
        ensures
            r == *self,
    {
        DependencyRef {
            name: self.name.clone(),
            marketplace: clone_opt(&self.marketplace),
            version: self.version.clone(),
        }
    }
}

impl DependencyRef {
    /// Resolve this reference into a concrete PluginId.
    ///
    /// Bare names use `default_marketplace`; qualified names use their own.
    pub fn resolve(&self, default_marketplace: &str) -> (r: PluginId)
        ensures
            r.name@ == self.name@,
            r.marketplace@ == match self.marketplace {
                Some(m) => m@,
                None => default_marketplace@,
            },
    {
        let marketplace = match &self.marketplace {
            Some(m) => m.clone(),
            None => string_of(chars_of(default_marketplace).as_slice()),
        };
        PluginId { name: self.name.clone(), marketplace }
    }

    /// Display the dependency as a string: `name` or `name@marketplace`.
    pub fn display(&self) -> (r: String)
        ensures
            r@ == match self.marketplace {
                Some(m) => self.name@ + "@"@ + m@,
                None => self.name@,
            },
    {
        match &self.marketplace {
            Some(m) => {
                let mut out: Vec<char> = Vec::new();
                extend_str(&mut out, self.name.as_str());
                extend_str(&mut out, "@");
                extend_str(&mut out, m.as_str());
                string_of(out.as_slice())
            },
            None => self.name.clone(),
        }
    }
}

// --- Policy configuration ---

pub fn default_policy_timeout_ms() -> (r: u64)
    ensures
        r == 30_000,
{
    30_000
}

pub fn default_true() -> (r: bool)
    ensures
        r,
{
    true
}

pub fn default_mcp_timeout_ms() -> (r: u64)
    ensures
        r == 60_000,
{
    60_000
}

pub fn default_transport() -> (r: String)
    ensures
        r@ == "stdio"@,
{
    string_of(chars_of("stdio").as_slice())
}

pub fn default_strict() -> (r: bool)
    ensures
        r,
{
    true
}

#[derive(Debug, Clone)]
pub struct CommandPolicyDef {
    /// Stable identifier used in lifecycle events. Generated from declaration order when omitted.
    pub name: Option<String>,
    pub command: String,
    pub args: Vec<String>,
    pub timeout: u64,
}

#[derive(Debug, Clone)]
pub struct SessionPolicyDef {
    pub mode: Option<SessionMode>,
    pub command: CommandPolicyDef,
}

#[derive(Debug, Clone)]
pub struct ToolPolicyDef {
    pub matcher: Option<String>,
    pub command: CommandPolicyDef,
}

#[derive(Debug, Clone)]
pub struct PoliciesConfig {
    pub session_start: Vec<SessionPolicyDef>,
    pub session_end: Vec<CommandPolicyDef>,
    pub turn_start: Vec<CommandPolicyDef>,
    pub model_before_request: Vec<CommandPolicyDef>,
    pub model_response: Vec<CommandPolicyDef>,
    pub tool_before_invoke: Vec<ToolPolicyDef>,
    pub tool_after_invoke: Vec<ToolPolicyDef>,
    pub turn_before_finish: Vec<CommandPolicyDef>,
}

/// `policies.<section>[<index>]`.
pub open spec fn policy_path(section: Seq<char>, index: nat) -> Seq<char> {
    "policies."@ + section + "["@ + nat_digits(index) + "]"@
}

/// The problems of one command policy declared at `path`.
pub open spec fn command_errors(path: Seq<char>, p: CommandPolicyDef) -> Seq<Seq<char>> {
    (if p.name matches Some(n) && trim(n@).len() == 0 {
        seq![path + ".name must not be empty"@]
    } else {
        seq![]
    }) + (if trim(p.command@).len() == 0 {
        seq![path + ".command must not be empty"@]
    } else {
        seq![]
    }) + (if p.timeout == 0 {
        seq![path + ".timeout must be greater than zero"@]
    } else {
        seq![]
    })
}

/// The problem of a tool matcher that is not a valid glob.
pub open spec fn matcher_errors(path: Seq<char>, matcher: Option<String>) -> Seq<Seq<char>> {
    match matcher {
        Some(m) => if glob_valid(m@) {
            seq![]
        } else {
            seq![path + ".matcher is invalid: "@ + glob_error_text(m@)]
        },
        None => seq![],
    }
}

/// Problems of a section of command policies, in declaration order.
pub open spec fn section_errors(section: Seq<char>, defs: Seq<CommandPolicyDef>) -> Seq<Seq<char>>
    decreases defs.len(),
{
    if defs.len() == 0 {
        seq![]
    } else {
        section_errors(section, defs.drop_last()) + command_errors(
            policy_path(section, (defs.len() - 1) as nat),
            defs.last(),
        )
    }
}

/// Problems of a section of tool policies, in declaration order.
pub open spec fn tool_section_errors(section: Seq<char>, defs: Seq<ToolPolicyDef>) -> Seq<
    Seq<char>,
>
    decreases defs.len(),
{
    if defs.len() == 0 {
        seq![]
    } else {
        let path = policy_path(section, (defs.len() - 1) as nat);
        tool_section_errors(section, defs.drop_last()) + command_errors(path, defs.last().command)
            + matcher_errors(path, defs.last().matcher)
    }
}

/// Every problem of a policies block, section by section.
pub open spec fn policies_errors(c: PoliciesConfig) -> Seq<Seq<char>> {
    section_errors(
        "sessionStart"@,
        c.session_start@.map_values(|s: SessionPolicyDef| s.command),
    ) + section_errors("sessionEnd"@, c.session_end@) + section_errors("turnStart"@, c.turn_start@)
        + section_errors("modelBeforeRequest"@, c.model_before_request@) + section_errors(
        "modelResponse"@,
        c.model_response@,
    ) + tool_section_errors("toolBeforeInvoke"@, c.tool_before_invoke@) + tool_section_errors(
        "toolAfterInvoke"@,
        c.tool_after_invoke@,
    ) + section_errors("turnBeforeFinish"@, c.turn_before_finish@)
}

fn push_text(errors: &mut Vec<String>, text: &Vec<char>)
    ensures
        texts(final(errors)@) == texts(old(errors)@).push(text@),
{
    errors.push(string_of(text.as_slice()));
    assert(texts(errors@) =~= texts(old(errors)@).push(text@));
}

fn path_with(path: &Vec<char>, suffix: &str) -> (r: Vec<char>)
    ensures
        r@ == path@ + suffix@,
{
    let mut out: Vec<char> = Vec::new();
    extend_chars(&mut out, path.as_slice());
    extend_str(&mut out, suffix);
    out
}

fn policy_path_exec(section: &str, index: usize) -> (r: Vec<char>)
    ensures
        r@ == policy_path(section@, index as nat),
{
    let mut out: Vec<char> = Vec::new();
    extend_str(&mut out, "policies.");
    extend_str(&mut out, section);
    extend_str(&mut out, "[");
    let digits = u64_text(index as u64);
    extend_chars(&mut out, digits.as_slice());
    extend_str(&mut out, "]");
    out
}

fn validate_command(path: &Vec<char>, policy: &CommandPolicyDef, errors: &mut Vec<String>)
    ensures
        texts(final(errors)@) == texts(old(errors)@) + command_errors(path@, *policy),
{
    let ghost start = texts(errors@);
    let name_blank = match &policy.name {
        Some(n) => is_blank(n.as_str()),
        None => false,
    };
    if name_blank {
        push_text(errors, &path_with(path, ".name must not be empty"));
    }
    let ghost after_name = texts(errors@);
    if is_blank(policy.command.as_str()) {
        push_text(errors, &path_with(path, ".command must not be empty"));
    }
    let ghost after_command = texts(errors@);
    if policy.timeout == 0 {
        push_text(errors, &path_with(path, ".timeout must be greater than zero"));
    }
    proof {
        let e1: Seq<Seq<char>> = if name_blank {
            seq![path@ + ".name must not be empty"@]
        } else {
            seq![]
        };
        assert(after_name =~= start + e1);
        assert(texts(errors@) =~= start + command_errors(path@, *policy));
    }
}

fn validate_matcher(path: &Vec<char>, matcher: &Option<String>, errors: &mut Vec<String>)
    ensures
        texts(final(errors)@) == texts(old(errors)@) + matcher_errors(path@, *matcher),
{
    if let Some(m) = matcher {
        if let Some(error) = glob_error(m.as_str()) {
            let mut text = path_with(path, ".matcher is invalid: ");
            extend_str(&mut text, error.as_str());
            push_text(errors, &text);
            assert(texts(errors@) =~= texts(old(errors)@) + matcher_errors(path@, *matcher));
            return;
        }
    }
    assert(texts(errors@) =~= texts(old(errors)@) + matcher_errors(path@, *matcher));
}

fn validate_section(section: &str, defs: &Vec<CommandPolicyDef>, errors: &mut Vec<String>)
    ensures
        texts(final(errors)@) == texts(old(errors)@) + section_errors(section@, defs@),
{
    let ghost start = texts(errors@);
    let mut i: usize = 0;
    assert(start + section_errors(section@, defs@.take(0)) =~= start);
    while i < defs.len()
        invariant
            i <= defs.len(),
            texts(errors@) == start + section_errors(section@, defs@.take(i as int)),
        decreases defs.len() - i,
    {
        let path = policy_path_exec(section, i);
        validate_command(&path, &defs[i], errors);
        proof {
            let t = defs@.take(i + 1);
            assert(t.drop_last() =~= defs@.take(i as int));
            assert(t.last() == defs@[i as int]);
            assert(texts(errors@) =~= start + section_errors(section@, t));
        }
        i = i + 1;
    }
    assert(defs@.take(defs.len() as int) =~= defs@);
}

fn validate_session_section(section: &str, defs: &Vec<SessionPolicyDef>, errors: &mut Vec<String>)
    ensures
        texts(final(errors)@) == texts(old(errors)@) + section_errors(
            section@,
            defs@.map_values(|s: SessionPolicyDef| s.command),
        ),
{
    let ghost start = texts(errors@);
    let ghost cmds = defs@.map_values(|s: SessionPolicyDef| s.command);
    let mut i: usize = 0;
    assert(start + section_errors(section@, cmds.take(0)) =~= start);
    while i < defs.len()
        invariant
            i <= defs.len(),
            cmds == defs@.map_values(|s: SessionPolicyDef| s.command),
            texts(errors@) == start + section_errors(section@, cmds.take(i as int)),
        decreases defs.len() - i,
    {
        let path = policy_path_exec(section, i);
        validate_command(&path, &defs[i].command, errors);
        proof {
            let t = cmds.take(i + 1);
            assert(t.drop_last() =~= cmds.take(i as int));
            assert(t.last() == defs@[i as int].command);
            assert(texts(errors@) =~= start + section_errors(section@, t));
        }
        i = i + 1;
    }
    assert(cmds.take(defs.len() as int) =~= cmds);
}

fn validate_tool_section(section: &str, defs: &Vec<ToolPolicyDef>, errors: &mut Vec<String>)
    ensures
        texts(final(errors)@) == texts(old(errors)@) + tool_section_errors(section@, defs@),
{
    let ghost start = texts(errors@);
    let mut i: usize = 0;
    assert(start + tool_section_errors(section@, defs@.take(0)) =~= start);
    while i < defs.len()
        invariant
            i <= defs.len(),
            texts(errors@) == start + tool_section_errors(section@, defs@.take(i as int)),
        decreases defs.len() - i,
    {
        let path = policy_path_exec(section, i);
        validate_command(&path, &defs[i].command, errors);
        validate_matcher(&path, &defs[i].matcher, errors);
        proof {
            let t = defs@.take(i + 1);
            assert(t.drop_last() =~= defs@.take(i as int));
            assert(t.last() == defs@[i as int]);
            assert(texts(errors@) =~= start + tool_section_errors(section@, t));
        }
        i = i + 1;
    }
    assert(defs@.take(defs.len() as int) =~= defs@);
}

impl PoliciesConfig {
    /// No policies declared.
    pub fn empty() -> (r: Self)
        ensures
            r.session_start@.len() == 0,
            r.session_end@.len() == 0,
            r.turn_start@.len() == 0,
            r.model_before_request@.len() == 0,
            r.model_response@.len() == 0,
            r.tool_before_invoke@.len() == 0,
            r.tool_after_invoke@.len() == 0,
            r.turn_before_finish@.len() == 0,
    {
        PoliciesConfig {
            session_start: Vec::new(),
            session_end: Vec::new(),
            turn_start: Vec::new(),
            model_before_request: Vec::new(),
            model_response: Vec::new(),
            tool_before_invoke: Vec::new(),
            tool_after_invoke: Vec::new(),
            turn_before_finish: Vec::new(),
        }
    }

    /// Every problem of the declared policies: blank names or commands, zero
    /// timeouts, and tool matchers that are not valid globs.
    pub fn validate(&self) -> (r: Vec<String>)
        ensures
            texts(r@) == policies_errors(*self),
    {
        let mut errors: Vec<String> = Vec::new();
        assert(texts(errors@) =~= Seq::<Seq<char>>::empty());
        validate_session_section("sessionStart", &self.session_start, &mut errors);
        validate_section("sessionEnd", &self.session_end, &mut errors);
        validate_section("turnStart", &self.turn_start, &mut errors);
        validate_section("modelBeforeRequest", &self.model_before_request, &mut errors);
        validate_section("modelResponse", &self.model_response, &mut errors);
        validate_tool_section("toolBeforeInvoke", &self.tool_before_invoke, &mut errors);
        validate_tool_section("toolAfterInvoke", &self.tool_after_invoke, &mut errors);
        validate_section("turnBeforeFinish", &self.turn_before_finish, &mut errors);
        assert(texts(errors@) =~= policies_errors(*self));
        errors
    }
}

// --- MCP configuration ---

/// MCP server configuration as declared in plugin.json.
#[derive(Debug, Clone)]
pub struct McpServerEntry {
    pub command: String,
    pub args: Vec<String>,
    pub env: Vec<(String, String)>,
    pub auto_connect: bool,
    pub timeout_ms: u64,
}

/// MCP servers declared in plugin.json — either inline or a path to .mcp.json.
#[derive(Debug, Clone)]
pub enum McpServersConfig {
    /// Path to a .mcp.json file relative to plugin root (starts with "./").
    File(String),
    /// Inline server definitions, by server name.
    Inline(Vec<(String, McpServerEntry)>),
}

// --- LSP configuration ---

/// Individual LSP server configuration.
#[derive(Debug, Clone)]
pub struct LspServerEntry {
    pub command: String,
    pub args: Vec<String>,
    /// File extension to language ID mapping (e.g. ".ts" → "typescript").
    pub extension_to_language: Vec<(String, String)>,
    pub transport: String,
    pub env: Vec<(String, String)>,
}

/// LSP servers declared in plugin.json — either inline or a path.
#[derive(Debug, Clone)]
pub enum LspServersConfig {
    File(String),
    Inline(Vec<(String, LspServerEntry)>),
}

// --- Plugin source types ---

/// Where to fetch a plugin from.
#[derive(Debug)]
pub enum PluginSource {
    /// Local directory containing plugin.json.
    Local { path: String },
    /// GitHub repository: "owner/repo".
    GitHub { repo: String, ref_: Option<String>, sha: Option<String>, path: Option<String> },
    /// Arbitrary git URL.
    Git { url: String, ref_: Option<String>, sha: Option<String>, path: Option<String> },
    /// npm package.
    Npm { package: String, version: Option<String>, registry: Option<String> },
    /// pip/PyPI package.
    Pip { package: String, version: Option<String>, registry: Option<String> },
}

impl Clone for PluginSource {
    fn clone(&self) -> (r: Self)
        ensures
            r == *self,
    {
        match self {
            PluginSource::Local { path } => PluginSource::Local { path: path.clone() },
            PluginSource::GitHub { repo, ref_, sha, path } => PluginSource::GitHub {
                repo: repo.clone(),
                ref_: clone_opt(ref_),
                sha: clone_opt(sha),
                path: clone_opt(path),
            },
            PluginSource::Git { url, ref_, sha, path } => PluginSource::Git {
                url: url.clone(),
                ref_: clone_opt(ref_),
                sha: clone_opt(sha),
                path: clone_opt(path),
            },
            PluginSource::Npm { package, version, registry } => PluginSource::Npm {
                package: package.clone(),
                version: clone_opt(version),
                registry: clone_opt(registry),
            },
            PluginSource::Pip { package, version, registry } => PluginSource::Pip {
                package: package.clone(),
                version: clone_opt(version),
                registry: clone_opt(registry),
            },
        }
    }
}

} // verus!
