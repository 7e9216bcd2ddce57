//! Subagent definitions and the registry of available subagents.
use vstd::prelude::*;

use crate::text::texts;

use crate::error::AgentError;
use crate::text::{
    ascii_lower, ascii_lower_exec, chars_of, extend_chars, extend_str, find, find_exec, join,
    join_exec, lead_len, lemma_lead_len_step, lemma_lex_lt_asym, lemma_lex_lt_total,
    lemma_lex_lt_trans, lex_lt, lex_lt_str, seq_eq, slice_chars, starts_with, starts_with_exec,
    string_of, trim, trim_exec, trimmed_string,
};

verus! {

/// Which kind of model a request is best served by.
#[derive(Debug, Clone, Copy, PartialEq, Eq, Structural)]
pub enum ModelHint {
    Thinking,
    Execution,
    Recovery,
    Summarization,
}

/// Where an agent definition came from.
#[derive(Debug, Clone, PartialEq, Eq)]
pub enum AgentSource {
    BuiltIn,
    Project { path: String },
    Plugin { plugin: String, path: String },
    User { path: String },
}

/// Isolation mode requested by an agent definition.
#[derive(Debug, Clone, Copy, PartialEq, Eq, Structural)]
pub enum AgentIsolation {
    /// Runs in the caller's workspace (written `none` in frontmatter).
    NoIsolation,
    Worktree,
}

impl Default for AgentIsolation {
    fn default() -> (r: Self)
        ensures
            r == AgentIsolation::NoIsolation,
    {
        AgentIsolation::NoIsolation
    }
}

/// Registry-ready subagent definition.
#[derive(Debug, Clone, PartialEq, Eq)]
pub struct AgentDefinition {
    pub name: String,
    pub description: String,
    pub system_prompt: String,
    pub allowed_tools: Vec<String>,
    pub disallowed_tools: Vec<String>,
    pub model_hint: Option<ModelHint>,
    pub max_iterations: Option<usize>,
    pub background: bool,
    pub isolation: AgentIsolation,
    pub initial_prompt: Option<String>,
    pub permission_mode: Option<String>,
    pub skills: Vec<String>,
    pub effort: Option<String>,
    pub source: AgentSource,
}

/// The fields of an agent's YAML frontmatter.
#[derive(Debug, Clone)]
pub struct AgentFrontmatter {
    pub name: Option<String>,
    pub description: Option<String>,
    pub tools: Vec<String>,
    pub disallowed_tools: Vec<String>,
    pub model: Option<String>,
    pub max_iterations: Option<usize>,
    pub background: bool,
    pub isolation: Option<String>,
    pub initial_prompt: Option<String>,
    pub permission_mode: Option<String>,
    pub skills: Vec<String>,
    pub effort: Option<String>,
}

/// The text of an optional string.
pub open spec fn opt_text(v: Option<String>) -> Option<Seq<char>> {
    match v {
        Some(s) => Some(s@),
        None => None,
    }
}

impl AgentDefinition {
    /// A definition with the given name, description and prompt, and every
    /// other setting at its default.
    pub fn new(name: &str, description: &str, system_prompt: &str, source: AgentSource) -> (r: Self)
        ensures
            r.name@ == name@,
            r.description@ == description@,
            r.system_prompt@ == system_prompt@,
            r.allowed_tools@.len() == 0,
            r.disallowed_tools@.len() == 0,
            r.model_hint is None,
            r.max_iterations is None,
            !r.background,
            r.isolation == AgentIsolation::NoIsolation,
            r.initial_prompt is None,
            r.permission_mode is None,
            r.skills@.len() == 0,
            r.effort is None,
            r.source == source,
    {
        AgentDefinition {
            name: string_of(chars_of(name).as_slice()),
            description: string_of(chars_of(description).as_slice()),
            system_prompt: string_of(chars_of(system_prompt).as_slice()),
            allowed_tools: Vec::new(),
            disallowed_tools: Vec::new(),
            model_hint: None,
            max_iterations: None,
            background: false,
            isolation: AgentIsolation::NoIsolation,
            initial_prompt: None,
            permission_mode: None,
            skills: Vec::new(),
            effort: None,
            source,
        }
    }

    /// Build a definition from parsed frontmatter and the markdown body after it.
    pub fn from_frontmatter(fm: AgentFrontmatter, body: &str, source: AgentSource) -> (r: Result<
        Self,
        AgentError,
    >)
        ensures
            r is Ok <==> frontmatter_error(fm) is None,
            r matches Err(e) ==> e matches AgentError::Validation(m) && Some(m@) == frontmatter_error(fm),
            r matches Ok(d) ==> {
                &&& d.name@ == trim(fm.name->0@)
                &&& d.description@ == trim(fm.description->0@)
                &&& d.system_prompt@ == trim(body@)
                &&& texts(d.allowed_tools@) == texts(fm.tools@)
                &&& texts(d.disallowed_tools@) == texts(fm.disallowed_tools@)
                &&& Ok::<Option<ModelHint>, Seq<char>>(d.model_hint) == model_of(fm.model)
                &&& d.max_iterations == fm.max_iterations
                &&& d.background == fm.background
                &&& Ok::<AgentIsolation, Seq<char>>(d.isolation) == isolation_of(fm.isolation)
                &&& opt_text(d.initial_prompt) == optional_trimmed(fm.initial_prompt)
                &&& opt_text(d.permission_mode) == optional_trimmed(fm.permission_mode)
                &&& texts(d.skills@) == texts(fm.skills@)
                &&& opt_text(d.effort) == optional_trimmed(fm.effort)
                &&& d.source == source
            },
    {
        let name = required_frontmatter_string(fm.name, "name")?;
        let description = required_frontmatter_string(fm.description, "description")?;
        let model_hint = match &fm.model {
            Some(model) => parse_model_hint(model.as_str())?,
            None => None,
        };
        let isolation = parse_isolation(&fm.isolation)?;
        Ok(AgentDefinition {
            name,
            description,
            system_prompt: trimmed_string(body),
            allowed_tools: fm.tools,
            disallowed_tools: fm.disallowed_tools,
            model_hint,
            max_iterations: fm.max_iterations,
            background: fm.background,
            isolation,
            initial_prompt: optional_trimmed_string(fm.initial_prompt),
            permission_mode: optional_trimmed_string(fm.permission_mode),
            skills: fm.skills,
            effort: optional_trimmed_string(fm.effort),
            source,
        })
    }
}

// ---------------------------------------------------------------------------
// Frontmatter
// ---------------------------------------------------------------------------

pub open spec fn is_line_break(c: char) -> bool {
    c == '\r' || c == '\n'
}

/// `markdown` split into its frontmatter and body: it must start with
/// `---\n`, the frontmatter runs to the first `\n---`, and the body follows
/// with leading line breaks removed.
pub open spec fn frontmatter_split(markdown: Seq<char>) -> Option<(Seq<char>, Seq<char>)> {
    if !starts_with(markdown, "---\n"@) {
        None
    } else {
        let rest = markdown.skip("---\n"@.len() as int);
        match find(rest, "\n---"@) {
            Some(k) => {
                let after = rest.skip(k + "\n---"@.len());
                Some((rest.take(k), after.skip(lead_len(after, |c: char| is_line_break(c)) as int)))
            },
            None => None,
        }
    }
}

fn lead_break_len(s: &[char]) -> (n: usize)
    ensures
        n == lead_len(s@, |c: char| is_line_break(c)),
{
    let ghost f = |c: char| is_line_break(c);
    let mut i: usize = 0;
    while i < s.len()
        invariant
            i <= s.len(),
            f == (|c: char| is_line_break(c)),
            forall|j: int| 0 <= j < i ==> f(s@[j]),
        ensures
            i <= s.len(),
            forall|j: int| 0 <= j < i ==> f(s@[j]),
            i < s.len() ==> !is_line_break(s@[i as int]),
        decreases s.len() - i,
    {
        if !(s[i] == '\r' || s[i] == '\n') {
            break;
        }
        i = i + 1;
    }
    proof {
        lemma_lead_len_step(s@, f, i as int);
        if i < s.len() {
            assert(s@.skip(i as int)[0] == s@[i as int]);
        }
    }
    i
}

/// Split agent markdown into YAML frontmatter and body.
pub fn split_frontmatter(markdown: &str) -> (r: Option<(String, String)>)
    ensures
        r is Some <==> frontmatter_split(markdown@) is Some,
        r matches Some(p) ==> frontmatter_split(markdown@) == Some((p.0@, p.1@)),
{
    proof {
        reveal_strlit("---\n");
        reveal_strlit("\n---");
    }
    let v = chars_of(markdown);
    let open = chars_of("---\n");
    if !starts_with_exec(v.as_slice(), open.as_slice()) {
        return None;
    }
    let rest = slice_chars(v.as_slice(), 4, v.len());
    assert(rest@ =~= markdown@.skip(4));
    let close = chars_of("\n---");
    match find_exec(rest.as_slice(), close.as_slice()) {
        None => None,
        Some(k) => {
            proof {
                crate::text::lemma_find_from_props(rest@, close@, 0);
            }
            let front = slice_chars(rest.as_slice(), 0, k);
            let after = slice_chars(rest.as_slice(), k + 4, rest.len());
            let n = lead_break_len(after.as_slice());
            proof {
                crate::text::lemma_lead_len(after@, |c: char| is_line_break(c));
            }
            let body = slice_chars(after.as_slice(), n, after.len());
            assert(front@ =~= rest@.take(k as int));
            assert(after@ =~= rest@.skip(k + 4));
            assert(body@ =~= after@.skip(n as int));
            Some((string_of(front.as_slice()), string_of(body.as_slice())))
        },
    }
}

/// The error for a required key that is missing or blank.
pub open spec fn required_error(value: Option<String>, key: Seq<char>) -> Option<Seq<char>> {
    if value is None || trim(value->0@).len() == 0 {
        Some("missing required `"@ + key + "`"@)
    } else {
        None
    }
}

fn missing_required(key: &str) -> (r: AgentError)
    ensures
        r matches AgentError::Validation(m) && m@ == "missing required `"@ + key@ + "`"@,
{
    let mut t: Vec<char> = Vec::new();
    extend_str(&mut t, "missing required `");
    extend_str(&mut t, key);
    extend_str(&mut t, "`");
    AgentError::Validation(string_of(t.as_slice()))
}

/// A required frontmatter value, trimmed; an error when missing or blank.
pub fn required_frontmatter_string(value: Option<String>, key: &str) -> (r: Result<String, AgentError>)
    ensures
        r is Err <==> required_error(value, key@) is Some,
        r matches Err(e) ==> e matches AgentError::Validation(m) && Some(m@) == required_error(value, key@),
        r matches Ok(s) ==> s@ == trim(value->0@),
{
    match value {
        None => Err(missing_required(key)),
        Some(v) => {
            let t = trimmed_string(v.as_str());
            if t.as_str().is_empty() {
                Err(missing_required(key))
            } else {
                Ok(t)
            }
        },
    }
}

/// An optional value, trimmed, absent when blank.
pub open spec fn optional_trimmed(v: Option<String>) -> Option<Seq<char>> {
    match v {
        Some(s) => if trim(s@).len() == 0 {
            None
        } else {
            Some(trim(s@))
        },
        None => None,
    }
}

pub fn optional_trimmed_string(value: Option<String>) -> (r: Option<String>)
    ensures
        opt_text(r) == optional_trimmed(value),
{
    match value {
        None => None,
        Some(v) => {
            let t = trimmed_string(v.as_str());
            if t.as_str().is_empty() {
                None
            } else {
                Some(t)
            }
        },
    }
}

/// What a model name in frontmatter asks for: `inherit`, `default` and `none`
/// ask for nothing in particular; an unknown name is an error.
pub open spec fn model_hint_of(raw: Seq<char>) -> Result<Option<ModelHint>, Seq<char>> {
    let low = ascii_lower(trim(raw));
    if low == "inherit"@ || low == "default"@ || low == "none"@ {
        Ok(None)
    } else if low == "thinking"@ {
        Ok(Some(ModelHint::Thinking))
    } else if low == "execution"@ {
        Ok(Some(ModelHint::Execution))
    } else if low == "recovery"@ {
        Ok(Some(ModelHint::Recovery))
    } else if low == "summarization"@ || low == "summary"@ {
        Ok(Some(ModelHint::Summarization))
    } else {
        Err(
            "invalid agent model `"@ + low
                + "`; expected thinking, execution, recovery, summarization, or inherit"@,
        )
    }
}

/// The model hint of an optional model name.
pub open spec fn model_of(model: Option<String>) -> Result<Option<ModelHint>, Seq<char>> {
    match model {
        Some(m) => model_hint_of(m@),
        None => Ok(None),
    }
}

fn is_word(v: &Vec<char>, w: &str) -> (r: bool)
    ensures
        r == (v@ == w@),
{
    let wv = chars_of(w);
    seq_eq(v.as_slice(), wv.as_slice())
}

/// Parse a model name from agent frontmatter.
pub fn parse_model_hint(raw: &str) -> (r: Result<Option<ModelHint>, AgentError>)
    ensures
        r is Ok <==> model_hint_of(raw@) is Ok,
        r matches Ok(h) ==> model_hint_of(raw@) == Ok::<Option<ModelHint>, Seq<char>>(h),
        r matches Err(e) ==> e matches AgentError::Validation(m) && model_hint_of(raw@) == Err::<
            Option<ModelHint>,
            Seq<char>,
        >(m@),
{
    let v = chars_of(raw);
    let t = trim_exec(v.as_slice());
    let low = ascii_lower_exec(t.as_slice());
    if is_word(&low, "inherit") || is_word(&low, "default") || is_word(&low, "none") {
        Ok(None)
    } else if is_word(&low, "thinking") {
        Ok(Some(ModelHint::Thinking))
    } else if is_word(&low, "execution") {
        Ok(Some(ModelHint::Execution))
    } else if is_word(&low, "recovery") {
        Ok(Some(ModelHint::Recovery))
    } else if is_word(&low, "summarization") || is_word(&low, "summary") {
        Ok(Some(ModelHint::Summarization))
    } else {
        let mut m: Vec<char> = Vec::new();
        extend_str(&mut m, "invalid agent model `");
        extend_chars(&mut m, low.as_slice());
        extend_str(
            &mut m,
            "`; expected thinking, execution, recovery, summarization, or inherit",
        );
        Err(AgentError::Validation(string_of(m.as_slice())))
    }
}

/// The isolation an optional setting asks for (`none` when absent).
pub open spec fn isolation_of(raw: Option<String>) -> Result<AgentIsolation, Seq<char>> {
    let low = ascii_lower(
        match raw {
            Some(s) => s@,
            None => "none"@,
        },
    );
    if low == "none"@ {
        Ok(AgentIsolation::NoIsolation)
    } else if low == "worktree"@ {
        Ok(AgentIsolation::Worktree)
    } else {
        Err("invalid agent isolation `"@ + low + "`; expected `none` or `worktree`"@)
    }
}

fn parse_isolation(raw: &Option<String>) -> (r: Result<AgentIsolation, AgentError>)
    ensures
        r is Ok <==> isolation_of(*raw) is Ok,
        r matches Ok(i) ==> isolation_of(*raw) == Ok::<AgentIsolation, Seq<char>>(i),
        r matches Err(e) ==> e matches AgentError::Validation(m) && isolation_of(*raw) == Err::<
            AgentIsolation,
            Seq<char>,
        >(m@),
{
    let v = match raw {
        Some(s) => chars_of(s.as_str()),
        None => chars_of("none"),
    };
    let low = ascii_lower_exec(v.as_slice());
    if is_word(&low, "none") {
        Ok(AgentIsolation::NoIsolation)
    } else if is_word(&low, "worktree") {
        Ok(AgentIsolation::Worktree)
    } else {
        let mut m: Vec<char> = Vec::new();
        extend_str(&mut m, "invalid agent isolation `");
        extend_chars(&mut m, low.as_slice());
        extend_str(&mut m, "`; expected `none` or `worktree`");
        Err(AgentError::Validation(string_of(m.as_slice())))
    }
}

/// The first problem of a frontmatter, checked in the order: name,
/// description, model, isolation.
pub open spec fn frontmatter_error(fm: AgentFrontmatter) -> Option<Seq<char>> {
    if required_error(fm.name, "name"@) is Some {
        required_error(fm.name, "name"@)
    } else if required_error(fm.description, "description"@) is Some {
        required_error(fm.description, "description"@)
    } else if model_of(fm.model) is Err {
        Some(model_of(fm.model)->Err_0)
    } else if isolation_of(fm.isolation) is Err {
        Some(isolation_of(fm.isolation)->Err_0)
    } else {
        None
    }
}

// ---------------------------------------------------------------------------
// Registry
// ---------------------------------------------------------------------------

/// Names strictly increase along the sequence.
pub open spec fn sorted_by_name(agents: Seq<AgentDefinition>) -> bool {
    forall|i: int, j: int| 0 <= i < j < agents.len() ==> lex_lt(agents[i].name@, agents[j].name@)
}

/// Registering `d`: replace the agent of the same name, or insert `d` where
/// its name sorts.
pub open spec fn registered(agents: Seq<AgentDefinition>, d: AgentDefinition) -> Seq<AgentDefinition>
    decreases agents.len(),
{
    if agents.len() == 0 {
        seq![d]
    } else if agents[0].name@ == d.name@ {
        seq![d] + agents.skip(1)
    } else if lex_lt(d.name@, agents[0].name@) {
        seq![d] + agents
    } else {
        seq![agents[0]] + registered(agents.skip(1), d)
    }
}

/// Registering a definition makes it the one found under its name, keeps
/// every definition of another name, and adds nothing else.
pub proof fn law_register_then_get(agents: Seq<AgentDefinition>, d: AgentDefinition)
    requires
        sorted_by_name(agents),
    ensures
        exists|i: int| 0 <= i < registered(agents, d).len() && registered(agents, d)[i] == d,
        forall|j: int|
            0 <= j < agents.len() && agents[j].name@ != d.name@ ==> exists|k: int|
                0 <= k < registered(agents, d).len() && registered(agents, d)[k] == agents[j],
        forall|k: int|
            0 <= k < registered(agents, d).len() ==> registered(agents, d)[k] == d || exists|j: int|
                0 <= j < agents.len() && agents[j].name@ != d.name@ && registered(agents, d)[k]
                    == agents[j],
    decreases agents.len(),
{
    let r = registered(agents, d);
    if agents.len() == 0 {
        assert(r[0] == d);
    } else if agents[0].name@ == d.name@ {
        assert(r[0] == d);
        assert forall|j: int| 0 <= j < agents.len() && agents[j].name@ != d.name@ implies exists|k: int|
            0 <= k < r.len() && r[k] == agents[j] by {
            assert(j != 0);
            assert(r[j] == agents.skip(1)[j - 1]);
        }
        assert forall|k: int| 0 <= k < r.len() implies r[k] == d || exists|j: int|
            0 <= j < agents.len() && agents[j].name@ != d.name@ && r[k] == agents[j] by {
            if k > 0 {
                assert(r[k] == agents[k]);
                assert(lex_lt(agents[0].name@, agents[k].name@));
                crate::text::lemma_lex_lt_irreflexive(d.name@);
            }
        }
    } else if lex_lt(d.name@, agents[0].name@) {
        assert(r[0] == d);
        assert forall|j: int| 0 <= j < agents.len() && agents[j].name@ != d.name@ implies exists|k: int|
            0 <= k < r.len() && r[k] == agents[j] by {
            assert(r[j + 1] == agents[j]);
        }
        assert forall|k: int| 0 <= k < r.len() implies r[k] == d || exists|j: int|
            0 <= j < agents.len() && agents[j].name@ != d.name@ && r[k] == agents[j] by {
            if k > 0 {
                assert(r[k] == agents[k - 1]);
                crate::text::lemma_lex_lt_irreflexive(d.name@);
                if k - 1 > 0 {
                    assert(lex_lt(agents[0].name@, agents[k - 1].name@));
                    lemma_lex_lt_trans(d.name@, agents[0].name@, agents[k - 1].name@);
                }
            }
        }
    } else {
        let rest = agents.skip(1);
        assert forall|a: int, b: int| 0 <= a < b < rest.len() implies lex_lt(rest[a].name@, rest[b].name@) by {
            assert(rest[a] == agents[a + 1] && rest[b] == agents[b + 1]);
        }
        law_register_then_get(rest, d);
        let rr = registered(rest, d);
        assert(r == seq![agents[0]] + rr);
        let i = choose|i: int| 0 <= i < rr.len() && rr[i] == d;
        assert(r[i + 1] == d);
        assert forall|j: int| 0 <= j < agents.len() && agents[j].name@ != d.name@ implies exists|k: int|
            0 <= k < r.len() && r[k] == agents[j] by {
            if j == 0 {
                assert(r[0] == agents[0]);
            } else {
                assert(rest[j - 1] == agents[j]);
                let k = choose|k: int| 0 <= k < rr.len() && rr[k] == rest[j - 1];
                assert(r[k + 1] == agents[j]);
            }
        }
        assert forall|k: int| 0 <= k < r.len() implies r[k] == d || exists|j: int|
            0 <= j < agents.len() && agents[j].name@ != d.name@ && r[k] == agents[j] by {
            if k == 0 {
                assert(r[0] == agents[0]);
            } else {
                assert(r[k] == rr[k - 1]);
                if rr[k - 1] != d {
                    let j = choose|j: int| 0 <= j < rest.len() && rest[j].name@ != d.name@ && rr[k - 1] == rest[j];
                    assert(agents[j + 1] == rest[j]);
                }
            }
        }
    }
}

/// `- <name>: <description> (Tools: <tools, or All tools>)`.
pub open spec fn listing_line(a: AgentDefinition) -> Seq<char> {
    "- "@ + a.name@ + ": "@ + a.description@ + " (Tools: "@ + (if a.allowed_tools@.len() == 0 {
        "All tools"@
    } else {
        join(texts(a.allowed_tools@), ", "@)
    }) + ")"@
}

pub open spec fn listing(agents: Seq<AgentDefinition>) -> Seq<char> {
    join(agents.map_values(|a: AgentDefinition| listing_line(a)), "\n"@)
}

/// Registry of available subagent definitions, kept in name order, one per name.
#[derive(Debug)]
pub struct SubagentRegistry {
    agents: Vec<AgentDefinition>,
}

impl SubagentRegistry {
    /// The registered agents, in name order.
    pub closed spec fn agents(self) -> Seq<AgentDefinition> {
        self.agents@
    }

    #[verifier::type_invariant]
    spec fn inv(self) -> bool {
        sorted_by_name(self.agents@)
    }

    pub fn new() -> (r: Self)
        ensures
            r.agents() == Seq::<AgentDefinition>::empty(),
    {
        SubagentRegistry { agents: Vec::new() }
    }

    /// A registry of the built-in agents.
    pub fn with_builtin_agents() -> (r: Self)
        ensures
            exists|b: Seq<AgentDefinition>|
                is_builtin_list(b) && r.agents() == registered_all(Seq::<AgentDefinition>::empty(), b),
    {
        let mut registry = Self::new();
        let builtins = builtin_agents();
        let ghost all = builtins@;
        let mut i: usize = 0;
        let mut rest = builtins;
        let mut rev: Vec<AgentDefinition> = Vec::new();
        while rest.len() > 0
            invariant
                rev@.len() + rest@.len() == all.len(),
                rest@ == all.take(rest@.len() as int),
                forall|k: int| 0 <= k < rev@.len() ==> rev@[k] == all[all.len() - 1 - k],
            decreases rest.len(),
        {
            let a = rest.pop().unwrap();
            rev.push(a);
        }
        assert(all.take(0) =~= Seq::<AgentDefinition>::empty());
        while rev.len() > 0
            invariant
                rev@.len() <= all.len(),
                is_builtin_list(all),
                forall|k: int| 0 <= k < rev@.len() ==> rev@[k] == all[all.len() - 1 - k],
                registry.agents() == registered_all(
                    Seq::<AgentDefinition>::empty(),
                    all.take(all.len() - rev@.len()),
                ),
            decreases rev.len(),
        {
            let ghost done = all.len() - rev@.len();
            let a = rev.pop().unwrap();
            assert(all.take(done + 1).drop_last() =~= all.take(done));
            assert(all.take(done + 1).last() == a);
            registry.register(a);
        }
        assert(all.take(all.len() as int) =~= all);
        registry
    }

    /// Register a definition; a later registration of a name replaces the earlier one.
    pub fn register(&mut self, definition: AgentDefinition)
        ensures
            final(self).agents() == registered(old(self).agents(), definition),
            sorted_by_name(final(self).agents()),
    {
        proof {
            use_type_invariant(&*self);
        }
        let ghost old_agents = self.agents@;
        let mut i: usize = 0;
        assert(old_agents.take(0) =~= Seq::<AgentDefinition>::empty());
        assert(old_agents.skip(0) =~= old_agents);
        while i < self.agents.len()
            invariant
                i <= self.agents.len(),
                self.agents@ == old_agents,
                sorted_by_name(old_agents),
                forall|j: int| 0 <= j < i ==> lex_lt(#[trigger] old_agents[j].name@, definition.name@),
                registered(old_agents, definition) == old_agents.take(i as int) + registered(
                    old_agents.skip(i as int),
                    definition,
                ),
            ensures
                i <= self.agents.len(),
                self.agents@ == old_agents,
                forall|j: int| 0 <= j < i ==> lex_lt(#[trigger] old_agents[j].name@, definition.name@),
                registered(old_agents, definition) == old_agents.take(i as int) + registered(
                    old_agents.skip(i as int),
                    definition,
                ),
                i < old_agents.len() ==> !lex_lt(old_agents[i as int].name@, definition.name@),
            decreases self.agents.len() - i,
        {
            if !lex_lt_str(&self.agents[i].name, &definition.name) {
                break;
            }
            proof {
                let rest = old_agents.skip(i as int);
                assert(rest[0] == old_agents[i as int]);
                assert(rest.skip(1) =~= old_agents.skip(i + 1));
                crate::text::lemma_lex_lt_irreflexive(definition.name@);
                lemma_lex_lt_asym(old_agents[i as int].name@, definition.name@);
                assert(old_agents[i as int].name@ != definition.name@);
                assert(registered(rest, definition) == seq![rest[0]] + registered(rest.skip(1), definition));
                assert(old_agents.take(i as int) + (seq![old_agents[i as int]] + registered(
                    old_agents.skip(i + 1),
                    definition,
                )) =~= old_agents.take(i + 1) + registered(old_agents.skip(i + 1), definition));
            }
            i = i + 1;
        }
        let mut agents: Vec<AgentDefinition> = Vec::new();
        std::mem::swap(&mut agents, &mut self.agents);
        let ghost rest = old_agents.skip(i as int);
        if i < agents.len() && agents[i].name == definition.name {
            agents.set(i, definition);
            proof {
                assert(rest[0] == old_agents[i as int]);
                assert(registered(rest, definition) == seq![definition] + rest.skip(1));
                assert(agents@ =~= old_agents.take(i as int) + (seq![definition] + rest.skip(1)));
                assert forall|a: int, b: int| 0 <= a < b < agents@.len() implies lex_lt(
                    agents@[a].name@,
                    agents@[b].name@,
                ) by {
                    if a == i {
                        assert(agents@[a].name@ == old_agents[a].name@);
                    }
                    if b == i {
                        assert(agents@[b].name@ == old_agents[b].name@);
                    }
                }
            }
        } else {
            proof {
                if i < old_agents.len() {
                    assert(rest[0] == old_agents[i as int]);
                    assert(old_agents[i as int].name@ != definition.name@);
                    lemma_lex_lt_total(old_agents[i as int].name@, definition.name@);
                    assert(lex_lt(definition.name@, old_agents[i as int].name@));
                    assert(registered(rest, definition) == seq![definition] + rest);
                } else {
                    assert(rest =~= Seq::<AgentDefinition>::empty());
                    assert(registered(rest, definition) == seq![definition]);
                }
                assert(registered(rest, definition) =~= seq![definition] + rest);
                assert(old_agents.take(i as int) + (seq![definition] + rest) =~= old_agents.insert(
                    i as int,
                    definition,
                ));
            }
            agents.insert(i, definition);
            proof {
                assert forall|a: int, b: int| 0 <= a < b < agents@.len() implies lex_lt(
                    agents@[a].name@,
                    agents@[b].name@,
                ) by {
                    if b == i {
                        assert(agents@[a] == old_agents[a]);
                    } else if a == i {
                        assert(agents@[b] == old_agents[b - 1]);
                        if b - 1 > i {
                            lemma_lex_lt_trans(definition.name@, old_agents[i as int].name@, old_agents[b - 1].name@);
                        }
                    } else if a < i && b > i {
                        assert(agents@[a] == old_agents[a]);
                        assert(agents@[b] == old_agents[b - 1]);
                    } else if a > i {
                        assert(agents@[a] == old_agents[a - 1]);
                        assert(agents@[b] == old_agents[b - 1]);
                    } else {
                        assert(agents@[a] == old_agents[a]);
                        assert(agents@[b] == old_agents[b]);
                    }
                }
            }
        }
        self.agents = agents;
    }

    /// The agent named `name`.
    pub fn get(&self, name: &str) -> (r: Option<&AgentDefinition>)
        ensures
            r is Some <==> exists|i: int| 0 <= i < self.agents().len() && self.agents()[i].name@ == name@,
            r matches Some(d) ==> d.name@ == name@ && exists|i: int|
                0 <= i < self.agents().len() && self.agents()[i] == *d,
    {
        let target = chars_of(name);
        let mut i: usize = 0;
        while i < self.agents.len()
            invariant
                i <= self.agents.len(),
                target@ == name@,
                forall|j: int| 0 <= j < i ==> self.agents@[j].name@ != name@,
            decreases self.agents.len() - i,
        {
            let n = chars_of(self.agents[i].name.as_str());
            if seq_eq(n.as_slice(), target.as_slice()) {
                return Some(&self.agents[i]);
            }
            i = i + 1;
        }
        None
    }

    /// All definitions, in name order.
    pub fn definitions(&self) -> (r: Vec<&AgentDefinition>)
        ensures
            r@.len() == self.agents().len(),
            forall|k: int| 0 <= k < r@.len() ==> *r@[k] == self.agents()[k],
    {
        let mut out: Vec<&AgentDefinition> = Vec::new();
        let mut i: usize = 0;
        while i < self.agents.len()
            invariant
                i <= self.agents.len(),
                out@.len() == i,
                forall|k: int| 0 <= k < i ==> *out@[k] == self.agents@[k],
            decreases self.agents.len() - i,
        {
            out.push(&self.agents[i]);
            i = i + 1;
        }
        out
    }

    /// One line per agent, in name order: name, description and tools.
    pub fn render_listing(&self) -> (r: String)
        ensures
            r@ == listing(self.agents()),
    {
        let mut lines: Vec<Vec<char>> = Vec::new();
        let mut i: usize = 0;
        let ghost ls = self.agents@.map_values(|a: AgentDefinition| listing_line(a));
        while i < self.agents.len()
            invariant
                i <= self.agents.len(),
                ls == self.agents@.map_values(|a: AgentDefinition| listing_line(a)),
                lines@.map_values(|v: Vec<char>| v@) == ls.take(i as int),
            decreases self.agents.len() - i,
        {
            let a = &self.agents[i];
            let mut line: Vec<char> = Vec::new();
            extend_str(&mut line, "- ");
            extend_str(&mut line, a.name.as_str());
            extend_str(&mut line, ": ");
            extend_str(&mut line, a.description.as_str());
            extend_str(&mut line, " (Tools: ");
            if a.allowed_tools.len() == 0 {
                extend_str(&mut line, "All tools");
            } else {
                let mut parts: Vec<Vec<char>> = Vec::new();
                let mut k: usize = 0;
                while k < a.allowed_tools.len()
                    invariant
                        k <= a.allowed_tools.len(),
                        parts@.map_values(|v: Vec<char>| v@) == texts(a.allowed_tools@).take(k as int),
                    decreases a.allowed_tools.len() - k,
                {
                    let ghost before = parts@.map_values(|v: Vec<char>| v@);
                    let t = chars_of(a.allowed_tools[k].as_str());
                    parts.push(t);
                    assert(parts@.map_values(|v: Vec<char>| v@) =~= before.push(t@));
                    assert(texts(a.allowed_tools@).take(k + 1) =~= texts(a.allowed_tools@).take(
                        k as int,
                    ).push(a.allowed_tools@[k as int]@));
                    k = k + 1;
                }
                assert(texts(a.allowed_tools@).take(a.allowed_tools.len() as int) =~= texts(
                    a.allowed_tools@,
                ));
                let sep = chars_of(", ");
                let joined = join_exec(&parts, sep.as_slice());
                extend_chars(&mut line, joined.as_slice());
            }
            extend_str(&mut line, ")");
            let ghost before = lines@.map_values(|v: Vec<char>| v@);
            assert(line@ =~= listing_line(*a));
            lines.push(line);
            assert(lines@.map_values(|v: Vec<char>| v@) =~= before.push(ls[i as int]));
            assert(ls.take(i + 1) =~= ls.take(i as int).push(ls[i as int]));
            i = i + 1;
        }
        assert(ls.take(self.agents.len() as int) =~= ls);
        let nl = chars_of("\n");
        let out = join_exec(&lines, nl.as_slice());
        string_of(out.as_slice())
    }
}

/// Registers each of `list`, in order.
pub open spec fn registered_all(agents: Seq<AgentDefinition>, list: Seq<AgentDefinition>) -> Seq<
    AgentDefinition,
>
    decreases list.len(),
{
    if list.len() == 0 {
        agents
    } else {
        registered(registered_all(agents, list.drop_last()), list.last())
    }
}

/// The names of the built-in agents, in the order they are registered.
pub open spec fn builtin_names() -> Seq<Seq<char>> {
    seq!["general-purpose"@, "Explore"@, "Plan"@, "Verification"@]
}

/// A list of built-in agents with the built-in names.
pub open spec fn is_builtin_list(b: Seq<AgentDefinition>) -> bool {
    &&& b.len() == builtin_names().len()
    &&& forall|i: int| 0 <= i < b.len() ==> (#[trigger] b[i]).name@ == builtin_names()[i] && b[i].source
        == AgentSource::BuiltIn
}

fn builtin(name: &str, description: &str, prompt: &str, tools: Vec<String>) -> (r: AgentDefinition)
    ensures
        r.name@ == name@,
        r.description@ == description@,
        r.system_prompt@ == prompt@,
        r.allowed_tools@ == tools@,
        r.source == AgentSource::BuiltIn,
{
    let mut d = AgentDefinition::new(name, description, prompt, AgentSource::BuiltIn);
    d.allowed_tools = tools;
    d
}

fn owned(s: &str) -> (r: String)
    ensures
        r@ == s@,
{
    string_of(chars_of(s).as_slice())
}

/// The agents every registry starts with.
pub fn builtin_agents() -> (r: Vec<AgentDefinition>)
    ensures
        is_builtin_list(r@),
{
    let mut v: Vec<AgentDefinition> = Vec::new();
    v.push(
        builtin(
            "general-purpose",
            "General-purpose agent for multi-step research and implementation tasks.",
            "You are a capable software agent. Complete the delegated task end to end and report what you did.",
            Vec::new(),
        ),
    );
    let mut read_only: Vec<String> = Vec::new();
    read_only.push(owned("Read"));
    read_only.push(owned("Grep"));
    read_only.push(owned("Glob"));
    v.push(
        builtin(
            "Explore",
            "Fast read-only exploration of a codebase: find files, search code, answer questions.",
            "You explore the codebase without modifying it and report concise findings with file paths.",
            read_only,
        ),
    );
    let mut plan_tools: Vec<String> = Vec::new();
    plan_tools.push(owned("Read"));
    plan_tools.push(owned("Grep"));
    plan_tools.push(owned("Glob"));
    v.push(
        builtin(
            "Plan",
            "Designs an implementation plan for a task without changing files.",
            "You study the relevant code and produce a step-by-step implementation plan. Do not modify files.",
            plan_tools,
        ),
    );
    let ghost three = v@;
    v.push(
        builtin(
            "Verification",
            "Checks that completed work is correct by reading code and running tests.",
            "You verify the work described to you: inspect the changes, run the relevant checks, and report any problems found.",
            Vec::new(),
        ),
    );
    proof {
        reveal_strlit("general-purpose");
        reveal_strlit("Explore");
        reveal_strlit("Plan");
        reveal_strlit("Verification");
    }
    v
}

} // verus!
