//! Hook system for intercepting assistant messages during a turn.
//!
//! Hooks run at well-defined phases of the turn loop; a registry holds them in
//! registration order and answers which hooks fire for a given phase.
use vstd::prelude::*;

use crate::pattern::{glob_match, glob_matches};
use crate::text::chars_of;

verus! {

/// Lifecycle point at which a hook fires.
#[derive(Debug, PartialEq, Eq)]
pub enum HookPhase {
    /// Right after the model returns a message — runs every iteration.
    PostSampling,
    /// When the turn is about to terminate naturally (no tool calls pending).
    Stop,
    /// Before a specific tool is invoked.
    PreToolUse { tool_name: String },
    /// After a specific tool succeeds.
    PostToolUse { tool_name: String },
    /// After a specific tool fails.
    PostToolUseFailure { tool_name: String },
    /// When a new session starts.
    SessionStart,
    /// When the user submits a prompt.
    UserPromptSubmit,
}

/// The phase's name for logging and event reporting.
impl Clone for HookPhase {
    fn clone(&self) -> (r: Self)
        ensures
            r == *self,
    {
        match self {
            HookPhase::PostSampling => HookPhase::PostSampling,
            HookPhase::Stop => HookPhase::Stop,
            HookPhase::PreToolUse { tool_name } => HookPhase::PreToolUse { tool_name: tool_name.clone() },
            HookPhase::PostToolUse { tool_name } => HookPhase::PostToolUse { tool_name: tool_name.clone() },
            HookPhase::PostToolUseFailure { tool_name } => HookPhase::PostToolUseFailure {
                tool_name: tool_name.clone(),
            },
            HookPhase::SessionStart => HookPhase::SessionStart,
            HookPhase::UserPromptSubmit => HookPhase::UserPromptSubmit,
        }
    }
}

pub open spec fn phase_name(p: HookPhase) -> Seq<char> {
    match p {
        HookPhase::PostSampling => "post_sampling"@,
        HookPhase::Stop => "stop"@,
        HookPhase::PreToolUse { .. } => "pre_tool_use"@,
        HookPhase::PostToolUse { .. } => "post_tool_use"@,
        HookPhase::PostToolUseFailure { .. } => "post_tool_use_failure"@,
        HookPhase::SessionStart => "session_start"@,
        HookPhase::UserPromptSubmit => "user_prompt_submit"@,
    }
}

/// Both phases are the same variant (tool names are ignored).
pub open spec fn same_phase_kind(a: HookPhase, b: HookPhase) -> bool {
    match (a, b) {
        (HookPhase::PostSampling, HookPhase::PostSampling) => true,
        (HookPhase::Stop, HookPhase::Stop) => true,
        (HookPhase::PreToolUse { .. }, HookPhase::PreToolUse { .. }) => true,
        (HookPhase::PostToolUse { .. }, HookPhase::PostToolUse { .. }) => true,
        (HookPhase::PostToolUseFailure { .. }, HookPhase::PostToolUseFailure { .. }) => true,
        (HookPhase::SessionStart, HookPhase::SessionStart) => true,
        (HookPhase::UserPromptSubmit, HookPhase::UserPromptSubmit) => true,
        _ => false,
    }
}

/// The tool name a phase carries, if any.
pub open spec fn phase_tool(p: HookPhase) -> Option<Seq<char>> {
    match p {
        HookPhase::PreToolUse { tool_name } => Some(tool_name@),
        HookPhase::PostToolUse { tool_name } => Some(tool_name@),
        HookPhase::PostToolUseFailure { tool_name } => Some(tool_name@),
        _ => None,
    }
}

impl HookPhase {
    /// Human-readable phase name.
    pub fn name(&self) -> (r: &'static str)
        ensures
            r@ == phase_name(*self),
    {
        match self {
            HookPhase::PostSampling => "post_sampling",
            HookPhase::Stop => "stop",
            HookPhase::PreToolUse { .. } => "pre_tool_use",
            HookPhase::PostToolUse { .. } => "post_tool_use",
            HookPhase::PostToolUseFailure { .. } => "post_tool_use_failure",
            HookPhase::SessionStart => "session_start",
            HookPhase::UserPromptSubmit => "user_prompt_submit",
        }
    }

    fn same_kind(&self, other: &HookPhase) -> (r: bool)
        ensures
            r == same_phase_kind(*self, *other),
    {
        match (self, other) {
            (HookPhase::PostSampling, HookPhase::PostSampling) => true,
            (HookPhase::Stop, HookPhase::Stop) => true,
            (HookPhase::PreToolUse { .. }, HookPhase::PreToolUse { .. }) => true,
            (HookPhase::PostToolUse { .. }, HookPhase::PostToolUse { .. }) => true,
            (HookPhase::PostToolUseFailure { .. }, HookPhase::PostToolUseFailure { .. }) => true,
            (HookPhase::SessionStart, HookPhase::SessionStart) => true,
            (HookPhase::UserPromptSubmit, HookPhase::UserPromptSubmit) => true,
            _ => false,
        }
    }
}

/// Metadata passed to a hook describing the session it's running inside.
#[derive(Debug, Clone)]
pub struct HookContext {
    pub session_id: String,
    pub turn_id: u64,
    /// Number of messages in the conversation when the hook fires.
    pub message_count: usize,
}

/// Condition that further refines when a hook fires within a given phase.
///
/// | Condition `tool_name` | Phase `tool_name` | Matches? |
/// |---|---:|---:|
/// | `None` | any | yes |
/// | `Some("Bash")` | `"Bash"` | yes |
/// | `Some("Bash")` | `"Grep"` | no |
/// | `Some("Bash(git *)")` | `"Bash(git status)"` | yes |
/// | `Some("*")` | any | yes |
#[derive(Debug, Clone)]
pub struct HookCondition {
    /// Optional tool name pattern: exact name, glob, or `"*"`.
    pub tool_name: Option<String>,
}

/// `pattern` accepts `tool_name`: `"*"` accepts everything, otherwise glob matching.
pub open spec fn tool_pattern_matches(pattern: Seq<char>, tool_name: Seq<char>) -> bool {
    pattern == "*"@ || glob_match(pattern, tool_name)
}

/// Whether a condition lets a hook fire in `phase`.
pub open spec fn condition_matches(c: HookCondition, phase: HookPhase) -> bool {
    match c.tool_name {
        None => true,
        Some(pattern) => match phase_tool(phase) {
            Some(tool) => tool_pattern_matches(pattern@, tool),
            None => false,
        },
    }
}

fn matches_tool_name(pattern: &str, tool_name: &str) -> (r: bool)
    ensures
        r == tool_pattern_matches(pattern@, tool_name@),
{
    let pv = chars_of(pattern);
    proof {
        reveal_strlit("*");
    }
    if pv.len() == 1 && pv[0] == '*' {
        assert(pv@ =~= "*"@);
        return true;
    }
    assert(pv@ != "*"@);
    glob_matches(pattern, tool_name)
}

impl HookCondition {
    /// Check whether this condition matches the given phase.
    pub fn matches(&self, phase: &HookPhase) -> (r: bool)
        ensures
            r == condition_matches(*self, *phase),
    {
        let pattern = match &self.tool_name {
            None => {
                return true;
            },
            Some(p) => p,
        };
        match phase {
            HookPhase::PreToolUse { tool_name }
            | HookPhase::PostToolUse { tool_name }
            | HookPhase::PostToolUseFailure { tool_name } => matches_tool_name(
                pattern.as_str(),
                tool_name.as_str(),
            ),
            _ => false,
        }
    }
}

/// A hook wrapped with execution metadata.
#[derive(Debug, Clone)]
pub struct HookEntry<H> {
    pub hook: H,
    pub phase: HookPhase,
    pub condition: Option<HookCondition>,
    /// If `true`, the hook is removed after its first execution.
    pub once: bool,
    /// If `true`, the hook runs asynchronously (fire-and-forget).
    pub async_exec: bool,
}

/// The entry fires in `phase`.
pub open spec fn entry_fires<H>(e: HookEntry<H>, phase: HookPhase) -> bool {
    same_phase_kind(e.phase, phase) && match e.condition {
        Some(c) => condition_matches(c, phase),
        None => true,
    }
}

/// The entries that fire in `phase`, in registration order.
pub open spec fn firing_entries<H>(entries: Seq<HookEntry<H>>, phase: HookPhase) -> Seq<
    HookEntry<H>,
>
    decreases entries.len(),
{
    if entries.len() == 0 {
        seq![]
    } else {
        let prev = firing_entries(entries.drop_last(), phase);
        if entry_fires(entries.last(), phase) {
            prev.push(entries.last())
        } else {
            prev
        }
    }
}

/// The entries not marked `once`, in registration order.
pub open spec fn persistent_entries<H>(entries: Seq<HookEntry<H>>) -> Seq<HookEntry<H>>
    decreases entries.len(),
{
    if entries.len() == 0 {
        seq![]
    } else {
        let prev = persistent_entries(entries.drop_last());
        if !entries.last().once {
            prev.push(entries.last())
        } else {
            prev
        }
    }
}

/// Collection of hook entries queried by phase during the turn loop.
#[derive(Debug, Clone)]
pub struct HookRegistry<H> {
    hooks: Vec<HookEntry<H>>,
}

impl<H: Clone> HookRegistry<H> {
    /// The registered entries, in registration order.
    pub closed spec fn entries(self) -> Seq<HookEntry<H>> {
        self.hooks@
    }

    pub fn new() -> (r: Self)
        ensures
            r.entries() == Seq::<HookEntry<H>>::empty(),
    {
        Self { hooks: Vec::new() }
    }

    /// Register a hook entry. Hooks fire in registration order within each phase.
    pub fn register_entry(&mut self, entry: HookEntry<H>)
        ensures
            final(self).entries() == old(self).entries().push(entry),
    {
        self.hooks.push(entry);
    }

    /// Register a hook for `phase` with default metadata (no condition, not
    /// once, not async).
    pub fn register(&mut self, hook: H, phase: HookPhase)
        ensures
            final(self).entries() == old(self).entries().push(
                HookEntry { hook, phase, condition: None, once: false, async_exec: false },
            ),
    {
        self.hooks.push(
            HookEntry { hook, phase, condition: None, once: false, async_exec: false },
        );
    }

    /// The hooks that fire in `phase`, preserving registration order.
    pub fn hooks_for_phase(&self, phase: &HookPhase) -> (r: Vec<H>)
        ensures
            r@.len() == firing_entries(self.entries(), *phase).len(),
            forall|k: int|
                0 <= k < r@.len() ==> cloned(
                    firing_entries(self.entries(), *phase)[k].hook,
                    #[trigger] r@[k],
                ),
    {
        let mut out: Vec<H> = Vec::new();
        let mut i: usize = 0;
        while i < self.hooks.len()
            invariant
                i <= self.hooks.len(),
                out@.len() == firing_entries(self.hooks@.take(i as int), *phase).len(),
                forall|k: int|
                    0 <= k < out@.len() ==> cloned(
                        firing_entries(self.hooks@.take(i as int), *phase)[k].hook,
                        #[trigger] out@[k],
                    ),
            decreases self.hooks.len() - i,
        {
            let entry = &self.hooks[i];
            assert(self.hooks@.take(i + 1).drop_last() =~= self.hooks@.take(i as int));
            let fires = entry.phase.same_kind(phase) && match &entry.condition {
                Some(c) => c.matches(phase),
                None => true,
            };
            if fires {
                out.push(entry.hook.clone());
            }
            i = i + 1;
        }
        assert(self.hooks@.take(self.hooks.len() as int) =~= self.hooks@);
        out
    }

    /// Remove all hooks that have `once: true`.
    pub fn remove_once_hooks(&mut self)
        ensures
            final(self).entries() == persistent_entries(old(self).entries()),
    {
        let mut rest: Vec<HookEntry<H>> = Vec::new();
        std::mem::swap(&mut rest, &mut self.hooks);
        let ghost orig = rest@;
        let mut rev: Vec<HookEntry<H>> = Vec::new();
        while rest.len() > 0
            invariant
                rev@.len() + rest@.len() == orig.len(),
                rest@ == orig.take(rest@.len() as int),
                forall|k: int| 0 <= k < rev@.len() ==> rev@[k] == orig[orig.len() - 1 - k],
            decreases rest.len(),
        {
            let e = rest.pop().unwrap();
            rev.push(e);
        }
        let mut kept: Vec<HookEntry<H>> = Vec::new();
        while rev.len() > 0
            invariant
                rev@.len() <= orig.len(),
                forall|k: int| 0 <= k < rev@.len() ==> rev@[k] == orig[orig.len() - 1 - k],
                kept@ == persistent_entries(orig.take(orig.len() - rev@.len())),
            decreases rev.len(),
        {
            let ghost done = orig.len() - rev@.len();
            let e = rev.pop().unwrap();
            assert(orig.take(done + 1).drop_last() =~= orig.take(done));
            assert(orig.take(done + 1).last() == e);
            if !e.once {
                kept.push(e);
            }
        }
        assert(orig.take(orig.len() as int) =~= orig);
        self.hooks = kept;
    }
}

/// `a` and `b` are the same kind of lifecycle point, told by variant.
pub open spec fn same_variant(a: HookPhase, b: HookPhase) -> bool {
    ||| (a is PostSampling && b is PostSampling)
    ||| (a is Stop && b is Stop)
    ||| (a is PreToolUse && b is PreToolUse)
    ||| (a is PostToolUse && b is PostToolUse)
    ||| (a is PostToolUseFailure && b is PostToolUseFailure)
    ||| (a is SessionStart && b is SessionStart)
    ||| (a is UserPromptSubmit && b is UserPromptSubmit)
}

/// What the entries firing in `phase` are: exactly the registered entries
/// that fire in it.
proof fn lemma_firing_member<H>(entries: Seq<HookEntry<H>>, phase: HookPhase, x: HookEntry<H>)
    ensures
        firing_entries(entries, phase).contains(x) <==> (entries.contains(x) && entry_fires(x, phase)),
    decreases entries.len(),
{
    if entries.len() > 0 {
        let rest = entries.drop_last();
        lemma_firing_member(rest, phase, x);
        let before = firing_entries(rest, phase);
        if entries.contains(x) && !rest.contains(x) {
            let j = choose|j: int| 0 <= j < entries.len() && entries[j] == x;
            if j < rest.len() {
                assert(rest[j] == x);
            }
        }
        if rest.contains(x) {
            let j = choose|j: int| 0 <= j < rest.len() && rest[j] == x;
            assert(entries[j] == x);
        }
        if entry_fires(entries.last(), phase) {
            let after = before.push(entries.last());
            if after.contains(x) && !before.contains(x) {
                let j = choose|j: int| 0 <= j < after.len() && after[j] == x;
                if j < before.len() {
                    assert(before[j] == x);
                }
                assert(entries[entries.len() - 1] == x);
            }
            if before.contains(x) {
                let j = choose|j: int| 0 <= j < before.len() && before[j] == x;
                assert(after[j] == x);
            }
            if x == entries.last() {
                assert(after[after.len() - 1] == x);
            }
        }
    }
}

/// A hook fires only in a phase of the kind it was registered for (a hook
/// registered after a tool's success never fires after a failure, and so
/// on), and one registered without a condition fires in every phase of
/// that kind, whatever tool the phase names, as does one whose condition
/// names no tool; a condition naming `*` accepts every tool, and a
/// condition naming a tool never fires in a phase that names none.
pub proof fn law_hooks_fire_in_their_own_phase<H>(entries: Seq<HookEntry<H>>, phase: HookPhase, i: int)
    requires
        0 <= i < entries.len(),
    ensures
        firing_entries(entries, phase).contains(entries[i]) ==> same_variant(entries[i].phase, phase),
        entries[i].condition is None && same_variant(entries[i].phase, phase) ==> firing_entries(
            entries,
            phase,
        ).contains(entries[i]),
        entries[i].phase is PostToolUse && phase is PostToolUseFailure ==> !firing_entries(entries, phase).contains(
            entries[i],
        ),
        (entries[i].condition matches Some(c) && c.tool_name is None) && same_variant(entries[i].phase, phase)
            ==> firing_entries(entries, phase).contains(entries[i]),
        (entries[i].condition matches Some(c) && (c.tool_name matches Some(p) && p@ == "*"@)) && same_variant(
            entries[i].phase,
            phase,
        ) && (phase is PreToolUse || phase is PostToolUse || phase is PostToolUseFailure) ==> firing_entries(
            entries,
            phase,
        ).contains(entries[i]),
        (entries[i].condition matches Some(c) && c.tool_name is Some) && !(phase is PreToolUse
            || phase is PostToolUse || phase is PostToolUseFailure) ==> !firing_entries(entries, phase).contains(
            entries[i],
        ),
{
    lemma_firing_member(entries, phase, entries[i]);
    assert(entries.contains(entries[i]));
}

/// Every hook that fires in a phase was registered for that kind of phase.
pub proof fn law_firing_hooks_match_the_phase<H>(entries: Seq<HookEntry<H>>, phase: HookPhase, k: int)
    requires
        0 <= k < firing_entries(entries, phase).len(),
    ensures
        same_variant(firing_entries(entries, phase)[k].phase, phase),
        entries.contains(firing_entries(entries, phase)[k]),
{
    let x = firing_entries(entries, phase)[k];
    assert(firing_entries(entries, phase).contains(x));
    lemma_firing_member(entries, phase, x);
}

} // verus!
