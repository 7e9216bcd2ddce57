//! The decisions of the agent's turn loop: which model to ask, when to
//! compact, when to inject memories and skills, when a turn ends, and which
//! assistant message is the turn's answer.
//!
//! The loop itself (provider calls, tools, hooks, persistence) runs around
//! these functions and hands them what it observed.
use vstd::prelude::*;

use crate::error::AgentError;
use crate::metrics::{MetricsCheckpoint, SessionMetrics};
use crate::provider::TokenUsage;
use crate::message::{Message, Role, text_content_of, block_texts};
use crate::subagent::ModelHint;
use crate::text::{join, trim, trimmed_string};

verus! {

/// How much deliberation a task gets.
#[derive(Debug, Clone, Copy, PartialEq, Eq, Structural)]
pub enum TaskPath {
    Fast,
    Standard,
    Heavy,
}

/// The model hint for an iteration: execution on the fast path; recovery
/// after a tool error; thinking when stuck, on the first iteration, and on
/// every fourth iteration of a heavy task; execution otherwise.
pub open spec fn hint_for(path: TaskPath, iteration: usize, previous_tool_error: bool, consecutive_noop: usize) -> ModelHint {
    if path == TaskPath::Fast {
        ModelHint::Execution
    } else if previous_tool_error {
        ModelHint::Recovery
    } else if consecutive_noop >= 3 {
        ModelHint::Thinking
    } else if iteration == 1 {
        ModelHint::Thinking
    } else if path == TaskPath::Heavy && iteration % 4 == 0 {
        ModelHint::Thinking
    } else {
        ModelHint::Execution
    }
}

pub fn resolve_hint(path: TaskPath, iteration: usize, previous_tool_error: bool, consecutive_noop: usize) -> (r:
    ModelHint)
    ensures
        r == hint_for(path, iteration, previous_tool_error, consecutive_noop),
{
    if path == TaskPath::Fast {
        ModelHint::Execution
    } else if previous_tool_error {
        ModelHint::Recovery
    } else if consecutive_noop >= 3 {
        ModelHint::Thinking
    } else if iteration == 1 {
        ModelHint::Thinking
    } else if path == TaskPath::Heavy && iteration % 4 == 0 {
        ModelHint::Thinking
    } else {
        ModelHint::Execution
    }
}

/// The loop's bookkeeping between iterations.
#[derive(Debug, Clone, Copy, PartialEq, Eq, Structural)]
pub struct TurnProgress {
    pub iterations: usize,
    pub previous_tool_error: bool,
    pub consecutive_noop: usize,
    pub force_thinking_next_iteration: bool,
}

impl TurnProgress {
    pub fn new() -> (r: Self)
        ensures
            r == (TurnProgress {
                iterations: 0,
                previous_tool_error: false,
                consecutive_noop: 0,
                force_thinking_next_iteration: false,
            }),
    {
        TurnProgress {
            iterations: 0,
            previous_tool_error: false,
            consecutive_noop: 0,
            force_thinking_next_iteration: false,
        }
    }

    /// Begin another iteration, unless the iteration limit is reached.
    pub fn start_iteration(&mut self, max_iterations: Option<usize>) -> (r: Result<(), AgentError>)
        requires
            old(self).iterations < usize::MAX,
        ensures
            r is Err <==> (max_iterations matches Some(m) && old(self).iterations >= m),
            r matches Err(e) ==> e == AgentError::MaxIterations(max_iterations->0),
            r is Err ==> *final(self) == *old(self),
            r is Ok ==> *final(self) == (TurnProgress { iterations: (old(self).iterations + 1) as usize, ..*old(self) }),
    {
        if let Some(max) = max_iterations {
            if self.iterations >= max {
                return Err(AgentError::MaxIterations(max));
            }
        }
        self.iterations = self.iterations + 1;
        Ok(())
    }

    /// The hint for this iteration: thinking when a reconsideration asked for
    /// it (which it then clears), else as `resolve_hint`.
    pub fn next_hint(&mut self, path: TaskPath) -> (r: ModelHint)
        ensures
            old(self).force_thinking_next_iteration ==> r == ModelHint::Thinking,
            !old(self).force_thinking_next_iteration ==> r == hint_for(
                path,
                old(self).iterations,
                old(self).previous_tool_error,
                old(self).consecutive_noop,
            ),
            *final(self) == (TurnProgress { force_thinking_next_iteration: false, ..*old(self) }),
    {
        if self.force_thinking_next_iteration {
            self.force_thinking_next_iteration = false;
            ModelHint::Thinking
        } else {
            resolve_hint(path, self.iterations, self.previous_tool_error, self.consecutive_noop)
        }
    }

    /// Count replies that only call tools without saying anything.
    pub fn record_assistant(&mut self, has_tool_calls: bool, text_is_empty: bool)
        requires
            old(self).consecutive_noop < usize::MAX,
        ensures
            final(self).consecutive_noop == (if has_tool_calls && text_is_empty {
                old(self).consecutive_noop + 1
            } else if has_tool_calls {
                0
            } else {
                old(self).consecutive_noop as int
            }),
            final(self).iterations == old(self).iterations,
            final(self).previous_tool_error == old(self).previous_tool_error,
            final(self).force_thinking_next_iteration == old(self).force_thinking_next_iteration,
    {
        if has_tool_calls && text_is_empty {
            self.consecutive_noop = self.consecutive_noop + 1;
        } else if has_tool_calls {
            self.consecutive_noop = 0;
        }
    }

    /// A reply without tool calls ends the turn, unless new input arrived
    /// meanwhile: then the loop goes on and thinks first.
    pub fn on_final_reply(&mut self, new_input_arrived: bool) -> (continue_turn: bool)
        ensures
            continue_turn == new_input_arrived,
            *final(self) == (TurnProgress {
                force_thinking_next_iteration: old(self).force_thinking_next_iteration || new_input_arrived,
                ..*old(self)
            }),
    {
        if new_input_arrived {
            self.force_thinking_next_iteration = true;
        }
        new_input_arrived
    }

    /// Remember whether any tool of the last batch failed.
    pub fn record_tool_results(&mut self, any_error: bool)
        ensures
            *final(self) == (TurnProgress { previous_tool_error: any_error, ..*old(self) }),
    {
        self.previous_tool_error = any_error;
    }
}

// ---------------------------------------------------------------------------
// Compaction
// ---------------------------------------------------------------------------

/// After this many consecutive compaction failures, stop trying.
pub const MAX_CONSECUTIVE_COMPACTION_FAILURES: usize = 3;

/// A session's token limits.
#[derive(Debug, Clone, Copy, PartialEq, Eq, Structural)]
pub struct TokenBudget {
    /// Hard cap: a turn over it is aborted.
    pub max_tokens: usize,
    /// Soft threshold: at or over it the context is compacted.
    pub compact_at_tokens: usize,
}

/// What the compaction phase does this iteration.
#[derive(Debug, Clone, Copy, PartialEq, Eq, Structural)]
pub enum CompactionDecision {
    /// Too many failures in a row: compaction is skipped.
    CircuitOpen,
    /// The context is already over the hard cap: the turn ends.
    AbortTurn { used_tokens: usize, max_tokens: usize },
    /// Compact now.
    Compact,
    /// Nothing to do.
    Proceed,
}

pub open spec fn compaction_for(
    failures: usize,
    budget: Option<TokenBudget>,
    estimated_tokens: usize,
    can_compact: bool,
) -> CompactionDecision {
    if failures >= MAX_CONSECUTIVE_COMPACTION_FAILURES {
        CompactionDecision::CircuitOpen
    } else {
        match budget {
            None => CompactionDecision::Proceed,
            Some(b) => if estimated_tokens > b.max_tokens {
                CompactionDecision::AbortTurn { used_tokens: estimated_tokens, max_tokens: b.max_tokens }
            } else if estimated_tokens >= b.compact_at_tokens && can_compact {
                CompactionDecision::Compact
            } else {
                CompactionDecision::Proceed
            },
        }
    }
}

/// Decide the compaction phase from the failure count, the budget, the
/// estimated size of the context and whether a compaction strategy is set.
pub fn decide_compaction(
    failures: usize,
    budget: Option<TokenBudget>,
    estimated_tokens: usize,
    can_compact: bool,
) -> (r: CompactionDecision)
    ensures
        r == compaction_for(failures, budget, estimated_tokens, can_compact),
{
    if failures >= MAX_CONSECUTIVE_COMPACTION_FAILURES {
        return CompactionDecision::CircuitOpen;
    }
    match budget {
        None => CompactionDecision::Proceed,
        Some(b) => {
            if estimated_tokens > b.max_tokens {
                CompactionDecision::AbortTurn { used_tokens: estimated_tokens, max_tokens: b.max_tokens }
            } else if estimated_tokens >= b.compact_at_tokens && can_compact {
                CompactionDecision::Compact
            } else {
                CompactionDecision::Proceed
            }
        },
    }
}

/// How a compaction attempt ended.
#[derive(Debug, Clone, Copy, PartialEq, Eq, Structural)]
pub enum CompactionOutcome {
    Compacted,
    NothingToDo,
    Failed,
}

/// The failure count after a compaction attempt: reset on success, raised on
/// failure, kept otherwise.
pub fn failures_after(failures: usize, outcome: CompactionOutcome) -> (r: usize)
    requires
        failures < MAX_CONSECUTIVE_COMPACTION_FAILURES,
    ensures
        r == match outcome {
            CompactionOutcome::Compacted => 0,
            CompactionOutcome::NothingToDo => failures as int,
            CompactionOutcome::Failed => failures + 1,
        },
{
    match outcome {
        CompactionOutcome::Compacted => 0,
        CompactionOutcome::NothingToDo => failures,
        CompactionOutcome::Failed => failures + 1,
    }
}

// ---------------------------------------------------------------------------
// Injections
// ---------------------------------------------------------------------------

/// What the memory injection does on an iteration.
#[derive(Debug, Clone, Copy, PartialEq, Eq, Structural)]
pub enum InjectionStep {
    /// Not the first iteration, or nothing to inject: leave everything as is.
    NotApplicable,
    /// Push the reminder and remember its fingerprint.
    Inject,
    /// The same reminder is already in context: only clear the dirty flag.
    Unchanged,
}

pub open spec fn memory_step_for(iterations: usize, fingerprint: Option<u64>, last: Option<u64>, dirty: bool) -> InjectionStep {
    if iterations != 1 || fingerprint is None {
        InjectionStep::NotApplicable
    } else if dirty || last != fingerprint {
        InjectionStep::Inject
    } else {
        InjectionStep::Unchanged
    }
}

/// Memory is injected on the first iteration when the memory changed since
/// the last injection or its content differs.
pub fn memory_injection_step(iterations: usize, fingerprint: Option<u64>, last: Option<u64>, dirty: bool) -> (r:
    InjectionStep)
    ensures
        r == memory_step_for(iterations, fingerprint, last, dirty),
{
    if iterations != 1 || fingerprint.is_none() {
        return InjectionStep::NotApplicable;
    }
    let unchanged = match (last, fingerprint) {
        (Some(a), Some(b)) => a == b,
        _ => false,
    };
    if dirty || !unchanged {
        InjectionStep::Inject
    } else {
        InjectionStep::Unchanged
    }
}

pub open spec fn skill_step_for(iterations: usize, minimal_prompt: bool, fingerprint: Option<u64>, last: Option<u64>) -> InjectionStep {
    if iterations != 1 || !minimal_prompt || fingerprint is None {
        InjectionStep::NotApplicable
    } else if last != fingerprint {
        InjectionStep::Inject
    } else {
        InjectionStep::Unchanged
    }
}

/// Skills are suggested on the first iteration of a minimal-prompt session
/// when the suggestion differs from the last one.
pub fn skill_injection_step(iterations: usize, minimal_prompt: bool, fingerprint: Option<u64>, last: Option<u64>) -> (r:
    InjectionStep)
    ensures
        r == skill_step_for(iterations, minimal_prompt, fingerprint, last),
{
    if iterations != 1 || !minimal_prompt || fingerprint.is_none() {
        return InjectionStep::NotApplicable;
    }
    let unchanged = match (last, fingerprint) {
        (Some(a), Some(b)) => a == b,
        _ => false,
    };
    if !unchanged {
        InjectionStep::Inject
    } else {
        InjectionStep::Unchanged
    }
}

// ---------------------------------------------------------------------------
// Turn input and answer
// ---------------------------------------------------------------------------

/// Input typed while a turn runs, trimmed, blank lines dropped.
pub open spec fn input_texts(inputs: Seq<String>) -> Seq<Seq<char>>
    decreases inputs.len(),
{
    if inputs.len() == 0 {
        seq![]
    } else if trim(inputs.last()@).len() == 0 {
        input_texts(inputs.drop_last())
    } else {
        input_texts(inputs.drop_last()).push(trim(inputs.last()@))
    }
}

/// The user messages that input typed during a turn becomes.
pub fn turn_input_messages(inputs: &Vec<String>) -> (r: Vec<Message>)
    ensures
        r@.len() == input_texts(inputs@).len(),
        forall|k: int| 0 <= k < r@.len() ==> (#[trigger] r@[k]).is_text(Role::User, input_texts(inputs@)[k]),
{
    let mut out: Vec<Message> = Vec::new();
    let mut i: usize = 0;
    while i < inputs.len()
        invariant
            i <= inputs.len(),
            out@.len() == input_texts(inputs@.take(i as int)).len(),
            forall|k: int|
                0 <= k < out@.len() ==> (#[trigger] out@[k]).is_text(
                    Role::User,
                    input_texts(inputs@.take(i as int))[k],
                ),
        decreases inputs.len() - i,
    {
        assert(inputs@.take(i + 1).drop_last() =~= inputs@.take(i as int));
        let t = trimmed_string(inputs[i].as_str());
        if !t.as_str().is_empty() {
            out.push(Message::user(t.as_str()));
        }
        i = i + 1;
    }
    assert(inputs@.take(inputs.len() as int) =~= inputs@);
    out
}

/// The kinds of turn events that decide which assistant message answers a turn.
#[derive(Debug, Clone, Copy, PartialEq, Eq, Structural)]
pub enum TurnEventKind {
    HookStarted,
    HookCompleted,
    IterationStarted,
    Assistant,
    Other,
}

/// Whether position `i` of `events` lies inside a hook: after a hook started
/// and before it completed or the next iteration started.
pub open spec fn in_hook(events: Seq<TurnEventKind>, i: int) -> bool
    decreases i,
{
    if i <= 0 {
        false
    } else {
        let prev = events[i - 1];
        if prev == TurnEventKind::HookStarted {
            true
        } else if prev == TurnEventKind::HookCompleted || prev == TurnEventKind::IterationStarted {
            false
        } else {
            in_hook(events, i - 1)
        }
    }
}

/// The turn's answer: the last assistant message that no hook produced.
pub open spec fn answer_index(events: Seq<TurnEventKind>, n: int) -> Option<int>
    decreases n,
{
    if n <= 0 {
        None
    } else if events[n - 1] == TurnEventKind::Assistant && !in_hook(events, n - 1) {
        Some(n - 1)
    } else {
        answer_index(events, n - 1)
    }
}

/// The position of the turn's answer among its events.
pub fn final_answer_index(events: &Vec<TurnEventKind>) -> (r: Option<usize>)
    ensures
        r matches Some(k) ==> answer_index(events@, events@.len() as int) == Some(k as int),
        r is None ==> answer_index(events@, events@.len() as int) is None,
{
    let mut in_hook_phase = false;
    let mut found: Option<usize> = None;
    let mut i: usize = 0;
    while i < events.len()
        invariant
            i <= events.len(),
            in_hook_phase == in_hook(events@, i as int),
            found matches Some(k) ==> answer_index(events@, i as int) == Some(k as int),
            found is None ==> answer_index(events@, i as int) is None,
        decreases events.len() - i,
    {
        match events[i] {
            TurnEventKind::HookStarted => in_hook_phase = true,
            TurnEventKind::HookCompleted => in_hook_phase = false,
            TurnEventKind::IterationStarted => in_hook_phase = false,
            TurnEventKind::Assistant => {
                if !in_hook_phase {
                    found = Some(i);
                }
            },
            TurnEventKind::Other => {},
        }
        i = i + 1;
    }
    found
}

// ---------------------------------------------------------------------------
// Resumed sessions
// ---------------------------------------------------------------------------

/// Messages `ms` with the configured base system prompt in front: added
/// when missing, replaced when a different one leads.
pub open spec fn reconciled(ms: Seq<Message>, has_prompt_assembly: bool, base: Option<Seq<char>>) -> Seq<
    (Role, Seq<char>, bool),
> {
    if has_prompt_assembly || base is None {
        shape(ms)
    } else if ms.len() == 0 {
        seq![(Role::System, base->0, true)]
    } else if ms[0].role == Role::System && text_content_of(ms[0]) == base->0 {
        shape(ms)
    } else if ms[0].role == Role::System {
        seq![(Role::System, base->0, true)] + shape(ms.skip(1))
    } else {
        seq![(Role::System, base->0, true)] + shape(ms)
    }
}

/// Role, text and whether it is a single text block, for each message.
pub open spec fn shape(ms: Seq<Message>) -> Seq<(Role, Seq<char>, bool)> {
    ms.map_values(|m: Message| (m.role, text_content_of(m), m.is_text(m.role, text_content_of(m))))
}

proof fn lemma_single_text(m: Message, role: Role, t: Seq<char>)
    requires
        m.is_text(role, t),
    ensures
        text_content_of(m) == t,
        m.role == role,
{
    let b = m.blocks@;
    assert(b.drop_last().len() == 0);
    assert(block_texts(b.drop_last()) == Seq::<Seq<char>>::empty());
    assert(b.last() == b[0]);
    assert(block_texts(b) == Seq::<Seq<char>>::empty().push(t));
    assert(block_texts(b) =~= seq![t]);
}

/// Reconciling leads with the configured system prompt, and reconciling
/// messages that are already reconciled changes nothing.
pub proof fn law_reconcile_idempotent(
    ms: Seq<Message>,
    again: Seq<Message>,
    has_prompt_assembly: bool,
    base: Option<Seq<char>>,
)
    requires
        shape(again) == reconciled(ms, has_prompt_assembly, base),
    ensures
        !has_prompt_assembly && base is Some ==> again.len() > 0 && again[0].role == Role::System
            && text_content_of(again[0]) == base->0,
        reconciled(again, has_prompt_assembly, base) == shape(again),
{
    if !has_prompt_assembly && base is Some {
        let r = reconciled(ms, has_prompt_assembly, base);
        assert(r.len() > 0);
        assert(shape(again)[0] == r[0]);
        assert(r[0].0 == Role::System && r[0].1 == base->0);
    }
}

/// The messages `after` are `before` with the base system prompt put in
/// front: unchanged without a base prompt, with a prompt assembly, or when
/// they already lead with it; else a leading system message is replaced by
/// it, or it is inserted; every other message is kept as it was.
pub open spec fn reconciled_messages(
    before: Seq<Message>,
    after: Seq<Message>,
    has_prompt_assembly: bool,
    base: Option<Seq<char>>,
) -> bool {
    if has_prompt_assembly || base is None {
        after == before
    } else if before.len() > 0 && before[0].role == Role::System && text_content_of(before[0]) == base->0 {
        after == before
    } else if before.len() > 0 && before[0].role == Role::System {
        &&& after.len() == before.len()
        &&& after[0].is_text(Role::System, base->0)
        &&& after.skip(1) == before.skip(1)
    } else {
        &&& after.len() == before.len() + 1
        &&& after[0].is_text(Role::System, base->0)
        &&& after.skip(1) == before
    }
}

/// Put the configured base system prompt in front of resumed messages.
pub fn reconcile_system_prompt(has_prompt_assembly: bool, base_system_prompt: &Option<String>, messages: &mut Vec<Message>)
    ensures
        reconciled_messages(
            old(messages)@,
            final(messages)@,
            has_prompt_assembly,
            match *base_system_prompt {
                Some(s) => Some(s@),
                None => None,
            },
        ),
        shape(final(messages)@) == reconciled(
            old(messages)@,
            has_prompt_assembly,
            match *base_system_prompt {
                Some(s) => Some(s@),
                None => None,
            },
        ),
{
    let ghost start = messages@;
    if has_prompt_assembly {
        return;
    }
    let config_system = match base_system_prompt {
        Some(s) => s,
        None => {
            return;
        },
    };
    let sys = Message::system(config_system.as_str());
    proof {
        lemma_single_text(sys, Role::System, config_system@);
    }
    if messages.len() == 0 {
        messages.push(sys);
        assert(shape(messages@) =~= seq![(Role::System, config_system@, true)]);
        assert(messages@.skip(1) =~= start);
        return;
    }
    if messages[0].role == Role::System {
        let loaded = messages[0].text_content();
        if loaded == *config_system {
            return;
        }
        messages.set(0, sys);
        proof {
            assert(messages@.skip(1) =~= start.skip(1));
            assert(shape(messages@) =~= seq![(Role::System, config_system@, true)] + shape(start.skip(1)));
        }
    } else {
        messages.insert(0, sys);
        proof {
            assert(shape(messages@) =~= seq![(Role::System, config_system@, true)] + shape(start));
            assert(messages@.skip(1) =~= start);
        }
    }
}


// ---------------------------------------------------------------------------
// The turn loop as a state machine
// ---------------------------------------------------------------------------

/// What the loop keeps between its steps: the iteration bookkeeping and the
/// count of consecutive failed compactions.
#[derive(Debug, Clone, Copy, PartialEq, Eq, Structural)]
pub struct TurnState {
    pub progress: TurnProgress,
    pub compaction_failures: usize,
}

/// What the runtime observed since the last step.
#[derive(Debug)]
pub enum LoopEvent {
    /// An iteration may begin: the configured limit, whether the turn was
    /// cancelled, and the token budget with the estimated use of the context.
    Begin {
        max_iterations: Option<usize>,
        cancelled: bool,
        budget: Option<TokenBudget>,
        estimated_tokens: usize,
        can_compact: bool,
    },
    /// The context was compacted as asked: whether anything was compacted,
    /// or the compaction's error.
    Compacted(Result<bool, AgentError>),
    /// The request can be prepared: the task's path and the fingerprints
    /// that decide whether memory and skills are injected.
    Prepare {
        path: TaskPath,
        memory_fingerprint: Option<u64>,
        last_memory_fingerprint: Option<u64>,
        memory_dirty: bool,
        minimal_prompt: bool,
        skill_fingerprint: Option<u64>,
        last_skill_fingerprint: Option<u64>,
    },
    /// The model replied: whether it called tools, whether its text is
    /// empty, and whether new user input arrived meanwhile.
    Replied {
        has_tool_calls: bool,
        text_is_empty: bool,
        new_input_arrived: bool,
        usage: Option<TokenUsage>,
    },
    /// The tools ran; whether any of them failed.
    ToolsRan { any_error: bool },
}

/// What the runtime does next.
#[derive(Debug, Clone, PartialEq, Eq)]
pub enum TurnAction {
    /// Compact the context, then report [`LoopEvent::Compacted`].
    Compact,
    /// Compute the injection fingerprints and report [`LoopEvent::Prepare`].
    Prepare,
    /// Inject memory and skills as the steps say and ask the model, with
    /// this hint; then report [`LoopEvent::Replied`].
    AskModel { memory: InjectionStep, skill: InjectionStep, hint: ModelHint },
    /// Run the requested tools, then report [`LoopEvent::ToolsRan`].
    RunTools,
    /// Begin the next iteration: report [`LoopEvent::Begin`].
    NextIteration,
    /// The turn ends normally: run the stop hooks and pick the answer.
    Finish,
    /// The context is over the budget: the turn ends without an answer.
    Abort { used_tokens: usize, max_tokens: usize },
    /// The turn fails with this error; the runtime rolls back.
    Fail(AgentError),
}

/// The loop's next state and action, given its state and what was observed.
pub open spec fn turn_next(st: TurnState, ev: LoopEvent) -> (TurnState, TurnAction) {
    let p = st.progress;
    match ev {
        LoopEvent::Begin { max_iterations, cancelled, budget, estimated_tokens, can_compact } => {
            if max_iterations is Some && p.iterations >= max_iterations->0 {
                (st, TurnAction::Fail(AgentError::MaxIterations(max_iterations->0)))
            } else {
                let next = TurnState {
                    progress: TurnProgress { iterations: (p.iterations + 1) as usize, ..p },
                    ..st
                };
                if cancelled {
                    (next, TurnAction::Fail(AgentError::Cancelled))
                } else {
                    match compaction_for(st.compaction_failures, budget, estimated_tokens, can_compact) {
                        CompactionDecision::AbortTurn { used_tokens, max_tokens } => (
                            next,
                            TurnAction::Abort { used_tokens, max_tokens },
                        ),
                        CompactionDecision::Compact => (next, TurnAction::Compact),
                        _ => (next, TurnAction::Prepare),
                    }
                }
            }
        },
        LoopEvent::Compacted(outcome) => {
            let failures = if st.compaction_failures < MAX_CONSECUTIVE_COMPACTION_FAILURES {
                match outcome {
                    Ok(true) => 0,
                    Ok(false) => st.compaction_failures,
                    Err(_) => (st.compaction_failures + 1) as usize,
                }
            } else {
                st.compaction_failures
            };
            let next = TurnState { compaction_failures: failures, ..st };
            match outcome {
                Err(e) => (next, TurnAction::Fail(e)),
                Ok(_) => (next, TurnAction::Prepare),
            }
        },
        LoopEvent::Prepare {
            path,
            memory_fingerprint,
            last_memory_fingerprint,
            memory_dirty,
            minimal_prompt,
            skill_fingerprint,
            last_skill_fingerprint,
        } => {
            let hint = if p.force_thinking_next_iteration {
                ModelHint::Thinking
            } else {
                hint_for(path, p.iterations, p.previous_tool_error, p.consecutive_noop)
            };
            (
                TurnState {
                    progress: TurnProgress { force_thinking_next_iteration: false, ..p },
                    ..st
                },
                TurnAction::AskModel {
                    memory: memory_step_for(
                        p.iterations,
                        memory_fingerprint,
                        last_memory_fingerprint,
                        memory_dirty,
                    ),
                    skill: skill_step_for(p.iterations, minimal_prompt, skill_fingerprint, last_skill_fingerprint),
                    hint,
                },
            )
        },
        LoopEvent::Replied { has_tool_calls, text_is_empty, new_input_arrived, usage } => {
            let noop = if has_tool_calls && text_is_empty {
                (p.consecutive_noop + 1) as usize
            } else if has_tool_calls {
                0
            } else {
                p.consecutive_noop
            };
            let q = TurnProgress { consecutive_noop: noop, ..p };
            if has_tool_calls {
                (TurnState { progress: q, ..st }, TurnAction::RunTools)
            } else if new_input_arrived {
                (
                    TurnState { progress: TurnProgress { force_thinking_next_iteration: true, ..q }, ..st },
                    TurnAction::NextIteration,
                )
            } else {
                (TurnState { progress: q, ..st }, TurnAction::Finish)
            }
        },
        LoopEvent::ToolsRan { any_error } => (
            TurnState { progress: TurnProgress { previous_tool_error: any_error, ..p }, ..st },
            TurnAction::NextIteration,
        ),
    }
}

impl TurnState {
    /// A turn that has not begun.
    pub fn new() -> (r: Self)
        ensures
            r == (TurnState { progress: TurnProgress {
                iterations: 0,
                previous_tool_error: false,
                consecutive_noop: 0,
                force_thinking_next_iteration: false,
            }, compaction_failures: 0 }),
    {
        TurnState { progress: TurnProgress::new(), compaction_failures: 0 }
    }

    /// A turn that has not begun, after `compaction_failures` consecutive
    /// failed compactions in the turns before it.
    pub fn for_turn(compaction_failures: usize) -> (r: Self)
        ensures
            r == (TurnState { progress: TurnProgress {
                iterations: 0,
                previous_tool_error: false,
                consecutive_noop: 0,
                force_thinking_next_iteration: false,
            }, compaction_failures }),
    {
        TurnState { progress: TurnProgress::new(), compaction_failures }
    }
}

/// The session's counters after a step: a turn is counted when its first
/// iteration begins, an iteration when it begins under the limit, a
/// compaction when it compacted something, and a reply's token usage when
/// it reports one.
pub open spec fn metrics_after(m: MetricsCheckpoint, st: TurnState, ev: LoopEvent) -> MetricsCheckpoint {
    match ev {
        LoopEvent::Begin { max_iterations, .. } => if max_iterations is Some
            && st.progress.iterations >= max_iterations->0 {
            m
        } else {
            let turns = if st.progress.iterations == 0 {
                m.turn_count.wrapping_add(1)
            } else {
                m.turn_count
            };
            MetricsCheckpoint {
                turn_count: turns,
                total_iterations: m.total_iterations.wrapping_add(1),
                ..m
            }
        },
        LoopEvent::Compacted(Ok(true)) => MetricsCheckpoint {
            compaction_count: m.compaction_count.wrapping_add(1),
            ..m
        },
        LoopEvent::Replied { usage: Some(u), .. } => MetricsCheckpoint {
            total_input_tokens: m.total_input_tokens.wrapping_add(u.input_tokens),
            total_output_tokens: m.total_output_tokens.wrapping_add(u.output_tokens),
            total_prompt_cache_hit_tokens: match u.prompt_cache_hit_tokens {
                Some(h) => m.total_prompt_cache_hit_tokens.wrapping_add(h),
                None => m.total_prompt_cache_hit_tokens,
            },
            total_prompt_cache_miss_tokens: match u.prompt_cache_miss_tokens {
                Some(h) => m.total_prompt_cache_miss_tokens.wrapping_add(h),
                None => m.total_prompt_cache_miss_tokens,
            },
            ..m
        },
        _ => m,
    }
}

/// One step of the turn loop: from the state and what the runtime observed,
/// the next state and what the runtime does next (see [`turn_next`]).
/// Counting stops short of `usize::MAX` iterations and empty tool rounds.
pub fn turn_step(state: &mut TurnState, metrics: &mut SessionMetrics, event: LoopEvent) -> (action: TurnAction)
    requires
        old(state).progress.iterations < usize::MAX,
        old(state).progress.consecutive_noop < usize::MAX,
    ensures
        (*final(state), action) == turn_next(*old(state), event),
        final(metrics)@ == metrics_after(old(metrics)@, *old(state), event),
{
    let ghost m0 = metrics@;
    let ghost ev = event;
    match event {
        LoopEvent::Begin { max_iterations, cancelled, budget, estimated_tokens, can_compact } => {
            let first = state.progress.iterations == 0;
            match state.progress.start_iteration(max_iterations) {
                Err(e) => {
                    return TurnAction::Fail(e);
                },
                Ok(()) => {},
            }
            if first {
                metrics.add_turn();
            }
            metrics.add_iteration();
            if cancelled {
                return TurnAction::Fail(AgentError::Cancelled);
            }
            match decide_compaction(state.compaction_failures, budget, estimated_tokens, can_compact) {
                CompactionDecision::AbortTurn { used_tokens, max_tokens } => TurnAction::Abort {
                    used_tokens,
                    max_tokens,
                },
                CompactionDecision::Compact => TurnAction::Compact,
                _ => TurnAction::Prepare,
            }
        },
        LoopEvent::Compacted(outcome) => {
            let under = state.compaction_failures < MAX_CONSECUTIVE_COMPACTION_FAILURES;
            match outcome {
                Ok(true) => {
                    if under {
                        state.compaction_failures = 0;
                    }
                    metrics.add_compaction();
                    TurnAction::Prepare
                },
                Ok(false) => TurnAction::Prepare,
                Err(e) => {
                    if under {
                        state.compaction_failures = state.compaction_failures + 1;
                    }
                    TurnAction::Fail(e)
                },
            }
        },
        LoopEvent::Prepare {
            path,
            memory_fingerprint,
            last_memory_fingerprint,
            memory_dirty,
            minimal_prompt,
            skill_fingerprint,
            last_skill_fingerprint,
        } => {
            let iterations = state.progress.iterations;
            let memory = memory_injection_step(iterations, memory_fingerprint, last_memory_fingerprint, memory_dirty);
            let skill = skill_injection_step(iterations, minimal_prompt, skill_fingerprint, last_skill_fingerprint);
            let hint = state.progress.next_hint(path);
            TurnAction::AskModel { memory, skill, hint }
        },
        LoopEvent::Replied { has_tool_calls, text_is_empty, new_input_arrived, usage } => {
            match usage {
                Some(u) => {
                    metrics.add_input_tokens(u.input_tokens);
                    metrics.add_output_tokens(u.output_tokens);
                    match u.prompt_cache_hit_tokens {
                        Some(h) => metrics.add_prompt_cache_hit_tokens(h),
                        None => {},
                    }
                    match u.prompt_cache_miss_tokens {
                        Some(h) => metrics.add_prompt_cache_miss_tokens(h),
                        None => {},
                    }
                },
                None => {},
            }
            state.progress.record_assistant(has_tool_calls, text_is_empty);
            if has_tool_calls {
                TurnAction::RunTools
            } else if state.progress.on_final_reply(new_input_arrived) {
                TurnAction::NextIteration
            } else {
                TurnAction::Finish
            }
        },
        LoopEvent::ToolsRan { any_error } => {
            state.progress.record_tool_results(any_error);
            TurnAction::NextIteration
        },
    }
}


/// The iteration limit holds: a turn that begins each iteration under the
/// limit `m` never counts more than `m` iterations, whatever it observes.
pub proof fn law_iterations_stay_within_limit(st: TurnState, ev: LoopEvent, m: usize)
    requires
        st.progress.iterations <= m,
        ev is Begin ==> ev->max_iterations == Some(m),
    ensures
        turn_next(st, ev).0.progress.iterations <= m,
        turn_next(st, ev).0.progress.iterations <= st.progress.iterations + 1,
{
}

/// A turn fails only when the iteration limit is reached, it was
/// cancelled, or a compaction failed, and then with exactly that error.
pub proof fn law_turn_fails_only_at_limit_or_cancel(st: TurnState, ev: LoopEvent)
    ensures
        turn_next(st, ev).1 matches TurnAction::Fail(e) ==> (ev is Begin && (
            (ev->max_iterations matches Some(m) && st.progress.iterations >= m && e == AgentError::MaxIterations(m))
            || (ev->cancelled && e == AgentError::Cancelled))) || ev == LoopEvent::Compacted(Err(e)),
{
}

/// A turn is counted once: only the beginning of its first iteration, under
/// the limit, counts it; every other step leaves the turn count as it was.
pub proof fn law_turn_counted_once(m: MetricsCheckpoint, st: TurnState, ev: LoopEvent)
    ensures
        metrics_after(m, st, ev).turn_count != m.turn_count ==> ev is Begin && st.progress.iterations == 0,
        (ev is Begin && st.progress.iterations == 0 && !(ev->max_iterations matches Some(x) && x == 0))
            ==> metrics_after(m, st, ev).turn_count == m.turn_count.wrapping_add(1),
{
}

/// How the model is chosen for an iteration: the fast path always executes;
/// otherwise a tool error asks for recovery; with none, three or more empty
/// tool rounds in a row, the first iteration, and, on a heavy task, every
/// iteration that is a multiple of four ask for thinking; every other
/// iteration executes.
pub proof fn law_hint_routing(path: TaskPath, iteration: usize, tool_error: bool, noop: usize)
    ensures
        path == TaskPath::Fast ==> hint_for(path, iteration, tool_error, noop) == ModelHint::Execution,
        path != TaskPath::Fast && tool_error ==> hint_for(path, iteration, tool_error, noop)
            == ModelHint::Recovery,
        path != TaskPath::Fast && !tool_error && noop >= 3 ==> hint_for(path, iteration, tool_error, noop)
            == ModelHint::Thinking,
        path != TaskPath::Fast && !tool_error && iteration == 1 ==> hint_for(
            path,
            iteration,
            tool_error,
            noop,
        ) == ModelHint::Thinking,
        path == TaskPath::Heavy && !tool_error && iteration % 4 == 0 ==> hint_for(
            path,
            iteration,
            tool_error,
            noop,
        ) == ModelHint::Thinking,
        path == TaskPath::Heavy && !tool_error && noop < 3 && iteration != 1 && iteration % 4 != 0
            ==> hint_for(path, iteration, tool_error, noop) == ModelHint::Execution,
        path == TaskPath::Standard && !tool_error && noop < 3 && iteration != 1 ==> hint_for(
            path,
            iteration,
            tool_error,
            noop,
        ) == ModelHint::Execution,
{
}

/// A heavy task rethinks periodically: between two iterations four apart
/// (neither the first, no tool error, not stuck), the hint is the same.
pub proof fn law_heavy_rethink_period(iteration: usize, noop: usize)
    requires
        iteration > 1,
        iteration + 4 <= usize::MAX,
        noop < 3,
    ensures
        hint_for(TaskPath::Heavy, iteration, false, noop) == hint_for(
            TaskPath::Heavy,
            (iteration + 4) as usize,
            false,
            noop,
        ),
        hint_for(TaskPath::Heavy, 4, false, noop) == ModelHint::Thinking,
{
}

/// The compaction circuit breaker and the token budget: the breaker is open
/// exactly after three consecutive failures; below that, a context over
/// the hard cap ends the turn with its size and the cap, one at or over the
/// soft threshold (and within the cap) is compacted when a strategy is set,
/// and otherwise (or without a budget) the iteration proceeds.
pub proof fn law_compaction_decisions(
    failures: usize,
    budget: Option<TokenBudget>,
    estimated: usize,
    can_compact: bool,
)
    ensures
        MAX_CONSECUTIVE_COMPACTION_FAILURES == 3,
        (compaction_for(failures, budget, estimated, can_compact) == CompactionDecision::CircuitOpen) <==> failures
            >= 3,
        failures < 3 && budget is None ==> compaction_for(failures, budget, estimated, can_compact)
            == CompactionDecision::Proceed,
        failures < 3 && budget is Some && estimated > budget->0.max_tokens ==> compaction_for(
            failures,
            budget,
            estimated,
            can_compact,
        ) == (CompactionDecision::AbortTurn { used_tokens: estimated, max_tokens: budget->0.max_tokens }),
        failures < 3 && budget is Some && estimated <= budget->0.max_tokens && estimated >= budget->0.compact_at_tokens
            && can_compact ==> compaction_for(failures, budget, estimated, can_compact)
            == CompactionDecision::Compact,
        failures < 3 && budget is Some && estimated <= budget->0.max_tokens && (estimated < budget->0.compact_at_tokens
            || !can_compact) ==> compaction_for(failures, budget, estimated, can_compact)
            == CompactionDecision::Proceed,
{
}

} // verus!
