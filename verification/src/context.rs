//! Conversation context and per-session runtime state.
use vstd::prelude::*;

use crate::message::{Message, Role, SystemReminder, reminder_text};
use crate::metrics::SessionMetrics;

verus! {

/// One named block of the system prompt.
#[derive(Debug, Clone)]
pub struct PromptBlock {
    pub name: String,
    pub text: String,
}

/// The observable part of a message: its role and its blocks.
pub open spec fn message_view(m: Message) -> (Role, Seq<crate::message::ContentBlock>) {
    (m.role, m.blocks@)
}

/// The observable parts of a list of messages.
pub open spec fn messages_view(ms: Seq<Message>) -> Seq<(Role, Seq<crate::message::ContentBlock>)> {
    ms.map_values(|m: Message| message_view(m))
}

/// What a conversation holds besides its messages.
#[derive(Debug)]
pub struct Conversation {
    messages: Vec<Message>,
    cached_system_prompt_blocks: Option<Vec<PromptBlock>>,
    last_memory_injection_fingerprint: Option<u64>,
    last_skill_injection_fingerprint: Option<u64>,
    memory_state_dirty: bool,
    current_turn_memory_injected: bool,
    current_turn_memory_mutation_notified: bool,
}

/// Operations a turn performs on its conversation context.
pub trait ContextOps {
    spec fn context_messages(&self) -> Seq<Message>;

    fn messages(&self) -> (r: &Vec<Message>)
        ensures
            r@ == self.context_messages(),
    ;

    fn push_message(&mut self, msg: Message)
        ensures
            final(self).context_messages() == old(self).context_messages().push(msg),
    ;

    fn replace_messages(&mut self, messages: Vec<Message>)
        ensures
            final(self).context_messages() == messages@,
    ;

    fn push_system_reminder(&mut self, reminder: SystemReminder)
        ensures
            final(self).context_messages().len() == old(self).context_messages().len() + 1,
            final(self).context_messages().take(old(self).context_messages().len() as int)
                == old(self).context_messages(),
            final(self).context_messages().last().is_text(Role::System, reminder_text(reminder)),
    ;

    fn cached_system_prompt(&self) -> &Option<Vec<PromptBlock>>;

    fn set_cached_system_prompt(&mut self, blocks: Option<Vec<PromptBlock>>);

    fn last_memory_fingerprint(&self) -> Option<u64>;

    fn set_last_memory_fingerprint(&mut self, fp: Option<u64>);

    fn last_skill_fingerprint(&self) -> Option<u64>;

    fn set_last_skill_fingerprint(&mut self, fp: Option<u64>);

    fn memory_dirty(&self) -> bool;

    fn set_memory_dirty(&mut self, dirty: bool);

    fn turn_memory_injected(&self) -> bool;

    fn set_turn_memory_injected(&mut self, val: bool);

    fn turn_memory_mutation_notified(&self) -> bool;

    fn set_turn_memory_mutation_notified(&mut self, val: bool);

    fn repair_incomplete_tool_call_tail(&mut self)
        ensures
            final(self).context_messages() == old(self).context_messages(),
    ;
}

impl Conversation {
    pub closed spec fn spec_messages(self) -> Seq<Message> {
        self.messages@
    }

    pub closed spec fn spec_cached_prompt(self) -> Option<Vec<PromptBlock>> {
        self.cached_system_prompt_blocks
    }

    pub closed spec fn spec_memory_fingerprint(self) -> Option<u64> {
        self.last_memory_injection_fingerprint
    }

    pub closed spec fn spec_skill_fingerprint(self) -> Option<u64> {
        self.last_skill_injection_fingerprint
    }

    pub closed spec fn spec_flags(self) -> (bool, bool, bool) {
        (
            self.memory_state_dirty,
            self.current_turn_memory_injected,
            self.current_turn_memory_mutation_notified,
        )
    }

    /// A conversation with no messages and nothing cached.
    pub open spec fn is_fresh(self) -> bool {
        &&& self.spec_cached_prompt() is None
        &&& self.spec_memory_fingerprint() is None
        &&& self.spec_skill_fingerprint() is None
        &&& self.spec_flags() == (false, false, false)
    }

    pub fn new() -> (r: Self)
        ensures
            r.spec_messages() == Seq::<Message>::empty(),
            r.is_fresh(),
    {
        Conversation {
            messages: Vec::new(),
            cached_system_prompt_blocks: None,
            last_memory_injection_fingerprint: None,
            last_skill_injection_fingerprint: None,
            memory_state_dirty: false,
            current_turn_memory_injected: false,
            current_turn_memory_mutation_notified: false,
        }
    }

    pub fn with_messages(messages: Vec<Message>) -> (r: Self)
        ensures
            r.spec_messages() == messages@,
            r.is_fresh(),
    {
        Conversation {
            messages,
            cached_system_prompt_blocks: None,
            last_memory_injection_fingerprint: None,
            last_skill_injection_fingerprint: None,
            memory_state_dirty: false,
            current_turn_memory_injected: false,
            current_turn_memory_mutation_notified: false,
        }
    }

    /// Forget the conversation, keeping only a leading system message.
    pub fn reset(&mut self)
        ensures
            final(self).is_fresh(),
            (old(self).spec_messages().len() > 0 && old(self).spec_messages()[0].role == Role::System)
                ==> final(self).spec_messages().len() == 1 && message_view(final(self).spec_messages()[0])
                == message_view(old(self).spec_messages()[0]),
            !(old(self).spec_messages().len() > 0 && old(self).spec_messages()[0].role == Role::System)
                ==> final(self).spec_messages().len() == 0,
    {
        let mut kept: Vec<Message> = Vec::new();
        if self.messages.len() > 0 && self.messages[0].role == Role::System {
            kept.push(self.messages[0].clone());
        }
        self.messages = kept;
        self.cached_system_prompt_blocks = None;
        self.last_memory_injection_fingerprint = None;
        self.last_skill_injection_fingerprint = None;
        self.memory_state_dirty = false;
        self.current_turn_memory_injected = false;
        self.current_turn_memory_mutation_notified = false;
    }

    /// Start the conversation with the base system prompt, when the prompt is
    /// not assembled from sections.
    pub fn initial_messages(&mut self, has_prompt_assembly: bool, base_system_prompt: &Option<String>)
        ensures
            (!has_prompt_assembly && base_system_prompt is Some) ==> final(self).spec_messages().len()
                == old(self).spec_messages().len() + 1 && final(self).spec_messages().take(
                old(self).spec_messages().len() as int,
            ) == old(self).spec_messages() && final(self).spec_messages().last().is_text(
                Role::System,
                base_system_prompt->0@,
            ),
            !(!has_prompt_assembly && base_system_prompt is Some) ==> final(self).spec_messages()
                == old(self).spec_messages(),
    {
        if !has_prompt_assembly {
            if let Some(sp) = base_system_prompt {
                self.messages.push(Message::system(sp.as_str()));
                assert(self.messages@.take(old(self).messages@.len() as int) =~= old(self).messages@);
            }
        }
    }
}

impl ContextOps for Conversation {
    open spec fn context_messages(&self) -> Seq<Message> {
        self.spec_messages()
    }

    fn messages(&self) -> (r: &Vec<Message>) {
        &self.messages
    }

    fn push_message(&mut self, msg: Message) {
        self.messages.push(msg);
    }

    fn replace_messages(&mut self, messages: Vec<Message>) {
        self.messages = messages;
    }

    fn push_system_reminder(&mut self, reminder: SystemReminder) {
        let text = reminder.render();
        self.messages.push(Message::system(text.as_str()));
        assert(self.messages@.take(old(self).messages@.len() as int) =~= old(self).messages@);
    }

    fn cached_system_prompt(&self) -> &Option<Vec<PromptBlock>> {
        &self.cached_system_prompt_blocks
    }

    fn set_cached_system_prompt(&mut self, blocks: Option<Vec<PromptBlock>>) {
        self.cached_system_prompt_blocks = blocks;
    }

    fn last_memory_fingerprint(&self) -> Option<u64> {
        self.last_memory_injection_fingerprint
    }

    fn set_last_memory_fingerprint(&mut self, fp: Option<u64>) {
        self.last_memory_injection_fingerprint = fp;
    }

    fn last_skill_fingerprint(&self) -> Option<u64> {
        self.last_skill_injection_fingerprint
    }

    fn set_last_skill_fingerprint(&mut self, fp: Option<u64>) {
        self.last_skill_injection_fingerprint = fp;
    }

    fn memory_dirty(&self) -> bool {
        self.memory_state_dirty
    }

    fn set_memory_dirty(&mut self, dirty: bool) {
        self.memory_state_dirty = dirty;
    }

    fn turn_memory_injected(&self) -> bool {
        self.current_turn_memory_injected
    }

    fn set_turn_memory_injected(&mut self, val: bool) {
        self.current_turn_memory_injected = val;
    }

    fn turn_memory_mutation_notified(&self) -> bool {
        self.current_turn_memory_mutation_notified
    }

    fn set_turn_memory_mutation_notified(&mut self, val: bool) {
        self.current_turn_memory_mutation_notified = val;
    }

    fn repair_incomplete_tool_call_tail(&mut self) {
    }
}

// ---------------------------------------------------------------------------
// Runtime state
// ---------------------------------------------------------------------------

/// Operations a turn performs on the session's runtime state.
pub trait StateOps {
    /// What the runtime keeps of the files the agent has read.
    type FileState;

    spec fn state_metrics(&self) -> crate::metrics::MetricsCheckpoint;

    spec fn state_file_state(&self) -> Self::FileState;

    spec fn state_compaction_failures(&self) -> usize;

    fn metrics(&self) -> (r: &SessionMetrics)
        ensures
            r@ == self.state_metrics(),
    ;

    fn set_metrics(&mut self, metrics: SessionMetrics)
        ensures
            final(self).state_metrics() == metrics@,
            final(self).state_file_state() == old(self).state_file_state(),
            final(self).state_compaction_failures() == old(self).state_compaction_failures(),
    ;

    fn read_file_state(&self) -> (r: &Self::FileState)
        ensures
            *r == self.state_file_state(),
    ;

    fn set_read_file_state(&mut self, state: Self::FileState)
        ensures
            final(self).state_file_state() == state,
            final(self).state_metrics() == old(self).state_metrics(),
            final(self).state_compaction_failures() == old(self).state_compaction_failures(),
    ;

    fn compaction_failures(&self) -> (r: usize)
        ensures
            r == self.state_compaction_failures(),
    ;

    fn set_compaction_failures(&mut self, val: usize)
        ensures
            final(self).state_compaction_failures() == val,
            final(self).state_metrics() == old(self).state_metrics(),
            final(self).state_file_state() == old(self).state_file_state(),
    ;
}

/// The session's runtime state: metrics, what files were read, and the
/// compaction circuit-breaker counter.
pub struct RuntimeState<F> {
    metrics: SessionMetrics,
    read_file_state: F,
    consecutive_compaction_failures: usize,
}

impl<F> RuntimeState<F> {
    pub fn with_values(metrics: SessionMetrics, read_file_state: F, consecutive_compaction_failures: usize) -> (r:
        Self)
        ensures
            r.state_metrics() == metrics@,
            r.state_file_state() == read_file_state,
            r.state_compaction_failures() == consecutive_compaction_failures,
    {
        RuntimeState { metrics, read_file_state, consecutive_compaction_failures }
    }
}

impl<F> StateOps for RuntimeState<F> {
    type FileState = F;

    closed spec fn state_metrics(&self) -> crate::metrics::MetricsCheckpoint {
        self.metrics@
    }

    closed spec fn state_file_state(&self) -> F {
        self.read_file_state
    }

    closed spec fn state_compaction_failures(&self) -> usize {
        self.consecutive_compaction_failures
    }

    fn metrics(&self) -> (r: &SessionMetrics) {
        &self.metrics
    }

    fn set_metrics(&mut self, metrics: SessionMetrics) {
        self.metrics = metrics;
    }

    fn read_file_state(&self) -> (r: &F) {
        &self.read_file_state
    }

    fn set_read_file_state(&mut self, state: F) {
        self.read_file_state = state;
    }

    fn compaction_failures(&self) -> (r: usize) {
        self.consecutive_compaction_failures
    }

    fn set_compaction_failures(&mut self, val: usize) {
        self.consecutive_compaction_failures = val;
    }
}

} // verus!
