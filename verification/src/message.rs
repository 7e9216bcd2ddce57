//! Message types used in conversations with the model and between tools.
//!
//! A conversation is an ordered list of [`Message`]s. Each message has a [`Role`]
//! (system / user / assistant / tool) and one or more [`ContentBlock`]s. Blocks
//! carry the actual payload — plain text, a tool call requested by the model,
//! the result of executing a tool call, or a reasoning trace.
use vstd::prelude::*;

use crate::text::{extend_str, join, lemma_join_push, string_of};

verus! {

/// Speaker of a message in the conversation.
#[derive(Debug, Clone, Copy, PartialEq, Eq, Structural)]
pub enum Role {
    /// Instructions/persona supplied before the conversation starts.
    System,
    /// Input authored by the human user.
    User,
    /// Output produced by the model.
    Assistant,
    /// Result of executing a tool call previously requested by the assistant.
    Tool,
}

/// A plain-text block of content.
#[derive(Debug, PartialEq)]
pub struct TextBlock {
    pub text: String,
}

/// A reasoning trace produced by a thinking-capable model.
#[derive(Debug, PartialEq)]
pub struct ThinkingBlock {
    /// The raw reasoning text.
    pub text: String,
    /// Signature some providers attach to verify the trace was not tampered with.
    pub signature: Option<String>,
    /// Whether the reasoning content was redacted by the provider.
    pub is_redacted: bool,
}

/// A request from the assistant to invoke a named tool with structured arguments.
#[derive(Debug, PartialEq)]
pub struct ToolCall {
    pub id: String,
    pub name: String,
    pub arguments: serde_json::Value,
}

/// The outcome of executing a [`ToolCall`].
#[derive(Debug, PartialEq)]
pub struct ToolResult {
    pub tool_call_id: String,
    pub name: String,
    pub content: serde_json::Value,
    pub is_error: bool,
}

/// A single piece of content within a [`Message`].
#[derive(Debug, PartialEq)]
pub enum ContentBlock {
    /// Natural-language text.
    Text(TextBlock),
    /// A request from the assistant to invoke a tool.
    ToolCall(ToolCall),
    /// The result of having invoked a tool.
    ToolResult(ToolResult),
    /// A reasoning trace emitted by a thinking-capable model.
    Thinking(ThinkingBlock),
}

/// A single message in the conversation: a role plus an ordered list of content blocks.
#[derive(Debug, PartialEq)]
pub struct Message {
    pub role: Role,
    pub blocks: Vec<ContentBlock>,
}

fn clone_opt_string(s: &Option<String>) -> (r: Option<String>)
    ensures
        r == *s,
{
    match s {
        Some(v) => Some(v.clone()),
        None => None,
    }
}

impl Clone for TextBlock {
    fn clone(&self) -> (r: Self)
        ensures
            r == *self,
    {
        TextBlock { text: self.text.clone() }
    }
}

impl Clone for ThinkingBlock {
    fn clone(&self) -> (r: Self)
        ensures
            r == *self,
    {
        ThinkingBlock {
            text: self.text.clone(),
            signature: clone_opt_string(&self.signature),
            is_redacted: self.is_redacted,
        }
    }
}

impl Clone for ToolCall {
    fn clone(&self) -> (r: Self)
        ensures
            r == *self,
    {
        ToolCall { id: self.id.clone(), name: self.name.clone(), arguments: self.arguments.clone() }
    }
}

impl Clone for ToolResult {
    fn clone(&self) -> (r: Self)
        ensures
            r == *self,
    {
        ToolResult {
            tool_call_id: self.tool_call_id.clone(),
            name: self.name.clone(),
            content: self.content.clone(),
            is_error: self.is_error,
        }
    }
}

impl Clone for ContentBlock {
    fn clone(&self) -> (r: Self)
        ensures
            r == *self,
    {
        match self {
            ContentBlock::Text(b) => ContentBlock::Text(b.clone()),
            ContentBlock::ToolCall(b) => ContentBlock::ToolCall(b.clone()),
            ContentBlock::ToolResult(b) => ContentBlock::ToolResult(b.clone()),
            ContentBlock::Thinking(b) => ContentBlock::Thinking(b.clone()),
        }
    }
}

impl Clone for Message {
    fn clone(&self) -> (r: Self)
        ensures
            r.role == self.role,
            r.blocks@ == self.blocks@,
    {
        let blocks = self.blocks.clone();
        assert(blocks@ =~= self.blocks@);
        Message { role: self.role, blocks }
    }
}

/// Texts of the text blocks, in order.
pub open spec fn block_texts(blocks: Seq<ContentBlock>) -> Seq<Seq<char>>
    decreases blocks.len(),
{
    if blocks.len() == 0 {
        seq![]
    } else {
        let prev = block_texts(blocks.drop_last());
        match blocks.last() {
            ContentBlock::Text(t) => prev.push(t.text@),
            _ => prev,
        }
    }
}

/// Texts of the thinking blocks, in order.
pub open spec fn block_thinking(blocks: Seq<ContentBlock>) -> Seq<Seq<char>>
    decreases blocks.len(),
{
    if blocks.len() == 0 {
        seq![]
    } else {
        let prev = block_thinking(blocks.drop_last());
        match blocks.last() {
            ContentBlock::Thinking(t) => prev.push(t.text@),
            _ => prev,
        }
    }
}

/// The tool calls among `blocks`, in order.
pub open spec fn block_calls(blocks: Seq<ContentBlock>) -> Seq<ToolCall>
    decreases blocks.len(),
{
    if blocks.len() == 0 {
        seq![]
    } else {
        let prev = block_calls(blocks.drop_last());
        match blocks.last() {
            ContentBlock::ToolCall(c) => prev.push(c),
            _ => prev,
        }
    }
}

/// The tool results among `blocks`, in order.
pub open spec fn block_results(blocks: Seq<ContentBlock>) -> Seq<ToolResult>
    decreases blocks.len(),
{
    if blocks.len() == 0 {
        seq![]
    } else {
        let prev = block_results(blocks.drop_last());
        match blocks.last() {
            ContentBlock::ToolResult(c) => prev.push(c),
            _ => prev,
        }
    }
}

/// `Message::text_content`: the text blocks joined by newlines.
pub open spec fn text_content_of(m: Message) -> Seq<char> {
    join(block_texts(m.blocks@), "\n"@)
}

impl Message {
    /// The message consists of exactly one text block with the given text.
    pub open spec fn is_text(self, role: Role, text: Seq<char>) -> bool {
        &&& self.role == role
        &&& self.blocks@.len() == 1
        &&& self.blocks@[0] matches ContentBlock::Text(t) && t.text@ == text
    }

    pub fn system(text: &str) -> (m: Self)
        ensures
            m.is_text(Role::System, text@),
    {
        Self::text(Role::System, text)
    }

    pub fn user(text: &str) -> (m: Self)
        ensures
            m.is_text(Role::User, text@),
    {
        Self::text(Role::User, text)
    }

    pub fn assistant(text: &str) -> (m: Self)
        ensures
            m.is_text(Role::Assistant, text@),
    {
        Self::text(Role::Assistant, text)
    }

    pub fn tool(result: ToolResult) -> (m: Self)
        ensures
            m.role == Role::Tool,
            m.blocks@ == seq![ContentBlock::ToolResult(result)],
    {
        let mut blocks = Vec::new();
        blocks.push(ContentBlock::ToolResult(result));
        Self { role: Role::Tool, blocks }
    }

    pub fn tool_results(results: Vec<ToolResult>) -> (m: Self)
        ensures
            m.role == Role::Tool,
            m.blocks@.len() == results@.len(),
            forall|i: int|
                0 <= i < results@.len() ==> m.blocks@[i] == ContentBlock::ToolResult(
                    #[trigger] results@[i],
                ),
    {
        let mut blocks: Vec<ContentBlock> = Vec::new();
        let mut results = results;
        let ghost orig = results@;
        let mut rev: Vec<ToolResult> = Vec::new();
        while results.len() > 0
            invariant
                rev@.len() + results@.len() == orig.len(),
                results@ == orig.take(results@.len() as int),
                forall|i: int|
                    0 <= i < rev@.len() ==> rev@[i] == orig[orig.len() - 1 - i],
            decreases results.len(),
        {
            let r = results.pop().unwrap();
            rev.push(r);
        }
        while rev.len() > 0
            invariant
                rev@.len() + blocks@.len() == orig.len(),
                forall|i: int|
                    0 <= i < rev@.len() ==> rev@[i] == orig[orig.len() - 1 - i],
                forall|i: int|
                    0 <= i < blocks@.len() ==> blocks@[i] == ContentBlock::ToolResult(orig[i]),
            decreases rev.len(),
        {
            let r = rev.pop().unwrap();
            blocks.push(ContentBlock::ToolResult(r));
        }
        Self { role: Role::Tool, blocks }
    }

    pub fn text(role: Role, text: &str) -> (m: Self)
        ensures
            m.is_text(role, text@),
    {
        let mut blocks = Vec::new();
        blocks.push(ContentBlock::Text(TextBlock { text: text.to_owned() }));
        Self { role, blocks }
    }

    /// The text blocks joined with newlines.
    pub fn text_content(&self) -> (r: String)
        ensures
            r@ == text_content_of(*self),
    {
        let mut out: Vec<char> = Vec::new();
        let mut i: usize = 0;
        let mut count: usize = 0;
        while i < self.blocks.len()
            invariant
                i <= self.blocks.len(),
                count == block_texts(self.blocks@.take(i as int)).len(),
                count <= i,
                out@ == join(block_texts(self.blocks@.take(i as int)), "\n"@),
            decreases self.blocks.len() - i,
        {
            let ghost prev = block_texts(self.blocks@.take(i as int));
            assert(self.blocks@.take(i + 1).drop_last() =~= self.blocks@.take(i as int));
            match &self.blocks[i] {
                ContentBlock::Text(t) => {
                    proof {
                        lemma_join_push(prev, t.text@, "\n"@);
                    }
                    if count > 0 {
                        extend_str(&mut out, "\n");
                    }
                    extend_str(&mut out, t.text.as_str());
                    count = count + 1;
                },
                _ => {},
            }
            i = i + 1;
        }
        assert(self.blocks@.take(self.blocks.len() as int) =~= self.blocks@);
        string_of(out.as_slice())
    }

    /// The thinking blocks joined with newlines.
    pub fn thinking_content(&self) -> (r: String)
        ensures
            r@ == join(block_thinking(self.blocks@), "\n"@),
    {
        let mut out: Vec<char> = Vec::new();
        let mut i: usize = 0;
        let mut count: usize = 0;
        while i < self.blocks.len()
            invariant
                i <= self.blocks.len(),
                count == block_thinking(self.blocks@.take(i as int)).len(),
                count <= i,
                out@ == join(block_thinking(self.blocks@.take(i as int)), "\n"@),
            decreases self.blocks.len() - i,
        {
            let ghost prev = block_thinking(self.blocks@.take(i as int));
            assert(self.blocks@.take(i + 1).drop_last() =~= self.blocks@.take(i as int));
            match &self.blocks[i] {
                ContentBlock::Thinking(t) => {
                    proof {
                        lemma_join_push(prev, t.text@, "\n"@);
                    }
                    if count > 0 {
                        extend_str(&mut out, "\n");
                    }
                    extend_str(&mut out, t.text.as_str());
                    count = count + 1;
                },
                _ => {},
            }
            i = i + 1;
        }
        assert(self.blocks@.take(self.blocks.len() as int) =~= self.blocks@);
        string_of(out.as_slice())
    }

    /// The tool calls of this message, in order.
    pub fn tool_calls(&self) -> (r: Vec<ToolCall>)
        ensures
            r@ == block_calls(self.blocks@),
    {
        let mut out: Vec<ToolCall> = Vec::new();
        let mut i: usize = 0;
        while i < self.blocks.len()
            invariant
                i <= self.blocks.len(),
                out@ == block_calls(self.blocks@.take(i as int)),
            decreases self.blocks.len() - i,
        {
            assert(self.blocks@.take(i + 1).drop_last() =~= self.blocks@.take(i as int));
            match &self.blocks[i] {
                ContentBlock::ToolCall(c) => {
                    out.push(c.clone());
                },
                _ => {},
            }
            i = i + 1;
        }
        assert(self.blocks@.take(self.blocks.len() as int) =~= self.blocks@);
        out
    }

    /// The tool results of this message, in order.
    pub fn tool_results_iter(&self) -> (r: Vec<ToolResult>)
        ensures
            r@ == block_results(self.blocks@),
    {
        let mut out: Vec<ToolResult> = Vec::new();
        let mut i: usize = 0;
        while i < self.blocks.len()
            invariant
                i <= self.blocks.len(),
                out@ == block_results(self.blocks@.take(i as int)),
            decreases self.blocks.len() - i,
        {
            assert(self.blocks@.take(i + 1).drop_last() =~= self.blocks@.take(i as int));
            match &self.blocks[i] {
                ContentBlock::ToolResult(c) => {
                    out.push(c.clone());
                },
                _ => {},
            }
            i = i + 1;
        }
        assert(self.blocks@.take(self.blocks.len() as int) =~= self.blocks@);
        out
    }
}

impl ContentBlock {
    /// Create a new text block.
    pub fn text(text: &str) -> (b: Self)
        ensures
            b matches ContentBlock::Text(t) && t.text@ == text@,
    {
        ContentBlock::Text(TextBlock { text: text.to_owned() })
    }

    /// Create a new tool call block.
    pub fn tool_call(id: &str, name: &str, arguments: serde_json::Value) -> (b: Self)
        ensures
            b matches ContentBlock::ToolCall(c) && c.id@ == id@ && c.name@ == name@ && c.arguments
                == arguments,
    {
        ContentBlock::ToolCall(ToolCall { id: id.to_owned(), name: name.to_owned(), arguments })
    }

    /// Create a new tool result block.
    pub fn tool_result(tool_call_id: &str, name: &str, content: serde_json::Value, is_error: bool) -> (b:
        Self)
        ensures
            b matches ContentBlock::ToolResult(r) && r.tool_call_id@ == tool_call_id@ && r.name@
                == name@ && r.content == content && r.is_error == is_error,
    {
        ContentBlock::ToolResult(
            ToolResult {
                tool_call_id: tool_call_id.to_owned(),
                name: name.to_owned(),
                content,
                is_error,
            },
        )
    }

    /// Create a new thinking block.
    pub fn thinking(text: &str, signature: Option<&str>, is_redacted: bool) -> (b: Self)
        ensures
            b matches ContentBlock::Thinking(t) && t.text@ == text@ && t.is_redacted == is_redacted
                && (t.signature is Some <==> signature is Some) && (signature matches Some(s)
                ==> t.signature->0@ == s@),
    {
        let signature = match signature {
            Some(s) => Some(s.to_owned()),
            None => None,
        };
        ContentBlock::Thinking(ThinkingBlock { text: text.to_owned(), signature, is_redacted })
    }
}

/// Out-of-band notes injected into the conversation as system messages.
#[derive(Debug, Clone, PartialEq, Eq)]
pub enum SystemReminder {
    PlanMode,
    Compaction { reason: String },
    ProviderContext,
    HookInterception { phase: String, name: String },
    ToolResult { tool_name: String, note: String },
    MemoryInjection { content: String },
    SkillDiscovery { content: String },
}

/// The body of a reminder, before wrapping in `<system-reminder>` tags.
pub open spec fn reminder_body(r: SystemReminder) -> Seq<char> {
    match r {
        SystemReminder::PlanMode => "You are entering plan mode. Follow the plan instructions and do not write implementation code until the plan is approved."@,
        SystemReminder::Compaction { reason } => "Prior messages were compacted (reason: "@
            + reason@ + "). Some context may have been summarized."@,
        SystemReminder::ProviderContext => "The provider/model context has changed. Adjust to any new instructions or constraints."@,
        SystemReminder::HookInterception { phase, name } => "A hook intercepted this turn during the "@
            + phase@ + " phase ("@ + name@ + "). Treat hook output as user feedback."@,
        SystemReminder::ToolResult { tool_name, note } => "Tool `"@ + tool_name@ + "` reported: "@
            + note@,
        SystemReminder::MemoryInjection { content } => content@,
        SystemReminder::SkillDiscovery { content } => content@,
    }
}

/// The rendered reminder.
pub open spec fn reminder_text(r: SystemReminder) -> Seq<char> {
    "<system-reminder>\n"@ + reminder_body(r) + "\n</system-reminder>"@
}

impl SystemReminder {
    pub fn render(&self) -> (r: String)
        ensures
            r@ == reminder_text(*self),
    {
        let mut out: Vec<char> = Vec::new();
        extend_str(&mut out, "<system-reminder>\n");
        match self {
            SystemReminder::PlanMode => {
                extend_str(
                    &mut out,
                    "You are entering plan mode. Follow the plan instructions and do not write implementation code until the plan is approved.",
                );
            },
            SystemReminder::Compaction { reason } => {
                extend_str(&mut out, "Prior messages were compacted (reason: ");
                extend_str(&mut out, reason.as_str());
                extend_str(&mut out, "). Some context may have been summarized.");
            },
            SystemReminder::ProviderContext => {
                extend_str(
                    &mut out,
                    "The provider/model context has changed. Adjust to any new instructions or constraints.",
                );
            },
            SystemReminder::HookInterception { phase, name } => {
                extend_str(&mut out, "A hook intercepted this turn during the ");
                extend_str(&mut out, phase.as_str());
                extend_str(&mut out, " phase (");
                extend_str(&mut out, name.as_str());
                extend_str(&mut out, "). Treat hook output as user feedback.");
            },
            SystemReminder::ToolResult { tool_name, note } => {
                extend_str(&mut out, "Tool `");
                extend_str(&mut out, tool_name.as_str());
                extend_str(&mut out, "` reported: ");
                extend_str(&mut out, note.as_str());
            },
            SystemReminder::MemoryInjection { content } => {
                extend_str(&mut out, content.as_str());
            },
            SystemReminder::SkillDiscovery { content } => {
                extend_str(&mut out, content.as_str());
            },
        }
        extend_str(&mut out, "\n</system-reminder>");
        proof {
            assert(out@ =~= reminder_text(*self));
        }
        string_of(out.as_slice())
    }
}

} // verus!
