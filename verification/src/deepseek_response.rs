//! Decoding of DeepSeek chat and fill-in-the-middle replies.
//!
//! A reply arrives as a `serde_json::Value`; what it holds is read through
//! the accessors of [`crate::json`]. Each decoder below has a spec function
//! that says, field by field, what it produces from the reply or which
//! `InvalidResponse` message it fails with.
use vstd::prelude::*;

use crate::diagnostics::opt_view;
use crate::error::{AgentError, ProviderError};
use crate::json::{
    json_array, json_as_array, json_field, json_from_str, json_get_str, json_get_u64,
    json_is_null, json_is_null_value, json_member, json_parse_error_text, json_parsed, json_str,
    json_string_field, json_u64_field,
};
use crate::message::{ContentBlock, Message, Role, TextBlock, ThinkingBlock, ToolCall};
use crate::provider::{
    CompletionResponse, DeepSeekFimChoice, DeepSeekFimResponse, StopReason, TokenUsage,
};
use crate::text::{chars_of, extend_str, seq_eq, string_of};

verus! {

/// `e` is a provider `InvalidResponse` error carrying `msg`.
pub open spec fn invalid_response(e: AgentError, msg: Seq<char>) -> bool {
    e matches AgentError::Provider(ProviderError::InvalidResponse(m)) && m@ == msg
}

/// `r` is what the outcome `o` describes: the same value, or an
/// `InvalidResponse` error with the described message.
pub open spec fn outcome_holds<T>(r: Result<T, AgentError>, o: Result<T, Seq<char>>) -> bool {
    match (r, o) {
        (Ok(a), Ok(b)) => a == b,
        (Err(e), Err(m)) => invalid_response(e, m),
        _ => false,
    }
}

/// Decode every item in order, stopping at the first that fails.
pub open spec fn collect_outcomes<T>(
    items: Seq<serde_json::Value>,
    f: spec_fn(serde_json::Value) -> Result<T, Seq<char>>,
) -> Result<Seq<T>, Seq<char>>
    decreases items.len(),
{
    if items.len() == 0 {
        Ok(seq![])
    } else {
        match collect_outcomes(items.drop_last(), f) {
            Err(m) => Err(m),
            Ok(prev) => match f(items.last()) {
                Err(m) => Err(m),
                Ok(x) => Ok(prev.push(x)),
            },
        }
    }
}

/// Once a prefix fails, the whole sequence fails with the same message.
pub proof fn lemma_collect_err_prefix<T>(
    items: Seq<serde_json::Value>,
    f: spec_fn(serde_json::Value) -> Result<T, Seq<char>>,
    k: int,
)
    requires
        0 <= k <= items.len(),
        collect_outcomes(items.take(k), f) is Err,
    ensures
        collect_outcomes(items, f) == collect_outcomes(items.take(k), f),
    decreases items.len(),
{
    if k == items.len() {
        assert(items.take(k) =~= items);
    } else {
        assert(items.drop_last().take(k) =~= items.take(k));
        lemma_collect_err_prefix(items.drop_last(), f, k);
    }
}

/// A successful decoding has one result per item.
pub proof fn lemma_collect_len<T>(
    items: Seq<serde_json::Value>,
    f: spec_fn(serde_json::Value) -> Result<T, Seq<char>>,
)
    ensures
        collect_outcomes(items, f) matches Ok(xs) ==> xs.len() == items.len(),
    decreases items.len(),
{
    if items.len() > 0 {
        lemma_collect_len(items.drop_last(), f);
    }
}

/// One more item decoded after a prefix that decoded.
pub proof fn lemma_collect_step<T>(
    items: Seq<serde_json::Value>,
    f: spec_fn(serde_json::Value) -> Result<T, Seq<char>>,
    i: int,
)
    requires
        0 <= i < items.len(),
    ensures
        collect_outcomes(items.take(i + 1), f) == match collect_outcomes(items.take(i), f) {
            Err(m) => Err(m),
            Ok(prev) => match f(items[i]) {
                Err(m) => Err(m),
                Ok(x) => Ok(prev.push(x)),
            },
        },
{
    assert(items.take(i + 1).drop_last() =~= items.take(i));
}

// ---------------------------------------------------------------------------
// Usage
// ---------------------------------------------------------------------------

/// The member `field` of `v` as a `usize`, when it is a `u64`.
pub open spec fn field_usize(v: serde_json::Value, field: Seq<char>) -> Option<usize> {
    match json_u64_field(v, field) {
        Some(n) => Some(n as usize),
        None => None,
    }
}

/// The token usage an object reports, or the message for a missing count.
pub open spec fn usage_outcome(v: serde_json::Value) -> Result<TokenUsage, Seq<char>> {
    match field_usize(v, "prompt_tokens"@) {
        None => Err("usage missing "@ + "prompt_tokens"@),
        Some(input) => match field_usize(v, "completion_tokens"@) {
            None => Err("usage missing "@ + "completion_tokens"@),
            Some(output) => Ok(
                TokenUsage {
                    input_tokens: input,
                    output_tokens: output,
                    total_tokens: field_usize(v, "total_tokens"@),
                    prompt_cache_hit_tokens: field_usize(v, "prompt_cache_hit_tokens"@),
                    prompt_cache_miss_tokens: field_usize(v, "prompt_cache_miss_tokens"@),
                    reasoning_tokens: match json_field(v, "completion_tokens_details"@) {
                        Some(details) => field_usize(details, "reasoning_tokens"@),
                        None => None,
                    },
                },
            ),
        },
    }
}

/// The optional `usage` member of a reply, decoded.
pub open spec fn optional_usage_outcome(v: serde_json::Value) -> Result<
    Option<TokenUsage>,
    Seq<char>,
> {
    match json_field(v, "usage"@) {
        None => Ok(None),
        Some(u) => match usage_outcome(u) {
            Ok(t) => Ok(Some(t)),
            Err(m) => Err(m),
        },
    }
}

fn invalid_response_error(text: &str) -> (e: AgentError)
    ensures
        invalid_response(e, text@),
{
    AgentError::Provider(ProviderError::InvalidResponse(text.to_owned()))
}

fn invalid_response_chars(text: Vec<char>) -> (e: AgentError)
    ensures
        invalid_response(e, text@),
{
    AgentError::Provider(ProviderError::InvalidResponse(string_of(text.as_slice())))
}

/// `value[field]` as a `usize`, when it is a `u64`.
pub fn optional_usize(value: &serde_json::Value, field: &str) -> (r: Option<usize>)
    ensures
        r == field_usize(*value, field@),
{
    match json_get_u64(value, field) {
        Some(n) => Some(#[verifier::truncate] (n as usize)),
        None => None,
    }
}

/// `value[field]` as a `usize`; an `InvalidResponse("usage missing {field}")` without it.
pub fn required_usize(value: &serde_json::Value, field: &str) -> (r: Result<usize, AgentError>)
    ensures
        r matches Ok(n) ==> field_usize(*value, field@) == Some(n),
        r matches Err(e) ==> field_usize(*value, field@) is None && invalid_response(
            e,
            "usage missing "@ + field@,
        ),
        r is Ok <==> field_usize(*value, field@) is Some,
{
    match optional_usize(value, field) {
        Some(n) => Ok(n),
        None => {
            let mut text = chars_of("usage missing ");
            extend_str(&mut text, field);
            Err(invalid_response_chars(text))
        },
    }
}

/// Decode a `usage` object.
pub fn parse_usage(value: &serde_json::Value) -> (r: Result<TokenUsage, AgentError>)
    ensures
        outcome_holds(r, usage_outcome(*value)),
{
    let input_tokens = match required_usize(value, "prompt_tokens") {
        Ok(n) => n,
        Err(e) => return Err(e),
    };
    let output_tokens = match required_usize(value, "completion_tokens") {
        Ok(n) => n,
        Err(e) => return Err(e),
    };
    let reasoning_tokens = match json_member(value, "completion_tokens_details") {
        Some(details) => optional_usize(&details, "reasoning_tokens"),
        None => None,
    };
    Ok(
        TokenUsage {
            input_tokens,
            output_tokens,
            total_tokens: optional_usize(value, "total_tokens"),
            prompt_cache_hit_tokens: optional_usize(value, "prompt_cache_hit_tokens"),
            prompt_cache_miss_tokens: optional_usize(value, "prompt_cache_miss_tokens"),
            reasoning_tokens,
        },
    )
}

fn parse_optional_usage(value: &serde_json::Value) -> (r: Result<Option<TokenUsage>, AgentError>)
    ensures
        outcome_holds(r, optional_usage_outcome(*value)),
{
    match json_member(value, "usage") {
        None => Ok(None),
        Some(u) => match parse_usage(&u) {
            Ok(t) => Ok(Some(t)),
            Err(e) => Err(e),
        },
    }
}

// ---------------------------------------------------------------------------
// Stop reason
// ---------------------------------------------------------------------------

/// `ToolUse` for a `finish_reason` of `"tool_calls"`, else `EndTurn`.
pub open spec fn stop_reason_of(v: Option<serde_json::Value>) -> StopReason {
    match v {
        Some(x) => if json_str(x) == Some("tool_calls"@) {
            StopReason::ToolUse
        } else {
            StopReason::EndTurn
        },
        None => StopReason::EndTurn,
    }
}

/// Map a `finish_reason` to a stop reason.
pub fn parse_stop_reason(value: Option<&serde_json::Value>) -> (r: StopReason)
    ensures
        r == stop_reason_of(
            match value {
                Some(x) => Some(*x),
                None => None,
            },
        ),
{
    match value {
        Some(x) => match crate::json::json_as_str(x) {
            Some(s) => {
                let text = chars_of(s.as_str());
                let tool_calls = chars_of("tool_calls");
                if seq_eq(text.as_slice(), tool_calls.as_slice()) {
                    StopReason::ToolUse
                } else {
                    StopReason::EndTurn
                }
            },
            None => StopReason::EndTurn,
        },
        None => StopReason::EndTurn,
    }
}

// ---------------------------------------------------------------------------
// Assistant messages and tool calls
// ---------------------------------------------------------------------------

/// The string `v[key]`, unless absent or empty.
pub open spec fn nonempty_str(v: serde_json::Value, key: Seq<char>) -> Option<Seq<char>> {
    match json_string_field(v, key) {
        Some(s) => if s.len() > 0 {
            Some(s)
        } else {
            None
        },
        None => None,
    }
}

/// The string in `o`, or `d` without one.
pub open spec fn str_or(o: Option<Seq<char>>, d: Seq<char>) -> Seq<char> {
    match o {
        Some(s) => s,
        None => d,
    }
}

/// A decoded tool call: its id, its function's name and its parsed arguments.
pub type CallParts = (Seq<char>, Seq<char>, serde_json::Value);

/// What a `tool_calls` item decodes to. The id and name default to empty,
/// the arguments text to `{}`; the arguments text must parse as JSON.
pub open spec fn tool_call_outcome(call: serde_json::Value) -> Result<CallParts, Seq<char>> {
    match json_field(call, "function"@) {
        None => Err("tool call missing function"@),
        Some(f) => {
            let text = str_or(json_string_field(f, "arguments"@), "{}"@);
            match json_parsed(text) {
                Some(args) => Ok(
                    (
                        str_or(json_string_field(call, "id"@), seq![]),
                        str_or(json_string_field(f, "name"@), seq![]),
                        args,
                    ),
                ),
                None => Err("invalid tool arguments: "@ + json_parse_error_text(text)),
            }
        },
    }
}

/// `b` is the tool-call block for `t`.
pub open spec fn call_block_is(b: ContentBlock, t: CallParts) -> bool {
    b matches ContentBlock::ToolCall(c) && c.id@ == t.0 && c.name@ == t.1 && c.arguments == t.2
}

/// A decoded assistant message: its reasoning, its text and its tool calls.
pub type AssistantParts = (Option<Seq<char>>, Option<Seq<char>>, Seq<CallParts>);

/// The items of `v[key]` when it is an array, else none.
pub open spec fn array_field(v: serde_json::Value, key: Seq<char>) -> Seq<serde_json::Value> {
    match json_field(v, key) {
        Some(t) => match json_array(t) {
            Some(items) => items,
            None => seq![],
        },
        None => seq![],
    }
}

/// What an assistant `message` object decodes to: a thinking block for
/// non-empty `reasoning_content`, a text block for non-empty `content`, then
/// one block per `tool_calls` item, failing with the first bad call.
pub open spec fn assistant_outcome(m: serde_json::Value) -> Result<AssistantParts, Seq<char>> {
    match collect_outcomes(array_field(m, "tool_calls"@), |c: serde_json::Value| tool_call_outcome(c)) {
        Err(e) => Err(e),
        Ok(calls) => Ok((nonempty_str(m, "reasoning_content"@), nonempty_str(m, "content"@), calls)),
    }
}

/// How many blocks come before the tool calls.
pub open spec fn lead_blocks(p: AssistantParts) -> int {
    (if p.0 is Some { 1int } else { 0int }) + (if p.1 is Some { 1int } else { 0int })
}

/// `msg` is the assistant message that `p` describes.
pub open spec fn message_matches(msg: Message, p: AssistantParts) -> bool {
    let lead = lead_blocks(p);
    &&& msg.role == Role::Assistant
    &&& msg.blocks@.len() == lead + p.2.len()
    &&& p.0 matches Some(t) ==> msg.blocks@[0] matches ContentBlock::Thinking(b) && b.text@ == t
        && b.signature is None && !b.is_redacted
    &&& p.1 matches Some(t) ==> msg.blocks@[lead - 1] matches ContentBlock::Text(b) && b.text@ == t
    &&& forall|j: int| 0 <= j < p.2.len() ==> #[trigger] call_block_is(msg.blocks@[lead + j], p.2[j])
}

/// Decode one entry of `tool_calls`.
pub fn parse_tool_call(call: &serde_json::Value) -> (r: Result<ToolCall, AgentError>)
    ensures
        match (r, tool_call_outcome(*call)) {
            (Ok(c), Ok(t)) => c.id@ == t.0 && c.name@ == t.1 && c.arguments == t.2,
            (Err(e), Err(m)) => invalid_response(e, m),
            _ => false,
        },
{
    proof {
        reveal_strlit("");
    }
    let id = match json_get_str(call, "id") {
        Some(s) => s,
        None => "".to_owned(),
    };
    let function = match json_member(call, "function") {
        Some(f) => f,
        None => return Err(invalid_response_error("tool call missing function")),
    };
    let name = match json_get_str(&function, "name") {
        Some(s) => s,
        None => "".to_owned(),
    };
    let arguments_text = match json_get_str(&function, "arguments") {
        Some(s) => s,
        None => "{}".to_owned(),
    };
    match json_from_str(arguments_text.as_str()) {
        Ok(arguments) => Ok(ToolCall { id, name, arguments }),
        Err(error) => {
            let mut text = chars_of("invalid tool arguments: ");
            extend_str(&mut text, error.as_str());
            Err(invalid_response_chars(text))
        },
    }
}

fn nonempty_member(v: &serde_json::Value, key: &str) -> (r: Option<String>)
    ensures
        opt_view(r) == nonempty_str(*v, key@),
{
    match json_get_str(v, key) {
        Some(s) => if s.as_str().is_empty() {
            None
        } else {
            Some(s)
        },
        None => None,
    }
}

fn array_member(v: &serde_json::Value, key: &str) -> (r: Vec<serde_json::Value>)
    ensures
        r@ == array_field(*v, key@),
{
    match json_member(v, key) {
        Some(t) => match json_as_array(&t) {
            Some(items) => items,
            None => Vec::new(),
        },
        None => Vec::new(),
    }
}

/// Decode an assistant `message` object into a message.
pub fn parse_assistant_message(message_value: &serde_json::Value) -> (r: Result<Message, AgentError>)
    ensures
        match (r, assistant_outcome(*message_value)) {
            (Ok(msg), Ok(p)) => message_matches(msg, p),
            (Err(e), Err(m)) => invalid_response(e, m),
            _ => false,
        },
{
    let ghost f = |c: serde_json::Value| tool_call_outcome(c);
    let mut blocks: Vec<ContentBlock> = Vec::new();
    let reasoning = nonempty_member(message_value, "reasoning_content");
    let content = nonempty_member(message_value, "content");
    let ghost thinking_view = opt_view(reasoning);
    let ghost text_view = opt_view(content);
    if let Some(text) = reasoning {
        blocks.push(
            ContentBlock::Thinking(ThinkingBlock { text, signature: None, is_redacted: false }),
        );
    }
    if let Some(text) = content {
        blocks.push(ContentBlock::Text(TextBlock { text }));
    }
    let lead = blocks.len();
    let ghost first = blocks@;
    let calls = array_member(message_value, "tool_calls");
    let mut i: usize = 0;
    while i < calls.len()
        invariant
            0 <= i <= calls.len(),
            calls@ == array_field(*message_value, "tool_calls"@),
            f == (|c: serde_json::Value| tool_call_outcome(c)),
            thinking_view == nonempty_str(*message_value, "reasoning_content"@),
            text_view == nonempty_str(*message_value, "content"@),
            lead == (if thinking_view is Some { 1int } else { 0int }) + (if text_view is Some {
                1int
            } else {
                0int
            }),
            blocks@.len() == lead + i,
            forall|j: int| 0 <= j < lead ==> blocks@[j] == first[j],
            thinking_view matches Some(t) ==> first[0] matches ContentBlock::Thinking(b) && b.text@
                == t && b.signature is None && !b.is_redacted,
            text_view matches Some(t) ==> first[lead - 1] matches ContentBlock::Text(b) && b.text@
                == t,
            collect_outcomes(calls@.take(i as int), f) is Ok,
            collect_outcomes(calls@.take(i as int), f)->Ok_0.len() == i,
            first.len() == lead,
            forall|j: int|
                0 <= j < i ==> #[trigger] call_block_is(
                    blocks@[lead + j],
                    collect_outcomes(calls@.take(i as int), f)->Ok_0[j],
                ),
        decreases calls.len() - i,
    {
        proof {
            lemma_collect_step(calls@, f, i as int);
            lemma_collect_len(calls@.take(i as int), f);
            lemma_collect_len(calls@.take(i + 1), f);
        }
        let ghost item = calls@[i as int];
        assert(f(item) == tool_call_outcome(item));
        match parse_tool_call(&calls[i]) {
            Ok(call) => {
                blocks.push(ContentBlock::ToolCall(call));
            },
            Err(e) => {
                proof {
                    lemma_collect_err_prefix(calls@, f, i + 1);
                }
                return Err(e);
            },
        }
        i = i + 1;
        proof {
            let prev = collect_outcomes(calls@.take(i - 1), f)->Ok_0;
            let now = collect_outcomes(calls@.take(i as int), f)->Ok_0;
            assert(now == prev.push(tool_call_outcome(item)->Ok_0));
            assert forall|j: int| 0 <= j < i implies #[trigger] call_block_is(
                blocks@[lead + j],
                now[j],
            ) by {
                if j < i - 1 {
                    assert(now[j] == prev[j]);
                    assert(call_block_is(blocks@[lead + j], prev[j]));
                }
            }
        }
    }
    proof {
        assert(calls@.take(calls@.len() as int) =~= calls@);
    }
    Ok(Message { role: Role::Assistant, blocks })
}

// ---------------------------------------------------------------------------
// Chat completions
// ---------------------------------------------------------------------------

/// The first item of the `choices` array, if there is one.
pub open spec fn first_choice(v: serde_json::Value) -> Option<serde_json::Value> {
    let items = array_field(v, "choices"@);
    if json_field(v, "choices"@) matches Some(c) && json_array(c) is Some && items.len() > 0 {
        Some(items[0])
    } else {
        None
    }
}

/// A decoded chat reply: the message, stop reason, usage and model.
pub type ChatParts = (AssistantParts, StopReason, Option<TokenUsage>, Option<Seq<char>>);

/// What a chat-completion reply decodes to. It fails, in this order, without
/// a first choice, without that choice's `message`, on a message that does
/// not decode, and on a `usage` object that does not decode.
pub open spec fn chat_outcome(v: serde_json::Value) -> Result<ChatParts, Seq<char>> {
    match first_choice(v) {
        None => Err("provider response missing choice"@),
        Some(choice) => match json_field(choice, "message"@) {
            None => Err("provider response missing message"@),
            Some(m) => match assistant_outcome(m) {
                Err(e) => Err(e),
                Ok(parts) => match optional_usage_outcome(v) {
                    Err(e) => Err(e),
                    Ok(usage) => Ok(
                        (
                            parts,
                            stop_reason_of(json_field(choice, "finish_reason"@)),
                            usage,
                            json_string_field(v, "model"@),
                        ),
                    ),
                },
            },
        },
    }
}

/// Decode a chat-completion reply.
pub fn parse_chat_response(value: serde_json::Value) -> (r: Result<CompletionResponse, AgentError>)
    ensures
        match (r, chat_outcome(value)) {
            (Ok(resp), Ok(p)) => {
                &&& message_matches(resp.message, p.0)
                &&& resp.stop_reason == p.1
                &&& resp.usage == p.2
                &&& opt_view(resp.model) == p.3
            },
            (Err(e), Err(m)) => invalid_response(e, m),
            _ => false,
        },
{
    let choices = json_member(&value, "choices");
    let items = match &choices {
        Some(c) => crate::json::json_as_array(c),
        None => None,
    };
    let choice = match items {
        Some(list) => if list.len() > 0 {
            list[0].clone()
        } else {
            return Err(invalid_response_error("provider response missing choice"));
        },
        None => return Err(invalid_response_error("provider response missing choice")),
    };
    let message_value = match json_member(&choice, "message") {
        Some(m) => m,
        None => return Err(invalid_response_error("provider response missing message")),
    };
    let message = match parse_assistant_message(&message_value) {
        Ok(m) => m,
        Err(e) => return Err(e),
    };
    let finish = json_member(&choice, "finish_reason");
    let stop_reason = parse_stop_reason(finish.as_ref());
    let usage = match parse_optional_usage(&value) {
        Ok(u) => u,
        Err(e) => return Err(e),
    };
    Ok(CompletionResponse { message, stop_reason, usage, model: json_get_str(&value, "model") })
}

// ---------------------------------------------------------------------------
// Fill-in-the-middle completions
// ---------------------------------------------------------------------------

/// A decoded FIM choice: index, text, finish reason and non-null logprobs.
pub type FimChoiceParts = (usize, Seq<char>, Option<Seq<char>>, Option<serde_json::Value>);

/// What a FIM `choices` item decodes to; it must carry a `text` string.
pub open spec fn fim_choice_outcome(v: serde_json::Value) -> Result<FimChoiceParts, Seq<char>> {
    match json_string_field(v, "text"@) {
        None => Err("FIM choice missing text"@),
        Some(t) => Ok(
            (
                match json_u64_field(v, "index"@) {
                    Some(n) => n as usize,
                    None => 0usize,
                },
                t,
                json_string_field(v, "finish_reason"@),
                match json_field(v, "logprobs"@) {
                    Some(l) => if json_is_null_value(l) {
                        None
                    } else {
                        Some(l)
                    },
                    None => None,
                },
            ),
        ),
    }
}

/// `c` is the choice that `p` describes.
pub open spec fn fim_choice_is(c: DeepSeekFimChoice, p: FimChoiceParts) -> bool {
    c.index == p.0 && c.text@ == p.1 && opt_view(c.finish_reason) == p.2 && c.logprobs == p.3
}

/// A decoded FIM reply: id, object, created, model, choices and usage.
pub type FimParts = (
    Option<Seq<char>>,
    Option<Seq<char>>,
    Option<u64>,
    Option<Seq<char>>,
    Seq<FimChoiceParts>,
    Option<TokenUsage>,
);

/// What a FIM reply decodes to. It fails without a `choices` array, on the
/// first choice that does not decode, then on a bad `usage` object.
pub open spec fn fim_outcome(v: serde_json::Value) -> Result<FimParts, Seq<char>> {
    if json_field(v, "choices"@) matches Some(c) && json_array(c) is Some {
        match collect_outcomes(array_field(v, "choices"@), |x: serde_json::Value| fim_choice_outcome(x)) {
            Err(e) => Err(e),
            Ok(choices) => match optional_usage_outcome(v) {
                Err(e) => Err(e),
                Ok(usage) => Ok(
                    (
                        json_string_field(v, "id"@),
                        json_string_field(v, "object"@),
                        json_u64_field(v, "created"@),
                        json_string_field(v, "model"@),
                        choices,
                        usage,
                    ),
                ),
            },
        }
    } else {
        Err("FIM response missing choices"@)
    }
}

/// Decode one FIM choice.
pub fn parse_fim_choice(value: &serde_json::Value) -> (r: Result<DeepSeekFimChoice, AgentError>)
    ensures
        match (r, fim_choice_outcome(*value)) {
            (Ok(c), Ok(p)) => fim_choice_is(c, p),
            (Err(e), Err(m)) => invalid_response(e, m),
            _ => false,
        },
{
    let text = match json_get_str(value, "text") {
        Some(t) => t,
        None => return Err(invalid_response_error("FIM choice missing text")),
    };
    let index = match json_get_u64(value, "index") {
        Some(n) => #[verifier::truncate] (n as usize),
        None => 0,
    };
    let logprobs = match json_member(value, "logprobs") {
        Some(l) => if json_is_null(&l) {
            None
        } else {
            Some(l)
        },
        None => None,
    };
    Ok(
        DeepSeekFimChoice {
            index,
            text,
            finish_reason: json_get_str(value, "finish_reason"),
            logprobs,
        },
    )
}

/// Decode a fill-in-the-middle reply.
pub fn parse_fim_response(value: serde_json::Value) -> (r: Result<DeepSeekFimResponse, AgentError>)
    ensures
        match (r, fim_outcome(value)) {
            (Ok(resp), Ok(p)) => {
                &&& opt_view(resp.id) == p.0
                &&& opt_view(resp.object) == p.1
                &&& resp.created == p.2
                &&& opt_view(resp.model) == p.3
                &&& resp.choices@.len() == p.4.len()
                &&& forall|i: int| 0 <= i < p.4.len() ==> #[trigger] fim_choice_is(resp.choices@[i], p.4[i])
                &&& resp.usage == p.5
            },
            (Err(e), Err(m)) => invalid_response(e, m),
            _ => false,
        },
{
    let ghost f = |x: serde_json::Value| fim_choice_outcome(x);
    let items = match json_member(&value, "choices") {
        Some(c) => crate::json::json_as_array(&c),
        None => None,
    };
    let items = match items {
        Some(list) => list,
        None => return Err(invalid_response_error("FIM response missing choices")),
    };
    assert(items@ == array_field(value, "choices"@));
    let mut choices: Vec<DeepSeekFimChoice> = Vec::new();
    let mut i: usize = 0;
    while i < items.len()
        invariant
            0 <= i <= items.len(),
            items@ == array_field(value, "choices"@),
            f == (|x: serde_json::Value| fim_choice_outcome(x)),
            collect_outcomes(items@.take(i as int), f) is Ok,
            collect_outcomes(items@.take(i as int), f)->Ok_0.len() == i,
            choices@.len() == i,
            forall|j: int|
                0 <= j < i ==> #[trigger] fim_choice_is(
                    choices@[j],
                    collect_outcomes(items@.take(i as int), f)->Ok_0[j],
                ),
        decreases items.len() - i,
    {
        proof {
            lemma_collect_step(items@, f, i as int);
            lemma_collect_len(items@.take(i as int), f);
            lemma_collect_len(items@.take(i + 1), f);
        }
        let ghost item = items@[i as int];
        assert(f(item) == fim_choice_outcome(item));
        match parse_fim_choice(&items[i]) {
            Ok(c) => {
                choices.push(c);
            },
            Err(e) => {
                proof {
                    lemma_collect_err_prefix(items@, f, i + 1);
                }
                return Err(e);
            },
        }
        i = i + 1;
        proof {
            let prev = collect_outcomes(items@.take(i - 1), f)->Ok_0;
            let now = collect_outcomes(items@.take(i as int), f)->Ok_0;
            assert(now == prev.push(fim_choice_outcome(item)->Ok_0));
            assert forall|j: int| 0 <= j < i implies #[trigger] fim_choice_is(choices@[j], now[j]) by {
                if j < i - 1 {
                    assert(now[j] == prev[j]);
                }
            }
        }
    }
    proof {
        assert(items@.take(items@.len() as int) =~= items@);
    }
    let usage = match parse_optional_usage(&value) {
        Ok(u) => u,
        Err(e) => return Err(e),
    };
    Ok(
        DeepSeekFimResponse {
            id: json_get_str(&value, "id"),
            object: json_get_str(&value, "object"),
            created: json_get_u64(&value, "created"),
            model: json_get_str(&value, "model"),
            choices,
            usage,
        },
    )
}

} // verus!
