//! Model providers: their configuration, the DeepSeek wire types, and token
//! counting with the `cl100k_base` tokenizer.
use vstd::prelude::*;

use crate::message::Message;
use crate::text::{chars_of, string_of};
use vstd::utf8::encode_utf8;

verus! {

/// Which provider backs a session.
#[derive(Debug, Clone, Copy, PartialEq, Eq, Structural)]
pub enum ProviderKind {
    Deepseek,
    Mock,
}

/// Options shared by the front ends that start a session.
#[derive(Debug, Clone)]
pub struct SharedOptions {
    pub provider: Option<ProviderKind>,
    pub model: Option<String>,
    pub thinking_model: Option<String>,
    pub fast_model: Option<String>,
    pub api_key: Option<String>,
    pub cwd: Option<String>,
    pub max_iterations: Option<usize>,
    pub no_validate_schema: bool,
}

impl Default for SharedOptions {
    fn default() -> (r: Self)
        ensures
            r.provider is None,
            r.model is None,
            r.thinking_model is None,
            r.fast_model is None,
            r.api_key is None,
            r.cwd is None,
            r.max_iterations is None,
            !r.no_validate_schema,
    {
        SharedOptions {
            provider: None,
            model: None,
            thinking_model: None,
            fast_model: None,
            api_key: None,
            cwd: None,
            max_iterations: None,
            no_validate_schema: false,
        }
    }
}

/// A resolved provider choice.
#[derive(Debug, Clone)]
pub struct ProviderSetup {
    pub provider: ProviderKind,
    pub api_key: String,
    pub thinking_model: String,
    pub fast_model: String,
}

/// Why the model stopped producing output.
#[derive(Debug, Clone, Copy, PartialEq, Eq, Structural)]
pub enum StopReason {
    /// The model finished its turn.
    EndTurn,
    /// The model asked for one or more tools to be run.
    ToolUse,
}

/// Token accounting reported by a provider for one completion.
#[derive(Debug, Clone, Copy, PartialEq, Eq, Structural)]
pub struct TokenUsage {
    pub input_tokens: usize,
    pub output_tokens: usize,
    pub total_tokens: Option<usize>,
    pub prompt_cache_hit_tokens: Option<usize>,
    pub prompt_cache_miss_tokens: Option<usize>,
    pub reasoning_tokens: Option<usize>,
}

/// One assistant reply together with its stop reason, usage and model.
#[derive(Debug, Clone, PartialEq)]
pub struct CompletionResponse {
    pub message: Message,
    pub stop_reason: StopReason,
    pub usage: Option<TokenUsage>,
    pub model: Option<String>,
}

/// Configuration of the DeepSeek provider.
#[derive(Clone)]
pub struct DeepSeekConfig {
    pub api_key: String,
    pub model: String,
    /// Base URL — override to talk to a DeepSeek-compatible service.
    pub base_url: String,
}

impl DeepSeekConfig {
    /// A config from an explicit API key and model, against the public API.
    pub fn new(api_key: &str, model: &str) -> (r: Self)
        ensures
            r.api_key@ == api_key@,
            r.model@ == model@,
            r.base_url@ == "https://api.deepseek.com"@,
    {
        DeepSeekConfig {
            api_key: string_of(chars_of(api_key).as_slice()),
            model: string_of(chars_of(model).as_slice()),
            base_url: string_of(chars_of("https://api.deepseek.com").as_slice()),
        }
    }
}

#[derive(Debug, Clone, Copy, PartialEq, Eq, Structural)]
pub enum DeepSeekResponseFormat {
    JsonObject,
}

/// DeepSeek chat-completion options beyond the generic provider interface.
#[derive(Debug, Clone, PartialEq, Eq)]
pub struct DeepSeekChatOptions {
    pub response_format: Option<DeepSeekResponseFormat>,
    /// Assistant prefix used by DeepSeek beta prefix completion.
    pub prefix: Option<String>,
    /// Optional stop sequences forwarded to chat completions.
    pub stop: Option<Vec<String>>,
}

impl Default for DeepSeekChatOptions {
    fn default() -> (r: Self)
        ensures
            r.response_format is None,
            r.prefix is None,
            r.stop is None,
    {
        DeepSeekChatOptions { response_format: None, prefix: None, stop: None }
    }
}

#[derive(Debug, Clone, PartialEq, Eq)]
pub struct DeepSeekModelList {
    pub object: Option<String>,
    pub data: Vec<DeepSeekModel>,
}

#[derive(Debug, Clone, PartialEq, Eq)]
pub struct DeepSeekModel {
    pub id: String,
    pub object: Option<String>,
    pub owned_by: Option<String>,
}

#[derive(Debug, Clone, PartialEq, Eq)]
pub struct DeepSeekBalance {
    pub is_available: bool,
    pub balance_infos: Vec<DeepSeekBalanceInfo>,
}

#[derive(Debug, Clone, PartialEq, Eq)]
pub struct DeepSeekBalanceInfo {
    pub currency: String,
    pub total_balance: String,
    pub granted_balance: String,
    pub topped_up_balance: String,
}

/// One choice of a DeepSeek fill-in-the-middle completion.
#[derive(Debug, Clone, PartialEq)]
pub struct DeepSeekFimChoice {
    pub index: usize,
    pub text: String,
    pub finish_reason: Option<String>,
    pub logprobs: Option<serde_json::Value>,
}

/// A DeepSeek fill-in-the-middle completion.
#[derive(Debug, Clone, PartialEq)]
pub struct DeepSeekFimResponse {
    pub id: Option<String>,
    pub object: Option<String>,
    pub created: Option<u64>,
    pub model: Option<String>,
    pub choices: Vec<DeepSeekFimChoice>,
    pub usage: Option<TokenUsage>,
}

// ---------------------------------------------------------------------------
// Token counting
// ---------------------------------------------------------------------------

/// The number of tokens the `cl100k_base` tokenizer splits `text` into, or
/// `None` where the tokenizer's vocabulary does not load.
pub uninterp spec fn cl100k_token_count(text: Seq<char>) -> Option<usize>;

/// The length of the run of whitespace characters that starts at `i`.
pub open spec fn white_run(text: Seq<char>, i: int) -> nat
    decreases text.len() - i,
{
    if 0 <= i < text.len() && crate::text::is_white(text[i]) {
        1 + white_run(text, i + 1)
    } else {
        0
    }
}

/// The longest run of whitespace the tokenizer is handed: its regex engine
/// keeps a backtracking stack of at most a million entries and takes one
/// for each character of a run of whitespace that `\s+(?!\S)` consumes.
pub const TOKENIZER_WHITE_RUN_LIMIT: usize = 900_000;

/// Every run of whitespace in `text` is shorter than the tokenizer's limit.
pub open spec fn white_runs_fit(text: Seq<char>) -> bool {
    forall|i: int| 0 <= i < text.len() ==> #[trigger] white_run(text, i) < TOKENIZER_WHITE_RUN_LIMIT
}

/// `tiktoken_rs::cl100k_base_singleton()` (the tokenizer, built once from
/// the vocabulary compiled into the crate, which always loads) then
/// `CoreBPE::encode_ordinary(text).len()`. The count is named, not stated:
/// it is what the tokenizer computes from `text` alone. Every character of a
/// nonempty text starts a match of the tokenizer's pattern and every match
/// gives at least one token, so such a text counts at least one. The
/// tokenizer unwraps each regex match, and the regex engine fails once its
/// stack is full, so texts with a longer run of whitespace are left out.
#[verifier::external_body]
fn cl100k_count(text: &str) -> (r: Option<usize>)
    requires
        white_runs_fit(text@),
    ensures
        r == cl100k_token_count(text@),
        r matches Some(n) ==> (n > 0 <==> text@.len() > 0),
{
    Some(tiktoken_rs::cl100k_base_singleton().encode_ordinary(text).len())
}

/// How many tokens `text` counts as: 0 for empty text, the `cl100k_base`
/// count where the tokenizer loads, else a quarter of its UTF-8 length,
/// rounded up.
pub open spec fn token_count(text: Seq<char>) -> nat {
    if text.len() == 0 {
        0
    } else {
        match cl100k_token_count(text) {
            Some(n) => n as nat,
            None => ((encode_utf8(text).len() + 3) / 4) as nat,
        }
    }
}

/// Count tokens in `text` using the `cl100k_base` tokenizer.
pub fn count_tokens(text: &str) -> (r: usize)
    requires
        white_runs_fit(text@),
    ensures
        r == token_count(text@),
        r == 0 <==> text@.len() == 0,
{
    if text.is_empty() {
        return 0;
    }
    match cl100k_count(text) {
        Some(n) => n,
        None => {
            let len = text.as_bytes().len();
            assert(len as int == encode_utf8(text@).len());
            assert(len / 4 + (if len % 4 == 0 { 0int } else { 1int }) == (len + 3) / 4) by (nonlinear_arith);
            len / 4 + if len % 4 == 0 {
                0
            } else {
                1
            }
        },
    }
}

} // verus!
