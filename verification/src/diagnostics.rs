//! Structured diagnostics for tool execution failures.
//!
//! Failed tool calls are summarized and scrubbed of paths, environment values,
//! URL queries, e-mail addresses and secret-looking tokens before they are
//! persisted.
use vstd::prelude::*;

use crate::json::{json_get_str, json_string_field, json_text, json_to_text};
use crate::text::{
    ascii_lower, ascii_lower_exec, chars_of, contains, contains_char_exec, contains_exec,
    extend_chars, extend_str, find, find_char, find_exec, i32_text, int_text, is_ascii_alnum,
    is_ascii_alnum_exec, is_white, is_white_exec, join, join_exec, lead_len, lemma_lead_len,
    lemma_lead_len_step, lemma_trail_len, lemma_trail_len_step, parse_i32, parse_i32_exec,
    replace_all, replace_all_exec, seq_eq, slice_chars, split_words, starts_with,
    starts_with_str, string_of, trail_len, trim, trim_by, trim_chars, trim_chars_exec, trim_exec,
    words,
};

verus! {

/// Normalized classes for failures produced by the tool executor.
#[derive(Debug, Clone, Copy, PartialEq, Eq, Structural)]
pub enum ToolFailureKind {
    ValidationError,
    PermissionDenied,
    PermissionRequired,
    PermissionError,
    ToolNotFound,
    ExecutionError,
    ExecutionPanic,
}

/// The snake_case name of a failure kind.
pub open spec fn kind_name(k: ToolFailureKind) -> Seq<char> {
    match k {
        ToolFailureKind::ValidationError => "validation_error"@,
        ToolFailureKind::PermissionDenied => "permission_denied"@,
        ToolFailureKind::PermissionRequired => "permission_required"@,
        ToolFailureKind::PermissionError => "permission_error"@,
        ToolFailureKind::ToolNotFound => "tool_not_found"@,
        ToolFailureKind::ExecutionError => "execution_error"@,
        ToolFailureKind::ExecutionPanic => "execution_panic"@,
    }
}

/// Distinct failure kinds have distinct names.
pub proof fn law_kind_names_distinct(a: ToolFailureKind, b: ToolFailureKind)
    requires
        kind_name(a) == kind_name(b),
    ensures
        a == b,
{
    reveal_strlit("validation_error");
    reveal_strlit("permission_denied");
    reveal_strlit("permission_required");
    reveal_strlit("permission_error");
    reveal_strlit("tool_not_found");
    reveal_strlit("execution_error");
    reveal_strlit("execution_panic");
    assert("validation_error"@[0] != "permission_error"@[0]);
    assert("execution_error"@[10] != "execution_panic"@[10]);
    if a != b {
        assert(kind_name(a).len() == kind_name(b).len());
        if kind_name(a).len() == 16 {
            assert(kind_name(a)[0] == kind_name(b)[0]);
        } else if kind_name(a).len() == 15 {
            assert(kind_name(a)[10] == kind_name(b)[10]);
        }
    }
}

impl ToolFailureKind {
    pub fn as_str(self) -> (r: &'static str)
        ensures
            r@ == kind_name(self),
    {
        match self {
            ToolFailureKind::ValidationError => "validation_error",
            ToolFailureKind::PermissionDenied => "permission_denied",
            ToolFailureKind::PermissionRequired => "permission_required",
            ToolFailureKind::PermissionError => "permission_error",
            ToolFailureKind::ToolNotFound => "tool_not_found",
            ToolFailureKind::ExecutionError => "execution_error",
            ToolFailureKind::ExecutionPanic => "execution_panic",
        }
    }
}

/// Sanitized failure details safe to persist locally and summarize externally.
#[derive(Debug, Clone, PartialEq, Eq)]
pub struct SanitizedToolFailure {
    pub argument_summary: String,
    pub error_summary: String,
    pub exit_code: Option<i32>,
}

/// A structured, sanitized record for one failed tool invocation.
#[derive(Debug, Clone, PartialEq, Eq)]
pub struct ToolFailureEvent {
    pub timestamp_unix_secs: u64,
    pub session_id: String,
    pub turn_id: u64,
    pub tool_call_id: String,
    pub tool_name: String,
    pub failure_kind: ToolFailureKind,
    pub argument_summary: String,
    pub error_summary: String,
    pub exit_code: Option<i32>,
    pub signature: String,
}

/// Text before the first line break (the first item of `str::lines`, before trimming).
pub open spec fn leading_line(s: Seq<char>) -> Seq<char> {
    match find_char(s, '\n') {
        Some(i) => s.take(i),
        None => s,
    }
}

/// The stable signature used to group identical failures.
pub open spec fn failure_signature(
    tool_name: Seq<char>,
    kind: ToolFailureKind,
    argument_summary: Seq<char>,
    error_summary: Seq<char>,
    exit_code: Option<i32>,
    max_error_chars: nat,
) -> Seq<char> {
    let exit = match exit_code {
        Some(code) => ":exit="@ + int_text(code as int),
        None => seq![],
    };
    tool_name + ":"@ + kind_name(kind) + exit + ":"@ + argument_summary + ":"@ + trim_chars(
        trim(leading_line(error_summary)),
        max_error_chars,
    )
}

fn leading_line_exec(s: &[char]) -> (r: Vec<char>)
    ensures
        r@ == leading_line(s@),
{
    let nl: Vec<char> = vec!['\n'];
    assert(nl@ =~= seq!['\n']);
    match find_exec(s, nl.as_slice()) {
        Some(i) => {
            proof {
                crate::text::lemma_find_contains(s@, nl@);
            }
            slice_chars(s, 0, i)
        },
        None => {
            let r = slice_chars(s, 0, s.len());
            assert(r@ =~= s@);
            r
        },
    }
}

/// Builds the signature string.
fn signature_for(
    tool_name: &str,
    failure_kind: ToolFailureKind,
    argument_summary: &str,
    failure: &SanitizedToolFailure,
    max_error_chars: usize,
) -> (r: String)
    ensures
        r@ == failure_signature(
            tool_name@,
            failure_kind,
            argument_summary@,
            failure.error_summary@,
            failure.exit_code,
            max_error_chars as nat,
        ),
{
    let mut out: Vec<char> = Vec::new();
    extend_str(&mut out, tool_name);
    extend_str(&mut out, ":");
    extend_str(&mut out, failure_kind.as_str());
    match failure.exit_code {
        Some(code) => {
            extend_str(&mut out, ":exit=");
            let t = i32_text(code);
            extend_chars(&mut out, t.as_slice());
        },
        None => {},
    }
    extend_str(&mut out, ":");
    extend_str(&mut out, argument_summary);
    extend_str(&mut out, ":");
    let err = chars_of(failure.error_summary.as_str());
    let line = leading_line_exec(err.as_slice());
    let lt = trim_exec(line.as_slice());
    let tail = trim_chars_exec(lt.as_slice(), max_error_chars);
    extend_chars(&mut out, tail.as_slice());
    proof {
        let exit = match failure.exit_code {
            Some(code) => ":exit="@ + int_text(code as int),
            None => Seq::<char>::empty(),
        };
        assert(out@ =~= tool_name@ + ":"@ + kind_name(failure_kind) + exit + ":"@
            + argument_summary@ + ":"@ + trim_chars(
            trim(leading_line(failure.error_summary@)),
            max_error_chars as nat,
        ));
    }
    string_of(out.as_slice())
}

/// `std::time::SystemTime`, carried opaquely.
#[verifier::external_type_specification]
#[verifier::external_body]
pub struct ExSystemTime(std::time::SystemTime);

/// `SystemTime::now()`: the system clock's reading, which depends on the
/// time of the call, so nothing is stated about it.
#[verifier::external_body]
fn system_now() -> std::time::SystemTime {
    std::time::SystemTime::now()
}

/// `SystemTime::duration_since(UNIX_EPOCH)`, `None` for a time before the
/// epoch. Nothing is stated about the duration.
#[verifier::external_body]
fn since_unix_epoch(t: &std::time::SystemTime) -> Option<std::time::Duration> {
    t.duration_since(std::time::UNIX_EPOCH).ok()
}

/// `Duration::as_secs`: the whole seconds of `d`, which is opaque here, so
/// nothing is stated about them.
#[verifier::external_body]
fn whole_seconds(d: &std::time::Duration) -> u64 {
    d.as_secs()
}

/// Seconds since the Unix epoch from the system clock, or 0 if the clock is
/// before the epoch.
fn unix_timestamp() -> u64 {
    match since_unix_epoch(&system_now()) {
        Some(d) => whole_seconds(&d),
        None => 0,
    }
}

impl ToolFailureEvent {
    /// Build an event stamped with the current time.
    pub fn new(
        session_id: &str,
        turn_id: u64,
        tool_call_id: &str,
        tool_name: &str,
        failure_kind: ToolFailureKind,
        failure: SanitizedToolFailure,
    ) -> (e: Self)
        ensures
            e.session_id@ == session_id@,
            e.turn_id == turn_id,
            e.tool_call_id@ == tool_call_id@,
            e.tool_name@ == tool_name@,
            e.failure_kind == failure_kind,
            e.argument_summary@ == failure.argument_summary@,
            e.error_summary@ == failure.error_summary@,
            e.exit_code == failure.exit_code,
            e.signature@ == failure_signature(
                tool_name@,
                failure_kind,
                failure.argument_summary@,
                failure.error_summary@,
                failure.exit_code,
                240,
            ),
    {
        let now = unix_timestamp();
        Self::at_time(now, session_id, turn_id, tool_call_id, tool_name, failure_kind, failure)
    }

    /// Build an event stamped with `timestamp_unix_secs`.
    pub fn at_time(
        timestamp_unix_secs: u64,
        session_id: &str,
        turn_id: u64,
        tool_call_id: &str,
        tool_name: &str,
        failure_kind: ToolFailureKind,
        failure: SanitizedToolFailure,
    ) -> (e: Self)
        ensures
            e.timestamp_unix_secs == timestamp_unix_secs,
            e.session_id@ == session_id@,
            e.turn_id == turn_id,
            e.tool_call_id@ == tool_call_id@,
            e.tool_name@ == tool_name@,
            e.failure_kind == failure_kind,
            e.argument_summary@ == failure.argument_summary@,
            e.error_summary@ == failure.error_summary@,
            e.exit_code == failure.exit_code,
            e.signature@ == failure_signature(
                tool_name@,
                failure_kind,
                failure.argument_summary@,
                failure.error_summary@,
                failure.exit_code,
                240,
            ),
    {
        let signature = signature_for(
            tool_name,
            failure_kind,
            failure.argument_summary.as_str(),
            &failure,
            240,
        );
        Self {
            timestamp_unix_secs,
            session_id: session_id.to_owned(),
            turn_id,
            tool_call_id: tool_call_id.to_owned(),
            tool_name: tool_name.to_owned(),
            failure_kind,
            argument_summary: failure.argument_summary,
            error_summary: failure.error_summary,
            exit_code: failure.exit_code,
            signature,
        }
    }
}

// ---------------------------------------------------------------------------
// Word-level redaction
// ---------------------------------------------------------------------------

/// Applies `f` to every whitespace-separated word and joins them with single spaces.
pub open spec fn map_words(s: Seq<char>, f: spec_fn(Seq<char>) -> Seq<char>) -> Seq<char> {
    join(words(s).map_values(f), " "@)
}

/// A URL word with its query string replaced.
pub open spec fn strip_query_word(w: Seq<char>) -> Seq<char> {
    if starts_with(w, "http://"@) || starts_with(w, "https://"@) {
        match find_char(w, '?') {
            Some(q) => {
                let tail = w.skip(q);
                let suffix = match find_white(tail) {
                    Some(i) => tail.skip(i),
                    None => seq![],
                };
                w.take(q) + "<QUERY>"@ + suffix
            },
            None => w,
        }
    } else {
        w
    }
}

/// Index of the first space, newline or tab.
pub open spec fn find_white(s: Seq<char>) -> Option<int> {
    if exists|i: int| 0 <= i < s.len() && is_sep(s[i]) {
        Some(choose|i: int| 0 <= i < s.len() && is_sep(s[i]) && forall|j: int| 0 <= j < i ==> !is_sep(s[j]))
    } else {
        None
    }
}

/// The characters the query stripper treats as the end of a URL.
pub open spec fn is_sep(c: char) -> bool {
    c == ' ' || c == '\n' || c == '\t'
}

/// An e-mail-shaped word replaced by a placeholder.
pub open spec fn email_word(w: Seq<char>) -> Seq<char> {
    if w.contains('@') && w.contains('.') {
        "<EMAIL>"@
    } else {
        w
    }
}

/// Characters kept at the edges of a candidate secret token.
pub open spec fn is_token_char(c: char) -> bool {
    is_ascii_alnum(c) || c == '-' || c == '_'
}

/// The word without leading and trailing punctuation.
pub open spec fn token_core(w: Seq<char>) -> Seq<char> {
    trim_by(w, |c: char| !is_token_char(c))
}

/// The token core looks like an API key or bearer token.
pub open spec fn secret_like(t: Seq<char>) -> bool {
    let l = ascii_lower(t);
    starts_with(l, "sk-"@) || starts_with(l, "ghp_"@) || starts_with(l, "github_pat_"@)
        || starts_with(l, "bearer"@)
}

/// A secret-looking word with its token replaced by a placeholder.
pub open spec fn secret_word(w: Seq<char>) -> Seq<char> {
    let t = token_core(w);
    if secret_like(t) {
        replace_all(w, t, "<SECRET>"@)
    } else {
        w
    }
}

pub open spec fn strip_url_queries(s: Seq<char>) -> Seq<char> {
    map_words(s, |w: Seq<char>| strip_query_word(w))
}

pub open spec fn redact_emails(s: Seq<char>) -> Seq<char> {
    map_words(s, |w: Seq<char>| email_word(w))
}

pub open spec fn redact_secret_like_tokens(s: Seq<char>) -> Seq<char> {
    map_words(s, |w: Seq<char>| secret_word(w))
}

fn find_white_exec(s: &[char]) -> (r: Option<usize>)
    ensures
        r matches Some(i) ==> i < s.len() && find_white(s@) == Some(i as int),
        r is None ==> find_white(s@) is None,
{
    let mut i: usize = 0;
    while i < s.len()
        invariant
            i <= s.len(),
            forall|j: int| 0 <= j < i ==> !is_sep(s@[j]),
        decreases s.len() - i,
    {
        let c = s[i];
        if c == ' ' || c == '\n' || c == '\t' {
            proof {
                let k = choose|k: int|
                    0 <= k < s@.len() && is_sep(s@[k]) && forall|j: int|
                        0 <= j < k ==> !is_sep(s@[j]);
                assert(is_sep(s@[i as int]));
                if k < i {
                    assert(!is_sep(s@[k]));
                }
                if k > i {
                    assert(!is_sep(s@[i as int]));
                }
            }
            return Some(i);
        }
        i = i + 1;
    }
    None
}

fn strip_query_word_exec(w: &[char]) -> (r: Vec<char>)
    ensures
        r@ == strip_query_word(w@),
{
    if starts_with_str(w, "http://") || starts_with_str(w, "https://") {
        let qv: Vec<char> = vec!['?'];
        assert(qv@ =~= seq!['?']);
        match find_exec(w, qv.as_slice()) {
            Some(q) => {
                proof {
                    crate::text::lemma_find_contains(w@, qv@);
                }
                let tail = slice_chars(w, q, w.len());
                assert(tail@ =~= w@.skip(q as int));
                let mut out = slice_chars(w, 0, q);
                extend_str(&mut out, "<QUERY>");
                match find_white_exec(tail.as_slice()) {
                    Some(i) => {
                        let suffix = slice_chars(tail.as_slice(), i, tail.len());
                        assert(suffix@ =~= tail@.skip(i as int));
                        extend_chars(&mut out, suffix.as_slice());
                    },
                    None => {
                        assert(out@ + Seq::<char>::empty() =~= out@);
                    },
                }
                out
            },
            None => slice_chars(w, 0, w.len()),
        }
    } else {
        let r = slice_chars(w, 0, w.len());
        assert(r@ =~= w@);
        r
    }
}

fn email_word_exec(w: &[char]) -> (r: Vec<char>)
    ensures
        r@ == email_word(w@),
{
    if contains_char_exec(w, '@') && contains_char_exec(w, '.') {
        let mut r: Vec<char> = Vec::new();
        extend_str(&mut r, "<EMAIL>");
        r
    } else {
        let r = slice_chars(w, 0, w.len());
        assert(r@ =~= w@);
        r
    }
}

fn token_core_exec(w: &[char]) -> (r: Vec<char>)
    ensures
        r@ == token_core(w@),
{
    let ghost f = |c: char| !is_token_char(c);
    let mut a: usize = 0;
    while a < w.len()
        invariant
            a <= w.len(),
            f == (|c: char| !is_token_char(c)),
            forall|j: int| 0 <= j < a ==> f(w@[j]),
        ensures
            a <= w.len(),
            forall|j: int| 0 <= j < a ==> f(w@[j]),
            a < w.len() ==> !f(w@[a as int]),
        decreases w.len() - a,
    {
        let c = w[a];
        if is_ascii_alnum_exec(c) || c == '-' || c == '_' {
            break;
        }
        a = a + 1;
    }
    proof {
        lemma_lead_len_step(w@, f, a as int);
        if a < w.len() {
            assert(w@.skip(a as int)[0] == w@[a as int]);
        }
    }
    let t = slice_chars(w, a, w.len());
    assert(t@ =~= w@.skip(a as int));
    let mut k: usize = 0;
    while k < t.len()
        invariant
            k <= t.len(),
            f == (|c: char| !is_token_char(c)),
            forall|j: int| t.len() - k <= j < t.len() ==> f(t@[j]),
        ensures
            k <= t.len(),
            forall|j: int| t.len() - k <= j < t.len() ==> f(t@[j]),
            k < t.len() ==> !f(t@[t.len() - 1 - k]),
        decreases t.len() - k,
    {
        let c = t[t.len() - 1 - k];
        if is_ascii_alnum_exec(c) || c == '-' || c == '_' {
            break;
        }
        k = k + 1;
    }
    proof {
        lemma_trail_len_step(t@, f, k as int);
        if k < t.len() {
            assert(t@.take(t.len() - k).last() == t@[t.len() - 1 - k]);
        }
    }
    let r = slice_chars(t.as_slice(), 0, t.len() - k);
    assert(r@ =~= t@.take(t.len() - k));
    r
}

fn secret_word_exec(w: &[char]) -> (r: Vec<char>)
    ensures
        r@ == secret_word(w@),
{
    let t = token_core_exec(w);
    let l = ascii_lower_exec(t.as_slice());
    let secret = starts_with_str(l.as_slice(), "sk-") || starts_with_str(l.as_slice(), "ghp_")
        || starts_with_str(l.as_slice(), "github_pat_") || starts_with_str(
        l.as_slice(),
        "bearer",
    );
    if secret {
        proof {
            reveal_strlit("sk-");
            reveal_strlit("ghp_");
            reveal_strlit("github_pat_");
            reveal_strlit("bearer");
            assert(l@.len() > 0);
            assert(l@.len() == t@.len());
        }
        let sv = chars_of("<SECRET>");
        replace_all_exec(w, t.as_slice(), sv.as_slice())
    } else {
        let r = slice_chars(w, 0, w.len());
        assert(r@ =~= w@);
        r
    }
}

/// Which per-word rewrite to apply.
enum WordRule {
    StripQuery,
    Email,
    Secret,
}

spec fn rule_fn(rule: WordRule) -> spec_fn(Seq<char>) -> Seq<char> {
    match rule {
        WordRule::StripQuery => |w: Seq<char>| strip_query_word(w),
        WordRule::Email => |w: Seq<char>| email_word(w),
        WordRule::Secret => |w: Seq<char>| secret_word(w),
    }
}

fn map_words_exec(s: &[char], rule: WordRule) -> (r: Vec<char>)
    ensures
        r@ == map_words(s@, rule_fn(rule)),
{
    let ws = split_words(s);
    let ghost f = rule_fn(rule);
    let mut mapped: Vec<Vec<char>> = Vec::new();
    let mut i: usize = 0;
    while i < ws.len()
        invariant
            i <= ws.len(),
            f == rule_fn(rule),
            ws@.len() == words(s@).len(),
            forall|k: int| 0 <= k < ws@.len() ==> #[trigger] ws@[k]@ == words(s@)[k],
            mapped@.len() == i,
            forall|k: int| 0 <= k < i ==> #[trigger] mapped@[k]@ == f(words(s@)[k]),
        decreases ws.len() - i,
    {
        let w = ws[i].as_slice();
        let m = match rule {
            WordRule::StripQuery => strip_query_word_exec(w),
            WordRule::Email => email_word_exec(w),
            WordRule::Secret => secret_word_exec(w),
        };
        mapped.push(m);
        i = i + 1;
    }
    let sep: Vec<char> = vec![' '];
    let r = join_exec(&mapped, sep.as_slice());
    proof {
        assert(sep@ =~= " "@) by {
            reveal_strlit(" ");
        }
        assert(mapped@.map_values(|v: Vec<char>| v@) =~= words(s@).map_values(f));
    }
    r
}

// ---------------------------------------------------------------------------
// Sanitizer
// ---------------------------------------------------------------------------

/// UTF-8 byte length of a string (`str::len`).
pub open spec fn byte_len(s: Seq<char>) -> usize {
    vstd::utf8::encode_utf8(s).len() as usize
}

/// Inserts `x` after every element at least as long, before the first shorter one.
pub open spec fn insert_by_len(sorted: Seq<Seq<char>>, x: Seq<char>) -> Seq<Seq<char>>
    decreases sorted.len(),
{
    if sorted.len() == 0 {
        seq![x]
    } else if byte_len(sorted[0]) < byte_len(x) {
        seq![x] + sorted
    } else {
        seq![sorted[0]] + insert_by_len(sorted.skip(1), x)
    }
}

/// Stable sort by byte length, longest first.
pub open spec fn sort_by_len_desc(s: Seq<Seq<char>>) -> Seq<Seq<char>>
    decreases s.len(),
{
    if s.len() == 0 {
        seq![]
    } else {
        insert_by_len(sort_by_len_desc(s.drop_last()), s.last())
    }
}

/// The values of at least 4 bytes, in order.
pub open spec fn long_values(s: Seq<Seq<char>>) -> Seq<Seq<char>>
    decreases s.len(),
{
    if s.len() == 0 {
        seq![]
    } else if byte_len(s.last()) >= 4 {
        long_values(s.drop_last()).push(s.last())
    } else {
        long_values(s.drop_last())
    }
}

/// The environment values the sanitizer scrubs: those of at least 4 bytes,
/// longest first (ties keep their order in `env`).
pub open spec fn scrubbed_env_values(env: Seq<(Seq<char>, Seq<char>)>) -> Seq<Seq<char>> {
    sort_by_len_desc(long_values(env.map_values(|kv: (Seq<char>, Seq<char>)| kv.1)))
}

/// The full sanitization pipeline for a project root, scrubbed values and home directory.
pub open spec fn sanitize_spec(
    root: Seq<char>,
    values: Seq<Seq<char>>,
    home: Option<Seq<char>>,
    text: Seq<char>,
) -> Seq<char> {
    let s1 = replace_path(text, root, "<PROJECT>"@);
    let s2 = match home {
        Some(h) => replace_path(s1, h, "<HOME>"@),
        None => s1,
    };
    let s3 = replace_path(s2, "/tmp"@, "<TMP>"@);
    let s4 = replace_env_values(s3, values);
    redact_secret_like_tokens(redact_emails(strip_url_queries(s4)))
}

pub open spec fn opt_view(o: Option<String>) -> Option<Seq<char>> {
    match o {
        Some(s) => Some(s@),
        None => None,
    }
}

/// `replace_path`: replaces `path` unless it is empty or `"."`.
pub open spec fn replace_path(text: Seq<char>, path: Seq<char>, rep: Seq<char>) -> Seq<char> {
    if path.len() == 0 || path == "."@ {
        text
    } else {
        replace_all(text, path, rep)
    }
}

/// Replaces each of `values`, in order, by `<ENV_VALUE>`.
pub open spec fn replace_env_values(text: Seq<char>, values: Seq<Seq<char>>) -> Seq<char>
    decreases values.len(),
{
    if values.len() == 0 {
        text
    } else {
        replace_all(replace_env_values(text, values.drop_last()), values.last(), "<ENV_VALUE>"@)
    }
}

/// Receives sanitized diagnostics events from the executor.
pub trait ToolDiagnosticsSink {
    fn record(&self, event: ToolFailureEvent) -> Result<(), crate::error::AgentError>;
}

/// A sink that keeps nothing.
#[derive(Debug, Default)]
pub struct NoopToolDiagnosticsSink;

impl ToolDiagnosticsSink for NoopToolDiagnosticsSink {
    fn record(&self, event: ToolFailureEvent) -> (r: Result<(), crate::error::AgentError>)
        ensures
            r is Ok,
    {
        Ok(())
    }
}

/// Sanitizes tool arguments and errors before diagnostics persistence.
#[derive(Debug, Clone)]
pub struct ToolFailureSanitizer {
    project_root: String,
    env_values: Vec<String>,
    pub home_dir: Option<String>,
}

impl ToolFailureSanitizer {
    pub closed spec fn root(self) -> Seq<char> {
        self.project_root@
    }

    pub closed spec fn home(self) -> Option<Seq<char>> {
        opt_view(self.home_dir)
    }

    pub closed spec fn values(self) -> Seq<Seq<char>> {
        self.env_values@.map_values(|v: String| v@)
    }

    /// The full sanitization pipeline.
    pub open spec fn sanitized(self, text: Seq<char>) -> Seq<char> {
        sanitize_spec(self.root(), self.values(), self.home(), text)
    }

    /// Build a sanitizer for `project_root`, scrubbing the values of `env` and,
    /// when given, the home directory.
    pub fn new(project_root: String, env: &Vec<(String, String)>, home_dir: Option<String>) -> (r:
        Self)
        ensures
            r.root() == project_root@,
            r.values() == scrubbed_env_values(
                env@.map_values(|kv: (String, String)| (kv.0@, kv.1@)),
            ),
            r.home() == opt_view(home_dir),
    {
        let ghost pairs = env@.map_values(|kv: (String, String)| (kv.0@, kv.1@));
        let ghost vals = pairs.map_values(|kv: (Seq<char>, Seq<char>)| kv.1);
        let mut sorted: Vec<String> = Vec::new();
        let mut i: usize = 0;
        while i < env.len()
            invariant
                i <= env.len(),
                pairs == env@.map_values(|kv: (String, String)| (kv.0@, kv.1@)),
                vals == pairs.map_values(|kv: (Seq<char>, Seq<char>)| kv.1),
                sorted@.map_values(|v: String| v@) == sort_by_len_desc(
                    long_values(vals.take(i as int)),
                ),
            decreases env.len() - i,
        {
            let v = &env[i].1;
            proof {
                assert(vals.take(i + 1).drop_last() =~= vals.take(i as int));
                assert(vals.take(i + 1).last() == v@);
            }
            if v.as_str().len() >= 4 {
                proof {
                    let prev = long_values(vals.take(i as int));
                    assert(long_values(vals.take(i + 1)) == prev.push(v@));
                    assert(prev.push(v@).drop_last() =~= prev);
                }
                insert_sorted(&mut sorted, v.clone());
            } else {
                assert(long_values(vals.take(i + 1)) == long_values(vals.take(i as int)));
            }
            i = i + 1;
        }
        assert(vals.take(env.len() as int) =~= vals);
        Self { project_root, env_values: sorted, home_dir }
    }

    /// Summarizes and scrubs one failure.
    pub fn sanitize_failure(&self, tool_name: &str, arguments: &serde_json::Value, error: &str) -> (r:
        SanitizedToolFailure)
        ensures
            r.argument_summary@ == self.sanitized(argument_summary_of(tool_name@, *arguments)),
            r.error_summary@ == trim_chars(self.sanitized(error@), 2000),
            r.exit_code == exit_code_of(error@),
    {
        let summary = argument_summary(tool_name, arguments);
        let argument_summary = self.sanitize_text(summary.as_str());
        let sanitized_error = self.sanitize_text(error);
        let ev = chars_of(sanitized_error.as_str());
        let trimmed = trim_chars_exec(ev.as_slice(), 2000);
        let error_summary = string_of(trimmed.as_slice());
        SanitizedToolFailure {
            argument_summary,
            exit_code: extract_exit_code(error),
            error_summary,
        }
    }

    /// Scrubs paths, environment values, URL queries, e-mail addresses and
    /// secret-looking tokens from `text`.
    pub fn sanitize_text(&self, text: &str) -> (r: String)
        ensures
            r@ == self.sanitized(text@),
    {
        let t = chars_of(text);
        let root = chars_of(self.project_root.as_str());
        let s1 = replace_path_exec(t.as_slice(), root.as_slice(), "<PROJECT>");
        let s2 = match &self.home_dir {
            Some(h) => {
                let hv = chars_of(h.as_str());
                replace_path_exec(s1.as_slice(), hv.as_slice(), "<HOME>")
            },
            None => s1,
        };
        let tmp = chars_of("/tmp");
        let s3 = replace_path_exec(s2.as_slice(), tmp.as_slice(), "<TMP>");
        let rep = chars_of("<ENV_VALUE>");
        let mut s4 = s3;
        let mut i: usize = 0;
        while i < self.env_values.len()
            invariant
                i <= self.env_values.len(),
                rep@ == "<ENV_VALUE>"@,
                s4@ == replace_env_values(s3@, self.values().take(i as int)),
            decreases self.env_values.len() - i,
        {
            let v = chars_of(self.env_values[i].as_str());
            proof {
                assert(self.values().take(i + 1).drop_last() =~= self.values().take(i as int));
            }
            if v.len() > 0 {
                s4 = replace_all_exec(s4.as_slice(), v.as_slice(), rep.as_slice());
            }
            i = i + 1;
        }
        assert(self.values().take(self.env_values.len() as int) =~= self.values());
        let s5 = map_words_exec(s4.as_slice(), WordRule::StripQuery);
        let s6 = map_words_exec(s5.as_slice(), WordRule::Email);
        let s7 = map_words_exec(s6.as_slice(), WordRule::Secret);
        string_of(s7.as_slice())
    }
}

/// Inserts `x` into a list sorted by byte length, longest first, after its equals.
fn insert_sorted(sorted: &mut Vec<String>, x: String)
    ensures
        final(sorted)@.map_values(|v: String| v@) == insert_by_len(
            old(sorted)@.map_values(|v: String| v@),
            x@,
        ),
{
    let ghost before = old(sorted)@.map_values(|v: String| v@);
    let xl = x.as_str().len();
    let mut pos: usize = 0;
    while pos < sorted.len()
        invariant
            pos <= sorted.len(),
            sorted@ == old(sorted)@,
            before == sorted@.map_values(|v: String| v@),
            forall|j: int| 0 <= j < pos ==> byte_len(#[trigger] before[j]) >= byte_len(x@),
            xl == byte_len(x@),
        ensures
            pos <= sorted.len(),
            sorted@ == old(sorted)@,
            forall|j: int| 0 <= j < pos ==> byte_len(#[trigger] before[j]) >= byte_len(x@),
            pos < sorted.len() ==> byte_len(before[pos as int]) < byte_len(x@),
        decreases sorted.len() - pos,
    {
        if sorted[pos].as_str().len() < xl {
            break;
        }
        pos = pos + 1;
    }
    proof {
        lemma_insert_by_len_at(before, x@, pos as int);
    }
    sorted.insert(pos, x);
    assert(sorted@.map_values(|v: String| v@) =~= before.insert(pos as int, x@));
}

proof fn lemma_insert_by_len_at(s: Seq<Seq<char>>, x: Seq<char>, pos: int)
    requires
        0 <= pos <= s.len(),
        forall|j: int| 0 <= j < pos ==> byte_len(#[trigger] s[j]) >= byte_len(x),
        pos < s.len() ==> byte_len(s[pos]) < byte_len(x),
    ensures
        insert_by_len(s, x) == s.insert(pos, x),
    decreases pos,
{
    if s.len() == 0 {
        assert(s.insert(pos, x) =~= seq![x]);
    } else if pos == 0 {
        assert(s.insert(0, x) =~= seq![x] + s);
    } else {
        assert forall|j: int| 0 <= j < pos - 1 implies byte_len(#[trigger] s.skip(1)[j])
            >= byte_len(x) by {
            assert(s.skip(1)[j] == s[j + 1]);
        }
        if pos < s.len() {
            assert(s.skip(1)[pos - 1] == s[pos]);
        }
        lemma_insert_by_len_at(s.skip(1), x, pos - 1);
        assert(byte_len(s[0]) >= byte_len(x));
        assert(seq![s[0]] + s.skip(1).insert(pos - 1, x) =~= s.insert(pos, x));
    }
}

fn replace_path_exec(text: &[char], path: &[char], rep: &str) -> (r: Vec<char>)
    ensures
        r@ == replace_path(text@, path@, rep@),
{
    let dot = chars_of(".");
    if path.len() == 0 || seq_eq(path, dot.as_slice()) {
        let r = slice_chars(text, 0, text.len());
        assert(r@ =~= text@);
        r
    } else {
        let rv = chars_of(rep);
        replace_all_exec(text, path, rv.as_slice())
    }
}

// ---------------------------------------------------------------------------
// Argument and exit-code summaries
// ---------------------------------------------------------------------------

/// The words of the command's first line that identify it: for `cargo`, `git`,
/// `npm`, `pnpm` and `yarn` the sub-command too.
pub open spec fn command_summary(command: Seq<char>) -> Seq<char> {
    let ws = words(trim(leading_line(command)));
    if ws.len() >= 2 && (ws[0] == "cargo"@ || ws[0] == "git"@ || ws[0] == "npm"@ || ws[0]
        == "pnpm"@ || ws[0] == "yarn"@) {
        ws[0] + " "@ + ws[1]
    } else if ws.len() >= 1 {
        ws[0]
    } else {
        seq![]
    }
}

/// The argument keys inspected, in priority order.
pub open spec fn summary_keys() -> Seq<Seq<char>> {
    seq!["file_path"@, "path"@, "pattern"@, "query"@, "url"@, "description"@]
}

/// The first of `keys` whose string field exists, if any.
pub open spec fn first_string_field(v: serde_json::Value, keys: Seq<Seq<char>>) -> Option<Seq<char>>
    decreases keys.len(),
{
    if keys.len() == 0 {
        None
    } else {
        match json_string_field(v, keys[0]) {
            Some(s) => Some(s),
            None => first_string_field(v, keys.skip(1)),
        }
    }
}

/// The short description of a tool call's arguments.
pub open spec fn argument_summary_of(tool_name: Seq<char>, arguments: serde_json::Value) -> Seq<char> {
    let name = ascii_lower(tool_name);
    let shell = name == "bash"@ || name == "powershell"@;
    if shell && json_string_field(arguments, "command"@) is Some {
        command_summary(json_string_field(arguments, "command"@)->0)
    } else {
        match first_string_field(arguments, summary_keys()) {
            Some(s) => trim_chars(s, 240),
            None => trim_chars(json_text(arguments), 240),
        }
    }
}

fn summarize_command(command: &str) -> (r: String)
    ensures
        r@ == command_summary(command@),
{
    let c = chars_of(command);
    let line = leading_line_exec(c.as_slice());
    let t = trim_exec(line.as_slice());
    let ws = split_words(t.as_slice());
    if ws.len() >= 2 {
        let first = ws[0].as_slice();
        let known = seq_eq_str(first, "cargo") || seq_eq_str(first, "git") || seq_eq_str(
            first,
            "npm",
        ) || seq_eq_str(first, "pnpm") || seq_eq_str(first, "yarn");
        if known {
            let mut out = slice_chars(first, 0, first.len());
            extend_str(&mut out, " ");
            extend_chars(&mut out, ws[1].as_slice());
            assert(out@ =~= ws@[0]@ + " "@ + ws@[1]@);
            return string_of(out.as_slice());
        }
    }
    if ws.len() >= 1 {
        string_of(ws[0].as_slice())
    } else {
        String::new()
    }
}

fn seq_eq_str(a: &[char], b: &str) -> (r: bool)
    ensures
        r == (a@ == b@),
{
    let bv = chars_of(b);
    seq_eq(a, bv.as_slice())
}

fn argument_summary(tool_name: &str, arguments: &serde_json::Value) -> (r: String)
    ensures
        r@ == argument_summary_of(tool_name@, *arguments),
{
    let tn = chars_of(tool_name);
    let name = ascii_lower_exec(tn.as_slice());
    let shell = seq_eq_str(name.as_slice(), "bash") || seq_eq_str(name.as_slice(), "powershell");
    if shell {
        match json_get_str(arguments, "command") {
            Some(command) => {
                return summarize_command(command.as_str());
            },
            None => {},
        }
    }
    assert(!(ascii_lower(tool_name@) == "bash"@ || ascii_lower(tool_name@) == "powershell"@)
        || json_string_field(*arguments, "command"@) is None);
    let keys: [&str; 6] = ["file_path", "path", "pattern", "query", "url", "description"];
    let ghost ks = summary_keys();
    assert(ks.skip(0) =~= ks);
    let mut i: usize = 0;
    while i < 6
        invariant
            i <= 6,
            ks == summary_keys(),
            forall|j: int| 0 <= j < 6 ==> (#[trigger] keys@[j])@ == ks[j],
            first_string_field(*arguments, ks) == first_string_field(*arguments, ks.skip(i as int)),
            !(ascii_lower(tool_name@) == "bash"@ || ascii_lower(tool_name@) == "powershell"@)
                || json_string_field(*arguments, "command"@) is None,
        decreases 6 - i,
    {
        let key = keys[i];
        assert(key@ == ks[i as int]);
        assert(ks.skip(i as int)[0] == ks[i as int]);
        match json_get_str(arguments, key) {
            Some(value) => {
                assert(ks.skip(i as int).len() > 0);
                assert(first_string_field(*arguments, ks.skip(i as int)) == Some(value@));
                let v = chars_of(value.as_str());
                let t = trim_chars_exec(v.as_slice(), 240);
                return string_of(t.as_slice());
            },
            None => {
                assert(ks.skip(i as int).skip(1) =~= ks.skip(i + 1));
            },
        }
        i = i + 1;
    }
    let text = json_to_text(arguments);
    let v = chars_of(text.as_str());
    let t = trim_chars_exec(v.as_slice(), 240);
    string_of(t.as_slice())
}

/// The exit code reported as `exit code Some(<n>)` in an error message.
pub open spec fn exit_code_of(error: Seq<char>) -> Option<i32> {
    let marker = "exit code Some("@;
    match find(error, marker) {
        Some(i) => {
            let rest = error.skip(i + marker.len());
            match find_char(rest, ')') {
                Some(e) => parse_i32(rest.take(e)),
                None => None,
            }
        },
        None => None,
    }
}

fn extract_exit_code(error: &str) -> (r: Option<i32>)
    ensures
        r == exit_code_of(error@),
{
    let e = chars_of(error);
    let marker = chars_of("exit code Some(");
    match find_exec(e.as_slice(), marker.as_slice()) {
        None => None,
        Some(i) => {
            proof {
                crate::text::lemma_find_contains(e@, marker@);
                assert(crate::text::occurs_at(e@, marker@, i as int));
                assert(i + marker@.len() <= e@.len());
            }
            assert(i + marker.len() <= e.len());
            let start: usize = i + marker.len();
            let rest = slice_chars(e.as_slice(), start, e.len());
            assert(rest@ =~= e@.skip(i + marker@.len()));
            let close: Vec<char> = vec![')'];
            assert(close@ =~= seq![')']);
            match find_exec(rest.as_slice(), close.as_slice()) {
                None => None,
                Some(k) => {
                    proof {
                        crate::text::lemma_find_contains(rest@, close@);
                    }
                    let digits = slice_chars(rest.as_slice(), 0, k);
                    assert(digits@ =~= rest@.take(k as int));
                    parse_i32_exec(digits.as_slice())
                },
            }
        },
    }
}

/// Sanitizes one failure and records it as an event stamped with the current time.
pub fn sanitized_event_for_failure(
    session_id: &str,
    turn_id: u64,
    tool_call_id: &str,
    tool_name: &str,
    failure_kind: ToolFailureKind,
    arguments: &serde_json::Value,
    error: &str,
    cwd: &str,
    env: &Vec<(String, String)>,
    home_dir: Option<String>,
) -> (e: ToolFailureEvent)
    ensures
        e.session_id@ == session_id@,
        e.turn_id == turn_id,
        e.tool_call_id@ == tool_call_id@,
        e.tool_name@ == tool_name@,
        e.failure_kind == failure_kind,
        ({
            let values = scrubbed_env_values(
                env@.map_values(|kv: (String, String)| (kv.0@, kv.1@)),
            );
            let home = opt_view(home_dir);
            &&& e.argument_summary@ == sanitize_spec(
                cwd@,
                values,
                home,
                argument_summary_of(tool_name@, *arguments),
            )
            &&& e.error_summary@ == trim_chars(sanitize_spec(cwd@, values, home, error@), 2000)
            &&& e.exit_code == exit_code_of(error@)
        }),
{
    let sanitizer = ToolFailureSanitizer::new(cwd.to_owned(), env, home_dir);
    let failure = sanitizer.sanitize_failure(tool_name, arguments, error);
    ToolFailureEvent::new(session_id, turn_id, tool_call_id, tool_name, failure_kind, failure)
}

} // verus!
