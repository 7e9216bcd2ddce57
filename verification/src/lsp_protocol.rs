//! The language-server protocol as the read-only LSP tool speaks it: which
//! requests a tool operation becomes, how messages are framed on stdio, and
//! how the tool answers the requests a server sends it.
use vstd::prelude::*;

use crate::error::AgentError;
use crate::json::{
    distinct_entry_keys,
    json_array, json_bool, json_field, json_from_bool, json_from_i64, json_from_u64,
    json_i64, json_member, json_null, json_is_null_value, json_object, json_object_from,
    json_str, json_string, json_string_of, json_u64,
};
use crate::plugin_paths::{inside_root, is_inside_root};
use crate::text::{chars_of, extend_str, str_eq, string_of};

verus! {

/// The LSP method a tool operation requests; only read-only ones exist.
pub open spec fn lsp_method(operation: Seq<char>) -> Option<Seq<char>> {
    if operation == "hover"@ {
        Some("textDocument/hover"@)
    } else if operation == "definition"@ {
        Some("textDocument/definition"@)
    } else if operation == "references"@ {
        Some("textDocument/references"@)
    } else if operation == "document_symbols"@ {
        Some("textDocument/documentSymbol"@)
    } else if operation == "diagnostics"@ {
        Some("textDocument/diagnostic"@)
    } else {
        None
    }
}

/// Whether an operation is asked at a position of the document.
pub open spec fn positional(operation: Seq<char>) -> bool {
    operation == "hover"@ || operation == "definition"@ || operation == "references"@
}

/// `v` is an object with exactly the keys `keys`.
pub open spec fn only_keys(v: serde_json::Value, keys: Seq<Seq<char>>) -> bool {
    &&& json_object(v)
    &&& forall|k: Seq<char>| !keys.contains(k) ==> json_field(v, k) is None
}

/// `{"uri": uri}`.
pub open spec fn document_is(v: serde_json::Value, uri: Seq<char>) -> bool {
    &&& only_keys(v, seq!["uri"@])
    &&& json_field(v, "uri"@) == Some(json_string_of(uri))
}

/// `{"line": line, "character": character}`.
pub open spec fn position_is(v: serde_json::Value, line: u64, character: u64) -> bool {
    &&& only_keys(v, seq!["line"@, "character"@])
    &&& (json_field(v, "line"@) matches Some(l) && json_u64(l) == Some(line))
    &&& (json_field(v, "character"@) matches Some(c) && json_u64(c) == Some(character))
}

/// `{"includeDeclaration": true}`.
pub open spec fn include_declaration(v: serde_json::Value) -> bool {
    &&& only_keys(v, seq!["includeDeclaration"@])
    &&& (json_field(v, "includeDeclaration"@) matches Some(b) && json_bool(b) == Some(true))
}

/// The parameters of an operation's request: the document, its position for
/// positional operations, and for references the request to include the
/// declaration.
pub open spec fn request_params(
    operation: Seq<char>,
    v: serde_json::Value,
    uri: Seq<char>,
    line: u64,
    character: u64,
) -> bool {
    &&& only_keys(v, seq!["textDocument"@, "position"@, "context"@])
    &&& (json_field(v, "textDocument"@) matches Some(d) && document_is(d, uri))
    &&& if positional(operation) {
        json_field(v, "position"@) matches Some(p) && position_is(p, line, character)
    } else {
        json_field(v, "position"@) is None
    }
    &&& if operation == "references"@ {
        json_field(v, "context"@) matches Some(c) && include_declaration(c)
    } else {
        json_field(v, "context"@) is None
    }
}

fn entry(key: &str, value: serde_json::Value) -> (r: (String, serde_json::Value))
    ensures
        r.0@ == key@,
        r.1 == value,
{
    (key.to_owned(), value)
}

/// The request an operation on the document `uri` at (`line`, `character`)
/// becomes: its method and parameters. Operations that could change
/// anything are refused.
pub fn operation_request(operation: &str, uri: &str, line: u64, character: u64) -> (r: Result<
    (&'static str, serde_json::Value),
    AgentError,
>)
    ensures
        match lsp_method(operation@) {
            None => r matches Err(e) && e matches AgentError::Validation(m) && m@
                == "unsupported LSP operation `"@ + operation@ + "`"@,
            Some(method) => r matches Ok(p) && p.0@ == method && request_params(
                operation@,
                p.1,
                uri@,
                line,
                character,
            ),
        },
{
    proof {
        reveal_strlit("textDocument");
        reveal_strlit("position");
        reveal_strlit("context");
        reveal_strlit("uri");
        reveal_strlit("line");
        reveal_strlit("character");
        reveal_strlit("includeDeclaration");
    }
    let method: &'static str = if str_eq(operation, "hover") {
        "textDocument/hover"
    } else if str_eq(operation, "definition") {
        "textDocument/definition"
    } else if str_eq(operation, "references") {
        "textDocument/references"
    } else if str_eq(operation, "document_symbols") {
        "textDocument/documentSymbol"
    } else if str_eq(operation, "diagnostics") {
        "textDocument/diagnostic"
    } else {
        let mut t = chars_of("unsupported LSP operation `");
        extend_str(&mut t, operation);
        extend_str(&mut t, "`");
        return Err(AgentError::Validation(string_of(t.as_slice())));
    };
    let mut document_entries: Vec<(String, serde_json::Value)> = Vec::new();
    document_entries.push(entry("uri", json_string(uri)));
    let ghost de = document_entries@;
    let document = json_object_from(document_entries);
    proof {
        assert(distinct_entry_keys(de));
        assert(json_field(document, de[0].0@) == Some(de[0].1));
        assert(document_is(document, uri@)) by {
            assert forall|k: Seq<char>| !seq!["uri"@].contains(k) implies json_field(document, k) is None by {
                assert(seq!["uri"@][0] == "uri"@);
            }
        }
    }
    let mut params: Vec<(String, serde_json::Value)> = Vec::new();
    params.push(entry("textDocument", document));
    let is_positional = str_eq(operation, "hover") || str_eq(operation, "definition") || str_eq(
        operation,
        "references",
    );
    if is_positional {
        let mut position_entries: Vec<(String, serde_json::Value)> = Vec::new();
        position_entries.push(entry("line", json_from_u64(line)));
        position_entries.push(entry("character", json_from_u64(character)));
        let ghost pe = position_entries@;
        let position = json_object_from(position_entries);
        proof {
            assert(pe[0].0@ == "line"@ && pe[1].0@ == "character"@);
            assert("line"@.len() != "character"@.len());
            assert(distinct_entry_keys(pe));
            let ks = seq!["line"@, "character"@];
            assert forall|k: Seq<char>| !ks.contains(k) implies json_field(position, k) is None by {
                assert(ks[0] == "line"@ && ks[1] == "character"@);
            }
            assert(json_field(position, pe[0].0@) == Some(pe[0].1));
            assert(json_field(position, pe[1].0@) == Some(pe[1].1));
        }
        params.push(entry("position", position));
    }
    if str_eq(operation, "references") {
        let mut context_entries: Vec<(String, serde_json::Value)> = Vec::new();
        context_entries.push(entry("includeDeclaration", json_from_bool(true)));
        let ghost ce = context_entries@;
        let context = json_object_from(context_entries);
        proof {
            assert(distinct_entry_keys(ce));
            let ks = seq!["includeDeclaration"@];
            assert forall|k: Seq<char>| !ks.contains(k) implies json_field(context, k) is None by {
                assert(ks[0] == "includeDeclaration"@);
            }
            assert(json_field(context, ce[0].0@) == Some(ce[0].1));
        }
        params.push(entry("context", context));
    }
    let ghost ps = params@;
    proof {
        assert(ps[0].0@ == "textDocument"@);
        assert(ps.len() >= 2 ==> ps[1].0@ == "position"@);
        assert(ps.len() == 3 ==> ps[2].0@ == "context"@);
        assert(distinct_entry_keys(ps));
    }
    let value = json_object_from(params);
    proof {
        assert(json_field(value, ps[0].0@) == Some(ps[0].1));
        let ks = seq!["textDocument"@, "position"@, "context"@];
        assert forall|k: Seq<char>| !ks.contains(k) implies json_field(value, k) is None by {
            assert(ks[0] == "textDocument"@ && ks[1] == "position"@ && ks[2] == "context"@);
        }
        assert(json_field(value, "textDocument"@) == Some(ps[0].1));
        if is_positional {
            assert(json_field(value, ps[1].0@) == Some(ps[1].1));
        }
        if operation@ == "references"@ {
            assert(json_field(value, ps[2].0@) == Some(ps[2].1));
        }
    }
    Ok((method, value))
}

// ---------------------------------------------------------------------------
// Requests the server sends
// ---------------------------------------------------------------------------

/// How many configuration items a `workspace/configuration` request asks for.
pub open spec fn configuration_count(message: serde_json::Value) -> nat {
    match json_field(message, "params"@) {
        Some(p) => match json_field(p, "items"@) {
            Some(items) => match json_array(items) {
                Some(a) => a.len(),
                None => 0,
            },
            None => 0,
        },
        None => 0,
    }
}

/// Server requests the tool acknowledges with a `null` result.
pub open spec fn acknowledged(method: Seq<char>) -> bool {
    method == "window/workDoneProgress/create"@ || method == "client/registerCapability"@ || method
        == "client/unregisterCapability"@ || method == "window/showMessageRequest"@ || method
        == "workspace/workspaceFolders"@
}

/// `v` is `null`.
pub open spec fn is_null_field(v: serde_json::Value, key: Seq<char>) -> bool {
    json_field(v, key) matches Some(x) && json_is_null_value(x)
}

/// `v` is the JSON-RPC reply to the request `id`, carrying `outcome` under
/// `result` or, for `is_error`, under `error`.
pub open spec fn reply_frame(v: serde_json::Value, id: serde_json::Value, is_error: bool) -> bool {
    &&& only_keys(v, seq!["jsonrpc"@, "id"@, if is_error { "error"@ } else { "result"@ }])
    &&& json_field(v, "jsonrpc"@) == Some(json_string_of("2.0"@))
    &&& json_field(v, "id"@) == Some(id)
}

/// The reply the tool gives a server request with `method`: configuration
/// requests get one `null` per item, bookkeeping requests `null`, edits are
/// declined, and anything else is an unsupported-method error.
pub open spec fn reply_is(v: serde_json::Value, message: serde_json::Value, id: serde_json::Value, method: Seq<char>) -> bool {
    if method == "workspace/configuration"@ {
        &&& reply_frame(v, id, false)
        &&& json_field(v, "result"@) matches Some(a) && json_array(a) matches Some(items)
            && items.len() == configuration_count(message) && forall|i: int|
            0 <= i < items.len() ==> json_is_null_value(#[trigger] items[i])
    } else if acknowledged(method) {
        reply_frame(v, id, false) && is_null_field(v, "result"@)
    } else if method == "workspace/applyEdit"@ {
        &&& reply_frame(v, id, false)
        &&& json_field(v, "result"@) matches Some(r) && only_keys(r, seq!["applied"@, "failureReason"@])
            && (json_field(r, "applied"@) matches Some(b) && json_bool(b) == Some(false))
            && json_field(r, "failureReason"@) == Some(json_string_of("telos-agent LSP bridge is read-only"@))
    } else {
        &&& reply_frame(v, id, true)
        &&& json_field(v, "error"@) matches Some(e) && only_keys(e, seq!["code"@, "message"@])
            && (json_field(e, "code"@) matches Some(c) && json_i64(c) == Some(-32601i64))
            && json_field(e, "message"@) == Some(json_string_of("unsupported server request `"@ + method + "`"@))
    }
}

fn frame(id: serde_json::Value, key: &str, payload: serde_json::Value) -> (r: serde_json::Value)
    requires
        key@ == "result"@ || key@ == "error"@,
    ensures
        only_keys(r, seq!["jsonrpc"@, "id"@, key@]),
        json_field(r, "jsonrpc"@) == Some(json_string_of("2.0"@)),
        json_field(r, "id"@) == Some(id),
        json_field(r, key@) == Some(payload),
{
    proof {
        reveal_strlit("jsonrpc");
        reveal_strlit("id");
        reveal_strlit("result");
        reveal_strlit("error");
    }
    let mut entries: Vec<(String, serde_json::Value)> = Vec::new();
    entries.push(entry("jsonrpc", json_string("2.0")));
    entries.push(entry("id", id));
    entries.push(entry(key, payload));
    let ghost es = entries@;
    proof {
        assert(es[0].0@ == "jsonrpc"@ && es[1].0@ == "id"@ && es[2].0@ == key@);
        assert(distinct_entry_keys(es));
    }
    let r = json_object_from(entries);
    proof {
        let ks = seq!["jsonrpc"@, "id"@, key@];
        assert(json_field(r, es[0].0@) == Some(es[0].1));
        assert(json_field(r, es[1].0@) == Some(es[1].1));
        assert(json_field(r, es[2].0@) == Some(es[2].1));
        assert forall|k: Seq<char>| !ks.contains(k) implies json_field(r, k) is None by {
            assert(ks[0] == es[0].0@ && ks[1] == es[1].0@ && ks[2] == es[2].0@);
        }
    }
    r
}

fn two_field_object(
    k1: &str,
    v1: serde_json::Value,
    k2: &str,
    v2: serde_json::Value,
) -> (r: serde_json::Value)
    requires
        k1@ != k2@,
    ensures
        only_keys(r, seq![k1@, k2@]),
        json_field(r, k1@) == Some(v1),
        json_field(r, k2@) == Some(v2),
{
    let mut entries: Vec<(String, serde_json::Value)> = Vec::new();
    entries.push(entry(k1, v1));
    entries.push(entry(k2, v2));
    let ghost es = entries@;
    proof {
        assert(es[0].0@ == k1@ && es[1].0@ == k2@);
        assert(distinct_entry_keys(es));
    }
    let r = json_object_from(entries);
    proof {
        let ks = seq![k1@, k2@];
        assert(json_field(r, es[0].0@) == Some(es[0].1));
        assert(json_field(r, es[1].0@) == Some(es[1].1));
        assert forall|k: Seq<char>| !ks.contains(k) implies json_field(r, k) is None by {
            assert(ks[0] == es[0].0@ && ks[1] == es[1].0@);
        }
    }
    r
}

/// `r` is the tool's answer to `message`: a reply to a request, none to a notification.
pub open spec fn reply_for(message: serde_json::Value, r: Option<serde_json::Value>) -> bool {
    match (crate::json::json_string_field(message, "method"@), json_field(message, "id"@)) {
        (Some(method), Some(id)) => r matches Some(v) && reply_is(v, message, id, method),
        _ => r is None,
    }
}

/// The reply to a request the server sent, or none for a notification (a
/// message without a method or an id).
pub fn server_request_reply(message: &serde_json::Value) -> (r: Option<serde_json::Value>)
    ensures
        reply_for(*message, r),
{
    proof {
        reveal_strlit("result");
        reveal_strlit("error");
        reveal_strlit("applied");
        reveal_strlit("failureReason");
        reveal_strlit("code");
        reveal_strlit("message");
    }
    let method = match crate::json::json_get_str(message, "method") {
        Some(m) => m,
        None => {
            return None;
        },
    };
    let id = match json_member(message, "id") {
        Some(id) => id,
        None => {
            return None;
        },
    };
    let m = method.as_str();
    if str_eq(m, "workspace/configuration") {
        let count: usize = match json_member(message, "params") {
            Some(p) => match json_member(&p, "items") {
                Some(items) => match crate::json::json_as_array(&items) {
                    Some(a) => a.len(),
                    None => 0,
                },
                None => 0,
            },
            None => 0,
        };
        let mut nulls: Vec<serde_json::Value> = Vec::new();
        let mut i: usize = 0;
        while i < count
            invariant
                i <= count,
                nulls@.len() == i,
                forall|j: int| 0 <= j < i ==> json_is_null_value(#[trigger] nulls@[j]),
            decreases count - i,
        {
            nulls.push(json_null());
            i = i + 1;
        }
        let ghost ns = nulls@;
        let result = crate::json::json_array_from(nulls);
        let v = frame(id, "result", result);
        assert(json_array(result) == Some(ns));
        Some(v)
    } else if str_eq(m, "window/workDoneProgress/create") || str_eq(m, "client/registerCapability")
        || str_eq(m, "client/unregisterCapability") || str_eq(m, "window/showMessageRequest")
        || str_eq(m, "workspace/workspaceFolders") {
        let n = json_null();
        Some(frame(id, "result", n))
    } else if str_eq(m, "workspace/applyEdit") {
        proof {
            reveal_strlit("applied");
            reveal_strlit("failureReason");
            assert("applied"@.len() != "failureReason"@.len());
        }
        let result = two_field_object(
            "applied",
            json_from_bool(false),
            "failureReason",
            json_string("telos-agent LSP bridge is read-only"),
        );
        Some(frame(id, "result", result))
    } else {
        let mut text = chars_of("unsupported server request `");
        extend_str(&mut text, m);
        extend_str(&mut text, "`");
        let message_text = string_of(text.as_slice());
        proof {
            reveal_strlit("code");
            reveal_strlit("message");
            assert("code"@.len() != "message"@.len());
        }
        let error = two_field_object(
            "code",
            json_from_i64(-32601),
            "message",
            json_string(message_text.as_str()),
        );
        Some(frame(id, "error", error))
    }
}

// ---------------------------------------------------------------------------
// Waiting for a reply
// ---------------------------------------------------------------------------

/// What to do with a message read while waiting for the reply to a request.
pub enum ResponseStep {
    /// Not the awaited reply: send this answer, if any, and read on.
    Answer(Option<serde_json::Value>),
    /// The awaited reply: its result, or the error the server returned.
    Finished(Result<serde_json::Value, String>),
}

/// What a message means while the tool waits for the reply to `id`.
pub open spec fn step_for(message: serde_json::Value, id: u64, r: ResponseStep) -> bool {
    if crate::json::json_u64_field(message, "id"@) != Some(id) {
        r matches ResponseStep::Answer(reply) && reply_for(message, reply)
    } else {
        match json_field(message, "error"@) {
            Some(e) => r matches ResponseStep::Finished(Err(t)) && t@ == "language server returned error: "@
                + crate::json::json_text(e),
            None => r matches ResponseStep::Finished(Ok(v)) && match json_field(message, "result"@) {
                Some(x) => v == x,
                None => json_is_null_value(v),
            },
        }
    }
}

/// Decide what a message read while waiting for the reply to `id` means.
pub fn response_step(message: &serde_json::Value, id: u64) -> (r: ResponseStep)
    ensures
        step_for(*message, id, r),
{
    match crate::json::json_get_u64(message, "id") {
        Some(n) if n == id => {},
        _ => {
            return ResponseStep::Answer(server_request_reply(message));
        },
    }
    match json_member(message, "error") {
        Some(e) => {
            let mut text = chars_of("language server returned error: ");
            extend_str(&mut text, crate::json::json_to_text(&e).as_str());
            ResponseStep::Finished(Err(string_of(text.as_slice())))
        },
        None => match json_member(message, "result") {
            Some(x) => ResponseStep::Finished(Ok(x)),
            None => ResponseStep::Finished(Ok(json_null())),
        },
    }
}

// ---------------------------------------------------------------------------
// Framing
// ---------------------------------------------------------------------------

/// The largest message body the tool accepts: 16 MiB.
pub const MAX_MESSAGE_BYTES: usize = 16777216;

/// A message on the wire: a `Content-Length` header, a blank line, the body.
pub open spec fn framed(body: Seq<u8>) -> Seq<u8> {
    vstd::utf8::encode_utf8("Content-Length: "@ + crate::text::nat_digits(body.len()) + "\r\n\r\n"@)
        + body
}

/// Frame a message body for the server's stdin.
pub fn frame_message(body: &[u8]) -> (r: Vec<u8>)
    ensures
        r@ == framed(body@),
{
    let mut header = chars_of("Content-Length: ");
    let digits = crate::text::u64_text(body.len() as u64);
    crate::text::extend_chars(&mut header, digits.as_slice());
    extend_str(&mut header, "\r\n\r\n");
    let text = string_of(header.as_slice());
    let bytes = text.as_str().as_bytes();
    let mut out: Vec<u8> = Vec::new();
    let mut i: usize = 0;
    while i < bytes.len()
        invariant
            i <= bytes@.len(),
            out@ == bytes@.take(i as int),
        decreases bytes.len() - i,
    {
        out.push(bytes[i]);
        proof {
            assert(out@ =~= bytes@.take(i + 1));
        }
        i = i + 1;
    }
    let mut j: usize = 0;
    while j < body.len()
        invariant
            j <= body@.len(),
            out@ == bytes@ + body@.take(j as int),
        decreases body.len() - j,
    {
        out.push(body[j]);
        proof {
            assert(out@ =~= bytes@ + body@.take(j + 1));
        }
        j = j + 1;
    }
    proof {
        assert(bytes@.take(bytes@.len() as int) =~= bytes@);
        assert(body@.take(body@.len() as int) =~= body@);
    }
    out
}

/// A header line without its line ending: trailing `\r` and `\n` removed.
pub open spec fn line_text(line: Seq<char>) -> Seq<char>
    decreases line.len(),
{
    if line.len() > 0 && (line.last() == '\r' || line.last() == '\n') {
        line_text(line.drop_last())
    } else {
        line
    }
}

/// `str::parse::<usize>`: an optional `+` and at least one digit, in range.
pub open spec fn parse_usize(s: Seq<char>) -> Option<usize> {
    match crate::text::parse_u64(s) {
        Some(n) => if n <= usize::MAX {
            Some(n as usize)
        } else {
            None
        },
        None => None,
    }
}

/// The body length the header lines declare: the last `Content-Length`
/// line's value, none where that value does not parse.
pub open spec fn declared_length(lines: Seq<Seq<char>>) -> Option<usize>
    decreases lines.len(),
{
    if lines.len() == 0 {
        None
    } else {
        let line = line_text(lines.last());
        if crate::text::starts_with(line, "Content-Length:"@) {
            parse_usize(crate::text::trim(line.skip(15)))
        } else {
            declared_length(lines.drop_last())
        }
    }
}

fn line_text_exec(line: &str) -> (r: Vec<char>)
    ensures
        r@ == line_text(line@),
{
    let v = chars_of(line);
    let mut n: usize = v.len();
    assert(v@.take(n as int) =~= v@);
    while n > 0 && (v[n - 1] == '\r' || v[n - 1] == '\n')
        invariant
            n <= v@.len(),
            line_text(v@) == line_text(v@.take(n as int)),
        decreases n,
    {
        proof {
            assert(v@.take(n as int).drop_last() =~= v@.take(n - 1));
        }
        n = n - 1;
    }
    proof {
        assert(v@.take(n as int) =~= v@.subrange(0, n as int));
    }
    crate::text::slice_chars(v.as_slice(), 0, n)
}

/// The body length of a message from its header lines (each as read, up to
/// the blank line that ends them): the declared `Content-Length`, which must
/// exist and not exceed [`MAX_MESSAGE_BYTES`].
pub fn content_length(lines: &Vec<String>) -> (r: Result<usize, String>)
    ensures
        match declared_length(crate::text::texts(lines@)) {
            None => r matches Err(m) && m@ == "missing Content-Length header"@,
            Some(n) => if n > MAX_MESSAGE_BYTES {
                r matches Err(m) && m@ == "language server response exceeds 16 MiB"@
            } else {
                r == Ok::<usize, String>(n)
            },
        },
{
    let ghost ls = crate::text::texts(lines@);
    let mut length: Option<usize> = None;
    let mut i: usize = 0;
    proof {
        reveal_strlit("Content-Length:");
    }
    while i < lines.len()
        invariant
            i <= lines@.len(),
            ls == crate::text::texts(lines@),
            "Content-Length:"@.len() == 15,
            length == declared_length(ls.take(i as int)),
        decreases lines.len() - i,
    {
        proof {
            assert(ls.take(i + 1).drop_last() =~= ls.take(i as int));
            assert(ls.take(i + 1).last() == lines@[i as int]@);
        }
        let line = line_text_exec(lines[i].as_str());
        if crate::text::starts_with_str(line.as_slice(), "Content-Length:") {
            let rest = crate::text::slice_chars(line.as_slice(), 15, line.len());
            proof {
                assert(line@.subrange(15, line@.len() as int) =~= line@.skip(15));
            }
            let value = crate::text::trim_exec(rest.as_slice());
            length = match crate::text::parse_u64_exec(value.as_slice()) {
                Some(n) => if n <= usize::MAX as u64 {
                    Some(n as usize)
                } else {
                    None
                },
                None => None,
            };
        }
        i = i + 1;
    }
    proof {
        assert(ls.take(lines@.len() as int) =~= ls);
    }
    match length {
        None => Err("missing Content-Length header".to_owned()),
        Some(n) => if n > MAX_MESSAGE_BYTES {
            Err("language server response exceeds 16 MiB".to_owned())
        } else {
            Ok(n)
        },
    }
}

/// Decode a message body.
pub fn decode_message(body: &[u8]) -> (r: Result<serde_json::Value, String>)
    ensures
        r is Ok <==> crate::json::json_parsed_bytes(body@) is Some,
        r matches Ok(v) ==> crate::json::json_parsed_bytes(body@) == Some(v),
        r matches Err(m) ==> m@ == crate::json::json_bytes_error_text(body@),
{
    crate::json::json_from_bytes(body)
}

/// Encode a message for the server: its JSON bytes, framed.
pub fn encode_message(value: &serde_json::Value) -> (r: Result<Vec<u8>, String>)
    ensures
        r matches Ok(b) && b@ == framed(crate::json::json_bytes(*value)),
{
    match crate::json::json_to_bytes(value) {
        Ok(body) => Ok(frame_message(body.as_slice())),
        Err(e) => Err(e),
    }
}


/// A file the LSP tool opens must lie in the workspace: `path` and `cwd`
/// are canonical, and `path` must be inside `cwd` (see [`inside_root`]).
pub fn check_workspace_path(path: &str, cwd: &str) -> (r: Result<(), AgentError>)
    ensures
        r is Ok <==> inside_root(path@, cwd@),
        r matches Err(e) ==> e matches AgentError::PermissionDenied(m) && m@ == "LSP path "@ + path@
            + " is outside workspace "@ + cwd@,
{
    if is_inside_root(path, cwd) {
        return Ok(());
    }
    let mut t = chars_of("LSP path ");
    extend_str(&mut t, path);
    extend_str(&mut t, " is outside workspace ");
    extend_str(&mut t, cwd);
    Err(AgentError::PermissionDenied(string_of(t.as_slice())))
}

} // verus!
