//! The request of an HTTP hook: its method must be an HTTP token; the
//! request itself is sent by the runtime around this library.
use vstd::prelude::*;

use crate::error::AgentError;
use crate::text::{chars_of, extend_str, string_of};

verus! {

/// An HTTP request method, as reqwest takes it.
#[verifier::external_type_specification]
#[verifier::external_body]
pub struct ExMethod(reqwest::Method);

/// A character that may stand in a method name (an HTTP `tchar`).
pub open spec fn is_token_char(c: char) -> bool {
    ||| ('0' <= c <= '9')
    ||| ('a' <= c <= 'z')
    ||| ('A' <= c <= 'Z')
    ||| c == '!' || c == '#' || c == '$' || c == '%' || c == '&' || c == '\''
    ||| c == '*' || c == '+' || c == '-' || c == '.' || c == '^' || c == '_'
    ||| c == '`' || c == '|' || c == '~'
}

/// A method name that reqwest accepts: at least one character, each a `tchar`.
pub open spec fn is_method_token(m: Seq<char>) -> bool {
    m.len() > 0 && forall|i: int| 0 <= i < m.len() ==> is_token_char(#[trigger] m[i])
}

/// `reqwest::Method::from_str`: it accepts a non-empty string whose bytes
/// are all HTTP token characters (so an ASCII string) and refuses anything
/// else with an error that reads `invalid HTTP method`. What the accepted
/// method holds is left unsaid; the request is built outside this library.
#[verifier::external_body]
fn parse_method(method: &str) -> (r: Result<reqwest::Method, String>)
    ensures
        r is Ok <==> is_method_token(method@),
        r matches Err(m) ==> m@ == "invalid HTTP method"@,
{
    method.parse::<reqwest::Method>().map_err(|err| err.to_string())
}

/// `e` is a failure of the HTTP hook with the message `m`.
pub open spec fn hook_failure(e: AgentError, m: Seq<char>) -> bool {
    e matches AgentError::ToolExecution { tool, message } && tool@ == "HttpHook"@ && message@ == m
}

/// The method of an HTTP hook, refused unless it is an HTTP token.
pub fn http_hook_method(method: &str) -> (r: Result<reqwest::Method, AgentError>)
    ensures
        r is Ok <==> is_method_token(method@),
        r matches Err(e) ==> hook_failure(
            e,
            "invalid HTTP method `"@ + method@ + "`: "@ + "invalid HTTP method"@,
        ),
{
    match parse_method(method) {
        Ok(m) => Ok(m),
        Err(detail) => {
            let mut t = chars_of("invalid HTTP method `");
            extend_str(&mut t, method);
            extend_str(&mut t, "`: ");
            extend_str(&mut t, detail.as_str());
            Err(AgentError::ToolExecution { tool: "HttpHook".to_owned(), message: string_of(t.as_slice()) })
        },
    }
}

} // verus!
