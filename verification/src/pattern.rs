//! Glob patterns for tool names and event topics, evaluated by the `glob` crate.
use vstd::prelude::*;

verus! {

/// Whether `pattern` is accepted by `glob::Pattern::new`.
pub uninterp spec fn glob_valid(pattern: Seq<char>) -> bool;

/// Whether `pattern` compiles and `glob::Pattern::matches` accepts `name`.
pub uninterp spec fn glob_match(pattern: Seq<char>, name: Seq<char>) -> bool;

/// The `Display` text of the error `glob::Pattern::new` reports for `pattern`.
pub uninterp spec fn glob_error_text(pattern: Seq<char>) -> Seq<char>;

/// `glob::Pattern::new(pattern)` then `Pattern::matches(name)`; false when the
/// pattern does not compile. The result is named, not stated.
#[verifier::external_body]
pub fn glob_matches(pattern: &str, name: &str) -> (r: bool)
    ensures
        r == glob_match(pattern@, name@),
        r ==> glob_valid(pattern@),
{
    glob::Pattern::new(pattern).is_ok_and(|compiled| compiled.matches(name))
}

/// `glob::Pattern::new(pattern)`: `None` when it compiles, else the error's text.
#[verifier::external_body]
pub fn glob_error(pattern: &str) -> (r: Option<String>)
    ensures
        r is None <==> glob_valid(pattern@),
        r matches Some(msg) ==> msg@ == glob_error_text(pattern@),
{
    glob::Pattern::new(pattern).err().map(|error| error.to_string())
}

} // verus!
