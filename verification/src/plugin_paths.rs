//! Paths that a plugin or a marketplace names inside its own directory: they
//! must stay under that directory.
//!
//! Paths follow Unix rules: a path is absolute when it starts with `/`, and
//! its components are the pieces between slashes.
use vstd::prelude::*;

use crate::plugin_tools::PluginError;
use crate::text::{chars_of, extend_str, string_of};

verus! {

/// A `..` component of `p` starts at `i`.
pub open spec fn parent_component_at(p: Seq<char>, i: int) -> bool {
    &&& 0 <= i
    &&& i + 2 <= p.len()
    &&& p[i] == '.'
    &&& p[i + 1] == '.'
    &&& (i == 0 || p[i - 1] == '/')
    &&& (i + 2 == p.len() || p[i + 2] == '/')
}

/// `p` could leave the directory it is read against: it is absolute, or one
/// of its components is `..`.
pub open spec fn escapes_root(p: Seq<char>) -> bool {
    ||| (p.len() > 0 && p[0] == '/')
    ||| exists|i: int| parent_component_at(p, i)
}

/// Whether `path` could leave the directory it is read against.
pub fn path_escapes_root(path: &str) -> (r: bool)
    ensures
        r == escapes_root(path@),
{
    let p = chars_of(path);
    let n = p.len();
    if n > 0 && p[0] == '/' {
        return true;
    }
    let mut i: usize = 0;
    while i < n && n - i >= 2
        invariant
            p@ == path@,
            n == p@.len(),
            i <= n,
            forall|j: int| 0 <= j < i ==> !parent_component_at(p@, j),
        decreases n - i,
    {
        if p[i] == '.' && p[i + 1] == '.' && (i == 0 || p[i - 1] == '/') && (i + 2 == n || p[i + 2]
            == '/') {
            assert(parent_component_at(p@, i as int));
            return true;
        }
        i = i + 1;
    }
    proof {
        assert forall|j: int| !parent_component_at(p@, j) by {
            if parent_component_at(p@, j) {
                assert(j < i || j + 2 > n);
            }
        }
    }
    false
}

/// `e` is `PluginError::Other` with the text `m`.
pub open spec fn other_text(e: PluginError, m: Seq<char>) -> bool {
    e matches PluginError::Other(t) && t@ == m
}

/// `e` is the single manifest validation error `m`.
pub open spec fn validation_text(e: PluginError, m: Seq<char>) -> bool {
    e matches PluginError::ManifestValidation { errors } && errors@.len() == 1 && errors@[0]@ == m
}

/// A path inside a fetched source (a subdirectory of a repository): it must
/// be relative and stay inside.
pub fn safe_relative_path(path: &str) -> (r: Result<String, PluginError>)
    ensures
        !escapes_root(path@) ==> (r matches Ok(p) && p@ == path@),
        escapes_root(path@) ==> (r matches Err(e) && other_text(
            e,
            "unsafe relative path `"@ + path@ + "`"@,
        )),
{
    if path_escapes_root(path) {
        let mut t = chars_of("unsafe relative path `");
        extend_str(&mut t, path);
        extend_str(&mut t, "`");
        return Err(PluginError::Other(string_of(t.as_slice())));
    }
    Ok(path.to_owned())
}

/// A file that a plugin's manifest names relative to the plugin root, before
/// it is resolved on disk: it must be relative and stay inside.
pub fn check_plugin_file(relative: &str) -> (r: Result<(), PluginError>)
    ensures
        r is Ok <==> !escapes_root(relative@),
        r matches Err(e) ==> validation_text(
            e,
            "plugin config path `"@ + relative@ + "` escapes plugin root"@,
        ),
{
    if path_escapes_root(relative) {
        let mut t = chars_of("plugin config path `");
        extend_str(&mut t, relative);
        extend_str(&mut t, "` escapes plugin root");
        let mut errors: Vec<String> = Vec::new();
        errors.push(string_of(t.as_slice()));
        return Err(PluginError::ManifestValidation { errors });
    }
    Ok(())
}

/// The canonical path `path` lies in the canonical directory `root`: they
/// are equal, or `root`'s components begin `path`'s.
pub open spec fn inside_root(path: Seq<char>, root: Seq<char>) -> bool {
    ||| path == root
    ||| (root.len() < path.len() && path.take(root.len() as int) == root && (root.len() > 0
        && root.last() == '/' || path[root.len() as int] == '/'))
}

/// Whether the canonical path `path` lies in the canonical directory `root`.
pub fn is_inside_root(path: &str, root: &str) -> (r: bool)
    ensures
        r == inside_root(path@, root@),
{
    let p = chars_of(path);
    let q = chars_of(root);
    if crate::text::seq_eq(p.as_slice(), q.as_slice()) {
        return true;
    }
    if q.len() >= p.len() {
        return false;
    }
    if !crate::text::starts_with_exec(p.as_slice(), q.as_slice()) {
        return false;
    }
    (q.len() > 0 && q[q.len() - 1] == '/') || p[q.len()] == '/'
}

/// A plugin file after it was resolved on disk (`resolved` and `root`
/// canonical): it must lie inside the plugin root.
pub fn check_resolved_plugin_file(relative: &str, root: &str, resolved: &str) -> (r: Result<
    (),
    PluginError,
>)
    ensures
        r is Ok <==> inside_root(resolved@, root@),
        r matches Err(e) ==> validation_text(
            e,
            "plugin config path `"@ + relative@ + "` resolves outside plugin root"@,
        ),
{
    if !is_inside_root(resolved, root) {
        let mut t = chars_of("plugin config path `");
        extend_str(&mut t, relative);
        extend_str(&mut t, "` resolves outside plugin root");
        let mut errors: Vec<String> = Vec::new();
        errors.push(string_of(t.as_slice()));
        return Err(PluginError::ManifestValidation { errors });
    }
    Ok(())
}

} // verus!
