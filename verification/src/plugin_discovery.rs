//! A plugin read from its installed directory: what its manifest and the
//! files found next to it make of it. Reading the directory happens around
//! this.
//!
//! Paths are compared component by component, as paths are ordered: `/`
//! sorts below every other character. Paths hold no NUL character.
use vstd::prelude::*;

use crate::plugin_command::{join_path, path_join};
use crate::plugin_graph::id_key;
use crate::plugin_id::PluginId;
use crate::plugin_manifest::{DependencyRef, PluginSource};
use crate::plugin_registry::LoadedPlugin;
use crate::plugin_tools::PluginError;
use crate::text::{lex_lt, texts};

use crate::plugin_config::PluginConfigSchema;

verus! {

/// The text a path is ordered by: its separators below every character.
pub open spec fn path_key(p: Seq<char>) -> Seq<char> {
    p.map_values(|c: char| if c == '/' { '\0' } else { c })
}

/// Some path of `out` has the key `k`.
#[verifier::opaque]
pub open spec fn has_key(out: Seq<Seq<char>>, k: Seq<char>) -> bool {
    exists|r: int| 0 <= r < out.len() && path_key(out[r]) == k
}

/// No path before the `j`th of `xs` equals it.
#[verifier::opaque]
pub open spec fn first_of_key(xs: Seq<Seq<char>>, j: int) -> bool {
    forall|m: int| 0 <= m < j ==> path_key(xs[m]) != path_key(xs[j])
}

/// `o` is a path of `xs`, the first one equal to it.
#[verifier::opaque]
pub open spec fn from_first(xs: Seq<Seq<char>>, o: Seq<char>) -> bool {
    exists|j: int| 0 <= j < xs.len() && xs[j] == o && first_of_key(xs, j)
}

/// `out` holds, in path order and once each, the paths of `xs`: for each
/// path the first one of `xs` that is equal to it.
pub open spec fn sorted_unique_paths(out: Seq<Seq<char>>, xs: Seq<Seq<char>>) -> bool {
    &&& forall|a: int, b: int|
        0 <= a < b < out.len() ==> lex_lt(path_key(#[trigger] out[a]), path_key(#[trigger] out[b]))
    &&& forall|j: int| 0 <= j < xs.len() ==> has_key(out, path_key(#[trigger] xs[j]))
    &&& forall|r: int| 0 <= r < out.len() ==> from_first(xs, #[trigger] out[r])
}

proof fn lemma_first_of_prefix(t: Seq<Seq<char>>, x: Seq<char>, j: int)
    requires
        0 <= j < t.len(),
        first_of_key(t, j),
    ensures
        first_of_key(t.push(x), j),
{
    reveal(first_of_key);
    let t2 = t.push(x);
    assert forall|m: int| 0 <= m < j implies path_key(t2[m]) != path_key(t2[j]) by {
        assert(t2[m] == t[m]);
        assert(t2[j] == t[j]);
    }
}

proof fn lemma_duplicate_step(os: Seq<Seq<char>>, t: Seq<Seq<char>>, x: Seq<char>, p: int)
    requires
        sorted_unique_paths(os, t),
        0 <= p < os.len(),
        path_key(os[p]) == path_key(x),
    ensures
        sorted_unique_paths(os, t.push(x)),
{
    let t2 = t.push(x);
    assert forall|j: int| 0 <= j < t2.len() implies has_key(os, path_key(#[trigger] t2[j])) by {
        if j < t.len() {
            assert(t2[j] == t[j]);
        } else {
            reveal(has_key);
            assert(path_key(os[p]) == path_key(t2[j]));
        }
    }
    assert forall|r: int| 0 <= r < os.len() implies from_first(t2, #[trigger] os[r]) by {
        assert(from_first(t, os[r]));
        reveal(from_first);
        let j = choose|j: int| 0 <= j < t.len() && t[j] == os[r] && first_of_key(t, j);
        lemma_first_of_prefix(t, x, j);
        assert(t2[j] == os[r]);
    }
}

proof fn lemma_insert_step(os: Seq<Seq<char>>, t: Seq<Seq<char>>, x: Seq<char>, p: int)
    requires
        sorted_unique_paths(os, t),
        0 <= p <= os.len(),
        forall|j: int| 0 <= j < p ==> lex_lt(path_key(#[trigger] os[j]), path_key(x)),
        p < os.len() ==> !lex_lt(path_key(os[p]), path_key(x)) && path_key(os[p]) != path_key(x),
    ensures
        sorted_unique_paths(os.insert(p, x), t.push(x)),
{
    let kx = path_key(x);
    let t2 = t.push(x);
    let ns = os.insert(p, x);
    assert forall|j: int| p <= j < os.len() implies lex_lt(kx, path_key(#[trigger] os[j])) by {
        crate::text::lemma_lex_lt_total(path_key(os[p]), kx);
        if j > p {
            crate::text::lemma_lex_lt_trans(kx, path_key(os[p]), path_key(os[j]));
        }
    }
    assert forall|j: int| 0 <= j < os.len() implies path_key(#[trigger] os[j]) != kx by {
        crate::text::lemma_lex_lt_irreflexive(kx);
    }
    assert forall|a: int, b: int| 0 <= a < b < ns.len() implies lex_lt(
        path_key(#[trigger] ns[a]),
        path_key(#[trigger] ns[b]),
    ) by {
        if a == p {
            assert(ns[b] == os[b - 1]);
        } else if b == p {
            assert(ns[a] == os[a]);
        } else {
            let aa = if a < p { a } else { a - 1 };
            let bb = if b < p { b } else { b - 1 };
            assert(ns[a] == os[aa] && ns[b] == os[bb]);
        }
    }
    assert forall|j: int| 0 <= j < t2.len() implies has_key(ns, path_key(#[trigger] t2[j])) by {
        reveal(has_key);
        if j < t.len() {
            assert(t2[j] == t[j]);
            assert(has_key(os, path_key(t[j])));
            let r = choose|r: int| 0 <= r < os.len() && path_key(os[r]) == path_key(t[j]);
            if r < p {
                assert(ns[r] == os[r]);
            } else {
                assert(ns[r + 1] == os[r]);
            }
        } else {
            assert(ns[p] == x);
        }
    }
    assert forall|r: int| 0 <= r < ns.len() implies from_first(t2, #[trigger] ns[r]) by {
        reveal(from_first);
        if r == p {
            assert(t2[t.len() as int] == ns[r]);
            assert(first_of_key(t2, t.len() as int)) by {
                reveal(first_of_key);
                assert forall|m: int| 0 <= m < t.len() implies path_key(#[trigger] t2[m]) != path_key(t2[t.len() as int]) by {
                    assert(t2[m] == t[m]);
                    assert(has_key(os, path_key(t[m])));
                    reveal(has_key);
                    let q = choose|q: int| 0 <= q < os.len() && path_key(os[q]) == path_key(t[m]);
                    assert(path_key(os[q]) != kx);
                }
            }
        } else {
            let rr = if r < p { r } else { r - 1 };
            assert(ns[r] == os[rr]);
            assert(from_first(t, os[rr]));
            let j = choose|j: int| 0 <= j < t.len() && t[j] == os[rr] && first_of_key(t, j);
            lemma_first_of_prefix(t, x, j);
            assert(t2[j] == ns[r]);
        }
    }
}

fn path_key_exec(p: &str) -> (r: Vec<char>)
    ensures
        r@ == path_key(p@),
{
    let v = crate::text::chars_of(p);
    let mut out: Vec<char> = Vec::new();
    let mut i: usize = 0;
    while i < v.len()
        invariant
            i <= v@.len(),
            out@ == path_key(v@.take(i as int)),
        decreases v.len() - i,
    {
        out.push(if v[i] == '/' { '\0' } else { v[i] });
        proof {
            assert(out@ =~= path_key(v@.take(i + 1)));
        }
        i = i + 1;
    }
    proof {
        assert(v@.take(v@.len() as int) =~= v@);
    }
    out
}

/// Sort `paths` in path order and drop the repeats, keeping the first of
/// equal paths (as a stable sort followed by `dedup` does).
pub fn sort_paths(paths: Vec<String>) -> (r: Vec<String>)
    ensures
        sorted_unique_paths(texts(r@), texts(paths@)),
{
    let ghost xs = texts(paths@);
    let mut out: Vec<String> = Vec::new();
    let mut i: usize = 0;
    proof {
        assert(texts(out@) =~= Seq::<Seq<char>>::empty());
    }
    while i < paths.len()
        invariant
            i <= paths@.len(),
            xs == texts(paths@),
            sorted_unique_paths(texts(out@), xs.take(i as int)),
        decreases paths.len() - i,
    {
        let ghost os = texts(out@);
        let ghost t = xs.take(i as int);
        let ghost x = xs[i as int];
        assert(x == paths@[i as int]@);
        let kx = path_key_exec(paths[i].as_str());
        let mut p: usize = 0;
        while p < out.len()
            invariant
                p <= out@.len(),
                os == texts(out@),
                kx@ == path_key(x),
                forall|j: int| 0 <= j < p ==> lex_lt(path_key(#[trigger] os[j]), kx@),
            ensures
                p <= out@.len(),
                os == texts(out@),
                forall|j: int| 0 <= j < p ==> lex_lt(path_key(#[trigger] os[j]), kx@),
                p < out@.len() ==> !lex_lt(path_key(os[p as int]), kx@),
            decreases out.len() - p,
        {
            let ko = path_key_exec(out[p].as_str());
            assert(os[p as int] == out@[p as int]@);
            if !crate::text::lex_lt_exec(ko.as_slice(), kx.as_slice()) {
                break;
            }
            p = p + 1;
        }
        let mut duplicate = false;
        if p < out.len() {
            let ko = path_key_exec(out[p].as_str());
            assert(os[p as int] == out@[p as int]@);
            duplicate = crate::text::seq_eq(ko.as_slice(), kx.as_slice());
        }
        proof {
            assert(xs.take(i + 1) =~= t.push(x));
        }
        if duplicate {
            proof {
                lemma_duplicate_step(os, t, x, p as int);
            }
        } else {
            let item = paths[i].clone();
            out.insert(p, item);
            proof {
                assert(texts(out@) =~= os.insert(p as int, x));
                lemma_insert_step(os, t, x, p as int);
            }
        }
        i = i + 1;
    }
    proof {
        assert(xs.take(paths@.len() as int) =~= xs);
    }
    out
}


/// What discovery reads of a plugin's manifest.
#[derive(Debug, Clone)]
pub struct ManifestFields {
    pub name: String,
    pub version: semver::Version,
    pub dependencies: Vec<DependencyRef>,
    pub tools: Option<Vec<String>>,
    pub skills: Option<Vec<String>>,
    pub agents: Option<Vec<String>>,
    pub prompt_sections: Option<Vec<String>>,
    pub output_styles: Option<Vec<String>>,
    /// Its configuration: `userConfig` and `settings`.
    pub config: PluginConfigSchema,
}

/// `p` without its leading `./` pieces (which name the same place).
pub open spec fn without_dot_prefix(p: Seq<char>) -> Seq<char>
    decreases p.len(),
{
    if p.len() >= 2 && p[0] == '.' && p[1] == '/' {
        without_dot_prefix(p.skip(2))
    } else {
        p
    }
}

/// Where a path that the manifest gives relative to the plugin lies.
pub open spec fn component_path(dir: Seq<char>, p: Seq<char>) -> Seq<char> {
    path_join(dir, without_dot_prefix(p))
}

/// The component paths a manifest lists, resolved against `dir`.
pub open spec fn resolved_paths(dir: Seq<char>, paths: Option<Vec<String>>) -> Seq<Seq<char>> {
    match paths {
        Some(v) => texts(v@).map_values(|p: Seq<char>| component_path(dir, p)),
        None => seq![],
    }
}

fn strip_dot_prefix(p: &str) -> (r: String)
    ensures
        r@ == without_dot_prefix(p@),
{
    let v = crate::text::chars_of(p);
    let mut k: usize = 0;
    assert(v@.skip(0) =~= v@);
    while k < v.len() && v.len() - k >= 2 && v[k] == '.' && v[k + 1] == '/'
        invariant
            k <= v@.len(),
            without_dot_prefix(v@) == without_dot_prefix(v@.skip(k as int)),
        decreases v.len() - k,
    {
        proof {
            assert(v@.skip(k as int).skip(2) =~= v@.skip(k + 2));
        }
        k = k + 2;
    }
    proof {
        let rest = v@.skip(k as int);
        if rest.len() >= 2 {
            assert(rest[0] == v@[k as int] && rest[1] == v@[k + 1]);
        }
    }
    let r = crate::text::slice_chars(v.as_slice(), k, v.len());
    proof {
        assert(r@ =~= v@.skip(k as int));
    }
    crate::text::string_of(r.as_slice())
}

fn resolve_paths(dir: &str, paths: &Option<Vec<String>>) -> (r: Vec<String>)
    ensures
        texts(r@) == resolved_paths(dir@, *paths),
{
    let mut out: Vec<String> = Vec::new();
    match paths {
        None => {
            assert(texts(out@) =~= resolved_paths(dir@, *paths));
        },
        Some(v) => {
            let ghost want = resolved_paths(dir@, *paths);
            let mut i: usize = 0;
            while i < v.len()
                invariant
                    i <= v@.len(),
                    want == texts(v@).map_values(|p: Seq<char>| component_path(dir@, p)),
                    want.len() == v@.len(),
                    out@.len() == i,
                    texts(out@) == want.take(i as int),
                decreases v.len() - i,
            {
                let rel = strip_dot_prefix(v[i].as_str());
                let joined = join_path(dir, rel.as_str());
                let ghost before = out@;
                out.push(joined);
                proof {
                    assert(texts(out@) =~= want.take(i + 1)) by {
                        assert forall|j: int| 0 <= j < i + 1 implies texts(out@)[j] == want[j] by {
                            if j < i {
                                assert(out@[j] == before[j]);
                                assert(texts(before)[j] == want.take(i as int)[j]);
                            }
                        }
                    }
                }
                i = i + 1;
            }
            proof {
                assert(want.take(v@.len() as int) =~= want);
            }
        },
    }
    out
}

/// The id of a plugin installed in the directory `dir_name`: the directory
/// names it (`<name>@<marketplace>`), or else it is the manifest's name in
/// the marketplace `unknown`.
pub open spec fn discovered_id(dir_name: Seq<char>, name: Seq<char>) -> (Seq<char>, Seq<char>) {
    match PluginId::parse_spec(dir_name) {
        Some(k) => k,
        None => (name, "unknown"@),
    }
}

/// `e` is the manifest validation error with the single message `m`.
pub open spec fn validation_error(e: PluginError, m: Seq<char>) -> bool {
    e matches PluginError::ManifestValidation { errors } && errors@.len() == 1 && errors@[0]@ == m
}

fn validation_failure(message: &str) -> (e: PluginError)
    ensures
        validation_error(e, message@),
{
    let mut errors: Vec<String> = Vec::new();
    errors.push(message.to_owned());
    PluginError::ManifestValidation { errors }
}

/// The plugin installed in the directory `dir` (whose last component is
/// `dir_name`), from its manifest's fields and the `.json` files found in
/// its `tools` directory: manifests with the removed `hooks` or
/// `interceptors` fields and manifests without a name are refused; the
/// plugin starts disabled; its component paths are resolved against `dir`,
/// and its tools, those the manifest lists and those found, are sorted and
/// each kept once.
pub fn loaded_plugin_from_manifest(
    dir: &str,
    dir_name: &str,
    manifest: ManifestFields,
    has_hooks: bool,
    has_interceptors: bool,
    tool_files: Vec<String>,
) -> (r: Result<LoadedPlugin, PluginError>)
    ensures
        has_hooks || has_interceptors ==> (r matches Err(e) && validation_error(
            e,
            "the `hooks` and `interceptors` plugin fields were removed; use `policies`"@,
        )),
        !(has_hooks || has_interceptors) && manifest.name@.len() == 0 ==> (r matches Err(e)
            && validation_error(e, "name must not be empty"@)),
        !(has_hooks || has_interceptors) && manifest.name@.len() > 0 ==> (r matches Ok(p) && {
            &&& id_key(p.id) == discovered_id(dir_name@, manifest.name@)
            &&& p.version == manifest.version
            &&& p.dependencies@ == manifest.dependencies@
            &&& p.path@ == dir@
            &&& (p.source matches PluginSource::Local { path } && path@ == dir@)
            &&& !p.enabled
            &&& !p.is_builtin
            &&& sorted_unique_paths(
                texts(p.resolved_tools@),
                resolved_paths(dir@, manifest.tools) + texts(tool_files@),
            )
            &&& texts(p.resolved_skills@) == resolved_paths(dir@, manifest.skills)
            &&& texts(p.resolved_agents@) == resolved_paths(dir@, manifest.agents)
            &&& texts(p.resolved_prompt_sections@) == resolved_paths(dir@, manifest.prompt_sections)
            &&& texts(p.resolved_output_styles@) == resolved_paths(dir@, manifest.output_styles)
            &&& p.config == manifest.config
        }),
{
    if has_hooks || has_interceptors {
        return Err(validation_failure("the `hooks` and `interceptors` plugin fields were removed; use `policies`"));
    }
    if manifest.name.as_str().is_empty() {
        return Err(validation_failure("name must not be empty"));
    }
    let id = match PluginId::parse(dir_name) {
        Some(id) => id,
        None => PluginId { name: manifest.name.clone(), marketplace: "unknown".to_owned() },
    };
    let mut tools = resolve_paths(dir, &manifest.tools);
    let ghost declared = texts(tools@);
    let mut k: usize = 0;
    assert(texts(tool_files@).take(0) =~= Seq::<Seq<char>>::empty());
    assert(declared + texts(tool_files@).take(0) =~= declared);
    while k < tool_files.len()
        invariant
            k <= tool_files@.len(),
            tools@.len() == declared.len() + k,
            texts(tools@) == declared + texts(tool_files@).take(k as int),
        decreases tool_files.len() - k,
    {
        let ghost before = tools@;
        tools.push(tool_files[k].clone());
        proof {
            assert(texts(tools@) =~= declared + texts(tool_files@).take(k + 1)) by {
                assert forall|j: int| 0 <= j < tools@.len() implies texts(tools@)[j] == (declared
                    + texts(tool_files@).take(k + 1))[j] by {
                    if j < before.len() {
                        assert(tools@[j] == before[j]);
                        assert(texts(before)[j] == (declared + texts(tool_files@).take(k as int))[j]);
                    } else {
                        assert(tools@[j]@ == tool_files@[k as int]@);
                    }
                }
            }
        }
        k = k + 1;
    }
    proof {
        assert(texts(tool_files@).take(tool_files@.len() as int) =~= texts(tool_files@));
    }
    let resolved_tools = sort_paths(tools);
    let resolved_skills = resolve_paths(dir, &manifest.skills);
    let resolved_agents = resolve_paths(dir, &manifest.agents);
    let resolved_prompt_sections = resolve_paths(dir, &manifest.prompt_sections);
    let resolved_output_styles = resolve_paths(dir, &manifest.output_styles);
    Ok(LoadedPlugin {
        id,
        version: manifest.version,
        dependencies: manifest.dependencies,
        path: dir.to_owned(),
        source: PluginSource::Local { path: dir.to_owned() },
        enabled: false,
        is_builtin: false,
        resolved_tools,
        resolved_skills,
        resolved_agents,
        resolved_prompt_sections,
        resolved_output_styles,
        config: manifest.config,
    })
}

/// Whether a manifest's parsed value has the removed `hooks` and
/// `interceptors` fields (see [`loaded_plugin_from_manifest`]).
pub fn removed_fields(raw: &serde_json::Value) -> (r: (bool, bool))
    ensures
        r.0 == crate::json::json_field(*raw, "hooks"@) is Some,
        r.1 == crate::json::json_field(*raw, "interceptors"@) is Some,
{
    (crate::json::json_member(raw, "hooks").is_some(), crate::json::json_member(raw, "interceptors").is_some())
}

} // verus!
