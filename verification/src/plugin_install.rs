//! Planning an install or upgrade: given the plugins prepared for it (the
//! requested one and what it needs), check every version requirement, pick
//! the plugins that change, and check the graph they would form with the
//! installed ones. Fetching and copying the plugins happens around this.
use vstd::prelude::*;

use crate::plugin_graph::{
    id_key, keys_of, node_view, plan_problem, plan_sound, validate_planned_graph, views,
    DependencyNode, Key, NodeView,
};
use crate::plugin_id::{id_text, PluginId};
use crate::plugin_manifest::{version_matches, version_req_matches, DependencyRef};
use crate::plugin_registry::{entry_index, entry_views, lemma_entry_index, PluginEntry, PluginRegistry};
use crate::plugin_tools::{DependencyReason, PluginError};

verus! {

/// A requirement met while preparing an install: `plugin` at a version that
/// `version` accepts, required by `required_by`.
#[derive(Debug, Clone)]
pub struct VersionRequirement {
    pub plugin: PluginId,
    pub version: semver::VersionReq,
    pub required_by: PluginId,
}

/// The last prepared plugin with key `k`.
pub open spec fn prepared_index(p: Seq<NodeView>, k: Key) -> Option<int>
    decreases p.len(),
{
    if p.len() == 0 {
        None
    } else if p.last().0 == k {
        Some(p.len() - 1)
    } else {
        prepared_index(p.drop_last(), k)
    }
}

proof fn lemma_prepared_index(p: Seq<NodeView>, k: Key)
    ensures
        prepared_index(p, k) matches Some(j) ==> 0 <= j < p.len() && p[j].0 == k,
        prepared_index(p, k) is None ==> forall|j: int| 0 <= j < p.len() ==> p[j].0 != k,
    decreases p.len(),
{
    if p.len() > 0 {
        lemma_prepared_index(p.drop_last(), k);
        assert forall|j: int| 0 <= j < p.len() - 1 implies p.drop_last()[j] == p[j] by {}
    }
}

/// The version the plugin with key `k` would have after the install: the
/// prepared one's, else the installed one's.
pub open spec fn candidate_version(s: Seq<PluginEntry>, p: Seq<NodeView>, k: Key) -> Option<
    semver::Version,
> {
    match prepared_index(p, k) {
        Some(j) => Some(p[j].1),
        None => match entry_index(s, k) {
            Some(i) => Some(s[i].plugin.version),
            None => None,
        },
    }
}

/// The requirement `r` holds after the install.
pub open spec fn requirement_met(s: Seq<PluginEntry>, p: Seq<NodeView>, r: VersionRequirement) -> bool {
    candidate_version(s, p, id_key(r.plugin)) matches Some(v) && version_matches(r.version, v)
}

/// `e` is the error for the unmet requirement `r`.
pub open spec fn requirement_error(
    s: Seq<PluginEntry>,
    p: Seq<NodeView>,
    r: VersionRequirement,
    e: PluginError,
) -> bool {
    match candidate_version(s, p, id_key(r.plugin)) {
        None => e matches PluginError::DependencyUnsatisfied { dependency, reason } && dependency@
            == id_text(r.plugin.name@, r.plugin.marketplace@) && reason == DependencyReason::NotFound,
        Some(v) => e matches PluginError::DependencyVersionConflict { plugin, required, actual, required_by }
            && *plugin == r.plugin && *required == r.version && *actual == v && *required_by
            == r.required_by,
    }
}

/// The version `id` would have after the install, found as
/// [`candidate_version`] says.
fn find_candidate(registry: &PluginRegistry, prepared: &Vec<DependencyNode>, id: &PluginId) -> (r:
    Option<semver::Version>)
    ensures
        r == candidate_version(registry.spec_entries(), views(prepared@), id_key(*id)),
{
    let ghost p = views(prepared@);
    let mut j: usize = prepared.len();
    assert(p.take(prepared@.len() as int) =~= p);
    while j > 0
        invariant
            j <= prepared@.len(),
            p == views(prepared@),
            prepared_index(p, id_key(*id)) == prepared_index(p.take(j as int), id_key(*id)),
        decreases j,
    {
        let n = &prepared[j - 1];
        proof {
            assert(p.take(j as int).drop_last() =~= p.take(j - 1));
            assert(p.take(j as int).last() == node_view(*n));
        }
        if crate::text::str_eq(n.id.name.as_str(), id.name.as_str()) && crate::text::str_eq(
            n.id.marketplace.as_str(),
            id.marketplace.as_str(),
        ) {
            return Some(n.version.clone());
        }
        j = j - 1;
    }
    proof {
        assert(p.take(0) =~= Seq::<NodeView>::empty());
    }
    match registry.get(id) {
        Some(e) => Some(e.plugin.version.clone()),
        None => None,
    }
}

/// Check the requirements met while preparing, in order: each names a
/// plugin that will be there, at a version it accepts; the first one that
/// does not is the error.
pub fn check_requirements(
    registry: &PluginRegistry,
    prepared: &Vec<DependencyNode>,
    requirements: &Vec<VersionRequirement>,
) -> (r: Result<(), PluginError>)
    ensures
        ({
            let s = registry.spec_entries();
            let p = views(prepared@);
            let rs = requirements@;
            &&& r is Ok <==> forall|i: int| 0 <= i < rs.len() ==> #[trigger] requirement_met(s, p, rs[i])
            &&& r matches Err(e) ==> exists|i: int|
                0 <= i < rs.len() && !#[trigger] requirement_met(s, p, rs[i]) && requirement_error(s, p, rs[i], e)
                    && forall|m: int| 0 <= m < i ==> requirement_met(s, p, rs[m])
        }),
{
    let ghost s = registry.spec_entries();
    let ghost p = views(prepared@);
    let mut i: usize = 0;
    while i < requirements.len()
        invariant
            i <= requirements@.len(),
            s == registry.spec_entries(),
            p == views(prepared@),
            forall|m: int| 0 <= m < i ==> requirement_met(s, p, #[trigger] requirements@[m]),
        decreases requirements.len() - i,
    {
        let req = &requirements[i];
        match find_candidate(registry, prepared, &req.plugin) {
            None => {
                assert(!requirement_met(s, p, requirements@[i as int]));
                return Err(
                    PluginError::DependencyUnsatisfied {
                        dependency: req.plugin.to_string(),
                        reason: DependencyReason::NotFound,
                    },
                );
            },
            Some(v) => {
                if !version_req_matches(&req.version, &v) {
                    assert(!requirement_met(s, p, requirements@[i as int]));
                    return Err(
                        PluginError::DependencyVersionConflict {
                            plugin: Box::new(req.plugin.clone()),
                            required: Box::new(req.version.clone()),
                            actual: Box::new(v),
                            required_by: Box::new(req.required_by.clone()),
                        },
                    );
                }
            },
        }
        i = i + 1;
    }
    Ok(())
}


/// Whether two versions are the same (`==` on `semver::Version`).
pub uninterp spec fn same_version(a: semver::Version, b: semver::Version) -> bool;

/// `<semver::Version as PartialEq>::eq`, which `derive` writes over the
/// version's numbers, pre-release and build identifiers; its answer is named.
#[verifier::external_body]
fn versions_equal(a: &semver::Version, b: &semver::Version) -> (r: bool)
    ensures
        r == same_version(*a, *b),
{
    a == b
}

/// The prepared plugin `n` changes what is installed: it is not installed,
/// or at another version, or it is the plugin being upgraded.
pub open spec fn changes(s: Seq<PluginEntry>, n: NodeView, root: Key, upgrading: bool) -> bool {
    ||| match entry_index(s, n.0) {
        None => true,
        Some(i) => !same_version(s[i].plugin.version, n.1),
    }
    ||| upgrading && n.0 == root
}

/// The positions, among the first `n` prepared plugins, of those that change.
pub open spec fn changed_indices(s: Seq<PluginEntry>, p: Seq<NodeView>, n: int, root: Key, upgrading: bool) -> Seq<int>
    decreases n,
{
    if n <= 0 {
        seq![]
    } else {
        let before = changed_indices(s, p, n - 1, root, upgrading);
        if changes(s, p[n - 1], root, upgrading) {
            before.push(n - 1)
        } else {
            before
        }
    }
}

proof fn lemma_changed_indices(s: Seq<PluginEntry>, p: Seq<NodeView>, n: int, root: Key, upgrading: bool)
    requires
        0 <= n <= p.len(),
    ensures
        forall|a: int| 0 <= a < changed_indices(s, p, n, root, upgrading).len() ==> 0 <= #[trigger] changed_indices(s, p, n, root, upgrading)[a] < n,
    decreases n,
{
    if n > 0 {
        lemma_changed_indices(s, p, n - 1, root, upgrading);
        let before = changed_indices(s, p, n - 1, root, upgrading);
        let after = changed_indices(s, p, n, root, upgrading);
        assert forall|a: int| 0 <= a < after.len() implies 0 <= #[trigger] after[a] < n by {
            if a < before.len() {
                assert(after[a] == before[a]);
            }
        }
    }
}

/// The installed graph with a prepared plugin put in: in place of the node
/// with its key, or added.
pub open spec fn overlay(ns: Seq<NodeView>, n: NodeView) -> Seq<NodeView> {
    match crate::plugin_graph::node_index(crate::plugin_graph::graph_of(ns), n.0) {
        Some(i) => ns.update(i, n),
        None => ns.push(n),
    }
}

/// The graph an install would leave: the installed plugins with the
/// prepared ones at the positions `idx` put in, in that order.
pub open spec fn planned(ns: Seq<NodeView>, p: Seq<NodeView>, idx: Seq<int>) -> Seq<NodeView>
    decreases idx.len(),
{
    if idx.len() == 0 {
        ns
    } else {
        overlay(planned(ns, p, idx.drop_last()), p[idx.last()])
    }
}

fn copy_node(n: &DependencyNode) -> (r: DependencyNode)
    ensures
        node_view(r) == node_view(*n),
{
    let mut dependencies: Vec<DependencyRef> = Vec::new();
    let mut k: usize = 0;
    while k < n.dependencies.len()
        invariant
            k <= n.dependencies@.len(),
            dependencies@ == n.dependencies@.take(k as int),
        decreases n.dependencies.len() - k,
    {
        dependencies.push(n.dependencies[k].clone());
        proof {
            assert(dependencies@ =~= n.dependencies@.take(k + 1));
        }
        k = k + 1;
    }
    proof {
        assert(dependencies@ =~= n.dependencies@);
    }
    DependencyNode { id: n.id.clone(), version: n.version.clone(), active: n.active, dependencies }
}

/// Plan an install or upgrade of `root` from the plugins `prepared` for it
/// and the requirements met while preparing them: the requirements must
/// hold ([`check_requirements`]), and the graph that the prepared plugins
/// that change would form with the installed plugins must be sound. An
/// enabled plugin may be replaced; it stays enabled (see
/// [`PluginRegistry::install_prepared`]). The result is the plugins to
/// install, in order.
pub fn plan_install(
    registry: &PluginRegistry,
    prepared: &Vec<DependencyNode>,
    requirements: &Vec<VersionRequirement>,
    root: &PluginId,
    upgrading: bool,
) -> (r: Result<Vec<PluginId>, PluginError>)
    ensures
        ({
            let s = registry.spec_entries();
            let p = views(prepared@);
            let rs = requirements@;
            let met = forall|i: int| 0 <= i < rs.len() ==> #[trigger] requirement_met(s, p, rs[i]);
            let idx = changed_indices(s, p, p.len() as int, id_key(*root), upgrading);
            let ns = planned(entry_views(s), p, idx);
            &&& !met ==> (r matches Err(e) && exists|i: int|
                0 <= i < rs.len() && !#[trigger] requirement_met(s, p, rs[i]) && requirement_error(s, p, rs[i], e)
                    && forall|m: int| 0 <= m < i ==> requirement_met(s, p, rs[m]))
            &&& met ==> {
                &&& r is Ok <==> plan_sound(ns)
                &&& r matches Err(e) ==> plan_problem(ns, e)
                &&& r matches Ok(ids) ==> keys_of(ids@) == idx.map_values(|j: int| p[j].0)
            }
        }),
{
    let ghost s = registry.spec_entries();
    let ghost p = views(prepared@);
    let ghost key = id_key(*root);
    match check_requirements(registry, prepared, requirements) {
        Ok(()) => {},
        Err(e) => {
            return Err(e);
        },
    }
    // The prepared plugins that change.
    let mut idx: Vec<usize> = Vec::new();
    let mut j: usize = 0;
    while j < prepared.len()
        invariant
            j <= prepared@.len(),
            s == registry.spec_entries(),
            p == views(prepared@),
            key == id_key(*root),
            idx@.map_values(|x: usize| x as int) == changed_indices(s, p, j as int, key, upgrading),
            forall|i: int| 0 <= i < requirements@.len() ==> #[trigger] requirement_met(s, p, requirements@[i]),
        decreases prepared.len() - j,
    {
        let n = &prepared[j];
        let changed = match registry.get(&n.id) {
            None => true,
            Some(e) => !versions_equal(&e.plugin.version, &n.version),
        } || (upgrading && crate::text::str_eq(n.id.name.as_str(), root.name.as_str())
            && crate::text::str_eq(n.id.marketplace.as_str(), root.marketplace.as_str()));
        proof {
            assert(p[j as int] == node_view(*n));
            assert(changed == changes(s, p[j as int], key, upgrading));
        }
        let ghost before = idx@;
        if changed {
            idx.push(j);
            proof {
                assert(idx@.map_values(|x: usize| x as int) =~= before.map_values(|x: usize| x as int).push(j as int));
            }
        }
        j = j + 1;
    }
    let ghost cidx = changed_indices(s, p, p.len() as int, key, upgrading);
    proof {
        lemma_changed_indices(s, p, p.len() as int, key, upgrading);
    }
    // The graph the install would leave.
    let mut nodes = registry.dependency_nodes();
    let mut ids: Vec<PluginId> = Vec::new();
    let mut b: usize = 0;
    proof {
        assert(cidx.take(0) =~= Seq::<int>::empty());
        assert(keys_of(ids@) =~= cidx.take(0).map_values(|j: int| p[j].0));
    }
    while b < idx.len()
        invariant
            b <= idx@.len(),
            s == registry.spec_entries(),
            p == views(prepared@),
            idx@.map_values(|x: usize| x as int) == cidx,
            forall|c: int| 0 <= c < cidx.len() ==> 0 <= #[trigger] cidx[c] < p.len(),
            views(nodes@) == planned(entry_views(s), p, cidx.take(b as int)),
            cidx == changed_indices(s, p, p.len() as int, id_key(*root), upgrading),
            forall|i: int| 0 <= i < requirements@.len() ==> #[trigger] requirement_met(s, p, requirements@[i]),
            keys_of(ids@) == cidx.take(b as int).map_values(|j: int| p[j].0),
        decreases idx.len() - b,
    {
        assert(cidx[b as int] == idx@[b as int] as int);
        let n = &prepared[idx[b]];
        assert(p[cidx[b as int]] == node_view(*n));
        let ghost before = views(nodes@);
        proof {
            assert(cidx.take(b + 1).drop_last() =~= cidx.take(b as int));
            assert(cidx.take(b + 1).last() == cidx[b as int]);
        }
        match crate::plugin_graph::find_node(&nodes, &n.id) {
            Some(i) => {
                proof {
                    crate::plugin_graph::lemma_node_index(crate::plugin_graph::graph_of(before), id_key(n.id));
                }
                nodes.set(i, copy_node(n));
                proof {
                    assert(views(nodes@) =~= before.update(i as int, node_view(*n)));
                }
            },
            None => {
                nodes.push(copy_node(n));
                proof {
                    assert(views(nodes@) =~= before.push(node_view(*n)));
                }
            },
        }
        let ghost ids_before = ids@;
        ids.push(n.id.clone());
        proof {
            assert(keys_of(ids@) =~= keys_of(ids_before).push(id_key(n.id)));
            assert(cidx.take(b + 1).map_values(|j: int| p[j].0) =~= cidx.take(b as int).map_values(
                |j: int| p[j].0,
            ).push(p[cidx[b as int]].0));
        }
        b = b + 1;
    }
    proof {
        assert(cidx.take(cidx.len() as int) =~= cidx);
        assert(idx@.len() == cidx.len());
    }
    match validate_planned_graph(&nodes) {
        Ok(()) => Ok(ids),
        Err(e) => Err(e),
    }
}


/// Whether `id` may be upgraded: it must be installed (enabled or not).
pub fn check_upgrade(registry: &PluginRegistry, id: &PluginId) -> (r: Result<(), PluginError>)
    ensures
        r is Ok <==> entry_index(registry.spec_entries(), id_key(*id)) is Some,
        r matches Err(e) ==> crate::plugin_registry::not_found(e, id_key(*id)),
{
    match registry.get(id) {
        None => Err(
            PluginError::PluginNotFound { plugin_id: id.to_string(), marketplace: id.marketplace.clone() },
        ),
        Some(_) => Ok(()),
    }
}

} // verus!
