//! The plugin dependency graph: which plugins a plugin needs, whether those
//! are present, at an acceptable version and enabled, and whether the
//! requirements run in a circle.
//!
//! A plugin is known by its key, the pair of its name and marketplace. Its
//! edges go to the keys its dependency references resolve to against its own
//! marketplace. Of two nodes with one key, the first one's edges count.
use vstd::prelude::*;

use crate::plugin_id::{id_text, PluginId};
use crate::plugin_manifest::{version_matches, version_req_matches, DependencyRef};
use crate::plugin_tools::{DependencyReason, PluginError};
use crate::text::str_eq;

verus! {

/// A plugin's key: its name and its marketplace.
pub type Key = (Seq<char>, Seq<char>);

/// A graph: each node's key with the keys its edges lead to.
pub type Graph = Seq<(Key, Seq<Key>)>;

/// The key of a plugin id.
pub open spec fn id_key(id: PluginId) -> Key {
    (id.name@, id.marketplace@)
}

/// The keys of a list of ids.
pub open spec fn keys_of(ids: Seq<PluginId>) -> Seq<Key> {
    ids.map_values(|id: PluginId| id_key(id))
}

/// The key a dependency of the plugin `owner` resolves to.
pub open spec fn dep_key(owner: Key, d: DependencyRef) -> Key {
    (
        d.name@,
        match d.marketplace {
            Some(m) => m@,
            None => owner.1,
        },
    )
}

/// The first node with key `k`.
pub open spec fn node_index(g: Graph, k: Key) -> Option<int>
    decreases g.len(),
{
    if g.len() == 0 {
        None
    } else {
        match node_index(g.drop_last(), k) {
            Some(i) => Some(i),
            None => if g.last().0 == k {
                Some(g.len() - 1)
            } else {
                None
            },
        }
    }
}

/// Where `k` leads: the edges of its node, none without one.
pub open spec fn succs(g: Graph, k: Key) -> Seq<Key> {
    match node_index(g, k) {
        Some(i) => g[i].1,
        None => seq![],
    }
}

/// An edge from `a` to `b`.
pub open spec fn edge(g: Graph, a: Key, b: Key) -> bool {
    succs(g, a).contains(b)
}

/// The `i`th step of `p` follows an edge.
pub open spec fn step(g: Graph, p: Seq<Key>, i: int) -> bool {
    edge(g, p[i], p[i + 1])
}

/// Every step of `p` follows an edge.
pub open spec fn is_path(g: Graph, p: Seq<Key>) -> bool {
    forall|i: int| 0 <= i < p.len() - 1 ==> #[trigger] step(g, p, i)
}

/// A path of at least one step that ends where it starts.
pub open spec fn is_cycle(g: Graph, c: Seq<Key>) -> bool {
    c.len() >= 2 && c[0] == c[c.len() - 1] && is_path(g, c)
}

/// A path leads from `a` to `b` (possibly the empty one, `a == b`).
pub open spec fn reaches(g: Graph, a: Key, b: Key) -> bool {
    exists|p: Seq<Key>| p.len() > 0 && p[0] == a && p[p.len() - 1] == b && #[trigger] is_path(g, p)
}

/// No requirement runs in a circle.
pub open spec fn acyclic(g: Graph) -> bool {
    forall|c: Seq<Key>| !#[trigger] is_cycle(g, c)
}

/// No circle can be reached from `root`.
pub open spec fn acyclic_from(g: Graph, root: Key) -> bool {
    forall|c: Seq<Key>| #[trigger] is_cycle(g, c) ==> !reaches(g, root, c[0])
}

/// `node_index` finds the first node with the key.
pub proof fn lemma_node_index(g: Graph, k: Key)
    ensures
        node_index(g, k) matches Some(i) ==> 0 <= i < g.len() && g[i].0 == k && forall|j: int|
            0 <= j < i ==> g[j].0 != k,
        node_index(g, k) is None ==> forall|j: int| 0 <= j < g.len() ==> g[j].0 != k,
    decreases g.len(),
{
    if g.len() > 0 {
        let t = g.drop_last();
        lemma_node_index(t, k);
        assert forall|j: int| 0 <= j < t.len() implies t[j] == g[j] by {}
    }
}

/// The nodes a list of nodes has up to position `i`, in order: a topological
/// order, each node's edges leading to nodes before it.
pub open spec fn ordered_at(g: Graph, order: Seq<Key>, i: int) -> bool {
    forall|t: Key| #[trigger] succs(g, order[i]).contains(t) ==> order.take(i).contains(t)
}

/// Each node of `order` has its edges lead to earlier nodes.
pub open spec fn topological(g: Graph, order: Seq<Key>) -> bool {
    forall|i: int| 0 <= i < order.len() ==> #[trigger] ordered_at(g, order, i)
}

/// In a topological order, a path from an ordered node stays among ordered
/// nodes, each step to an earlier first position.
pub proof fn lemma_path_descends(g: Graph, order: Seq<Key>, p: Seq<Key>)
    requires
        topological(g, order),
        p.len() > 0,
        is_path(g, p),
        order.contains(p[0]),
    ensures
        forall|i: int| 0 <= i < p.len() ==> order.contains(#[trigger] p[i]),
        p.len() > 1 ==> order.index_of_first(p[p.len() - 1])->Some_0 < order.index_of_first(
            p[0],
        )->Some_0,
    decreases p.len(),
{
    if p.len() > 1 {
        let q = p.drop_last();
        assert forall|i: int| 0 <= i < q.len() - 1 implies #[trigger] step(g, q, i) by {
            assert(step(g, p, i));
        }
        lemma_path_descends(g, order, q);
        let n = p.len() - 1;
        let a = p[n - 1];
        let b = p[n];
        assert(q[n - 1] == a);
        assert(order.contains(a));
        order.index_of_first_ensures(a);
        let ia = order.index_of_first(a)->Some_0;
        assert(step(g, p, n - 1));
        assert(ordered_at(g, order, ia));
        assert(succs(g, order[ia]).contains(b));
        assert(order.take(ia).contains(b));
        let j = choose|j: int| 0 <= j < order.take(ia).len() && order.take(ia)[j] == b;
        assert(order[j] == b);
        order.index_of_first_ensures(b);
        assert forall|i: int| 0 <= i < p.len() implies order.contains(#[trigger] p[i]) by {
            if i < n {
                assert(q[i] == p[i]);
            }
        }
        if n > 1 {
            order.index_of_first_ensures(p[0]);
        } else {
            assert(a == p[0]);
        }
    }
}

/// A topological order holds no circle through its nodes.
pub proof fn lemma_no_cycle_through_order(g: Graph, order: Seq<Key>, c: Seq<Key>)
    requires
        topological(g, order),
        c.len() > 0,
        order.contains(c[0]),
    ensures
        !is_cycle(g, c),
{
    if is_cycle(g, c) {
        lemma_path_descends(g, order, c);
    }
}

/// A path extended by one step.
pub proof fn lemma_path_push(g: Graph, p: Seq<Key>, b: Key)
    requires
        p.len() > 0,
        is_path(g, p),
        edge(g, p[p.len() - 1], b),
    ensures
        is_path(g, p.push(b)),
{
    let q = p.push(b);
    assert forall|i: int| 0 <= i < q.len() - 1 implies #[trigger] step(g, q, i) by {
        if i < p.len() - 1 {
            assert(step(g, p, i));
        }
    }
}

/// A step from a reachable node reaches further.
pub proof fn lemma_reaches_step(g: Graph, root: Key, a: Key, b: Key)
    requires
        reaches(g, root, a),
        edge(g, a, b),
    ensures
        reaches(g, root, b),
{
    let p = choose|p: Seq<Key>| p.len() > 0 && p[0] == root && p[p.len() - 1] == a && #[trigger] is_path(g, p);
    lemma_path_push(g, p, b);
    assert(p.push(b)[0] == root);
}

/// Every node reachable from a node of a topological order is in it.
pub proof fn lemma_reachable_in_order(g: Graph, order: Seq<Key>, root: Key, b: Key)
    requires
        topological(g, order),
        order.contains(root),
        reaches(g, root, b),
    ensures
        order.contains(b),
{
    let p = choose|p: Seq<Key>| p.len() > 0 && p[0] == root && p[p.len() - 1] == b && #[trigger] is_path(g, p);
    lemma_path_descends(g, order, p);
}

/// Where every node of a graph is in a topological order, it has no circle.
pub proof fn lemma_order_covers_acyclic(g: Graph, order: Seq<Key>)
    requires
        topological(g, order),
        forall|i: int| 0 <= i < g.len() ==> order.contains(#[trigger] g[i].0),
    ensures
        acyclic(g),
{
    assert forall|c: Seq<Key>| !#[trigger] is_cycle(g, c) by {
        if is_cycle(g, c) {
            assert(step(g, c, 0));
            lemma_node_index(g, c[0]);
            let i = node_index(g, c[0])->Some_0;
            assert(order.contains(g[i].0));
            lemma_no_cycle_through_order(g, order, c);
        }
    }
}

/// Where the nodes reachable from `root` are in a topological order, no
/// circle can be reached from it.
pub proof fn lemma_order_covers_acyclic_from(g: Graph, order: Seq<Key>, root: Key)
    requires
        topological(g, order),
        order.contains(root),
    ensures
        acyclic_from(g, root),
{
    assert forall|c: Seq<Key>| #[trigger] is_cycle(g, c) implies !reaches(g, root, c[0]) by {
        if reaches(g, root, c[0]) {
            lemma_reachable_in_order(g, order, root, c[0]);
            lemma_no_cycle_through_order(g, order, c);
        }
    }
}

// ---------------------------------------------------------------------------
// Plugins as graph nodes
// ---------------------------------------------------------------------------

/// A plugin as the dependency checks see it.
#[derive(Debug, Clone)]
pub struct DependencyNode {
    pub id: PluginId,
    /// The version its manifest declares.
    pub version: semver::Version,
    /// Enabled, possibly with some components failed.
    pub active: bool,
    /// What its manifest requires.
    pub dependencies: Vec<DependencyRef>,
}

/// What the checks read of a plugin: its key, version, whether it is
/// enabled, and its requirements.
pub type NodeView = (Key, semver::Version, bool, Seq<DependencyRef>);

/// What the checks read of a node.
pub open spec fn node_view(n: DependencyNode) -> NodeView {
    (id_key(n.id), n.version, n.active, n.dependencies@)
}

/// What the checks read of a list of nodes.
pub open spec fn views(ns: Seq<DependencyNode>) -> Seq<NodeView> {
    ns.map_values(|n: DependencyNode| node_view(n))
}

/// A node's key and the keys its requirements resolve to.
pub open spec fn edges_of(n: NodeView) -> (Key, Seq<Key>) {
    (n.0, n.3.map_values(|d: DependencyRef| dep_key(n.0, d)))
}

/// The graph a list of plugins forms.
pub open spec fn graph_of(ns: Seq<NodeView>) -> Graph {
    ns.map_values(|n: NodeView| edges_of(n))
}

/// Every key a graph mentions: its nodes' and their edges' targets.
pub open spec fn graph_keys(g: Graph) -> Seq<Key>
    decreases g.len(),
{
    if g.len() == 0 {
        seq![]
    } else {
        graph_keys(g.drop_last()).push(g.last().0) + g.last().1
    }
}

pub proof fn lemma_graph_keys(g: Graph)
    ensures
        forall|i: int| 0 <= i < g.len() ==> graph_keys(g).contains(#[trigger] g[i].0),
        forall|i: int, t: Key| 0 <= i < g.len() && #[trigger] g[i].1.contains(t) ==> graph_keys(g).contains(t),
    decreases g.len(),
{
    if g.len() > 0 {
        let h = g.drop_last();
        lemma_graph_keys(h);
        let base = graph_keys(h).push(g.last().0);
        assert forall|i: int| 0 <= i < g.len() implies graph_keys(g).contains(#[trigger] g[i].0) by {
            if i < h.len() {
                assert(h[i] == g[i]);
                let j = choose|j: int| 0 <= j < graph_keys(h).len() && graph_keys(h)[j] == g[i].0;
                assert(graph_keys(g)[j] == g[i].0);
            } else {
                assert(graph_keys(g)[graph_keys(h).len() as int] == g[i].0);
            }
        }
        assert forall|i: int, t: Key| 0 <= i < g.len() && #[trigger] g[i].1.contains(t) implies graph_keys(g).contains(t) by {
            if i < h.len() {
                assert(h[i] == g[i]);
                let j = choose|j: int| 0 <= j < graph_keys(h).len() && graph_keys(h)[j] == t;
                assert(graph_keys(g)[j] == t);
            } else {
                let j = choose|j: int| 0 <= j < g[i].1.len() && g[i].1[j] == t;
                assert(graph_keys(g)[base.len() + j] == t);
            }
        }
    }
}

/// The keys of a plugin id list, as exec code compares them.
fn same_id(a: &PluginId, b: &PluginId) -> (r: bool)
    ensures
        r == (id_key(*a) == id_key(*b)),
{
    str_eq(a.name.as_str(), b.name.as_str()) && str_eq(a.marketplace.as_str(), b.marketplace.as_str())
}

/// Where `id` first occurs in `ids`.
fn position_of(ids: &Vec<PluginId>, id: &PluginId) -> (r: Option<usize>)
    ensures
        r matches Some(p) ==> p < ids@.len() && keys_of(ids@)[p as int] == id_key(*id),
        r is None ==> !keys_of(ids@).contains(id_key(*id)),
{
    let mut i: usize = 0;
    while i < ids.len()
        invariant
            i <= ids@.len(),
            forall|j: int| 0 <= j < i ==> keys_of(ids@)[j] != id_key(*id),
        decreases ids.len() - i,
    {
        if same_id(&ids[i], id) {
            return Some(i);
        }
        i = i + 1;
    }
    None
}

/// The node that carries `id`'s edges.
pub fn find_node(nodes: &Vec<DependencyNode>, id: &PluginId) -> (r: Option<usize>)
    ensures
        match r {
            Some(i) => node_index(graph_of(views(nodes@)), id_key(*id)) == Some(i as int),
            None => node_index(graph_of(views(nodes@)), id_key(*id)) is None,
        },
{
    let ghost g = graph_of(views(nodes@));
    proof {
        lemma_node_index(g, id_key(*id));
    }
    let mut i: usize = 0;
    while i < nodes.len()
        invariant
            i <= views(nodes@).len(),
            g == graph_of(views(nodes@)),
            forall|j: int| 0 <= j < i ==> g[j].0 != id_key(*id),
        decreases nodes.len() - i,
    {
        if same_id(&nodes[i].id, id) {
            assert(g[i as int] == edges_of(views(nodes@)[i as int]));
            assert(g[i as int].0 == id_key(*id));
            proof {
                lemma_node_index(g, id_key(*id));
            }
            assert(node_index(g, id_key(*id)) == Some(i as int));
            return Some(i);
        }
        assert(g[i as int] == edges_of(views(nodes@)[i as int]));
        i = i + 1;
    }
    None
}

// ---------------------------------------------------------------------------
// What the checks require
// ---------------------------------------------------------------------------

/// The `k`th requirement of the plugin at `i` is met: the plugin it names is
/// present, at a version it accepts, and enabled.
pub open spec fn requirement_met(ns: Seq<NodeView>, i: int, k: int) -> bool {
    let d = ns[i].3[k];
    match node_index(graph_of(ns), dep_key(ns[i].0, d)) {
        Some(j) => version_matches(d.version, ns[j].1) && ns[j].2,
        None => false,
    }
}

/// The plugin at `i` is present with all its requirements met.
pub open spec fn node_sound(ns: Seq<NodeView>, i: int) -> bool {
    forall|k: int| 0 <= k < ns[i].3.len() ==> #[trigger] requirement_met(ns, i, k)
}

/// `root` is present, every plugin it leads to has its requirements met, and
/// no circle of requirements can be reached from it.
pub open spec fn dependencies_sound(ns: Seq<NodeView>, root: Key) -> bool {
    let g = graph_of(ns);
    &&& node_index(g, root) is Some
    &&& forall|a: Key|
        #[trigger] reaches(g, root, a) ==> match node_index(g, a) {
            Some(i) => node_sound(ns, i),
            None => true,
        }
    &&& acyclic_from(g, root)
}

/// `e` reports a real failure of `root`'s requirements: `root` missing, a
/// plugin reachable from it with a requirement on a missing plugin, on one
/// at a version it excludes, or on one not enabled, or a reachable circle.
pub open spec fn dependency_problem(ns: Seq<NodeView>, root: Key, e: PluginError) -> bool {
    let g = graph_of(ns);
    match e {
        PluginError::PluginNotFound { plugin_id, marketplace } => {
            &&& node_index(g, root) is None
            &&& plugin_id@ == id_text(root.0, root.1)
            &&& marketplace@ == root.1
        },
        PluginError::DependencyUnsatisfied { dependency, reason } => exists|i: int, k: int|
            {
                &&& 0 <= i < ns.len()
                &&& node_index(g, ns[i].0) == Some(i)
                &&& reaches(g, root, ns[i].0)
                &&& 0 <= k < ns[i].3.len()
                &&& #[trigger] unsatisfied(ns, i, k, dependency@, reason)
            },
        PluginError::DependencyVersionConflict { plugin, required, actual, required_by } => exists|
            i: int,
            k: int,
        |
            {
                &&& 0 <= i < ns.len()
                &&& node_index(g, ns[i].0) == Some(i)
                &&& reaches(g, root, ns[i].0)
                &&& 0 <= k < ns[i].3.len()
                &&& id_key(*required_by) == ns[i].0
                &&& #[trigger] conflicting(ns, i, k, id_key(*plugin), *required, *actual)
            },
        PluginError::CircularDependency { cycle } => {
            &&& is_cycle(g, keys_of(cycle@))
            &&& reaches(g, root, keys_of(cycle@)[0])
        },
        _ => false,
    }
}

/// The `k`th requirement of the plugin at `i` names `dependency`, a plugin
/// that is missing or, for `NotEnabled`, present but not enabled.
pub open spec fn unsatisfied(
    ns: Seq<NodeView>,
    i: int,
    k: int,
    dependency: Seq<char>,
    reason: DependencyReason,
) -> bool {
    let t = dep_key(ns[i].0, ns[i].3[k]);
    &&& dependency == id_text(t.0, t.1)
    &&& match reason {
        DependencyReason::NotFound => node_index(graph_of(ns), t) is None,
        DependencyReason::NotEnabled => node_index(graph_of(ns), t) matches Some(j) && !ns[j].2,
    }
}

/// The `k`th requirement of the plugin at `i` names `plugin`, present at
/// `actual`, which the requirement's `required` excludes.
pub open spec fn conflicting(
    ns: Seq<NodeView>,
    i: int,
    k: int,
    plugin: Key,
    required: semver::VersionReq,
    actual: semver::Version,
) -> bool {
    let d = ns[i].3[k];
    let t = dep_key(ns[i].0, d);
    &&& plugin == t
    &&& node_index(graph_of(ns), t) matches Some(j) && actual == ns[j].1
    &&& required == d.version
    &&& !version_matches(required, actual)
}

// ---------------------------------------------------------------------------
// Depth-first search
// ---------------------------------------------------------------------------

/// A subrange of a path is a path.
pub proof fn lemma_subpath(g: Graph, p: Seq<Key>, a: int, b: int)
    requires
        is_path(g, p),
        0 <= a <= b <= p.len(),
    ensures
        is_path(g, p.subrange(a, b)),
{
    let q = p.subrange(a, b);
    assert forall|i: int| 0 <= i < q.len() - 1 implies #[trigger] step(g, q, i) by {
        assert(step(g, p, a + i));
    }
}

/// Every target of a node's edges lies in `universe`, a finite set.
pub open spec fn closed_universe(g: Graph, universe: Set<Key>) -> bool {
    &&& universe.finite()
    &&& forall|i: int, t: Key| 0 <= i < g.len() && #[trigger] g[i].1.contains(t) ==> universe.contains(t)
}

/// The search state: the keys on the current path and the finished keys are
/// all distinct and within `universe`, and the finished ones are in a
/// topological order.
pub open spec fn search_state(g: Graph, universe: Set<Key>, stack: Seq<Key>, finished: Seq<Key>) -> bool {
    &&& (stack + finished).no_duplicates()
    &&& forall|k: Key| #[trigger] (stack + finished).contains(k) ==> universe.contains(k)
    &&& topological(g, finished)
}

/// Each finished plugin is present with its requirements met.
pub open spec fn finished_sound(ns: Seq<NodeView>, finished: Seq<Key>) -> bool {
    forall|p: int| 0 <= p < finished.len() ==> #[trigger] sound_at(ns, finished[p])
}

/// The plugin with key `k` is present with its requirements met.
pub open spec fn sound_at(ns: Seq<NodeView>, k: Key) -> bool {
    match node_index(graph_of(ns), k) {
        Some(i) => node_sound(ns, i),
        None => false,
    }
}

/// Distinct keys within a finite set are no more than it holds.
pub proof fn lemma_distinct_within(s: Seq<Key>, universe: Set<Key>)
    requires
        universe.finite(),
        s.no_duplicates(),
        forall|k: Key| #[trigger] s.contains(k) ==> universe.contains(k),
    ensures
        s.len() <= universe.len(),
{
    s.unique_seq_to_set();
    assert(s.to_set().subset_of(universe));
    vstd::set_lib::lemma_len_subset(s.to_set(), universe);
}

/// Extending a topological order at its end keeps the earlier positions.
pub proof fn lemma_topological_extend(g: Graph, order: Seq<Key>, longer: Seq<Key>)
    requires
        topological(g, order),
        order.len() <= longer.len(),
        longer.take(order.len() as int) == order,
        forall|i: int| order.len() <= i < longer.len() ==> #[trigger] ordered_at(g, longer, i),
    ensures
        topological(g, longer),
{
    assert forall|i: int| 0 <= i < longer.len() implies #[trigger] ordered_at(g, longer, i) by {
        if i < order.len() {
            assert(ordered_at(g, order, i));
            assert(longer[i] == order[i]);
            assert(longer.take(i) =~= order.take(i));
        }
    }
}

/// A new key joins distinct keys at the end of the first part or the second.
proof fn lemma_join_distinct(a: Seq<Key>, b: Seq<Key>, x: Key)
    requires
        (a + b).no_duplicates(),
        !(a + b).contains(x),
    ensures
        (a.push(x) + b).no_duplicates(),
        (a + b.push(x)).no_duplicates(),
        forall|y: Key| #[trigger] (a.push(x) + b).contains(y) ==> y == x || (a + b).contains(y),
        forall|y: Key| #[trigger] (a + b.push(x)).contains(y) ==> y == x || (a + b).contains(y),
{
    let ab = a + b;
    let l = a.push(x) + b;
    let r = a + b.push(x);
    assert(r =~= ab.push(x));
    assert forall|i: int, j: int| 0 <= i < j < l.len() implies l[i] != l[j] by {
        let n = a.len() as int;
        if i == n {
            assert(ab.contains(l[j])) by {
                assert(ab[j - 1] == l[j]);
            }
        } else if j == n {
            assert(ab[i] == l[i]);
        } else {
            let ii = if i < n { i } else { i - 1 };
            let jj = if j < n { j } else { j - 1 };
            assert(ab[ii] == l[i]);
            assert(ab[jj] == l[j]);
        }
    }
    assert forall|i: int, j: int| 0 <= i < j < r.len() implies r[i] != r[j] by {
        if j == ab.len() {
            assert(ab[i] == r[i]);
        } else {
            assert(ab[i] == r[i] && ab[j] == r[j]);
        }
    }
    assert forall|y: Key| #[trigger] l.contains(y) implies y == x || ab.contains(y) by {
        let m = choose|m: int| 0 <= m < l.len() && l[m] == y;
        let n = a.len() as int;
        if m < n {
            assert(ab[m] == y);
        } else if m > n {
            assert(ab[m - 1] == y);
        }
    }
    assert forall|y: Key| #[trigger] r.contains(y) implies y == x || ab.contains(y) by {
        let m = choose|m: int| 0 <= m < r.len() && r[m] == y;
        if m < ab.len() {
            assert(ab[m] == y);
        }
    }
}

proof fn lemma_keys_push(v: Seq<PluginId>, x: PluginId)
    ensures
        keys_of(v.push(x)) == keys_of(v).push(id_key(x)),
{
    assert(keys_of(v.push(x)) =~= keys_of(v).push(id_key(x)));
}

/// Visit `id` depth first from the path `stack`, finishing every plugin it
/// leads to. A plugin met again on the path closes a circle. In `strict`
/// mode each plugin must be present and each requirement met.
fn visit(
    nodes: &Vec<DependencyNode>,
    id: &PluginId,
    strict: bool,
    stack: &mut Vec<PluginId>,
    finished: &mut Vec<PluginId>,
    Ghost(root): Ghost<Key>,
    Ghost(universe): Ghost<Set<Key>>,
    Ghost(budget): Ghost<int>,
) -> (r: Result<(), PluginError>)
    requires
        budget == universe.len() - old(stack)@.len() - old(finished)@.len(),
        closed_universe(graph_of(views(nodes@)), universe),
        universe.contains(id_key(*id)),
        search_state(graph_of(views(nodes@)), universe, keys_of(old(stack)@), keys_of(old(finished)@)),
        is_path(graph_of(views(nodes@)), keys_of(old(stack)@).push(id_key(*id))),
        keys_of(old(stack)@).push(id_key(*id))[0] == root,
        strict ==> finished_sound(views(nodes@), keys_of(old(finished)@)),
        strict && old(stack)@.len() > 0 ==> node_index(graph_of(views(nodes@)), id_key(*id)) is Some,
    ensures
        r is Ok ==> {
            &&& final(stack)@ == old(stack)@
            &&& old(finished)@.len() <= final(finished)@.len()
            &&& final(finished)@.take(old(finished)@.len() as int) == old(finished)@
            &&& keys_of(final(finished)@).contains(id_key(*id))
            &&& search_state(
                graph_of(views(nodes@)),
                universe,
                keys_of(final(stack)@),
                keys_of(final(finished)@),
            )
            &&& strict ==> finished_sound(views(nodes@), keys_of(final(finished)@))
        },
        r matches Err(e) ==> dependency_problem(views(nodes@), root, e) && (!strict
            ==> e is CircularDependency),
    decreases budget,
{
    let ghost g = graph_of(views(nodes@));
    let ghost idk = id_key(*id);
    let ghost s0 = stack@;
    let ghost f0 = finished@;
    let ghost path = keys_of(s0).push(idk);
    proof {
        lemma_distinct_within(keys_of(s0) + keys_of(f0), universe);
        assert(path.len() > 0);
        assert(path[path.len() - 1] == idk);
        assert(reaches(g, root, idk));
    }
    if let Some(pos) = position_of(stack, id) {
        let mut cycle: Vec<PluginId> = Vec::new();
        let mut j: usize = pos;
        while j < stack.len()
            invariant
                pos <= j <= stack@.len(),
                stack@ == s0,
                keys_of(cycle@) == keys_of(s0).subrange(pos as int, j as int),
            decreases stack.len() - j,
        {
            let ghost before = cycle@;
            cycle.push(stack[j].clone());
            proof {
                lemma_keys_push(before, stack@[j as int]);
                assert(keys_of(s0).subrange(pos as int, j + 1) =~= keys_of(s0).subrange(
                    pos as int,
                    j as int,
                ).push(id_key(s0[j as int])));
            }
            j = j + 1;
        }
        let ghost before = cycle@;
        cycle.push(id.clone());
        proof {
            lemma_keys_push(before, *id);
            let c = keys_of(cycle@);
            assert(c =~= path.subrange(pos as int, path.len() as int));
            lemma_subpath(g, path, pos as int, path.len() as int);
            assert(c[0] == keys_of(s0)[pos as int]);
            assert(c[0] == idk);
            let q = path.subrange(0, pos + 1);
            lemma_subpath(g, path, 0, pos + 1);
            assert(q[0] == root);
            assert(q[q.len() - 1] == c[0]);
            assert(reaches(g, root, c[0]));
        }
        return Err(PluginError::CircularDependency { cycle });
    }
    if position_of(finished, id).is_some() {
        return Ok(());
    }
    proof {
        assert(!(keys_of(s0) + keys_of(f0)).contains(idk)) by {
            if (keys_of(s0) + keys_of(f0)).contains(idk) {
                let m = choose|m: int| 0 <= m < (keys_of(s0) + keys_of(f0)).len() && (keys_of(s0)
                    + keys_of(f0))[m] == idk;
                if m < keys_of(s0).len() {
                    assert(keys_of(s0)[m] == idk);
                } else {
                    assert(keys_of(f0)[m - keys_of(s0).len()] == idk);
                }
            }
        }
    }
    let i = match find_node(nodes, id) {
        Some(i) => i,
        None => {
            if strict {
                return Err(
                    PluginError::PluginNotFound {
                        plugin_id: id.to_string(),
                        marketplace: id.marketplace.clone(),
                    },
                );
            }
            finished.push(id.clone());
            proof {
                lemma_keys_push(f0, *id);
                let f1 = keys_of(finished@);
                assert(ordered_at(g, f1, f0.len() as int)) by {
                    assert(succs(g, idk) =~= Seq::<Key>::empty());
                }
                assert(finished@.take(f0.len() as int) =~= f0);
                assert(f1.take(f0.len() as int) =~= keys_of(f0));
                lemma_topological_extend(g, keys_of(f0), f1);
                lemma_join_distinct(keys_of(s0), keys_of(f0), idk);
                assert(f1[f1.len() - 1] == idk);
            }
            return Ok(());
        },
    };
    proof {
        lemma_node_index(g, idk);
        assert(g[i as int] == edges_of(views(nodes@)[i as int]));
    }
    stack.push(id.clone());
    proof {
        lemma_keys_push(s0, *id);
        lemma_join_distinct(keys_of(s0), keys_of(f0), idk);
        assert(finished@.take(f0.len() as int) =~= f0);
        assert forall|y: Key| #[trigger] (keys_of(stack@) + keys_of(f0)).contains(y) implies universe.contains(y) by {
            if y != idk {
                assert((keys_of(s0) + keys_of(f0)).contains(y));
            }
        }
        lemma_distinct_within(keys_of(stack@) + keys_of(f0), universe);
    }
    let deps = &nodes[i].dependencies;
    let mut k: usize = 0;
    while k < deps.len()
        invariant
            closed_universe(g, universe),
            g == graph_of(views(nodes@)),
            node_index(g, idk) == Some(i as int),
            i < views(nodes@).len(),
            g[i as int] == edges_of(views(nodes@)[i as int]),
            idk == id_key(*id),
            views(nodes@)[i as int].0 == idk,
            deps@ == views(nodes@)[i as int].3,
            k <= deps@.len(),
            stack@ == s0.push(*id),
            keys_of(stack@) == path,
            is_path(g, path),
            path[0] == root,
            reaches(g, root, idk),
            f0.len() <= finished@.len(),
            finished@.take(f0.len() as int) == f0,
            !keys_of(finished@).contains(idk),
            search_state(g, universe, keys_of(stack@), keys_of(finished@)),
            strict ==> finished_sound(views(nodes@), keys_of(finished@)),
            forall|m: int|
                0 <= m < k ==> keys_of(finished@).contains(
                    #[trigger] dep_key(idk, deps@[m]),
                ),
            strict ==> forall|m: int| 0 <= m < k ==> #[trigger] requirement_met(views(nodes@), i as int, m),
            universe.len() - s0.len() - f0.len() > 0,
            budget == universe.len() - s0.len() - f0.len(),
        decreases deps.len() - k,
    {
        let target = deps[k].resolve(id.marketplace.as_str());
        let ghost t = dep_key(idk, deps@[k as int]);
        let ghost fb = finished@;
        proof {
            assert(id_key(target) == t);
            assert(g[i as int].1[k as int] == t);
            assert(g[i as int].1.contains(t));
            assert(succs(g, idk) == g[i as int].1);
            assert(edge(g, idk, t));
            lemma_path_push(g, path, t);
            lemma_distinct_within(keys_of(stack@) + keys_of(finished@), universe);
            assert(keys_of(stack@).push(t)[0] == root);
            assert(keys_of(stack@).push(t) == path.push(t));
            assert(universe.contains(t));
        }
        if strict {
            match find_node(nodes, &target) {
                None => {
                    let e = PluginError::DependencyUnsatisfied {
                        dependency: target.to_string(),
                        reason: DependencyReason::NotFound,
                    };
                    proof {
                        assert(unsatisfied(views(nodes@), i as int, k as int, id_text(t.0, t.1), DependencyReason::NotFound));
                        assert(node_index(g, views(nodes@)[i as int].0) == Some(i as int));
                        assert(reaches(g, root, views(nodes@)[i as int].0));
                        assert(k < views(nodes@)[i as int].3.len());
                        let dep_text = id_text(t.0, t.1);
                        assert(e matches PluginError::DependencyUnsatisfied { dependency, reason } && dependency@ == dep_text && reason == DependencyReason::NotFound);
                        assert(exists|i2: int, k2: int|
                            {
                                &&& 0 <= i2 < views(nodes@).len()
                                &&& node_index(g, views(nodes@)[i2].0) == Some(i2)
                                &&& reaches(g, root, views(nodes@)[i2].0)
                                &&& 0 <= k2 < views(nodes@)[i2].3.len()
                                &&& #[trigger] unsatisfied(views(nodes@), i2, k2, dep_text, DependencyReason::NotFound)
                            });
                        assert(dependency_problem(views(nodes@), root, e));
                    }
                    return Err(e);
                },
                Some(j) => {
                    proof {
                        lemma_node_index(g, t);
                    }
                    if !version_req_matches(&deps[k].version, &nodes[j].version) {
                        let e = PluginError::DependencyVersionConflict {
                            plugin: Box::new(target.clone()),
                            required: Box::new(deps[k].version.clone()),
                            actual: Box::new(nodes[j].version.clone()),
                            required_by: Box::new(id.clone()),
                        };
                        proof {
                            let req = deps@[k as int].version;
                            let act = views(nodes@)[j as int].1;
                            assert(conflicting(views(nodes@), i as int, k as int, t, req, act));
                            assert(e matches PluginError::DependencyVersionConflict {
                                plugin,
                                required,
                                actual,
                                required_by,
                            } && id_key(*plugin) == t && *required == req && *actual == act && id_key(
                                *required_by,
                            ) == idk);
                            assert(node_index(g, views(nodes@)[i as int].0) == Some(i as int));
                            assert(reaches(g, root, views(nodes@)[i as int].0));
                            assert(exists|i2: int, k2: int|
                                {
                                    &&& 0 <= i2 < views(nodes@).len()
                                    &&& node_index(g, views(nodes@)[i2].0) == Some(i2)
                                    &&& reaches(g, root, views(nodes@)[i2].0)
                                    &&& 0 <= k2 < views(nodes@)[i2].3.len()
                                    &&& idk == views(nodes@)[i2].0
                                    &&& #[trigger] conflicting(views(nodes@), i2, k2, t, req, act)
                                });
                            assert(dependency_problem(views(nodes@), root, e));
                        }
                        return Err(e);
                    }
                    match visit(
                nodes,
                &target,
                strict,
                stack,
                finished,
                Ghost(root),
                Ghost(universe),
                Ghost(universe.len() - stack@.len() - finished@.len()),
            ) {
                        Ok(()) => {},
                        Err(e) => {
                            return Err(e);
                        },
                    }
                    if !nodes[j].active {
                        let e = PluginError::DependencyUnsatisfied {
                            dependency: target.to_string(),
                            reason: DependencyReason::NotEnabled,
                        };
                        proof {
                            let dep_text = id_text(t.0, t.1);
                            assert(unsatisfied(views(nodes@), i as int, k as int, dep_text, DependencyReason::NotEnabled));
                            assert(e matches PluginError::DependencyUnsatisfied { dependency, reason } && dependency@ == dep_text && reason == DependencyReason::NotEnabled);
                            assert(node_index(g, views(nodes@)[i as int].0) == Some(i as int));
                            assert(reaches(g, root, views(nodes@)[i as int].0));
                            assert(exists|i2: int, k2: int|
                                {
                                    &&& 0 <= i2 < views(nodes@).len()
                                    &&& node_index(g, views(nodes@)[i2].0) == Some(i2)
                                    &&& reaches(g, root, views(nodes@)[i2].0)
                                    &&& 0 <= k2 < views(nodes@)[i2].3.len()
                                    &&& #[trigger] unsatisfied(views(nodes@), i2, k2, dep_text, DependencyReason::NotEnabled)
                                });
                            assert(dependency_problem(views(nodes@), root, e));
                        }
                        return Err(e);
                    }
                    proof {
                        assert(requirement_met(views(nodes@), i as int, k as int));
                    }
                },
            }
        } else {
            assert(universe.len() - stack@.len() - finished@.len() < universe.len() - s0.len() - f0.len());
            assert(universe.len() - stack@.len() - finished@.len() >= 0);
            match visit(
                nodes,
                &target,
                strict,
                stack,
                finished,
                Ghost(root),
                Ghost(universe),
                Ghost(universe.len() - stack@.len() - finished@.len()),
            ) {
                Ok(()) => {},
                Err(e) => {
                    return Err(e);
                },
            }
        }
        proof {
            assert(finished@.take(fb.len() as int) == fb);
            assert(finished@.take(f0.len() as int) =~= f0) by {
                assert(fb.take(f0.len() as int) == f0);
            }
            assert forall|m: int| 0 <= m <= k implies keys_of(finished@).contains(
                #[trigger] dep_key(idk, deps@[m]),
            ) by {
                if m < k {
                    let w = dep_key(idk, deps@[m]);
                    assert(keys_of(fb).contains(w));
                    let x = choose|x: int| 0 <= x < keys_of(fb).len() && keys_of(fb)[x] == w;
                    assert(finished@[x] == fb[x]);
                    assert(keys_of(finished@)[x] == w);
                }
            }
            assert(!keys_of(finished@).contains(idk)) by {
                let sk = keys_of(stack@);
                let fk = keys_of(finished@);
                if fk.contains(idk) {
                    let x = choose|x: int| 0 <= x < fk.len() && fk[x] == idk;
                    assert((sk + fk)[sk.len() - 1] == idk);
                    assert((sk + fk)[sk.len() + x] == idk);
                }
            }
        }
        k = k + 1;
    }
    let ghost f1 = finished@;
    stack.pop();
    finished.push(id.clone());
    proof {
        assert(stack@ =~= s0);
        lemma_keys_push(f1, *id);
        let fk = keys_of(finished@);
        assert(fk.take(f1.len() as int) =~= keys_of(f1));
        assert(ordered_at(g, fk, f1.len() as int)) by {
            assert forall|t: Key| #[trigger] succs(g, fk[f1.len() as int]).contains(t) implies fk.take(
                f1.len() as int,
            ).contains(t) by {
                assert(fk[f1.len() as int] == idk);
                let m = choose|m: int| 0 <= m < g[i as int].1.len() && g[i as int].1[m] == t;
                assert(t == dep_key(idk, deps@[m]));
            }
        }
        lemma_topological_extend(g, keys_of(f1), fk);
        assert(finished@.take(f0.len() as int) =~= f0) by {
            assert(f1.take(f0.len() as int) == f0);
        }
        assert(fk[fk.len() - 1] == idk);
        let old_all = keys_of(s0.push(*id)) + keys_of(f1);
        assert((keys_of(s0) + fk).no_duplicates()) by {
            let all = keys_of(s0) + fk;
            assert forall|a: int, b: int| 0 <= a < b < all.len() implies all[a] != all[b] by {
                let sn = keys_of(s0).len();
                if b == all.len() - 1 {
                    if a < sn {
                        assert(old_all[a] == all[a]);
                        assert(old_all[sn as int] == idk);
                    } else {
                        assert(old_all[a + 1] == all[a]);
                        assert(old_all[sn as int] == idk);
                    }
                } else if a < sn && b < sn {
                    assert(old_all[a] == all[a] && old_all[b] == all[b]);
                } else if a < sn {
                    assert(old_all[a] == all[a] && old_all[b + 1] == all[b]);
                } else {
                    assert(old_all[a + 1] == all[a] && old_all[b + 1] == all[b]);
                }
            }
        }
        assert forall|x: Key| #[trigger] (keys_of(s0) + fk).contains(x) implies universe.contains(x) by {
            if x != idk {
                let m = choose|m: int| 0 <= m < (keys_of(s0) + fk).len() && (keys_of(s0) + fk)[m] == x;
                let sn = keys_of(s0).len();
                if m < sn {
                    assert(old_all[m] == x);
                } else {
                    assert(old_all[m + 1] == x);
                }
                assert(old_all.contains(x));
            }
        }
        if strict {
            assert forall|p: int| 0 <= p < fk.len() implies #[trigger] sound_at(views(nodes@), fk[p]) by {
                if p < f1.len() {
                    assert(fk[p] == keys_of(f1)[p]);
                } else {
                    assert(fk[p] == idk);
                }
            }
        }
    }
    Ok(())
}

/// The finite set of keys a search over `g` from `root` can meet.
pub open spec fn search_universe(g: Graph, root: Key) -> Set<Key> {
    graph_keys(g).to_set().insert(root)
}

proof fn lemma_search_universe(g: Graph, root: Key)
    ensures
        closed_universe(g, search_universe(g, root)),
        search_universe(g, root).contains(root),
        forall|i: int| 0 <= i < g.len() ==> search_universe(g, root).contains(#[trigger] g[i].0),
{
    lemma_graph_keys(g);
    vstd::seq_lib::seq_to_set_is_finite(graph_keys(g));
    assert forall|i: int, t: Key| 0 <= i < g.len() && #[trigger] g[i].1.contains(t) implies search_universe(
        g,
        root,
    ).contains(t) by {
        assert(graph_keys(g).contains(t));
    }
    assert forall|i: int| 0 <= i < g.len() implies search_universe(g, root).contains(#[trigger] g[i].0) by {
        assert(graph_keys(g).contains(g[i].0));
    }
}

/// A reported failure is a real one: the requirements are not sound.
pub proof fn lemma_problem_unsound(ns: Seq<NodeView>, root: Key, e: PluginError)
    requires
        dependency_problem(ns, root, e),
    ensures
        !dependencies_sound(ns, root),
{
    let g = graph_of(ns);
    match e {
        PluginError::PluginNotFound { .. } => {},
        PluginError::DependencyUnsatisfied { dependency, reason } => {
            let (i, k) = choose|i: int, k: int|
                {
                    &&& 0 <= i < ns.len()
                    &&& node_index(g, ns[i].0) == Some(i)
                    &&& reaches(g, root, ns[i].0)
                    &&& 0 <= k < ns[i].3.len()
                    &&& #[trigger] unsatisfied(ns, i, k, dependency@, reason)
                };
            assert(!requirement_met(ns, i, k));
            if dependencies_sound(ns, root) {
                assert(node_sound(ns, i));
            }
        },
        PluginError::DependencyVersionConflict { plugin, required, actual, required_by } => {
            let (i, k) = choose|i: int, k: int|
                {
                    &&& 0 <= i < ns.len()
                    &&& node_index(g, ns[i].0) == Some(i)
                    &&& reaches(g, root, ns[i].0)
                    &&& 0 <= k < ns[i].3.len()
                    &&& id_key(*required_by) == ns[i].0
                    &&& #[trigger] conflicting(ns, i, k, id_key(*plugin), *required, *actual)
                };
            assert(!requirement_met(ns, i, k));
            if dependencies_sound(ns, root) {
                assert(node_sound(ns, i));
            }
        },
        PluginError::CircularDependency { cycle } => {
            assert(is_cycle(g, keys_of(cycle@)));
        },
        _ => {},
    }
}

/// Check that the plugin `id` can run: it is present, every plugin its
/// requirements lead to is present, at a version the requirement accepts,
/// and enabled, and no circle of requirements is reachable from it. The
/// failure reported is one that really holds.
pub fn validate_dependencies(nodes: &Vec<DependencyNode>, id: &PluginId) -> (r: Result<
    (),
    PluginError,
>)
    ensures
        r is Ok <==> dependencies_sound(views(nodes@), id_key(*id)),
        r matches Err(e) ==> dependency_problem(views(nodes@), id_key(*id), e),
{
    let ghost g = graph_of(views(nodes@));
    let ghost root = id_key(*id);
    let ghost universe = search_universe(g, root);
    proof {
        lemma_search_universe(g, root);
    }
    let mut stack: Vec<PluginId> = Vec::new();
    let mut finished: Vec<PluginId> = Vec::new();
    proof {
        assert(keys_of(stack@) =~= Seq::<Key>::empty());
        assert(keys_of(finished@) =~= Seq::<Key>::empty());
        assert(keys_of(stack@).push(root) =~= seq![root]);
        assert(is_path(g, seq![root]));
        assert(keys_of(stack@) + keys_of(finished@) =~= Seq::<Key>::empty());
    }
    let r = visit(
        nodes,
        id,
        true,
        &mut stack,
        &mut finished,
        Ghost(root),
        Ghost(universe),
        Ghost(universe.len() - 0 - 0),
    );
    proof {
        if r is Ok {
            {
                let fk = keys_of(finished@);
                assert(fk.contains(root));
                let p = choose|p: int| 0 <= p < fk.len() && fk[p] == root;
                assert(sound_at(views(nodes@), fk[p]));
                assert forall|a: Key| #[trigger] reaches(g, root, a) implies match node_index(g, a) {
                    Some(i) => node_sound(views(nodes@), i),
                    None => true,
                } by {
                    lemma_reachable_in_order(g, fk, root, a);
                    let q = choose|q: int| 0 <= q < fk.len() && fk[q] == a;
                    assert(sound_at(views(nodes@), fk[q]));
                }
                lemma_order_covers_acyclic_from(g, fk, root);
            }
        } else {
            lemma_problem_unsound(views(nodes@), root, r->Err_0);
        }
    }
    r
}

/// A circle of requirements among `nodes`.
pub open spec fn circular(nodes: Seq<NodeView>, e: PluginError) -> bool {
    e matches PluginError::CircularDependency { cycle } && is_cycle(graph_of(nodes), keys_of(cycle@))
}

/// Check that the plugins' requirements, among themselves, never run in a
/// circle; a plugin they name that is not among them has no requirements.
pub fn validate_manifest_cycles(nodes: &Vec<DependencyNode>) -> (r: Result<(), PluginError>)
    ensures
        r is Ok <==> acyclic(graph_of(views(nodes@))),
        r matches Err(e) ==> circular(views(nodes@), e),
{
    let ghost g = graph_of(views(nodes@));
    let ghost universe = graph_keys(g).to_set();
    proof {
        lemma_graph_keys(g);
        vstd::seq_lib::seq_to_set_is_finite(graph_keys(g));
    }
    let mut finished: Vec<PluginId> = Vec::new();
    proof {
        assert(keys_of(finished@) =~= Seq::<Key>::empty());
    }
    let mut i: usize = 0;
    while i < nodes.len()
        invariant
            i <= views(nodes@).len(),
            g == graph_of(views(nodes@)),
            universe == graph_keys(g).to_set(),
            closed_universe(g, universe),
            forall|m: int| 0 <= m < g.len() ==> universe.contains(#[trigger] g[m].0),
            search_state(g, universe, Seq::<Key>::empty(), keys_of(finished@)),
            forall|m: int| 0 <= m < i ==> keys_of(finished@).contains(#[trigger] g[m].0),
        decreases nodes.len() - i,
    {
        let mut stack: Vec<PluginId> = Vec::new();
        let ghost root = views(nodes@)[i as int].0;
        let ghost f0 = finished@;
        proof {
            assert(g[i as int] == edges_of(views(nodes@)[i as int]));
            assert(universe.contains(g[i as int].0));
            assert(keys_of(stack@) =~= Seq::<Key>::empty());
            assert(keys_of(stack@).push(root) =~= seq![root]);
            assert(is_path(g, seq![root]));
            assert(Seq::<Key>::empty() + keys_of(finished@) =~= keys_of(finished@));
        }
        let ghost budget = universe.len() - 0 - finished@.len();
        match visit(
            nodes,
            &nodes[i].id,
            false,
            &mut stack,
            &mut finished,
            Ghost(root),
            Ghost(universe),
            Ghost(budget),
        ) {
            Ok(()) => {},
            Err(e) => {
                return Err(e);
            },
        }
        proof {
            assert(keys_of(stack@) =~= Seq::<Key>::empty());
            assert forall|m: int| 0 <= m <= i implies keys_of(finished@).contains(#[trigger] g[m].0) by {
                if m < i {
                    let w = g[m].0;
                    let x = choose|x: int| 0 <= x < keys_of(f0).len() && keys_of(f0)[x] == w;
                    assert(finished@[x] == f0[x]);
                    assert(keys_of(finished@)[x] == w);
                }
            }
        }
        i = i + 1;
    }
    proof {
        lemma_order_covers_acyclic(g, keys_of(finished@));
    }
    Ok(())
}

/// The `k`th requirement of the plugin at `i` names a present plugin at a
/// version it accepts.
pub open spec fn requirement_present(ns: Seq<NodeView>, i: int, k: int) -> bool {
    let d = ns[i].3[k];
    match node_index(graph_of(ns), dep_key(ns[i].0, d)) {
        Some(j) => version_matches(d.version, ns[j].1),
        None => false,
    }
}

/// A planned set of plugins is consistent: every requirement of every one
/// names one of them at an accepted version, and none runs in a circle.
pub open spec fn plan_sound(ns: Seq<NodeView>) -> bool {
    &&& forall|i: int, k: int|
        0 <= i < ns.len() && 0 <= k < ns[i].3.len() ==> #[trigger] requirement_present(
            ns,
            i,
            k,
        )
    &&& acyclic(graph_of(ns))
}

/// `e` reports a real inconsistency of a planned set of plugins.
pub open spec fn plan_problem(ns: Seq<NodeView>, e: PluginError) -> bool {
    match e {
        PluginError::DependencyUnsatisfied { dependency, reason } => {
            &&& reason == DependencyReason::NotFound
            &&& exists|i: int, k: int|
                0 <= i < ns.len() && 0 <= k < ns[i].3.len() && #[trigger] unsatisfied(
                    ns,
                    i,
                    k,
                    dependency@,
                    reason,
                )
        },
        PluginError::DependencyVersionConflict { plugin, required, actual, required_by } => exists|
            i: int,
            k: int,
        |
            {
                &&& 0 <= i < ns.len()
                &&& 0 <= k < ns[i].3.len()
                &&& id_key(*required_by) == ns[i].0
                &&& #[trigger] conflicting(ns, i, k, id_key(*plugin), *required, *actual)
            },
        PluginError::CircularDependency { .. } => circular(ns, e),
        _ => false,
    }
}

/// Check a planned set of plugins: every requirement of each names one of
/// them at an accepted version, then that none runs in a circle.
pub fn validate_planned_graph(nodes: &Vec<DependencyNode>) -> (r: Result<(), PluginError>)
    ensures
        r is Ok <==> plan_sound(views(nodes@)),
        r matches Err(e) ==> plan_problem(views(nodes@), e),
{
    let ghost g = graph_of(views(nodes@));
    let mut i: usize = 0;
    while i < nodes.len()
        invariant
            i <= views(nodes@).len(),
            g == graph_of(views(nodes@)),
            forall|a: int, k: int|
                0 <= a < i && 0 <= k < views(nodes@)[a].3.len() ==> #[trigger] requirement_present(
                    views(nodes@),
                    a,
                    k,
                ),
        decreases nodes.len() - i,
    {
        let node = &nodes[i];
        let mut k: usize = 0;
        while k < node.dependencies.len()
            invariant
                i < views(nodes@).len(),
                k <= views(nodes@)[i as int].3.len(),
                *node == nodes@[i as int],
                g == graph_of(views(nodes@)),
                forall|a: int, m: int|
                    0 <= a < i && 0 <= m < views(nodes@)[a].3.len() ==> #[trigger] requirement_present(
                        views(nodes@),
                        a,
                        m,
                    ),
                forall|m: int| 0 <= m < k ==> #[trigger] requirement_present(views(nodes@), i as int, m),
            decreases node.dependencies.len() - k,
        {
            let dependency = &node.dependencies[k];
            let target = dependency.resolve(node.id.marketplace.as_str());
            let ghost t = dep_key(id_key(node.id), views(nodes@)[i as int].3[k as int]);
            assert(id_key(target) == t);
            match find_node(nodes, &target) {
                None => {
                    let e = PluginError::DependencyUnsatisfied {
                        dependency: target.to_string(),
                        reason: DependencyReason::NotFound,
                    };
                    proof {
                        let text = id_text(t.0, t.1);
                        assert(unsatisfied(views(nodes@), i as int, k as int, text, DependencyReason::NotFound));
                        assert(e matches PluginError::DependencyUnsatisfied { dependency, reason }
                            && dependency@ == text);
                        assert(!requirement_present(views(nodes@), i as int, k as int));
                    }
                    return Err(e);
                },
                Some(j) => {
                    proof {
                        lemma_node_index(g, t);
                    }
                    if !version_req_matches(&dependency.version, &nodes[j].version) {
                        let e = PluginError::DependencyVersionConflict {
                            plugin: Box::new(target.clone()),
                            required: Box::new(dependency.version.clone()),
                            actual: Box::new(nodes[j].version.clone()),
                            required_by: Box::new(node.id.clone()),
                        };
                        proof {
                            let req = dependency.version;
                            let act = views(nodes@)[j as int].1;
                            assert(conflicting(views(nodes@), i as int, k as int, t, req, act));
                            assert(e matches PluginError::DependencyVersionConflict {
                                plugin,
                                required,
                                actual,
                                required_by,
                            } && id_key(*plugin) == t && *required == req && *actual == act && id_key(
                                *required_by,
                            ) == views(nodes@)[i as int].0);
                            assert(!requirement_present(views(nodes@), i as int, k as int));
                        }
                        return Err(e);
                    }
                    proof {
                        assert(requirement_present(views(nodes@), i as int, k as int));
                    }
                },
            }
            k = k + 1;
        }
        i = i + 1;
    }
    let r = validate_manifest_cycles(nodes);
    proof {
        if r is Err {
            let e = r->Err_0;
            assert(circular(views(nodes@), e));
            assert(!acyclic(g)) by {
                let c = keys_of(e->cycle@);
                assert(is_cycle(g, c));
            }
        }
    }
    r
}

/// The keys of the plugins other than `target` that require it, enabled
/// ones only where `active_only`, in order.
pub open spec fn dependents_spec(ns: Seq<NodeView>, target: Key, active_only: bool) -> Seq<Key>
    decreases ns.len(),
{
    if ns.len() == 0 {
        seq![]
    } else {
        let before = dependents_spec(ns.drop_last(), target, active_only);
        let n = ns.last();
        if n.0 != target && (!active_only || n.2) && edges_of(n).1.contains(target) {
            before.push(n.0)
        } else {
            before
        }
    }
}

/// Whether some requirement of `node` resolves to `target`.
fn requires_plugin(node: &DependencyNode, target: &PluginId) -> (r: bool)
    ensures
        r == edges_of(node_view(*node)).1.contains(id_key(*target)),
{
    let mut k: usize = 0;
    while k < node.dependencies.len()
        invariant
            k <= node.dependencies@.len(),
            forall|m: int| 0 <= m < k ==> edges_of(node_view(*node)).1[m] != id_key(*target),
        decreases node.dependencies.len() - k,
    {
        let resolved = node.dependencies[k].resolve(node.id.marketplace.as_str());
        if same_id(&resolved, target) {
            assert(edges_of(node_view(*node)).1[k as int] == id_key(*target));
            return true;
        }
        k = k + 1;
    }
    false
}

/// The plugins other than `id` whose requirements name it; only enabled
/// ones where `active_only`.
pub fn dependents_of(nodes: &Vec<DependencyNode>, id: &PluginId, active_only: bool) -> (r: Vec<
    PluginId,
>)
    ensures
        keys_of(r@) == dependents_spec(views(nodes@), id_key(*id), active_only),
{
    let mut out: Vec<PluginId> = Vec::new();
    let mut i: usize = 0;
    while i < nodes.len()
        invariant
            i <= views(nodes@).len(),
            keys_of(out@) == dependents_spec(views(nodes@).take(i as int), id_key(*id), active_only),
        decreases nodes.len() - i,
    {
        proof {
            assert(views(nodes@).take(i + 1).drop_last() =~= views(nodes@).take(i as int));
        }
        let node = &nodes[i];
        if !same_id(&node.id, id) && (!active_only || node.active) && requires_plugin(node, id) {
            let ghost before = out@;
            out.push(node.id.clone());
            proof {
                lemma_keys_push(before, node.id);
            }
        }
        i = i + 1;
    }
    proof {
        assert(views(nodes@).take(views(nodes@).len() as int) =~= views(nodes@));
    }
    out
}

/// Turning a plugin on changes no edge and meets no fewer requirements: a
/// sound root stays sound.
pub proof fn lemma_activate_keeps_sound(ns: Seq<NodeView>, i: int, root: Key)
    requires
        0 <= i < ns.len(),
        dependencies_sound(ns, root),
    ensures
        dependencies_sound(ns.update(i, (ns[i].0, ns[i].1, true, ns[i].3)), root),
{
    let m = ns.update(i, (ns[i].0, ns[i].1, true, ns[i].3));
    let g = graph_of(ns);
    assert(graph_of(m) =~= g) by {
        assert forall|j: int| 0 <= j < ns.len() implies graph_of(m)[j] == g[j] by {
            assert(edges_of(m[j]) == edges_of(ns[j]));
        }
    }
    assert forall|a: Key| #[trigger] reaches(g, root, a) implies match node_index(g, a) {
        Some(x) => node_sound(m, x),
        None => true,
    } by {
        lemma_node_index(g, a);
        if let Some(x) = node_index(g, a) {
            assert(node_sound(ns, x));
            assert forall|k: int| 0 <= k < m[x].3.len() implies #[trigger] requirement_met(m, x, k) by {
                assert(requirement_met(ns, x, k));
                assert(m[x].3 == ns[x].3);
                let d = ns[x].3[k];
                assert(m[x].0 == ns[x].0);
                lemma_node_index(g, dep_key(ns[x].0, d));
                match node_index(g, dep_key(ns[x].0, d)) {
                    Some(y) => {
                        assert(m[y].1 == ns[y].1);
                    },
                    None => {},
                }
            }
        }
    }
}

} // verus!
