//! Which plugins an install prepares: the plugin asked for, then, depth
//! first, each plugin it requires that no installed plugin satisfies. The
//! walk is a state machine: the runtime fetches each plugin the machine asks
//! for and hands back what its manifest requires.
use vstd::prelude::*;

use crate::marketplace_registry::{catalog_entry, marketplace_index, CachedMarketplace, MarketplaceRegistry};
use crate::plugin_graph::{dep_key, id_key, keys_of, Key};
use crate::plugin_id::PluginId;
use crate::plugin_install::VersionRequirement;
use crate::plugin_manifest::{version_matches, version_req_matches, DependencyRef};
use crate::plugin_registry::{entry_index, not_found, PluginEntry, PluginRegistry};
use crate::plugin_tools::PluginError;

verus! {

/// A plugin on the current path: its id, what its manifest requires, and
/// how many of those requirements have been looked at.
#[derive(Debug)]
pub struct Frame {
    pub id: PluginId,
    pub dependencies: Vec<DependencyRef>,
    pub next: usize,
}

/// The walk so far: the path of plugins being prepared (outermost first),
/// the plugins prepared in full, in order, the requirements met on the way,
/// the plugin to look at next, the plugin being fetched, and whether the
/// walk is over.
#[derive(Debug)]
pub struct ClosureState {
    pub stack: Vec<Frame>,
    pub order: Vec<PluginId>,
    pub requirements: Vec<VersionRequirement>,
    pub visit: Option<PluginId>,
    pub awaiting: Option<PluginId>,
    pub done: bool,
}

/// What the runtime reports.
#[derive(Debug)]
pub enum ClosureEvent {
    /// Nothing new: go on.
    Continue,
    /// The plugin asked for was fetched; its manifest requires `dependencies`.
    Prepared { dependencies: Vec<DependencyRef> },
}

/// What the runtime does next.
#[derive(Debug)]
pub enum ClosureAction {
    /// Fetch and load this plugin, then report [`ClosureEvent::Prepared`].
    Prepare(PluginId),
    /// Report [`ClosureEvent::Continue`].
    Continue,
    /// The walk is over: the plugins prepared, in order, and the
    /// requirements met on the way.
    Done { order: Vec<PluginId>, requirements: Vec<VersionRequirement> },
    /// The walk failed.
    Fail(PluginError),
}

/// A requirement by key: the plugin required, the versions accepted, and
/// the plugin requiring it.
pub type RequirementView = (Key, semver::VersionReq, Key);

/// What the walk's state is, by key.
pub struct ClosureView {
    pub stack: Seq<(Key, Seq<DependencyRef>, int)>,
    pub order: Seq<Key>,
    pub requirements: Seq<RequirementView>,
    pub visit: Option<Key>,
    pub awaiting: Option<Key>,
    pub done: bool,
}

/// What the runtime is asked to do, by key.
pub enum ActionView {
    Prepare(Key),
    Continue,
    Done(Seq<Key>, Seq<RequirementView>),
    /// A requirement leads back to a plugin on the path: the path from it, and it again.
    Cycle(Seq<Key>),
    /// The plugin is in no registered catalog.
    NotFound(Key),
}

pub open spec fn frame_view(f: Frame) -> (Key, Seq<DependencyRef>, int) {
    (id_key(f.id), f.dependencies@, f.next as int)
}

pub open spec fn requirement_view(r: VersionRequirement) -> RequirementView {
    (id_key(r.plugin), r.version, id_key(r.required_by))
}

pub open spec fn opt_key(id: Option<PluginId>) -> Option<Key> {
    match id {
        Some(i) => Some(id_key(i)),
        None => None,
    }
}

impl ClosureState {
    pub open spec fn view(self) -> ClosureView {
        ClosureView {
            stack: self.stack@.map_values(|f: Frame| frame_view(f)),
            order: keys_of(self.order@),
            requirements: self.requirements@.map_values(|r: VersionRequirement| requirement_view(r)),
            visit: opt_key(self.visit),
            awaiting: opt_key(self.awaiting),
            done: self.done,
        }
    }

    /// A walk that starts at `root`.
    pub fn new(root: PluginId) -> (r: Self)
        ensures
            r.view() == (ClosureView {
                stack: seq![],
                order: seq![],
                requirements: seq![],
                visit: Some(id_key(root)),
                awaiting: None,
                done: false,
            }),
    {
        let r = ClosureState {
            stack: Vec::new(),
            order: Vec::new(),
            requirements: Vec::new(),
            visit: Some(root),
            awaiting: None,
            done: false,
        };
        assert(r.view().stack =~= seq![]);
        assert(r.view().order =~= seq![]);
        assert(r.view().requirements =~= seq![]);
        r
    }
}

/// `a` is the action `v` stands for.
pub open spec fn action_is(a: ClosureAction, v: ActionView) -> bool {
    match v {
        ActionView::Prepare(k) => a matches ClosureAction::Prepare(id) && id_key(id) == k,
        ActionView::Continue => a is Continue,
        ActionView::Done(order, requirements) => a matches ClosureAction::Done { order: o, requirements: rs }
            && keys_of(o@) == order && rs@.map_values(|r: VersionRequirement| requirement_view(r))
            == requirements,
        ActionView::Cycle(c) => a matches ClosureAction::Fail(e) && (e matches PluginError::CircularDependency {
            cycle,
        } && keys_of(cycle@) == c),
        ActionView::NotFound(k) => a matches ClosureAction::Fail(e) && not_found(e, k),
    }
}

/// Some registered catalog lists the plugin `k`.
pub open spec fn listed_plugin(ms: Seq<(String, CachedMarketplace)>, k: Key) -> bool {
    match marketplace_index(ms, k.1) {
        Some(i) => catalog_entry(ms[i].1.manifest.plugins@, k.0) is Some,
        None => false,
    }
}

/// An installed plugin `k` satisfies the requirement `d`.
pub open spec fn installed_satisfies(entries: Seq<PluginEntry>, k: Key, d: DependencyRef) -> bool {
    match entry_index(entries, k) {
        Some(i) => version_matches(d.version, entries[i].plugin.version),
        None => false,
    }
}

/// The first place of `k` on the path.
pub open spec fn path_index(stack: Seq<(Key, Seq<DependencyRef>, int)>, k: Key) -> Option<int> {
    if exists|j: int| 0 <= j < stack.len() && stack[j].0 == k {
        Some(choose|j: int| 0 <= j < stack.len() && stack[j].0 == k && forall|m: int| 0 <= m < j ==> stack[m].0 != k)
    } else {
        None
    }
}

/// The path from place `j`, by key, then `k`.
pub open spec fn cycle_from(stack: Seq<(Key, Seq<DependencyRef>, int)>, j: int, k: Key) -> Seq<Key> {
    stack.subrange(j, stack.len() as int).map_values(|f: (Key, Seq<DependencyRef>, int)| f.0).push(k)
}

/// One step of the walk, on the installed plugins `entries` and the
/// registered marketplaces `ms`. Once over, it stays over. A fetched
/// plugin goes on the path. Otherwise the plugin to look at next is skipped
/// when already prepared, refused when it is on the path (a cycle) or in no
/// catalog, else fetched; with none, the next requirement of the plugin
/// last on the path is recorded and, unless an installed plugin satisfies
/// it, the plugin it names (in the requiring plugin's marketplace unless it
/// names another) is looked at next; a plugin whose requirements have all
/// been looked at is prepared and leaves the path; an empty path ends the
/// walk.
pub open spec fn closure_next(
    v: ClosureView,
    entries: Seq<PluginEntry>,
    ms: Seq<(String, CachedMarketplace)>,
    event: ClosureEvent,
) -> (ClosureView, ActionView) {
    if v.done {
        (v, ActionView::Done(v.order, v.requirements))
    } else {
        match event {
            ClosureEvent::Prepared { dependencies } => match v.awaiting {
                Some(k) => (
                    ClosureView { stack: v.stack.push((k, dependencies@, 0)), awaiting: None, ..v },
                    ActionView::Continue,
                ),
                None => (v, ActionView::Continue),
            },
            ClosureEvent::Continue => match v.awaiting {
                Some(k) => (v, ActionView::Prepare(k)),
                None => match v.visit {
                    Some(k) => if v.order.contains(k) {
                        (ClosureView { visit: None, ..v }, ActionView::Continue)
                    } else if path_index(v.stack, k) is Some {
                        (v, ActionView::Cycle(cycle_from(v.stack, path_index(v.stack, k)->0, k)))
                    } else if !listed_plugin(ms, k) {
                        (v, ActionView::NotFound(k))
                    } else {
                        (ClosureView { visit: None, awaiting: Some(k), ..v }, ActionView::Prepare(k))
                    },
                    None => if v.stack.len() == 0 {
                        (ClosureView { done: true, ..v }, ActionView::Done(v.order, v.requirements))
                    } else {
                        let f = v.stack.last();
                        if f.2 < f.1.len() {
                            let d = f.1[f.2];
                            let k = dep_key(f.0, d);
                            let stack = v.stack.update(v.stack.len() - 1, (f.0, f.1, f.2 + 1));
                            let requirements = v.requirements.push((k, d.version, f.0));
                            if installed_satisfies(entries, k, d) {
                                (ClosureView { stack, requirements, ..v }, ActionView::Continue)
                            } else {
                                (ClosureView { stack, requirements, visit: Some(k), ..v }, ActionView::Continue)
                            }
                        } else {
                            (
                                ClosureView { stack: v.stack.drop_last(), order: v.order.push(f.0), ..v },
                                ActionView::Continue,
                            )
                        }
                    },
                },
            },
        }
    }
}

fn same_key(a: &PluginId, b: &PluginId) -> (r: bool)
    ensures
        r == (id_key(*a) == id_key(*b)),
{
    crate::text::str_eq(a.name.as_str(), b.name.as_str()) && crate::text::str_eq(
        a.marketplace.as_str(),
        b.marketplace.as_str(),
    )
}

fn order_contains(order: &Vec<PluginId>, id: &PluginId) -> (r: bool)
    ensures
        r == keys_of(order@).contains(id_key(*id)),
{
    let mut i: usize = 0;
    while i < order.len()
        invariant
            i <= order@.len(),
            forall|j: int| 0 <= j < i ==> id_key(order@[j]) != id_key(*id),
        decreases order.len() - i,
    {
        if same_key(&order[i], id) {
            assert(keys_of(order@)[i as int] == id_key(*id));
            return true;
        }
        i = i + 1;
    }
    proof {
        if keys_of(order@).contains(id_key(*id)) {
            let j = choose|j: int| 0 <= j < keys_of(order@).len() && keys_of(order@)[j] == id_key(*id);
            assert(id_key(order@[j]) == id_key(*id));
        }
    }
    false
}

fn path_position(stack: &Vec<Frame>, id: &PluginId) -> (r: Option<usize>)
    ensures
        r matches Some(j) ==> j < stack@.len(),
        match r {
            Some(j) => path_index(stack@.map_values(|f: Frame| frame_view(f)), id_key(*id)) == Some(j as int),
            None => path_index(stack@.map_values(|f: Frame| frame_view(f)), id_key(*id)) is None,
        },
{
    let ghost sv = stack@.map_values(|f: Frame| frame_view(f));
    let ghost k = id_key(*id);
    let mut i: usize = 0;
    while i < stack.len()
        invariant
            i <= stack@.len(),
            sv == stack@.map_values(|f: Frame| frame_view(f)),
            k == id_key(*id),
            forall|j: int| 0 <= j < i ==> sv[j].0 != k,
        decreases stack.len() - i,
    {
        if same_key(&stack[i].id, id) {
            proof {
                assert(sv[i as int].0 == k);
                let c = choose|j: int| 0 <= j < sv.len() && sv[j].0 == k && forall|m: int| 0 <= m < j ==> sv[m].0 != k;
                if c < i {
                    assert(sv[c].0 != k);
                } else if c > i {
                    assert(sv[i as int].0 != k);
                }
            }
            return Some(i);
        }
        assert(sv[i as int].0 != k);
        i = i + 1;
    }
    None
}

fn clone_ids(v: &Vec<PluginId>) -> (r: Vec<PluginId>)
    ensures
        r@ == v@,
{
    let mut out: Vec<PluginId> = Vec::new();
    let mut i: usize = 0;
    while i < v.len()
        invariant
            i <= v@.len(),
            out@ == v@.take(i as int),
        decreases v.len() - i,
    {
        out.push(v[i].clone());
        assert(out@ =~= v@.take(i + 1));
        i = i + 1;
    }
    assert(v@.take(v@.len() as int) =~= v@);
    out
}

fn clone_requirements(v: &Vec<VersionRequirement>) -> (r: Vec<VersionRequirement>)
    ensures
        r@.map_values(|q: VersionRequirement| requirement_view(q)) == v@.map_values(
            |q: VersionRequirement| requirement_view(q),
        ),
{
    let mut out: Vec<VersionRequirement> = Vec::new();
    let mut i: usize = 0;
    while i < v.len()
        invariant
            i <= v@.len(),
            out@.len() == i,
            forall|j: int| 0 <= j < i ==> requirement_view(#[trigger] out@[j]) == requirement_view(v@[j]),
        decreases v.len() - i,
    {
        let q = &v[i];
        out.push(VersionRequirement { plugin: q.plugin.clone(), version: q.version.clone(), required_by: q.required_by.clone() });
        i = i + 1;
    }
    assert(out@.map_values(|q: VersionRequirement| requirement_view(q)) =~= v@.map_values(
        |q: VersionRequirement| requirement_view(q),
    ));
    out
}

/// The path from place `j`, then `id`.
fn cycle_ids(stack: &Vec<Frame>, j: usize, id: &PluginId) -> (r: Vec<PluginId>)
    requires
        j < stack@.len(),
    ensures
        keys_of(r@) == cycle_from(stack@.map_values(|f: Frame| frame_view(f)), j as int, id_key(*id)),
{
    let ghost sv = stack@.map_values(|f: Frame| frame_view(f));
    let mut out: Vec<PluginId> = Vec::new();
    let mut i: usize = j;
    while i < stack.len()
        invariant
            j <= i <= stack@.len(),
            sv == stack@.map_values(|f: Frame| frame_view(f)),
            keys_of(out@) == sv.subrange(j as int, i as int).map_values(|f: (Key, Seq<DependencyRef>, int)| f.0),
        decreases stack.len() - i,
    {
        let ghost before = keys_of(out@);
        out.push(stack[i].id.clone());
        assert(keys_of(out@) =~= before.push(sv[i as int].0));
        assert(sv.subrange(j as int, i + 1).map_values(|f: (Key, Seq<DependencyRef>, int)| f.0) =~= sv.subrange(
            j as int,
            i as int,
        ).map_values(|f: (Key, Seq<DependencyRef>, int)| f.0).push(sv[i as int].0));
        i = i + 1;
    }
    out.push(id.clone());
    assert(keys_of(out@) =~= cycle_from(sv, j as int, id_key(*id)));
    out
}

/// Take one step of the walk (see [`closure_next`]) on the installed
/// plugins of `registry` and the marketplaces of `marketplaces`.
pub fn closure_step(
    state: &mut ClosureState,
    registry: &PluginRegistry,
    marketplaces: &MarketplaceRegistry,
    event: ClosureEvent,
) -> (action: ClosureAction)
    ensures
        final(state).view() == closure_next(
            old(state).view(),
            registry.spec_entries(),
            marketplaces.spec_marketplaces(),
            event,
        ).0,
        action_is(
            action,
            closure_next(old(state).view(), registry.spec_entries(), marketplaces.spec_marketplaces(), event).1,
        ),
{
    let ghost v = state.view();
    if state.done {
        return ClosureAction::Done { order: clone_ids(&state.order), requirements: clone_requirements(&state.requirements) };
    }
    match event {
        ClosureEvent::Prepared { dependencies } => {
            match &state.awaiting {
                Some(id) => {
                    let id = id.clone();
                    state.awaiting = None;
                    state.stack.push(Frame { id, dependencies, next: 0 });
                    proof {
                        assert(state.view().stack =~= v.stack.push((id_key(id), dependencies@, 0)));
                    }
                },
                None => {},
            }
            return ClosureAction::Continue;
        },
        ClosureEvent::Continue => {},
    }
    match &state.awaiting {
        Some(id) => {
            return ClosureAction::Prepare(id.clone());
        },
        None => {},
    }
    match &state.visit {
        Some(k) => {
            let id = k.clone();
            if order_contains(&state.order, &id) {
                state.visit = None;
                return ClosureAction::Continue;
            }
            match path_position(&state.stack, &id) {
                Some(j) => {
                    let cycle = cycle_ids(&state.stack, j, &id);
                    return ClosureAction::Fail(PluginError::CircularDependency { cycle });
                },
                None => {},
            }
            if marketplaces.plugin_entry(&id).is_none() {
                return ClosureAction::Fail(
                    PluginError::PluginNotFound { plugin_id: id.to_string(), marketplace: id.marketplace.clone() },
                );
            }
            state.visit = None;
            state.awaiting = Some(id.clone());
            return ClosureAction::Prepare(id);
        },
        None => {},
    }
    if state.stack.len() == 0 {
        state.done = true;
        return ClosureAction::Done { order: clone_ids(&state.order), requirements: clone_requirements(&state.requirements) };
    }
    let last = state.stack.len() - 1;
    if state.stack[last].next < state.stack[last].dependencies.len() {
        let mut f = state.stack.pop().unwrap();
        let d = f.dependencies[f.next].clone();
        let dep_id = d.resolve(f.id.marketplace.as_str());
        let ghost before_reqs = state.requirements@;
        state.requirements.push(
            VersionRequirement { plugin: dep_id.clone(), version: d.version.clone(), required_by: f.id.clone() },
        );
        f.next = f.next + 1;
        state.stack.push(f);
        let satisfied = match registry.get(&dep_id) {
            Some(e) => version_req_matches(&d.version, &e.plugin.version),
            None => false,
        };
        if !satisfied {
            state.visit = Some(dep_id);
        }
        proof {
            let fv = v.stack.last();
            assert(id_key(dep_id) == dep_key(fv.0, d));
            assert(state.view().stack =~= v.stack.update(v.stack.len() - 1, (fv.0, fv.1, fv.2 + 1)));
            assert(state.view().requirements =~= v.requirements.push((dep_key(fv.0, d), d.version, fv.0)));
        }
        ClosureAction::Continue
    } else {
        let f = state.stack.pop().unwrap();
        let ghost fid = f.id;
        state.order.push(f.id);
        proof {
            assert(state.view().stack =~= v.stack.drop_last());
            assert(state.view().order =~= v.order.push(id_key(fid)));
        }
        ClosureAction::Continue
    }
}

/// A walk fails with a cycle exactly when the plugin it is to look at next,
/// not yet prepared, is on the current path; the cycle is the path from
/// that plugin's first place on it, then that plugin again.
pub proof fn law_cycle_exactly_on_path(
    v: ClosureView,
    entries: Seq<PluginEntry>,
    ms: Seq<(String, CachedMarketplace)>,
    c: Seq<Key>,
)
    ensures
        closure_next(v, entries, ms, ClosureEvent::Continue).1 == ActionView::Cycle(c) <==> {
            &&& !v.done
            &&& v.awaiting is None
            &&& v.visit is Some
            &&& !v.order.contains(v.visit->0)
            &&& exists|j: int| 0 <= j < v.stack.len() && v.stack[j].0 == v.visit->0
            &&& c == cycle_from(v.stack, path_index(v.stack, v.visit->0)->0, v.visit->0)
        },
{
    if let Some(k) = v.visit {
        if exists|j: int| 0 <= j < v.stack.len() && v.stack[j].0 == k {
            let j = choose|j: int| 0 <= j < v.stack.len() && v.stack[j].0 == k;
            lemma_first_place(v.stack, k, j);
        }
    }
}

/// A key on the path has a first place on it.
proof fn lemma_first_place(stack: Seq<(Key, Seq<DependencyRef>, int)>, k: Key, j: int)
    requires
        0 <= j < stack.len(),
        stack[j].0 == k,
    ensures
        path_index(stack, k) is Some,
    decreases j,
{
    if exists|m: int| 0 <= m < j && stack[m].0 == k {
        let m = choose|m: int| 0 <= m < j && stack[m].0 == k;
        lemma_first_place(stack, k, m);
    } else {
        assert(forall|m: int| 0 <= m < j ==> stack[m].0 != k);
    }
}

} // verus!
