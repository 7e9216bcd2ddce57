//! The registry of installed plugins: what is installed, in which state,
//! and the rules for enabling, disabling and uninstalling one, which consult
//! the dependency graph of [`crate::plugin_graph`].
use vstd::prelude::*;

use crate::text::texts;

use crate::marketplace::{MarketplaceRefreshReport, PluginStatus};
use crate::marketplace_registry::{entry_names, marketplace_index, Marketplace, MarketplaceRegistry};
use crate::plugin_command::{join_path, path_join};
use crate::plugin_config::{
    config_error, config_problems, ConfigValues, PluginConfigSchema, ResolvedPluginConfig,
};
use crate::plugin_config_store::{stored_pairs, PluginConfigStore};
use crate::plugin_graph::{
    dep_key, dependencies_sound, dependency_problem, dependents_of, dependents_spec, id_key, keys_of,
    node_view, validate_dependencies, views, DependencyNode, Key, NodeView,
};
use crate::plugin_id::{id_text, PluginId};
use crate::plugin_manifest::{DependencyRef, PluginSource};
use crate::plugin_tools::PluginError;
use crate::text::{chars_of, extend_chars, extend_str, lex_lt, string_of};

verus! {

/// A plugin loaded from its installed directory: what the registry reads of
/// its manifest (version and requirements), where it lives and came from,
/// and the absolute paths of its components.
#[derive(Debug, Clone)]
pub struct LoadedPlugin {
    pub id: PluginId,
    /// The version its manifest declares.
    pub version: semver::Version,
    /// What its manifest requires.
    pub dependencies: Vec<DependencyRef>,
    /// Absolute path to the installed plugin directory.
    pub path: String,
    /// The source this plugin was installed from.
    pub source: PluginSource,
    pub enabled: bool,
    pub is_builtin: bool,
    pub resolved_tools: Vec<String>,
    pub resolved_skills: Vec<String>,
    pub resolved_agents: Vec<String>,
    pub resolved_prompt_sections: Vec<String>,
    pub resolved_output_styles: Vec<String>,
    /// What its manifest declares of its configuration.
    pub config: PluginConfigSchema,
}

/// A registered plugin with its state and the errors of its last load.
#[derive(Debug, Clone)]
pub struct PluginEntry {
    pub plugin: LoadedPlugin,
    pub status: PluginStatus,
    /// Errors from the last load attempt (empty if successful).
    pub load_errors: Vec<PluginError>,
}

impl PluginEntry {
    pub fn new(plugin: LoadedPlugin, status: PluginStatus) -> (r: Self)
        ensures
            r.plugin == plugin,
            r.status == status,
            r.load_errors@.len() == 0,
    {
        PluginEntry { plugin, status, load_errors: Vec::new() }
    }
}

/// Enabled, possibly with some components failed.
pub open spec fn is_active(status: PluginStatus) -> bool {
    status == PluginStatus::Enabled || status == PluginStatus::Degraded
}

/// The key of an entry.
pub open spec fn entry_key(e: PluginEntry) -> Key {
    id_key(e.plugin.id)
}

/// What the dependency checks read of an entry.
pub open spec fn entry_view(e: PluginEntry) -> NodeView {
    (id_key(e.plugin.id), e.plugin.version, is_active(e.status), e.plugin.dependencies@)
}

/// What the dependency checks read of the entries.
pub open spec fn entry_views(s: Seq<PluginEntry>) -> Seq<NodeView> {
    s.map_values(|e: PluginEntry| entry_view(e))
}

/// The first entry with key `k`.
pub open spec fn entry_index(s: Seq<PluginEntry>, k: Key) -> Option<int>
    decreases s.len(),
{
    if s.len() == 0 {
        None
    } else {
        match entry_index(s.drop_last(), k) {
            Some(i) => Some(i),
            None => if entry_key(s.last()) == k {
                Some(s.len() - 1)
            } else {
                None
            },
        }
    }
}

/// `entry_index` finds the first entry with the key.
pub proof fn lemma_entry_index(s: Seq<PluginEntry>, k: Key)
    ensures
        entry_index(s, k) matches Some(i) ==> 0 <= i < s.len() && entry_key(s[i]) == k && forall|j: int|
            0 <= j < i ==> entry_key(s[j]) != k,
        entry_index(s, k) is None ==> forall|j: int| 0 <= j < s.len() ==> entry_key(s[j]) != k,
    decreases s.len(),
{
    if s.len() > 0 {
        let t = s.drop_last();
        lemma_entry_index(t, k);
        assert forall|j: int| 0 <= j < t.len() implies t[j] == s[j] by {}
    }
}

/// No two entries share a key.
pub open spec fn distinct_entries(s: Seq<PluginEntry>) -> bool {
    forall|i: int, j: int| 0 <= i < j < s.len() ==> entry_key(s[i]) != entry_key(s[j])
}

/// With distinct keys, the entry with key `k` is the one at `i`.
pub proof fn lemma_entry_index_at(s: Seq<PluginEntry>, i: int)
    requires
        distinct_entries(s),
        0 <= i < s.len(),
    ensures
        entry_index(s, entry_key(s[i])) == Some(i),
{
    lemma_entry_index(s, entry_key(s[i]));
}

/// Which entries a listing keeps.
#[derive(Debug, Clone, Copy, PartialEq, Eq, Structural)]
pub enum Listing {
    All,
    Active,
    Disabled,
}

/// Whether the listing keeps `e`.
pub open spec fn keeps(listing: Listing, e: PluginEntry) -> bool {
    match listing {
        Listing::All => true,
        Listing::Active => is_active(e.status),
        Listing::Disabled => e.status == PluginStatus::Disabled,
    }
}

/// The entries a listing keeps, in order.
pub open spec fn entries_where(s: Seq<PluginEntry>, listing: Listing) -> Seq<PluginEntry>
    decreases s.len(),
{
    if s.len() == 0 {
        seq![]
    } else {
        let before = entries_where(s.drop_last(), listing);
        if keeps(listing, s.last()) {
            before.push(s.last())
        } else {
            before
        }
    }
}

/// Each entry behind a list of references.
pub open spec fn derefs(s: Seq<&PluginEntry>) -> Seq<PluginEntry> {
    s.map_values(|e: &PluginEntry| *e)
}

/// The entry a freshly registered plugin gets.
pub open spec fn registered_as(e: PluginEntry, plugin: LoadedPlugin) -> bool {
    &&& e.plugin == plugin
    &&& e.status == if plugin.enabled {
        PluginStatus::Enabled
    } else {
        PluginStatus::Disabled
    }
    &&& e.load_errors@.len() == 0
}

/// `after` is `before` with the entry at `i` replaced by one that `ok` accepts.
pub open spec fn replaced_at(
    before: Seq<PluginEntry>,
    after: Seq<PluginEntry>,
    i: int,
    ok: spec_fn(PluginEntry) -> bool,
) -> bool {
    &&& after.len() == before.len()
    &&& ok(after[i])
    &&& forall|j: int| 0 <= j < before.len() && j != i ==> after[j] == before[j]
}

/// The installed plugins, by id.
pub struct PluginRegistry {
    plugins: Vec<PluginEntry>,
    plugins_root: String,
    /// The values users set for the plugins' configuration.
    config_store: PluginConfigStore,
}

impl PluginRegistry {
    #[verifier::type_invariant]
    spec fn keys_distinct(self) -> bool {
        distinct_entries(self.plugins@)
    }

    /// The registered entries, in the order they were first registered.
    pub closed spec fn spec_entries(self) -> Seq<PluginEntry> {
        self.plugins@
    }

    /// The directory the registry lives in.
    pub closed spec fn spec_root(self) -> Seq<char> {
        self.plugins_root@
    }

    /// The file the configuration values are saved in.
    pub closed spec fn spec_config_path(self) -> Seq<char> {
        self.config_store.spec_path()
    }

    /// The configuration values set for each plugin.
    pub closed spec fn spec_config(self) -> Map<Key, Seq<(String, serde_json::Value)>> {
        self.config_store@
    }

    /// A registry backed by `plugins_root`, with no plugins and no
    /// configuration values, which it keeps in its state file.
    pub fn new(plugins_root: &str) -> (r: Self)
        ensures
            r.spec_entries().len() == 0,
            r.spec_root() == plugins_root@,
            r.spec_config() == Map::<Key, Seq<(String, serde_json::Value)>>::empty(),
            r.spec_config_path() == path_join(plugins_root@, "state.json"@),
    {
        let state = join_path(plugins_root, "state.json");
        PluginRegistry {
            plugins: Vec::new(),
            plugins_root: plugins_root.to_owned(),
            config_store: PluginConfigStore::new(state.as_str()),
        }
    }

    /// The store of configuration values.
    pub fn config_store(&self) -> (r: &PluginConfigStore)
        ensures
            r@ == self.spec_config(),
    {
        &self.config_store
    }

    /// Where installed plugins live.
    pub fn installed_dir(&self) -> (r: String)
        ensures
            r@ == path_join(self.spec_root(), "installed"@),
    {
        join_path(self.plugins_root.as_str(), "installed")
    }

    /// The state file.
    pub fn state_path(&self) -> (r: String)
        ensures
            r@ == path_join(self.spec_root(), "state.json"@),
    {
        join_path(self.plugins_root.as_str(), "state.json")
    }

    fn index_of(&self, id: &PluginId) -> (r: Option<usize>)
        ensures
            match r {
                Some(i) => entry_index(self.spec_entries(), id_key(*id)) == Some(i as int),
                None => entry_index(self.spec_entries(), id_key(*id)) is None,
            },
    {
        let ghost s = self.plugins@;
        let mut i: usize = 0;
        while i < self.plugins.len()
            invariant
                i <= s.len(),
                s == self.plugins@,
                forall|j: int| 0 <= j < i ==> entry_key(s[j]) != id_key(*id),
            decreases self.plugins.len() - i,
        {
            let e = &self.plugins[i];
            if crate::text::str_eq(e.plugin.id.name.as_str(), id.name.as_str())
                && crate::text::str_eq(e.plugin.id.marketplace.as_str(), id.marketplace.as_str()) {
                proof {
                    lemma_entry_index(s, id_key(*id));
                }
                return Some(i);
            }
            i = i + 1;
        }
        proof {
            lemma_entry_index(s, id_key(*id));
        }
        None
    }

    /// The entry of `id`.
    pub fn get(&self, id: &PluginId) -> (r: Option<&PluginEntry>)
        ensures
            r is Some <==> entry_index(self.spec_entries(), id_key(*id)) is Some,
            r matches Some(e) ==> *e == self.spec_entries()[entry_index(
                self.spec_entries(),
                id_key(*id),
            )->Some_0],
    {
        match self.index_of(id) {
            Some(i) => {
                proof {
                    lemma_entry_index(self.plugins@, id_key(*id));
                }
                Some(&self.plugins[i])
            },
            None => None,
        }
    }

    /// Whether `id` is installed, in any state.
    pub fn is_installed(&self, id: &PluginId) -> (r: bool)
        ensures
            r == entry_index(self.spec_entries(), id_key(*id)) is Some,
    {
        self.index_of(id).is_some()
    }

    /// The number of registered plugins.
    pub fn len(&self) -> (r: usize)
        ensures
            r == self.spec_entries().len(),
    {
        self.plugins.len()
    }

    /// Whether no plugin is registered.
    pub fn is_empty(&self) -> (r: bool)
        ensures
            r == (self.spec_entries().len() == 0),
    {
        self.plugins.len() == 0
    }

    /// The entries `listing` keeps, in order.
    pub fn select(&self, listing: Listing) -> (r: Vec<&PluginEntry>)
        ensures
            derefs(r@) == entries_where(self.spec_entries(), listing),
    {
        let mut out: Vec<&PluginEntry> = Vec::new();
        let mut i: usize = 0;
        while i < self.plugins.len()
            invariant
                i <= self.plugins@.len(),
                derefs(out@) == entries_where(self.plugins@.take(i as int), listing),
            decreases self.plugins.len() - i,
        {
            proof {
                assert(self.plugins@.take(i + 1).drop_last() =~= self.plugins@.take(i as int));
                assert(self.plugins@.take(i + 1).last() == self.plugins@[i as int]);
            }
            let e = &self.plugins[i];
            let keep = match listing {
                Listing::All => true,
                Listing::Active => match e.status {
                    PluginStatus::Enabled | PluginStatus::Degraded => true,
                    _ => false,
                },
                Listing::Disabled => match e.status {
                    PluginStatus::Disabled => true,
                    _ => false,
                },
            };
            if keep {
                let ghost before = out@;
                out.push(e);
                proof {
                    assert(derefs(out@) =~= derefs(before).push(*e));
                }
            }
            i = i + 1;
        }
        proof {
            assert(self.plugins@.take(self.plugins@.len() as int) =~= self.plugins@);
        }
        out
    }

    /// The enabled plugins, including those with failed components.
    pub fn list_enabled(&self) -> (r: Vec<&PluginEntry>)
        ensures
            derefs(r@) == entries_where(self.spec_entries(), Listing::Active),
    {
        self.select(Listing::Active)
    }

    /// The disabled plugins.
    pub fn list_disabled(&self) -> (r: Vec<&PluginEntry>)
        ensures
            derefs(r@) == entries_where(self.spec_entries(), Listing::Disabled),
    {
        self.select(Listing::Disabled)
    }

    /// All plugins, whatever their state.
    pub fn list_all(&self) -> (r: Vec<&PluginEntry>)
        ensures
            derefs(r@) == self.spec_entries(),
    {
        let mut out: Vec<&PluginEntry> = Vec::new();
        let mut i: usize = 0;
        while i < self.plugins.len()
            invariant
                i <= self.plugins@.len(),
                derefs(out@) == self.plugins@.take(i as int),
            decreases self.plugins.len() - i,
        {
            let ghost before = out@;
            let e = &self.plugins[i];
            out.push(e);
            proof {
                assert(derefs(before) == self.plugins@.take(i as int));
                assert(derefs(out@) =~= derefs(before).push(*e));
                assert(self.plugins@.take(i + 1) =~= self.plugins@.take(i as int).push(self.plugins@[i as int]));
            }
            i = i + 1;
        }
        proof {
            assert(self.plugins@.take(self.plugins@.len() as int) =~= self.plugins@);
        }
        out
    }
}

impl PluginRegistry {
    fn detach(&mut self) -> (v: Vec<PluginEntry>)
        ensures
            v@ == old(self).spec_entries(),
            distinct_entries(v@),
            final(self).spec_entries().len() == 0,
            final(self).spec_root() == old(self).spec_root(),
            final(self).spec_config() == old(self).spec_config(),
            final(self).spec_config_path() == old(self).spec_config_path(),
    {
        proof {
            use_type_invariant(&*self);
        }
        let mut v: Vec<PluginEntry> = Vec::new();
        std::mem::swap(&mut v, &mut self.plugins);
        v
    }

    fn attach(&mut self, v: Vec<PluginEntry>)
        requires
            distinct_entries(v@),
        ensures
            final(self).spec_entries() == v@,
            final(self).spec_root() == old(self).spec_root(),
            final(self).spec_config() == old(self).spec_config(),
            final(self).spec_config_path() == old(self).spec_config_path(),
    {
        self.plugins = v;
    }

    /// Replace the entry at `i` by `e`, which has its key.
    fn replace(&mut self, i: usize, e: PluginEntry)
        requires
            i < old(self).spec_entries().len(),
            entry_key(e) == entry_key(old(self).spec_entries()[i as int]),
        ensures
            final(self).spec_entries() == old(self).spec_entries().update(i as int, e),
            final(self).spec_root() == old(self).spec_root(),
            final(self).spec_config() == old(self).spec_config(),
            final(self).spec_config_path() == old(self).spec_config_path(),
    {
        let mut v = self.detach();
        let ghost before = v@;
        v.set(i, e);
        proof {
            assert forall|a: int, b: int| 0 <= a < b < v@.len() implies entry_key(v@[a]) != entry_key(v@[b]) by {
                assert(entry_key(before[a]) != entry_key(before[b]));
            }
        }
        self.attach(v);
    }

    /// Take out the entry at `i`.
    fn take(&mut self, i: usize) -> (e: PluginEntry)
        requires
            i < old(self).spec_entries().len(),
        ensures
            e == old(self).spec_entries()[i as int],
            final(self).spec_entries() == old(self).spec_entries().remove(i as int),
            final(self).spec_root() == old(self).spec_root(),
            final(self).spec_config() == old(self).spec_config(),
            final(self).spec_config_path() == old(self).spec_config_path(),
            forall|j: int|
                0 <= j < final(self).spec_entries().len() ==> entry_key(final(self).spec_entries()[j])
                    != entry_key(e),
    {
        let mut v = self.detach();
        let ghost before = v@;
        let e = v.remove(i);
        proof {
            assert forall|j: int| 0 <= j < v@.len() implies entry_key(v@[j]) != entry_key(e) by {
                let jj = if j < i { j } else { j + 1 };
                assert(v@[j] == before[jj]);
                if jj < i {
                    assert(entry_key(before[jj]) != entry_key(before[i as int]));
                } else {
                    assert(entry_key(before[i as int]) != entry_key(before[jj]));
                }
            }
            assert forall|a: int, b: int| 0 <= a < b < v@.len() implies entry_key(v@[a]) != entry_key(v@[b]) by {
                let aa = if a < i { a } else { a + 1 };
                let bb = if b < i { b } else { b + 1 };
                assert(v@[a] == before[aa] && v@[b] == before[bb]);
                assert(entry_key(before[aa]) != entry_key(before[bb]));
            }
        }
        self.attach(v);
        e
    }

    /// Put `e`, whose key no entry has, back at `i`.
    fn put(&mut self, i: usize, e: PluginEntry)
        requires
            i <= old(self).spec_entries().len(),
            forall|j: int|
                0 <= j < old(self).spec_entries().len() ==> entry_key(old(self).spec_entries()[j])
                    != entry_key(e),
        ensures
            final(self).spec_entries() == old(self).spec_entries().insert(i as int, e),
            final(self).spec_root() == old(self).spec_root(),
            final(self).spec_config() == old(self).spec_config(),
            final(self).spec_config_path() == old(self).spec_config_path(),
    {
        let mut v = self.detach();
        let ghost before = v@;
        v.insert(i, e);
        proof {
            assert forall|a: int, b: int| 0 <= a < b < v@.len() implies entry_key(v@[a]) != entry_key(v@[b]) by {
                if a == i {
                    assert(v@[b] == before[b - 1]);
                } else if b == i {
                    assert(v@[a] == before[a]);
                } else {
                    let aa = if a < i { a } else { a - 1 };
                    let bb = if b < i { b } else { b - 1 };
                    assert(v@[a] == before[aa] && v@[b] == before[bb]);
                    assert(entry_key(before[aa]) != entry_key(before[bb]));
                }
            }
        }
        self.attach(v);
    }

    /// Register a loaded plugin, enabled or disabled as it says, replacing
    /// any entry with its id (whose state is lost).
    pub fn register(&mut self, plugin: LoadedPlugin)
        ensures
            final(self).spec_root() == old(self).spec_root(),
            match entry_index(old(self).spec_entries(), id_key(plugin.id)) {
                Some(i) => replaced_at(
                    old(self).spec_entries(),
                    final(self).spec_entries(),
                    i,
                    |e: PluginEntry| registered_as(e, plugin),
                ),
                None => {
                    &&& final(self).spec_entries().len() == old(self).spec_entries().len() + 1
                    &&& final(self).spec_entries().take(old(self).spec_entries().len() as int)
                        == old(self).spec_entries()
                    &&& registered_as(final(self).spec_entries().last(), plugin)
                },
            },
    {
        let ghost k = id_key(plugin.id);
        let status = if plugin.enabled {
            PluginStatus::Enabled
        } else {
            PluginStatus::Disabled
        };
        let ghost p = plugin;
        let found = self.index_of(&plugin.id);
        let entry = PluginEntry::new(plugin, status);
        match found {
            Some(i) => {
                proof {
                    lemma_entry_index(self.plugins@, k);
                }
                self.replace(i, entry);
            },
            None => {
                proof {
                    lemma_entry_index(self.plugins@, k);
                }
                let mut v = self.detach();
                let ghost before = v@;
                v.push(entry);
                proof {
                    assert forall|a: int, b: int| 0 <= a < b < v@.len() implies entry_key(v@[a])
                        != entry_key(v@[b]) by {
                        if b < before.len() {
                            assert(entry_key(before[a]) != entry_key(before[b]));
                        }
                    }
                    assert(v@.take(before.len() as int) =~= before);
                }
                self.attach(v);
            },
        }
    }

    /// What the dependency checks read of every entry.
    pub fn dependency_nodes(&self) -> (r: Vec<DependencyNode>)
        ensures
            views(r@) == entry_views(self.spec_entries()),
    {
        let mut out: Vec<DependencyNode> = Vec::new();
        let mut i: usize = 0;
        while i < self.plugins.len()
            invariant
                i <= self.plugins@.len(),
                views(out@) == entry_views(self.plugins@.take(i as int)),
            decreases self.plugins.len() - i,
        {
            let e = &self.plugins[i];
            let active = match e.status {
                PluginStatus::Enabled | PluginStatus::Degraded => true,
                _ => false,
            };
            let mut dependencies: Vec<DependencyRef> = Vec::new();
            let mut k: usize = 0;
            while k < e.plugin.dependencies.len()
                invariant
                    k <= e.plugin.dependencies@.len(),
                    dependencies@ == e.plugin.dependencies@.take(k as int),
                decreases e.plugin.dependencies.len() - k,
            {
                dependencies.push(e.plugin.dependencies[k].clone());
                proof {
                    assert(dependencies@ =~= e.plugin.dependencies@.take(k + 1));
                }
                k = k + 1;
            }
            proof {
                assert(dependencies@ =~= e.plugin.dependencies@);
            }
            let ghost before = out@;
            let node = DependencyNode {
                id: e.plugin.id.clone(),
                version: e.plugin.version.clone(),
                active,
                dependencies,
            };
            assert(node_view(node) == entry_view(self.plugins@[i as int]));
            out.push(node);
            proof {
                let prev = self.plugins@.take(i as int);
                let next = self.plugins@.take(i + 1);
                assert(views(before) == entry_views(prev));
                assert(next =~= prev.push(self.plugins@[i as int]));
                assert(entry_views(next) =~= entry_views(prev).push(entry_view(self.plugins@[i as int])));
                assert(views(out@) =~= views(before).push(node_view(node)));
            }
            i = i + 1;
        }
        proof {
            assert(self.plugins@.take(self.plugins@.len() as int) =~= self.plugins@);
        }
        out
    }

    /// Check that `id` could run: see [`validate_dependencies`].
    pub fn validate_dependencies(&self, id: &PluginId) -> (r: Result<(), PluginError>)
        ensures
            r is Ok <==> dependencies_sound(entry_views(self.spec_entries()), id_key(*id)),
            r matches Err(e) ==> dependency_problem(entry_views(self.spec_entries()), id_key(*id), e),
    {
        let nodes = self.dependency_nodes();
        validate_dependencies(&nodes, id)
    }
}

/// The dependency graph finds an id's node where the registry finds its entry.
pub proof fn lemma_entry_views_index(s: Seq<PluginEntry>, k: Key)
    ensures
        crate::plugin_graph::node_index(crate::plugin_graph::graph_of(entry_views(s)), k)
            == entry_index(s, k),
    decreases s.len(),
{
    if s.len() > 0 {
        let t = s.drop_last();
        assert(crate::plugin_graph::graph_of(entry_views(s)).drop_last() =~= crate::plugin_graph::graph_of(
            entry_views(t),
        ));
        lemma_entry_views_index(t, k);
    }
}

/// `id`'s entry after it was enabled.
pub open spec fn enabled_entry(e: PluginEntry) -> PluginEntry {
    PluginEntry {
        status: PluginStatus::Enabled,
        plugin: LoadedPlugin { enabled: true, ..e.plugin },
        ..e
    }
}

/// `id`'s entry after it was disabled.
pub open spec fn disabled_entry(e: PluginEntry) -> PluginEntry {
    PluginEntry {
        status: PluginStatus::Disabled,
        plugin: LoadedPlugin { enabled: false, ..e.plugin },
        ..e
    }
}

/// The entry of `k` is in `status` afterwards: unchanged where it already
/// was, otherwise switched to it (enabled or disabled to match).
pub open spec fn switched(
    before: Seq<PluginEntry>,
    after: Seq<PluginEntry>,
    k: Key,
    status: PluginStatus,
) -> bool {
    match entry_index(before, k) {
        Some(i) => if before[i].status == status {
            after == before
        } else if status == PluginStatus::Enabled {
            after == before.update(i, enabled_entry(before[i]))
        } else {
            after == before.update(i, disabled_entry(before[i]))
        },
        None => false,
    }
}

/// `e` is the `PluginNotFound` error for the key `k`.
pub open spec fn not_found(e: PluginError, k: Key) -> bool {
    e matches PluginError::PluginNotFound { plugin_id, marketplace } && plugin_id@ == id_text(k.0, k.1)
        && marketplace@ == k.1
}

/// `e` says the plugin with key `k` is still needed by `dependents`.
pub open spec fn required_by(e: PluginError, k: Key, dependents: Seq<Key>) -> bool {
    e matches PluginError::DependencyRequiredBy { dependency, dependents: ds } && id_key(dependency)
        == k && keys_of(ds@) == dependents
}

fn not_found_error(id: &PluginId) -> (e: PluginError)
    ensures
        not_found(e, id_key(*id)),
{
    PluginError::PluginNotFound { plugin_id: id.to_string(), marketplace: id.marketplace.clone() }
}

/// The configuration problems of the plugin at `i`: those of its stored
/// values under its schema as a complete configuration, then `outside`.
pub open spec fn entry_config_problems(
    entries: Seq<PluginEntry>,
    config: Map<Key, Seq<(String, serde_json::Value)>>,
    i: int,
    outside: Seq<Seq<char>>,
) -> Seq<Seq<char>> {
    config_problems(entries[i].plugin.config, stored_pairs(config, entry_key(entries[i])), true) + outside
}

impl PluginRegistry {
    /// The configuration of `id` resolved from its manifest's schema and the
    /// values set for it (see [`PluginConfigStore::resolve`]), with the
    /// `outside` problems of the checks the library cannot make.
    pub fn resolved_config(&self, id: &PluginId, outside: Vec<String>) -> (r: Result<
        ResolvedPluginConfig,
        PluginError,
    >)
        ensures
            match entry_index(self.spec_entries(), id_key(*id)) {
                None => r matches Err(e) && not_found(e, id_key(*id)),
                Some(i) => {
                    let problems = entry_config_problems(self.spec_entries(), self.spec_config(), i, texts(outside@));
                    &&& r is Err <==> problems.len() > 0
                    &&& r matches Err(e) ==> config_error(e, *id, problems, true)
                },
            },
    {
        match self.index_of(id) {
            None => Err(not_found_error(id)),
            Some(i) => {
                proof {
                    lemma_entry_index(self.plugins@, id_key(*id));
                }
                self.config_store.resolve(id, &self.plugins[i].plugin.config, outside)
            },
        }
    }

    /// Check the values set for `id` against the configuration `schema` of a
    /// manifest that would replace its own (with the `outside` problems), as
    /// a complete configuration.
    pub fn validate_config_for_manifest(
        &self,
        id: &PluginId,
        schema: &PluginConfigSchema,
        outside: Vec<String>,
    ) -> (r: Result<(), PluginError>)
        ensures
            ({
                let problems = config_problems(*schema, stored_pairs(self.spec_config(), id_key(*id)), true)
                    + texts(outside@);
                &&& r is Ok <==> problems.len() == 0
                &&& r matches Err(e) ==> config_error(e, *id, problems, true)
            }),
    {
        match self.config_store.resolve(id, schema, outside) {
            Ok(_) => Ok(()),
            Err(e) => Err(e),
        }
    }

    /// The configuration an enabled plugin's components load with (see
    /// [`Self::resolved_config`]): a plugin whose configuration fails is
    /// marked failed with that error, and none of its components load.
    pub fn config_for_apply(&mut self, id: &PluginId, outside: Vec<String>) -> (r: Result<
        ResolvedPluginConfig,
        PluginError,
    >)
        ensures
            final(self).spec_root() == old(self).spec_root(),
            final(self).spec_config() == old(self).spec_config(),
            final(self).spec_config_path() == old(self).spec_config_path(),
            match entry_index(old(self).spec_entries(), id_key(*id)) {
                None => r matches Err(e) && not_found(e, id_key(*id)) && final(self).spec_entries()
                    == old(self).spec_entries(),
                Some(i) => {
                    let problems = entry_config_problems(old(self).spec_entries(), old(self).spec_config(), i, texts(outside@));
                    &&& r is Err <==> problems.len() > 0
                    &&& r is Ok ==> final(self).spec_entries() == old(self).spec_entries()
                    &&& r matches Err(e) ==> config_error(e, *id, problems, true) && replaced_at(
                        old(self).spec_entries(),
                        final(self).spec_entries(),
                        i,
                        |x: PluginEntry|
                            x.status == PluginStatus::Error && x.plugin == old(self).spec_entries()[i].plugin
                                && x.load_errors@.len() == 1 && config_error(x.load_errors@[0], *id, problems, true),
                    )
                },
            },
    {
        let ghost before = self.spec_entries();
        match self.resolved_config(id, outside) {
            Ok(c) => Ok(c),
            Err(e) => {
                let copy = copy_config_error(&e);
                proof {
                    lemma_entry_index(before, id_key(*id));
                }
                self.mark_error(id, copy);
                Err(e)
            },
        }
    }

    /// Set configuration values of the installed plugin `id` over those it
    /// has, once they pass its schema's checks with the `outside` problems
    /// (see [`PluginConfigStore::set`]); refused values change nothing.
    pub fn set_config(&mut self, id: &PluginId, values: &ConfigValues, outside: Vec<String>) -> (r: Result<
        (),
        PluginError,
    >)
        ensures
            final(self).spec_entries() == old(self).spec_entries(),
            final(self).spec_root() == old(self).spec_root(),
            final(self).spec_config_path() == old(self).spec_config_path(),
            match entry_index(old(self).spec_entries(), id_key(*id)) {
                None => r matches Err(e) && not_found(e, id_key(*id)) && final(self).spec_config()
                    == old(self).spec_config(),
                Some(i) => {
                    let merged = crate::plugin_config::pairs_merged(
                        stored_pairs(old(self).spec_config(), id_key(*id)),
                        values.pairs(),
                    );
                    let problems = config_problems(old(self).spec_entries()[i].plugin.config, merged, false)
                        + texts(outside@);
                    &&& r is Ok <==> problems.len() == 0
                    &&& r matches Err(e) ==> config_error(e, *id, problems, false) && final(self).spec_config()
                        == old(self).spec_config()
                    &&& r is Ok ==> final(self).spec_config() == old(self).spec_config().insert(id_key(*id), merged)
                },
            },
    {
        match self.index_of(id) {
            None => Err(not_found_error(id)),
            Some(i) => {
                proof {
                    lemma_entry_index(self.plugins@, id_key(*id));
                }
        proof {
            use_type_invariant(&*self);
        }
                let mut store = self.take_config();
                let r = store.set(id.clone(), &self.plugins[i].plugin.config, values, outside);
                self.config_store = store;
                r
            },
        }
    }

    /// Put back the values `id` had (or none), as after a failed save.
    pub fn restore_config(&mut self, id: &PluginId, previous: Option<ConfigValues>)
        ensures
            final(self).spec_entries() == old(self).spec_entries(),
            final(self).spec_root() == old(self).spec_root(),
            final(self).spec_config_path() == old(self).spec_config_path(),
            match previous {
                Some(v) => final(self).spec_config() == old(self).spec_config().insert(id_key(*id), v.pairs()),
                None => final(self).spec_config() == old(self).spec_config().remove(id_key(*id)),
            },
    {
        proof {
            use_type_invariant(&*self);
        }
        let mut store = self.take_config();
        match previous {
            Some(v) => {
                store.put(id.clone(), v);
            },
            None => {
                store.clear(id);
            },
        }
        self.config_store = store;
    }

    /// Forget the configuration values of `id`, handing back those it had.
    pub fn clear_config(&mut self, id: &PluginId) -> (r: Option<ConfigValues>)
        ensures
            final(self).spec_entries() == old(self).spec_entries(),
            final(self).spec_root() == old(self).spec_root(),
            final(self).spec_config_path() == old(self).spec_config_path(),
            final(self).spec_config() == old(self).spec_config().remove(id_key(*id)),
            r is Some <==> old(self).spec_config().dom().contains(id_key(*id)),
            r matches Some(v) ==> v.pairs() == old(self).spec_config()[id_key(*id)],
    {
        proof {
            use_type_invariant(&*self);
        }
        let mut store = self.take_config();
        let r = store.clear(id);
        self.config_store = store;
        r
    }

    /// The store of configuration values, leaving an empty one in its place.
    fn take_config(&mut self) -> (r: PluginConfigStore)
        ensures
            final(self).spec_entries() == old(self).spec_entries(),
            final(self).spec_root() == old(self).spec_root(),
            r@ == old(self).spec_config(),
            r.spec_path() == old(self).spec_config_path(),
    {
        proof {
            use_type_invariant(&*self);
        }
        let mut store = PluginConfigStore::new("");
        std::mem::swap(&mut store, &mut self.config_store);
        store
    }

    /// Take the configuration values of `store` (as read from the state
    /// file) in place of those held.
    pub fn load_config(&mut self, store: PluginConfigStore)
        ensures
            final(self).spec_entries() == old(self).spec_entries(),
            final(self).spec_root() == old(self).spec_root(),
            final(self).spec_config() == store@,
            final(self).spec_config_path() == store.spec_path(),
    {
        proof {
            use_type_invariant(&*self);
        }
        self.config_store = store;
    }
}

impl PluginRegistry {
    /// Enable a plugin whose configuration is complete and valid (with the
    /// `outside` problems of the checks the library cannot make) and whose
    /// requirements are sound; enabling an enabled plugin changes nothing.
    /// A refused plugin is left as it was.
    pub fn enable(&mut self, id: &PluginId, outside: Vec<String>) -> (r: Result<(), PluginError>)
        ensures
            final(self).spec_root() == old(self).spec_root(),
            final(self).spec_config() == old(self).spec_config(),
            final(self).spec_config_path() == old(self).spec_config_path(),
            r is Err ==> final(self).spec_entries() == old(self).spec_entries(),
            match entry_index(old(self).spec_entries(), id_key(*id)) {
                None => r matches Err(e) && not_found(e, id_key(*id)),
                Some(i) => {
                    let problems = entry_config_problems(
                        old(self).spec_entries(),
                        old(self).spec_config(),
                        i,
                        texts(outside@),
                    );
                    if problems.len() > 0 {
                        r matches Err(e) && config_error(e, *id, problems, true)
                    } else {
                        &&& r is Ok <==> dependencies_sound(entry_views(old(self).spec_entries()), id_key(*id))
                        &&& r matches Err(e) ==> dependency_problem(
                            entry_views(old(self).spec_entries()),
                            id_key(*id),
                            e,
                        )
                        &&& r is Ok ==> switched(
                            old(self).spec_entries(),
                            final(self).spec_entries(),
                            id_key(*id),
                            PluginStatus::Enabled,
                        )
                    }
                },
            },
    {
        match self.resolved_config(id, outside) {
            Ok(_) => {},
            Err(e) => {
                return Err(e);
            },
        }
        match self.validate_dependencies(id) {
            Ok(()) => {},
            Err(e) => {
                return Err(e);
            },
        }
        proof {
            crate::plugin_graph::lemma_node_index(
                crate::plugin_graph::graph_of(entry_views(self.plugins@)),
                id_key(*id),
            );
            lemma_entry_views_index(self.plugins@, id_key(*id));
        }
        let i = match self.index_of(id) {
            Some(i) => i,
            None => {
                return Err(not_found_error(id));
            },
        };
        proof {
            lemma_entry_index(self.plugins@, id_key(*id));
        }
        if let PluginStatus::Enabled = self.plugins[i].status {
            return Ok(());
        }
        let ghost before = self.plugins@;
        let mut e = self.take(i);
        let ghost old_e = e;
        e.status = PluginStatus::Enabled;
        e.plugin.enabled = true;
        assert(e == enabled_entry(old_e));
        self.put(i, e);
        proof {
            assert(self.plugins@ =~= before.update(i as int, enabled_entry(before[i as int])));
        }
        Ok(())
    }
}

impl PluginRegistry {
    /// Disable a plugin no enabled plugin requires; disabling a disabled
    /// plugin changes nothing. The plugin stays installed.
    pub fn disable(&mut self, id: &PluginId) -> (r: Result<(), PluginError>)
        ensures
            final(self).spec_root() == old(self).spec_root(),
            ({
                let before = old(self).spec_entries();
                let needed = dependents_spec(entry_views(before), id_key(*id), true);
                if needed.len() > 0 {
                    r matches Err(e) && required_by(e, id_key(*id), needed)
                        && final(self).spec_entries() == before
                } else if entry_index(before, id_key(*id)) is None {
                    r matches Err(e) && not_found(e, id_key(*id)) && final(self).spec_entries()
                        == before
                } else {
                    r is Ok && switched(
                        before,
                        final(self).spec_entries(),
                        id_key(*id),
                        PluginStatus::Disabled,
                    )
                }
            }),
    {
        let nodes = self.dependency_nodes();
        let dependents = dependents_of(&nodes, id, true);
        if dependents.len() > 0 {
            return Err(PluginError::DependencyRequiredBy { dependency: id.clone(), dependents });
        }
        let i = match self.index_of(id) {
            Some(i) => i,
            None => {
                return Err(not_found_error(id));
            },
        };
        proof {
            lemma_entry_index(self.plugins@, id_key(*id));
        }
        if let PluginStatus::Disabled = self.plugins[i].status {
            return Ok(());
        }
        let ghost before = self.plugins@;
        let mut e = self.take(i);
        let ghost old_e = e;
        e.status = PluginStatus::Disabled;
        e.plugin.enabled = false;
        assert(e == disabled_entry(old_e));
        self.put(i, e);
        proof {
            assert(self.plugins@ =~= before.update(i as int, disabled_entry(before[i as int])));
        }
        Ok(())
    }

    /// Mark a plugin enabled with some components failed, recording why.
    pub fn mark_degraded(&mut self, id: &PluginId, errors: Vec<PluginError>)
        ensures
            final(self).spec_root() == old(self).spec_root(),
            final(self).spec_config() == old(self).spec_config(),
            final(self).spec_config_path() == old(self).spec_config_path(),
            match entry_index(old(self).spec_entries(), id_key(*id)) {
                Some(i) => final(self).spec_entries() == old(self).spec_entries().update(
                    i,
                    PluginEntry {
                        status: PluginStatus::Degraded,
                        load_errors: errors,
                        ..old(self).spec_entries()[i]
                    },
                ),
                None => final(self).spec_entries() == old(self).spec_entries(),
            },
    {
        if let Some(i) = self.index_of(id) {
            proof {
                lemma_entry_index(self.plugins@, id_key(*id));
            }
            let ghost before = self.plugins@;
            let mut e = self.take(i);
            e.status = PluginStatus::Degraded;
            e.load_errors = errors;
            self.put(i, e);
            proof {
                assert(self.plugins@ =~= before.update(i as int, e));
            }
        }
    }

    /// Mark a plugin failed, recording why.
    pub fn mark_error(&mut self, id: &PluginId, error: PluginError)
        ensures
            final(self).spec_root() == old(self).spec_root(),
            final(self).spec_config() == old(self).spec_config(),
            final(self).spec_config_path() == old(self).spec_config_path(),
            match entry_index(old(self).spec_entries(), id_key(*id)) {
                Some(i) => replaced_at(
                    old(self).spec_entries(),
                    final(self).spec_entries(),
                    i,
                    |e: PluginEntry|
                        e.status == PluginStatus::Error && e.plugin == old(self).spec_entries()[i].plugin
                            && e.load_errors@ == seq![error],
                ),
                None => final(self).spec_entries() == old(self).spec_entries(),
            },
    {
        if let Some(i) = self.index_of(id) {
            proof {
                lemma_entry_index(self.plugins@, id_key(*id));
            }
            let ghost before = self.plugins@;
            let mut e = self.take(i);
            e.status = PluginStatus::Error;
            let mut errors: Vec<PluginError> = Vec::new();
            errors.push(error);
            assert(errors@ =~= seq![error]);
            e.load_errors = errors;
            self.put(i, e);
            proof {
                assert(self.plugins@ =~= before.update(i as int, e));
            }
        }
    }

    /// Mark a plugin fully active after a clean load.
    pub fn mark_loaded(&mut self, id: &PluginId)
        ensures
            final(self).spec_root() == old(self).spec_root(),
            final(self).spec_config() == old(self).spec_config(),
            final(self).spec_config_path() == old(self).spec_config_path(),
            match entry_index(old(self).spec_entries(), id_key(*id)) {
                Some(i) => replaced_at(
                    old(self).spec_entries(),
                    final(self).spec_entries(),
                    i,
                    |e: PluginEntry|
                        e.status == PluginStatus::Enabled && e.plugin == LoadedPlugin {
                            enabled: true,
                            ..old(self).spec_entries()[i].plugin
                        } && e.load_errors@.len() == 0,
                ),
                None => final(self).spec_entries() == old(self).spec_entries(),
            },
    {
        if let Some(i) = self.index_of(id) {
            proof {
                lemma_entry_index(self.plugins@, id_key(*id));
            }
            let ghost before = self.plugins@;
            let mut e = self.take(i);
            e.status = PluginStatus::Enabled;
            e.plugin.enabled = true;
            e.load_errors = Vec::new();
            self.put(i, e);
            proof {
                assert(self.plugins@ =~= before.update(i as int, e));
            }
        }
    }

    /// Remove a plugin from the registry entirely.
    pub fn remove(&mut self, id: &PluginId) -> (r: Option<PluginEntry>)
        ensures
            final(self).spec_root() == old(self).spec_root(),
            match entry_index(old(self).spec_entries(), id_key(*id)) {
                Some(i) => r == Some(old(self).spec_entries()[i]) && final(self).spec_entries() == old(
                    self,
                ).spec_entries().remove(i),
                None => r is None && final(self).spec_entries() == old(self).spec_entries(),
            },
    {
        match self.index_of(id) {
            Some(i) => {
                proof {
                    lemma_entry_index(self.plugins@, id_key(*id));
                }
                Some(self.take(i))
            },
            None => None,
        }
    }

    /// Take an installed plugin out of the registry for uninstalling: no
    /// other plugin may require it, and it must be disabled first.
    pub fn uninstall(&mut self, id: &PluginId) -> (r: Result<PluginEntry, PluginError>)
        ensures
            final(self).spec_root() == old(self).spec_root(),
            ({
                let before = old(self).spec_entries();
                let needed = dependents_spec(entry_views(before), id_key(*id), false);
                if needed.len() > 0 {
                    r matches Err(e) && required_by(e, id_key(*id), needed)
                        && final(self).spec_entries() == before
                } else {
                    match entry_index(before, id_key(*id)) {
                        None => r matches Err(e) && not_found(e, id_key(*id))
                            && final(self).spec_entries() == before,
                        Some(i) => if is_active(before[i].status) {
                            r matches Err(e) && e matches PluginError::Other(m) && m@ == "disable plugin `"@
                                + id_text(id.name@, id.marketplace@) + "` before uninstalling it"@
                                && final(self).spec_entries() == before
                        } else {
                            r == Ok::<PluginEntry, PluginError>(before[i])
                                && final(self).spec_entries() == before.remove(i)
                        },
                    }
                }
            }),
    {
        let nodes = self.dependency_nodes();
        let dependents = dependents_of(&nodes, id, false);
        if dependents.len() > 0 {
            return Err(PluginError::DependencyRequiredBy { dependency: id.clone(), dependents });
        }
        let i = match self.index_of(id) {
            Some(i) => i,
            None => {
                return Err(not_found_error(id));
            },
        };
        proof {
            lemma_entry_index(self.plugins@, id_key(*id));
        }
        match self.plugins[i].status {
            PluginStatus::Enabled | PluginStatus::Degraded => {
                let mut text = chars_of("disable plugin `");
                extend_str(&mut text, id.to_string().as_str());
                extend_str(&mut text, "` before uninstalling it");
                return Err(PluginError::Other(string_of(text.as_slice())));
            },
            _ => {},
        }
        Ok(self.take(i))
    }
}

/// The failure of a plugin whose components loaded only in part.
pub fn degraded_error(id: &PluginId, loaded: usize, total: usize) -> (r: Option<PluginError>)
    ensures
        r is Some <==> total > 0 && loaded < total,
        r matches Some(e) ==> e matches PluginError::Degraded { id: i, loaded: l, total: t } && i
            == *id && l == loaded && t == total,
{
    if total > 0 && loaded < total {
        Some(PluginError::Degraded { id: id.clone(), loaded, total })
    } else {
        None
    }
}

/// The name a plugin's agent is registered under: `<plugin id>:<agent name>`.
pub fn plugin_agent_name(plugin_id: &PluginId, agent_name: &str) -> (r: String)
    ensures
        r@ == id_text(plugin_id.name@, plugin_id.marketplace@) + ":"@ + agent_name@,
{
    let mut text = chars_of(plugin_id.to_string().as_str());
    extend_str(&mut text, ":");
    extend_str(&mut text, agent_name);
    string_of(text.as_slice())
}

// ---------------------------------------------------------------------------
// Laws
// ---------------------------------------------------------------------------

/// A registered plugin is found under its id, as registered.
pub proof fn law_register_then_get(before: Seq<PluginEntry>, after: Seq<PluginEntry>, plugin: LoadedPlugin)
    requires
        distinct_entries(before),
        distinct_entries(after),
        match entry_index(before, id_key(plugin.id)) {
            Some(i) => replaced_at(before, after, i, |e: PluginEntry| registered_as(e, plugin)),
            None => {
                &&& after.len() == before.len() + 1
                &&& after.take(before.len() as int) == before
                &&& registered_as(after.last(), plugin)
            },
        },
    ensures
        entry_index(after, id_key(plugin.id)) matches Some(j) && registered_as(after[j], plugin),
{
    match entry_index(before, id_key(plugin.id)) {
        Some(i) => {
            lemma_entry_index(before, id_key(plugin.id));
            assert(registered_as(after[i], plugin));
            lemma_entry_index_at(after, i);
        },
        None => {
            let n = after.len() - 1;
            assert(registered_as(after[n], plugin));
            lemma_entry_index_at(after, n);
        },
    }
}

/// Enabling a plugin and then disabling it leaves it disabled and every
/// other entry as it was; a plugin that was disabled is back where it began.
pub proof fn law_enable_then_disable(
    before: Seq<PluginEntry>,
    middle: Seq<PluginEntry>,
    after: Seq<PluginEntry>,
    k: Key,
)
    requires
        switched(before, middle, k, PluginStatus::Enabled),
        switched(middle, after, k, PluginStatus::Disabled),
    ensures
        entry_index(before, k) matches Some(i) && after == before.update(i, disabled_entry(before[i])),
        entry_index(before, k) matches Some(i) && before[i].status == PluginStatus::Disabled
            && !before[i].plugin.enabled ==> after == before,
{
    let i = entry_index(before, k)->Some_0;
    lemma_entry_index(before, k);
    assert(middle.len() == before.len());
    assert(entry_key(middle[i]) == k);
    assert forall|j: int| 0 <= j < i implies entry_key(middle[j]) != k by {
        assert(middle[j] == before[j]);
    }
    lemma_entry_index(middle, k);
    assert(entry_index(middle, k) == Some(i)) by {
        let m = entry_index(middle, k)->Some_0;
        if m > i {
            assert(entry_key(middle[i]) != k);
        }
    }
    assert(after =~= before.update(i, disabled_entry(before[i])));
    if before[i].status == PluginStatus::Disabled && !before[i].plugin.enabled {
        assert(disabled_entry(before[i]) == before[i]);
        assert(after =~= before);
    }
}

// ---------------------------------------------------------------------------
// Sorted sets of plugin ids
// ---------------------------------------------------------------------------

/// The text of a key, as an id's `to_string` writes it.
pub open spec fn key_text(k: Key) -> Seq<char> {
    id_text(k.0, k.1)
}

/// Keys in the order of their text (ties in any order).
pub open spec fn sorted_by_text(s: Seq<Key>) -> bool {
    forall|i: int, j: int|
        0 <= i < j < s.len() ==> !lex_lt(key_text(#[trigger] s[j]), key_text(#[trigger] s[i]))
}

/// The keys of `ids` as a sorted set: each once, ordered by text.
pub open spec fn sorted_set_of(ids: Seq<PluginId>, keys: Set<Key>) -> bool {
    &&& keys_of(ids).no_duplicates()
    &&& sorted_by_text(keys_of(ids))
    &&& keys_of(ids).to_set() == keys
}

/// Add `id` to a sorted set of ids, keeping it sorted; nothing changes when
/// its key is already there.
fn insert_sorted(out: &mut Vec<PluginId>, id: PluginId)
    requires
        keys_of(old(out)@).no_duplicates(),
        sorted_by_text(keys_of(old(out)@)),
    ensures
        keys_of(final(out)@).no_duplicates(),
        sorted_by_text(keys_of(final(out)@)),
        keys_of(final(out)@).to_set() == keys_of(old(out)@).to_set().insert(id_key(id)),
{
    let ghost before = keys_of(out@);
    let ghost k = id_key(id);
    let text = chars_of(id.to_string().as_str());
    let mut p: usize = 0;
    while p < out.len()
        invariant
            p <= out@.len(),
            before == keys_of(out@),
            before.no_duplicates(),
            sorted_by_text(before),
            k == id_key(id),
            text@ == key_text(k),
            forall|j: int| 0 <= j < p ==> !lex_lt(key_text(k), key_text(#[trigger] before[j])),
            forall|j: int| 0 <= j < p ==> before[j] != k,
        ensures
            p <= out@.len(),
            before == keys_of(out@),
            forall|j: int| 0 <= j < p ==> !lex_lt(key_text(k), key_text(#[trigger] before[j])),
            forall|j: int| 0 <= j < p ==> before[j] != k,
            p < out@.len() ==> lex_lt(key_text(k), key_text(before[p as int])),
        decreases out.len() - p,
    {
        assert(before[p as int] == id_key(out@[p as int]));
        let same_name = crate::text::str_eq(out[p].name.as_str(), id.name.as_str());
        let same_marketplace = crate::text::str_eq(out[p].marketplace.as_str(), id.marketplace.as_str());
        if same_name && same_marketplace {
            proof {
                assert(before[p as int] == k);
                assert(before.to_set().insert(k) =~= before.to_set());
            }
            return;
        }
        let other = chars_of(out[p].to_string().as_str());
        if crate::text::lex_lt_exec(text.as_slice(), other.as_slice()) {
            break;
        }
        p = p + 1;
    }
    // No later entry has the key: they are all above it in text order.
    proof {
        assert forall|j: int| p <= j < before.len() implies lex_lt(key_text(k), key_text(#[trigger] before[j])) by {
            if p < before.len() {
                assert(lex_lt(key_text(k), key_text(before[p as int])));
                if j > p {
                    assert(!lex_lt(key_text(before[j]), key_text(before[p as int])));
                    if key_text(before[j]) != key_text(before[p as int]) {
                        crate::text::lemma_lex_lt_total(key_text(before[j]), key_text(before[p as int]));
                        crate::text::lemma_lex_lt_trans(key_text(k), key_text(before[p as int]), key_text(before[j]));
                    }
                }
            }
        }
        assert forall|j: int| p <= j < before.len() implies before[j] != k by {
            assert(lex_lt(key_text(k), key_text(before[j])));
            crate::text::lemma_lex_lt_irreflexive(key_text(k));
        }
    }
    let ghost old_ids = out@;
    out.insert(p, id);
    proof {
        let after = keys_of(out@);
        assert(after =~= before.insert(p as int, k));
        assert(!before.contains(k)) by {
            if before.contains(k) {
                let j = choose|j: int| 0 <= j < before.len() && before[j] == k;
                assert(before[j] != k);
            }
        }
        assert forall|a: int, b: int| 0 <= a < b < after.len() implies after[a] != after[b] by {
            if a == p {
                assert(after[b] == before[b - 1]);
            } else if b == p {
                assert(after[a] == before[a]);
            } else {
                let aa = if a < p { a } else { a - 1 };
                let bb = if b < p { b } else { b - 1 };
                assert(after[a] == before[aa] && after[b] == before[bb]);
            }
        }
        assert forall|a: int, b: int| 0 <= a < b < after.len() implies !lex_lt(
            key_text(#[trigger] after[b]),
            key_text(#[trigger] after[a]),
        ) by {
            if a == p {
                assert(after[b] == before[b - 1]);
                assert(lex_lt(key_text(k), key_text(before[b - 1])));
                crate::text::lemma_lex_lt_asym(key_text(k), key_text(before[b - 1]));
            } else if b == p {
                assert(after[a] == before[a]);
            } else {
                let aa = if a < p { a } else { a - 1 };
                let bb = if b < p { b } else { b - 1 };
                assert(after[a] == before[aa] && after[b] == before[bb]);
            }
        }
        assert(after.to_set() =~= before.to_set().insert(k)) by {
            assert forall|x: Key| after.to_set().contains(x) implies before.to_set().insert(k).contains(x) by {
                let j = choose|j: int| 0 <= j < after.len() && after[j] == x;
                if j < p {
                    assert(before[j] == x);
                } else if j > p {
                    assert(before[j - 1] == x);
                }
            }
            assert forall|x: Key| before.to_set().insert(k).contains(x) implies after.to_set().contains(x) by {
                if x == k {
                    assert(after[p as int] == k);
                } else {
                    let j = choose|j: int| 0 <= j < before.len() && before[j] == x;
                    if j < p {
                        assert(after[j] == x);
                    } else {
                        assert(after[j + 1] == x);
                    }
                }
            }
        }
    }
}


/// Whether `ids` holds an id with the key of `id`.
fn ids_contain(ids: &Vec<PluginId>, id: &PluginId) -> (r: bool)
    ensures
        r == keys_of(ids@).contains(id_key(*id)),
{
    let mut i: usize = 0;
    while i < ids.len()
        invariant
            i <= ids@.len(),
            forall|j: int| 0 <= j < i ==> keys_of(ids@)[j] != id_key(*id),
        decreases ids.len() - i,
    {
        let same_name = crate::text::str_eq(ids[i].name.as_str(), id.name.as_str());
        let same_marketplace = crate::text::str_eq(ids[i].marketplace.as_str(), id.marketplace.as_str());
        if same_name && same_marketplace {
            assert(keys_of(ids@)[i as int] == id_key(*id));
            return true;
        }
        i = i + 1;
    }
    false
}

/// Whether one of `names` is `n`.
pub open spec fn named_in(names: Seq<Seq<char>>, n: Seq<char>) -> bool {
    exists|j: int| 0 <= j < names.len() && #[trigger] names[j] == n
}

fn names_contain(names: &Vec<String>, n: &str) -> (r: bool)
    ensures
        r == named_in(texts(names@), n@),
{
    let mut i: usize = 0;
    while i < names.len()
        invariant
            i <= names@.len(),
            forall|j: int| 0 <= j < i ==> texts(names@)[j] != n@,
        decreases names.len() - i,
    {
        if crate::text::str_eq(names[i].as_str(), n) {
            assert(texts(names@)[i as int] == n@);
            return true;
        }
        i = i + 1;
    }
    false
}

/// An installed plugin of `marketplace` that the old catalog listed and the
/// new one no longer does.
pub open spec fn dropped_in_refresh(
    e: PluginEntry,
    marketplace: Seq<char>,
    old_names: Seq<Seq<char>>,
    new_names: Seq<Seq<char>>,
) -> bool {
    &&& e.plugin.id.marketplace@ == marketplace
    &&& named_in(old_names, e.plugin.id.name@)
    &&& !named_in(new_names, e.plugin.id.name@)
}

/// The keys of the entries among the first `n` of `s` that a refresh of
/// `marketplace` drops.
pub open spec fn dropped_keys(
    s: Seq<PluginEntry>,
    n: int,
    marketplace: Seq<char>,
    old_names: Seq<Seq<char>>,
    new_names: Seq<Seq<char>>,
) -> Set<Key> {
    Set::new(
        |k: Key|
            exists|i: int|
                0 <= i < n && dropped_in_refresh(#[trigger] s[i], marketplace, old_names, new_names)
                    && entry_key(s[i]) == k,
    )
}

/// The keys of the entries among the first `n` of `s` that belong to `marketplace`.
pub open spec fn marketplace_keys(s: Seq<PluginEntry>, n: int, marketplace: Seq<char>) -> Set<Key> {
    Set::new(
        |k: Key|
            exists|i: int|
                0 <= i < n && (#[trigger] s[i]).plugin.id.marketplace@ == marketplace && entry_key(s[i])
                    == k,
    )
}

impl PluginRegistry {
    /// The installed plugins of `marketplace`, each once, in the order of their text.
    pub fn marketplace_plugins(&self, marketplace: &str) -> (r: Vec<PluginId>)
        ensures
            sorted_set_of(
                r@,
                marketplace_keys(self.spec_entries(), self.spec_entries().len() as int, marketplace@),
            ),
    {
        let ghost s = self.plugins@;
        let mut out: Vec<PluginId> = Vec::new();
        let mut i: usize = 0;
        proof {
            assert(keys_of(out@).to_set() =~= marketplace_keys(s, 0, marketplace@));
        }
        while i < self.plugins.len()
            invariant
                s == self.plugins@,
                i <= s.len(),
                sorted_set_of(out@, marketplace_keys(s, i as int, marketplace@)),
            decreases self.plugins.len() - i,
        {
            let ghost before = keys_of(out@).to_set();
            let id = &self.plugins[i].plugin.id;
            if crate::text::str_eq(id.marketplace.as_str(), marketplace) {
                insert_sorted(&mut out, id.clone());
                proof {
                    assert(marketplace_keys(s, i + 1, marketplace@) =~= before.insert(entry_key(s[i as int])));
                }
            } else {
                proof {
                    assert(marketplace_keys(s, i + 1, marketplace@) =~= before);
                }
            }
            i = i + 1;
        }
        out
    }

    /// The installed plugins that a refresh of `marketplace` drops, each once,
    /// in the order of their text: those whose name the old catalog listed
    /// (`old_names`) and the new one (`new_names`) does not.
    pub fn refresh_removals(
        &self,
        marketplace: &str,
        old_names: &Vec<String>,
        new_names: &Vec<String>,
    ) -> (r: Vec<PluginId>)
        ensures
            sorted_set_of(
                r@,
                dropped_keys(
                    self.spec_entries(),
                    self.spec_entries().len() as int,
                    marketplace@,
                    texts(old_names@),
                    texts(new_names@),
                ),
            ),
    {
        let ghost s = self.plugins@;
        let mut out: Vec<PluginId> = Vec::new();
        let mut i: usize = 0;
        proof {
            assert(keys_of(out@).to_set() =~= dropped_keys(s, 0, marketplace@, texts(old_names@), texts(new_names@)));
        }
        while i < self.plugins.len()
            invariant
                s == self.plugins@,
                i <= s.len(),
                sorted_set_of(out@, dropped_keys(s, i as int, marketplace@, texts(old_names@), texts(new_names@))),
            decreases self.plugins.len() - i,
        {
            let ghost before = keys_of(out@).to_set();
            let id = &self.plugins[i].plugin.id;
            let dropped = crate::text::str_eq(id.marketplace.as_str(), marketplace) && names_contain(
                old_names,
                id.name.as_str(),
            ) && !names_contain(new_names, id.name.as_str());
            if dropped {
                insert_sorted(&mut out, id.clone());
                proof {
                    assert(dropped_keys(s, i + 1, marketplace@, texts(old_names@), texts(new_names@)) =~= before.insert(
                        entry_key(s[i as int]),
                    ));
                }
            } else {
                proof {
                    assert(dropped_keys(s, i + 1, marketplace@, texts(old_names@), texts(new_names@)) =~= before);
                }
            }
            i = i + 1;
        }
        out
    }
}


/// Whether the entry `e` stops the plugins of `removed` from being removed
/// on account of `k`, looking at its first `n` requirements: `e` is itself a
/// removed plugin that is not disabled, or a plugin that stays and requires `k`.
pub open spec fn blocks_within(e: PluginEntry, removed: Set<Key>, k: Key, n: int) -> bool {
    ||| entry_key(e) == k && removed.contains(k) && e.status != PluginStatus::Disabled
    ||| !removed.contains(entry_key(e)) && removed.contains(k) && exists|d: int|
        0 <= d < n && dep_key(entry_key(e), #[trigger] e.plugin.dependencies@[d]) == k
}

/// [`blocks_within`] over all the requirements of `e`.
pub open spec fn blocks(e: PluginEntry, removed: Set<Key>, k: Key) -> bool {
    blocks_within(e, removed, k, e.plugin.dependencies@.len() as int)
}

/// The keys that the first `n` entries of `s` block from removal.
pub open spec fn blocking_keys(s: Seq<PluginEntry>, n: int, removed: Set<Key>) -> Set<Key> {
    Set::new(|k: Key| exists|i: int| 0 <= i < n && blocks(#[trigger] s[i], removed, k))
}

impl PluginRegistry {
    /// The plugins of `removed` whose removal is blocked, each once, in the
    /// order of their text: those still enabled (not disabled), and those that
    /// a plugin staying installed requires.
    pub fn refresh_blockers(&self, removed: &Vec<PluginId>) -> (r: Vec<PluginId>)
        ensures
            sorted_set_of(
                r@,
                blocking_keys(self.spec_entries(), self.spec_entries().len() as int, keys_of(removed@).to_set()),
            ),
    {
        let ghost s = self.plugins@;
        let ghost gone = keys_of(removed@).to_set();
        let mut out: Vec<PluginId> = Vec::new();
        let mut i: usize = 0;
        proof {
            assert(keys_of(out@).to_set() =~= blocking_keys(s, 0, gone));
        }
        while i < self.plugins.len()
            invariant
                s == self.plugins@,
                gone == keys_of(removed@).to_set(),
                i <= s.len(),
                sorted_set_of(out@, blocking_keys(s, i as int, gone)),
            decreases self.plugins.len() - i,
        {
            let ghost prefix = blocking_keys(s, i as int, gone);
            let e = &self.plugins[i];
            let ghost ek = entry_key(*e);
            let own_removed = ids_contain(removed, &e.plugin.id);
            proof {
                assert(own_removed == gone.contains(ek)) by {
                    assert(keys_of(removed@).contains(ek) <==> gone.contains(ek));
                }
            }
            let disabled = match e.status {
                PluginStatus::Disabled => true,
                _ => false,
            };
            if own_removed && !disabled {
                insert_sorted(&mut out, e.plugin.id.clone());
            }
            proof {
                assert(keys_of(out@).to_set() =~= Set::new(
                    |k: Key| prefix.contains(k) || blocks_within(*e, gone, k, 0),
                ));
            }
            if !own_removed {
                let mut d: usize = 0;
                while d < e.plugin.dependencies.len()
                    invariant
                        s == self.plugins@,
                        gone == keys_of(removed@).to_set(),
                        i < s.len(),
                        *e == s[i as int],
                        ek == entry_key(*e),
                        !gone.contains(ek),
                        d <= e.plugin.dependencies@.len(),
                        prefix == blocking_keys(s, i as int, gone),
                        keys_of(out@).no_duplicates(),
                        sorted_by_text(keys_of(out@)),
                        keys_of(out@).to_set() == Set::new(
                            |k: Key| prefix.contains(k) || blocks_within(*e, gone, k, d as int),
                        ),
                    decreases e.plugin.dependencies.len() - d,
                {
                    let ghost current = keys_of(out@).to_set();
                    let target = e.plugin.dependencies[d].resolve(e.plugin.id.marketplace.as_str());
                    let ghost tk = dep_key(ek, e.plugin.dependencies@[d as int]);
                    assert(id_key(target) == tk);
                    if ids_contain(removed, &target) {
                        insert_sorted(&mut out, target);
                        proof {
                            assert(keys_of(out@).to_set() =~= Set::new(
                                |k: Key| prefix.contains(k) || blocks_within(*e, gone, k, d + 1),
                            )) by {
                                assert forall|k: Key| #[trigger] blocks_within(*e, gone, k, d + 1) implies (
                                blocks_within(*e, gone, k, d as int) || k == tk) by {
                                    if k != tk {
                                        let x = choose|x: int|
                                            0 <= x < d + 1 && dep_key(ek, #[trigger] e.plugin.dependencies@[x]) == k;
                                        assert(x < d);
                                    }
                                }
                                assert(blocks_within(*e, gone, tk, d + 1)) by {
                                    assert(dep_key(ek, e.plugin.dependencies@[d as int]) == tk);
                                }
                                assert forall|k: Key| #[trigger] blocks_within(*e, gone, k, d as int) implies blocks_within(*e, gone, k, d + 1) by {
                                    if !(entry_key(*e) == k && gone.contains(k) && e.status != PluginStatus::Disabled) {
                                        let x = choose|x: int|
                                            0 <= x < d && dep_key(ek, #[trigger] e.plugin.dependencies@[x]) == k;
                                        assert(0 <= x < d + 1);
                                    }
                                }
                            }
                        }
                    } else {
                        proof {
                            assert(keys_of(out@).to_set() =~= Set::new(
                                |k: Key| prefix.contains(k) || blocks_within(*e, gone, k, d + 1),
                            )) by {
                                assert forall|k: Key| #[trigger] blocks_within(*e, gone, k, d + 1) implies blocks_within(*e, gone, k, d as int) by {
                                    if !(entry_key(*e) == k && gone.contains(k) && e.status != PluginStatus::Disabled) {
                                        let x = choose|x: int|
                                            0 <= x < d + 1 && dep_key(ek, #[trigger] e.plugin.dependencies@[x]) == k;
                                        if x == d {
                                            assert(gone.contains(tk));
                                        }
                                        assert(x < d);
                                    }
                                }
                                assert forall|k: Key| #[trigger] blocks_within(*e, gone, k, d as int) implies blocks_within(*e, gone, k, d + 1) by {
                                    if !(entry_key(*e) == k && gone.contains(k) && e.status != PluginStatus::Disabled) {
                                        let x = choose|x: int|
                                            0 <= x < d && dep_key(ek, #[trigger] e.plugin.dependencies@[x]) == k;
                                        assert(0 <= x < d + 1);
                                    }
                                }
                            }
                        }
                    }
                    d = d + 1;
                }
            }
            proof {
                assert(blocking_keys(s, i + 1, gone) =~= Set::new(
                    |k: Key| prefix.contains(k) || blocks(s[i as int], gone, k),
                )) by {
                    assert forall|k: Key| blocking_keys(s, i + 1, gone).contains(k) implies (prefix.contains(k) || blocks(s[i as int], gone, k)) by {
                        let j = choose|j: int| 0 <= j < i + 1 && blocks(#[trigger] s[j], gone, k);
                        if j < i {
                            assert(prefix.contains(k));
                        }
                    }
                    assert forall|k: Key| prefix.contains(k) implies blocking_keys(s, i + 1, gone).contains(k) by {
                        let j = choose|j: int| 0 <= j < i && blocks(#[trigger] s[j], gone, k);
                        assert(0 <= j < i + 1);
                    }
                }
                if own_removed {
                    assert forall|k: Key| blocks(*e, gone, k) <==> blocks_within(*e, gone, k, 0) by {}
                }
                assert(keys_of(out@).to_set() =~= blocking_keys(s, i + 1, gone));
            }
            i = i + 1;
        }
        out
    }
}


/// The entries of `s` whose key is not in `gone`, in their order.
pub open spec fn without_keys(s: Seq<PluginEntry>, gone: Set<Key>) -> Seq<PluginEntry> {
    s.filter(|e: PluginEntry| !gone.contains(entry_key(e)))
}

/// `e` is the refusal to refresh because the plugins of `blocked` cannot go.
pub open spec fn refresh_blocked(e: PluginError, blocked: Set<Key>) -> bool {
    e matches PluginError::MarketplaceRefreshBlocked { plugins } && sorted_set_of(plugins@, blocked)
}

/// What a refresh of `marketplace` from the catalog names `old_names` to
/// `new_names` decides for the installed plugins of `s`: without
/// `force_remove` the dropped ones stay as orphans; with it they are removed,
/// unless one of them is blocked (see [`blocks`]).
pub open spec fn refresh_decided(
    s: Seq<PluginEntry>,
    marketplace: Seq<char>,
    old_names: Seq<Seq<char>>,
    new_names: Seq<Seq<char>>,
    force_remove: bool,
    r: Result<MarketplaceRefreshReport, PluginError>,
) -> bool {
    let dropped = dropped_keys(s, s.len() as int, marketplace, old_names, new_names);
    let blocked = blocking_keys(s, s.len() as int, dropped);
    if !force_remove {
        r matches Ok(report) && report.removed@.len() == 0 && sorted_set_of(report.orphaned@, dropped)
    } else if blocked.is_empty() {
        r matches Ok(report) && report.orphaned@.len() == 0 && sorted_set_of(report.removed@, dropped)
    } else {
        r matches Err(e) && refresh_blocked(e, blocked)
    }
}

impl PluginRegistry {
    /// Drop the entries of every plugin in `ids`.
    fn remove_all(&mut self, ids: &Vec<PluginId>)
        ensures
            final(self).spec_entries() == without_keys(old(self).spec_entries(), keys_of(ids@).to_set()),
            final(self).spec_root() == old(self).spec_root(),
    {
        let ghost gone = keys_of(ids@).to_set();
        let ghost keep = |e: PluginEntry| !gone.contains(entry_key(e));
        let mut rest = self.detach();
        let ghost s = rest@;
        let mut out: Vec<PluginEntry> = Vec::new();
        let ghost mut i: int = 0;
        proof {
            assert(s.take(0).filter(keep) =~= Seq::<PluginEntry>::empty());
        }
        while rest.len() > 0
            invariant
                0 <= i <= s.len(),
                distinct_entries(s),
                rest@ == s.skip(i),
                out@ == s.take(i).filter(keep),
                gone == keys_of(ids@).to_set(),
                keep == (|e: PluginEntry| !gone.contains(entry_key(e))),
                forall|a: int| 0 <= a < out@.len() ==> exists|j: int| 0 <= j < i && #[trigger] out@[a] == s[j],
                distinct_entries(out@),
            decreases rest.len(),
        {
            let e = rest.remove(0);
            assert(e == s[i]);
            let gone_here = ids_contain(ids, &e.plugin.id);
            proof {
                assert(s.take(i + 1).drop_last() =~= s.take(i));
                assert(gone_here == gone.contains(entry_key(e)));
                reveal_with_fuel(Seq::filter, 1);
                assert(s.take(i + 1).last() == e);
            }
            if !gone_here {
                let ghost before = out@;
                out.push(e);
                proof {
                    assert forall|a: int, b: int| 0 <= a < b < out@.len() implies entry_key(out@[a]) != entry_key(out@[b]) by {
                        if b == before.len() {
                            let j = choose|j: int| 0 <= j < i && #[trigger] before[a] == s[j];
                            assert(out@[a] == s[j]);
                            assert(entry_key(s[j]) != entry_key(s[i]));
                        } else {
                            assert(out@[a] == before[a] && out@[b] == before[b]);
                        }
                    }
                    assert forall|a: int| 0 <= a < out@.len() implies exists|j: int| 0 <= j < i + 1 && #[trigger] out@[a] == s[j] by {
                        if a == before.len() {
                            assert(out@[a] == s[i]);
                        } else {
                            assert(out@[a] == before[a]);
                            let j = choose|j: int| 0 <= j < i && #[trigger] before[a] == s[j];
                            assert(out@[a] == s[j]);
                        }
                    }
                }
            }
            proof {
                assert(rest@ =~= s.skip(i + 1));
                i = i + 1;
            }
        }
        proof {
            assert(s.take(i) =~= s);
        }
        self.attach(out);
    }

    /// Decide a refresh of `marketplace` whose catalog goes from the entry
    /// names `old_names` to `new_names`: see [`refresh_decided`].
    pub fn refresh_outcome(
        &self,
        marketplace: &str,
        old_names: &Vec<String>,
        new_names: &Vec<String>,
        force_remove: bool,
    ) -> (r: Result<MarketplaceRefreshReport, PluginError>)
        ensures
            refresh_decided(
                self.spec_entries(),
                marketplace@,
                texts(old_names@),
                texts(new_names@),
                force_remove,
                r,
            ),
    {
        let removed = self.refresh_removals(marketplace, old_names, new_names);
        if !force_remove {
            return Ok(MarketplaceRefreshReport { removed: Vec::new(), orphaned: removed });
        }
        let blocked = self.refresh_blockers(&removed);
        if blocked.len() > 0 {
            proof {
                assert(keys_of(blocked@).to_set().contains(keys_of(blocked@)[0]));
            }
            return Err(PluginError::MarketplaceRefreshBlocked { plugins: blocked });
        }
        proof {
            assert(keys_of(blocked@).to_set() =~= Set::<Key>::empty());
        }
        Ok(MarketplaceRefreshReport { removed, orphaned: Vec::new() })
    }

    /// Refresh the marketplace `name` with the catalog just read from its
    /// source: a catalog with problems is refused, as
    /// [`crate::marketplace_registry::validate_marketplace`] finds them;
    /// otherwise decide as [`Self::refresh_outcome`] does; unless the refresh
    /// is blocked, store the catalog in `marketplaces` and drop the entries
    /// of the plugins it removes. A blocked refresh changes nothing.
    pub fn refresh_marketplace(
        &mut self,
        marketplaces: &mut MarketplaceRegistry,
        name: &str,
        catalog: Marketplace,
        install_location: Option<String>,
        last_updated: u64,
    ) -> (r: Result<MarketplaceRefreshReport, PluginError>)
        ensures
            final(self).spec_root() == old(self).spec_root(),
            final(marketplaces).spec_cache_root() == old(marketplaces).spec_cache_root(),
            match marketplace_index(old(marketplaces).spec_marketplaces(), name@) {
                None => (r matches Err(e) && crate::marketplace_registry::marketplace_not_found(
                    e,
                    name@,
                    old(marketplaces).spec_marketplaces(),
                )) && final(self).spec_entries() == old(self).spec_entries()
                    && final(marketplaces).spec_marketplaces() == old(marketplaces).spec_marketplaces(),
                Some(i) => if crate::marketplace_registry::marketplace_catalog_problems(catalog).len() > 0 {
                    &&& (r matches Err(e) && e matches PluginError::ManifestValidation { errors } && texts(errors@)
                        == crate::marketplace_registry::marketplace_catalog_problems(catalog))
                    &&& final(self).spec_entries() == old(self).spec_entries()
                    &&& final(marketplaces).spec_marketplaces() == old(marketplaces).spec_marketplaces()
                } else {
                    let before = old(marketplaces).spec_marketplaces();
                    let after = final(marketplaces).spec_marketplaces();
                    &&& refresh_decided(
                        old(self).spec_entries(),
                        name@,
                        entry_names(before[i].1.manifest),
                        entry_names(catalog),
                        catalog.force_remove_deleted_plugins,
                        r,
                    )
                    &&& r is Err ==> final(self).spec_entries() == old(self).spec_entries() && after == before
                    &&& r matches Ok(report) ==> {
                        &&& final(self).spec_entries() == without_keys(
                            old(self).spec_entries(),
                            keys_of(report.removed@).to_set(),
                        )
                        &&& after.len() == before.len()
                        &&& forall|j: int| 0 <= j < before.len() && j != i ==> after[j] == before[j]
                        &&& after[i].0 == before[i].0
                        &&& after[i].1.source == before[i].1.source
                        &&& after[i].1.manifest == catalog
                        &&& after[i].1.last_updated == last_updated
                        &&& after[i].1.install_location == match install_location {
                            Some(l) => l,
                            None => before[i].1.install_location,
                        }
                    }
                },
            },
    {
        let old_names = match marketplaces.get(name) {
            Some(m) => crate::marketplace_registry::catalog_names(m),
            None => {
                return Err(marketplaces.missing(name));
            },
        };
        match crate::marketplace_registry::validate_marketplace(&catalog) {
            Ok(()) => {},
            Err(e) => {
                return Err(e);
            },
        }
        let new_names = crate::marketplace_registry::catalog_names(&catalog);
        let force = catalog.force_remove_deleted_plugins;
        let outcome = self.refresh_outcome(name, &old_names, &new_names, force);
        match outcome {
            Err(e) => Err(e),
            Ok(report) => {
                let committed = marketplaces.commit_catalog(name, catalog, install_location, last_updated);
                match committed {
                    Ok(()) => {},
                    Err(e) => {
                        return Err(e);
                    },
                }
                self.remove_all(&report.removed);
                Ok(report)
            },
        }
    }

    /// Unregister the marketplace `name` once none of its plugins is
    /// installed; while some are, the error lists them.
    pub fn remove_marketplace(&self, marketplaces: &mut MarketplaceRegistry, name: &str) -> (r: Result<
        (),
        PluginError,
    >)
        ensures
            final(marketplaces).spec_cache_root() == old(marketplaces).spec_cache_root(),
            ({
                let users = marketplace_keys(self.spec_entries(), self.spec_entries().len() as int, name@);
                let before = old(marketplaces).spec_marketplaces();
                let after = final(marketplaces).spec_marketplaces();
                if !users.is_empty() {
                    &&& r matches Err(e) && e matches PluginError::MarketplaceInUse { marketplace, plugins }
                        && marketplace@ == name@ && sorted_set_of(plugins@, users)
                    &&& after == before
                } else {
                    &&& r is Ok <==> crate::plugin_id::valid_id_part(name@) && marketplace_index(before, name@) is Some
                    &&& r is Err ==> after == before
                    &&& r is Ok ==> after == before.remove(marketplace_index(before, name@)->Some_0)
                }
            }),
    {
        let installed = self.marketplace_plugins(name);
        if installed.len() > 0 {
            proof {
                assert(keys_of(installed@).to_set().contains(keys_of(installed@)[0]));
            }
            return Err(PluginError::MarketplaceInUse { marketplace: name.to_owned(), plugins: installed });
        }
        proof {
            assert(keys_of(installed@).to_set() =~= Set::<Key>::empty());
        }
        marketplaces.remove_unchecked(name)
    }
}


/// A refresh whose catalog still lists every name it listed drops no
/// installed plugin, whatever the catalog says about forced removal.
pub proof fn law_refresh_keeping_names_drops_nothing(
    s: Seq<PluginEntry>,
    marketplace: Seq<char>,
    old_names: Seq<Seq<char>>,
    new_names: Seq<Seq<char>>,
)
    requires
        forall|j: int| 0 <= j < old_names.len() ==> named_in(new_names, #[trigger] old_names[j]),
    ensures
        dropped_keys(s, s.len() as int, marketplace, old_names, new_names).is_empty(),
        blocking_keys(s, s.len() as int, dropped_keys(s, s.len() as int, marketplace, old_names, new_names)).is_empty(),
{
    let dropped = dropped_keys(s, s.len() as int, marketplace, old_names, new_names);
    assert forall|k: Key| !dropped.contains(k) by {
        if dropped.contains(k) {
            let i = choose|i: int|
                0 <= i < s.len() && dropped_in_refresh(#[trigger] s[i], marketplace, old_names, new_names)
                    && entry_key(s[i]) == k;
            let j = choose|j: int| 0 <= j < old_names.len() && #[trigger] old_names[j] == s[i].plugin.id.name@;
            assert(named_in(new_names, old_names[j]));
        }
    }
    assert(dropped =~= Set::<Key>::empty());
    assert(blocking_keys(s, s.len() as int, dropped) =~= Set::<Key>::empty());
}


// ---------------------------------------------------------------------------
// Saved state
// ---------------------------------------------------------------------------

/// The name a status is saved under.
pub open spec fn status_label(s: PluginStatus) -> Seq<char> {
    match s {
        PluginStatus::Enabled => "enabled"@,
        PluginStatus::Degraded => "degraded"@,
        PluginStatus::Disabled => "disabled"@,
        PluginStatus::Error => "error"@,
    }
}

/// The name `status` is saved under.
pub fn status_name(status: PluginStatus) -> (r: &'static str)
    ensures
        r@ == status_label(status),
{
    proof {
        reveal_strlit("enabled");
        reveal_strlit("degraded");
        reveal_strlit("disabled");
        reveal_strlit("error");
    }
    match status {
        PluginStatus::Enabled => "enabled",
        PluginStatus::Degraded => "degraded",
        PluginStatus::Disabled => "disabled",
        PluginStatus::Error => "error",
    }
}

/// The status a saved record holds: the record itself when it is a string,
/// else its `status` member.
pub open spec fn record_status(v: serde_json::Value) -> Option<Seq<char>> {
    match crate::json::json_str(v) {
        Some(t) => Some(t),
        None => crate::json::json_string_field(v, "status"@),
    }
}

/// The strings among `items`, in order.
pub open spec fn string_items(items: Seq<serde_json::Value>) -> Seq<Seq<char>>
    decreases items.len(),
{
    if items.len() == 0 {
        seq![]
    } else {
        let rest = string_items(items.drop_last());
        match crate::json::json_str(items.last()) {
            Some(t) => rest.push(t),
            None => rest,
        }
    }
}

/// The load errors a saved record holds: the strings of its `errors` array.
pub open spec fn record_errors(v: serde_json::Value) -> Seq<Seq<char>> {
    match crate::json::json_field(v, "errors"@) {
        Some(a) => match crate::json::json_array(a) {
            Some(items) => string_items(items),
            None => seq![],
        },
        None => seq![],
    }
}

/// `errors` are the `Other` errors with the texts `texts`.
pub open spec fn other_errors(errors: Seq<PluginError>, texts: Seq<Seq<char>>) -> bool {
    &&& errors.len() == texts.len()
    &&& forall|i: int| 0 <= i < errors.len() ==> (#[trigger] errors[i] matches PluginError::Other(m) && m@ == texts[i])
}

/// `after` is `e` with the saved `status` and `errors` applied: a known
/// status name sets the status (and whether the plugin is enabled, except
/// for `error`); an unknown one leaves both; the errors replace the old ones.
pub open spec fn restored(e: PluginEntry, status: Seq<char>, errors: Seq<Seq<char>>, after: PluginEntry) -> bool {
    &&& other_errors(after.load_errors@, errors)
    &&& after.plugin == (if status == "enabled"@ || status == "degraded"@ {
        LoadedPlugin { enabled: true, ..e.plugin }
    } else if status == "disabled"@ {
        LoadedPlugin { enabled: false, ..e.plugin }
    } else {
        e.plugin
    })
    &&& after.status == (if status == "enabled"@ {
        PluginStatus::Enabled
    } else if status == "degraded"@ {
        PluginStatus::Degraded
    } else if status == "disabled"@ {
        PluginStatus::Disabled
    } else if status == "error"@ {
        PluginStatus::Error
    } else {
        e.status
    })
}

/// The record saved under `id_text` with the value `v` applied to the
/// entries `before`: it names an installed plugin and holds a status, or
/// nothing changes.
pub open spec fn record_applied(before: Seq<PluginEntry>, id_text: Seq<char>, v: serde_json::Value, after: Seq<PluginEntry>) -> bool {
    match PluginId::parse_spec(id_text) {
        Some(k) => match (entry_index(before, k), record_status(v)) {
            (Some(i), Some(status)) => after.len() == before.len() && restored(before[i], status, record_errors(v), after[i])
                && forall|j: int| 0 <= j < before.len() && j != i ==> after[j] == before[j],
            _ => after == before,
        },
        None => after == before,
    }
}

/// Read a saved record: its status and its error texts.
pub fn record_fields(v: &serde_json::Value) -> (r: (Option<String>, Vec<String>))
    ensures
        opt_seq(r.0) == record_status(*v),
        texts(r.1@) == record_errors(*v),
{
    let status = match crate::json::json_as_str(v) {
        Some(t) => Some(t),
        None => crate::json::json_get_str(v, "status"),
    };
    let mut errors: Vec<String> = Vec::new();
    match crate::json::json_member(v, "errors") {
        Some(a) => match crate::json::json_as_array(&a) {
            Some(items) => {
                let mut i: usize = 0;
                while i < items.len()
                    invariant
                        i <= items@.len(),
                        texts(errors@) == string_items(items@.take(i as int)),
                    decreases items.len() - i,
                {
                    proof {
                        assert(items@.take(i + 1).drop_last() =~= items@.take(i as int));
                    }
                    match crate::json::json_as_str(&items[i]) {
                        Some(t) => {
                            errors.push(t);
                        },
                        None => {},
                    }
                    proof {
                        assert(texts(errors@) =~= string_items(items@.take(i + 1)));
                    }
                    i = i + 1;
                }
                proof {
                    assert(items@.take(items@.len() as int) =~= items@);
                }
            },
            None => {},
        },
        None => {},
    }
    (status, errors)
}

/// The text of an optional string.
pub open spec fn opt_seq(s: Option<String>) -> Option<Seq<char>> {
    match s {
        Some(t) => Some(t@),
        None => None,
    }
}

impl PluginRegistry {
    /// Apply one saved record, as [`record_applied`] says.
    pub fn restore_record(&mut self, id_text: &str, value: &serde_json::Value)
        ensures
            final(self).spec_root() == old(self).spec_root(),
            record_applied(old(self).spec_entries(), id_text@, *value, final(self).spec_entries()),
    {
        let id = match PluginId::parse(id_text) {
            Some(id) => id,
            None => {
                return;
            },
        };
        let (status, texts_in) = record_fields(value);
        let status = match status {
            Some(t) => t,
            None => {
                return;
            },
        };
        let i = match self.index_of(&id) {
            Some(i) => i,
            None => {
                return;
            },
        };
        let ghost before = self.plugins@;
        proof {
            lemma_entry_index(before, id_key(id));
        }
        let mut errors: Vec<PluginError> = Vec::new();
        let mut k: usize = 0;
        while k < texts_in.len()
            invariant
                k <= texts_in@.len(),
                other_errors(errors@, texts(texts_in@).take(k as int)),
            decreases texts_in.len() - k,
        {
            errors.push(PluginError::Other(texts_in[k].clone()));
            proof {
                let t = texts(texts_in@).take(k + 1);
                assert forall|j: int| 0 <= j < errors@.len() implies (#[trigger] errors@[j] matches PluginError::Other(m) && m@ == t[j]) by {
                    if j < k {
                        assert(texts(texts_in@).take(k as int)[j] == t[j]);
                    }
                }
            }
            k = k + 1;
        }
        proof {
            assert(texts(texts_in@).take(texts_in@.len() as int) =~= texts(texts_in@));
        }
        let mut entry = self.take(i);
        let s = status.as_str();
        proof {
            reveal_strlit("enabled");
            reveal_strlit("degraded");
            reveal_strlit("disabled");
            reveal_strlit("error");
        }
        if crate::text::str_eq(s, "enabled") {
            entry.status = PluginStatus::Enabled;
            entry.plugin.enabled = true;
        } else if crate::text::str_eq(s, "degraded") {
            entry.status = PluginStatus::Degraded;
            entry.plugin.enabled = true;
        } else if crate::text::str_eq(s, "disabled") {
            entry.status = PluginStatus::Disabled;
            entry.plugin.enabled = false;
        } else if crate::text::str_eq(s, "error") {
            entry.status = PluginStatus::Error;
        }
        entry.load_errors = errors;
        let ghost after_entry = entry;
        self.put(i, entry);
        proof {
            assert(self.plugins@ =~= before.update(i as int, after_entry));
        }
    }
}


/// A saved status is read back as itself: applying a record that holds the
/// name of `e`'s status gives `e`'s status again, whatever errors it holds.
pub proof fn law_saved_status_reads_back(e: PluginEntry, errors: Seq<Seq<char>>, after: PluginEntry)
    requires
        restored(e, status_label(e.status), errors, after),
    ensures
        after.status == e.status,
        after.plugin.id == e.plugin.id,
        other_errors(after.load_errors@, errors),
{
    reveal_strlit("enabled");
    reveal_strlit("degraded");
    reveal_strlit("disabled");
    reveal_strlit("error");
    assert("enabled"@ != "degraded"@ && "enabled"@ != "disabled"@ && "enabled"@ != "error"@) by {
        assert("enabled"@[1] != "degraded"@[1]);
        assert("enabled"@[1] != "disabled"@[1]);
        assert("enabled"@.len() != "error"@.len());
    }
    assert("degraded"@ != "disabled"@ && "degraded"@ != "error"@ && "disabled"@ != "error"@) by {
        assert("degraded"@[1] != "disabled"@[1]);
        assert("degraded"@.len() != "error"@.len());
        assert("disabled"@.len() != "error"@.len());
    }
}

/// The saved records `members` applied one after another to `before`
/// (see [`record_applied`]) give `after`.
pub open spec fn records_applied(
    before: Seq<PluginEntry>,
    members: Seq<(Seq<char>, serde_json::Value)>,
    after: Seq<PluginEntry>,
) -> bool
    decreases members.len(),
{
    if members.len() == 0 {
        after == before
    } else {
        exists|mid: Seq<PluginEntry>|
            records_applied(before, members.drop_last(), mid) && #[trigger] record_applied(
                mid,
                members.last().0,
                members.last().1,
                after,
            )
    }
}

/// The saved records of a state file's value: the members of its
/// `plugins` object, or none.
pub open spec fn saved_records(v: serde_json::Value) -> Seq<(Seq<char>, serde_json::Value)> {
    match crate::json::json_field(v, "plugins"@) {
        Some(p) => match crate::json::json_members(p) {
            Some(ms) => ms,
            None => seq![],
        },
        None => seq![],
    }
}

impl PluginRegistry {
    /// Apply the statuses saved in the state file's text `content` to the
    /// installed plugins: text that is not JSON is refused with the parse
    /// error and changes nothing; otherwise each record of its `plugins`
    /// object is restored in turn as [`Self::restore_record`] does.
    pub fn load_state_text(&mut self, content: &str) -> (r: Result<(), PluginError>)
        ensures
            final(self).spec_root() == old(self).spec_root(),
            match crate::json::json_parsed(content@) {
                None => (r matches Err(e) && (e matches PluginError::Json(m) && m@
                    == crate::json::json_parse_error_text(content@))) && final(self).spec_entries()
                    == old(self).spec_entries(),
                Some(v) => r is Ok && records_applied(
                    old(self).spec_entries(),
                    saved_records(v),
                    final(self).spec_entries(),
                ),
            },
    {
        let value = match crate::json::json_from_str(content) {
            Ok(v) => v,
            Err(m) => {
                return Err(PluginError::Json(m));
            },
        };
        let ghost start = self.spec_entries();
        let members: Vec<(String, serde_json::Value)> = match crate::json::json_member(&value, "plugins") {
            Some(p) => match crate::json::json_object_members(&p) {
                Some(ms) => ms,
                None => Vec::new(),
            },
            None => Vec::new(),
        };
        let ghost ms = members@.map_values(|p: (String, serde_json::Value)| (p.0@, p.1));
        assert(ms == saved_records(value));
        let mut i: usize = 0;
        assert(ms.take(0) =~= Seq::<(Seq<char>, serde_json::Value)>::empty());
        while i < members.len()
            invariant
                i <= members@.len(),
                ms == members@.map_values(|p: (String, serde_json::Value)| (p.0@, p.1)),
                self.spec_root() == old(self).spec_root(),
                records_applied(start, ms.take(i as int), self.spec_entries()),
            decreases members.len() - i,
        {
            let ghost mid = self.spec_entries();
            self.restore_record(members[i].0.as_str(), &members[i].1);
            proof {
                let t = ms.take(i + 1);
                assert(t.drop_last() =~= ms.take(i as int));
                assert(t.last() == (members@[i as int].0@, members@[i as int].1));
                assert(records_applied(start, t.drop_last(), mid));
                assert(record_applied(mid, t.last().0, t.last().1, self.spec_entries()));
            }
            i = i + 1;
        }
        proof {
            assert(ms.take(ms.len() as int) =~= ms);
        }
        Ok(())
    }
}

/// The version of the sectioned state file this runtime reads and writes.
pub const STATE_VERSION: u64 = 1;

/// The version a state file's value declares: its `version` number, or 0.
pub open spec fn declared_version(v: serde_json::Value) -> u64 {
    match crate::json::json_field(v, "version"@) {
        Some(n) => match crate::json::json_u64(n) {
            Some(x) => x,
            None => 0,
        },
        None => 0,
    }
}

/// The sectioned state file's value from its `bytes`: they must be JSON
/// (else the parse error) declaring the version this runtime reads (else an
/// error that names both versions).
pub fn checked_state(bytes: &[u8]) -> (r: Result<serde_json::Value, PluginError>)
    ensures
        match crate::json::json_parsed_bytes(bytes@) {
            None => r matches Err(e) && (e matches PluginError::Json(m) && m@
                == crate::json::json_bytes_error_text(bytes@)),
            Some(v) => if declared_version(v) == STATE_VERSION {
                r == Ok::<serde_json::Value, PluginError>(v)
            } else {
                r matches Err(e) && (e matches PluginError::Other(m) && m@
                    == "unsupported plugin state version "@ + crate::text::nat_digits(
                    declared_version(v) as nat,
                ) + "; expected 1"@)
            },
        },
{
    let value = match crate::json::json_from_bytes(bytes) {
        Ok(v) => v,
        Err(m) => {
            return Err(PluginError::Json(m));
        },
    };
    let version: u64 = match crate::json::json_member(&value, "version") {
        Some(n) => match crate::json::json_as_u64(&n) {
            Some(x) => x,
            None => 0,
        },
        None => 0,
    };
    if version == STATE_VERSION {
        return Ok(value);
    }
    let mut text = chars_of("unsupported plugin state version ");
    let digits = crate::text::u64_text(version);
    extend_chars(&mut text, digits.as_slice());
    extend_str(&mut text, "; expected 1");
    Err(PluginError::Other(string_of(text.as_slice())))
}

/// The entries of `states[n]`: keys as in `s`, the first `n` statuses
/// restored, the rest untouched.
pub open spec fn restored_upto(s: Seq<PluginEntry>, t: Seq<PluginEntry>, n: int) -> bool {
    &&& t.len() == s.len()
    &&& forall|i: int| 0 <= i < s.len() ==> entry_key(#[trigger] t[i]) == entry_key(s[i])
    &&& forall|i: int| 0 <= i < n ==> (#[trigger] t[i]).status == s[i].status
    &&& forall|i: int| n <= i < s.len() ==> #[trigger] t[i] == s[i]
}

proof fn lemma_restore_steps(
    s: Seq<PluginEntry>,
    values: Seq<serde_json::Value>,
    states: Seq<Seq<PluginEntry>>,
    n: int,
)
    requires
        distinct_entries(s),
        forall|i: int| 0 <= i < s.len() ==> crate::plugin_id::valid_id_part((#[trigger] s[i]).plugin.id.name@)
            && crate::plugin_id::valid_id_part(s[i].plugin.id.marketplace@),
        values.len() == s.len(),
        forall|i: int| 0 <= i < s.len() ==> record_status(#[trigger] values[i]) == Some(status_label(s[i].status)),
        states.len() == s.len() + 1,
        states[0] == s,
        forall|j: int| 0 <= j < s.len() ==> record_applied(
            #[trigger] states[j],
            id_text(s[j].plugin.id.name@, s[j].plugin.id.marketplace@),
            values[j],
            states[j + 1],
        ),
        0 <= n <= s.len(),
    ensures
        restored_upto(s, states[n], n),
    decreases n,
{
    if n > 0 {
        let j = n - 1;
        lemma_restore_steps(s, values, states, j);
        let t = states[j];
        let u = states[n];
        crate::plugin_id::law_parse_displayed_id(s[j].plugin.id.name@, s[j].plugin.id.marketplace@);
        let k = entry_key(s[j]);
        assert(distinct_entries(t)) by {
            assert forall|a: int, b: int| 0 <= a < b < t.len() implies entry_key(t[a]) != entry_key(t[b]) by {
                assert(entry_key(t[a]) == entry_key(s[a]));
                assert(entry_key(t[b]) == entry_key(s[b]));
            }
        }
        assert(entry_key(t[j]) == k);
        lemma_entry_index_at(t, j);
        assert(record_applied(t, id_text(s[j].plugin.id.name@, s[j].plugin.id.marketplace@), values[j], u));
        assert(t[j] == s[j]);
        law_saved_status_reads_back(t[j], record_errors(values[j]), u[j]);
        assert forall|i: int| 0 <= i < s.len() implies entry_key(#[trigger] u[i]) == entry_key(s[i]) by {
            if i != j {
                assert(u[i] == t[i]);
            }
        }
        assert forall|i: int| 0 <= i < n implies (#[trigger] u[i]).status == s[i].status by {
            if i != j {
                assert(u[i] == t[i]);
            }
        }
        assert forall|i: int| n <= i < s.len() implies #[trigger] u[i] == s[i] by {
            assert(u[i] == t[i]);
        }
    }
}

/// Statuses survive a save and a load: applying to a registry, one after
/// another, the records saved from it (each under its plugin's id text,
/// holding the name of its status) gives every plugin its status back.
/// The ids are valid ones, as installed plugins' are.
pub proof fn law_saved_statuses_are_restored(
    s: Seq<PluginEntry>,
    values: Seq<serde_json::Value>,
    states: Seq<Seq<PluginEntry>>,
)
    requires
        distinct_entries(s),
        forall|i: int| 0 <= i < s.len() ==> crate::plugin_id::valid_id_part((#[trigger] s[i]).plugin.id.name@)
            && crate::plugin_id::valid_id_part(s[i].plugin.id.marketplace@),
        values.len() == s.len(),
        forall|i: int| 0 <= i < s.len() ==> record_status(#[trigger] values[i]) == Some(status_label(s[i].status)),
        states.len() == s.len() + 1,
        states[0] == s,
        forall|j: int| 0 <= j < s.len() ==> record_applied(
            #[trigger] states[j],
            id_text(s[j].plugin.id.name@, s[j].plugin.id.marketplace@),
            values[j],
            states[j + 1],
        ),
    ensures
        states.last().len() == s.len(),
        forall|i: int| 0 <= i < s.len() ==> (#[trigger] states.last()[i]).status == s[i].status
            && entry_key(states.last()[i]) == entry_key(s[i]),
{
    lemma_restore_steps(s, values, states, s.len() as int);
}


// ---------------------------------------------------------------------------
// Applying an enabled plugin's components
// ---------------------------------------------------------------------------

/// How the components of one enabled plugin loaded: how many it has, how
/// many loaded, and the errors of those that did not.
pub struct ComponentTally {
    id: PluginId,
    total: usize,
    loaded: usize,
    errors: Vec<PluginError>,
}

impl ComponentTally {
    /// No more components loaded than counted.
    #[verifier::type_invariant]
    closed spec fn tally_ok(self) -> bool {
        self.loaded <= self.total
    }

    pub closed spec fn spec_id(self) -> PluginId {
        self.id
    }

    pub closed spec fn spec_total(self) -> nat {
        self.total as nat
    }

    pub closed spec fn spec_loaded(self) -> nat {
        self.loaded as nat
    }

    pub closed spec fn spec_errors(self) -> Seq<PluginError> {
        self.errors@
    }

    /// Nothing counted yet for the plugin `id`.
    pub fn new(id: PluginId) -> (r: Self)
        ensures
            r.spec_id() == id,
            r.spec_total() == 0,
            r.spec_loaded() == 0,
            r.spec_errors().len() == 0,
    {
        ComponentTally { id, total: 0, loaded: 0, errors: Vec::new() }
    }

    /// One more component, which loaded.
    pub fn loaded(&mut self)
        requires
            old(self).spec_total() < usize::MAX,
        ensures
            final(self).spec_id() == old(self).spec_id(),
            final(self).spec_total() == old(self).spec_total() + 1,
            final(self).spec_loaded() == old(self).spec_loaded() + 1,
            final(self).spec_errors() == old(self).spec_errors(),
    {
        proof {
            use_type_invariant(&*self);
        }
        self.total = self.total + 1;
        self.loaded = self.loaded + 1;
    }

    /// One more component, which failed with `error`.
    pub fn failed(&mut self, error: PluginError)
        requires
            old(self).spec_total() < usize::MAX,
        ensures
            final(self).spec_id() == old(self).spec_id(),
            final(self).spec_total() == old(self).spec_total() + 1,
            final(self).spec_loaded() == old(self).spec_loaded(),
            final(self).spec_errors() == old(self).spec_errors().push(error),
    {
        proof {
            use_type_invariant(&*self);
        }
        self.total = self.total + 1;
        self.push_error(error);
    }

    fn push_error(&mut self, error: PluginError)
        ensures
            final(self).spec_id() == old(self).spec_id(),
            final(self).spec_total() == old(self).spec_total(),
            final(self).spec_loaded() == old(self).spec_loaded(),
            final(self).spec_errors() == old(self).spec_errors().push(error),
    {
        proof {
            use_type_invariant(&*self);
        }
        let mut errors: Vec<PluginError> = Vec::new();
        std::mem::swap(&mut errors, &mut self.errors);
        errors.push(error);
        std::mem::swap(&mut errors, &mut self.errors);
    }

    /// `count` more components, not loaded yet (the servers of an LSP
    /// declaration, each then [`Self::server_loaded`] or [`Self::server_failed`]).
    pub fn expect(&mut self, count: usize)
        requires
            old(self).spec_total() + count <= usize::MAX,
        ensures
            final(self).spec_id() == old(self).spec_id(),
            final(self).spec_total() == old(self).spec_total() + count,
            final(self).spec_loaded() == old(self).spec_loaded(),
            final(self).spec_errors() == old(self).spec_errors(),
    {
        proof {
            use_type_invariant(&*self);
        }
        self.total = self.total + count;
    }

    /// A component counted by [`Self::expect`] loaded.
    pub fn server_loaded(&mut self)
        requires
            old(self).spec_loaded() < old(self).spec_total(),
        ensures
            final(self).spec_id() == old(self).spec_id(),
            final(self).spec_total() == old(self).spec_total(),
            final(self).spec_loaded() == old(self).spec_loaded() + 1,
            final(self).spec_errors() == old(self).spec_errors(),
    {
        self.loaded = self.loaded + 1;
    }

    /// A component counted by [`Self::expect`] failed with `error`.
    pub fn server_failed(&mut self, error: PluginError)
        ensures
            final(self).spec_id() == old(self).spec_id(),
            final(self).spec_total() == old(self).spec_total(),
            final(self).spec_loaded() == old(self).spec_loaded(),
            final(self).spec_errors() == old(self).spec_errors().push(error),
    {
        self.push_error(error);
    }

    /// The plugin's errors: those of its components, then, when only some
    /// of its components loaded, the error that says how many.
    pub fn finish(self) -> (r: Vec<PluginError>)
        ensures
            ({
                let partial = self.spec_total() > 0 && self.spec_loaded() < self.spec_total();
                &&& partial ==> r@.len() == self.spec_errors().len() + 1 && r@.take(
                    self.spec_errors().len() as int,
                ) == self.spec_errors() && (r@.last() matches PluginError::Degraded { id, loaded, total }
                    && id == self.spec_id() && loaded == self.spec_loaded() && total == self.spec_total())
                &&& !partial ==> r@ == self.spec_errors()
            }),
    {
        let ComponentTally { id, total, loaded, errors } = self;
        let mut errors = errors;
        let ghost before = errors@;
        match degraded_error(&id, loaded, total) {
            Some(e) => {
                errors.push(e);
                assert(errors@.take(before.len() as int) =~= before);
            },
            None => {},
        }
        errors
    }
}

impl PluginRegistry {
    /// Record how a plugin's components loaded: with no errors it is
    /// loaded (enabled, errors cleared), else degraded with `errors`.
    pub fn settle(&mut self, id: &PluginId, errors: Vec<PluginError>)
        ensures
            final(self).spec_root() == old(self).spec_root(),
            final(self).spec_config() == old(self).spec_config(),
            final(self).spec_config_path() == old(self).spec_config_path(),
            match entry_index(old(self).spec_entries(), id_key(*id)) {
                Some(i) => if errors@.len() == 0 {
                    replaced_at(
                        old(self).spec_entries(),
                        final(self).spec_entries(),
                        i,
                        |e: PluginEntry|
                            e.status == PluginStatus::Enabled && e.plugin == LoadedPlugin {
                                enabled: true,
                                ..old(self).spec_entries()[i].plugin
                            } && e.load_errors@.len() == 0,
                    )
                } else {
                    final(self).spec_entries() == old(self).spec_entries().update(
                        i,
                        PluginEntry {
                            status: PluginStatus::Degraded,
                            load_errors: errors,
                            ..old(self).spec_entries()[i]
                        },
                    )
                },
                None => final(self).spec_entries() == old(self).spec_entries(),
            },
    {
        if errors.len() == 0 {
            self.mark_loaded(id);
        } else {
            self.mark_degraded(id, errors);
        }
    }
}


/// The entry of a plugin installed over `before`, its earlier entry if any:
/// enabled as that one was (so enabled, or else disabled), its errors cleared.
pub open spec fn installed_entry(e: PluginEntry, plugin: LoadedPlugin, enabled: bool) -> bool {
    &&& e.plugin == LoadedPlugin { enabled, ..plugin }
    &&& e.status == (if enabled { PluginStatus::Enabled } else { PluginStatus::Disabled })
    &&& e.load_errors@.len() == 0
}

impl PluginRegistry {
    /// Put a freshly installed or upgraded plugin in the registry. An
    /// upgrade keeps whether the plugin was enabled; a new plugin starts
    /// disabled.
    pub fn install_prepared(&mut self, plugin: LoadedPlugin)
        ensures
            final(self).spec_root() == old(self).spec_root(),
            match entry_index(old(self).spec_entries(), id_key(plugin.id)) {
                Some(i) => {
                    let was = old(self).spec_entries()[i].plugin.enabled;
                    replaced_at(
                        old(self).spec_entries(),
                        final(self).spec_entries(),
                        i,
                        |e: PluginEntry| installed_entry(e, plugin, was),
                    )
                },
                None => {
                    let before = old(self).spec_entries();
                    let after = final(self).spec_entries();
                    &&& after.len() == before.len() + 1
                    &&& after.take(before.len() as int) == before
                    &&& installed_entry(after.last(), plugin, false)
                },
            },
    {
        let ghost key = id_key(plugin.id);
        match self.index_of(&plugin.id) {
            Some(i) => {
                proof {
                    lemma_entry_index(self.plugins@, key);
                }
                let was = self.plugins[i].plugin.enabled;
                let status = if was {
                    PluginStatus::Enabled
                } else {
                    PluginStatus::Disabled
                };
                let entry = PluginEntry {
                    plugin: LoadedPlugin { enabled: was, ..plugin },
                    status,
                    load_errors: Vec::new(),
                };
                self.replace(i, entry);
            },
            None => {
                proof {
                    lemma_entry_index(self.plugins@, key);
                }
                let n = self.plugins.len();
                let entry = PluginEntry {
                    plugin: LoadedPlugin { enabled: false, ..plugin },
                    status: PluginStatus::Disabled,
                    load_errors: Vec::new(),
                };
                let ghost before = self.plugins@;
                self.put(n, entry);
                proof {
                    assert(self.plugins@.take(before.len() as int) =~= before);
                }
            },
        }
    }
}


/// Enabling is idempotent: once `enable` has enabled a plugin (its
/// configuration passing its checks and its requirements sound), enabling it
/// again with the same configuration passes the same checks, finds its
/// requirements still sound, and so succeeds and changes nothing.
pub proof fn law_enable_idempotent(
    before: Seq<PluginEntry>,
    after: Seq<PluginEntry>,
    config: Map<Key, Seq<(String, serde_json::Value)>>,
    k: Key,
    outside: Seq<Seq<char>>,
)
    requires
        distinct_entries(before),
        entry_index(before, k) matches Some(i) && entry_config_problems(before, config, i, outside).len() == 0,
        dependencies_sound(entry_views(before), k),
        switched(before, after, k, PluginStatus::Enabled),
    ensures
        entry_index(after, k) matches Some(j) && entry_config_problems(after, config, j, outside).len() == 0,
        dependencies_sound(entry_views(after), k),
        forall|later: Seq<PluginEntry>| switched(after, later, k, PluginStatus::Enabled) ==> later == after,
{
    let i = entry_index(before, k)->0;
    lemma_entry_index(before, k);
    if before[i].status != PluginStatus::Enabled {
        let e = enabled_entry(before[i]);
        assert(after == before.update(i, e));
        lemma_entry_index(after, k);
        assert forall|j: int| 0 <= j < i implies entry_key(after[j]) != k by {
            assert(after[j] == before[j]);
        }
        lemma_entry_index_at(before, i);
        assert forall|a: int, b: int| 0 <= a < b < after.len() implies entry_key(after[a]) != entry_key(after[b]) by {
            assert(entry_key(before[a]) != entry_key(before[b]));
        }
        lemma_entry_index_at(after, i);
        let ns = entry_views(before);
        assert(entry_views(after) =~= ns.update(i, (ns[i].0, ns[i].1, true, ns[i].3)));
        crate::plugin_graph::lemma_activate_keeps_sound(ns, i, k);
        assert(after[i].status == PluginStatus::Enabled);
    }
}

/// A copy of a configuration error: the same error where a value is
/// missing, the same problem texts otherwise.
fn copy_config_error(e: &PluginError) -> (r: PluginError)
    ensures
        forall|id: PluginId, problems: Seq<Seq<char>>, complete: bool|
            config_error(*e, id, problems, complete) ==> config_error(r, id, problems, complete),
{
    match e {
        PluginError::UserConfigRequired { id } => PluginError::UserConfigRequired { id: id.clone() },
        PluginError::UserConfigValidation { errors } => {
            let mut copy: Vec<String> = Vec::new();
            let mut i: usize = 0;
            while i < errors.len()
                invariant
                    i <= errors@.len(),
                    texts(copy@) == texts(errors@).take(i as int),
                decreases errors.len() - i,
            {
                let ghost prior = texts(copy@);
                let t = errors[i].clone();
                copy.push(t);
                assert(texts(copy@) =~= prior.push(errors@[i as int]@));
                assert(texts(errors@).take(i + 1) =~= texts(errors@).take(i as int).push(errors@[i as int]@));
                i = i + 1;
            }
            assert(texts(errors@).take(errors@.len() as int) =~= texts(errors@));
            PluginError::UserConfigValidation { errors: copy }
        },
        _ => PluginError::Other(String::new()),
    }
}

} // verus!
