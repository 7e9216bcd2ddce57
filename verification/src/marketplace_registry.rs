//! The registry of marketplaces: their catalogs, where they are cached, and
//! the queries plugin installation makes of them.
use vstd::prelude::*;

use crate::text::texts;

use crate::marketplace::{
    catalog_problems, choose_marketplace_name, marketplace_name, marketplace_problems,
    MarketplaceSource, PluginSourceStatus,
};
use crate::plugin_command::{join_path, path_join};
use crate::plugin_id::{valid_id_part, PluginId};
use crate::plugin_manifest::{PluginAuthor, PluginSource};
use crate::plugin_tools::PluginError;
use crate::text::{chars_of, contains, contains_exec, extend_str, str_eq, string_of};

verus! {

/// An entry in a marketplace: a plugin and where to get it.
#[derive(Debug, Clone)]
pub struct MarketplaceEntry {
    pub name: String,
    pub description: Option<String>,
    pub version: semver::Version,
    pub source: PluginSource,
    pub category: Option<String>,
    pub tags: Vec<String>,
    pub strict: bool,
    pub manifest_override: Option<serde_json::Value>,
}

/// A curated collection of plugins fetched from a marketplace source.
#[derive(Debug, Clone)]
pub struct Marketplace {
    pub name: String,
    pub owner: Option<PluginAuthor>,
    pub plugins: Vec<MarketplaceEntry>,
    pub allow_cross_marketplace_deps_on: Option<Vec<String>>,
    /// Whether a refresh uninstalls the plugins its catalog no longer lists.
    pub force_remove_deleted_plugins: bool,
}

/// A marketplace as the registry keeps it.
#[derive(Debug, Clone)]
pub struct CachedMarketplace {
    pub source: MarketplaceSource,
    pub manifest: Marketplace,
    /// Where the marketplace is cached on disk.
    pub install_location: String,
    /// When the marketplace was last refreshed (unix timestamp seconds).
    pub last_updated: u64,
}

/// The names of a catalog's plugin entries.
pub open spec fn entry_names(m: Marketplace) -> Seq<Seq<char>> {
    m.plugins@.map_values(|e: MarketplaceEntry| e.name@)
}

/// The problems of a catalog.
pub open spec fn marketplace_catalog_problems(m: Marketplace) -> Seq<Seq<char>> {
    catalog_problems(
        m.name@,
        entry_names(m),
        match m.allow_cross_marketplace_deps_on {
            Some(a) => Some(texts(a@)),
            None => None,
        },
    )
}

/// Check a catalog: its name and its entries' names must be valid, no entry
/// may repeat, and the marketplaces it allows dependencies on must be valid.
pub fn validate_marketplace(manifest: &Marketplace) -> (r: Result<(), PluginError>)
    ensures
        r is Ok <==> marketplace_catalog_problems(*manifest).len() == 0,
        r matches Err(e) ==> e matches PluginError::ManifestValidation { errors } && texts(errors@)
            == marketplace_catalog_problems(*manifest),
{
    let mut names: Vec<String> = Vec::new();
    let mut i: usize = 0;
    while i < manifest.plugins.len()
        invariant
            i <= manifest.plugins@.len(),
            texts(names@) == entry_names(*manifest).take(i as int),
        decreases manifest.plugins.len() - i,
    {
        let ghost before = names@;
        let name = manifest.plugins[i].name.clone();
        assert(name@ == manifest.plugins@[i as int].name@);
        names.push(name);
        proof {
            assert(texts(before).len() == before.len());
            assert(names@ == before.push(name));
            assert(names@[i as int]@ == manifest.plugins@[i as int].name@);
            assert(texts(before) == entry_names(*manifest).take(i as int));
            assert(texts(names@) =~= entry_names(*manifest).take(i + 1));
        }
        i = i + 1;
    }
    proof {
        assert(entry_names(*manifest).take(manifest.plugins@.len() as int) =~= entry_names(*manifest));
    }
    let errors = marketplace_problems(
        manifest.name.as_str(),
        &names,
        &manifest.allow_cross_marketplace_deps_on,
    );
    if errors.len() == 0 {
        Ok(())
    } else {
        Err(PluginError::ManifestValidation { errors })
    }
}

/// The lower-case form of a text, as `str::to_lowercase` computes it.
pub uninterp spec fn lowercase(text: Seq<char>) -> Seq<char>;

/// `str::to_lowercase`; its result is named, not stated.
#[verifier::external_body]
fn to_lowercase(text: &str) -> (r: String)
    ensures
        r@ == lowercase(text@),
{
    text.to_lowercase()
}

/// An entry matches a query when its name or description holds it, case aside.
pub open spec fn entry_matches(e: MarketplaceEntry, query: Seq<char>) -> bool {
    contains(lowercase(e.name@), lowercase(query)) || (e.description matches Some(d) && contains(
        lowercase(d@),
        lowercase(query),
    ))
}

/// A marketplace and one of its entries.
pub type Listed = (Marketplace, MarketplaceEntry);

/// Whether a listing for `query` (every entry, without one) keeps `e`.
pub open spec fn kept(query: Option<Seq<char>>, e: MarketplaceEntry) -> bool {
    match query {
        Some(q) => entry_matches(e, q),
        None => true,
    }
}

/// The entries of `m` among `entries` a listing for `query` keeps, paired with it.
pub open spec fn listed_entries(
    m: Marketplace,
    entries: Seq<MarketplaceEntry>,
    query: Option<Seq<char>>,
) -> Seq<Listed>
    decreases entries.len(),
{
    if entries.len() == 0 {
        seq![]
    } else {
        let before = listed_entries(m, entries.drop_last(), query);
        if kept(query, entries.last()) {
            before.push((m, entries.last()))
        } else {
            before
        }
    }
}

/// Over marketplaces in order, their entries a listing for `query` keeps.
pub open spec fn listed(ms: Seq<(String, CachedMarketplace)>, query: Option<Seq<char>>) -> Seq<
    Listed,
>
    decreases ms.len(),
{
    if ms.len() == 0 {
        seq![]
    } else {
        let m = ms.last().1.manifest;
        listed(ms.drop_last(), query) + listed_entries(m, m.plugins@, query)
    }
}

/// Each pair behind a list of reference pairs.
pub open spec fn deref_pairs(s: Seq<(&Marketplace, &MarketplaceEntry)>) -> Seq<Listed> {
    s.map_values(|p: (&Marketplace, &MarketplaceEntry)| (*p.0, *p.1))
}

/// The first marketplace named `name`.
pub open spec fn marketplace_index(ms: Seq<(String, CachedMarketplace)>, name: Seq<char>) -> Option<
    int,
>
    decreases ms.len(),
{
    if ms.len() == 0 {
        None
    } else {
        match marketplace_index(ms.drop_last(), name) {
            Some(i) => Some(i),
            None => if ms.last().0@ == name {
                Some(ms.len() - 1)
            } else {
                None
            },
        }
    }
}

pub proof fn lemma_marketplace_index(ms: Seq<(String, CachedMarketplace)>, name: Seq<char>)
    ensures
        marketplace_index(ms, name) matches Some(i) ==> 0 <= i < ms.len() && ms[i].0@ == name
            && forall|j: int| 0 <= j < i ==> ms[j].0@ != name,
        marketplace_index(ms, name) is None ==> forall|j: int| 0 <= j < ms.len() ==> ms[j].0@ != name,
    decreases ms.len(),
{
    if ms.len() > 0 {
        let t = ms.drop_last();
        lemma_marketplace_index(t, name);
        assert forall|j: int| 0 <= j < t.len() implies t[j] == ms[j] by {}
    }
}

/// No two marketplaces share a name.
pub open spec fn distinct_names(ms: Seq<(String, CachedMarketplace)>) -> bool {
    forall|i: int, j: int| 0 <= i < j < ms.len() ==> ms[i].0@ != ms[j].0@
}

/// The first entry named `name` in a catalog.
pub open spec fn catalog_entry(entries: Seq<MarketplaceEntry>, name: Seq<char>) -> Option<int>
    decreases entries.len(),
{
    if entries.len() == 0 {
        None
    } else {
        match catalog_entry(entries.drop_last(), name) {
            Some(i) => Some(i),
            None => if entries.last().name@ == name {
                Some(entries.len() - 1)
            } else {
                None
            },
        }
    }
}

pub proof fn lemma_catalog_entry(entries: Seq<MarketplaceEntry>, name: Seq<char>)
    ensures
        catalog_entry(entries, name) matches Some(i) ==> 0 <= i < entries.len() && entries[i].name@
            == name && forall|j: int| 0 <= j < i ==> entries[j].name@ != name,
        catalog_entry(entries, name) is None ==> forall|j: int|
            0 <= j < entries.len() ==> entries[j].name@ != name,
    decreases entries.len(),
{
    if entries.len() > 0 {
        let t = entries.drop_last();
        lemma_catalog_entry(t, name);
        assert forall|j: int| 0 <= j < t.len() implies t[j] == entries[j] by {}
    }
}

/// The marketplaces the plugin installer knows.
pub struct MarketplaceRegistry {
    marketplaces: Vec<(String, CachedMarketplace)>,
    cache_root: String,
}

impl MarketplaceRegistry {
    #[verifier::type_invariant]
    spec fn names_distinct(self) -> bool {
        distinct_names(self.marketplaces@)
    }

    /// The marketplaces with their names, in the order they were added.
    pub closed spec fn spec_marketplaces(self) -> Seq<(String, CachedMarketplace)> {
        self.marketplaces@
    }

    /// Where marketplaces are cached.
    pub closed spec fn spec_cache_root(self) -> Seq<char> {
        self.cache_root@
    }

    /// An empty registry caching under `cache_root`.
    pub fn new(cache_root: &str) -> (r: Self)
        ensures
            r.spec_marketplaces().len() == 0,
            r.spec_cache_root() == cache_root@,
    {
        MarketplaceRegistry { marketplaces: Vec::new(), cache_root: cache_root.to_owned() }
    }

    fn index_of(&self, name: &str) -> (r: Option<usize>)
        ensures
            match r {
                Some(i) => marketplace_index(self.spec_marketplaces(), name@) == Some(i as int),
                None => marketplace_index(self.spec_marketplaces(), name@) is None,
            },
    {
        let ghost ms = self.marketplaces@;
        let mut i: usize = 0;
        while i < self.marketplaces.len()
            invariant
                i <= ms.len(),
                ms == self.marketplaces@,
                forall|j: int| 0 <= j < i ==> ms[j].0@ != name@,
            decreases self.marketplaces.len() - i,
        {
            if str_eq(self.marketplaces[i].0.as_str(), name) {
                proof {
                    lemma_marketplace_index(ms, name@);
                }
                return Some(i);
            }
            i = i + 1;
        }
        proof {
            lemma_marketplace_index(ms, name@);
        }
        None
    }

    /// The marketplace `name` as the registry keeps it: source, catalog,
    /// cache location and time of its last refresh.
    pub fn cached(&self, name: &str) -> (r: Option<&CachedMarketplace>)
        ensures
            match marketplace_index(self.spec_marketplaces(), name@) {
                Some(i) => r == Some(&self.spec_marketplaces()[i].1),
                None => r is None,
            },
    {
        match self.index_of(name) {
            Some(i) => {
                proof {
                    lemma_marketplace_index(self.marketplaces@, name@);
                }
                Some(&self.marketplaces[i].1)
            },
            None => None,
        }
    }

    /// The catalog of the marketplace `name`.
    pub fn get(&self, name: &str) -> (r: Option<&Marketplace>)
        ensures
            r is Some <==> marketplace_index(self.spec_marketplaces(), name@) is Some,
            r matches Some(m) ==> *m == self.spec_marketplaces()[marketplace_index(
                self.spec_marketplaces(),
                name@,
            )->Some_0].1.manifest,
    {
        match self.index_of(name) {
            Some(i) => {
                proof {
                    lemma_marketplace_index(self.marketplaces@, name@);
                }
                Some(&self.marketplaces[i].1.manifest)
            },
            None => None,
        }
    }

    /// The registered marketplace names, in order.
    pub fn names(&self) -> (r: Vec<&String>)
        ensures
            r@.len() == self.spec_marketplaces().len(),
            forall|i: int| 0 <= i < r@.len() ==> *r@[i] == self.spec_marketplaces()[i].0,
    {
        let mut out: Vec<&String> = Vec::new();
        let mut i: usize = 0;
        while i < self.marketplaces.len()
            invariant
                i <= self.marketplaces@.len(),
                out@.len() == i,
                forall|j: int| 0 <= j < i ==> *out@[j] == self.marketplaces@[j].0,
            decreases self.marketplaces.len() - i,
        {
            out.push(&self.marketplaces[i].0);
            i = i + 1;
        }
        out
    }

    /// The error for a marketplace `name` that is not registered.
    pub(crate) fn missing(&self, name: &str) -> (e: PluginError)
        ensures
            marketplace_not_found(e, name@, self.spec_marketplaces()),
    {
        PluginError::MarketplaceNotFound { marketplace: name.to_owned(), available: self.name_list() }
    }

    fn name_list(&self) -> (r: Vec<String>)
        ensures
            texts(r@) == self.spec_marketplaces().map_values(|p: (String, CachedMarketplace)| p.0@),
    {
        let mut out: Vec<String> = Vec::new();
        let mut i: usize = 0;
        while i < self.marketplaces.len()
            invariant
                i <= self.marketplaces@.len(),
                texts(out@) == self.marketplaces@.take(i as int).map_values(
                    |p: (String, CachedMarketplace)| p.0@,
                ),
            decreases self.marketplaces.len() - i,
        {
            let ghost before = out@;
            let name = self.marketplaces[i].0.clone();
            assert(name@ == self.marketplaces@[i as int].0@);
            out.push(name);
            proof {
                assert(texts(before).len() == before.len());
                assert(out@ == before.push(name));
                let f = |p: (String, CachedMarketplace)| p.0@;
                assert(self.marketplaces@.take(i + 1) =~= self.marketplaces@.take(i as int).push(
                    self.marketplaces@[i as int],
                ));
                assert(self.marketplaces@.take(i + 1).map_values(f) =~= self.marketplaces@.take(
                    i as int,
                ).map_values(f).push(self.marketplaces@[i as int].0@));
                assert(out@[i as int]@ == self.marketplaces@[i as int].0@);
                assert(texts(before) == self.marketplaces@.take(i as int).map_values(
                    |p: (String, CachedMarketplace)| p.0@,
                ));
                assert(texts(out@) =~= self.marketplaces@.take(i + 1).map_values(
                    |p: (String, CachedMarketplace)| p.0@,
                ));
            }
            i = i + 1;
        }
        proof {
            assert(self.marketplaces@.take(self.marketplaces@.len() as int) =~= self.marketplaces@);
        }
        out
    }

    /// The plugin entries a listing for `query` keeps, with their
    /// marketplaces, marketplace by marketplace.
    fn collect(&self, query: Option<&str>) -> (r: Vec<(&Marketplace, &MarketplaceEntry)>)
        ensures
            deref_pairs(r@) == listed(
                self.spec_marketplaces(),
                match query {
                    Some(q) => Some(q@),
                    None => None,
                },
            ),
    {
        let ghost qv = match query {
            Some(q) => Some(q@),
            None => None,
        };
        let lowered = match query {
            Some(q) => Some(chars_of(to_lowercase(q).as_str())),
            None => None,
        };
        let mut out: Vec<(&Marketplace, &MarketplaceEntry)> = Vec::new();
        let mut i: usize = 0;
        while i < self.marketplaces.len()
            invariant
                i <= self.marketplaces@.len(),
                match qv {
                    Some(q) => lowered matches Some(l) && l@ == lowercase(q),
                    None => lowered is None,
                },
                deref_pairs(out@) == listed(self.marketplaces@.take(i as int), qv),
            decreases self.marketplaces.len() - i,
        {
            let m = &self.marketplaces[i].1.manifest;
            let ghost start = deref_pairs(out@);
            let mut k: usize = 0;
            while k < m.plugins.len()
                invariant
                    i < self.marketplaces@.len(),
                    *m == self.marketplaces@[i as int].1.manifest,
                    k <= m.plugins@.len(),
                    match qv {
                        Some(q) => lowered matches Some(l) && l@ == lowercase(q),
                        None => lowered is None,
                    },
                    start == listed(self.marketplaces@.take(i as int), qv),
                    deref_pairs(out@) == start + listed_entries(*m, m.plugins@.take(k as int), qv),
                decreases m.plugins.len() - k,
            {
                proof {
                    assert(m.plugins@.take(k + 1).drop_last() =~= m.plugins@.take(k as int));
                }
                let e = &m.plugins[k];
                let keep_it = match &lowered {
                    None => true,
                    Some(l) => {
                        let name = chars_of(to_lowercase(e.name.as_str()).as_str());
                        if contains_exec(name.as_slice(), l.as_slice()) {
                            true
                        } else {
                            match &e.description {
                                Some(d) => {
                                    let text = chars_of(to_lowercase(d.as_str()).as_str());
                                    contains_exec(text.as_slice(), l.as_slice())
                                },
                                None => false,
                            }
                        }
                    },
                };
                assert(keep_it == kept(qv, *e));
                let ghost before = out@;
                if keep_it {
                    out.push((m, e));
                    proof {
                        assert(deref_pairs(out@) =~= deref_pairs(before).push((*m, *e)));
                    }
                }
                proof {
                    assert(m.plugins@.take(k + 1).last() == *e);
                    assert(deref_pairs(out@) =~= start + listed_entries(*m, m.plugins@.take(k + 1), qv));
                }
                k = k + 1;
            }
            proof {
                assert(m.plugins@.take(m.plugins@.len() as int) =~= m.plugins@);
                assert(self.marketplaces@.take(i + 1).drop_last() =~= self.marketplaces@.take(
                    i as int,
                ));
            }
            i = i + 1;
        }
        proof {
            assert(self.marketplaces@.take(self.marketplaces@.len() as int) =~= self.marketplaces@);
        }
        out
    }

    /// The plugin entries whose name or description holds `query`, case
    /// aside, with their marketplaces.
    pub fn search(&self, query: &str) -> (r: Vec<(&Marketplace, &MarketplaceEntry)>)
        ensures
            deref_pairs(r@) == listed(self.spec_marketplaces(), Some(query@)),
    {
        self.collect(Some(query))
    }

    /// Every plugin entry with its marketplace.
    pub fn list_all(&self) -> (r: Vec<(&Marketplace, &MarketplaceEntry)>)
        ensures
            deref_pairs(r@) == listed(self.spec_marketplaces(), None),
    {
        self.collect(None)
    }
}

/// The catalog a remote marketplace starts with, before its first refresh.
pub fn empty_catalog(name: &str) -> (r: Marketplace)
    ensures
        r.name@ == name@,
        r.owner is None,
        r.plugins@.len() == 0,
        r.allow_cross_marketplace_deps_on is None,
        !r.force_remove_deleted_plugins,
{
    Marketplace {
        name: name.to_owned(),
        owner: None,
        plugins: Vec::new(),
        allow_cross_marketplace_deps_on: None,
        force_remove_deleted_plugins: false,
    }
}

/// `e` is `PluginError::Other` with the text `m`.
pub open spec fn other_error(e: PluginError, m: Seq<char>) -> bool {
    e matches PluginError::Other(t) && t@ == m
}

/// `e` says no marketplace `name` is registered among `ms`, listing those that are.
pub open spec fn marketplace_not_found(
    e: PluginError,
    name: Seq<char>,
    ms: Seq<(String, CachedMarketplace)>,
) -> bool {
    e matches PluginError::MarketplaceNotFound { marketplace, available } && marketplace@ == name
        && texts(available@) == ms.map_values(|p: (String, CachedMarketplace)| p.0@)
}

/// Whether the marketplace `marketplace` among `ms` offers the plugin `name`.
pub open spec fn status_of(
    ms: Seq<(String, CachedMarketplace)>,
    marketplace: Seq<char>,
    name: Seq<char>,
) -> PluginSourceStatus {
    match marketplace_index(ms, marketplace) {
        None => PluginSourceStatus::MarketplaceMissing,
        Some(i) => if catalog_entry(ms[i].1.manifest.plugins@, name) is Some {
            PluginSourceStatus::Available
        } else {
            PluginSourceStatus::RemovedFromMarketplace
        },
    }
}

/// Where a marketplace named `name` is cached under `root`.
pub open spec fn cache_location(root: Seq<char>, name: Seq<char>) -> Seq<char> {
    path_join(path_join(root, "marketplaces"@), name)
}

impl MarketplaceRegistry {
    fn detach(&mut self) -> (v: Vec<(String, CachedMarketplace)>)
        ensures
            v@ == old(self).spec_marketplaces(),
            distinct_names(v@),
            final(self).spec_marketplaces().len() == 0,
            final(self).spec_cache_root() == old(self).spec_cache_root(),
    {
        proof {
            use_type_invariant(&*self);
        }
        let mut v: Vec<(String, CachedMarketplace)> = Vec::new();
        std::mem::swap(&mut v, &mut self.marketplaces);
        v
    }

    fn attach(&mut self, v: Vec<(String, CachedMarketplace)>)
        requires
            distinct_names(v@),
        ensures
            final(self).spec_marketplaces() == v@,
            final(self).spec_cache_root() == old(self).spec_cache_root(),
    {
        self.marketplaces = v;
    }

    /// The name to register `source` under: the requested one or one derived
    /// from the source; it must be valid and not registered yet.
    pub fn name_for(&self, source: &MarketplaceSource, requested: Option<String>) -> (r: Result<
        String,
        PluginError,
    >)
        ensures
            match marketplace_name(*source, requested) {
                Err(m) => r matches Err(e) && other_error(e, m),
                Ok(n) => if marketplace_index(self.spec_marketplaces(), n) is Some {
                    r matches Err(e) && other_error(
                        e,
                        "marketplace `"@ + n + "` is already registered; refresh or remove it first"@,
                    )
                } else {
                    r matches Ok(s) && s@ == n
                },
            },
    {
        match choose_marketplace_name(source, requested) {
            Err(m) => Err(PluginError::Other(m)),
            Ok(name) => {
                if self.index_of(name.as_str()).is_some() {
                    let mut t = chars_of("marketplace `");
                    extend_str(&mut t, name.as_str());
                    extend_str(&mut t, "` is already registered; refresh or remove it first");
                    Err(PluginError::Other(string_of(t.as_slice())))
                } else {
                    Ok(name)
                }
            },
        }
    }

    /// Register the catalog `manifest` read from `source` under `name`, cached
    /// under this registry's `marketplaces` directory. A marketplace of that
    /// name must not be registered yet, and the catalog must pass
    /// [`validate_marketplace`].
    pub fn add_catalog(
        &mut self,
        name: String,
        source: MarketplaceSource,
        manifest: Marketplace,
        last_updated: u64,
    ) -> (r: Result<String, PluginError>)
        ensures
            final(self).spec_cache_root() == old(self).spec_cache_root(),
            r is Err ==> final(self).spec_marketplaces() == old(self).spec_marketplaces(),
            marketplace_index(old(self).spec_marketplaces(), name@) is Some ==> (r matches Err(e)
                && other_error(
                e,
                "marketplace `"@ + name@ + "` is already registered; refresh or remove it first"@,
            )),
            marketplace_index(old(self).spec_marketplaces(), name@) is None ==> {
                &&& r is Ok <==> marketplace_catalog_problems(manifest).len() == 0
                &&& r matches Err(e) ==> e matches PluginError::ManifestValidation { errors } && texts(
                    errors@,
                ) == marketplace_catalog_problems(manifest)
            },
            r matches Ok(n) ==> {
                let before = old(self).spec_marketplaces();
                let after = final(self).spec_marketplaces();
                &&& n@ == name@
                &&& after.len() == before.len() + 1
                &&& after.take(before.len() as int) == before
                &&& after.last().0@ == name@
                &&& after.last().1.source == source
                &&& after.last().1.manifest == manifest
                &&& after.last().1.install_location@ == cache_location(old(self).spec_cache_root(), name@)
                &&& after.last().1.last_updated == last_updated
            },
    {
        if self.index_of(name.as_str()).is_some() {
            let mut t = chars_of("marketplace `");
            extend_str(&mut t, name.as_str());
            extend_str(&mut t, "` is already registered; refresh or remove it first");
            return Err(PluginError::Other(string_of(t.as_slice())));
        }
        match validate_marketplace(&manifest) {
            Ok(()) => {},
            Err(e) => {
                return Err(e);
            },
        }
        let dir = join_path(self.cache_root.as_str(), "marketplaces");
        let install_location = join_path(dir.as_str(), name.as_str());
        let result = name.clone();
        let ghost key = name@;
        let cached = CachedMarketplace { source, manifest, install_location, last_updated };
        let mut v = self.detach();
        let ghost before = v@;
        proof {
            lemma_marketplace_index(before, key);
        }
        v.push((name, cached));
        proof {
            assert forall|a: int, b: int| 0 <= a < b < v@.len() implies v@[a].0@ != v@[b].0@ by {
                if b < before.len() {
                    assert(before[a].0@ != before[b].0@);
                }
            }
            assert(v@.take(before.len() as int) =~= before);
        }
        self.attach(v);
        Ok(result)
    }

    /// Whether the marketplace `name` may be removed: a valid name that is registered.
    pub fn check_removal(&self, name: &str) -> (r: Result<(), PluginError>)
        ensures
            !valid_id_part(name@) ==> (r matches Err(e) && other_error(
                e,
                "invalid marketplace name `"@ + name@ + "`"@,
            )),
            valid_id_part(name@) && marketplace_index(self.spec_marketplaces(), name@) is None ==> (
            r matches Err(e) && marketplace_not_found(e, name@, self.spec_marketplaces())),
            r is Ok <==> valid_id_part(name@) && marketplace_index(self.spec_marketplaces(), name@) is Some,
    {
        if !crate::plugin_id::is_valid_id_part(name) {
            let mut t = chars_of("invalid marketplace name `");
            extend_str(&mut t, name);
            extend_str(&mut t, "`");
            return Err(PluginError::Other(string_of(t.as_slice())));
        }
        if self.index_of(name).is_none() {
            return Err(
                PluginError::MarketplaceNotFound {
                    marketplace: name.to_owned(),
                    available: self.name_list(),
                },
            );
        }
        Ok(())
    }

    /// Remove the marketplace `name` after [`Self::check_removal`] passes.
    pub fn remove_unchecked(&mut self, name: &str) -> (r: Result<(), PluginError>)
        ensures
            final(self).spec_cache_root() == old(self).spec_cache_root(),
            r is Ok <==> valid_id_part(name@) && marketplace_index(old(self).spec_marketplaces(), name@) is Some,
            r is Err ==> final(self).spec_marketplaces() == old(self).spec_marketplaces(),
            r is Ok ==> final(self).spec_marketplaces() == old(self).spec_marketplaces().remove(
                marketplace_index(old(self).spec_marketplaces(), name@)->Some_0,
            ),
    {
        match self.check_removal(name) {
            Ok(()) => {},
            Err(e) => {
                return Err(e);
            },
        }
        let i = match self.index_of(name) {
            Some(i) => i,
            None => {
                return Ok(());
            },
        };
        let mut v = self.detach();
        let ghost before = v@;
        proof {
            lemma_marketplace_index(before, name@);
        }
        v.remove(i);
        proof {
            assert forall|a: int, b: int| 0 <= a < b < v@.len() implies v@[a].0@ != v@[b].0@ by {
                let aa = if a < i { a } else { a + 1 };
                let bb = if b < i { b } else { b + 1 };
                assert(v@[a] == before[aa] && v@[b] == before[bb]);
                assert(before[aa].0@ != before[bb].0@);
            }
        }
        self.attach(v);
        Ok(())
    }

    /// Replace the catalog of the registered marketplace `name` after a
    /// refresh, with its new cache location where it moved.
    pub fn commit_catalog(
        &mut self,
        name: &str,
        manifest: Marketplace,
        install_location: Option<String>,
        last_updated: u64,
    ) -> (r: Result<(), PluginError>)
        ensures
            final(self).spec_cache_root() == old(self).spec_cache_root(),
            match marketplace_index(old(self).spec_marketplaces(), name@) {
                None => (r matches Err(e) && marketplace_not_found(
                    e,
                    name@,
                    old(self).spec_marketplaces(),
                )) && final(self).spec_marketplaces() == old(self).spec_marketplaces(),
                Some(i) => {
                    let before = old(self).spec_marketplaces()[i];
                    let after = final(self).spec_marketplaces()[i];
                    &&& r is Ok
                    &&& final(self).spec_marketplaces().len() == old(self).spec_marketplaces().len()
                    &&& forall|j: int|
                        0 <= j < old(self).spec_marketplaces().len() && j != i ==> final(self).spec_marketplaces()[j] == old(self).spec_marketplaces()[j]
                    &&& after.0 == before.0
                    &&& after.1.source == before.1.source
                    &&& after.1.manifest == manifest
                    &&& after.1.last_updated == last_updated
                    &&& after.1.install_location == match install_location {
                        Some(l) => l,
                        None => before.1.install_location,
                    }
                },
            },
    {
        let i = match self.index_of(name) {
            Some(i) => i,
            None => {
                return Err(
                    PluginError::MarketplaceNotFound {
                        marketplace: name.to_owned(),
                        available: self.name_list(),
                    },
                );
            },
        };
        let mut v = self.detach();
        let ghost before = v@;
        proof {
            lemma_marketplace_index(before, name@);
        }
        let (key, mut cached) = v.remove(i);
        cached.manifest = manifest;
        cached.last_updated = last_updated;
        if let Some(l) = install_location {
            cached.install_location = l;
        }
        v.insert(i, (key, cached));
        proof {
            assert forall|a: int, b: int| 0 <= a < b < v@.len() implies v@[a].0@ != v@[b].0@ by {
                if a != i && b != i {
                    assert(v@[a] == before[a] && v@[b] == before[b]);
                } else if a == i {
                    assert(v@[b] == before[b]);
                    assert(v@[a].0 == before[a].0);
                } else {
                    assert(v@[a] == before[a]);
                    assert(v@[b].0 == before[b].0);
                }
                assert(before[a].0@ != before[b].0@);
            }
            assert forall|j: int| 0 <= j < before.len() && j != i implies v@[j] == before[j] by {}
        }
        self.attach(v);
        Ok(())
    }

    /// The catalog entry of a plugin: the entry named like it in its marketplace.
    pub fn plugin_entry(&self, id: &PluginId) -> (r: Option<&MarketplaceEntry>)
        ensures
            match marketplace_index(self.spec_marketplaces(), id.marketplace@) {
                None => r is None,
                Some(i) => {
                    let entries = self.spec_marketplaces()[i].1.manifest.plugins@;
                    match catalog_entry(entries, id.name@) {
                        Some(k) => r matches Some(e) && *e == entries[k],
                        None => r is None,
                    }
                },
            },
    {
        let i = match self.index_of(id.marketplace.as_str()) {
            Some(i) => i,
            None => {
                return None;
            },
        };
        proof {
            lemma_marketplace_index(self.marketplaces@, id.marketplace@);
        }
        let entries = &self.marketplaces[i].1.manifest.plugins;
        let ghost es = entries@;
        proof {
            lemma_catalog_entry(es, id.name@);
        }
        let mut k: usize = 0;
        while k < entries.len()
            invariant
                k <= es.len(),
                es == entries@,
                i < self.marketplaces@.len(),
                marketplace_index(self.marketplaces@, id.marketplace@) == Some(i as int),
                es == self.marketplaces@[i as int].1.manifest.plugins@,
                forall|j: int| 0 <= j < k ==> es[j].name@ != id.name@,
                catalog_entry(es, id.name@) matches Some(m) ==> 0 <= m < es.len() && es[m].name@
                    == id.name@ && forall|j: int| 0 <= j < m ==> es[j].name@ != id.name@,
                catalog_entry(es, id.name@) is None ==> forall|j: int|
                    0 <= j < es.len() ==> es[j].name@ != id.name@,
            decreases entries.len() - k,
        {
            if str_eq(entries[k].name.as_str(), id.name.as_str()) {
                return Some(&entries[k]);
            }
            k = k + 1;
        }
        None
    }

    /// Where a marketplace's plugin sources are resolved from: a local
    /// marketplace's own directory, otherwise its cache.
    pub fn source_base(&self, marketplace: &str) -> (r: Option<String>)
        ensures
            match marketplace_index(self.spec_marketplaces(), marketplace@) {
                None => r is None,
                Some(i) => r matches Some(b) && b@ == match self.spec_marketplaces()[i].1.source {
                    MarketplaceSource::Local { path } => path@,
                    _ => self.spec_marketplaces()[i].1.install_location@,
                },
            },
    {
        match self.index_of(marketplace) {
            None => None,
            Some(i) => {
                proof {
                    lemma_marketplace_index(self.marketplaces@, marketplace@);
                }
                let cached = &self.marketplaces[i].1;
                match &cached.source {
                    MarketplaceSource::Local { path } => Some(path.clone()),
                    _ => Some(cached.install_location.clone()),
                }
            },
        }
    }

    /// Whether plugins of the marketplace `from` may depend on plugins of
    /// `dependency`: always within one marketplace, otherwise when `from`'s
    /// catalog allows it.
    pub fn allows_dependency(&self, from: &str, dependency: &str) -> (r: bool)
        ensures
            r == (from@ == dependency@ || match marketplace_index(self.spec_marketplaces(), from@) {
                Some(i) => match self.spec_marketplaces()[i].1.manifest.allow_cross_marketplace_deps_on {
                    Some(a) => texts(a@).contains(dependency@),
                    None => false,
                },
                None => false,
            }),
    {
        if str_eq(from, dependency) {
            return true;
        }
        match self.index_of(from) {
            None => false,
            Some(i) => {
                proof {
                    lemma_marketplace_index(self.marketplaces@, from@);
                }
                match &self.marketplaces[i].1.manifest.allow_cross_marketplace_deps_on {
                    None => false,
                    Some(allowed) => {
                        let mut k: usize = 0;
                        while k < allowed.len()
                            invariant
                                k <= allowed@.len(),
                                from@ != dependency@,
                                i < self.marketplaces@.len(),
                                marketplace_index(self.marketplaces@, from@) == Some(i as int),
                                self.marketplaces@[i as int].1.manifest.allow_cross_marketplace_deps_on
                                    == Some(*allowed),
                                forall|j: int| 0 <= j < k ==> texts(allowed@)[j] != dependency@,
                            decreases allowed.len() - k,
                        {
                            if str_eq(allowed[k].as_str(), dependency) {
                                assert(texts(allowed@)[k as int] == dependency@);
                                return true;
                            }
                            k = k + 1;
                        }
                        false
                    },
                }
            },
        }
    }

    /// Whether an installed plugin's marketplace still offers it.
    pub fn source_status(&self, id: &PluginId) -> (r: PluginSourceStatus)
        ensures
            r == status_of(self.spec_marketplaces(), id.marketplace@, id.name@),
    {
        if self.index_of(id.marketplace.as_str()).is_none() {
            return PluginSourceStatus::MarketplaceMissing;
        }
        match self.plugin_entry(id) {
            Some(_) => PluginSourceStatus::Available,
            None => PluginSourceStatus::RemovedFromMarketplace,
        }
    }
}

// ---------------------------------------------------------------------------
// Laws
// ---------------------------------------------------------------------------

/// Once a catalog is added under a name, the plugins it lists are available
/// from that marketplace and no others are.
pub proof fn law_added_catalog_offers_its_plugins(
    before: Seq<(String, CachedMarketplace)>,
    after: Seq<(String, CachedMarketplace)>,
    name: Seq<char>,
    manifest: Marketplace,
    plugin: Seq<char>,
)
    requires
        distinct_names(after),
        match marketplace_index(before, name) {
            Some(i) => after.len() == before.len() && after[i].0@ == name && after[i].1.manifest
                == manifest,
            None => after.len() == before.len() + 1 && after.last().0@ == name
                && after.last().1.manifest == manifest,
        },
    ensures
        status_of(after, name, plugin) == if catalog_entry(manifest.plugins@, plugin) is Some {
            PluginSourceStatus::Available
        } else {
            PluginSourceStatus::RemovedFromMarketplace
        },
{
    let j = match marketplace_index(before, name) {
        Some(i) => {
            lemma_marketplace_index(before, name);
            i
        },
        None => after.len() - 1,
    };
    assert(after[j].0@ == name);
    lemma_marketplace_index(after, name);
    assert(marketplace_index(after, name) == Some(j)) by {
        let m = marketplace_index(after, name)->Some_0;
        if m != j {
            if m < j {
                assert(after[m].0@ != after[j].0@);
            } else {
                assert(after[j].0@ != after[m].0@);
            }
        }
    }
}

/// Once a marketplace is removed, its plugins' marketplace is missing.
pub proof fn law_removed_marketplace_is_missing(
    before: Seq<(String, CachedMarketplace)>,
    name: Seq<char>,
    plugin: Seq<char>,
)
    requires
        distinct_names(before),
        marketplace_index(before, name) is Some,
    ensures
        status_of(before.remove(marketplace_index(before, name)->Some_0), name, plugin)
            == PluginSourceStatus::MarketplaceMissing,
{
    let i = marketplace_index(before, name)->Some_0;
    lemma_marketplace_index(before, name);
    let after = before.remove(i);
    lemma_marketplace_index(after, name);
    if marketplace_index(after, name) is Some {
        let m = marketplace_index(after, name)->Some_0;
        if m < i {
            assert(after[m] == before[m]);
        } else {
            assert(after[m] == before[m + 1]);
            assert(before[i].0@ != before[m + 1].0@);
        }
    }
}


impl MarketplaceRegistry {
    /// Register a marketplace read back from the saved list, unless one of
    /// its name is registered already (then nothing changes and the result
    /// is `false`). Without a saved location it is cached under this
    /// registry's `marketplaces` directory.
    pub fn restore_cached(
        &mut self,
        name: String,
        source: MarketplaceSource,
        install_location: Option<String>,
        last_updated: u64,
        manifest: Marketplace,
    ) -> (r: bool)
        ensures
            final(self).spec_cache_root() == old(self).spec_cache_root(),
            r <==> marketplace_index(old(self).spec_marketplaces(), name@) is None,
            !r ==> final(self).spec_marketplaces() == old(self).spec_marketplaces(),
            r ==> {
                let before = old(self).spec_marketplaces();
                let after = final(self).spec_marketplaces();
                &&& after.len() == before.len() + 1
                &&& after.take(before.len() as int) == before
                &&& after.last().0@ == name@
                &&& after.last().1.source == source
                &&& after.last().1.manifest == manifest
                &&& after.last().1.last_updated == last_updated
                &&& after.last().1.install_location@ == match install_location {
                    Some(l) => l@,
                    None => cache_location(old(self).spec_cache_root(), name@),
                }
            },
    {
        if self.index_of(name.as_str()).is_some() {
            return false;
        }
        let location = match install_location {
            Some(l) => l,
            None => {
                let dir = join_path(self.cache_root.as_str(), "marketplaces");
                join_path(dir.as_str(), name.as_str())
            },
        };
        let cached = CachedMarketplace { source, manifest, install_location: location, last_updated };
        let ghost key = name@;
        let mut v = self.detach();
        let ghost before = v@;
        proof {
            lemma_marketplace_index(before, key);
        }
        v.push((name, cached));
        proof {
            assert forall|a: int, b: int| 0 <= a < b < v@.len() implies v@[a].0@ != v@[b].0@ by {
                if b < before.len() {
                    assert(before[a].0@ != before[b].0@);
                }
            }
            assert(v@.take(before.len() as int) =~= before);
        }
        self.attach(v);
        true
    }
}

/// The names of a catalog's entries.
pub fn catalog_names(m: &Marketplace) -> (r: Vec<String>)
    ensures
        texts(r@) == entry_names(*m),
{
    let mut out: Vec<String> = Vec::new();
    let mut i: usize = 0;
    while i < m.plugins.len()
        invariant
            i <= m.plugins@.len(),
            out@.len() == i,
            texts(out@) == entry_names(*m).take(i as int),
        decreases m.plugins.len() - i,
    {
        let ghost before = out@;
        out.push(m.plugins[i].name.clone());
        proof {
            assert(out@ == before.push(out@.last()));
            assert(texts(out@) =~= entry_names(*m).take(i + 1)) by {
                assert(out@.last()@ == m.plugins@[i as int].name@);
                assert forall|j: int| 0 <= j < i + 1 implies texts(out@)[j] == entry_names(*m)[j] by {
                    if j < i {
                        assert(out@[j] == before[j]);
                        assert(texts(before)[j] == entry_names(*m).take(i as int)[j]);
                    }
                }
            }
        }
        i = i + 1;
    }
    proof {
        assert(entry_names(*m).take(m.plugins@.len() as int) =~= entry_names(*m));
    }
    out
}

/// What a listing of `entries` of `m` holds: exactly the entries it keeps,
/// each paired with `m`.
proof fn lemma_listed_entries_member(
    m: Marketplace,
    entries: Seq<MarketplaceEntry>,
    query: Option<Seq<char>>,
    p: Listed,
)
    ensures
        listed_entries(m, entries, query).contains(p) <==> (p.0 == m && entries.contains(p.1) && kept(query, p.1)),
    decreases entries.len(),
{
    if entries.len() > 0 {
        let rest = entries.drop_last();
        lemma_listed_entries_member(m, rest, query, p);
        let before = listed_entries(m, rest, query);
        if entries.contains(p.1) && !rest.contains(p.1) {
            let j = choose|j: int| 0 <= j < entries.len() && entries[j] == p.1;
            if j < rest.len() {
                assert(rest[j] == p.1);
            }
        }
        if rest.contains(p.1) {
            let j = choose|j: int| 0 <= j < rest.len() && rest[j] == p.1;
            assert(entries[j] == p.1);
        }
        if kept(query, entries.last()) {
            let after = before.push((m, entries.last()));
            if after.contains(p) && !before.contains(p) {
                let j = choose|j: int| 0 <= j < after.len() && after[j] == p;
                if j < before.len() {
                    assert(before[j] == p);
                }
                assert(entries[entries.len() - 1] == p.1);
            }
            if before.contains(p) {
                let j = choose|j: int| 0 <= j < before.len() && before[j] == p;
                assert(after[j] == p);
            }
            if p == (m, entries.last()) {
                assert(after[after.len() - 1] == p);
            }
        }
    }
}

/// What a listing over marketplaces holds: an entry of one of their
/// catalogs that the listing keeps, paired with that catalog.
proof fn lemma_listed_member(ms: Seq<(String, CachedMarketplace)>, query: Option<Seq<char>>, p: Listed)
    ensures
        listed(ms, query).contains(p) <==> exists|i: int|
            0 <= i < ms.len() && p.0 == (#[trigger] ms[i]).1.manifest && ms[i].1.manifest.plugins@.contains(p.1)
                && kept(query, p.1),
    decreases ms.len(),
{
    if ms.len() > 0 {
        let rest = ms.drop_last();
        lemma_listed_member(rest, query, p);
        let m = ms.last().1.manifest;
        lemma_listed_entries_member(m, m.plugins@, query, p);
        let a = listed(rest, query);
        let b = listed_entries(m, m.plugins@, query);
        assert(listed(ms, query) == a + b);
        if (a + b).contains(p) {
            let j = choose|j: int| 0 <= j < (a + b).len() && (a + b)[j] == p;
            if j < a.len() {
                assert(a[j] == p);
                let i = choose|i: int|
                    0 <= i < rest.len() && p.0 == (#[trigger] rest[i]).1.manifest && rest[i].1.manifest.plugins@.contains(p.1)
                        && kept(query, p.1);
                assert(ms[i] == rest[i]);
            } else {
                assert(b[j - a.len()] == p);
                assert(ms[ms.len() - 1].1.manifest == m);
            }
        }
        if exists|i: int|
            0 <= i < ms.len() && p.0 == (#[trigger] ms[i]).1.manifest && ms[i].1.manifest.plugins@.contains(p.1)
                && kept(query, p.1) {
            let i = choose|i: int|
                0 <= i < ms.len() && p.0 == (#[trigger] ms[i]).1.manifest && ms[i].1.manifest.plugins@.contains(p.1)
                    && kept(query, p.1);
            if i < rest.len() {
                assert(rest[i] == ms[i]);
                assert(a.contains(p));
                let j = choose|j: int| 0 <= j < a.len() && a[j] == p;
                assert((a + b)[j] == p);
            } else {
                assert(b.contains(p));
                let j = choose|j: int| 0 <= j < b.len() && b[j] == p;
                assert((a + b)[a.len() + j] == p);
            }
        }
    }
}

/// Searching finds entries by name or description, case aside: every entry
/// of a registered catalog whose lower-cased name, or lower-cased
/// description, holds the lower-cased query is found (with its catalog),
/// and nothing else is.
pub proof fn law_search_by_name_or_description(
    ms: Seq<(String, CachedMarketplace)>,
    query: Seq<char>,
    i: int,
    e: MarketplaceEntry,
)
    requires
        0 <= i < ms.len(),
        ms[i].1.manifest.plugins@.contains(e),
    ensures
        contains(lowercase(e.name@), lowercase(query)) ==> listed(ms, Some(query)).contains((ms[i].1.manifest, e)),
        (e.description matches Some(d) && contains(lowercase(d@), lowercase(query))) ==> listed(
            ms,
            Some(query),
        ).contains((ms[i].1.manifest, e)),
        listed(ms, Some(query)).contains((ms[i].1.manifest, e)) ==> contains(lowercase(e.name@), lowercase(query))
            || (e.description matches Some(d) && contains(lowercase(d@), lowercase(query))),
{
    lemma_listed_member(ms, Some(query), (ms[i].1.manifest, e));
}

/// Listing everything lists every entry of every registered catalog, with
/// its catalog.
pub proof fn law_list_all_lists_every_entry(ms: Seq<(String, CachedMarketplace)>, i: int, e: MarketplaceEntry)
    requires
        0 <= i < ms.len(),
        ms[i].1.manifest.plugins@.contains(e),
    ensures
        listed(ms, None).contains((ms[i].1.manifest, e)),
{
    lemma_listed_member(ms, None, (ms[i].1.manifest, e));
}

/// Everything a search finds is an entry whose lower-cased name or
/// description holds the lower-cased query, paired with a registered
/// catalog that lists it.
pub proof fn law_search_finds_only_matches(ms: Seq<(String, CachedMarketplace)>, query: Seq<char>, k: int)
    requires
        0 <= k < listed(ms, Some(query)).len(),
    ensures
        ({
            let p = listed(ms, Some(query))[k];
            &&& contains(lowercase(p.1.name@), lowercase(query)) || (p.1.description matches Some(d) && contains(
                lowercase(d@),
                lowercase(query),
            ))
            &&& exists|i: int| 0 <= i < ms.len() && p.0 == (#[trigger] ms[i]).1.manifest && ms[i].1.manifest.plugins@.contains(p.1)
        }),
{
    let p = listed(ms, Some(query))[k];
    assert(listed(ms, Some(query)).contains(p));
    lemma_listed_member(ms, Some(query), p);
}

// ---------------------------------------------------------------------------
// The saved list of marketplaces
// ---------------------------------------------------------------------------

/// A marketplace as the saved list holds it: its name, its `source` and
/// `manifest` as saved (read into the library's types by the caller), where
/// it was cached and when it was last refreshed.
#[derive(Debug, Clone)]
pub struct SavedMarketplace {
    pub name: String,
    pub source: Option<serde_json::Value>,
    pub manifest: Option<serde_json::Value>,
    pub install_location: Option<String>,
    pub last_updated: u64,
}

/// `m` is what the saved list holds under `name` in the record `v`.
pub open spec fn saved_as(m: SavedMarketplace, name: Seq<char>, v: serde_json::Value) -> bool {
    &&& m.name@ == name
    &&& m.source == crate::json::json_field(v, "source"@)
    &&& m.manifest == crate::json::json_field(v, "manifest"@)
    &&& opt_text(m.install_location) == crate::json::json_string_field(v, "installLocation"@)
    &&& m.last_updated == match crate::json::json_field(v, "lastUpdated"@) {
        Some(n) => match crate::json::json_u64(n) {
            Some(x) => x,
            None => 0,
        },
        None => 0,
    }
}

/// The text of an optional string.
pub open spec fn opt_text(s: Option<String>) -> Option<Seq<char>> {
    match s {
        Some(t) => Some(t@),
        None => None,
    }
}

/// The records of a saved list's value: the members of its `marketplaces`
/// object, or none.
pub open spec fn saved_list_members(v: serde_json::Value) -> Seq<(Seq<char>, serde_json::Value)> {
    match crate::json::json_field(v, "marketplaces"@) {
        Some(o) => match crate::json::json_members(o) {
            Some(ms) => ms,
            None => seq![],
        },
        None => seq![],
    }
}

/// Those of the records `ms` whose marketplace is not registered in `regs`,
/// in order.
pub open spec fn unregistered(
    ms: Seq<(Seq<char>, serde_json::Value)>,
    regs: Seq<(String, CachedMarketplace)>,
) -> Seq<(Seq<char>, serde_json::Value)>
    decreases ms.len(),
{
    if ms.len() == 0 {
        seq![]
    } else {
        let rest = unregistered(ms.drop_last(), regs);
        if marketplace_index(regs, ms.last().0) is Some {
            rest
        } else {
            rest.push(ms.last())
        }
    }
}

/// Where a saved marketplace's catalog is found, or the saved catalog itself.
#[derive(Debug, Clone)]
pub enum CatalogChoice {
    /// The saved catalog, which passes validation.
    Saved(Marketplace),
    /// Read the catalog from this directory.
    ReadFrom(String),
}

impl MarketplaceRegistry {
    /// The marketplaces of the saved list's text `content` that are not
    /// registered yet, in the list's order: text that is not JSON is refused
    /// with the parse error.
    pub fn known_marketplaces(&self, content: &str) -> (r: Result<Vec<SavedMarketplace>, PluginError>)
        ensures
            match crate::json::json_parsed(content@) {
                None => r matches Err(e) && (e matches PluginError::Json(m) && m@
                    == crate::json::json_parse_error_text(content@)),
                Some(v) => r matches Ok(list) && {
                    let want = unregistered(saved_list_members(v), self.spec_marketplaces());
                    &&& list@.len() == want.len()
                    &&& forall|i: int| 0 <= i < want.len() ==> saved_as(#[trigger] list@[i], want[i].0, want[i].1)
                },
            },
    {
        let value = match crate::json::json_from_str(content) {
            Ok(v) => v,
            Err(m) => {
                return Err(PluginError::Json(m));
            },
        };
        let members: Vec<(String, serde_json::Value)> = match crate::json::json_member(&value, "marketplaces") {
            Some(o) => match crate::json::json_object_members(&o) {
                Some(ms) => ms,
                None => Vec::new(),
            },
            None => Vec::new(),
        };
        let ghost ms = members@.map_values(|p: (String, serde_json::Value)| (p.0@, p.1));
        assert(ms == saved_list_members(value));
        let mut out: Vec<SavedMarketplace> = Vec::new();
        let mut i: usize = 0;
        assert(ms.take(0) =~= Seq::<(Seq<char>, serde_json::Value)>::empty());
        while i < members.len()
            invariant
                i <= members@.len(),
                ms == members@.map_values(|p: (String, serde_json::Value)| (p.0@, p.1)),
                out@.len() == unregistered(ms.take(i as int), self.spec_marketplaces()).len(),
                forall|j: int|
                    0 <= j < out@.len() ==> saved_as(
                        #[trigger] out@[j],
                        unregistered(ms.take(i as int), self.spec_marketplaces())[j].0,
                        unregistered(ms.take(i as int), self.spec_marketplaces())[j].1,
                    ),
            decreases members.len() - i,
        {
            let ghost before = unregistered(ms.take(i as int), self.spec_marketplaces());
            proof {
                assert(ms.take(i + 1).drop_last() =~= ms.take(i as int));
                assert(ms.take(i + 1).last() == ms[i as int]);
            }
            let name = &members[i].0;
            let entry = &members[i].1;
            if self.cached(name.as_str()).is_none() {
                let last_updated: u64 = match crate::json::json_member(entry, "lastUpdated") {
                    Some(n) => match crate::json::json_as_u64(&n) {
                        Some(x) => x,
                        None => 0,
                    },
                    None => 0,
                };
                let saved = SavedMarketplace {
                    name: name.clone(),
                    source: crate::json::json_member(entry, "source"),
                    manifest: crate::json::json_member(entry, "manifest"),
                    install_location: crate::json::json_get_str(entry, "installLocation"),
                    last_updated,
                };
                let ghost prev = out@;
                out.push(saved);
                proof {
                    let after = unregistered(ms.take(i + 1), self.spec_marketplaces());
                    assert(after =~= before.push(ms[i as int]));
                    assert forall|j: int| 0 <= j < out@.len() implies saved_as(#[trigger] out@[j], after[j].0, after[j].1) by {
                        if j < before.len() {
                            assert(out@[j] == prev[j]);
                        }
                    }
                }
            } else {
                proof {
                    let after = unregistered(ms.take(i + 1), self.spec_marketplaces());
                    assert(after =~= before);
                }
            }
            i = i + 1;
        }
        proof {
            assert(ms.take(ms.len() as int) =~= ms);
        }
        Ok(out)
    }

    /// Where to find the catalog of the saved marketplace `name`: the saved
    /// catalog `persisted`, where it was read and passes validation; else the
    /// directory to read it from, that of a local source, else the saved
    /// location, else its place in this registry's cache.
    pub fn catalog_choice(
        &self,
        name: &str,
        source: &MarketplaceSource,
        install_location: &Option<String>,
        persisted: Option<Marketplace>,
    ) -> (r: CatalogChoice)
        ensures
            match persisted {
                Some(m) => marketplace_catalog_problems(m).len() == 0,
                None => false,
            } ==> r == CatalogChoice::Saved(persisted->0),
            !(match persisted {
                Some(m) => marketplace_catalog_problems(m).len() == 0,
                None => false,
            }) ==> (r matches CatalogChoice::ReadFrom(dir) && dir@ == match source {
                MarketplaceSource::Local { path } => path@,
                _ => match install_location {
                    Some(l) => l@,
                    None => cache_location(self.spec_cache_root(), name@),
                },
            }),
    {
        match persisted {
            Some(m) => {
                if validate_marketplace(&m).is_ok() {
                    return CatalogChoice::Saved(m);
                }
            },
            None => {},
        }
        let dir = match source {
            MarketplaceSource::Local { path } => path.clone(),
            _ => match install_location {
                Some(l) => l.clone(),
                None => {
                    let root = join_path(self.cache_root.as_str(), "marketplaces");
                    join_path(root.as_str(), name)
                },
            },
        };
        CatalogChoice::ReadFrom(dir)
    }
}

} // verus!
