//! The configuration values that users set for their plugins, kept by
//! plugin id. The store merges new values over those already set and
//! resolves a plugin's configuration from what it holds.
use vstd::prelude::*;

use crate::plugin_config::{
    config_error, config_problems, declared_sensitive, distinct_keys, entries_map, lemma_pairs_merged,
    pairs_merged, validate_values, with_defaults, ConfigValues, PluginConfigSchema, ResolvedPluginConfig,
};
use crate::text::texts;
use crate::plugin_graph::{id_key, Key};
use crate::plugin_id::PluginId;
use crate::plugin_tools::PluginError;

verus! {

/// The value pairs stored for `key`, or none.
pub open spec fn stored_pairs(
    m: Map<Key, Seq<(String, serde_json::Value)>>,
    key: Key,
) -> Seq<(String, serde_json::Value)> {
    if m.dom().contains(key) {
        m[key]
    } else {
        seq![]
    }
}

/// `values` lists each plugin once, and `model` holds exactly what it lists.
pub open spec fn listed_in(
    values: Seq<(PluginId, ConfigValues)>,
    model: Map<Key, Seq<(String, serde_json::Value)>>,
) -> bool {
    &&& forall|i: int, j: int| 0 <= i < j < values.len() ==> id_key(values[i].0) != id_key(values[j].0)
    &&& forall|k: Key|
        #![trigger model.dom().contains(k)]
        model.dom().contains(k) <==> exists|i: int| 0 <= i < values.len() && id_key(values[i].0) == k
    &&& forall|i: int| 0 <= i < values.len() ==> #[trigger] model[id_key(values[i].0)] == values[i].1.pairs()
}

/// User-set configuration values of each plugin, and the file they are
/// saved in.
pub struct PluginConfigStore {
    path: String,
    values: Vec<(PluginId, ConfigValues)>,
    model: Ghost<Map<Key, Seq<(String, serde_json::Value)>>>,
}

impl View for PluginConfigStore {
    type V = Map<Key, Seq<(String, serde_json::Value)>>;

    closed spec fn view(&self) -> Map<Key, Seq<(String, serde_json::Value)>> {
        self.model@
    }
}

impl PluginConfigStore {
    /// Each plugin is listed once, and the map holds exactly what is listed.
    #[verifier::type_invariant]
    closed spec fn listed(self) -> bool {
        listed_in(self.values@, self.model@)
    }

    /// The file the values are saved in.
    pub closed spec fn spec_path(self) -> Seq<char> {
        self.path@
    }

    /// A store with nothing set, saved in `path`.
    pub fn new(path: &str) -> (r: Self)
        ensures
            r@ == Map::<Key, Seq<(String, serde_json::Value)>>::empty(),
            r.spec_path() == path@,
    {
        PluginConfigStore { path: path.to_string(), values: Vec::new(), model: Ghost(Map::empty()) }
    }

    /// The file the values are saved in.
    pub fn path(&self) -> (r: &str)
        ensures
            r@ == self.spec_path(),
    {
        self.path.as_str()
    }

    /// Where `id` is listed.
    fn position(&self, id: &PluginId) -> (r: Option<usize>)
        ensures
            r matches Some(i) ==> i < self.values@.len() && id_key(self.values@[i as int].0) == id_key(*id),
            r is None ==> forall|i: int| 0 <= i < self.values@.len() ==> id_key(self.values@[i].0) != id_key(*id),
    {
        let mut i: usize = 0;
        while i < self.values.len()
            invariant
                i <= self.values@.len(),
                forall|j: int| 0 <= j < i ==> id_key(self.values@[j].0) != id_key(*id),
            decreases self.values.len() - i,
        {
            let other = &self.values[i].0;
            if crate::text::str_eq(other.name.as_str(), id.name.as_str())
                && crate::text::str_eq(other.marketplace.as_str(), id.marketplace.as_str()) {
                return Some(i);
            }
            i = i + 1;
        }
        None
    }

    /// The values set for `id`.
    pub fn get(&self, id: &PluginId) -> (r: Option<&ConfigValues>)
        ensures
            r is Some <==> self@.dom().contains(id_key(*id)),
            r matches Some(v) ==> v.pairs() == self@[id_key(*id)],
    {
        proof {
            use_type_invariant(self);
        }
        match self.position(id) {
            Some(i) => Some(&self.values[i].1),
            None => None,
        }
    }

    /// Set the values of `id` to `values`, handing back those it had.
    pub fn put(&mut self, id: PluginId, values: ConfigValues) -> (r: Option<ConfigValues>)
        ensures
            final(self)@ == old(self)@.insert(id_key(id), values.pairs()),
            final(self).spec_path() == old(self).spec_path(),
            r is Some <==> old(self)@.dom().contains(id_key(id)),
            r matches Some(v) ==> v.pairs() == old(self)@[id_key(id)],
    {
        proof {
            use_type_invariant(&*self);
        }
        let ghost k = id_key(id);
        let ghost m0 = self.model@;
        let ghost v0 = self.values@;
        let ghost new_model = m0.insert(k, values.pairs());
                match self.position(&id) {
            Some(i) => {
                let mut whole = PluginConfigStore::new("");
                std::mem::swap(&mut whole, self);
                let PluginConfigStore { path, values: mut list, model: _ } = whole;
                let ghost before = list@;
                assert(before == v0);
                let (_, previous) = list.remove(i);
                list.insert(i, (id, values));
                proof {
                    assert(list@ =~= before.update(i as int, list@[i as int]));
                    assert forall|a: int, b: int| 0 <= a < b < list@.len() implies id_key(list@[a].0)
                        != id_key(list@[b].0) by {
                        assert(id_key(before[a].0) != id_key(before[b].0));
                    }
                    assert forall|kk: Key| new_model.dom().contains(kk) <==> exists|j: int|
                        0 <= j < list@.len() && id_key(list@[j].0) == kk by {
                        if new_model.dom().contains(kk) && kk != k {
                            assert(m0.dom().contains(kk));
                            let j = choose|j: int| 0 <= j < before.len() && id_key(before[j].0) == kk;
                            assert(id_key(list@[j].0) == kk);
                        }
                        if kk == k {
                            assert(id_key(list@[i as int].0) == kk);
                        }
                        if exists|j: int| 0 <= j < list@.len() && id_key(list@[j].0) == kk {
                            let j = choose|j: int| 0 <= j < list@.len() && id_key(list@[j].0) == kk;
                            if j != i {
                                assert(id_key(before[j].0) == kk);
                            }
                        }
                    }
                    assert forall|j: int| 0 <= j < list@.len() implies #[trigger] new_model[id_key(list@[j].0)]
                        == list@[j].1.pairs() by {
                        if j != i {
                            assert(id_key(before[j].0) != id_key(before[i as int].0));
                            assert(m0[id_key(before[j].0)] == before[j].1.pairs());
                        }
                    }
                    assert(previous.pairs() == m0[k]);
                }
                assert(listed_in(list@, new_model));
                let store = PluginConfigStore { path, values: list, model: Ghost(new_model) };
                *self = store;
                Some(previous)
            },
            None => {
                let mut whole = PluginConfigStore::new("");
                std::mem::swap(&mut whole, self);
                let PluginConfigStore { path, values: mut list, model: _ } = whole;
                let ghost before = list@;
                assert(before == v0);
                list.push((id, values));
                proof {
                    assert(list@.drop_last() =~= before);
                    assert(!m0.dom().contains(k));
                    assert forall|a: int, b: int| 0 <= a < b < list@.len() implies id_key(list@[a].0)
                        != id_key(list@[b].0) by {
                        if b < before.len() {
                            assert(id_key(before[a].0) != id_key(before[b].0));
                        } else {
                            assert(list@[a] == before[a]);
                        }
                    }
                    assert forall|kk: Key| new_model.dom().contains(kk) <==> exists|j: int|
                        0 <= j < list@.len() && id_key(list@[j].0) == kk by {
                        if new_model.dom().contains(kk) && kk != k {
                            assert(m0.dom().contains(kk));
                            let j = choose|j: int| 0 <= j < before.len() && id_key(before[j].0) == kk;
                            assert(list@[j] == before[j]);
                        }
                        if kk == k {
                            assert(id_key(list@[before.len() as int].0) == kk);
                        }
                        if exists|j: int| 0 <= j < list@.len() && id_key(list@[j].0) == kk {
                            let j = choose|j: int| 0 <= j < list@.len() && id_key(list@[j].0) == kk;
                            if j < before.len() {
                                assert(list@[j] == before[j]);
                            }
                        }
                    }
                    assert forall|j: int| 0 <= j < list@.len() implies #[trigger] new_model[id_key(list@[j].0)]
                        == list@[j].1.pairs() by {
                        if j < before.len() {
                            assert(list@[j] == before[j]);
                            assert(m0[id_key(before[j].0)] == before[j].1.pairs());
                        }
                    }
                }
                assert(listed_in(list@, new_model));
                let store = PluginConfigStore { path, values: list, model: Ghost(new_model) };
                *self = store;
                None
            },
        }
    }

    /// Forget the values of `id`, handing back those it had.
    pub fn clear(&mut self, id: &PluginId) -> (r: Option<ConfigValues>)
        ensures
            final(self)@ == old(self)@.remove(id_key(*id)),
            final(self).spec_path() == old(self).spec_path(),
            r is Some <==> old(self)@.dom().contains(id_key(*id)),
            r matches Some(v) ==> v.pairs() == old(self)@[id_key(*id)],
    {
        proof {
            use_type_invariant(&*self);
        }
        let ghost k = id_key(*id);
        let ghost m0 = self.model@;
        let ghost v0 = self.values@;
        let ghost new_model = m0.remove(k);
        match self.position(id) {
            Some(i) => {
                let mut whole = PluginConfigStore::new("");
                std::mem::swap(&mut whole, self);
                let PluginConfigStore { path, values: mut list, model: _ } = whole;
                assert(list@ == v0);
                let (_, previous) = list.remove(i);
                proof {
                    assert(list@ =~= v0.remove(i as int));
                    assert forall|a: int, b: int| 0 <= a < b < list@.len() implies id_key(list@[a].0)
                        != id_key(list@[b].0) by {
                        let a0 = if a < i { a } else { a + 1 };
                        let b0 = if b < i { b } else { b + 1 };
                        assert(list@[a] == v0[a0] && list@[b] == v0[b0]);
                        assert(id_key(v0[a0].0) != id_key(v0[b0].0));
                    }
                    assert forall|kk: Key| #![trigger new_model.dom().contains(kk)]
                        new_model.dom().contains(kk) <==> exists|j: int|
                        0 <= j < list@.len() && id_key(list@[j].0) == kk by {
                        if new_model.dom().contains(kk) {
                            assert(m0.dom().contains(kk));
                            let j = choose|j: int| 0 <= j < v0.len() && id_key(v0[j].0) == kk;
                            assert(j != i);
                            let j1 = if j < i { j } else { j - 1 };
                            assert(list@[j1] == v0[j]);
                        }
                        if exists|j: int| 0 <= j < list@.len() && id_key(list@[j].0) == kk {
                            let j = choose|j: int| 0 <= j < list@.len() && id_key(list@[j].0) == kk;
                            let j0 = if j < i { j } else { j + 1 };
                            assert(list@[j] == v0[j0]);
                            assert(id_key(v0[j0].0) != id_key(v0[i as int].0));
                            assert(m0.dom().contains(kk));
                        }
                    }
                    assert forall|j: int| 0 <= j < list@.len() implies #[trigger] new_model[id_key(list@[j].0)]
                        == list@[j].1.pairs() by {
                        let j0 = if j < i { j } else { j + 1 };
                        assert(list@[j] == v0[j0]);
                        assert(id_key(v0[j0].0) != id_key(v0[i as int].0));
                        assert(m0[id_key(v0[j0].0)] == v0[j0].1.pairs());
                    }
                    assert(listed_in(list@, new_model));
                }
                let store = PluginConfigStore { path, values: list, model: Ghost(new_model) };
                *self = store;
                Some(previous)
            },
            None => {
                proof {
                    assert(!m0.dom().contains(k));
                    assert(new_model =~= m0);
                }
                None
            },
        }
    }

    /// The values of `id` with `values` set over them.
    pub fn merged(&self, id: &PluginId, values: &ConfigValues) -> (r: ConfigValues)
        ensures
            r.pairs() == pairs_merged(stored_pairs(self@, id_key(*id)), values.pairs()),
            r@ == entries_map(stored_pairs(self@, id_key(*id))).union_prefer_right(values@),
    {
        let mut out = match self.get(id) {
            Some(v) => v.copy(),
            None => ConfigValues::new(),
        };
        let ghost base = stored_pairs(self@, id_key(*id));
        let first = out.entries();
        proof {
            assert(base == first@);
        }
        let pairs = values.entries();
        let mut i: usize = 0;
        while i < pairs.len()
            invariant
                i <= pairs@.len(),
                pairs@ == values.pairs(),
                distinct_keys(base),
                out.pairs() == pairs_merged(base, pairs@.take(i as int)),
            decreases pairs.len() - i,
        {
            let key = pairs[i].0.clone();
            let value = pairs[i].1.clone();
            out.insert(key, value);
            proof {
                assert(pairs@.take(i + 1).drop_last() =~= pairs@.take(i as int));
            }
            i = i + 1;
        }
        proof {
            assert(pairs@.take(pairs@.len() as int) =~= pairs@);
            lemma_pairs_merged(base, pairs@);
        }
        // `entries` ties the map of `out` to its pairs.
        let _ = out.entries();
        proof {
            assert(entries_map(pairs@) == values@);
        }
        out
    }

    /// Set `values` over those of `id` once the merged values pass
    /// [`validate_values`] under the plugin's `schema` with the `outside`
    /// problems (not as a complete configuration); refused values leave the
    /// store unchanged.
    pub fn set(
        &mut self,
        id: PluginId,
        schema: &PluginConfigSchema,
        values: &ConfigValues,
        outside: Vec<String>,
    ) -> (r: Result<(), PluginError>)
        ensures
            final(self).spec_path() == old(self).spec_path(),
            ({
                let merged = pairs_merged(stored_pairs(old(self)@, id_key(id)), values.pairs());
                &&& r is Ok <==> config_problems(*schema, merged, false).len() == 0 && outside@.len() == 0
                &&& r matches Err(e) ==> config_error(
                    e,
                    id,
                    config_problems(*schema, merged, false) + texts(outside@),
                    false,
                ) && final(self)@ == old(self)@
                &&& r is Ok ==> final(self)@ == old(self)@.insert(id_key(id), merged)
            }),
    {
        let merged = self.merged(&id, values);
        match validate_values(&id, schema, &merged, false, outside) {
            Err(e) => Err(e),
            Ok(()) => {
                self.put(id, merged);
                Ok(())
            },
        }
    }

    /// Resolve the configuration of `id` from its `schema` and the values
    /// set for it, once they pass [`validate_values`] with the `outside`
    /// problems as a complete configuration.
    pub fn resolve(
        &self,
        id: &PluginId,
        schema: &PluginConfigSchema,
        outside: Vec<String>,
    ) -> (r: Result<ResolvedPluginConfig, PluginError>)
        ensures
            ({
                let stored = stored_pairs(self@, id_key(*id));
                &&& r is Err <==> config_problems(*schema, stored, true).len() > 0 || outside@.len() > 0
                &&& r matches Err(e) ==> config_error(
                    e,
                    *id,
                    config_problems(*schema, stored, true) + texts(outside@),
                    true,
                )
                &&& r matches Ok(c) ==> c.spec_values() == with_defaults(
                    schema.settings@,
                    schema.options@,
                ).union_prefer_right(entries_map(stored)) && forall|k: Seq<char>|
                    c.spec_sensitive(k) == declared_sensitive(schema.options@, k)
            }),
    {
        match self.get(id) {
            Some(v) => {
                // `entries` ties the map of `v` to its pairs.
                let _ = v.entries();
                ResolvedPluginConfig::resolve_for(id, schema, v, outside)
            },
            None => {
                let empty = ConfigValues::new();
                let _ = empty.entries();
                ResolvedPluginConfig::resolve_for(id, schema, &empty, outside)
            },
        }
    }

    /// The plugins that have values set, each once.
    pub fn ids(&self) -> (r: Vec<PluginId>)
        ensures
            forall|i: int, j: int| 0 <= i < j < r@.len() ==> id_key(r@[i]) != id_key(r@[j]),
            forall|k: Key|
                #![trigger self@.dom().contains(k)]
                self@.dom().contains(k) <==> exists|i: int| 0 <= i < r@.len() && id_key(r@[i]) == k,
    {
        proof {
            use_type_invariant(self);
        }
        let mut out: Vec<PluginId> = Vec::new();
        let mut i: usize = 0;
        while i < self.values.len()
            invariant
                i <= self.values@.len(),
                out@.len() == i,
                forall|j: int| 0 <= j < i ==> out@[j] == self.values@[j].0,
            decreases self.values.len() - i,
        {
            out.push(self.values[i].0.clone());
            i = i + 1;
        }
        proof {
            assert forall|k: Key|
                #![trigger self@.dom().contains(k)]
                self@.dom().contains(k) <==> exists|i: int| 0 <= i < out@.len() && id_key(out@[i]) == k by {
                if self@.dom().contains(k) {
                    let j = choose|j: int| 0 <= j < self.values@.len() && id_key(self.values@[j].0) == k;
                    assert(id_key(out@[j]) == k);
                }
                if exists|i: int| 0 <= i < out@.len() && id_key(out@[i]) == k {
                    let j = choose|j: int| 0 <= j < out@.len() && id_key(out@[j]) == k;
                    assert(id_key(self.values@[j].0) == k);
                }
            }
        }
        out
    }
}

/// What a successful `set` stores for a plugin, over the store's map `before`.
pub open spec fn set_in(
    before: Map<Key, Seq<(String, serde_json::Value)>>,
    key: Key,
    values: Seq<(String, serde_json::Value)>,
) -> Map<Key, Seq<(String, serde_json::Value)>> {
    before.insert(key, pairs_merged(stored_pairs(before, key), values))
}

/// After a plugin's values are set, resolving its configuration gives each
/// key that was set the value it was set to, whatever its settings and
/// option defaults say; a key that was not set keeps the value it was set
/// to before; and the values of other plugins do not change.
pub proof fn law_set_values_resolve(
    before: Map<Key, Seq<(String, serde_json::Value)>>,
    key: Key,
    values: Seq<(String, serde_json::Value)>,
    settings: Map<Seq<char>, serde_json::Value>,
    options: Seq<crate::plugin_config::ConfigOption>,
    k: Seq<char>,
    other: Key,
)
    requires
        distinct_keys(stored_pairs(before, key)),
    ensures
        entries_map(values).dom().contains(k) ==> with_defaults(settings, options).union_prefer_right(
            entries_map(stored_pairs(set_in(before, key, values), key)),
        )[k] == entries_map(values)[k],
        !entries_map(values).dom().contains(k) && entries_map(stored_pairs(before, key)).dom().contains(k)
            ==> with_defaults(settings, options).union_prefer_right(
            entries_map(stored_pairs(set_in(before, key, values), key)),
        )[k] == entries_map(stored_pairs(before, key))[k],
        other != key ==> stored_pairs(set_in(before, key, values), other) == stored_pairs(before, other),
{
    lemma_pairs_merged(stored_pairs(before, key), values);
}

} // verus!
