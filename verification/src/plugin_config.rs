//! Plugin configuration: the values a plugin runs with, resolved from its
//! manifest settings, its declared option defaults and what the user set,
//! and their projection into commands' environments and prompt templates.
use vstd::prelude::*;

use crate::json::{
    json_as_bool, json_as_str, json_bool, json_is_null, json_is_null_value, json_is_number, json_number,
    json_str, json_text, json_to_text,
};
use crate::plugin_command::{env_key, env_lookup, normalize_env_key, pair_texts};
use crate::text::{
    chars_of, contains, contains_str, extend_str, replace_all, replace_all_exec, str_eq, string_of, texts,
};
use crate::plugin_id::PluginId;
use crate::plugin_tools::PluginError;

verus! {

// ---------------------------------------------------------------------------
// A string-keyed map of JSON values
// ---------------------------------------------------------------------------

/// The map an association list stands for: each pair sets its key, later
/// pairs over earlier ones.
pub open spec fn entries_map(s: Seq<(String, serde_json::Value)>) -> Map<
    Seq<char>,
    serde_json::Value,
>
    decreases s.len(),
{
    if s.len() == 0 {
        Map::empty()
    } else {
        entries_map(s.drop_last()).insert(s.last().0@, s.last().1)
    }
}

/// No key occurs twice.
pub open spec fn distinct_keys(s: Seq<(String, serde_json::Value)>) -> bool {
    forall|i: int, j: int| 0 <= i < j < s.len() ==> s[i].0@ != s[j].0@
}

/// The keys of an association list, in order.
pub open spec fn entry_keys(s: Seq<(String, serde_json::Value)>) -> Seq<Seq<char>> {
    s.map_values(|p: (String, serde_json::Value)| p.0@)
}

/// With distinct keys, the map holds exactly the listed pairs.
pub proof fn lemma_entries_map(s: Seq<(String, serde_json::Value)>)
    requires
        distinct_keys(s),
    ensures
        forall|k: Seq<char>|
            #![trigger entries_map(s).dom().contains(k)]
            entries_map(s).dom().contains(k) <==> exists|i: int| 0 <= i < s.len() && s[i].0@ == k,
        forall|i: int| 0 <= i < s.len() ==> #[trigger] entries_map(s)[s[i].0@] == s[i].1,
    decreases s.len(),
{
    if s.len() > 0 {
        let t = s.drop_last();
        lemma_entries_map(t);
        assert forall|k: Seq<char>|
            #![trigger entries_map(s).dom().contains(k)]
            entries_map(s).dom().contains(k) <==> exists|i: int| 0 <= i < s.len() && s[i].0@ == k by {
            if entries_map(s).dom().contains(k) {
                if k == s.last().0@ {
                    assert(s[s.len() - 1].0@ == k);
                } else {
                    assert(entries_map(t).dom().contains(k));
                    let i = choose|i: int| 0 <= i < t.len() && t[i].0@ == k;
                    assert(t[i] == s[i]);
                    assert(s[i].0@ == k);
                }
            }
            if exists|i: int| 0 <= i < s.len() && s[i].0@ == k {
                let i = choose|i: int| 0 <= i < s.len() && s[i].0@ == k;
                if i < s.len() - 1 {
                    assert(t[i] == s[i]);
                    assert(t[i].0@ == k);
                    assert(entries_map(t).dom().contains(k));
                }
            }
        }
        assert forall|i: int| 0 <= i < s.len() implies #[trigger] entries_map(s)[s[i].0@] == s[i].1 by {
            if i < s.len() - 1 {
                assert(t[i] == s[i]);
                assert(s[i].0@ != s[s.len() - 1].0@);
                assert(entries_map(t)[t[i].0@] == t[i].1);
            }
        }
    }
}

/// Replacing the value of a listed key sets that key in the map.
pub proof fn lemma_entries_map_update(
    s: Seq<(String, serde_json::Value)>,
    i: int,
    p: (String, serde_json::Value),
)
    requires
        distinct_keys(s),
        0 <= i < s.len(),
        s[i].0@ == p.0@,
    ensures
        entries_map(s.update(i, p)) == entries_map(s).insert(p.0@, p.1),
    decreases s.len(),
{
    let u = s.update(i, p);
    if i == s.len() - 1 {
        assert(u.drop_last() =~= s.drop_last());
        assert(entries_map(u) =~= entries_map(s).insert(p.0@, p.1));
    } else {
        assert(u.drop_last() =~= s.drop_last().update(i, p));
        lemma_entries_map_update(s.drop_last(), i, p);
        assert(s[i].0@ != s.last().0@);
        assert(entries_map(u) =~= entries_map(s).insert(p.0@, p.1));
    }
}

/// `s` with `key` set to `value`: in its place where `s` lists `key`,
/// else at the end.
pub open spec fn pairs_with(
    s: Seq<(String, serde_json::Value)>,
    key: String,
    value: serde_json::Value,
) -> Seq<(String, serde_json::Value)> {
    if exists|i: int| 0 <= i < s.len() && s[i].0@ == key@ {
        s.update(choose|i: int| 0 <= i < s.len() && s[i].0@ == key@, (key, value))
    } else {
        s.push((key, value))
    }
}

/// `s` with each pair of `t` set in turn.
pub open spec fn pairs_merged(
    s: Seq<(String, serde_json::Value)>,
    t: Seq<(String, serde_json::Value)>,
) -> Seq<(String, serde_json::Value)>
    decreases t.len(),
{
    if t.len() == 0 {
        s
    } else {
        let m = pairs_merged(s, t.drop_last());
        pairs_with(m, t.last().0, t.last().1)
    }
}

/// Setting the pairs of `t` in turn over pairs with distinct keys keeps the
/// keys distinct and sets the map of `t` over the map of `s`.
pub proof fn lemma_pairs_merged(s: Seq<(String, serde_json::Value)>, t: Seq<(String, serde_json::Value)>)
    requires
        distinct_keys(s),
    ensures
        distinct_keys(pairs_merged(s, t)),
        entries_map(pairs_merged(s, t)) == entries_map(s).union_prefer_right(entries_map(t)),
    decreases t.len(),
{
    if t.len() == 0 {
        assert(entries_map(s).union_prefer_right(entries_map(t)) =~= entries_map(s));
    } else {
        let m = pairs_merged(s, t.drop_last());
        lemma_pairs_merged(s, t.drop_last());
        let key = t.last().0;
        let value = t.last().1;
        if exists|i: int| 0 <= i < m.len() && m[i].0@ == key@ {
            let i = choose|i: int| 0 <= i < m.len() && m[i].0@ == key@;
            lemma_entries_map_update(m, i, (key, value));
            let u = m.update(i, (key, value));
            assert forall|a: int, b: int| 0 <= a < b < u.len() implies u[a].0@ != u[b].0@ by {
                assert(m[a].0@ != m[b].0@);
            }
        } else {
            let u = m.push((key, value));
            assert(u.drop_last() =~= m);
            assert forall|a: int, b: int| 0 <= a < b < u.len() implies u[a].0@ != u[b].0@ by {
                if b < m.len() {
                    assert(m[a].0@ != m[b].0@);
                } else {
                    assert(u[a] == m[a]);
                }
            }
        }
        assert(entries_map(pairs_merged(s, t)) =~= entries_map(s).union_prefer_right(entries_map(t)));
    }
}

/// A map from configuration keys to JSON values.
#[derive(Debug)]
pub struct ConfigValues {
    entries: Vec<(String, serde_json::Value)>,
}

impl View for ConfigValues {
    type V = Map<Seq<char>, serde_json::Value>;

    closed spec fn view(&self) -> Map<Seq<char>, serde_json::Value> {
        entries_map(self.entries@)
    }
}

impl ConfigValues {
    #[verifier::type_invariant]
    spec fn keys_distinct(self) -> bool {
        distinct_keys(self.entries@)
    }

    /// The pairs, each key once, in the order they were first set.
    pub closed spec fn pairs(self) -> Seq<(String, serde_json::Value)> {
        self.entries@
    }


    /// An empty map.
    pub fn new() -> (r: Self)
        ensures
            r@ == Map::<Seq<char>, serde_json::Value>::empty(),
            r.pairs() == Seq::<(String, serde_json::Value)>::empty(),
    {
        ConfigValues { entries: Vec::new() }
    }

    /// The number of keys.
    pub fn len(&self) -> (r: usize)
        ensures
            r == self@.dom().len(),
    {
        proof {
            use_type_invariant(self);
            lemma_entries_map(self.entries@);
            let s = self.entries@;
            let ks = entry_keys(s);
            assert(self@.dom() =~= ks.to_set()) by {
                assert forall|k: Seq<char>| self@.dom().contains(k) implies ks.to_set().contains(k) by {
                    let i = choose|i: int| 0 <= i < s.len() && s[i].0@ == k;
                    assert(ks[i] == k);
                }
                assert forall|k: Seq<char>| ks.to_set().contains(k) implies self@.dom().contains(k) by {
                    let i = choose|i: int| 0 <= i < ks.len() && ks[i] == k;
                    assert(s[i].0@ == k);
                }
            }
            assert(ks.no_duplicates());
            ks.unique_seq_to_set();
        }
        self.entries.len()
    }

    /// Where `key` is listed.
    fn position(&self, key: &str) -> (r: Option<usize>)
        ensures
            r matches Some(i) ==> i < self.entries@.len() && self.entries@[i as int].0@ == key@,
            r is None ==> forall|i: int| 0 <= i < self.entries@.len() ==> self.entries@[i].0@ != key@,
    {
        let mut i: usize = 0;
        while i < self.entries.len()
            invariant
                i <= self.entries@.len(),
                forall|j: int| 0 <= j < i ==> self.entries@[j].0@ != key@,
            decreases self.entries.len() - i,
        {
            if str_eq(self.entries[i].0.as_str(), key) {
                return Some(i);
            }
            i = i + 1;
        }
        None
    }

    /// The value of `key`.
    pub fn get(&self, key: &str) -> (r: Option<&serde_json::Value>)
        ensures
            r is Some <==> self@.dom().contains(key@),
            r matches Some(v) ==> *v == self@[key@],
    {
        proof {
            use_type_invariant(self);
            lemma_entries_map(self.entries@);
        }
        match self.position(key) {
            Some(i) => Some(&self.entries[i].1),
            None => None,
        }
    }

    /// Whether `key` is set.
    pub fn contains_key(&self, key: &str) -> (r: bool)
        ensures
            r == self@.dom().contains(key@),
    {
        self.get(key).is_some()
    }

    /// Set `key` to `value`, replacing what it held.
    pub fn insert(&mut self, key: String, value: serde_json::Value)
        ensures
            final(self)@ == old(self)@.insert(key@, value),
            final(self).pairs() == pairs_with(old(self).pairs(), key, value),
    {
        proof {
            use_type_invariant(&*self);
        }
        let ghost k = key@;
        match self.position(key.as_str()) {
            Some(i) => {
                proof {
                    lemma_entries_map_update(self.entries@, i as int, (key, value));
                }
                let mut entries: Vec<(String, serde_json::Value)> = Vec::new();
                std::mem::swap(&mut entries, &mut self.entries);
                let ghost before = entries@;
                entries.set(i, (key, value));
                proof {
                    assert(entries@ == before.update(i as int, (key, value)));
                    assert forall|a: int, b: int| 0 <= a < b < entries@.len() implies entries@[a].0@
                        != entries@[b].0@ by {
                        assert(before[a].0@ != before[b].0@);
                    }
                    let c = choose|j: int| 0 <= j < before.len() && before[j].0@ == k;
                    assert(before[i as int].0@ == k);
                    assert(c == i);
                }
                self.entries = entries;
            },
            None => {
                let mut entries: Vec<(String, serde_json::Value)> = Vec::new();
                std::mem::swap(&mut entries, &mut self.entries);
                let ghost before = entries@;
                entries.push((key, value));
                proof {
                    assert(entries@.drop_last() =~= before);
                }
                self.entries = entries;
            },
        }
    }

    /// The pairs, each key once.
    pub fn entries(&self) -> (r: &Vec<(String, serde_json::Value)>)
        ensures
            r@ == self.pairs(),
            distinct_keys(r@),
            entries_map(r@) == self@,
            forall|k: Seq<char>|
                #![trigger self@.dom().contains(k)]
                self@.dom().contains(k) <==> exists|i: int| 0 <= i < r@.len() && r@[i].0@ == k,
            forall|i: int| 0 <= i < r@.len() ==> #[trigger] self@[r@[i].0@] == r@[i].1,
    {
        proof {
            use_type_invariant(self);
            lemma_entries_map(self.entries@);
        }
        &self.entries
    }
}



impl ConfigValues {
    /// A copy with the same pairs.
    pub fn copy(&self) -> (r: Self)
        ensures
            r@ == self@,
            r.pairs() == self.pairs(),
    {
        proof {
            use_type_invariant(self);
        }
        let mut entries: Vec<(String, serde_json::Value)> = Vec::new();
        let mut i: usize = 0;
        while i < self.entries.len()
            invariant
                i <= self.entries@.len(),
                distinct_keys(self.entries@),
                entries@ == self.entries@.take(i as int),
            decreases self.entries.len() - i,
        {
            let (k, v) = (self.entries[i].0.clone(), self.entries[i].1.clone());
            entries.push((k, v));
            proof {
                assert(entries@ =~= self.entries@.take(i + 1));
            }
            i = i + 1;
        }
        proof {
            assert(entries@ =~= self.entries@);
        }
        ConfigValues { entries }
    }
}

impl Clone for ConfigValues {
    fn clone(&self) -> (r: Self)
        ensures
            r@ == self@,
    {
        self.copy()
    }
}

// ---------------------------------------------------------------------------
// Resolution
// ---------------------------------------------------------------------------

/// The kind of value an option takes.
#[derive(Debug, Clone, Copy, PartialEq, Eq)]
pub enum ConfigOptionType {
    String,
    Number,
    Boolean,
    /// A string naming an existing directory.
    Directory,
    /// A string naming an existing file.
    File,
}

/// A declared user configuration option: its key, the kind of value it
/// takes, its title and description, whether it declares numeric bounds,
/// its default, whether a value must be set and whether its value is secret.
#[derive(Debug, Clone)]
pub struct ConfigOption {
    pub key: String,
    pub kind: ConfigOptionType,
    pub title: String,
    pub description: String,
    /// Whether the option declares a minimum or a maximum.
    pub has_bounds: bool,
    pub default: Option<serde_json::Value>,
    pub required: bool,
    pub sensitive: bool,
}

/// What a plugin's manifest declares of its configuration: whether it has a
/// `userConfig` block, its `settings` and its options.
#[derive(Debug, Clone)]
pub struct PluginConfigSchema {
    pub declared: bool,
    pub settings: ConfigValues,
    pub options: Vec<ConfigOption>,
}

impl PluginConfigSchema {
    /// The schema of a manifest with neither `userConfig` nor `settings`.
    pub fn empty() -> (r: Self)
        ensures
            !r.declared,
            r.settings@ == Map::<Seq<char>, serde_json::Value>::empty(),
            r.settings.pairs().len() == 0,
            r.options@.len() == 0,
    {
        PluginConfigSchema { declared: false, settings: ConfigValues::new(), options: Vec::new() }
    }
}

/// `m` with each option's default added for a key `m` does not hold yet;
/// of two options with one key, the first default counts.
pub open spec fn with_defaults(
    m: Map<Seq<char>, serde_json::Value>,
    options: Seq<ConfigOption>,
) -> Map<Seq<char>, serde_json::Value>
    decreases options.len(),
{
    if options.len() == 0 {
        m
    } else {
        let before = with_defaults(m, options.drop_last());
        let o = options.last();
        match o.default {
            Some(d) => if before.dom().contains(o.key@) {
                before
            } else {
                before.insert(o.key@, d)
            },
            None => before,
        }
    }
}

/// Whether some option marks `key` sensitive.
pub open spec fn declared_sensitive(options: Seq<ConfigOption>, key: Seq<char>) -> bool {
    exists|i: int| 0 <= i < options.len() && options[i].sensitive && #[trigger] options[i].key@ == key
}

/// A plugin's configuration as it runs: its values and which of them are secret.
#[derive(Debug)]
pub struct ResolvedPluginConfig {
    values: ConfigValues,
    sensitive_keys: Vec<String>,
}

impl ResolvedPluginConfig {
    /// The configuration values.
    pub closed spec fn spec_values(self) -> Map<Seq<char>, serde_json::Value> {
        self.values@
    }

    /// Whether the value of `key` is secret.
    pub closed spec fn spec_sensitive(self, key: Seq<char>) -> bool {
        exists|i: int| 0 <= i < self.sensitive_keys@.len() && #[trigger] self.sensitive_keys@[i]@ == key
    }

    /// The value pairs, in the order commands and templates see them.
    pub closed spec fn spec_pairs(self) -> Seq<(String, serde_json::Value)> {
        self.values.pairs()
    }

    /// Resolve a plugin's configuration: the manifest `settings`, then each
    /// option's default for a key the settings lack, then the user's values
    /// over both. The options' sensitive keys are kept secret.
    pub fn resolve(
        settings: &ConfigValues,
        options: &Vec<ConfigOption>,
        user_values: &ConfigValues,
    ) -> (r: Self)
        ensures
            r.spec_values() == with_defaults(settings@, options@).union_prefer_right(user_values@),
            forall|k: Seq<char>| r.spec_sensitive(k) == declared_sensitive(options@, k),
    {
        let mut values = settings.copy();
        let mut sensitive_keys: Vec<String> = Vec::new();
        let mut i: usize = 0;
        while i < options.len()
            invariant
                i <= options@.len(),
                values@ == with_defaults(settings@, options@.take(i as int)),
                forall|k: Seq<char>|
                    (exists|j: int| 0 <= j < sensitive_keys@.len() && #[trigger] sensitive_keys@[j]@ == k)
                        == declared_sensitive(options@.take(i as int), k),
            decreases options.len() - i,
        {
            proof {
                assert(options@.take(i + 1).drop_last() =~= options@.take(i as int));
            }
            let option = &options[i];
            match &option.default {
                Some(d) => {
                    if !values.contains_key(option.key.as_str()) {
                        values.insert(option.key.clone(), d.clone());
                    }
                },
                None => {},
            }
            let ghost before = sensitive_keys@;
            if option.sensitive {
                sensitive_keys.push(option.key.clone());
            }
            proof {
                let t = options@.take(i + 1);
                assert forall|k: Seq<char>|
                    (exists|j: int| 0 <= j < sensitive_keys@.len() && #[trigger] sensitive_keys@[j]@ == k)
                        == declared_sensitive(t, k) by {
                    if declared_sensitive(t, k) {
                        let j = choose|j: int| 0 <= j < t.len() && t[j].sensitive && #[trigger] t[j].key@ == k;
                        if j < i {
                            assert(options@.take(i as int)[j] == t[j]);
                            assert(declared_sensitive(options@.take(i as int), k));
                            let m = choose|m: int| 0 <= m < before.len() && #[trigger] before[m]@ == k;
                            assert(sensitive_keys@[m] == before[m]);
                        } else {
                            assert(sensitive_keys@[sensitive_keys@.len() - 1]@ == k);
                        }
                    }
                    if exists|j: int| 0 <= j < sensitive_keys@.len() && #[trigger] sensitive_keys@[j]@ == k {
                        let j = choose|j: int| 0 <= j < sensitive_keys@.len() && #[trigger] sensitive_keys@[j]@ == k;
                        if j < before.len() {
                            assert(before[j]@ == k);
                            assert(declared_sensitive(options@.take(i as int), k));
                            let m = choose|m: int| 0 <= m < i && options@.take(i as int)[m].sensitive
                                && #[trigger] options@.take(i as int)[m].key@ == k;
                            assert(t[m] == options@.take(i as int)[m]);
                        } else {
                            assert(t[i as int] == options@[i as int]);
                        }
                    }
                }
            }
            i = i + 1;
        }
        proof {
            assert(options@.take(options@.len() as int) =~= options@);
        }
        let ghost base = values@;
        let pairs = user_values.entries();
        let mut j: usize = 0;
        while j < pairs.len()
            invariant
                j <= pairs@.len(),
                distinct_keys(pairs@),
                entries_map(pairs@) == user_values@,
                values@ == base.union_prefer_right(entries_map(pairs@.take(j as int))),
                forall|k: Seq<char>|
                    (exists|m: int| 0 <= m < sensitive_keys@.len() && #[trigger] sensitive_keys@[m]@ == k)
                        == declared_sensitive(options@, k),
            decreases pairs.len() - j,
        {
            proof {
                assert(pairs@.take(j + 1).drop_last() =~= pairs@.take(j as int));
            }
            values.insert(pairs[j].0.clone(), pairs[j].1.clone());
            proof {
                assert(values@ =~= base.union_prefer_right(entries_map(pairs@.take(j + 1))));
            }
            j = j + 1;
        }
        proof {
            assert(pairs@.take(pairs@.len() as int) =~= pairs@);
        }
        let r = ResolvedPluginConfig { values, sensitive_keys };
        assert forall|k: Seq<char>| r.spec_sensitive(k) == declared_sensitive(options@, k) by {
            assert(r.sensitive_keys@ == sensitive_keys@);
        }
        r
    }

    /// The configuration values.
    pub fn values(&self) -> (r: &ConfigValues)
        ensures
            r@ == self.spec_values(),
            r.pairs() == self.spec_pairs(),
    {
        &self.values
    }

    fn is_sensitive(&self, key: &str) -> (r: bool)
        ensures
            r == self.spec_sensitive(key@),
    {
        let mut i: usize = 0;
        while i < self.sensitive_keys.len()
            invariant
                i <= self.sensitive_keys@.len(),
                forall|j: int| 0 <= j < i ==> self.sensitive_keys@[j]@ != key@,
            decreases self.sensitive_keys.len() - i,
        {
            if str_eq(self.sensitive_keys[i].as_str(), key) {
                return true;
            }
            i = i + 1;
        }
        false
    }
}

impl Default for ResolvedPluginConfig {
    fn default() -> (r: Self)
        ensures
            r.spec_values() == Map::<Seq<char>, serde_json::Value>::empty(),
            forall|k: Seq<char>| !r.spec_sensitive(k),
    {
        ResolvedPluginConfig { values: ConfigValues::new(), sensitive_keys: Vec::new() }
    }
}

// ---------------------------------------------------------------------------
// Projections
// ---------------------------------------------------------------------------

/// How a value reads in an environment variable or a template: a string as
/// its text, `null` as nothing, anything else as its JSON text.
pub open spec fn scalar_text(v: serde_json::Value) -> Seq<char> {
    match json_str(v) {
        Some(s) => s,
        None => if json_is_null_value(v) {
            seq![]
        } else {
            json_text(v)
        },
    }
}

/// The text a value takes in an environment variable or a template.
pub fn scalar_env_value(value: &serde_json::Value) -> (r: String)
    ensures
        r@ == scalar_text(*value),
{
    match crate::json::json_as_str(value) {
        Some(s) => s,
        None => if json_is_null(value) {
            proof {
                reveal_strlit("");
            }
            "".to_owned()
        } else {
            json_to_text(value)
        },
    }
}

/// The environment variable a configuration key is exported as.
pub open spec fn config_env_name(key: Seq<char>) -> Seq<char> {
    "TELOS_PLUGIN_"@ + env_key(key)
}

/// The placeholder a template writes for a configuration key.
pub open spec fn config_placeholder(key: Seq<char>) -> Seq<char> {
    "${CONFIG:"@ + key + "}"@
}

/// The views of a list of value pairs.
pub open spec fn pair_views(s: Seq<(String, serde_json::Value)>) -> Seq<(Seq<char>, serde_json::Value)> {
    s.map_values(|p: (String, serde_json::Value)| (p.0@, p.1))
}

/// Each placeholder of a non-secret pair replaced by its value, pair by pair.
pub open spec fn rendered(
    template: Seq<char>,
    pairs: Seq<(String, serde_json::Value)>,
    secret: spec_fn(Seq<char>) -> bool,
) -> Seq<char>
    decreases pairs.len(),
{
    if pairs.len() == 0 {
        template
    } else {
        let t = rendered(template, pairs.drop_last(), secret);
        let p = pairs.last();
        if secret(p.0@) {
            t
        } else {
            replace_all(t, config_placeholder(p.0@), scalar_text(p.1))
        }
    }
}

impl ResolvedPluginConfig {
    /// The values with each secret one replaced by the string `[REDACTED]`.
    pub fn redacted_values(&self) -> (r: ConfigValues)
        ensures
            r@.dom() == self.spec_values().dom(),
            forall|k: Seq<char>|
                #![trigger r@[k]]
                self.spec_values().dom().contains(k) ==> r@[k] == if self.spec_sensitive(k) {
                    crate::json::json_string_of("[REDACTED]"@)
                } else {
                    self.spec_values()[k]
                },
    {
        let pairs = self.values.entries();
        let mut out = ConfigValues::new();
        let mut i: usize = 0;
        while i < pairs.len()
            invariant
                i <= pairs@.len(),
                pairs@ == self.values.pairs(),
                distinct_keys(pairs@),
                entries_map(pairs@) == self.spec_values(),
                out@.dom() == entries_map(pairs@.take(i as int)).dom(),
                forall|k: Seq<char>|
                    #![trigger out@[k]]
                    out@.dom().contains(k) ==> out@[k] == if self.spec_sensitive(k) {
                        crate::json::json_string_of("[REDACTED]"@)
                    } else {
                        entries_map(pairs@.take(i as int))[k]
                    },
            decreases pairs.len() - i,
        {
            proof {
                assert(pairs@.take(i + 1).drop_last() =~= pairs@.take(i as int));
            }
            let key = &pairs[i].0;
            let value = if self.is_sensitive(key.as_str()) {
                crate::json::json_string("[REDACTED]")
            } else {
                pairs[i].1.clone()
            };
            out.insert(key.clone(), value);
            proof {
                assert(out@.dom() =~= entries_map(pairs@.take(i + 1)).dom());
            }
            i = i + 1;
        }
        proof {
            assert(pairs@.take(pairs@.len() as int) =~= pairs@);
        }
        out
    }

    /// The environment a plugin's commands get: `TELOS_PLUGIN_CONFIG` with
    /// all values as a JSON object (`{}` where they do not serialise), then
    /// `TELOS_PLUGIN_<KEY>` for each value, in pair order.
    pub fn command_env(&self) -> (r: Vec<(String, String)>)
        ensures
            pair_texts(r@) == seq![
                (
                    "TELOS_PLUGIN_CONFIG"@,
                    match crate::json::json_object_text_of(pair_views(self.spec_pairs())) {
                        Some(t) => t,
                        None => "{}"@,
                    },
                ),
            ] + self.spec_pairs().map_values(
                |p: (String, serde_json::Value)| (config_env_name(p.0@), scalar_text(p.1)),
            ),
    {
        let pairs = self.values.entries();
        let config_text = match crate::json::json_object_text(pairs) {
            Some(t) => t,
            None => "{}".to_owned(),
        };
        proof {
            assert(pairs@.map_values(|p: (String, serde_json::Value)| (p.0@, p.1)) == pair_views(
                pairs@,
            ));
        }
        let mut env: Vec<(String, String)> = Vec::new();
        env.push(("TELOS_PLUGIN_CONFIG".to_owned(), config_text));
        let ghost head = pair_texts(env@);
        let mut i: usize = 0;
        while i < pairs.len()
            invariant
                i <= pairs@.len(),
                pairs@ == self.values.pairs(),
                pairs@ == self.spec_pairs(),
                env@.len() == i + 1,
                pair_texts(env@) == head + pairs@.take(i as int).map_values(
                    |p: (String, serde_json::Value)| (config_env_name(p.0@), scalar_text(p.1)),
                ),
            decreases pairs.len() - i,
        {
            let mut name = chars_of("TELOS_PLUGIN_");
            let key = normalize_env_key(pairs[i].0.as_str());
            extend_str(&mut name, key.as_str());
            let value = scalar_env_value(&pairs[i].1);
            let ghost before = env@;
            env.push((string_of(name.as_slice()), value));
            proof {
                let t = pairs@.take(i + 1).map_values(
                    |p: (String, serde_json::Value)| (config_env_name(p.0@), scalar_text(p.1)),
                );
                assert(t.drop_last() =~= pairs@.take(i as int).map_values(
                    |p: (String, serde_json::Value)| (config_env_name(p.0@), scalar_text(p.1)),
                ));
                assert(pair_texts(env@) =~= pair_texts(before).push(
                    (config_env_name(pairs@[i as int].0@), scalar_text(pairs@[i as int].1)),
                ));
                assert(pair_texts(env@) =~= head + pairs@.take(i + 1).map_values(
                    |p: (String, serde_json::Value)| (config_env_name(p.0@), scalar_text(p.1)),
                ));
            }
            i = i + 1;
        }
        proof {
            assert(pairs@.take(pairs@.len() as int) =~= pairs@);
        }
        env
    }

    /// `template` with each `${CONFIG:key}` of a non-secret value replaced by
    /// that value, one key at a time in pair order.
    pub fn render_template(&self, template: &str) -> (r: String)
        ensures
            r@ == rendered(template@, self.spec_pairs(), |k: Seq<char>| self.spec_sensitive(k)),
    {
        let ghost secret = |k: Seq<char>| self.spec_sensitive(k);
        let pairs = self.values.entries();
        let mut text = chars_of(template);
        let mut i: usize = 0;
        while i < pairs.len()
            invariant
                i <= pairs@.len(),
                pairs@ == self.spec_pairs(),
                secret == (|k: Seq<char>| self.spec_sensitive(k)),
                text@ == rendered(template@, pairs@.take(i as int), secret),
            decreases pairs.len() - i,
        {
            proof {
                assert(pairs@.take(i + 1).drop_last() =~= pairs@.take(i as int));
            }
            let key = &pairs[i].0;
            if !self.is_sensitive(key.as_str()) {
                proof {
                    reveal_strlit("${CONFIG:");
                }
                let mut placeholder = chars_of("${CONFIG:");
                extend_str(&mut placeholder, key.as_str());
                extend_str(&mut placeholder, "}");
                let value = chars_of(scalar_env_value(&pairs[i].1).as_str());
                text = replace_all_exec(text.as_slice(), placeholder.as_slice(), value.as_slice());
            }
            i = i + 1;
        }
        proof {
            assert(pairs@.take(pairs@.len() as int) =~= pairs@);
        }
        string_of(text.as_slice())
    }
}


// ---------------------------------------------------------------------------
// Manifest configuration checks
// ---------------------------------------------------------------------------

/// The problems of a list of configuration keys, in order, with the names
/// seen so far: a key with no usable environment name, a key whose name is
/// the reserved `CONFIG`, and a key whose name an earlier, different key
/// already took.
pub open spec fn key_scan(keys: Seq<Seq<char>>) -> (Seq<Seq<char>>, Seq<(Seq<char>, Seq<char>)>)
    decreases keys.len(),
{
    if keys.len() == 0 {
        (seq![], seq![])
    } else {
        let (errors, seen) = key_scan(keys.drop_last());
        let key = keys.last();
        let name = env_key(key);
        let own: Seq<Seq<char>> = if name.len() == 0 {
            seq!["configuration key `"@ + key + "` has no usable environment name"@]
        } else if name == "CONFIG"@ {
            seq!["configuration key `"@ + key + "` conflicts with reserved TELOS_PLUGIN_CONFIG"@]
        } else {
            seq![]
        };
        let clash: Seq<Seq<char>> = match env_lookup(seen, name) {
            Some(previous) => if previous != key {
                seq![
                    "configuration keys `"@ + previous + "` and `"@ + key + "` both map to TELOS_PLUGIN_"@
                        + name,
                ]
            } else {
                seq![]
            },
            None => seq![],
        };
        (errors + own + clash, seen.push((name, key)))
    }
}

/// Problems of a plugin's configuration keys (its settings' keys, then its
/// options' keys) as environment variable names.
pub fn config_key_errors(keys: &Vec<String>) -> (r: Vec<String>)
    ensures
        crate::text::texts(r@) == key_scan(crate::text::texts(keys@)).0,
{
    let ghost ks = crate::text::texts(keys@);
    let mut errors: Vec<String> = Vec::new();
    let mut seen: Vec<(String, String)> = Vec::new();
    let mut i: usize = 0;
    while i < keys.len()
        invariant
            i <= keys@.len(),
            ks == crate::text::texts(keys@),
            crate::text::texts(errors@) == key_scan(ks.take(i as int)).0,
            pair_texts(seen@) == key_scan(ks.take(i as int)).1,
        decreases keys.len() - i,
    {
        proof {
            assert(ks.take(i + 1).drop_last() =~= ks.take(i as int));
            reveal_strlit("CONFIG");
        }
        let key = keys[i].as_str();
        let name = normalize_env_key(key);
        let ghost before = crate::text::texts(errors@);
        if name.as_str().is_empty() {
            let mut t = chars_of("configuration key `");
            extend_str(&mut t, key);
            extend_str(&mut t, "` has no usable environment name");
            errors.push(string_of(t.as_slice()));
        } else if str_eq(name.as_str(), "CONFIG") {
            let mut t = chars_of("configuration key `");
            extend_str(&mut t, key);
            extend_str(&mut t, "` conflicts with reserved TELOS_PLUGIN_CONFIG");
            errors.push(string_of(t.as_slice()));
        }
        let ghost mid = crate::text::texts(errors@);
        match crate::plugin_command::env_get(&seen, name.as_str()) {
            Some(previous) => {
                if !str_eq(previous.as_str(), key) {
                    let mut t = chars_of("configuration keys `");
                    extend_str(&mut t, previous.as_str());
                    extend_str(&mut t, "` and `");
                    extend_str(&mut t, key);
                    extend_str(&mut t, "` both map to TELOS_PLUGIN_");
                    extend_str(&mut t, name.as_str());
                    errors.push(string_of(t.as_slice()));
                }
            },
            None => {},
        }
        seen.push((name, keys[i].clone()));
        proof {
            assert(ks[i as int] == key@);
            assert(pair_texts(seen@) =~= key_scan(ks.take(i + 1)).1);
            assert(crate::text::texts(errors@) =~= key_scan(ks.take(i + 1)).0);
        }
        i = i + 1;
    }
    proof {
        assert(ks.take(keys@.len() as int) =~= ks);
    }
    errors
}

// ---------------------------------------------------------------------------
// Laws
// ---------------------------------------------------------------------------

/// Secret values never reach a rendered template: two configurations with
/// the same keys in the same order, differing only in secret values, render
/// every template alike.
pub proof fn law_render_ignores_secret_values(
    template: Seq<char>,
    a: Seq<(String, serde_json::Value)>,
    b: Seq<(String, serde_json::Value)>,
    secret: spec_fn(Seq<char>) -> bool,
)
    requires
        a.len() == b.len(),
        forall|i: int| 0 <= i < a.len() ==> #[trigger] a[i].0@ == b[i].0@,
        forall|i: int| 0 <= i < a.len() && !secret(a[i].0@) ==> #[trigger] a[i].1 == b[i].1,
    ensures
        rendered(template, a, secret) == rendered(template, b, secret),
    decreases a.len(),
{
    if a.len() > 0 {
        let n = a.len() - 1;
        assert(a[n].0@ == b[n].0@);
        assert forall|i: int| 0 <= i < a.drop_last().len() implies #[trigger] a.drop_last()[i].0@
            == b.drop_last()[i].0@ by {
            assert(a[i].0@ == b[i].0@);
        }
        assert forall|i: int|
            0 <= i < a.drop_last().len() && !secret(a.drop_last()[i].0@) implies #[trigger] a.drop_last()[i].1
            == b.drop_last()[i].1 by {
            assert(a[i].1 == b[i].1);
        }
        law_render_ignores_secret_values(template, a.drop_last(), b.drop_last(), secret);
    }
}

/// The environment entry for one value.
pub open spec fn value_env(p: (String, serde_json::Value)) -> (Seq<char>, Seq<char>) {
    (config_env_name(p.0@), scalar_text(p.1))
}

/// Every configuration value reaches a plugin's commands under its own
/// `TELOS_PLUGIN_<KEY>` name, and all of them under `TELOS_PLUGIN_CONFIG`,
/// when no two keys share an environment name and none takes `CONFIG`
/// (what the manifest configuration checks ensure).
pub proof fn law_each_value_reaches_commands(
    head: Seq<char>,
    pairs: Seq<(String, serde_json::Value)>,
)
    requires
        forall|i: int, j: int|
            0 <= i < j < pairs.len() ==> env_key(#[trigger] pairs[i].0@) != env_key(#[trigger] pairs[j].0@),
        forall|i: int| 0 <= i < pairs.len() ==> env_key(#[trigger] pairs[i].0@) != "CONFIG"@,
    ensures
        forall|i: int|
            0 <= i < pairs.len() ==> env_lookup(
                seq![("TELOS_PLUGIN_CONFIG"@, head)] + pairs.map_values(
                    |p: (String, serde_json::Value)| value_env(p),
                ),
                config_env_name(#[trigger] pairs[i].0@),
            ) == Some(scalar_text(pairs[i].1)),
        env_lookup(
            seq![("TELOS_PLUGIN_CONFIG"@, head)] + pairs.map_values(
                |p: (String, serde_json::Value)| value_env(p),
            ),
            "TELOS_PLUGIN_CONFIG"@,
        ) == Some(head),
    decreases pairs.len(),
{
    let env = seq![("TELOS_PLUGIN_CONFIG"@, head)] + pairs.map_values(
        |p: (String, serde_json::Value)| value_env(p),
    );
    if pairs.len() == 0 {
        assert(env.drop_last() =~= Seq::<(Seq<char>, Seq<char>)>::empty());
    } else {
        let rest = pairs.drop_last();
        law_each_value_reaches_commands(head, rest);
        let env0 = seq![("TELOS_PLUGIN_CONFIG"@, head)] + rest.map_values(
            |p: (String, serde_json::Value)| value_env(p),
        );
        assert(env.drop_last() =~= env0);
        let n = pairs.len() - 1;
        assert(env.last() == value_env(pairs[n]));
        assert forall|i: int|
            0 <= i < pairs.len() implies env_lookup(env, config_env_name(#[trigger] pairs[i].0@))
            == Some(scalar_text(pairs[i].1)) by {
            if i < n {
                assert(rest[i] == pairs[i]);
                assert(env_key(pairs[i].0@) != env_key(pairs[n].0@));
                assert(config_env_name(pairs[i].0@) != config_env_name(pairs[n].0@)) by {
                    reveal_strlit("TELOS_PLUGIN_");
                    let a = config_env_name(pairs[i].0@);
                    let b = config_env_name(pairs[n].0@);
                    if a == b {
                        assert(env_key(pairs[i].0@) =~= a.subrange(13, a.len() as int));
                        assert(env_key(pairs[n].0@) =~= b.subrange(13, b.len() as int));
                    }
                }
            }
        }
        assert(config_env_name(pairs[n].0@) != "TELOS_PLUGIN_CONFIG"@) by {
            reveal_strlit("TELOS_PLUGIN_CONFIG");
            reveal_strlit("TELOS_PLUGIN_");
            reveal_strlit("CONFIG");
            let a = config_env_name(pairs[n].0@);
            if a == "TELOS_PLUGIN_CONFIG"@ {
                assert(env_key(pairs[n].0@) =~= a.subrange(13, a.len() as int));
                assert(a.subrange(13, a.len() as int) =~= "CONFIG"@);
            }
        }
    }
}


// ---------------------------------------------------------------------------
// Validation of user values
// ---------------------------------------------------------------------------

/// Whether `v` is a value of the kind `kind`: a number, a boolean, or a
/// string (for strings, directories and files).
pub open spec fn type_fits(kind: ConfigOptionType, v: serde_json::Value) -> bool {
    match kind {
        ConfigOptionType::Number => json_number(v),
        ConfigOptionType::Boolean => json_bool(v) is Some,
        _ => json_str(v) is Some,
    }
}

/// Whether some option has the key `k`.
pub open spec fn declares_key(options: Seq<ConfigOption>, k: Seq<char>) -> bool {
    exists|i: int| 0 <= i < options.len() && #[trigger] options[i].key@ == k
}

/// A problem for each of `keys` that no option declares, in order.
pub open spec fn unknown_keys(keys: Seq<Seq<char>>, options: Seq<ConfigOption>) -> Seq<Seq<char>>
    decreases keys.len(),
{
    if keys.len() == 0 {
        seq![]
    } else {
        let rest = unknown_keys(keys.drop_last(), options);
        if declares_key(options, keys.last()) {
            rest
        } else {
            rest.push("unknown key `"@ + keys.last() + "`"@)
        }
    }
}

/// The value an option is checked against: the user's, else its default,
/// else the settings'.
pub open spec fn checked_value(
    o: ConfigOption,
    values: Map<Seq<char>, serde_json::Value>,
    settings: Map<Seq<char>, serde_json::Value>,
) -> Option<serde_json::Value> {
    if values.dom().contains(o.key@) {
        Some(values[o.key@])
    } else if o.default is Some {
        o.default
    } else if settings.dom().contains(o.key@) {
        Some(settings[o.key@])
    } else {
        None
    }
}

/// The problems of each option, in order: a required option without a value
/// (when the configuration must be complete), or a value of the wrong kind.
pub open spec fn option_problems(
    options: Seq<ConfigOption>,
    values: Map<Seq<char>, serde_json::Value>,
    settings: Map<Seq<char>, serde_json::Value>,
    complete: bool,
) -> Seq<Seq<char>>
    decreases options.len(),
{
    if options.len() == 0 {
        seq![]
    } else {
        let rest = option_problems(options.drop_last(), values, settings, complete);
        let o = options.last();
        match checked_value(o, values, settings) {
            None => if complete && o.required {
                rest.push("required key `"@ + o.key@ + "` is missing"@)
            } else {
                rest
            },
            Some(v) => if type_fits(o.kind, v) {
                rest
            } else {
                rest.push("`"@ + o.key@ + "` has the wrong type"@)
            },
        }
    }
}

/// The problems of user `values` under a plugin's configuration schema:
/// values for a plugin that declares no options, then keys no option
/// declares, then the options' own problems.
pub open spec fn config_problems(
    schema: PluginConfigSchema,
    values: Seq<(String, serde_json::Value)>,
    complete: bool,
) -> Seq<Seq<char>> {
    if !schema.declared {
        if values.len() > 0 {
            seq!["plugin does not declare userConfig"@]
        } else {
            seq![]
        }
    } else {
        unknown_keys(entry_keys(values), schema.options@) + option_problems(
            schema.options@,
            entries_map(values),
            schema.settings@,
            complete,
        )
    }
}

/// `e` is the error for a plugin `id` whose configuration has `problems`:
/// a missing value where the configuration must be complete, else the list
/// of problems.
pub open spec fn config_error(e: PluginError, id: PluginId, problems: Seq<Seq<char>>, complete: bool) -> bool {
    if complete && exists|i: int| 0 <= i < problems.len() && contains(#[trigger] problems[i], "is missing"@) {
        e == (PluginError::UserConfigRequired { id })
    } else {
        e matches PluginError::UserConfigValidation { errors } && texts(errors@) == problems
    }
}

fn declares_key_exec(options: &Vec<ConfigOption>, key: &str) -> (r: bool)
    ensures
        r == declares_key(options@, key@),
{
    let mut i: usize = 0;
    while i < options.len()
        invariant
            i <= options@.len(),
            forall|j: int| 0 <= j < i ==> options@[j].key@ != key@,
        decreases options.len() - i,
    {
        if str_eq(options[i].key.as_str(), key) {
            return true;
        }
        i = i + 1;
    }
    false
}

fn type_fits_exec(kind: ConfigOptionType, v: &serde_json::Value) -> (r: bool)
    ensures
        r == type_fits(kind, *v),
{
    match kind {
        ConfigOptionType::Number => json_is_number(v),
        ConfigOptionType::Boolean => json_as_bool(v).is_some(),
        _ => json_as_str(v).is_some(),
    }
}

fn checked_value_exec(o: &ConfigOption, values: &ConfigValues, settings: &ConfigValues) -> (r: Option<serde_json::Value>)
    ensures
        r == checked_value(*o, values@, settings@),
{
    match values.get(o.key.as_str()) {
        Some(v) => Some(v.clone()),
        None => match &o.default {
            Some(d) => Some(d.clone()),
            None => match settings.get(o.key.as_str()) {
                Some(v) => Some(v.clone()),
                None => None,
            },
        },
    }
}

/// The text `<head><key><tail>`.
fn framed(head: &str, key: &str, tail: &str) -> (r: String)
    ensures
        r@ == head@ + key@ + tail@,
{
    let mut t = chars_of(head);
    extend_str(&mut t, key);
    extend_str(&mut t, tail);
    string_of(t.as_slice())
}

/// The problems of user `values` under `schema`; with `complete`, a
/// required option without a value is one.
pub fn config_problem_list(schema: &PluginConfigSchema, values: &ConfigValues, complete: bool) -> (r: Vec<
    String,
>)
    ensures
        texts(r@) == config_problems(*schema, values.pairs(), complete),
{
    let mut out: Vec<String> = Vec::new();
    let pairs = values.entries();
    if !schema.declared {
        if pairs.len() > 0 {
            out.push("plugin does not declare userConfig".to_string());
            proof {
                assert(texts(out@) =~= seq!["plugin does not declare userConfig"@]);
            }
        } else {
            proof {
                assert(texts(out@) =~= Seq::<Seq<char>>::empty());
            }
        }
        return out;
    }
    let ghost keys = entry_keys(pairs@);
    let mut i: usize = 0;
    proof {
        assert(keys.take(0) =~= Seq::<Seq<char>>::empty());
        assert(texts(out@) =~= unknown_keys(keys.take(0), schema.options@));
    }
    while i < pairs.len()
        invariant
            i <= pairs@.len(),
            keys == entry_keys(pairs@),
            texts(out@) == unknown_keys(keys.take(i as int), schema.options@),
        decreases pairs.len() - i,
    {
        proof {
            assert(keys.take(i + 1).drop_last() =~= keys.take(i as int));
            assert(keys[i as int] == pairs@[i as int].0@);
        }
        let key = pairs[i].0.as_str();
        if !declares_key_exec(&schema.options, key) {
            out.push(framed("unknown key `", key, "`"));
        }
        proof {
            assert(texts(out@) =~= unknown_keys(keys.take(i + 1), schema.options@));
        }
        i = i + 1;
    }
    proof {
        assert(keys.take(pairs@.len() as int) =~= keys);
    }
    let ghost unknown = texts(out@);
    let options = &schema.options;
    let mut j: usize = 0;
    proof {
        assert(options@.take(0) =~= Seq::<ConfigOption>::empty());
        assert(texts(out@) =~= unknown + option_problems(options@.take(0), values@, schema.settings@, complete));
    }
    while j < options.len()
        invariant
            j <= options@.len(),
            texts(out@) == unknown + option_problems(options@.take(j as int), values@, schema.settings@, complete),
        decreases options.len() - j,
    {
        proof {
            assert(options@.take(j + 1).drop_last() =~= options@.take(j as int));
        }
        let o = &options[j];
        let ghost before = texts(out@);
        proof {
            assert(options@.take(j + 1).last() == options@[j as int]);
            assert(before == unknown + option_problems(options@.take(j as int), values@, schema.settings@, complete));
        }
        match checked_value_exec(o, values, &schema.settings) {
            None => {
                if complete && o.required {
                    let t = framed("required key `", o.key.as_str(), "` is missing");
                    out.push(t);
                    proof {
                        assert(texts(out@) =~= before.push(t@));
                    }
                }
            },
            Some(v) => {
                if !type_fits_exec(o.kind, &v) {
                    let t = framed("`", o.key.as_str(), "` has the wrong type");
                    out.push(t);
                    proof {
                        assert(texts(out@) =~= before.push(t@));
                    }
                }
            },
        }
        proof {
            assert(texts(out@) =~= unknown + option_problems(options@.take(j + 1), values@, schema.settings@, complete));
        }
        j = j + 1;
    }
    proof {
        assert(options@.take(options@.len() as int) =~= options@);
    }
    out
}

/// Check user `values` under `schema`, together with the `outside` problems
/// found by checks the library cannot make (numeric bounds, and whether
/// named files and directories exist): no problem passes; otherwise a
/// missing value where the configuration must be complete refuses with
/// `UserConfigRequired`, anything else with the list of problems.
pub fn validate_values(
    id: &PluginId,
    schema: &PluginConfigSchema,
    values: &ConfigValues,
    complete: bool,
    outside: Vec<String>,
) -> (r: Result<(), PluginError>)
    ensures
        r is Ok <==> config_problems(*schema, values.pairs(), complete).len() == 0 && outside@.len() == 0,
        r matches Err(e) ==> config_error(e, *id, config_problems(*schema, values.pairs(), complete) + texts(outside@), complete),
{
    let mut problems = config_problem_list(schema, values, complete);
    let ghost own = texts(problems@);
    let mut k: usize = 0;
    while k < outside.len()
        invariant
            k <= outside@.len(),
            texts(problems@) == own + texts(outside@.take(k as int)),
        decreases outside.len() - k,
    {
        let ghost before = texts(problems@);
        let item = outside[k].clone();
        problems.push(item);
        proof {
            assert(texts(problems@) =~= before.push(item@));
            assert(outside@.take(k + 1) =~= outside@.take(k as int).push(outside@[k as int]));
            assert(texts(outside@.take(k + 1)) =~= texts(outside@.take(k as int)).push(item@));
            assert(texts(problems@) =~= own + texts(outside@.take(k + 1)));
        }
        k = k + 1;
    }
    proof {
        assert(outside@.take(outside@.len() as int) =~= outside@);
        assert(texts(problems@) == own + texts(outside@));
    }
    let ghost all = texts(problems@);
    if problems.len() == 0 {
        proof {
            assert(own.len() + texts(outside@).len() == 0);
        }
        return Ok(());
    }
    if complete {
        let mut m: usize = 0;
        while m < problems.len()
            invariant
                m <= problems@.len(),
                all == texts(problems@),
                all == config_problems(*schema, values.pairs(), complete) + texts(outside@),
                all.len() > 0,
                complete,
                forall|q: int| 0 <= q < m ==> !contains(#[trigger] all[q], "is missing"@),
            decreases problems.len() - m,
        {
            let text = chars_of(problems[m].as_str());
            if contains_str(text.as_slice(), "is missing") {
                assert(all[m as int] == problems@[m as int]@);
                assert(contains(all[m as int], "is missing"@));
                assert(all.len() > 0);
                return Err(PluginError::UserConfigRequired { id: id.clone() });
            }
            assert(all[m as int] == problems@[m as int]@);
            m = m + 1;
        }
    }
    Err(PluginError::UserConfigValidation { errors: problems })
}

impl ResolvedPluginConfig {
    /// Resolve the configuration of the plugin `id` as [`Self::resolve`]
    /// does, once its user values pass [`validate_values`] as a complete
    /// configuration.
    pub fn resolve_for(
        id: &PluginId,
        schema: &PluginConfigSchema,
        user_values: &ConfigValues,
        outside: Vec<String>,
    ) -> (r: Result<Self, PluginError>)
        ensures
            r is Err <==> config_problems(*schema, user_values.pairs(), true).len() > 0 || outside@.len() > 0,
            r matches Err(e) ==> config_error(
                e,
                *id,
                config_problems(*schema, user_values.pairs(), true) + texts(outside@),
                true,
            ),
            r matches Ok(c) ==> c.spec_values() == with_defaults(schema.settings@, schema.options@).union_prefer_right(
                user_values@,
            ) && forall|k: Seq<char>| c.spec_sensitive(k) == declared_sensitive(schema.options@, k),
    {
        match validate_values(id, schema, user_values, true, outside) {
            Err(e) => Err(e),
            Ok(()) => Ok(Self::resolve(&schema.settings, &schema.options, user_values)),
        }
    }
}

// ---------------------------------------------------------------------------
// Checks on a manifest's configuration declarations
// ---------------------------------------------------------------------------

/// `text` as a one-item list where `bad`, else nothing.
pub open spec fn problem_if(bad: bool, text: Seq<char>) -> Seq<Seq<char>> {
    if bad {
        seq![text]
    } else {
        seq![]
    }
}

/// The problems of one declared option that need neither floating point
/// nor the file system: a blank key, title or description, bounds on an
/// option that is not a number, and a default of the wrong kind.
pub open spec fn declaration_problems(o: ConfigOption) -> Seq<Seq<char>> {
    problem_if(crate::text::trim(o.key@).len() == 0, "userConfig keys must not be empty"@)
        + problem_if(
        crate::text::trim(o.title@).len() == 0,
        "userConfig."@ + o.key@ + ".title must not be empty"@,
    ) + problem_if(
        crate::text::trim(o.description@).len() == 0,
        "userConfig."@ + o.key@ + ".description must not be empty"@,
    ) + problem_if(
        o.kind != ConfigOptionType::Number && o.has_bounds,
        "userConfig."@ + o.key@ + " bounds require type number"@,
    ) + match o.default {
        Some(d) => problem_if(!type_fits(o.kind, d), "`"@ + o.key@ + "` has the wrong type"@),
        None => seq![],
    }
}

/// The declaration problems of each option, in order.
pub open spec fn declarations_problems(options: Seq<ConfigOption>) -> Seq<Seq<char>>
    decreases options.len(),
{
    if options.len() == 0 {
        seq![]
    } else {
        declarations_problems(options.drop_last()) + declaration_problems(options.last())
    }
}

/// The keys a schema names: its settings' keys, then its options' keys.
pub open spec fn schema_keys(schema: PluginConfigSchema) -> Seq<Seq<char>> {
    entry_keys(schema.settings.pairs()) + schema.options@.map_values(|o: ConfigOption| o.key@)
}

fn push_if(out: &mut Vec<String>, bad: bool, head: &str, key: &str, tail: &str)
    ensures
        texts(final(out)@) == texts(old(out)@) + problem_if(bad, head@ + key@ + tail@),
{
    if bad {
        let t = framed(head, key, tail);
        out.push(t);
        proof {
            assert(texts(out@) =~= texts(old(out)@) + problem_if(bad, head@ + key@ + tail@));
        }
    } else {
        proof {
            assert(texts(out@) =~= texts(old(out)@) + problem_if(bad, head@ + key@ + tail@));
        }
    }
}

/// The problems of a manifest's configuration declarations: those of each
/// option (where it declares `userConfig`), then the `outside` problems of
/// the checks on its numeric bounds, which are floating point, then those
/// of its keys as environment variable names (see [`config_key_errors`]).
pub fn validate_manifest_config(schema: &PluginConfigSchema, outside: Vec<String>) -> (r: Vec<String>)
    ensures
        texts(r@) == (if schema.declared {
            declarations_problems(schema.options@)
        } else {
            seq![]
        }) + texts(outside@) + key_scan(schema_keys(*schema)).0,
{
    let mut out: Vec<String> = Vec::new();
    let options = &schema.options;
    if schema.declared {
        let mut i: usize = 0;
        proof {
            assert(options@.take(0) =~= Seq::<ConfigOption>::empty());
            assert(texts(out@) =~= declarations_problems(options@.take(0)));
        }
        while i < options.len()
            invariant
                i <= options@.len(),
                texts(out@) == declarations_problems(options@.take(i as int)),
            decreases options.len() - i,
        {
            proof {
                assert(options@.take(i + 1).drop_last() =~= options@.take(i as int));
                assert(options@.take(i + 1).last() == options@[i as int]);
            }
            let o = &options[i];
            let ghost start = texts(out@);
            let key = o.key.as_str();
            push_if(&mut out, crate::text::is_blank(key), "userConfig keys must not be empty", "", "");
            proof {
                reveal_strlit("");
                assert("userConfig keys must not be empty"@ + ""@ + ""@ =~= "userConfig keys must not be empty"@);
            }
            push_if(&mut out, crate::text::is_blank(o.title.as_str()), "userConfig.", key, ".title must not be empty");
            push_if(
                &mut out,
                crate::text::is_blank(o.description.as_str()),
                "userConfig.",
                key,
                ".description must not be empty",
            );
            let not_number = match o.kind {
                ConfigOptionType::Number => false,
                _ => true,
            };
            push_if(&mut out, not_number && o.has_bounds, "userConfig.", key, " bounds require type number");
            let ghost before_default = texts(out@);
            match &o.default {
                Some(d) => {
                    push_if(&mut out, !type_fits_exec(o.kind, d), "`", key, "` has the wrong type");
                },
                None => {
                    proof {
                        assert(texts(out@) =~= before_default + Seq::<Seq<char>>::empty());
                    }
                },
            }
            proof {
                assert(texts(out@) =~= start + declaration_problems(options@[i as int]));
                assert(texts(out@) =~= declarations_problems(options@.take(i + 1)));
            }
            i = i + 1;
        }
        proof {
            assert(options@.take(options@.len() as int) =~= options@);
        }
    }
    let ghost own = texts(out@);
    proof {
        assert(own =~= (if schema.declared {
            declarations_problems(schema.options@)
        } else {
            seq![]
        }));
    }
    let mut k: usize = 0;
    while k < outside.len()
        invariant
            k <= outside@.len(),
            texts(out@) == own + texts(outside@.take(k as int)),
        decreases outside.len() - k,
    {
        let ghost before = texts(out@);
        let item = outside[k].clone();
        out.push(item);
        proof {
            assert(texts(out@) =~= before.push(item@));
            assert(outside@.take(k + 1) =~= outside@.take(k as int).push(outside@[k as int]));
            assert(texts(outside@.take(k + 1)) =~= texts(outside@.take(k as int)).push(item@));
            assert(texts(out@) =~= own + texts(outside@.take(k + 1)));
        }
        k = k + 1;
    }
    proof {
        assert(outside@.take(outside@.len() as int) =~= outside@);
    }
    let mut keys: Vec<String> = Vec::new();
    let pairs = schema.settings.entries();
    let mut j: usize = 0;
    while j < pairs.len()
        invariant
            j <= pairs@.len(),
            texts(keys@) == entry_keys(pairs@).take(j as int),
        decreases pairs.len() - j,
    {
        let ghost before = texts(keys@);
        let item = pairs[j].0.clone();
        keys.push(item);
        proof {
            assert(texts(keys@) =~= before.push(item@));
            assert(entry_keys(pairs@).take(j + 1) =~= entry_keys(pairs@).take(j as int).push(entry_keys(pairs@)[j as int]));
            assert(texts(keys@) =~= entry_keys(pairs@).take(j + 1));
        }
        j = j + 1;
    }
    let ghost setting_keys = texts(keys@);
    proof {
        assert(setting_keys =~= entry_keys(pairs@));
    }
    let mut m: usize = 0;
    while m < options.len()
        invariant
            m <= options@.len(),
            texts(keys@) == setting_keys + options@.take(m as int).map_values(|o: ConfigOption| o.key@),
        decreases options.len() - m,
    {
        let ghost before = texts(keys@);
        let item = options[m].key.clone();
        keys.push(item);
        proof {
            assert(texts(keys@) =~= before.push(item@));
            assert(options@.take(m + 1).map_values(|o: ConfigOption| o.key@) =~= options@.take(m as int).map_values(
                |o: ConfigOption| o.key@,
            ).push(options@[m as int].key@));
            assert(texts(keys@) =~= setting_keys + options@.take(m + 1).map_values(|o: ConfigOption| o.key@));
        }
        m = m + 1;
    }
    proof {
        assert(options@.take(options@.len() as int) =~= options@);
        assert(texts(keys@) == schema_keys(*schema));
    }
    let key_errors = config_key_errors(&keys);
    let ghost mid = texts(out@);
    let mut q: usize = 0;
    while q < key_errors.len()
        invariant
            q <= key_errors@.len(),
            texts(out@) == mid + texts(key_errors@.take(q as int)),
        decreases key_errors.len() - q,
    {
        let ghost before = texts(out@);
        let item = key_errors[q].clone();
        out.push(item);
        proof {
            assert(texts(out@) =~= before.push(item@));
            assert(key_errors@.take(q + 1) =~= key_errors@.take(q as int).push(key_errors@[q as int]));
            assert(texts(key_errors@.take(q + 1)) =~= texts(key_errors@.take(q as int)).push(item@));
        }
        q = q + 1;
    }
    proof {
        assert(key_errors@.take(key_errors@.len() as int) =~= key_errors@);
    }
    out
}

// ---------------------------------------------------------------------------
// Output styles
// ---------------------------------------------------------------------------

/// The prompt section an output style makes: named
/// `plugin_<namespace>_output_style_<name>`, where the name is the one the
/// style gives, else its file's stem, else `style`; its instructions with
/// `${PLUGIN_ROOT}` and the configuration's values filled in.
pub open spec fn output_style(
    namespace: Seq<char>,
    plugin_root: Seq<char>,
    file_stem: Option<Seq<char>>,
    name: Option<Seq<char>>,
    instructions: Seq<char>,
    config: ResolvedPluginConfig,
) -> (Seq<char>, Seq<char>) {
    let fallback = match file_stem {
        Some(stem) => stem,
        None => "style"@,
    };
    let chosen = match name {
        Some(n) => n,
        None => fallback,
    };
    (
        "plugin_"@ + namespace + "_output_style_"@ + chosen,
        rendered(
            crate::plugin_command::root_subst(instructions, plugin_root),
            config.spec_pairs(),
            |k: Seq<char>| config.spec_sensitive(k),
        ),
    )
}

/// The name of a plugin's prompt section read from a file with the stem
/// `stem` (`unknown` where it has none): `plugin_<namespace>_<stem>`.
pub fn prompt_section_name(namespace: &str, stem: Option<String>) -> (r: String)
    ensures
        r@ == "plugin_"@ + namespace@ + "_"@ + match stem {
            Some(s) => s@,
            None => "unknown"@,
        },
{
    let chosen = match stem {
        Some(s) => s,
        None => "unknown".to_string(),
    };
    let mut t = chars_of("plugin_");
    extend_str(&mut t, namespace);
    extend_str(&mut t, "_");
    extend_str(&mut t, chosen.as_str());
    string_of(t.as_slice())
}

/// An output style as a prompt section (name, instructions): see
/// [`output_style`]. The style read from `path` gives `name` (a JSON style
/// may) and its `instructions` (the whole text of any other file); one
/// whose filled-in instructions are blank is refused.
pub fn output_style_section(
    namespace: &str,
    plugin_root: &str,
    path: &str,
    file_stem: Option<String>,
    name: Option<String>,
    instructions: &str,
    config: &ResolvedPluginConfig,
) -> (r: Result<(String, String), PluginError>)
    ensures
        ({
            let section = output_style(
                namespace@,
                plugin_root@,
                match file_stem {
                    Some(s) => Some(s@),
                    None => None,
                },
                match name {
                    Some(n) => Some(n@),
                    None => None,
                },
                instructions@,
                *config,
            );
            &&& crate::text::trim(section.1).len() == 0 ==> (r matches Err(e) && (e matches PluginError::Other(
                m,
            ) && m@ == "output style "@ + path@ + " has no instructions"@))
            &&& crate::text::trim(section.1).len() > 0 ==> (r matches Ok(p) && p.0@ == section.0 && p.1@
                == section.1)
        }),
{
    let text = config.render_template(crate::plugin_command::substitute_root(instructions, plugin_root).as_str());
    if crate::text::is_blank(text.as_str()) {
        return Err(PluginError::Other(framed("output style ", path, " has no instructions")));
    }
    let chosen = match name {
        Some(n) => n,
        None => match file_stem {
            Some(stem) => stem,
            None => "style".to_string(),
        },
    };
    let mut title = chars_of("plugin_");
    extend_str(&mut title, namespace);
    extend_str(&mut title, "_output_style_");
    extend_str(&mut title, chosen.as_str());
    Ok((string_of(title.as_slice()), text))
}

} // verus!
