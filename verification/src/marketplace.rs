//! Marketplaces: the sources plugins are installed from, their names, and
//! the checks a marketplace catalog must pass.
use vstd::prelude::*;

use crate::text::texts;

use crate::plugin_id::{is_valid_id_part, valid_id_part, PluginId};
use crate::text::{chars_of, extend_str, string_of};

verus! {

/// Where a marketplace manifest is fetched from.
#[derive(Debug, Clone)]
pub enum MarketplaceSource {
    /// GitHub repository containing marketplace.json.
    GitHub { repo: String, ref_: Option<String>, path: Option<String> },
    /// Local directory containing marketplace.json.
    Local { path: String },
}

/// Whether an installed plugin can still be found in its marketplace.
#[derive(Debug, Clone, Copy, PartialEq, Eq, Structural)]
pub enum PluginSourceStatus {
    Available,
    RemovedFromMarketplace,
    MarketplaceMissing,
}

pub open spec fn source_status_text(s: PluginSourceStatus) -> Seq<char> {
    match s {
        PluginSourceStatus::Available => "available"@,
        PluginSourceStatus::RemovedFromMarketplace => "removed-from-marketplace"@,
        PluginSourceStatus::MarketplaceMissing => "marketplace-missing"@,
    }
}

impl PluginSourceStatus {
    pub fn as_str(self) -> (r: &'static str)
        ensures
            r@ == source_status_text(self),
    {
        match self {
            PluginSourceStatus::Available => "available",
            PluginSourceStatus::RemovedFromMarketplace => "removed-from-marketplace",
            PluginSourceStatus::MarketplaceMissing => "marketplace-missing",
        }
    }
}

/// What a marketplace refresh did to the installed plugins whose catalog
/// entry disappeared: uninstalled them, or left them installed as orphans.
#[derive(Debug, Clone)]
pub struct MarketplaceRefreshReport {
    pub removed: Vec<PluginId>,
    pub orphaned: Vec<PluginId>,
}

impl Default for MarketplaceRefreshReport {
    fn default() -> (r: Self)
        ensures
            r.removed@.len() == 0,
            r.orphaned@.len() == 0,
    {
        MarketplaceRefreshReport { removed: Vec::new(), orphaned: Vec::new() }
    }
}

/// State of an installed plugin.
#[derive(Debug, Clone, Copy, PartialEq, Eq, Structural)]
pub enum PluginStatus {
    /// Plugin is enabled and all components are active.
    Enabled,
    /// Plugin is installed but disabled.
    Disabled,
    /// Plugin is enabled but some components failed to load.
    Degraded,
    /// Plugin failed to load entirely.
    Error,
}

/// The part of `s` after its last `/`.
pub open spec fn last_segment(s: Seq<char>) -> Seq<char>
    decreases s.len(),
{
    if s.len() == 0 {
        s
    } else if s.last() == '/' {
        seq![]
    } else {
        last_segment(s.drop_last()).push(s.last())
    }
}

fn last_segment_exec(s: &str) -> (r: String)
    ensures
        r@ == last_segment(s@),
{
    let v = chars_of(s);
    let mut start: usize = v.len();
    assert(v@.take(v.len() as int) =~= v@);
    assert(v@ + v@.skip(v.len() as int) =~= v@);
    while start > 0
        invariant
            start <= v.len(),
            last_segment(v@) == last_segment(v@.take(start as int)) + v@.skip(start as int),
        ensures
            start <= v.len(),
            last_segment(v@) == last_segment(v@.take(start as int)) + v@.skip(start as int),
            start > 0 ==> v@[start - 1] == '/',
        decreases start,
    {
        if v[start - 1] == '/' {
            break;
        }
        proof {
            let t = v@.take(start as int);
            assert(t.drop_last() =~= v@.take(start - 1));
            assert(t.last() == v@[start - 1]);
            assert(last_segment(t) == last_segment(v@.take(start - 1)).push(v@[start - 1]));
            assert(v@.skip(start - 1) =~= seq![v@[start - 1]] + v@.skip(start as int));
            assert(last_segment(v@.take(start - 1)).push(v@[start - 1]) + v@.skip(start as int)
                =~= last_segment(v@.take(start - 1)) + v@.skip(start - 1));
        }
        start = start - 1;
    }
    proof {
        let t = v@.take(start as int);
        if start > 0 {
            assert(t.last() == v@[start - 1]);
            assert(last_segment(t) == Seq::<char>::empty());
        } else {
            assert(t =~= Seq::<char>::empty());
        }
        assert(Seq::<char>::empty() + v@.skip(start as int) =~= v@.skip(start as int));
    }
    let out = crate::text::slice_chars(v.as_slice(), start, v.len());
    assert(out@ =~= v@.skip(start as int));
    string_of(out.as_slice())
}

/// The name of a path's last component, as `Path::file_name` reports it.
pub uninterp spec fn path_file_name(path: Seq<char>) -> Option<Seq<char>>;

/// `Path::new(path).file_name()` read as UTF-8, named, not stated.
#[verifier::external_body]
fn file_name(path: &str) -> (r: Option<String>)
    ensures
        r is Some <==> path_file_name(path@) is Some,
        r matches Some(n) ==> path_file_name(path@) == Some(n@),
{
    std::path::Path::new(path).file_name().and_then(|n| n.to_str()).map(str::to_owned)
}

/// The name a marketplace gets when none is requested: a GitHub repository's
/// name, or a local directory's name (`unknown` when it has none).
pub open spec fn derived_name(source: MarketplaceSource) -> Seq<char> {
    match source {
        MarketplaceSource::GitHub { repo, .. } => last_segment(repo@),
        MarketplaceSource::Local { path } => match path_file_name(path@) {
            Some(n) => n,
            None => "unknown"@,
        },
    }
}

pub fn derived_marketplace_name(source: &MarketplaceSource) -> (r: String)
    ensures
        r@ == derived_name(*source),
{
    match source {
        MarketplaceSource::GitHub { repo, .. } => last_segment_exec(repo.as_str()),
        MarketplaceSource::Local { path } => match file_name(path.as_str()) {
            Some(n) => n,
            None => string_of(chars_of("unknown").as_slice()),
        },
    }
}

/// The name a marketplace is registered under, or why it is refused.
pub open spec fn marketplace_name(source: MarketplaceSource, requested: Option<String>) -> Result<
    Seq<char>,
    Seq<char>,
> {
    let name = match requested {
        Some(n) => n@,
        None => derived_name(source),
    };
    if valid_id_part(name) {
        Ok(name)
    } else {
        Err(
            "invalid marketplace name `"@ + name
                + "`; use ASCII letters, digits, dots, hyphens, or underscores"@,
        )
    }
}

/// Choose the name to register a marketplace under and check it.
pub fn choose_marketplace_name(source: &MarketplaceSource, requested: Option<String>) -> (r: Result<
    String,
    String,
>)
    ensures
        r is Ok <==> marketplace_name(*source, requested) is Ok,
        r matches Ok(n) ==> marketplace_name(*source, requested) == Ok::<Seq<char>, Seq<char>>(n@),
        r matches Err(m) ==> marketplace_name(*source, requested) == Err::<Seq<char>, Seq<char>>(m@),
{
    let name = match requested {
        Some(n) => n,
        None => derived_marketplace_name(source),
    };
    if is_valid_id_part(name.as_str()) {
        Ok(name)
    } else {
        let mut t: Vec<char> = Vec::new();
        extend_str(&mut t, "invalid marketplace name `");
        extend_str(&mut t, name.as_str());
        extend_str(&mut t, "`; use ASCII letters, digits, dots, hyphens, or underscores");
        Err(string_of(t.as_slice()))
    }
}

/// Problems of a marketplace catalog: invalid names, duplicate plugin entries,
/// invalid allowed dependency marketplaces.
pub open spec fn catalog_problems(name: Seq<char>, entries: Seq<Seq<char>>, allowed: Option<Seq<Seq<char>>>) -> Seq<
    Seq<char>,
> {
    (if valid_id_part(name) {
        seq![]
    } else {
        seq!["invalid marketplace name `"@ + name + "`"@]
    }) + entry_problems(entries) + match allowed {
        Some(a) => allowed_problems(a),
        None => seq![],
    }
}

/// Problems of the plugin entry names, in order: each invalid one, and each
/// repeat of an earlier one.
pub open spec fn entry_problems(entries: Seq<Seq<char>>) -> Seq<Seq<char>>
    decreases entries.len(),
{
    if entries.len() == 0 {
        seq![]
    } else {
        let prev = entries.drop_last();
        let e = entries.last();
        entry_problems(prev) + (if valid_id_part(e) {
            seq![]
        } else {
            seq!["invalid plugin entry name `"@ + e + "`"@]
        }) + (if prev.contains(e) {
            seq!["duplicate plugin entry `"@ + e + "`"@]
        } else {
            seq![]
        })
    }
}

pub open spec fn allowed_problems(allowed: Seq<Seq<char>>) -> Seq<Seq<char>>
    decreases allowed.len(),
{
    if allowed.len() == 0 {
        seq![]
    } else {
        allowed_problems(allowed.drop_last()) + (if valid_id_part(allowed.last()) {
            seq![]
        } else {
            seq!["invalid allowed dependency marketplace `"@ + allowed.last() + "`"@]
        })
    }
}

fn quoted(head: &str, name: &str) -> (r: String)
    ensures
        r@ == head@ + name@ + "`"@,
{
    let mut t: Vec<char> = Vec::new();
    extend_str(&mut t, head);
    extend_str(&mut t, name);
    extend_str(&mut t, "`");
    string_of(t.as_slice())
}

fn seen_before(entries: &Vec<String>, k: usize) -> (r: bool)
    requires
        k < entries@.len(),
    ensures
        r == texts(entries@).take(k as int).contains(entries@[k as int]@),
{
    let ghost prev = texts(entries@).take(k as int);
    let target = chars_of(entries[k].as_str());
    let mut i: usize = 0;
    while i < k
        invariant
            i <= k < entries@.len(),
            prev == texts(entries@).take(k as int),
            target@ == entries@[k as int]@,
            forall|j: int| 0 <= j < i ==> prev[j] != target@,
        decreases k - i,
    {
        let c = chars_of(entries[i].as_str());
        if crate::text::seq_eq(c.as_slice(), target.as_slice()) {
            assert(prev[i as int] == target@);
            return true;
        }
        i = i + 1;
    }
    false
}

/// The problems of a marketplace catalog named `name` listing plugin entries
/// `entries` and allowing dependencies on the marketplaces `allowed`.
pub fn marketplace_problems(name: &str, entries: &Vec<String>, allowed: &Option<Vec<String>>) -> (r: Vec<
    String,
>)
    ensures
        texts(r@) == catalog_problems(
            name@,
            texts(entries@),
            match *allowed {
                Some(a) => Some(texts(a@)),
                None => None,
            },
        ),
{
    let mut errors: Vec<String> = Vec::new();
    if !is_valid_id_part(name) {
        errors.push(quoted("invalid marketplace name `", name));
    }
    let ghost head = texts(errors@);
    assert(head =~= (if valid_id_part(name@) {
        Seq::<Seq<char>>::empty()
    } else {
        seq!["invalid marketplace name `"@ + name@ + "`"@]
    }));
    let ghost es = texts(entries@);
    let mut i: usize = 0;
    assert(es.take(0) =~= Seq::<Seq<char>>::empty());
    assert(head + Seq::<Seq<char>>::empty() =~= head);
    while i < entries.len()
        invariant
            i <= entries.len(),
            es == texts(entries@),
            texts(errors@) == head + entry_problems(es.take(i as int)),
        decreases entries.len() - i,
    {
        let e = entries[i].as_str();
        let ghost before = texts(errors@);
        assert(es.take(i + 1).drop_last() =~= es.take(i as int));
        assert(es.take(i + 1).last() == e@);
        if !is_valid_id_part(e) {
            let q = quoted("invalid plugin entry name `", e);
            errors.push(q);
            assert(texts(errors@) =~= before.push(q@));
        }
        let ghost mid = texts(errors@);
        assert(mid =~= before + (if valid_id_part(e@) {
            Seq::<Seq<char>>::empty()
        } else {
            seq!["invalid plugin entry name `"@ + e@ + "`"@]
        }));
        if seen_before(entries, i) {
            let q = quoted("duplicate plugin entry `", e);
            errors.push(q);
            assert(texts(errors@) =~= mid.push(q@));
        }
        proof {
            assert(texts(errors@) =~= mid + (if es.take(i as int).contains(e@) {
                seq!["duplicate plugin entry `"@ + e@ + "`"@]
            } else {
                Seq::<Seq<char>>::empty()
            }));
            assert(texts(errors@) =~= head + entry_problems(es.take(i + 1)));
        }
        i = i + 1;
    }
    assert(es.take(entries.len() as int) =~= es);
    let ghost mid = texts(errors@);
    if let Some(a) = allowed {
        let ghost av = texts(a@);
        let mut k: usize = 0;
        assert(av.take(0) =~= Seq::<Seq<char>>::empty());
        assert(mid + Seq::<Seq<char>>::empty() =~= mid);
        while k < a.len()
            invariant
                k <= a.len(),
                av == texts(a@),
                texts(errors@) == mid + allowed_problems(av.take(k as int)),
            decreases a.len() - k,
        {
            let m = a[k].as_str();
            assert(av.take(k + 1).drop_last() =~= av.take(k as int));
            assert(av.take(k + 1).last() == m@);
            let ghost before = texts(errors@);
            if !is_valid_id_part(m) {
                let q = quoted("invalid allowed dependency marketplace `", m);
                errors.push(q);
                assert(texts(errors@) =~= before.push(q@));
            }
            assert(texts(errors@) =~= mid + allowed_problems(av.take(k + 1)));
            k = k + 1;
        }
        assert(av.take(a.len() as int) =~= av);
    } else {
        assert(texts(errors@) =~= mid + Seq::<Seq<char>>::empty());
    }
    errors
}

} // verus!
