use telos_agent::marketplace::{MarketplaceSource, PluginSourceStatus};
use telos_agent::marketplace_registry::{
    empty_catalog, validate_marketplace, Marketplace, MarketplaceEntry, MarketplaceRegistry,
};
use telos_agent::plugin_id::PluginId;
use telos_agent::plugin_manifest::{PluginAuthor, PluginSource};
use telos_agent::plugin_tools::PluginError;

fn entry(name: &str, description: Option<&str>, source: PluginSource) -> MarketplaceEntry {
    MarketplaceEntry {
        name: name.into(),
        description: description.map(str::to_string),
        version: semver::Version::new(1, 0, 0),
        source,
        category: None,
        tags: vec![],
        strict: true,
        manifest_override: None,
    }
}

fn catalog(name: &str) -> Marketplace {
    Marketplace {
        name: name.into(),
        owner: Some(PluginAuthor { name: "Test Org".into(), email: None, url: None }),
        plugins: vec![
            entry(
                "test-plugin",
                Some("A test plugin"),
                PluginSource::Local { path: "./test-plugin".into() },
            ),
            entry(
                "another-plugin",
                Some("Another one"),
                PluginSource::GitHub { repo: "org/repo".into(), ref_: None, sha: None, path: None },
            ),
        ],
        allow_cross_marketplace_deps_on: None,
        force_remove_deleted_plugins: false,
    }
}

fn add_local(registry: &mut MarketplaceRegistry, dir: &str, name: &str) -> String {
    let source = MarketplaceSource::Local { path: dir.into() };
    let chosen = registry.name_for(&source, None).unwrap();
    registry.add_catalog(chosen, source, catalog(name), 0).unwrap()
}

#[test]
fn add_local_marketplace() {
    let mut registry = MarketplaceRegistry::new("/tmp/cache");
    let name = add_local(&mut registry, "/tmp/work/my-marketplace", "my-marketplace");
    assert_eq!(name, "my-marketplace");

    let mkt = registry.get("my-marketplace").unwrap();
    assert_eq!(mkt.plugins.len(), 2);
    assert_eq!(mkt.plugins[0].name, "test-plugin");
    assert_eq!(registry.source_base("my-marketplace").as_deref(), Some("/tmp/work/my-marketplace"));
}

#[test]
fn search_finds_matching_plugins() {
    let mut registry = MarketplaceRegistry::new("/tmp/cache");
    add_local(&mut registry, "/tmp/work/mkt", "mkt");

    let results = registry.search("test");
    assert_eq!(results.len(), 1);
    assert_eq!(results[0].1.name, "test-plugin");

    let results = registry.search("another");
    assert_eq!(results.len(), 1);
    assert_eq!(results[0].1.name, "another-plugin");

    let results = registry.search("nonexistent");
    assert!(results.is_empty());

    let results = registry.search("ANOTHER ONE");
    assert_eq!(results.len(), 1);
    assert_eq!(results[0].0.name, "mkt");
    assert_eq!(registry.list_all().len(), 2);
}

#[test]
fn names_must_be_valid_and_unique() {
    let mut registry = MarketplaceRegistry::new("/tmp/cache");
    add_local(&mut registry, "/tmp/work/mkt", "mkt");
    let source = MarketplaceSource::Local { path: "/tmp/other/mkt".into() };
    match registry.name_for(&source, None).unwrap_err() {
        PluginError::Other(message) => assert_eq!(
            message,
            "marketplace `mkt` is already registered; refresh or remove it first"
        ),
        other => panic!("unexpected error {other:?}"),
    }
    match registry.name_for(&source, Some("bad name".into())).unwrap_err() {
        PluginError::Other(message) => assert_eq!(
            message,
            "invalid marketplace name `bad name`; use ASCII letters, digits, dots, hyphens, or underscores"
        ),
        other => panic!("unexpected error {other:?}"),
    }
    assert_eq!(registry.name_for(&source, Some("alias".into())).unwrap(), "alias");
}

#[test]
fn invalid_catalogs_are_refused() {
    let mut bad = catalog("mkt");
    bad.plugins.push(entry("test-plugin", None, PluginSource::Local { path: "x".into() }));
    match validate_marketplace(&bad).unwrap_err() {
        PluginError::ManifestValidation { errors } => {
            assert_eq!(errors, vec!["duplicate plugin entry `test-plugin`".to_string()])
        },
        other => panic!("unexpected error {other:?}"),
    }
    let mut registry = MarketplaceRegistry::new("/tmp/cache");
    let source = MarketplaceSource::Local { path: "/tmp/mkt".into() };
    assert!(registry.add_catalog("mkt".into(), source, bad, 0).is_err());
    assert!(registry.names().is_empty());
    assert!(validate_marketplace(&empty_catalog("remote")).is_ok());
}

#[test]
fn plugin_entries_and_source_status() {
    let mut registry = MarketplaceRegistry::new("/tmp/cache");
    add_local(&mut registry, "/tmp/work/mkt", "mkt");
    let available = PluginId::parse("test-plugin@mkt").unwrap();
    let removed = PluginId::parse("gone@mkt").unwrap();
    let missing = PluginId::parse("test-plugin@elsewhere").unwrap();
    assert_eq!(registry.plugin_entry(&available).unwrap().name, "test-plugin");
    assert!(registry.plugin_entry(&removed).is_none());
    assert_eq!(registry.source_status(&available), PluginSourceStatus::Available);
    assert_eq!(registry.source_status(&removed), PluginSourceStatus::RemovedFromMarketplace);
    assert_eq!(registry.source_status(&missing), PluginSourceStatus::MarketplaceMissing);
}

#[test]
fn cross_marketplace_dependencies_need_permission() {
    let mut registry = MarketplaceRegistry::new("/tmp/cache");
    let mut open = catalog("open");
    open.allow_cross_marketplace_deps_on = Some(vec!["community".into()]);
    let source = MarketplaceSource::Local { path: "/tmp/open".into() };
    registry.add_catalog("open".into(), source, open, 0).unwrap();
    assert!(registry.allows_dependency("open", "open"));
    assert!(registry.allows_dependency("open", "community"));
    assert!(!registry.allows_dependency("open", "other"));
    assert!(registry.allows_dependency("unknown", "unknown"));
    assert!(!registry.allows_dependency("unknown", "open"));
}

#[test]
fn remove_and_commit_marketplaces() {
    let mut registry = MarketplaceRegistry::new("/tmp/cache");
    let source = MarketplaceSource::GitHub { repo: "org/remote".into(), ref_: None, path: None };
    let name = registry.name_for(&source, None).unwrap();
    assert_eq!(name, "remote");
    registry.add_catalog(name, source, empty_catalog("remote"), 0).unwrap();
    assert_eq!(registry.source_base("remote").as_deref(), Some("/tmp/cache/marketplaces/remote"));

    registry.commit_catalog("remote", catalog("remote"), Some("/tmp/cache/marketplaces/remote2".into()), 42).unwrap();
    assert_eq!(registry.get("remote").unwrap().plugins.len(), 2);
    assert_eq!(registry.source_base("remote").as_deref(), Some("/tmp/cache/marketplaces/remote2"));
    match registry.commit_catalog("nope", catalog("nope"), None, 1).unwrap_err() {
        PluginError::MarketplaceNotFound { marketplace, available } => {
            assert_eq!(marketplace, "nope");
            assert_eq!(available, vec!["remote".to_string()]);
        },
        other => panic!("unexpected error {other:?}"),
    }

    assert!(matches!(registry.check_removal("bad/name"), Err(PluginError::Other(_))));
    assert!(matches!(
        registry.remove_unchecked("absent"),
        Err(PluginError::MarketplaceNotFound { .. })
    ));
    registry.remove_unchecked("remote").unwrap();
    assert!(registry.get("remote").is_none());
    assert!(registry.names().is_empty());
}

#[test]
fn restoring_saved_marketplaces_keeps_registered_ones() {
    let mut registry = MarketplaceRegistry::new("/tmp/cache");
    let source = MarketplaceSource::Local { path: "/tmp/catalogs/community".into() };
    assert!(registry.restore_cached("community".into(), source.clone(), None, 7, catalog("community")));
    let cached = registry.cached("community").unwrap();
    assert_eq!(cached.install_location, "/tmp/cache/marketplaces/community");
    assert_eq!(cached.last_updated, 7);

    // A second record of the same name is ignored.
    assert!(!registry.restore_cached(
        "community".into(),
        source,
        Some("/elsewhere".into()),
        9,
        empty_catalog("community"),
    ));
    let cached = registry.cached("community").unwrap();
    assert_eq!(cached.install_location, "/tmp/cache/marketplaces/community");
    assert_eq!(cached.manifest.plugins.len(), 2);
    assert!(registry.cached("missing").is_none());
}

#[test]
fn adding_a_registered_marketplace_again_is_refused() {
    let mut registry = MarketplaceRegistry::new("/tmp/cache");
    add_local(&mut registry, "/tmp/work/my-marketplace", "my-marketplace");
    let source = MarketplaceSource::Local { path: "/tmp/other".into() };
    match registry.add_catalog("my-marketplace".into(), source, empty_catalog("my-marketplace"), 1) {
        Err(PluginError::Other(message)) => assert_eq!(
            message,
            "marketplace `my-marketplace` is already registered; refresh or remove it first"
        ),
        other => panic!("unexpected result: {other:?}"),
    }
    assert_eq!(registry.get("my-marketplace").unwrap().plugins.len(), 2);
}

#[test]
fn saved_marketplaces_not_yet_registered_are_read_back() {
    let mut registry = MarketplaceRegistry::new("/cache");
    let source = MarketplaceSource::Local { path: "/srv/community".into() };
    assert!(registry.restore_cached("community".into(), source.clone(), None, 7, catalog("community")));
    let text = r#"{"version":1,"marketplaces":{
        "community":{"source":{"type":"local","path":"/srv/community"},"lastUpdated":7},
        "extra":{"source":{"type":"github","repo":"o/r"},"installLocation":"/cache/x","lastUpdated":9}}}"#;
    let known = registry.known_marketplaces(text).unwrap();
    assert_eq!(known.len(), 1);
    assert_eq!(known[0].name, "extra");
    assert_eq!(known[0].install_location.as_deref(), Some("/cache/x"));
    assert_eq!(known[0].last_updated, 9);
    assert!(known[0].source.is_some());
    assert!(known[0].manifest.is_none());
    assert!(matches!(registry.known_marketplaces("nope"), Err(PluginError::Json(_))));

    let github = MarketplaceSource::GitHub { repo: "o/r".into(), ref_: None, path: None };
    match registry.catalog_choice("extra", &github, &None, None) {
        telos_agent::marketplace_registry::CatalogChoice::ReadFrom(dir) => assert_eq!(dir, "/cache/marketplaces/extra"),
        other => panic!("unexpected choice: {other:?}"),
    }
    match registry.catalog_choice("extra", &github, &Some("/cache/x".into()), Some(catalog("extra"))) {
        telos_agent::marketplace_registry::CatalogChoice::Saved(m) => assert_eq!(m.name, "extra"),
        other => panic!("unexpected choice: {other:?}"),
    }
    let mut bad = catalog("extra");
    bad.name = "not a name".into();
    let local = MarketplaceSource::Local { path: "/srv/extra".into() };
    match registry.catalog_choice("extra", &local, &Some("/cache/x".into()), Some(bad)) {
        telos_agent::marketplace_registry::CatalogChoice::ReadFrom(dir) => assert_eq!(dir, "/srv/extra"),
        other => panic!("unexpected choice: {other:?}"),
    }
}
