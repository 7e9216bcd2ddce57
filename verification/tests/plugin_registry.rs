use telos_agent::plugin_config::{ConfigOption, ConfigOptionType, ConfigValues, PluginConfigSchema};
use telos_agent::marketplace::{MarketplaceSource, PluginSourceStatus, PluginStatus};
use telos_agent::marketplace_registry::{Marketplace, MarketplaceEntry, MarketplaceRegistry};
use telos_agent::plugin_id::PluginId;
use telos_agent::plugin_manifest::{DependencyRef, PluginSource};
use telos_agent::plugin_registry::{
    degraded_error, plugin_agent_name, record_fields, status_name, ComponentTally, LoadedPlugin,
    PluginRegistry,
};
use telos_agent::plugin_tools::{DependencyReason, PluginError};

fn loaded(id: &PluginId, enabled: bool, dependencies: Vec<DependencyRef>) -> LoadedPlugin {
    LoadedPlugin {
        id: id.clone(),
        version: semver::Version::new(1, 0, 0),
        dependencies,
        path: "/tmp/plugins/installed".into(),
        source: PluginSource::Local { path: "/tmp/plugins/source".into() },
        enabled,
        is_builtin: false,
        resolved_tools: vec![],
        resolved_skills: vec![],
        resolved_agents: vec![],
        resolved_prompt_sections: vec![],
        resolved_output_styles: vec![],
        config: telos_agent::plugin_config::PluginConfigSchema::empty(),
    }
}

fn requirement(name: &str) -> DependencyRef {
    DependencyRef {
        name: name.into(),
        marketplace: None,
        version: semver::VersionReq::parse("^1").unwrap(),
    }
}

#[test]
fn register_and_get_plugin() {
    let mut registry = PluginRegistry::new("/tmp/plugins");
    let id = PluginId { name: "test".into(), marketplace: "test-mkt".into() };
    registry.register(loaded(&id, false, vec![]));
    assert!(registry.get(&id).is_some());
    assert_eq!(registry.len(), 1);
}

#[test]
fn enable_disable_lifecycle() {
    let mut registry = PluginRegistry::new("/tmp/plugins");
    let id = PluginId { name: "t".into(), marketplace: "m".into() };
    registry.register(loaded(&id, false, vec![]));
    assert_eq!(registry.get(&id).unwrap().status, PluginStatus::Disabled);

    registry.enable(&id, vec![]).unwrap();
    assert_eq!(registry.get(&id).unwrap().status, PluginStatus::Enabled);

    // Idempotent
    registry.enable(&id, vec![]).unwrap();
    assert_eq!(registry.get(&id).unwrap().status, PluginStatus::Enabled);

    registry.disable(&id).unwrap();
    assert_eq!(registry.get(&id).unwrap().status, PluginStatus::Disabled);

    // Idempotent
    registry.disable(&id).unwrap();
    assert_eq!(registry.get(&id).unwrap().status, PluginStatus::Disabled);
}

#[test]
fn enable_nonexistent_returns_error() {
    let mut registry = PluginRegistry::new("/tmp/plugins");
    let id = PluginId { name: "nope".into(), marketplace: "nope".into() };
    let result = registry.enable(&id, vec![]);
    assert!(result.is_err());
}

#[test]
fn list_enabled_and_disabled() {
    let mut registry = PluginRegistry::new("/tmp/plugins");
    let id_a = PluginId::parse("a@m").unwrap();
    let id_b = PluginId::parse("b@m").unwrap();
    registry.register(loaded(&id_a, false, vec![]));
    registry.register(loaded(&id_b, false, vec![]));
    registry.enable(&id_a, vec![]).unwrap();

    assert_eq!(registry.list_enabled().len(), 1);
    assert_eq!(registry.list_disabled().len(), 1);
    assert_eq!(registry.list_all().len(), 2);
}

#[test]
fn mark_degraded_and_error() {
    let mut registry = PluginRegistry::new("/tmp/plugins");
    let id = PluginId::parse("d@m").unwrap();
    registry.register(loaded(&id, false, vec![]));

    registry.mark_degraded(&id, vec![PluginError::Other("partial load".into())]);
    assert_eq!(registry.get(&id).unwrap().status, PluginStatus::Degraded);

    registry.mark_error(&id, PluginError::Other("total failure".into()));
    assert_eq!(registry.get(&id).unwrap().status, PluginStatus::Error);
    assert_eq!(
        registry.get(&id).unwrap().load_errors,
        vec![PluginError::Other("total failure".into())]
    );

    registry.mark_loaded(&id);
    let entry = registry.get(&id).unwrap();
    assert_eq!(entry.status, PluginStatus::Enabled);
    assert!(entry.plugin.enabled);
    assert!(entry.load_errors.is_empty());
}

#[test]
fn enable_requires_enabled_dependencies_and_disable_protects_dependents() {
    let mut registry = PluginRegistry::new("/tmp/plugins");
    let app = PluginId::parse("app@m").unwrap();
    let lib = PluginId::parse("lib@m").unwrap();
    registry.register(loaded(&app, false, vec![requirement("lib")]));
    registry.register(loaded(&lib, false, vec![]));

    match registry.enable(&app, vec![]).unwrap_err() {
        PluginError::DependencyUnsatisfied { dependency, reason } => {
            assert_eq!(dependency, "lib@m");
            assert_eq!(reason, DependencyReason::NotEnabled);
        },
        other => panic!("unexpected error {other:?}"),
    }
    assert_eq!(registry.get(&app).unwrap().status, PluginStatus::Disabled);

    registry.enable(&lib, vec![]).unwrap();
    registry.enable(&app, vec![]).unwrap();
    match registry.disable(&lib).unwrap_err() {
        PluginError::DependencyRequiredBy { dependency, dependents } => {
            assert_eq!(dependency, lib);
            assert_eq!(dependents, vec![app.clone()]);
        },
        other => panic!("unexpected error {other:?}"),
    }
    registry.disable(&app).unwrap();
    registry.disable(&lib).unwrap();
}

#[test]
fn uninstall_requires_disabled_and_unrequired_plugin() {
    let mut registry = PluginRegistry::new("/tmp/plugins");
    let app = PluginId::parse("app@m").unwrap();
    let lib = PluginId::parse("lib@m").unwrap();
    registry.register(loaded(&app, true, vec![requirement("lib")]));
    registry.register(loaded(&lib, false, vec![]));

    assert!(matches!(
        registry.uninstall(&lib),
        Err(PluginError::DependencyRequiredBy { .. })
    ));
    match registry.uninstall(&app).unwrap_err() {
        PluginError::Other(message) => {
            assert_eq!(message, "disable plugin `app@m` before uninstalling it")
        },
        other => panic!("unexpected error {other:?}"),
    }
    registry.disable(&app).unwrap();
    let removed = registry.uninstall(&app).unwrap();
    assert_eq!(removed.plugin.id, app);
    assert!(!registry.is_installed(&app));
    assert!(registry.uninstall(&app).is_err());
    let removed = registry.remove(&lib).unwrap();
    assert_eq!(removed.plugin.id, lib);
    assert!(registry.is_empty());
}

#[test]
fn registering_again_replaces_the_entry() {
    let mut registry = PluginRegistry::new("/tmp/plugins");
    let id = PluginId::parse("p@m").unwrap();
    registry.register(loaded(&id, false, vec![]));
    registry.mark_error(&id, PluginError::Other("boom".into()));
    registry.register(loaded(&id, true, vec![]));
    let entry = registry.get(&id).unwrap();
    assert_eq!(entry.status, PluginStatus::Enabled);
    assert!(entry.load_errors.is_empty());
    assert_eq!(registry.len(), 1);
    assert_eq!(registry.installed_dir(), "/tmp/plugins/installed");
    assert_eq!(registry.state_path(), "/tmp/plugins/state.json");
}

#[test]
fn degraded_errors_and_agent_names() {
    let id = PluginId::parse("p@m").unwrap();
    assert_eq!(
        degraded_error(&id, 1, 3),
        Some(PluginError::Degraded { id: id.clone(), loaded: 1, total: 3 })
    );
    assert_eq!(degraded_error(&id, 3, 3), None);
    assert_eq!(degraded_error(&id, 0, 0), None);
    assert_eq!(plugin_agent_name(&id, "auditor"), "p@m:auditor");
}

fn managed_catalog(force: bool, listed: bool) -> Marketplace {
    let plugins = if listed {
        vec![MarketplaceEntry {
            name: "managed".into(),
            description: None,
            version: semver::Version::new(1, 0, 0),
            source: PluginSource::Local { path: "/tmp/plugin-source".into() },
            category: None,
            tags: vec![],
            strict: true,
            manifest_override: None,
        }]
    } else {
        Vec::new()
    };
    Marketplace {
        name: "local".into(),
        owner: None,
        plugins,
        allow_cross_marketplace_deps_on: None,
        force_remove_deleted_plugins: force,
    }
}

/// A marketplace `local` listing `managed`, and `managed@local` installed (disabled).
fn setup() -> (MarketplaceRegistry, PluginRegistry, PluginId) {
    let mut marketplaces = MarketplaceRegistry::new("/tmp/plugins");
    let source = MarketplaceSource::Local { path: "/tmp/marketplace".into() };
    marketplaces.add_catalog("local".into(), source, managed_catalog(false, true), 0).unwrap();
    let mut registry = PluginRegistry::new("/tmp/plugins");
    let id = PluginId::parse("managed@local").unwrap();
    registry.register(loaded(&id, false, vec![]));
    (marketplaces, registry, id)
}

#[test]
fn refresh_retains_orphan_when_force_remove_is_false() {
    let (mut marketplaces, mut registry, id) = setup();

    let report = registry
        .refresh_marketplace(&mut marketplaces, "local", managed_catalog(false, false), None, 1)
        .unwrap();

    assert_eq!(report.orphaned, vec![id.clone()]);
    assert!(registry.is_installed(&id));
    assert_eq!(marketplaces.source_status(&id), PluginSourceStatus::RemovedFromMarketplace);
}

#[test]
fn refresh_safely_removes_disabled_deleted_plugin_and_blocks_enabled_plugin() {
    let (mut marketplaces, mut registry, id) = setup();
    let report = registry
        .refresh_marketplace(&mut marketplaces, "local", managed_catalog(true, false), None, 1)
        .unwrap();
    assert_eq!(report.removed, vec![id.clone()]);
    assert!(!registry.is_installed(&id));

    registry
        .refresh_marketplace(&mut marketplaces, "local", managed_catalog(false, true), None, 2)
        .unwrap();
    registry.register(loaded(&id, false, vec![]));
    registry.enable(&id, vec![]).unwrap();
    let error = registry
        .refresh_marketplace(&mut marketplaces, "local", managed_catalog(true, false), None, 3)
        .unwrap_err();
    assert!(matches!(error, PluginError::MarketplaceRefreshBlocked { .. }));
    assert!(
        marketplaces.get("local").unwrap().plugins.iter().any(|entry| entry.name == "managed")
    );
    assert!(registry.is_installed(&id));
}

#[test]
fn remove_marketplace_is_blocked_until_all_plugins_are_uninstalled() {
    let (mut marketplaces, mut registry, id) = setup();
    let error = registry.remove_marketplace(&mut marketplaces, "local").unwrap_err();
    assert!(matches!(error, PluginError::MarketplaceInUse { .. }));
    registry.uninstall(&id).unwrap();
    registry.remove_marketplace(&mut marketplaces, "local").unwrap();
    assert!(marketplaces.get("local").is_none());
}

#[test]
fn refresh_blocks_removal_of_a_plugin_still_required() {
    let (mut marketplaces, mut registry, id) = setup();
    let user = PluginId::parse("user@other").unwrap();
    let needs_managed = DependencyRef {
        name: "managed".into(),
        marketplace: Some("local".into()),
        version: semver::VersionReq::parse("^1").unwrap(),
    };
    registry.register(loaded(&user, false, vec![needs_managed]));
    let error = registry
        .refresh_marketplace(&mut marketplaces, "local", managed_catalog(true, false), None, 1)
        .unwrap_err();
    match error {
        PluginError::MarketplaceRefreshBlocked { plugins } => assert_eq!(plugins, vec![id.clone()]),
        other => panic!("unexpected error: {other:?}"),
    }
    assert!(registry.is_installed(&id));
}

#[test]
fn refresh_of_an_unknown_marketplace_is_refused() {
    let (mut marketplaces, mut registry, _id) = setup();
    let error = registry
        .refresh_marketplace(&mut marketplaces, "elsewhere", managed_catalog(false, true), None, 1)
        .unwrap_err();
    assert!(matches!(error, PluginError::MarketplaceNotFound { .. }));
}

#[test]
fn marketplace_plugins_are_sorted_by_their_text() {
    let (_marketplaces, mut registry, _id) = setup();
    registry.register(loaded(&PluginId::parse("alpha@local").unwrap(), false, vec![]));
    registry.register(loaded(&PluginId::parse("zeta@local").unwrap(), false, vec![]));
    registry.register(loaded(&PluginId::parse("beta@other").unwrap(), false, vec![]));
    let names: Vec<String> =
        registry.marketplace_plugins("local").iter().map(|id| id.to_string()).collect();
    assert_eq!(names, vec!["alpha@local", "managed@local", "zeta@local"]);
}

fn saved_record(registry: &PluginRegistry, id: &PluginId) -> serde_json::Value {
    let entry = registry.get(id).unwrap();
    let errors: Vec<serde_json::Value> = entry
        .load_errors
        .iter()
        .map(|error| match error {
            PluginError::Other(message) => serde_json::Value::String(message.clone()),
            other => serde_json::Value::String(format!("{other:?}")),
        })
        .collect();
    let mut record = serde_json::Map::new();
    record.insert("status".into(), serde_json::Value::String(status_name(entry.status).into()));
    record.insert("errors".into(), serde_json::Value::Array(errors));
    serde_json::Value::Object(record)
}

#[test]
fn save_and_load_state() {
    let id1 = PluginId::parse("p1@mkt").unwrap();
    let id2 = PluginId::parse("p2@mkt").unwrap();
    let mut registry = PluginRegistry::new("/tmp/plugins");
    registry.register(loaded(&id1, false, vec![]));
    registry.register(loaded(&id2, false, vec![]));

    // Enable p1, keep p2 disabled
    registry.enable(&id1, vec![]).unwrap();
    registry.mark_degraded(&id1, vec![PluginError::Other("component failed".into())]);
    let saved = vec![
        (id1.to_string(), saved_record(&registry, &id1)),
        (id2.to_string(), saved_record(&registry, &id2)),
    ];

    // A fresh registry of the same plugins, with the saved state applied
    let mut registry2 = PluginRegistry::new("/tmp/plugins");
    registry2.register(loaded(&id1, false, vec![]));
    registry2.register(loaded(&id2, false, vec![]));
    for (id, record) in &saved {
        registry2.restore_record(id, record);
    }

    assert_eq!(registry2.get(&id1).unwrap().status, PluginStatus::Degraded);
    assert_eq!(
        registry2.get(&id1).unwrap().load_errors[0],
        PluginError::Other("component failed".into())
    );
    assert_eq!(registry2.get(&id2).unwrap().status, PluginStatus::Disabled);
}

#[test]
fn saved_records_are_read_leniently() {
    let id = PluginId::parse("p@m").unwrap();
    let mut registry = PluginRegistry::new("/tmp/plugins");
    registry.register(loaded(&id, false, vec![]));

    // A bare status string is a record too.
    registry.restore_record("p@m", &serde_json::Value::String("enabled".into()));
    assert_eq!(registry.get(&id).unwrap().status, PluginStatus::Enabled);
    assert!(registry.get(&id).unwrap().plugin.enabled);

    // `error` keeps whether the plugin is enabled; non-string errors are skipped.
    let record: serde_json::Value =
        serde_json::from_str(r#"{"status":"error","errors":["boom",3,"again"]}"#).unwrap();
    registry.restore_record("p@m", &record);
    let entry = registry.get(&id).unwrap();
    assert_eq!(entry.status, PluginStatus::Error);
    assert!(entry.plugin.enabled);
    assert_eq!(
        entry.load_errors,
        vec![PluginError::Other("boom".into()), PluginError::Other("again".into())]
    );

    // An unknown status name keeps the status, but the record's (absent) errors replace the old ones.
    registry.restore_record("p@m", &serde_json::Value::String("sleeping".into()));
    assert_eq!(registry.get(&id).unwrap().status, PluginStatus::Error);
    assert!(registry.get(&id).unwrap().load_errors.is_empty());

    // Unknown plugins and records without a status change nothing.
    registry.restore_record("p@m", &record);
    registry.restore_record("q@m", &serde_json::Value::String("disabled".into()));
    registry.restore_record("not an id", &serde_json::Value::String("disabled".into()));
    let no_status: serde_json::Value = serde_json::from_str(r#"{"errors":[]}"#).unwrap();
    registry.restore_record("p@m", &no_status);
    assert_eq!(registry.get(&id).unwrap().status, PluginStatus::Error);
    assert_eq!(registry.get(&id).unwrap().load_errors.len(), 2);

    let (status, errors) = record_fields(&record);
    assert_eq!(status.as_deref(), Some("error"));
    assert_eq!(errors, vec!["boom".to_string(), "again".to_string()]);
    assert_eq!(status_name(PluginStatus::Degraded), "degraded");
}

#[test]
fn partially_loaded_plugins_are_degraded() {
    let id = PluginId::parse("p@m").unwrap();
    let mut registry = PluginRegistry::new("/tmp/plugins");
    registry.register(loaded(&id, true, vec![]));

    let mut tally = ComponentTally::new(id.clone());
    tally.loaded();
    tally.failed(PluginError::ComponentLoadFailed(id.clone(), "tool broken".into()));
    tally.expect(2);
    tally.server_loaded();
    tally.server_failed(PluginError::Other("lsp broken".into()));
    let errors = tally.finish();
    assert_eq!(
        errors,
        vec![
            PluginError::ComponentLoadFailed(id.clone(), "tool broken".into()),
            PluginError::Other("lsp broken".into()),
            PluginError::Degraded { id: id.clone(), loaded: 2, total: 4 },
        ]
    );
    registry.settle(&id, errors.clone());
    let entry = registry.get(&id).unwrap();
    assert_eq!(entry.status, PluginStatus::Degraded);
    assert_eq!(entry.load_errors, errors);

    let mut tally = ComponentTally::new(id.clone());
    tally.loaded();
    tally.loaded();
    let errors = tally.finish();
    assert!(errors.is_empty());
    registry.settle(&id, errors);
    let entry = registry.get(&id).unwrap();
    assert_eq!(entry.status, PluginStatus::Enabled);
    assert!(entry.load_errors.is_empty());

    // A plugin without components loads trivially.
    assert!(ComponentTally::new(id.clone()).finish().is_empty());
}

#[test]
fn refresh_refuses_an_invalid_catalog() {
    let (mut marketplaces, mut registry, id) = setup();
    let mut bad = managed_catalog(true, false);
    bad.name = "not a name".into();
    match registry.refresh_marketplace(&mut marketplaces, "local", bad, None, 1).unwrap_err() {
        PluginError::ManifestValidation { errors } => {
            assert_eq!(errors, vec!["invalid marketplace name `not a name`".to_string()])
        }
        other => panic!("unexpected error: {other:?}"),
    }
    assert!(registry.is_installed(&id));
    assert!(marketplaces.get("local").unwrap().plugins.iter().any(|entry| entry.name == "managed"));
}

#[test]
fn enable_requires_complete_plugin_configuration() {
    let id = PluginId::parse("configured@test").unwrap();
    let mut registry = PluginRegistry::new("/tmp/plugins");
    let mut plugin = loaded(&id, false, vec![]);
    plugin.config = PluginConfigSchema {
        declared: true,
        settings: ConfigValues::new(),
        options: vec![ConfigOption {
            key: "token".into(),
            kind: ConfigOptionType::String,
            title: "Token".into(),
            description: "API token".into(),
            has_bounds: false,
            default: None,
            required: true,
            sensitive: true,
        }],
    };
    registry.register(plugin);

    assert!(matches!(registry.enable(&id, vec![]), Err(PluginError::UserConfigRequired { .. })));
    assert_eq!(registry.get(&id).unwrap().status, PluginStatus::Disabled);

    let mut user = ConfigValues::new();
    user.insert("token".into(), serde_json::Value::String("secret".into()));
    registry.set_config(&id, &user, vec![]).unwrap();
    registry.enable(&id, vec![]).unwrap();
    assert_eq!(registry.get(&id).unwrap().status, PluginStatus::Enabled);
    // Enabling again changes nothing.
    registry.enable(&id, vec![]).unwrap();
    assert_eq!(registry.get(&id).unwrap().status, PluginStatus::Enabled);
}

#[test]
fn enable_refuses_a_plugin_whose_values_fail_outside_checks() {
    let id = PluginId::parse("configured@test").unwrap();
    let mut registry = PluginRegistry::new("/tmp/plugins");
    registry.register(loaded(&id, false, vec![]));
    match registry.enable(&id, vec!["`dir` is not an existing directory".into()]) {
        Err(PluginError::UserConfigValidation { errors }) => {
            assert_eq!(errors, vec!["`dir` is not an existing directory".to_string()])
        }
        other => panic!("unexpected result: {other:?}"),
    }
    assert_eq!(registry.get(&id).unwrap().status, PluginStatus::Disabled);
    let unknown = PluginId::parse("missing@test").unwrap();
    assert!(matches!(registry.enable(&unknown, vec![]), Err(PluginError::PluginNotFound { .. })));
}

#[test]
fn set_config_refuses_values_a_plugin_does_not_declare() {
    let id = PluginId::parse("plain@test").unwrap();
    let mut registry = PluginRegistry::new("/tmp/plugins");
    registry.register(loaded(&id, false, vec![]));
    let mut user = ConfigValues::new();
    user.insert("token".into(), serde_json::Value::String("secret".into()));
    match registry.set_config(&id, &user, vec![]) {
        Err(PluginError::UserConfigValidation { errors }) => {
            assert_eq!(errors, vec!["plugin does not declare userConfig".to_string()])
        }
        other => panic!("unexpected result: {other:?}"),
    }
    assert!(registry.config_store().get(&id).is_none());
}

#[test]
fn saved_state_text_restores_statuses() {
    let id = PluginId::parse("saved@test").unwrap();
    let mut registry = PluginRegistry::new("/tmp/plugins");
    registry.register(loaded(&id, false, vec![]));
    let text = r#"{"version":2,"plugins":{"saved@test":{"status":"degraded","errors":["component failed"]},"gone@test":"enabled"}}"#;
    registry.load_state_text(text).unwrap();
    let entry = registry.get(&id).unwrap();
    assert_eq!(entry.status, PluginStatus::Degraded);
    assert_eq!(entry.load_errors, vec![PluginError::Other("component failed".into())]);
    assert!(matches!(registry.load_state_text("{not json"), Err(PluginError::Json(_))));
    assert_eq!(registry.get(&id).unwrap().status, PluginStatus::Degraded);
}

#[test]
fn state_files_must_declare_the_current_version() {
    let value = telos_agent::plugin_registry::checked_state(br#"{"version":1,"config":{}}"#).unwrap();
    assert!(value.get("config").is_some());
    match telos_agent::plugin_registry::checked_state(br#"{"version":7}"#) {
        Err(PluginError::Other(message)) => {
            assert_eq!(message, "unsupported plugin state version 7; expected 1")
        }
        other => panic!("unexpected result: {other:?}"),
    }
    match telos_agent::plugin_registry::checked_state(br#"{}"#) {
        Err(PluginError::Other(message)) => {
            assert_eq!(message, "unsupported plugin state version 0; expected 1")
        }
        other => panic!("unexpected result: {other:?}"),
    }
    assert!(matches!(telos_agent::plugin_registry::checked_state(b"[1,"), Err(PluginError::Json(_))));
}

#[test]
fn a_plugin_whose_configuration_fails_is_marked_failed_when_applied() {
    let id = PluginId::parse("configured@test").unwrap();
    let mut registry = PluginRegistry::new("/tmp/plugins");
    registry.register(loaded(&id, true, vec![]));
    assert!(registry.config_for_apply(&id, vec![]).is_ok());
    assert_eq!(registry.get(&id).unwrap().status, PluginStatus::Enabled);
    let problem = "`dir` is not an existing directory".to_string();
    match registry.config_for_apply(&id, vec![problem.clone()]) {
        Err(PluginError::UserConfigValidation { errors }) => assert_eq!(errors, vec![problem.clone()]),
        other => panic!("unexpected result: {:?}", other.map(|c| c.values().len())),
    }
    let entry = registry.get(&id).unwrap();
    assert_eq!(entry.status, PluginStatus::Error);
    assert_eq!(entry.load_errors, vec![PluginError::UserConfigValidation { errors: vec![problem] }]);
}
