use telos_agent::marketplace::{MarketplaceSource, PluginStatus};
use telos_agent::marketplace_registry::{Marketplace, MarketplaceEntry, MarketplaceRegistry};
use telos_agent::plugin_closure::{closure_step, ClosureAction, ClosureEvent, ClosureState};
use telos_agent::plugin_graph::DependencyNode;
use telos_agent::plugin_id::PluginId;
use telos_agent::plugin_install::{check_requirements, check_upgrade, plan_install, VersionRequirement};
use telos_agent::plugin_manifest::{DependencyRef, PluginSource};
use telos_agent::plugin_registry::{LoadedPlugin, PluginRegistry};
use telos_agent::plugin_tools::{DependencyReason, PluginError};

fn id(text: &str) -> PluginId {
    PluginId::parse(text).unwrap()
}

fn version(text: &str) -> semver::Version {
    semver::Version::parse(text).unwrap()
}

fn requirement(name: &str, req: &str) -> DependencyRef {
    DependencyRef { name: name.into(), marketplace: None, version: semver::VersionReq::parse(req).unwrap() }
}

fn installed(plugin: &PluginId, v: &str, dependencies: Vec<DependencyRef>) -> LoadedPlugin {
    LoadedPlugin {
        id: plugin.clone(),
        version: version(v),
        dependencies,
        path: "/tmp/plugins/installed".into(),
        source: PluginSource::Local { path: "/tmp/plugins/source".into() },
        enabled: false,
        is_builtin: false,
        resolved_tools: vec![],
        resolved_skills: vec![],
        resolved_agents: vec![],
        resolved_prompt_sections: vec![],
        resolved_output_styles: vec![],
        config: telos_agent::plugin_config::PluginConfigSchema::empty(),
    }
}

fn prepared(plugin: &PluginId, v: &str, dependencies: Vec<DependencyRef>) -> DependencyNode {
    DependencyNode { id: plugin.clone(), version: version(v), active: false, dependencies }
}

fn needs(plugin: &PluginId, req: &str, by: &PluginId) -> VersionRequirement {
    VersionRequirement {
        plugin: plugin.clone(),
        version: semver::VersionReq::parse(req).unwrap(),
        required_by: by.clone(),
    }
}

#[test]
fn installing_a_plugin_with_a_new_dependency_changes_both() {
    let registry = PluginRegistry::new("/tmp/plugins");
    let app = id("app@m");
    let lib = id("lib@m");
    let plan = vec![prepared(&lib, "1.2.0", vec![]), prepared(&app, "1.0.0", vec![requirement("lib", "^1")])];
    let requirements = vec![needs(&lib, "^1", &app)];
    assert!(check_requirements(&registry, &plan, &requirements).is_ok());
    let changes = plan_install(&registry, &plan, &requirements, &app, false).unwrap();
    assert_eq!(changes, vec![lib, app]);
}

#[test]
fn unchanged_installed_plugins_are_not_replaced() {
    let mut registry = PluginRegistry::new("/tmp/plugins");
    let app = id("app@m");
    let lib = id("lib@m");
    registry.register(installed(&lib, "1.2.0", vec![]));
    let plan = vec![prepared(&lib, "1.2.0", vec![]), prepared(&app, "1.0.0", vec![requirement("lib", "^1")])];
    let requirements = vec![needs(&lib, "^1", &app)];
    assert_eq!(plan_install(&registry, &plan, &requirements, &app, false).unwrap(), vec![app.clone()]);
    // Upgrading the root replaces it even at the same version.
    let plan = vec![prepared(&lib, "1.2.0", vec![])];
    assert_eq!(plan_install(&registry, &plan, &vec![], &lib, true).unwrap(), vec![lib]);
}

#[test]
fn missing_and_conflicting_requirements_are_refused() {
    let mut registry = PluginRegistry::new("/tmp/plugins");
    let app = id("app@m");
    let lib = id("lib@m");
    let plan = vec![prepared(&app, "1.0.0", vec![requirement("lib", "^2")])];
    let missing = vec![needs(&lib, "^2", &app)];
    match check_requirements(&registry, &plan, &missing).unwrap_err() {
        PluginError::DependencyUnsatisfied { dependency, reason } => {
            assert_eq!(dependency, "lib@m");
            assert_eq!(reason, DependencyReason::NotFound);
        }
        other => panic!("unexpected error: {other:?}"),
    }
    registry.register(installed(&lib, "1.5.0", vec![]));
    match plan_install(&registry, &plan, &missing, &app, false).unwrap_err() {
        PluginError::DependencyVersionConflict { plugin, actual, required_by, .. } => {
            assert_eq!(*plugin, lib);
            assert_eq!(*actual, version("1.5.0"));
            assert_eq!(*required_by, app);
        }
        other => panic!("unexpected error: {other:?}"),
    }
}

/// Plan an install of `root` from `plan` and, when it passes, put the
/// changed plugins in the registry.
fn install(
    registry: &mut PluginRegistry,
    plan: &[DependencyNode],
    requirements: &[VersionRequirement],
    root: &PluginId,
    upgrading: bool,
) -> Result<(), PluginError> {
    let plan = plan.to_vec();
    let changes = plan_install(registry, &plan, &requirements.to_vec(), root, upgrading)?;
    for node in plan.iter().filter(|node| changes.contains(&node.id)) {
        registry.install_prepared(installed(&node.id, &node.version.to_string(), node.dependencies.clone()));
    }
    Ok(())
}

#[test]
fn transactional_local_install_resolves_dependencies_upgrades_and_uninstalls() {
    let mut registry = PluginRegistry::new("/tmp/plugins");
    let app = id("app@test");
    let base = id("base@test");
    let plan = vec![
        prepared(&base, "1.0.0", vec![]),
        prepared(&app, "1.0.0", vec![requirement("base", "^1")]),
    ];
    install(&mut registry, &plan, &[needs(&base, "^1", &app)], &app, false).unwrap();
    assert!(registry.is_installed(&app));
    assert!(registry.is_installed(&base));
    assert!(matches!(registry.uninstall(&base), Err(PluginError::DependencyRequiredBy { .. })));

    registry.enable(&base, vec![]).unwrap();
    registry.enable(&app, vec![]).unwrap();

    check_upgrade(&registry, &app).unwrap();
    let plan = vec![prepared(&app, "2.0.0", vec![requirement("base", "^1")])];
    install(&mut registry, &plan, &[needs(&base, "^1", &app)], &app, true).unwrap();
    assert_eq!(registry.get(&app).unwrap().plugin.version, semver::Version::new(2, 0, 0));
    assert_eq!(registry.get(&app).unwrap().status, PluginStatus::Enabled);

    let missing = id("missing@test");
    let plan = vec![prepared(&app, "3.0.0", vec![requirement("missing", "^1")])];
    assert!(install(&mut registry, &plan, &[needs(&missing, "^1", &app)], &app, true).is_err());
    assert_eq!(registry.get(&app).unwrap().plugin.version, semver::Version::new(2, 0, 0));
    assert_eq!(registry.get(&app).unwrap().status, PluginStatus::Enabled);

    registry.disable(&app).unwrap();
    registry.uninstall(&app).unwrap();
    registry.disable(&base).unwrap();
    registry.uninstall(&base).unwrap();
    assert!(registry.is_empty());
}

#[test]
fn upgrades_need_an_installed_plugin() {
    let mut registry = PluginRegistry::new("/tmp/plugins");
    let lib = id("lib@m");
    assert!(matches!(check_upgrade(&registry, &lib).unwrap_err(), PluginError::PluginNotFound { .. }));
    registry.install_prepared(installed(&lib, "1.0.0", vec![]));
    assert_eq!(registry.get(&lib).unwrap().status, PluginStatus::Disabled);
    assert!(check_upgrade(&registry, &lib).is_ok());
}

#[test]
fn planned_cycles_are_refused() {
    let registry = PluginRegistry::new("/tmp/plugins");
    let a = id("a@m");
    let b = id("b@m");
    let plan = vec![
        prepared(&a, "1.0.0", vec![requirement("b", "^1")]),
        prepared(&b, "1.0.0", vec![requirement("a", "^1")]),
    ];
    let requirements = vec![needs(&b, "^1", &a), needs(&a, "^1", &b)];
    assert!(matches!(
        plan_install(&registry, &plan, &requirements, &a, false).unwrap_err(),
        PluginError::CircularDependency { .. }
    ));
}

fn listing(names: &[&str]) -> MarketplaceRegistry {
    let mut registry = MarketplaceRegistry::new("/cache");
    let plugins = names
        .iter()
        .map(|name| MarketplaceEntry {
            name: name.to_string(),
            description: None,
            version: version("1.0.0"),
            source: PluginSource::Local { path: format!("./{name}") },
            category: None,
            tags: vec![],
            strict: true,
            manifest_override: None,
        })
        .collect();
    let catalog = Marketplace {
        name: "mkt".into(),
        owner: None,
        plugins,
        allow_cross_marketplace_deps_on: None,
        force_remove_deleted_plugins: false,
    };
    registry.restore_cached("mkt".into(), MarketplaceSource::Local { path: "/srv/mkt".into() }, None, 0, catalog);
    registry
}

/// Run the walk from `root`, answering each fetch from `manifests`.
fn walk(
    registry: &PluginRegistry,
    marketplaces: &MarketplaceRegistry,
    root: &str,
    manifests: &[(&str, Vec<DependencyRef>)],
) -> Result<(Vec<PluginId>, Vec<VersionRequirement>), PluginError> {
    let mut state = ClosureState::new(id(root));
    let mut event = ClosureEvent::Continue;
    let mut fetched = Vec::new();
    loop {
        match closure_step(&mut state, registry, marketplaces, event) {
            ClosureAction::Prepare(plugin) => {
                fetched.push(plugin.to_string());
                let dependencies = manifests
                    .iter()
                    .find(|(name, _)| id(name) == plugin)
                    .map(|(_, deps)| deps.clone())
                    .unwrap_or_default();
                event = ClosureEvent::Prepared { dependencies };
            }
            ClosureAction::Continue => event = ClosureEvent::Continue,
            ClosureAction::Done { order, requirements } => return Ok((order, requirements)),
            ClosureAction::Fail(error) => return Err(error),
        }
    }
}

#[test]
fn the_requirement_walk_prepares_what_is_missing_in_order() {
    let marketplaces = listing(&["app", "base", "util"]);
    let mut registry = PluginRegistry::new("/tmp/plugins");
    registry.register(installed(&id("util@mkt"), "1.2.0", vec![]));
    let manifests = [
        ("app@mkt", vec![requirement("base", "^1"), requirement("util", "^1")]),
        ("base@mkt", vec![]),
    ];
    let (order, requirements) = walk(&registry, &marketplaces, "app@mkt", &manifests).unwrap();
    // `util` is installed at a version the requirement accepts: it is not prepared.
    assert_eq!(order, vec![id("base@mkt"), id("app@mkt")]);
    assert_eq!(requirements.len(), 2);
    assert_eq!(requirements[0].plugin, id("base@mkt"));
    assert_eq!(requirements[0].required_by, id("app@mkt"));
    assert_eq!(requirements[1].plugin, id("util@mkt"));
}

#[test]
fn the_requirement_walk_finds_cycles_and_unlisted_plugins() {
    let marketplaces = listing(&["a", "b"]);
    let registry = PluginRegistry::new("/tmp/plugins");
    let manifests = [("a@mkt", vec![requirement("b", "^1")]), ("b@mkt", vec![requirement("a", "^1")])];
    match walk(&registry, &marketplaces, "a@mkt", &manifests) {
        Err(PluginError::CircularDependency { cycle }) => {
            assert_eq!(cycle, vec![id("a@mkt"), id("b@mkt"), id("a@mkt")])
        }
        other => panic!("unexpected result: {other:?}"),
    }
    let manifests = [("a@mkt", vec![requirement("missing", "^1")])];
    match walk(&registry, &marketplaces, "a@mkt", &manifests) {
        Err(PluginError::PluginNotFound { plugin_id, marketplace }) => {
            assert_eq!(plugin_id, "missing@mkt");
            assert_eq!(marketplace, "mkt");
        }
        other => panic!("unexpected result: {other:?}"),
    }
}
