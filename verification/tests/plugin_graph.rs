use telos_agent::plugin_graph::{
    dependents_of, find_node, validate_dependencies, validate_manifest_cycles,
    validate_planned_graph, DependencyNode,
};
use telos_agent::plugin_id::PluginId;
use telos_agent::plugin_manifest::{version_req_matches, DependencyRef};
use telos_agent::plugin_tools::{DependencyReason, PluginError};

fn id(text: &str) -> PluginId {
    PluginId::parse(text).unwrap()
}

fn dep(name: &str, marketplace: Option<&str>, req: &str) -> DependencyRef {
    DependencyRef {
        name: name.into(),
        marketplace: marketplace.map(str::to_string),
        version: semver::VersionReq::parse(req).unwrap(),
    }
}

fn node(text: &str, version: &str, active: bool, dependencies: Vec<DependencyRef>) -> DependencyNode {
    DependencyNode {
        id: id(text),
        version: semver::Version::parse(version).unwrap(),
        active,
        dependencies,
    }
}

fn cycle_names(error: PluginError) -> Vec<String> {
    match error {
        PluginError::CircularDependency { cycle } => cycle.iter().map(|id| id.to_string()).collect(),
        other => panic!("unexpected error {other:?}"),
    }
}

#[test]
fn chain_of_enabled_dependencies_is_sound() {
    let nodes = vec![
        node("app@mkt", "1.0.0", true, vec![dep("lib", None, "^1")]),
        node("lib@mkt", "1.2.0", true, vec![dep("core", Some("other"), ">=2")]),
        node("core@other", "2.0.0", true, vec![]),
    ];
    assert!(validate_dependencies(&nodes, &id("app@mkt")).is_ok());
    assert!(validate_manifest_cycles(&nodes).is_ok());
    assert!(validate_planned_graph(&nodes).is_ok());
}

#[test]
fn missing_root_is_not_found() {
    let nodes = vec![node("lib@mkt", "1.0.0", true, vec![])];
    match validate_dependencies(&nodes, &id("app@mkt")).unwrap_err() {
        PluginError::PluginNotFound { plugin_id, marketplace } => {
            assert_eq!(plugin_id, "app@mkt");
            assert_eq!(marketplace, "mkt");
        },
        other => panic!("unexpected error {other:?}"),
    }
}

#[test]
fn missing_disabled_and_mismatched_dependencies_are_reported() {
    let missing = vec![node("app@mkt", "1.0.0", true, vec![dep("lib", None, "^1")])];
    match validate_dependencies(&missing, &id("app@mkt")).unwrap_err() {
        PluginError::DependencyUnsatisfied { dependency, reason } => {
            assert_eq!(dependency, "lib@mkt");
            assert_eq!(reason, DependencyReason::NotFound);
        },
        other => panic!("unexpected error {other:?}"),
    }

    let disabled = vec![
        node("app@mkt", "1.0.0", true, vec![dep("lib", None, "^1")]),
        node("lib@mkt", "1.0.0", false, vec![]),
    ];
    match validate_dependencies(&disabled, &id("app@mkt")).unwrap_err() {
        PluginError::DependencyUnsatisfied { dependency, reason } => {
            assert_eq!(dependency, "lib@mkt");
            assert_eq!(reason, DependencyReason::NotEnabled);
        },
        other => panic!("unexpected error {other:?}"),
    }
    assert!(validate_planned_graph(&disabled).is_ok());

    let mismatched = vec![
        node("app@mkt", "1.0.0", true, vec![dep("lib", None, "^2")]),
        node("lib@mkt", "1.5.0", true, vec![]),
    ];
    match validate_dependencies(&mismatched, &id("app@mkt")).unwrap_err() {
        PluginError::DependencyVersionConflict { plugin, required, actual, required_by } => {
            assert_eq!(plugin.to_string(), "lib@mkt");
            assert_eq!(*required, semver::VersionReq::parse("^2").unwrap());
            assert_eq!(*actual, semver::Version::parse("1.5.0").unwrap());
            assert_eq!(required_by.to_string(), "app@mkt");
        },
        other => panic!("unexpected error {other:?}"),
    }
    assert!(validate_planned_graph(&mismatched).is_err());
}

#[test]
fn cycles_are_reported_with_their_path() {
    let nodes = vec![
        node("a@mkt", "1.0.0", true, vec![dep("b", None, "*")]),
        node("b@mkt", "1.0.0", true, vec![dep("c", None, "*")]),
        node("c@mkt", "1.0.0", true, vec![dep("b", None, "*")]),
    ];
    assert_eq!(
        cycle_names(validate_dependencies(&nodes, &id("a@mkt")).unwrap_err()),
        vec!["b@mkt", "c@mkt", "b@mkt"]
    );
    assert_eq!(
        cycle_names(validate_manifest_cycles(&nodes).unwrap_err()),
        vec!["b@mkt", "c@mkt", "b@mkt"]
    );
    assert!(matches!(
        validate_planned_graph(&nodes),
        Err(PluginError::CircularDependency { .. })
    ));
}

#[test]
fn a_plugin_requiring_itself_is_a_cycle() {
    let nodes = vec![node("solo@mkt", "1.0.0", true, vec![dep("solo", None, "*")])];
    assert_eq!(
        cycle_names(validate_manifest_cycles(&nodes).unwrap_err()),
        vec!["solo@mkt", "solo@mkt"]
    );
}

#[test]
fn manifests_may_name_plugins_outside_the_set() {
    let nodes = vec![node("a@mkt", "1.0.0", true, vec![dep("elsewhere", Some("x"), "*")])];
    assert!(validate_manifest_cycles(&nodes).is_ok());
    match validate_planned_graph(&nodes).unwrap_err() {
        PluginError::DependencyUnsatisfied { dependency, reason } => {
            assert_eq!(dependency, "elsewhere@x");
            assert_eq!(reason, DependencyReason::NotFound);
        },
        other => panic!("unexpected error {other:?}"),
    }
}

#[test]
fn dependents_lists_plugins_that_require_one() {
    let nodes = vec![
        node("a@mkt", "1.0.0", true, vec![dep("lib", None, "*")]),
        node("b@mkt", "1.0.0", false, vec![dep("lib", Some("mkt"), "*")]),
        node("lib@mkt", "1.0.0", true, vec![dep("lib", None, "*")]),
        node("c@mkt", "1.0.0", true, vec![]),
    ];
    let all: Vec<String> =
        dependents_of(&nodes, &id("lib@mkt"), false).iter().map(|id| id.to_string()).collect();
    assert_eq!(all, vec!["a@mkt", "b@mkt"]);
    let active: Vec<String> =
        dependents_of(&nodes, &id("lib@mkt"), true).iter().map(|id| id.to_string()).collect();
    assert_eq!(active, vec!["a@mkt"]);
    assert_eq!(find_node(&nodes, &id("c@mkt")), Some(3));
    assert_eq!(find_node(&nodes, &id("c@other")), None);
}

#[test]
fn version_requirements_follow_semver() {
    let req = semver::VersionReq::parse(">=2, <3").unwrap();
    assert!(version_req_matches(&req, &semver::Version::parse("2.4.1").unwrap()));
    assert!(!version_req_matches(&req, &semver::Version::parse("3.0.0").unwrap()));
}
