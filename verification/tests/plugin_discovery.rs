use telos_agent::plugin_discovery::{loaded_plugin_from_manifest, sort_paths, ManifestFields};
use telos_agent::plugin_id::PluginId;
use telos_agent::plugin_manifest::PluginSource;
use telos_agent::plugin_tools::PluginError;

fn fields(name: &str, tools: Option<Vec<&str>>) -> ManifestFields {
    ManifestFields {
        name: name.into(),
        version: semver::Version::new(1, 0, 0),
        dependencies: vec![],
        tools: tools.map(|t| t.into_iter().map(String::from).collect()),
        skills: Some(vec!["skills/review.md".into()]),
        agents: None,
        prompt_sections: None,
        output_styles: None,
        config: telos_agent::plugin_config::PluginConfigSchema::empty(),
    }
}

const DIR: &str = "/tmp/plugins/installed/test-plugin@mkt";

#[test]
fn discovered_plugins_take_their_id_from_the_directory() {
    let plugin = loaded_plugin_from_manifest(
        DIR,
        "test-plugin@mkt",
        fields("test-plugin", Some(vec!["./tools/hello.json"])),
        false,
        false,
        vec![format!("{DIR}/tools/hello.json"), format!("{DIR}/tools/alpha.json")],
    )
    .unwrap();
    assert_eq!(plugin.id, PluginId::parse("test-plugin@mkt").unwrap());
    assert!(!plugin.enabled);
    assert_eq!(plugin.path, DIR);
    assert!(matches!(plugin.source, PluginSource::Local { ref path } if path == DIR));
    // The declared tool and the one found are the same file: it is kept once.
    assert_eq!(
        plugin.resolved_tools,
        vec![format!("{DIR}/tools/alpha.json"), format!("{DIR}/tools/hello.json")]
    );
    assert_eq!(plugin.resolved_skills, vec![format!("{DIR}/skills/review.md")]);
    assert!(plugin.resolved_agents.is_empty());
}

#[test]
fn a_directory_that_is_no_id_gives_the_unknown_marketplace() {
    let plugin =
        loaded_plugin_from_manifest("/tmp/x/odd dir", "odd dir", fields("named", None), false, false, vec![])
            .unwrap();
    assert_eq!(plugin.id, PluginId { name: "named".into(), marketplace: "unknown".into() });
}

#[test]
fn removed_fields_and_empty_names_are_refused() {
    let refused = |hooks, interceptors, name: &str| {
        match loaded_plugin_from_manifest(DIR, "p@m", fields(name, None), hooks, interceptors, vec![]) {
            Err(PluginError::ManifestValidation { errors }) => errors,
            other => panic!("unexpected result: {other:?}"),
        }
    };
    let removed = vec!["the `hooks` and `interceptors` plugin fields were removed; use `policies`".to_string()];
    assert_eq!(refused(true, false, "p"), removed);
    assert_eq!(refused(false, true, ""), removed);
    assert_eq!(refused(false, false, ""), vec!["name must not be empty".to_string()]);
}

#[test]
fn paths_sort_component_by_component() {
    let sorted = sort_paths(vec![
        "/a-b".into(),
        "/a/b".into(),
        "/a".into(),
        "/a/b".into(),
    ]);
    assert_eq!(sorted, vec!["/a".to_string(), "/a/b".to_string(), "/a-b".to_string()]);
}

#[test]
fn removed_manifest_fields_are_noticed() {
    let raw: serde_json::Value = serde_json::from_str(r#"{"name":"x","hooks":{}}"#).unwrap();
    assert_eq!(telos_agent::plugin_discovery::removed_fields(&raw), (true, false));
    let raw: serde_json::Value = serde_json::from_str(r#"{"name":"x","interceptors":[]}"#).unwrap();
    assert_eq!(telos_agent::plugin_discovery::removed_fields(&raw), (false, true));
}
