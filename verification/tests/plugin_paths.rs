use telos_agent::plugin_paths::{
    check_plugin_file, check_resolved_plugin_file, is_inside_root, path_escapes_root,
    safe_relative_path,
};
use telos_agent::plugin_tools::PluginError;

#[test]
fn relative_paths_inside_the_root_are_safe() {
    assert_eq!(safe_relative_path("plugins/tool").unwrap(), "plugins/tool");
    assert_eq!(safe_relative_path("./a/b").unwrap(), "./a/b");
    assert_eq!(safe_relative_path("a/..b/c").unwrap(), "a/..b/c");
    assert!(!path_escapes_root(""));
    assert!(!path_escapes_root("..."));
}

#[test]
fn absolute_and_parent_paths_are_unsafe() {
    match safe_relative_path("../outside").unwrap_err() {
        PluginError::Other(message) => assert_eq!(message, "unsafe relative path `../outside`"),
        other => panic!("unexpected error: {other:?}"),
    }
    assert!(safe_relative_path("/etc/passwd").is_err());
    assert!(safe_relative_path("a/../../b").is_err());
    assert!(safe_relative_path("a/..").is_err());
    assert!(path_escapes_root(".."));
}

#[test]
fn plugin_files_must_stay_in_the_plugin_root() {
    assert!(check_plugin_file("config/settings.json").is_ok());
    match check_plugin_file("../secrets.json").unwrap_err() {
        PluginError::ManifestValidation { errors } => assert_eq!(
            errors,
            vec!["plugin config path `../secrets.json` escapes plugin root".to_string()]
        ),
        other => panic!("unexpected error: {other:?}"),
    }
}

#[test]
fn resolved_files_are_checked_component_wise() {
    assert!(is_inside_root("/opt/plugin/a.json", "/opt/plugin"));
    assert!(is_inside_root("/opt/plugin", "/opt/plugin"));
    assert!(is_inside_root("/etc", "/"));
    assert!(!is_inside_root("/opt/plugin-other/a.json", "/opt/plugin"));
    assert!(!is_inside_root("/opt", "/opt/plugin"));
    assert!(check_resolved_plugin_file("a.json", "/opt/plugin", "/opt/plugin/a.json").is_ok());
    match check_resolved_plugin_file("link.json", "/opt/plugin", "/etc/passwd").unwrap_err() {
        PluginError::ManifestValidation { errors } => assert_eq!(
            errors,
            vec!["plugin config path `link.json` resolves outside plugin root".to_string()]
        ),
        other => panic!("unexpected error: {other:?}"),
    }
}
