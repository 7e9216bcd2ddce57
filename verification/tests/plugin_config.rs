use telos_agent::plugin_command::env_get;
use telos_agent::plugin_config::{
    config_key_errors, config_problem_list, output_style_section, validate_manifest_config, scalar_env_value, validate_values, ConfigOption,
    ConfigOptionType, ConfigValues, PluginConfigSchema, ResolvedPluginConfig,
};
use telos_agent::plugin_id::PluginId;
use telos_agent::plugin_tools::PluginError;

fn value(text: &str) -> serde_json::Value {
    serde_json::from_str(text).unwrap()
}

fn values(pairs: &[(&str, &str)]) -> ConfigValues {
    let mut map = ConfigValues::new();
    for (key, json) in pairs {
        map.insert(key.to_string(), value(json));
    }
    map
}

fn option(key: &str, kind: ConfigOptionType, default: Option<serde_json::Value>, required: bool, sensitive: bool) -> ConfigOption {
    ConfigOption {
        key: key.into(),
        kind,
        title: key.into(),
        description: key.into(),
        has_bounds: false,
        default,
        required,
        sensitive,
    }
}

fn manifest_options() -> Vec<ConfigOption> {
    vec![
        option("token", ConfigOptionType::String, None, true, true),
        option("limit", ConfigOptionType::Number, Some(value("3")), false, false),
    ]
}

fn schema(settings: ConfigValues) -> PluginConfigSchema {
    PluginConfigSchema { declared: true, settings, options: manifest_options() }
}

#[test]
fn validates_persists_and_redacts_plugin_configuration() {
    let settings = values(&[("mode", r#""safe""#)]);
    let user = values(&[("token", r#""secret""#)]);
    let resolved = ResolvedPluginConfig::resolve(&settings, &manifest_options(), &user);
    assert_eq!(resolved.values().get("mode"), Some(&value(r#""safe""#)));
    assert_eq!(resolved.values().get("limit"), Some(&value("3")));
    let env = resolved.command_env();
    assert_eq!(env_get(&env, "TELOS_PLUGIN_TOKEN").as_deref(), Some("secret"));
    let redacted = resolved.redacted_values();
    assert_eq!(redacted.get("token"), Some(&value(r#""[REDACTED]""#)));
}

#[test]
fn user_values_override_defaults_and_settings() {
    let settings = values(&[("limit", "1"), ("mode", r#""safe""#)]);
    let user = values(&[("limit", "4")]);
    let resolved = ResolvedPluginConfig::resolve(&settings, &manifest_options(), &user);
    assert_eq!(resolved.values().get("limit"), Some(&value("4")));
    assert_eq!(resolved.values().len(), 2);

    let resolved = ResolvedPluginConfig::resolve(&settings, &manifest_options(), &ConfigValues::new());
    assert_eq!(resolved.values().get("limit"), Some(&value("1")));
    assert!(resolved.values().get("token").is_none());
}

#[test]
fn command_env_exports_every_value_and_the_whole_object() {
    let settings = values(&[("foo-bar", "2"), ("flag", "true"), ("none", "null"), ("name", r#""x y""#)]);
    let resolved = ResolvedPluginConfig::resolve(&settings, &Vec::new(), &ConfigValues::new());
    let env = resolved.command_env();
    assert_eq!(env_get(&env, "TELOS_PLUGIN_FOO_BAR").as_deref(), Some("2"));
    assert_eq!(env_get(&env, "TELOS_PLUGIN_FLAG").as_deref(), Some("true"));
    assert_eq!(env_get(&env, "TELOS_PLUGIN_NONE").as_deref(), Some(""));
    assert_eq!(env_get(&env, "TELOS_PLUGIN_NAME").as_deref(), Some("x y"));
    let whole = env_get(&env, "TELOS_PLUGIN_CONFIG").unwrap();
    assert_eq!(
        value(&whole),
        value(r#"{"foo-bar": 2, "flag": true, "none": null, "name": "x y"}"#)
    );
    assert_eq!(env.len(), 5);
}

#[test]
fn render_template_substitutes_only_non_secret_values() {
    let settings = values(&[("mode", r#""safe""#), ("count", "7")]);
    let user = values(&[("token", r#""secret""#)]);
    let resolved = ResolvedPluginConfig::resolve(&settings, &manifest_options(), &user);
    let text = resolved.render_template("mode=${CONFIG:mode} n=${CONFIG:count} t=${CONFIG:token} ${CONFIG:other}");
    assert_eq!(text, "mode=safe n=7 t=${CONFIG:token} ${CONFIG:other}");
}

#[test]
fn scalar_values_read_as_text() {
    assert_eq!(scalar_env_value(&value(r#""plain""#)), "plain");
    assert_eq!(scalar_env_value(&value("null")), "");
    assert_eq!(scalar_env_value(&value("[1,2]")), "[1,2]");
    assert_eq!(scalar_env_value(&value("false")), "false");
}

#[test]
fn config_values_insert_replaces() {
    let mut map = ConfigValues::new();
    map.insert("a".into(), value("1"));
    map.insert("b".into(), value("2"));
    map.insert("a".into(), value("3"));
    assert_eq!(map.len(), 2);
    assert_eq!(map.get("a"), Some(&value("3")));
    assert!(map.contains_key("b"));
    assert!(!map.contains_key("c"));
    let copy = map.clone();
    assert_eq!(copy.entries(), map.entries());
}

#[test]
fn rejects_reserved_and_colliding_environment_keys() {
    let reserved = config_key_errors(&vec!["config".to_string()]);
    assert!(reserved.iter().any(|error| error.contains("TELOS_PLUGIN_CONFIG")));

    let colliding = config_key_errors(&vec!["foo-bar".to_string(), "foo_bar".to_string()]);
    assert!(colliding.iter().any(|error| error.contains("both map to TELOS_PLUGIN_FOO_BAR")));
}

#[test]
fn config_key_errors_report_each_problem() {
    let errors = config_key_errors(&vec![
        "".to_string(),
        "a.b".to_string(),
        "a.b".to_string(),
        "a-b".to_string(),
    ]);
    assert_eq!(
        errors,
        vec![
            "configuration key `` has no usable environment name".to_string(),
            "configuration keys `a.b` and `a-b` both map to TELOS_PLUGIN_A_B".to_string(),
        ]
    );
    assert!(config_key_errors(&vec!["token".to_string(), "limit".to_string()]).is_empty());
}

#[test]
fn a_missing_required_value_is_refused() {
    let id = PluginId::parse("configured@test").unwrap();
    let settings = values(&[("mode", r#""safe""#)]);
    match ResolvedPluginConfig::resolve_for(&id, &schema(settings.clone()), &ConfigValues::new(), vec![]) {
        Err(PluginError::UserConfigRequired { id: missing }) => assert_eq!(missing, id),
        other => panic!("unexpected result: {:?}", other.map(|c| c.values().len())),
    }
    let user = values(&[("token", r#""secret""#)]);
    let resolved = ResolvedPluginConfig::resolve_for(&id, &schema(settings), &user, vec![]).unwrap();
    assert_eq!(resolved.values().get("token"), Some(&value(r#""secret""#)));
    // A required value that the settings give is there.
    let settings = values(&[("token", r#""from settings""#)]);
    assert!(ResolvedPluginConfig::resolve_for(&id, &schema(settings), &ConfigValues::new(), vec![]).is_ok());
}

#[test]
fn rejects_unknown_and_out_of_range_values() {
    let id = PluginId::parse("configured@test").unwrap();
    let user = values(&[("unknown", "true"), ("limit", "99")]);
    // The range check, on floating-point bounds, is made by the caller and
    // handed in with the other outside problems.
    let outside = vec!["`limit` exceeds its maximum".to_string()];
    match validate_values(&id, &schema(ConfigValues::new()), &user, false, outside) {
        Err(PluginError::UserConfigValidation { errors }) => assert_eq!(
            errors,
            vec!["unknown key `unknown`".to_string(), "`limit` exceeds its maximum".to_string()]
        ),
        other => panic!("unexpected result: {other:?}"),
    }
}

#[test]
fn values_of_the_wrong_kind_are_problems() {
    let user = values(&[("token", "7"), ("limit", r#""three""#)]);
    assert_eq!(
        config_problem_list(&schema(ConfigValues::new()), &user, true),
        vec!["`token` has the wrong type".to_string(), "`limit` has the wrong type".to_string()]
    );
    let fine = values(&[("token", r#""secret""#), ("limit", "4.5")]);
    assert!(config_problem_list(&schema(ConfigValues::new()), &fine, true).is_empty());
}

#[test]
fn missing_values_are_problems_only_for_a_complete_configuration() {
    let empty = ConfigValues::new();
    assert_eq!(
        config_problem_list(&schema(ConfigValues::new()), &empty, true),
        vec!["required key `token` is missing".to_string()]
    );
    assert!(config_problem_list(&schema(ConfigValues::new()), &empty, false).is_empty());
    let id = PluginId::parse("configured@test").unwrap();
    // Where the configuration need not be complete, a missing value is no error.
    assert!(validate_values(&id, &schema(ConfigValues::new()), &empty, false, vec![]).is_ok());
}

#[test]
fn plugins_without_options_take_no_values() {
    let undeclared = PluginConfigSchema::empty();
    assert!(config_problem_list(&undeclared, &ConfigValues::new(), true).is_empty());
    assert_eq!(
        config_problem_list(&undeclared, &values(&[("x", "1")]), false),
        vec!["plugin does not declare userConfig".to_string()]
    );
}

#[test]
fn output_styles_become_named_prompt_sections() {
    let config = ResolvedPluginConfig::resolve(&values(&[("mode", r#""safe""#)]), &Vec::new(), &ConfigValues::new());
    let named = output_style_section("ns", "/opt/p", "/opt/p/styles/a.json", Some("a".into()), Some("terse".into()), "Use ${PLUGIN_ROOT}/bin", &config)
        .unwrap();
    assert_eq!(named, ("plugin_ns_output_style_terse".to_string(), "Use /opt/p/bin".to_string()));
    let by_stem = output_style_section("ns", "/opt/p", "/opt/p/styles/brief.md", Some("brief".into()), None, "Be brief.", &config)
        .unwrap();
    assert_eq!(by_stem.0, "plugin_ns_output_style_brief");
    let fallback = output_style_section("ns", "/opt/p", "/opt/p/styles/..", None, None, "Be brief.", &config).unwrap();
    assert_eq!(fallback.0, "plugin_ns_output_style_style");
    match output_style_section("ns", "/opt/p", "/opt/p/styles/empty.md", Some("empty".into()), None, "  \n ", &config) {
        Err(PluginError::Other(message)) => {
            assert_eq!(message, "output style /opt/p/styles/empty.md has no instructions")
        }
        other => panic!("unexpected result: {other:?}"),
    }
}

#[test]
fn manifest_checks_reject_reserved_and_colliding_keys() {
    let reserved = PluginConfigSchema { declared: false, settings: values(&[("config", r#""bad""#)]), options: vec![] };
    assert!(validate_manifest_config(&reserved, vec![]).iter().any(|error| error.contains("TELOS_PLUGIN_CONFIG")));
    let colliding =
        PluginConfigSchema { declared: false, settings: values(&[("foo-bar", "1"), ("foo_bar", "2")]), options: vec![] };
    assert!(validate_manifest_config(&colliding, vec![])
        .iter()
        .any(|error| error.contains("both map to TELOS_PLUGIN_FOO_BAR")));
}

#[test]
fn option_declarations_are_checked() {
    let mut blank = option("mode", ConfigOptionType::String, Some(value("3")), false, false);
    blank.title = " ".into();
    blank.has_bounds = true;
    let schema = PluginConfigSchema { declared: true, settings: ConfigValues::new(), options: vec![blank] };
    assert_eq!(
        validate_manifest_config(&schema, vec!["userConfig.mode bounds must be finite".into()]),
        vec![
            "userConfig.mode.title must not be empty".to_string(),
            "userConfig.mode bounds require type number".to_string(),
            "`mode` has the wrong type".to_string(),
            "userConfig.mode bounds must be finite".to_string(),
        ]
    );
    assert!(validate_manifest_config(&PluginConfigSchema { declared: true, settings: ConfigValues::new(), options: manifest_options() }, vec![]).is_empty());
}

#[test]
fn prompt_sections_are_named_by_their_file_stem() {
    assert_eq!(telos_agent::plugin_config::prompt_section_name("ns", Some("intro".into())), "plugin_ns_intro");
    assert_eq!(telos_agent::plugin_config::prompt_section_name("ns", None), "plugin_ns_unknown");
}
