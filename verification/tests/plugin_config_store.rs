use telos_agent::plugin_config::{ConfigOption, ConfigOptionType, ConfigValues, PluginConfigSchema};
use telos_agent::plugin_config_store::PluginConfigStore;
use telos_agent::plugin_id::PluginId;
use telos_agent::plugin_tools::PluginError;

fn value(text: &str) -> serde_json::Value {
    serde_json::from_str(text).unwrap()
}

fn values(pairs: &[(&str, &str)]) -> ConfigValues {
    let mut map = ConfigValues::new();
    for (key, json) in pairs {
        map.insert(key.to_string(), value(json));
    }
    map
}

fn option(key: &str, kind: ConfigOptionType, default: Option<serde_json::Value>, required: bool, sensitive: bool) -> ConfigOption {
    ConfigOption {
        key: key.into(),
        kind,
        title: key.into(),
        description: key.into(),
        has_bounds: false,
        default,
        required,
        sensitive,
    }
}

fn schema() -> PluginConfigSchema {
    PluginConfigSchema {
        declared: true,
        settings: values(&[("mode", r#""safe""#)]),
        options: vec![
            option("token", ConfigOptionType::String, None, true, true),
            option("limit", ConfigOptionType::Number, Some(value("3")), false, false),
        ],
    }
}

fn configured() -> PluginId {
    PluginId::parse("configured@test").unwrap()
}

#[test]
fn partial_updates_preserve_existing_sensitive_values() {
    let id = configured();
    let mut store = PluginConfigStore::new("state.json");
    store.set(id.clone(), &schema(), &values(&[("token", r#""secret""#)]), vec![]).unwrap();
    store.set(id.clone(), &schema(), &values(&[("limit", "4")]), vec![]).unwrap();

    let resolved = store.resolve(&id, &schema(), vec![]).unwrap();
    assert_eq!(resolved.values().get("token"), Some(&value(r#""secret""#)));
    assert_eq!(resolved.values().get("limit"), Some(&value("4")));
    assert_eq!(resolved.values().get("mode"), Some(&value(r#""safe""#)));
}

#[test]
fn resolving_without_a_required_value_is_refused() {
    let id = configured();
    let store = PluginConfigStore::new("state.json");
    match store.resolve(&id, &schema(), vec![]) {
        Err(PluginError::UserConfigRequired { id: missing }) => assert_eq!(missing, id),
        other => panic!("unexpected result: {:?}", other.map(|c| c.values().len())),
    }
}

#[test]
fn refused_values_leave_the_store_unchanged() {
    let id = configured();
    let mut store = PluginConfigStore::new("state.json");
    store.set(id.clone(), &schema(), &values(&[("token", r#""secret""#)]), vec![]).unwrap();
    match store.set(id.clone(), &schema(), &values(&[("unknown", "true"), ("limit", "2")]), vec![]) {
        Err(PluginError::UserConfigValidation { errors }) => {
            assert_eq!(errors, vec!["unknown key `unknown`".to_string()])
        }
        other => panic!("unexpected result: {other:?}"),
    }
    let kept = store.get(&id).unwrap();
    assert_eq!(kept.len(), 1);
    assert_eq!(kept.get("token"), Some(&value(r#""secret""#)));
}

#[test]
fn stores_keep_plugins_apart_and_clear_one() {
    let id = configured();
    let other = PluginId::parse("configured@elsewhere").unwrap();
    let mut store = PluginConfigStore::new("state.json");
    assert_eq!(store.path(), "state.json");
    store.put(id.clone(), values(&[("token", r#""one""#)]));
    store.put(other.clone(), values(&[("token", r#""two""#)]));
    assert_eq!(store.get(&id).unwrap().get("token"), Some(&value(r#""one""#)));
    assert_eq!(store.get(&other).unwrap().get("token"), Some(&value(r#""two""#)));

    let replaced = store.put(id.clone(), values(&[("limit", "2")])).unwrap();
    assert_eq!(replaced.get("token"), Some(&value(r#""one""#)));
    assert!(!store.get(&id).unwrap().contains_key("token"));

    let cleared = store.clear(&id).unwrap();
    assert_eq!(cleared.get("limit"), Some(&value("2")));
    assert!(store.get(&id).is_none());
    assert!(store.clear(&id).is_none());
    assert!(store.get(&other).is_some());
    assert_eq!(store.ids(), vec![other]);
}

#[test]
fn merged_values_take_the_new_ones_over_the_stored() {
    let id = configured();
    let mut store = PluginConfigStore::new("state.json");
    store.put(id.clone(), values(&[("token", r#""old""#), ("limit", "1")]));
    let merged = store.merged(&id, &values(&[("token", r#""new""#)]));
    assert_eq!(merged.get("token"), Some(&value(r#""new""#)));
    assert_eq!(merged.get("limit"), Some(&value("1")));
    // The store itself is unchanged.
    assert_eq!(store.get(&id).unwrap().get("token"), Some(&value(r#""old""#)));
}
