//! The remote-config aggregate: the one lookup, and the mutations that keep
//! a parameter name in exactly one container.
use rcm::entry_map::EntryMap;
use rcm::remote_config::{
    Parameter, ParameterGroup, ParameterSource, ParameterValue, ParameterValueType, RemoteConfig,
};

fn parameter(default: &str) -> Parameter {
    Parameter {
        default_value: Some(ParameterValue::Value(default.to_string())),
        conditional_values: EntryMap::new(),
        description: None,
        value_type: ParameterValueType::String,
    }
}

fn config_with_group() -> RemoteConfig {
    let mut config = RemoteConfig::default();
    config.upsert_parameter("root_param".to_string(), parameter("r"));
    let mut group_params = EntryMap::new();
    group_params.insert("grouped_param".to_string(), parameter("g"));
    config.insert_group("metrics".to_string(), Some("metric flags".to_string()), group_params);
    config
}

#[test]
fn lookup_finds_the_single_container() {
    let config = config_with_group();
    assert_eq!(
        config.get_map_for_existing_parameter("root_param"),
        Some(ParameterSource::Root)
    );
    assert_eq!(
        config.get_map_for_existing_parameter("grouped_param"),
        Some(ParameterSource::Group("metrics".to_string()))
    );
}

#[test]
fn lookup_reports_an_absent_name() {
    let config = config_with_group();
    assert_eq!(config.get_map_for_existing_parameter("missing"), None);
    assert!(config.find_parameter_source("missing").is_none());
}

#[test]
fn find_parameter_source_hands_the_value_back() {
    let config = config_with_group();
    let (source, found) = config.find_parameter_source("grouped_param").expect("present");
    assert_eq!(source, ParameterSource::Group("metrics".to_string()));
    assert_eq!(*found, parameter("g"));
}

#[test]
fn upsert_respects_the_owning_container() {
    let mut config = config_with_group();
    // replacing a grouped parameter keeps it in its group, never copying it
    // into the root
    config.upsert_parameter("grouped_param".to_string(), parameter("g2"));
    assert_eq!(
        config.get_map_for_existing_parameter("grouped_param"),
        Some(ParameterSource::Group("metrics".to_string()))
    );
    let (_, found) = config.find_parameter_source("grouped_param").expect("present");
    assert_eq!(*found, parameter("g2"));
    // a fresh name goes to the root
    config.upsert_parameter("fresh".to_string(), parameter("f"));
    assert_eq!(config.get_map_for_existing_parameter("fresh"), Some(ParameterSource::Root));
}

#[test]
fn remove_parameter_takes_the_value_out() {
    let mut config = config_with_group();
    let removed = config.remove_parameter("grouped_param");
    assert_eq!(removed, Some(parameter("g")));
    assert_eq!(config.get_map_for_existing_parameter("grouped_param"), None);
    assert_eq!(config.remove_parameter("grouped_param"), None);
}

#[test]
fn move_out_of_group_lands_in_the_root() {
    let mut config = config_with_group();
    let moved_from = config.move_parameter_out_of_group("grouped_param");
    assert_eq!(moved_from, Some("metrics".to_string()));
    assert_eq!(
        config.get_map_for_existing_parameter("grouped_param"),
        Some(ParameterSource::Root)
    );
    // a root parameter is in no group, so there is nothing to move out
    assert_eq!(config.move_parameter_out_of_group("root_param"), None);
}

#[test]
fn move_into_group_is_remove_then_insert() {
    let mut config = config_with_group();
    let value = config.remove_parameter("root_param").expect("present");
    config.insert_param_into_group_at(0, "root_param".to_string(), value);
    assert_eq!(
        config.get_map_for_existing_parameter("root_param"),
        Some(ParameterSource::Group("metrics".to_string()))
    );
}

#[test]
fn insert_param_to_group_updates_one_group() {
    let mut group = ParameterGroup { description: None, parameters: EntryMap::new() };
    RemoteConfig::insert_param_to_group(&mut group, "p".to_string(), parameter("v"));
    assert_eq!(group.parameters.get("p"), Some(&parameter("v")));
}

#[test]
fn entry_map_keeps_one_entry_per_key() {
    let mut map: EntryMap<ParameterValue> = EntryMap::new();
    map.insert("k".to_string(), ParameterValue::Value("1".to_string()));
    map.insert("k".to_string(), ParameterValue::Value("2".to_string()));
    assert_eq!(map.len(), 1);
    assert_eq!(map.get("k"), Some(&ParameterValue::Value("2".to_string())));
    assert_eq!(map.remove("k"), Some(ParameterValue::Value("2".to_string())));
    assert!(map.is_empty());
}
