//! The generational condition propagator across several destinations.
use rcm::entry_map::EntryMap;
use rcm::remote_config::{
    Condition, Parameter, ParameterValue, ParameterValueType, RemoteConfig, TagColor,
};

fn condition(name: &str, expression: &str) -> Condition {
    Condition {
        name: name.to_string(),
        expression: expression.to_string(),
        tag_color: TagColor::Green,
    }
}

fn parameter_with_overrides(names: &[&str]) -> Parameter {
    let mut conditional_values = EntryMap::new();
    for name in names {
        conditional_values.insert(name.to_string(), ParameterValue::Value("1".to_string()));
    }
    Parameter {
        default_value: Some(ParameterValue::Value("0".to_string())),
        conditional_values,
        description: None,
        value_type: ParameterValueType::String,
    }
}

fn condition_names(config: &RemoteConfig) -> Vec<String> {
    config.conditions.iter().map(|c| c.name.clone()).collect()
}

/// Destinations d1 and d3 lack both conditions; d2 already has the first.
/// Propagation appends the first condition to d1 and d3 only, and the second
/// to all three.
#[test]
fn propagation_appends_only_what_each_destination_lacks() {
    let mut source = RemoteConfig::default();
    source.conditions.push(condition("C1", "device.os == 'ios'"));
    source.conditions.push(condition("C2", "device.country in ['US']"));
    let parameter = parameter_with_overrides(&["C1", "C2"]);
    let mut followed = source.selected_conditions_map(&parameter);

    let mut d1 = RemoteConfig::default();
    let mut d2 = RemoteConfig::default();
    d2.conditions.push(condition("C1", "device.os == 'ios'"));
    let mut d3 = RemoteConfig::default();
    let app_ids: Vec<String> = vec![];

    d1.extend_conditions(&mut followed, 1, &app_ids).expect("first destination");
    d2.extend_conditions(&mut followed, 2, &app_ids).expect("second destination");
    d3.extend_conditions(&mut followed, 3, &app_ids).expect("third destination");

    assert_eq!(condition_names(&d1), vec!["C1", "C2"]);
    assert_eq!(condition_names(&d2), vec!["C1", "C2"]);
    // d2 already had C1: only C2 was appended to it
    assert_eq!(d2.conditions[0].expression, "device.os == 'ios'");
    assert_eq!(condition_names(&d3), vec!["C1", "C2"]);
}

/// A destination seen twice in one run receives each condition only once:
/// the append to it at its first position is re-observed at its second.
#[test]
fn propagation_never_reappends_after_observing() {
    let mut source = RemoteConfig::default();
    source.conditions.push(condition("C1", "device.os == 'ios'"));
    let parameter = parameter_with_overrides(&["C1"]);
    let mut followed = source.selected_conditions_map(&parameter);

    let mut destination = RemoteConfig::default();
    let app_ids: Vec<String> = vec![];
    destination.extend_conditions(&mut followed, 1, &app_ids).expect("first pass");
    assert_eq!(condition_names(&destination), vec!["C1"]);
    // the same live document fetched again at a later position
    destination.extend_conditions(&mut followed, 2, &app_ids).expect("second pass");
    assert_eq!(condition_names(&destination), vec!["C1"]);
}

/// Adding a parameter with one conditional value tied to an app-scoped
/// condition, then propagating with conditional values: the destination ends
/// up with the condition rewritten for its own application identifier and
/// the same override value.
#[test]
fn propagation_rewrites_the_condition_for_the_destination() {
    let main_app_id = "com:app:ios:1";
    let destination_app_id = "com:app:ios:2";

    let mut main_config = RemoteConfig::default();
    main_config.conditions.push(
        condition("Platform", "app.id == 'com:app:ios:1'"),
    );
    let mut overrides = EntryMap::new();
    overrides.insert("Platform".to_string(), ParameterValue::Value("42".to_string()));
    let parameter = Parameter {
        default_value: Some(ParameterValue::Value("0".to_string())),
        conditional_values: overrides,
        description: None,
        value_type: ParameterValueType::String,
    };
    main_config.upsert_parameter("p".to_string(), parameter.clone());
    assert_eq!(main_config.conditions[0].expression, format!("app.id == '{}'", main_app_id));

    let mut followed = main_config.selected_conditions_map(&parameter);
    let mut destination = RemoteConfig::default();
    let app_ids = vec![destination_app_id.to_string()];
    destination.extend_conditions(&mut followed, 1, &app_ids).expect("propagation");
    destination.upsert_parameter("p".to_string(), parameter);

    assert_eq!(condition_names(&destination), vec!["Platform"]);
    assert_eq!(destination.conditions[0].expression, "app.id == 'com:app:ios:2'");
    let propagated = destination.parameters.get("p").expect("parameter present");
    assert_eq!(
        propagated.conditional_values.get("Platform"),
        Some(&ParameterValue::Value("42".to_string()))
    );
    let original = main_config.parameters.get("p").expect("parameter present");
    assert_eq!(
        propagated.conditional_values.get("Platform"),
        original.conditional_values.get("Platform")
    );
}

/// A failed rewrite abandons the destination whole: no partial condition
/// list survives, and presence marks taken before the failure are kept.
#[test]
fn failed_substitution_leaves_the_destination_untouched() {
    let mut source = RemoteConfig::default();
    source.conditions.push(condition("Present", "device.os == 'ios'"));
    source.conditions.push(condition("Scoped", "app.id == 'com:app:ios:1'"));
    let parameter = parameter_with_overrides(&["Present", "Scoped"]);
    let mut followed = source.selected_conditions_map(&parameter);

    let mut destination = RemoteConfig::default();
    destination.conditions.push(condition("Present", "device.os == 'ios'"));
    let app_ids = vec!["com:app:android:2".to_string()];
    let result = destination.extend_conditions(&mut followed, 1, &app_ids);
    let error = result.err().expect("no identifier of the platform");
    assert_eq!(
        error.message,
        "App ID for compatible platform ios was not found for this project"
    );
    assert_eq!(condition_names(&destination), vec!["Present"]);
}

/// Only conditions the parameter references are followed at all.
#[test]
fn seeding_tracks_only_referenced_conditions() {
    let mut source = RemoteConfig::default();
    source.conditions.push(condition("Used", "device.os == 'ios'"));
    source.conditions.push(condition("Unused", "device.os == 'android'"));
    let parameter = parameter_with_overrides(&["Used"]);
    let followed = source.selected_conditions_map(&parameter);
    assert_eq!(followed.len(), 1);
    assert!(followed.contains_key("Used"));
    assert!(!followed.contains_key("Unused"));
}
