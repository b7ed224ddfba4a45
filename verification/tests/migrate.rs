//! The migrate flow: the source-minus-destination delta and its application.
use rcm::config::Project;
use rcm::entry_map::EntryMap;
use rcm::migrate_command::MigrateCommand;
use rcm::network::ResponseWithEtag;
use rcm::remote_config::{
    Parameter, ParameterSource, ParameterValue, ParameterValueType, RemoteConfig,
};

#[test]
fn new_parameter_added_to_root() {
    let expected_etag = "e_tag";
    let parameter_name = "upload_logs";
    let source_project = Project::new("Source".to_string(), "123".to_string(), vec![]);
    let expected_config = RemoteConfig::new_with_root_stub_parameter(parameter_name);
    let destination_project = Project::new("Destination".to_string(), "345".to_string(), vec![]);

    let command =
        MigrateCommand::new(source_project, vec![destination_project]);

    // what the two reads hand back: the source holds the stub parameter, the
    // destination is empty, both under their version tokens
    let source_response = ResponseWithEtag {
        etag: expected_etag.to_string(),
        data: RemoteConfig::new_with_root_stub_parameter(parameter_name),
    };
    let destination_response =
        ResponseWithEtag { etag: expected_etag.to_string(), data: RemoteConfig::default() };

    let source = source_response.data;
    let mut destination = destination_response.data;
    assert_eq!(command.destinations.len(), 1);
    let existing = destination.existing_parameter_names();
    let delta = source.find_new_parameters(&existing);
    assert_eq!(delta.len(), 1);
    destination.apply_new_parameters(delta);

    // the write carries the destination's token and the migrated document
    assert_eq!(destination_response.etag, expected_etag);
    assert_eq!(destination, expected_config);
}

#[test]
fn migrated_parameter_keeps_default_and_drops_conditions() {
    // a boolean parameter defaulting to false, with no conditions, present
    // only in the source: after migration the destination holds it with the
    // same default and no conditional values
    let mut source = RemoteConfig::default();
    let mut conditional_values = EntryMap::new();
    conditional_values.insert(
        "SomeCondition".to_string(),
        ParameterValue::Value("true".to_string()),
    );
    source.upsert_parameter(
        "upload_logs".to_string(),
        Parameter {
            default_value: Some(ParameterValue::Value("false".to_string())),
            conditional_values,
            description: None,
            value_type: ParameterValueType::Boolean,
        },
    );
    let mut destination = RemoteConfig::default();
    let existing = destination.existing_parameter_names();
    let delta = source.find_new_parameters(&existing);
    destination.apply_new_parameters(delta);

    let migrated = destination.parameters.get("upload_logs").expect("migrated");
    assert_eq!(migrated.default_value, Some(ParameterValue::Value("false".to_string())));
    assert!(migrated.conditional_values.is_empty());
    assert_eq!(migrated.value_type, ParameterValueType::Boolean);
}

#[test]
fn migration_preserves_group_membership() {
    let mut source = RemoteConfig::default();
    let mut group_params = EntryMap::new();
    group_params.insert(
        "grouped".to_string(),
        Parameter {
            default_value: Some(ParameterValue::Value("1".to_string())),
            conditional_values: EntryMap::new(),
            description: None,
            value_type: ParameterValueType::Number,
        },
    );
    source.insert_group("metrics".to_string(), Some("metric flags".to_string()), group_params);

    let mut destination = RemoteConfig::default();
    let existing = destination.existing_parameter_names();
    let delta = source.find_new_parameters(&existing);
    destination.apply_new_parameters(delta);

    assert_eq!(
        destination.get_map_for_existing_parameter("grouped"),
        Some(ParameterSource::Group("metrics".to_string()))
    );
    let (_, group) = destination
        .find_parameter_source("grouped")
        .expect("grouped parameter migrated");
    assert_eq!(group.value_type, ParameterValueType::Number);
}

#[test]
fn migration_skips_names_the_destination_has() {
    let mut source = RemoteConfig::default();
    source.upsert_parameter(
        "shared".to_string(),
        Parameter {
            default_value: Some(ParameterValue::Value("source".to_string())),
            conditional_values: EntryMap::new(),
            description: None,
            value_type: ParameterValueType::String,
        },
    );
    let mut destination = RemoteConfig::default();
    destination.upsert_parameter(
        "shared".to_string(),
        Parameter {
            default_value: Some(ParameterValue::Value("destination".to_string())),
            conditional_values: EntryMap::new(),
            description: None,
            value_type: ParameterValueType::String,
        },
    );
    let existing = destination.existing_parameter_names();
    let delta = source.find_new_parameters(&existing);
    assert_eq!(delta.len(), 0);
}

#[test]
fn migrate_command_selects_destinations() {
    let projects = vec![
        Project::new("Alpha".to_string(), "1".to_string(), vec![]),
        Project::new("Beta".to_string(), "2".to_string(), vec![]),
        Project::new("Gamma".to_string(), "3".to_string(), vec![]),
    ];
    let command = MigrateCommand::new_for_all_projects("Beta".to_string(), projects)
        .expect("source exists");
    assert_eq!(command.source_project.name, "Beta");
    let names: Vec<&str> =
        command.destinations.iter().map(|p| p.name.as_str()).collect();
    assert_eq!(names, vec!["Alpha", "Gamma"]);
}

#[test]
fn migrate_command_selects_named_destinations_without_the_source() {
    let projects = vec![
        Project::new("Alpha".to_string(), "1".to_string(), vec![]),
        Project::new("Beta".to_string(), "2".to_string(), vec![]),
        Project::new("Gamma".to_string(), "3".to_string(), vec![]),
    ];
    let command = MigrateCommand::new_for_selected_projects(
        "Beta".to_string(),
        vec!["Beta".to_string(), "Gamma".to_string()],
        projects,
    )
    .expect("source exists");
    assert_eq!(command.source_project.name, "Beta");
    let names: Vec<&str> =
        command.destinations.iter().map(|p| p.name.as_str()).collect();
    assert_eq!(names, vec!["Gamma"]);
}

#[test]
fn migrate_command_rejects_an_unknown_source() {
    let projects = vec![Project::new("Alpha".to_string(), "1".to_string(), vec![])];
    let result = MigrateCommand::new_for_all_projects("Delta".to_string(), projects);
    let error = result.err().expect("unknown source is refused");
    assert_eq!(
        error.message,
        "Source project Delta was not found in configuration file"
    );
}
