//! Name and value validation, confirmation answers, and project selection.
use rcm::cli;
use rcm::command::{CommandRunner, RunPlan};
use rcm::config::{Config, Project};
use rcm::io::confirmation_answer;
use rcm::parameter_builder::{is_numeric, Parts};
use rcm::remote_config::{ParameterValue, ParameterValueType};

#[test]
fn valid_names_are_accepted() {
    assert_eq!(Parts::validate_name("upload_logs".to_string()), Ok("upload_logs".to_string()));
    assert_eq!(Parts::validate_name("_x9".to_string()), Ok("_x9".to_string()));
}

#[test]
fn empty_name_is_rejected() {
    assert_eq!(
        Parts::validate_name(String::new()),
        Err("Name must contain at least one character")
    );
}

#[test]
fn name_must_start_with_letter_or_underscore() {
    assert_eq!(
        Parts::validate_name("9lives".to_string()),
        Err("Parameter name must start with an underscore or English letter character [A-Z, a-z]")
    );
}

#[test]
fn name_must_stay_alphanumeric() {
    assert_eq!(
        Parts::validate_name("upload-logs".to_string()),
        Err("Parameter name can only include English letter characters, numbers and underscore")
    );
}

#[test]
fn boolean_values_are_true_or_false() {
    assert_eq!(
        Parts::validate_value("true".to_string(), &ParameterValueType::Boolean),
        Ok("true".to_string())
    );
    assert_eq!(
        Parts::validate_value("False".to_string(), &ParameterValueType::Boolean),
        Err("Value must be a boolean")
    );
}

#[test]
fn numeric_values_are_decimal_literals() {
    assert_eq!(
        Parts::validate_value("-12.5".to_string(), &ParameterValueType::Number),
        Ok("-12.5".to_string())
    );
    assert_eq!(
        Parts::validate_value("1.2.3".to_string(), &ParameterValueType::Number),
        Err("Value must be numeric")
    );
    assert!(is_numeric("+7"));
    assert!(is_numeric(".5"));
    assert!(is_numeric("5."));
    assert!(!is_numeric("."));
    assert!(!is_numeric(""));
    assert!(!is_numeric("five"));
}

#[test]
fn json_values_must_parse() {
    assert_eq!(
        Parts::validate_value("{\"a\": [1, 2]}".to_string(), &ParameterValueType::Json),
        Ok("{\"a\": [1, 2]}".to_string())
    );
    assert_eq!(
        Parts::validate_value("{'a': 1}".to_string(), &ParameterValueType::Json),
        Err("Invalid JSON")
    );
}

#[test]
fn string_values_are_always_accepted() {
    assert_eq!(
        Parts::validate_value(String::new(), &ParameterValueType::String),
        Ok(String::new())
    );
}

#[test]
fn parts_assemble_the_parameter() {
    let mut parts = Parts::new("flag".to_string(), Some("a flag".to_string()));
    assert_eq!(parts.value_type, ParameterValueType::String);
    parts.value_type = ParameterValueType::Boolean;
    parts.set_default_value("false".to_string()).expect("valid default");
    parts
        .set_value_for_condition("Platform".to_string(), "true".to_string())
        .expect("valid override");
    let (name, parameter) = parts.parameter();
    assert_eq!(name, "flag");
    assert_eq!(parameter.default_value, Some(ParameterValue::Value("false".to_string())));
    assert_eq!(parameter.description, Some("a flag".to_string()));
    assert_eq!(
        parameter.conditional_values.get("Platform"),
        Some(&ParameterValue::Value("true".to_string()))
    );
}

#[test]
fn builder_revalidates_custom_values() {
    let original = {
        let mut parts = Parts::new("flag".to_string(), Some("a flag".to_string()));
        parts.value_type = ParameterValueType::Boolean;
        parts.set_default_value("true".to_string()).expect("valid");
        parts.parameter().1
    };
    let builder = rcm::parameter_builder::ParameterBuilder::new_from_parameter(
        "flag".to_string(),
        &original,
    );
    let (name, rebuilt) = builder
        .add_values(
            "false".to_string(),
            vec![("Platform".to_string(), "true".to_string())],
        )
        .expect("all values valid");
    assert_eq!(name, "flag");
    assert_eq!(rebuilt.default_value, Some(ParameterValue::Value("false".to_string())));
    assert_eq!(
        rebuilt.conditional_values.get("Platform"),
        Some(&ParameterValue::Value("true".to_string()))
    );

    let builder = rcm::parameter_builder::ParameterBuilder::new_from_parameter(
        "flag".to_string(),
        &original,
    );
    let result = builder.add_values(
        "false".to_string(),
        vec![("Platform".to_string(), "not a boolean".to_string())],
    );
    assert!(result.is_err());
}

#[test]
fn value_type_labels_round_trip() {
    assert_eq!(ParameterValueType::from_label("Boolean"), ParameterValueType::Boolean);
    assert_eq!(ParameterValueType::from_label("JSON"), ParameterValueType::Json);
    assert_eq!(ParameterValueType::from_label("Number"), ParameterValueType::Number);
    assert_eq!(ParameterValueType::from_label("String"), ParameterValueType::String);
    assert_eq!(ParameterValueType::labels().len(), 4);
    assert_eq!(ParameterValueType::Boolean.cell_content(), "Bool");
    assert_eq!(
        ParameterValue::UseInAppDefault(true).cell_content(),
        "Use in app default"
    );
}

#[test]
fn confirmation_answers_fold_letter_case() {
    assert_eq!(confirmation_answer("y"), Some(true));
    assert_eq!(confirmation_answer("YES"), Some(true));
    assert_eq!(confirmation_answer("n"), Some(false));
    assert_eq!(confirmation_answer("No"), Some(false));
    assert_eq!(confirmation_answer("maybe"), None);
    assert_eq!(confirmation_answer(""), None);
}

#[test]
fn plan_refuses_an_empty_registry() {
    let arguments = cli::Project { project: None, main: None };
    let result = CommandRunner::plan(Vec::new(), &arguments);
    let error = result.err().expect("empty registry refused");
    assert_eq!(error.message, "Projects are empty! Add projects to projects.json file.");
}

#[test]
fn plan_selects_one_project_by_name_ignoring_case() {
    let projects = vec![
        Project::new("Alpha".to_string(), "1".to_string(), vec![]),
        Project::new("Beta".to_string(), "2".to_string(), vec![]),
    ];
    let arguments = cli::Project { project: Some("beta".to_string()), main: None };
    match CommandRunner::plan(projects, &arguments).expect("found") {
        RunPlan::Single(p) => assert_eq!(p.name, "Beta"),
        RunPlan::Multi(_) => panic!("expected a single project"),
    }
}

#[test]
fn plan_brings_the_main_project_to_the_front() {
    let projects = vec![
        Project::new("Alpha".to_string(), "1".to_string(), vec![]),
        Project::new("Beta".to_string(), "2".to_string(), vec![]),
        Project::new("Gamma".to_string(), "3".to_string(), vec![]),
    ];
    let arguments = cli::Project { project: None, main: Some("gamma".to_string()) };
    match CommandRunner::plan(projects, &arguments).expect("found") {
        RunPlan::Multi(list) => {
            let names: Vec<&str> = list.iter().map(|p| p.name.as_str()).collect();
            assert_eq!(names, vec!["Gamma", "Alpha", "Beta"]);
        },
        RunPlan::Single(_) => panic!("expected the whole list"),
    }
}

#[test]
fn plan_reports_an_unknown_project() {
    let projects = vec![Project::new("Alpha".to_string(), "1".to_string(), vec![])];
    let arguments = cli::Project { project: Some("Delta".to_string()), main: None };
    let error = CommandRunner::plan(projects, &arguments).err().expect("unknown");
    assert_eq!(error.message, "Project Delta was not found");
}

#[test]
fn registry_add_and_remove() {
    let mut config = Config::default();
    config.add_project(Project::new("Alpha".to_string(), "1".to_string(), vec![]));
    config.add_project(Project::new("Beta".to_string(), "2".to_string(), vec![]));
    config.remove_project("Alpha");
    assert_eq!(config.projects.len(), 1);
    assert_eq!(config.projects[0].name, "Beta");
}

#[test]
fn project_url_addresses_the_service() {
    let project = Project::new("Alpha".to_string(), "1234".to_string(), vec![]);
    assert_eq!(
        project.url(),
        "https://firebaseremoteconfig.googleapis.com/v1/projects/1234/remoteConfig"
    );
}
