//! The condition-expression compiler: exact wire strings, determinism, and
//! app-id substitution.
use rcm::expression_builder::{
    build_app_id_expr, build_for_item, replace_app_id, ExpressionBuilder, ExpressionListItem,
};
use rcm::operator::{BinaryOperator, SetOperator};

fn strings(values: &[&str]) -> Vec<String> {
    values.iter().map(|v| v.to_string()).collect()
}

#[test]
fn binary_operator_renders_dimension_op_literal() {
    let rendered = BinaryOperator::MoreEq.to_condition("app.version", "1.2.3");
    assert_eq!(rendered, "app.version >= 1.2.3");
    assert_eq!(BinaryOperator::Less.as_str(), "<");
    assert_eq!(BinaryOperator::LessEq.as_str(), "<=");
    assert_eq!(BinaryOperator::Eq.as_str(), "==");
    assert_eq!(BinaryOperator::BangEq.as_str(), "!=");
    assert_eq!(BinaryOperator::More.as_str(), ">");
    assert_eq!(BinaryOperator::MoreEq.as_str(), ">=");
}

#[test]
fn set_operator_renders_quoted_list() {
    let rendered = SetOperator::Contains.to_condition("device.country", &strings(&["US", "CA"]));
    assert_eq!(rendered, "device.country.contains(['US','CA'])");
    let rendered = SetOperator::ExactlyMatches.to_condition("app.build", &strings(&["7"]));
    assert_eq!(rendered, "app.build.exactlyMatches(['7'])");
    let rendered = SetOperator::NotContains.to_condition("app.build", &strings(&[]));
    assert_eq!(rendered, "app.build.notContains([])");
}

#[test]
fn in_operator_renders_bracket_list() {
    let rendered = SetOperator::In.to_condition("device.language", &strings(&["en", "fr", "de"]));
    assert_eq!(rendered, "device.language in ['en','fr','de']");
}

#[test]
fn binary_inside_set_operator_takes_first_value() {
    let rendered =
        SetOperator::Binary(BinaryOperator::Eq).to_condition("device.os", &strings(&["ios"]));
    assert_eq!(rendered, "device.os == ios");
}

#[test]
fn app_id_clause_quotes_the_identifier() {
    assert_eq!(build_app_id_expr("com:app:ios:1"), "app.id == 'com:app:ios:1'");
}

#[test]
fn app_scoped_dimensions_prepend_app_id_conjunct() {
    let expr = build_for_item(
        &ExpressionListItem::AppBuild,
        "com:app:ios:1",
        &SetOperator::Contains,
        &strings(&["5", "6"]),
    );
    assert_eq!(expr, "app.id == 'com:app:ios:1' && app.build.contains(['5','6'])");
    let expr = build_for_item(
        &ExpressionListItem::AppVersion,
        "com:app:ios:1",
        &SetOperator::Binary(BinaryOperator::MoreEq),
        &strings(&["2.0"]),
    );
    assert_eq!(expr, "app.id == 'com:app:ios:1' && app.version >= 2.0");
    let expr = build_for_item(
        &ExpressionListItem::UserProperty,
        "com:app:ios:1",
        &SetOperator::Matches,
        &strings(&["beta.*"]),
    );
    assert_eq!(expr, "app.id == 'com:app:ios:1' && app.userProperty.matches(['beta.*'])");
}

#[test]
fn device_dimensions_take_no_app_id() {
    let expr = build_for_item(
        &ExpressionListItem::DeviceOS,
        "ignored",
        &SetOperator::Binary(BinaryOperator::Eq),
        &strings(&["ios"]),
    );
    assert_eq!(expr, "device.os == ios");
    let expr = build_for_item(
        &ExpressionListItem::DeviceCountry,
        "ignored",
        &SetOperator::In,
        &strings(&["US"]),
    );
    assert_eq!(expr, "device.country in ['US']");
    let expr = build_for_item(
        &ExpressionListItem::DeviceDateTime,
        "ignored",
        &SetOperator::Binary(BinaryOperator::LessEq),
        &strings(&["2024-01-01T00:00"]),
    );
    assert_eq!(expr, "device.dateTime <= 2024-01-01T00:00");
}

#[test]
fn compilation_is_deterministic() {
    let builder = ExpressionBuilder::new(strings(&["com:app:ios:1", "com:app:android:2"]));
    let a = builder.build(
        &ExpressionListItem::AppBuild,
        1,
        &SetOperator::Contains,
        &strings(&["5"]),
    );
    let b = builder.build(
        &ExpressionListItem::AppBuild,
        1,
        &SetOperator::Contains,
        &strings(&["5"]),
    );
    assert_eq!(a, b);
    assert_eq!(a, "app.id == 'com:app:android:2' && app.build.contains(['5'])");
}

#[test]
fn substitution_rewrites_the_embedded_identifier() {
    let mut expression =
        String::from("app.id == 'com:app:ios:123' && app.build.contains(['5'])");
    let app_ids = strings(&["com:other:android:9", "com:other:ios:42"]);
    let result = replace_app_id(&mut expression, &app_ids);
    assert!(result.is_ok());
    assert_eq!(expression, "app.id == 'com:other:ios:42' && app.build.contains(['5'])");
}

#[test]
fn substitution_takes_the_first_identifier_of_the_platform() {
    let mut expression = String::from("app.id == 'a:b:ios:1'");
    let app_ids = strings(&["x:y:ios:7", "x:y:ios:8"]);
    assert!(replace_app_id(&mut expression, &app_ids).is_ok());
    assert_eq!(expression, "app.id == 'x:y:ios:7'");
}

#[test]
fn substitution_without_marker_is_identity() {
    let mut expression = String::from("device.os == 'ios'");
    let app_ids = strings(&["com:other:android:9"]);
    let result = replace_app_id(&mut expression, &app_ids);
    assert!(result.is_ok());
    assert_eq!(expression, "device.os == 'ios'");
}

#[test]
fn substitution_without_closing_quote_is_identity() {
    let mut expression = String::from("app.id == 'unterminated");
    let app_ids = strings(&["com:other:ios:9"]);
    let result = replace_app_id(&mut expression, &app_ids);
    assert!(result.is_ok());
    assert_eq!(expression, "app.id == 'unterminated");
}

#[test]
fn substitution_fails_without_a_matching_platform() {
    let mut expression = String::from("app.id == 'com:app:ios:123' && app.build < '9'");
    let app_ids = strings(&["com:other:android:9"]);
    let result = replace_app_id(&mut expression, &app_ids);
    let error = result.err().expect("substitution must fail");
    assert_eq!(
        error.message,
        "App ID for compatible platform ios was not found for this project"
    );
    assert_eq!(expression, "app.id == 'com:app:ios:123' && app.build < '9'");
}

#[test]
fn dimension_titles() {
    assert_eq!(ExpressionListItem::AppBuild.title(), "App build");
    assert_eq!(ExpressionListItem::DeviceOS.title(), "Device OS");
    assert_eq!(ExpressionListItem::all().len(), 8);
}
