use asset_parser::catalogs::units;
use asset_parser::records::{Sensor, SensorType};
use asset_parser::sensor_check::get_sensor_errors;

fn sensor(id: &str, name: &str, tags: &[&str], sensor_type: SensorType, unit: Option<&str>) -> Sensor {
    Sensor {
        id: id.to_string(),
        display_name: name.to_string(),
        skyspark_marker_tags: tags.iter().map(|t| t.to_string()).collect(),
        sensor_type,
        unit: unit.map(|u| u.to_string()),
    }
}

fn msgs(errs: &[asset_parser::sensor_check::SensorError]) -> Vec<(String, String)> {
    errs.iter().map(|e| (e.sensor_id.clone(), e.msg.clone())).collect()
}

#[test]
fn a_valid_sensor_yields_no_errors() {
    let catalog = units("\u{b0}C,\u{b0}F\n");
    let sensors = vec![sensor("s1", "Temp", &["temp", "zone"], SensorType::Numeric, Some("\u{b0}C"))];
    assert!(get_sensor_errors(&sensors, &catalog).is_empty());
}

#[test]
fn an_empty_id_is_reported_under_a_placeholder() {
    let catalog = units("");
    let sensors = vec![sensor("", "Temp", &["zone"], SensorType::Bool, None)];
    let errs = get_sensor_errors(&sensors, &catalog);
    assert_eq!(msgs(&errs), vec![("?".to_string(), "A sensor has an empty id".to_string())]);
}

#[test]
fn an_empty_display_name_is_reported() {
    let catalog = units("");
    let sensors = vec![sensor("s1", "", &["zone"], SensorType::Bool, None)];
    let errs = get_sensor_errors(&sensors, &catalog);
    assert_eq!(msgs(&errs), vec![("s1".to_string(), "Empty display name".to_string())]);
}

#[test]
fn an_empty_tag_list_yields_one_no_tags_error() {
    let catalog = units("");
    let sensors = vec![sensor("s1", "Temp", &[], SensorType::Bool, None)];
    let errs = get_sensor_errors(&sensors, &catalog);
    assert_eq!(msgs(&errs), vec![("s1".to_string(), "No SkySpark marker tags".to_string())]);
}

#[test]
fn each_invalid_tag_is_reported_with_its_name() {
    let catalog = units("");
    let sensors = vec![sensor("s1", "Temp", &["Bad", "good", "x y"], SensorType::Bool, None)];
    let errs = get_sensor_errors(&sensors, &catalog);
    assert_eq!(
        msgs(&errs),
        vec![
            ("s1".to_string(), "Invalid SkySpark marker tag 'Bad'".to_string()),
            ("s1".to_string(), "Invalid SkySpark marker tag 'x y'".to_string()),
        ],
    );
}

#[test]
fn an_uncataloged_unit_on_a_numeric_sensor_is_invalid() {
    let catalog = units("\u{b0}C\n");
    let sensors = vec![sensor("s1", "Temp", &["zone"], SensorType::Numeric, Some("\u{b0}F"))];
    let errs = get_sensor_errors(&sensors, &catalog);
    assert_eq!(msgs(&errs), vec![("s1".to_string(), "Invalid unit".to_string())]);
}

#[test]
fn a_numeric_sensor_without_a_unit_is_allowed() {
    let catalog = units("");
    let sensors = vec![sensor("s1", "Count", &["zone"], SensorType::Numeric, None)];
    assert!(get_sensor_errors(&sensors, &catalog).is_empty());
}

#[test]
fn a_non_numeric_sensor_with_a_unit_is_reported() {
    let catalog = units("m\n");
    let sensors = vec![sensor("s1", "Flag", &["zone"], SensorType::Bool, Some("m"))];
    let errs = get_sensor_errors(&sensors, &catalog);
    assert_eq!(msgs(&errs), vec![("s1".to_string(), "Has a unit but is not numeric".to_string())]);
}

#[test]
fn duplicate_sensor_ids_yield_one_aggregate_error() {
    let catalog = units("");
    let sensors = vec![
        sensor("s1", "A", &["zone"], SensorType::Bool, None),
        sensor("s1", "B", &["zone"], SensorType::Bool, None),
        sensor("s1", "C", &["zone"], SensorType::Bool, None),
    ];
    let errs = get_sensor_errors(&sensors, &catalog);
    assert_eq!(msgs(&errs), vec![("-".to_string(), "Some sensor ids are not unique".to_string())]);
}

#[test]
fn errors_accumulate_across_rules_and_sensors() {
    let catalog = units("");
    let sensors = vec![
        sensor("s1", "", &[], SensorType::Bool, None),
        sensor("s2", "Ok", &["zone"], SensorType::Bool, None),
        sensor("s3", "Temp", &["Zone"], SensorType::Numeric, Some("nope")),
    ];
    let errs = get_sensor_errors(&sensors, &catalog);
    assert_eq!(
        msgs(&errs),
        vec![
            ("s1".to_string(), "Empty display name".to_string()),
            ("s1".to_string(), "No SkySpark marker tags".to_string()),
            ("s3".to_string(), "Invalid SkySpark marker tag 'Zone'".to_string()),
            ("s3".to_string(), "Invalid unit".to_string()),
        ],
    );
}
