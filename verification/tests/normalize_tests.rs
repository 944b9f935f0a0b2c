use asset_parser::normalize::{clean_raw_assets, clean_raw_sensor_info, clean_raw_sensors};
use asset_parser::records::{Asset, Sensor, SensorInfo, SensorType};

fn sensor(id: &str, name: &str, tags: &[&str], sensor_type: SensorType, unit: Option<&str>) -> Sensor {
    Sensor {
        id: id.to_string(),
        display_name: name.to_string(),
        skyspark_marker_tags: tags.iter().map(|t| t.to_string()).collect(),
        sensor_type,
        unit: unit.map(|u| u.to_string()),
    }
}

fn info(sensor_id: &str, extra: &[&str]) -> SensorInfo {
    SensorInfo {
        sensor_id: sensor_id.to_string(),
        extra_skyspark_marker_tags: extra.iter().map(|t| t.to_string()).collect(),
    }
}

fn asset(id: &str, name: &str, tags: &[&str], mandatory: Vec<SensorInfo>, optional: Vec<SensorInfo>) -> Asset {
    Asset {
        id: id.to_string(),
        is_plant: None,
        display_name: name.to_string(),
        skyspark_marker_tags: tags.iter().map(|t| t.to_string()).collect(),
        mandatory_sensors: mandatory,
        optional_sensors: optional,
        arms_asset_type_id: None,
    }
}

#[test]
fn sensor_fields_are_trimmed_and_tags_sorted() {
    let raw = vec![sensor(" s1 ", "Temp", &["zone", "  zone"], SensorType::Numeric, Some("\u{b0}F"))];
    let cleaned = clean_raw_sensors(raw);
    assert_eq!(cleaned.len(), 1);
    assert_eq!(cleaned[0].id, "s1");
    assert_eq!(cleaned[0].display_name, "Temp");
    assert_eq!(cleaned[0].skyspark_marker_tags, vec!["zone".to_string(), "zone".to_string()]);
    assert_eq!(cleaned[0].unit, Some("\u{b0}F".to_string()));
}

#[test]
fn sensors_are_sorted_by_id() {
    let raw = vec![
        sensor("b", "B", &["x"], SensorType::Bool, None),
        sensor("a", "A", &["y"], SensorType::Bool, None),
        sensor("c", "C", &["z"], SensorType::Bool, None),
    ];
    let cleaned = clean_raw_sensors(raw);
    let ids: Vec<&str> = cleaned.iter().map(|s| s.id.as_str()).collect();
    assert_eq!(ids, vec!["a", "b", "c"]);
}

#[test]
fn sensor_tags_keep_duplicates_after_sorting() {
    let raw = vec![sensor("s", "S", &["b", "a", "b"], SensorType::String, None)];
    let cleaned = clean_raw_sensors(raw);
    assert_eq!(
        cleaned[0].skyspark_marker_tags,
        vec!["a".to_string(), "b".to_string(), "b".to_string()],
    );
}

#[test]
fn sensor_normalization_is_idempotent() {
    let raw = vec![
        sensor("  b ", " B\t", &[" t2", "t1 "], SensorType::Numeric, Some(" m ")),
        sensor("a", "A", &["zz", "aa"], SensorType::Bool, None),
    ];
    let once = clean_raw_sensors(raw);
    let twice = clean_raw_sensors(once.clone());
    assert_eq!(once, twice);
}

#[test]
fn sensor_normalization_ignores_input_order() {
    let s1 = sensor(" b", "B", &["x"], SensorType::Bool, None);
    let s2 = sensor("a ", "A", &["y"], SensorType::Bool, None);
    let s3 = sensor("c", "C", &["z"], SensorType::Bool, None);
    let one = clean_raw_sensors(vec![s1.clone(), s2.clone(), s3.clone()]);
    let other = clean_raw_sensors(vec![s3, s1, s2]);
    assert_eq!(one, other);
}

#[test]
fn sensor_info_is_trimmed_and_sorted() {
    let cleaned = clean_raw_sensor_info(info(" s9 ", &["  b", "a  "]));
    assert_eq!(cleaned.sensor_id, "s9");
    assert_eq!(cleaned.extra_skyspark_marker_tags, vec!["a".to_string(), "b".to_string()]);
}

#[test]
fn asset_normalization_sorts_everything() {
    let raw = vec![
        asset(
            " a2 ",
            " Pump ",
            &[" pump", "equip "],
            vec![info("s2", &[]), info("s1", &["extra "])],
            vec![info("s4", &[]), info("s3", &[])],
        ),
        asset("a1", "Fan", &["fan"], vec![], vec![]),
    ];
    let cleaned = clean_raw_assets(raw);
    assert_eq!(cleaned.len(), 2);
    assert_eq!(cleaned[0].id, "a1");
    assert_eq!(cleaned[1].id, "a2");
    assert_eq!(cleaned[1].display_name, "Pump");
    assert_eq!(cleaned[1].skyspark_marker_tags, vec!["equip".to_string(), "pump".to_string()]);
    let mand_ids: Vec<&str> = cleaned[1].mandatory_sensors.iter().map(|i| i.sensor_id.as_str()).collect();
    assert_eq!(mand_ids, vec!["s1", "s2"]);
    assert_eq!(cleaned[1].mandatory_sensors[0].extra_skyspark_marker_tags, vec!["extra".to_string()]);
    let opt_ids: Vec<&str> = cleaned[1].optional_sensors.iter().map(|i| i.sensor_id.as_str()).collect();
    assert_eq!(opt_ids, vec!["s3", "s4"]);
}

#[test]
fn asset_normalization_is_idempotent() {
    let raw = vec![
        asset("b ", " B", &["t "], vec![info(" s1", &[" y", "x"])], vec![]),
        asset("a", "A", &["u"], vec![], vec![info("s2", &[])]),
    ];
    let once = clean_raw_assets(raw);
    let twice = clean_raw_assets(once.clone());
    assert_eq!(once, twice);
}

#[test]
fn asset_normalization_ignores_input_order() {
    let a1 = asset("a1", "A", &["x"], vec![info("s1", &[])], vec![]);
    let a2 = asset(" a2", "B", &["y"], vec![], vec![]);
    let one = clean_raw_assets(vec![a1.clone(), a2.clone()]);
    let other = clean_raw_assets(vec![a2, a1]);
    assert_eq!(one, other);
}

#[test]
fn unicode_whitespace_is_trimmed() {
    let raw = vec![sensor("\u{a0}s1\u{2003}", "T", &["t"], SensorType::Bool, None)];
    let cleaned = clean_raw_sensors(raw);
    assert_eq!(cleaned[0].id, "s1");
}
