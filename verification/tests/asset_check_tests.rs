use asset_parser::asset_check::{
    check_asset_sensors, get_asset_errors, has_duplicate_sensor_ids, sensors_to_sensor_map,
};
use asset_parser::catalogs::arms_asset_type_ids;
use asset_parser::records::{Asset, Sensor, SensorInfo, SensorType};

fn sensor(id: &str, tags: &[&str]) -> Sensor {
    Sensor {
        id: id.to_string(),
        display_name: format!("Sensor {}", id),
        skyspark_marker_tags: tags.iter().map(|t| t.to_string()).collect(),
        sensor_type: SensorType::Bool,
        unit: None,
    }
}

fn info(sensor_id: &str, extra: &[&str]) -> SensorInfo {
    SensorInfo {
        sensor_id: sensor_id.to_string(),
        extra_skyspark_marker_tags: extra.iter().map(|t| t.to_string()).collect(),
    }
}

fn asset(id: &str, name: &str, tags: &[&str], mandatory: Vec<SensorInfo>, type_id: Option<u32>) -> Asset {
    Asset {
        id: id.to_string(),
        is_plant: None,
        display_name: name.to_string(),
        skyspark_marker_tags: tags.iter().map(|t| t.to_string()).collect(),
        mandatory_sensors: mandatory,
        optional_sensors: Vec::new(),
        arms_asset_type_id: type_id,
    }
}

fn msgs(errs: &[asset_parser::asset_check::AssetError]) -> Vec<(String, String)> {
    errs.iter().map(|e| (e.asset_id.clone(), e.msg.clone())).collect()
}

#[test]
fn a_bare_asset_draws_four_findings() {
    let types = arms_asset_type_ids("1\n2\n").unwrap();
    let smap = sensors_to_sensor_map(Vec::new());
    let assets = vec![asset("a1", "", &[], Vec::new(), Some(999999))];
    let errs = get_asset_errors(&assets, &smap, &types);
    assert_eq!(
        msgs(&errs),
        vec![
            ("a1".to_string(), "No SkySpark marker tags".to_string()),
            ("a1".to_string(), "Empty display name".to_string()),
            ("a1".to_string(), "No mandatory sensors".to_string()),
            ("a1".to_string(), "Invalid AssetTypeID 999999".to_string()),
        ],
    );
}

#[test]
fn a_valid_asset_draws_no_findings() {
    let types = arms_asset_type_ids("7\n").unwrap();
    let smap = sensors_to_sensor_map(vec![sensor("s1", &["temp"])]);
    let assets = vec![asset("a1", "Fan", &["fan"], vec![info("s1", &["extra"])], Some(7))];
    assert!(get_asset_errors(&assets, &smap, &types).is_empty());
}

#[test]
fn an_empty_asset_id_is_reported_under_a_placeholder() {
    let types = arms_asset_type_ids("").unwrap();
    let smap = sensors_to_sensor_map(Vec::new());
    let assets = vec![asset("", "Fan", &["fan"], vec![], None)];
    let errs = get_asset_errors(&assets, &smap, &types);
    assert_eq!(errs[0].asset_id, "?");
    assert_eq!(errs[0].msg, "An asset has an empty id");
}

#[test]
fn an_invalid_asset_tag_is_reported_with_its_name() {
    let types = arms_asset_type_ids("").unwrap();
    let smap = sensors_to_sensor_map(Vec::new());
    let assets = vec![asset("a1", "Fan", &["Fan"], vec![info("s1", &[])], None)];
    let errs = get_asset_errors(&assets, &smap, &types);
    assert_eq!(errs[0].msg, "Invalid SkySpark marker tag 'Fan'");
}

#[test]
fn a_developer_asset_needs_no_mandatory_sensors() {
    let types = arms_asset_type_ids("").unwrap();
    let smap = sensors_to_sensor_map(Vec::new());
    let assets = vec![asset("a1", "Virtual", &["developer"], Vec::new(), None)];
    assert!(get_asset_errors(&assets, &smap, &types).is_empty());
}

#[test]
fn a_missing_sensor_reference_is_reported() {
    let smap = sensors_to_sensor_map(vec![sensor("s1", &["temp"])]);
    let errs = check_asset_sensors(&[info("missing", &[])], &smap, "a1");
    assert_eq!(
        msgs(&errs),
        vec![("a1".to_string(), "No matching sensor with id 'missing'".to_string())],
    );
}

#[test]
fn an_empty_sensor_reference_id_is_reported() {
    let smap = sensors_to_sensor_map(Vec::new());
    let errs = check_asset_sensors(&[info("", &[])], &smap, "a1");
    assert_eq!(
        msgs(&errs),
        vec![
            ("a1".to_string(), "Sensor has an empty id".to_string()),
            ("a1".to_string(), "No matching sensor with id ''".to_string()),
        ],
    );
}

#[test]
fn a_shared_tag_draws_exactly_one_duplicate_tags_finding() {
    let smap = sensors_to_sensor_map(vec![sensor("s1", &["temp", "zone"])]);
    let errs = check_asset_sensors(&[info("s1", &["zone", "extra"])], &smap, "a1");
    let duplicates: Vec<_> =
        errs.iter().filter(|e| e.msg == "Sensor 's1' has duplicate tags").collect();
    assert_eq!(duplicates.len(), 1);
    assert_eq!(errs.len(), 1);
}

#[test]
fn invalid_tags_in_the_union_are_each_reported_once() {
    let smap = sensors_to_sensor_map(vec![sensor("s1", &["Bad", "zone"])]);
    let errs = check_asset_sensors(&[info("s1", &["Bad", "Worse"])], &smap, "a1");
    assert_eq!(
        msgs(&errs),
        vec![
            ("a1".to_string(), "Sensor 's1' has duplicate tags".to_string()),
            ("a1".to_string(), "Invalid tag Bad".to_string()),
            ("a1".to_string(), "Invalid tag Worse".to_string()),
        ],
    );
}

#[test]
fn duplicate_sensor_ids_across_both_lists_are_detected() {
    assert!(has_duplicate_sensor_ids(&[info("s1", &[])], &[info("s1", &[])]));
    assert!(has_duplicate_sensor_ids(&[info("s1", &[]), info("s1", &[])], &[]));
    assert!(!has_duplicate_sensor_ids(&[info("s1", &[])], &[info("s2", &[])]));
}

#[test]
fn a_sensor_listed_twice_draws_one_duplicate_ids_finding() {
    let types = arms_asset_type_ids("").unwrap();
    let smap = sensors_to_sensor_map(vec![sensor("s1", &["temp"])]);
    let mut a = asset("a1", "Fan", &["fan"], vec![info("s1", &[])], None);
    a.optional_sensors = vec![info("s1", &[])];
    let errs = get_asset_errors(&[a], &smap, &types);
    assert_eq!(msgs(&errs), vec![("a1".to_string(), "Duplicate sensor ids".to_string())]);
}

#[test]
fn assets_sharing_an_id_draw_exactly_one_aggregate_finding() {
    let types = arms_asset_type_ids("").unwrap();
    let smap = sensors_to_sensor_map(vec![sensor("s1", &["temp"])]);
    let assets = vec![
        asset("a1", "A", &["fan"], vec![info("s1", &[])], None),
        asset("a1", "B", &["fan"], vec![info("s1", &[])], None),
        asset("a1", "C", &["fan"], vec![info("s1", &[])], None),
    ];
    let errs = get_asset_errors(&assets, &smap, &types);
    assert_eq!(msgs(&errs), vec![("-".to_string(), "Some assets have duplicate ids".to_string())]);
}

#[test]
fn the_sensor_map_returns_the_last_record_for_a_repeated_id() {
    let first = sensor("s1", &["old"]);
    let second = sensor("s1", &["new"]);
    let smap = sensors_to_sensor_map(vec![first, second]);
    let found = smap.get(&"s1".to_string()).expect("s1 is present");
    assert_eq!(found.skyspark_marker_tags, vec!["new".to_string()]);
    assert!(smap.get(&"s2".to_string()).is_none());
}
