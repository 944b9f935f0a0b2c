use asset_parser::catalogs::{arms_asset_type_ids, units};
use asset_parser::pipeline::{run_pipeline, PipelineOutcome};
use asset_parser::records::{Asset, Sensor, SensorInfo, SensorType};

fn sensor(id: &str, name: &str, tags: &[&str], sensor_type: SensorType, unit: Option<&str>) -> Sensor {
    Sensor {
        id: id.to_string(),
        display_name: name.to_string(),
        skyspark_marker_tags: tags.iter().map(|t| t.to_string()).collect(),
        sensor_type,
        unit: unit.map(|u| u.to_string()),
    }
}

fn asset(id: &str, name: &str, tags: &[&str], mandatory: Vec<SensorInfo>) -> Asset {
    Asset {
        id: id.to_string(),
        is_plant: None,
        display_name: name.to_string(),
        skyspark_marker_tags: tags.iter().map(|t| t.to_string()).collect(),
        mandatory_sensors: mandatory,
        optional_sensors: Vec::new(),
        arms_asset_type_id: None,
    }
}

fn info(sensor_id: &str) -> SensorInfo {
    SensorInfo { sensor_id: sensor_id.to_string(), extra_skyspark_marker_tags: Vec::new() }
}

#[test]
fn clean_catalogs_come_back_normalized() {
    let unit_catalog = units("\u{b0}C\n");
    let type_catalog = arms_asset_type_ids("").unwrap();
    let sensors = vec![
        sensor(" s2 ", "B", &["temp"], SensorType::Numeric, Some("\u{b0}C")),
        sensor("s1", "A", &["zone"], SensorType::Bool, None),
    ];
    let assets = vec![asset("a1", "Fan", &["fan"], vec![info("s1")])];
    match run_pipeline(assets, sensors, &unit_catalog, &type_catalog) {
        PipelineOutcome::Clean { assets, sensors } => {
            assert_eq!(sensors[0].id, "s1");
            assert_eq!(sensors[1].id, "s2");
            assert_eq!(assets[0].id, "a1");
        },
        _ => panic!("expected a clean outcome"),
    }
}

#[test]
fn a_sensor_finding_suppresses_the_asset_pass() {
    let unit_catalog = units("");
    let type_catalog = arms_asset_type_ids("").unwrap();
    let sensors = vec![sensor("s1", "", &["zone"], SensorType::Bool, None)];
    let assets = vec![asset("a1", "", &[], Vec::new())];
    match run_pipeline(assets, sensors, &unit_catalog, &type_catalog) {
        PipelineOutcome::SensorFindings { errs } => {
            assert_eq!(errs.len(), 1);
            assert_eq!(errs[0].msg, "Empty display name");
        },
        _ => panic!("expected sensor findings"),
    }
}

#[test]
fn asset_findings_follow_a_clean_sensor_pass() {
    let unit_catalog = units("");
    let type_catalog = arms_asset_type_ids("").unwrap();
    let sensors = vec![sensor("s1", "A", &["zone"], SensorType::Bool, None)];
    let assets = vec![asset("a1", "Fan", &["fan"], vec![info("missing")])];
    match run_pipeline(assets, sensors, &unit_catalog, &type_catalog) {
        PipelineOutcome::AssetFindings { errs } => {
            assert_eq!(errs.len(), 1);
            assert_eq!(errs[0].msg, "No matching sensor with id 'missing'");
        },
        _ => panic!("expected asset findings"),
    }
}
