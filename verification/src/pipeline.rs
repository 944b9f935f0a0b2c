//! The validation pipeline: normalize both catalogs, validate sensors,
//! then — only on a clean sensor catalog — validate assets against it.
//! Normalized output exists if and only if no finding was produced.

use vstd::prelude::*;
use crate::asset_check::{asset_errors_spec, get_asset_errors, map_of, sensors_to_sensor_map, AssetError};
use crate::catalogs::{AssetTypeCatalog, UnitCatalog};
use crate::normalize::{clean_raw_assets, clean_raw_sensors, norm_assets, norm_sensors};
use crate::records::{Asset, Sensor};
use crate::sensor_check::{get_sensor_errors, sensor_errors_spec, SensorError};

verus! {

/// What one validation run produced: sensor findings, asset findings,
/// or the two normalized catalogs, ready to be written.
pub enum PipelineOutcome {
    SensorFindings { errs: Vec<SensorError> },
    AssetFindings { errs: Vec<AssetError> },
    Clean { assets: Vec<Asset>, sensors: Vec<Sensor> },
}

/// Runs the whole validation pass over freshly read catalogs. Sensor
/// findings suppress the asset pass, whose cross-references would be
/// unreliable; the normalized catalogs come back exactly when no rule
/// was violated.
pub fn run_pipeline(
    raw_assets: Vec<Asset>,
    raw_sensors: Vec<Sensor>,
    units: &UnitCatalog,
    arms_asset_type_ids: &AssetTypeCatalog,
) -> (r: PipelineOutcome)
    ensures
        ({
            let ns = norm_sensors(raw_sensors.deep_view());
            let na = norm_assets(raw_assets.deep_view());
            let s_errs = sensor_errors_spec(ns, units@);
            let a_errs = asset_errors_spec(na, map_of(ns), arms_asset_type_ids@);
            &&& (r is SensorFindings <==> s_errs.len() > 0)
            &&& (r is AssetFindings <==> s_errs.len() == 0 && a_errs.len() > 0)
            &&& (r is Clean <==> s_errs.len() == 0 && a_errs.len() == 0)
            &&& (r matches PipelineOutcome::SensorFindings { errs } ==> errs.deep_view() == s_errs)
            &&& (r matches PipelineOutcome::AssetFindings { errs } ==> errs.deep_view() == a_errs)
            &&& (r matches PipelineOutcome::Clean { assets, sensors } ==> assets.deep_view() == na
                && sensors.deep_view() == ns)
        }),
{
    let sensors = clean_raw_sensors(raw_sensors);
    let assets = clean_raw_assets(raw_assets);
    let sensor_errs = get_sensor_errors(sensors.as_slice(), units);
    if sensor_errs.len() > 0 {
        return PipelineOutcome::SensorFindings { errs: sensor_errs };
    }
    let sensor_map = sensors_to_sensor_map(sensors);
    let asset_errs = get_asset_errors(assets.as_slice(), &sensor_map, arms_asset_type_ids);
    if asset_errs.len() > 0 {
        return PipelineOutcome::AssetFindings { errs: asset_errs };
    }
    PipelineOutcome::Clean { assets, sensors: sensor_map.entries }
}

} // verus!
