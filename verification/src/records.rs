//! The catalog record types and their mathematical models.

use vstd::prelude::*;
use crate::sorting::HasId;

verus! {

/// The value type of a sensor reading.
#[derive(Clone, Copy, Debug, PartialEq, Eq, Structural)]
pub enum SensorType {
    Bool,
    Numeric,
    String,
}

/// A point definition: a measurable quantity with a type, an optional
/// measurement unit, and classification tags.
#[derive(Clone, Debug, PartialEq, Eq)]
pub struct Sensor {
    pub id: String,
    pub display_name: String,
    pub skyspark_marker_tags: Vec<String>,
    pub sensor_type: SensorType,
    pub unit: Option<String>,
}

/// The model of a `Sensor`: every string as a character sequence.
#[verifier::ext_equal]
pub struct SensorView {
    pub id: Seq<char>,
    pub display_name: Seq<char>,
    pub skyspark_marker_tags: Seq<Seq<char>>,
    pub sensor_type: SensorType,
    pub unit: Option<Seq<char>>,
}

impl View for Sensor {
    type V = SensorView;

    open spec fn view(&self) -> SensorView {
        SensorView {
            id: self.id@,
            display_name: self.display_name@,
            skyspark_marker_tags: self.skyspark_marker_tags.deep_view(),
            sensor_type: self.sensor_type,
            unit: self.unit.deep_view(),
        }
    }
}

impl DeepView for Sensor {
    type V = SensorView;

    open spec fn deep_view(&self) -> SensorView {
        self.view()
    }
}

impl HasId for Sensor {
    open spec fn id_spec(&self) -> Seq<char> {
        self.id@
    }

    open spec fn view_id(v: SensorView) -> Seq<char> {
        v.id
    }

    proof fn id_view_compat(&self) {
    }

    fn id(&self) -> (r: String)
        ensures
            r@ == self.id_spec(),
    {
        self.id.clone()
    }
}

/// Links an `Asset` to a `Sensor`, with extra tags specific to the link.
#[derive(Clone, Debug, PartialEq, Eq)]
pub struct SensorInfo {
    pub sensor_id: String,
    pub extra_skyspark_marker_tags: Vec<String>,
}

/// The model of a `SensorInfo`.
#[verifier::ext_equal]
pub struct SensorInfoView {
    pub sensor_id: Seq<char>,
    pub extra_skyspark_marker_tags: Seq<Seq<char>>,
}

impl View for SensorInfo {
    type V = SensorInfoView;

    open spec fn view(&self) -> SensorInfoView {
        SensorInfoView {
            sensor_id: self.sensor_id@,
            extra_skyspark_marker_tags: self.extra_skyspark_marker_tags.deep_view(),
        }
    }
}

impl DeepView for SensorInfo {
    type V = SensorInfoView;

    open spec fn deep_view(&self) -> SensorInfoView {
        self.view()
    }
}

impl HasId for SensorInfo {
    open spec fn id_spec(&self) -> Seq<char> {
        self.sensor_id@
    }

    open spec fn view_id(v: SensorInfoView) -> Seq<char> {
        v.sensor_id
    }

    proof fn id_view_compat(&self) {
    }

    fn id(&self) -> (r: String)
        ensures
            r@ == self.id_spec(),
    {
        self.sensor_id.clone()
    }
}

/// An equipment definition: its own tags plus references to the sensors
/// it must or may provide.
#[derive(Clone, Debug, PartialEq, Eq)]
pub struct Asset {
    pub id: String,
    pub is_plant: Option<bool>,
    pub display_name: String,
    pub skyspark_marker_tags: Vec<String>,
    pub mandatory_sensors: Vec<SensorInfo>,
    pub optional_sensors: Vec<SensorInfo>,
    pub arms_asset_type_id: Option<u32>,
}

/// The model of an `Asset`.
#[verifier::ext_equal]
pub struct AssetView {
    pub id: Seq<char>,
    pub is_plant: Option<bool>,
    pub display_name: Seq<char>,
    pub skyspark_marker_tags: Seq<Seq<char>>,
    pub mandatory_sensors: Seq<SensorInfoView>,
    pub optional_sensors: Seq<SensorInfoView>,
    pub arms_asset_type_id: Option<u32>,
}

impl View for Asset {
    type V = AssetView;

    open spec fn view(&self) -> AssetView {
        AssetView {
            id: self.id@,
            is_plant: self.is_plant,
            display_name: self.display_name@,
            skyspark_marker_tags: self.skyspark_marker_tags.deep_view(),
            mandatory_sensors: self.mandatory_sensors.deep_view(),
            optional_sensors: self.optional_sensors.deep_view(),
            arms_asset_type_id: self.arms_asset_type_id,
        }
    }
}

impl DeepView for Asset {
    type V = AssetView;

    open spec fn deep_view(&self) -> AssetView {
        self.view()
    }
}

impl HasId for Asset {
    open spec fn id_spec(&self) -> Seq<char> {
        self.id@
    }

    open spec fn view_id(v: AssetView) -> Seq<char> {
        v.id
    }

    proof fn id_view_compat(&self) {
    }

    fn id(&self) -> (r: String)
        ensures
            r@ == self.id_spec(),
    {
        self.id.clone()
    }
}

} // verus!
