//! Normalization: trims every field, sorts every collection, producing
//! the canonical, diff-stable form of each catalog.

use vstd::prelude::*;
use crate::records::{Asset, AssetView, Sensor, SensorInfo, SensorInfoView, SensorView};
use crate::sorting::{deep_of, id_le_v, isort_by, lemma_id_le_v_key_order, lemma_isort_deep, lemma_isort_map_idempotent, lemma_isort_map_permutation, sort_by_id, HasId};
use crate::text::{lemma_trim_idempotent, str_le, trim_spec, trim_str};

verus! {

/// The order tags are sorted in: plain lexicographic.
pub open spec fn tag_le() -> spec_fn(Seq<char>, Seq<char>) -> bool {
    id_le_v::<String>()
}

/// Trimming, as a function value.
pub open spec fn trim_fn() -> spec_fn(Seq<char>) -> Seq<char> {
    |t: Seq<char>| trim_spec(t)
}

/// The canonical form of a tag list: every tag trimmed, then sorted.
pub open spec fn norm_tags(tags: Seq<Seq<char>>) -> Seq<Seq<char>> {
    isort_by(tags.map_values(trim_fn()), tag_le())
}

/// The canonical form of a sensor: id, display name and unit trimmed,
/// tags trimmed and sorted; type and unit presence unchanged.
pub open spec fn norm_sensor(s: SensorView) -> SensorView {
    SensorView {
        id: trim_spec(s.id),
        display_name: trim_spec(s.display_name),
        skyspark_marker_tags: norm_tags(s.skyspark_marker_tags),
        sensor_type: s.sensor_type,
        unit: match s.unit {
            Some(u) => Some(trim_spec(u)),
            None => None,
        },
    }
}

/// `norm_sensor` as a function value.
pub open spec fn norm_sensor_fn() -> spec_fn(SensorView) -> SensorView {
    |s: SensorView| norm_sensor(s)
}

/// The canonical form of a sensor catalog: each record canonical, the
/// list sorted by id.
pub open spec fn norm_sensors(sensors: Seq<SensorView>) -> Seq<SensorView> {
    isort_by(sensors.map_values(norm_sensor_fn()), id_le_v::<Sensor>())
}

/// The canonical form of a sensor link: its id trimmed, its extra tags
/// trimmed and sorted.
pub open spec fn norm_info(info: SensorInfoView) -> SensorInfoView {
    SensorInfoView {
        sensor_id: trim_spec(info.sensor_id),
        extra_skyspark_marker_tags: norm_tags(info.extra_skyspark_marker_tags),
    }
}

/// `norm_info` as a function value.
pub open spec fn norm_info_fn() -> spec_fn(SensorInfoView) -> SensorInfoView {
    |i: SensorInfoView| norm_info(i)
}

/// The canonical form of an asset's sensor links: each canonical, the
/// list sorted by the referenced sensor id.
pub open spec fn norm_infos(infos: Seq<SensorInfoView>) -> Seq<SensorInfoView> {
    isort_by(infos.map_values(norm_info_fn()), id_le_v::<SensorInfo>())
}

/// The canonical form of an asset: id and display name trimmed, tags
/// and both sensor-link lists canonical; the passthrough fields
/// (`is_plant`, `arms_asset_type_id`) unchanged.
pub open spec fn norm_asset(a: AssetView) -> AssetView {
    AssetView {
        id: trim_spec(a.id),
        is_plant: a.is_plant,
        display_name: trim_spec(a.display_name),
        skyspark_marker_tags: norm_tags(a.skyspark_marker_tags),
        mandatory_sensors: norm_infos(a.mandatory_sensors),
        optional_sensors: norm_infos(a.optional_sensors),
        arms_asset_type_id: a.arms_asset_type_id,
    }
}

/// `norm_asset` as a function value.
pub open spec fn norm_asset_fn() -> spec_fn(AssetView) -> AssetView {
    |a: AssetView| norm_asset(a)
}

/// The canonical form of an asset catalog.
pub open spec fn norm_assets(assets: Seq<AssetView>) -> Seq<AssetView> {
    isort_by(assets.map_values(norm_asset_fn()), id_le_v::<Asset>())
}

/// Trims every tag and sorts the list.
fn clean_tags(tags: &Vec<String>) -> (r: Vec<String>)
    ensures
        r.deep_view() == norm_tags(tags.deep_view()),
{
    let n = tags.len();
    let mut trimmed: Vec<String> = Vec::new();
    let mut i: usize = 0;
    proof {
        assert(trimmed.deep_view() =~= tags.deep_view().take(0).map_values(trim_fn()));
    }
    while i < n
        invariant
            i <= n,
            n == tags@.len(),
            trimmed.deep_view() == tags.deep_view().take(i as int).map_values(trim_fn()),
        decreases n - i,
    {
        let t = trim_str(tags[i].as_str());
        let ghost prev = trimmed.deep_view();
        trimmed.push(t);
        proof {
            assert(trimmed.deep_view() =~= prev.push(t@));
            assert(tags.deep_view().take(i + 1).map_values(trim_fn()) =~= tags.deep_view().take(
                i as int,
            ).map_values(trim_fn()).push(trim_spec(tags.deep_view()[i as int])));
            assert(tags.deep_view()[i as int] == tags@[i as int]@);
        }
        i = i + 1;
    }
    proof {
        assert(tags.deep_view().take(n as int) =~= tags.deep_view());
    }
    let r = sort_by_id(trimmed);
    proof {
        lemma_isort_deep::<String>(trimmed@);
        assert(r.deep_view() =~= deep_of(r@));
        assert(trimmed.deep_view() =~= deep_of(trimmed@));
    }
    r
}

/// Clean and sort the data in one sensor record.
fn clean_sensor(raw_sensor: &Sensor) -> (r: Sensor)
    ensures
        r@ == norm_sensor(raw_sensor@),
{
    let cleaned_tags = clean_tags(&raw_sensor.skyspark_marker_tags);
    let unit = match &raw_sensor.unit {
        Some(u) => Some(trim_str(u.as_str())),
        None => None,
    };
    let r = Sensor {
        id: trim_str(raw_sensor.id.as_str()),
        display_name: trim_str(raw_sensor.display_name.as_str()),
        skyspark_marker_tags: cleaned_tags,
        sensor_type: raw_sensor.sensor_type,
        unit,
    };
    proof {
        assert(r@ =~= norm_sensor(raw_sensor@));
    }
    r
}

/// Clean and sort the data in `raw_sensors`.
pub fn clean_raw_sensors(raw_sensors: Vec<Sensor>) -> (r: Vec<Sensor>)
    ensures
        r.deep_view() == norm_sensors(raw_sensors.deep_view()),
{
    let n = raw_sensors.len();
    let mut cleaned: Vec<Sensor> = Vec::new();
    let mut i: usize = 0;
    proof {
        assert(cleaned.deep_view() =~= raw_sensors.deep_view().take(0).map_values(
            norm_sensor_fn(),
        ));
    }
    while i < n
        invariant
            i <= n,
            n == raw_sensors@.len(),
            cleaned.deep_view() == raw_sensors.deep_view().take(i as int).map_values(
                norm_sensor_fn(),
            ),
        decreases n - i,
    {
        let s = clean_sensor(&raw_sensors[i]);
        let ghost prev = cleaned.deep_view();
        cleaned.push(s);
        proof {
            assert(cleaned.deep_view() =~= prev.push(s@));
            assert(raw_sensors.deep_view().take(i + 1).map_values(norm_sensor_fn())
                =~= raw_sensors.deep_view().take(i as int).map_values(norm_sensor_fn()).push(
                norm_sensor(raw_sensors.deep_view()[i as int]),
            ));
            assert(raw_sensors.deep_view()[i as int] == raw_sensors@[i as int]@);
        }
        i = i + 1;
    }
    proof {
        assert(raw_sensors.deep_view().take(n as int) =~= raw_sensors.deep_view());
    }
    let r = sort_by_id(cleaned);
    proof {
        lemma_isort_deep::<Sensor>(cleaned@);
        assert(r.deep_view() =~= deep_of(r@));
        assert(cleaned.deep_view() =~= deep_of(cleaned@));
    }
    r
}

/// Clean and sort the data in one sensor link.
fn clean_info(info: &SensorInfo) -> (r: SensorInfo)
    ensures
        r@ == norm_info(info@),
{
    let r = SensorInfo {
        sensor_id: trim_str(info.sensor_id.as_str()),
        extra_skyspark_marker_tags: clean_tags(&info.extra_skyspark_marker_tags),
    };
    proof {
        assert(r@ =~= norm_info(info@));
    }
    r
}

/// Clean and sort the data in `sensor_info`.
pub fn clean_raw_sensor_info(sensor_info: SensorInfo) -> (r: SensorInfo)
    ensures
        r@ == norm_info(sensor_info@),
{
    clean_info(&sensor_info)
}

/// Trims and sorts every sensor link of one list.
fn clean_infos(infos: &Vec<SensorInfo>) -> (r: Vec<SensorInfo>)
    ensures
        r.deep_view() == norm_infos(infos.deep_view()),
{
    let n = infos.len();
    let mut cleaned: Vec<SensorInfo> = Vec::new();
    let mut i: usize = 0;
    proof {
        assert(cleaned.deep_view() =~= infos.deep_view().take(0).map_values(norm_info_fn()));
    }
    while i < n
        invariant
            i <= n,
            n == infos@.len(),
            cleaned.deep_view() == infos.deep_view().take(i as int).map_values(norm_info_fn()),
        decreases n - i,
    {
        let s = clean_info(&infos[i]);
        let ghost prev = cleaned.deep_view();
        cleaned.push(s);
        proof {
            assert(cleaned.deep_view() =~= prev.push(s@));
            assert(infos.deep_view().take(i + 1).map_values(norm_info_fn())
                =~= infos.deep_view().take(i as int).map_values(norm_info_fn()).push(
                norm_info(infos.deep_view()[i as int]),
            ));
            assert(infos.deep_view()[i as int] == infos@[i as int]@);
        }
        i = i + 1;
    }
    proof {
        assert(infos.deep_view().take(n as int) =~= infos.deep_view());
    }
    let r = sort_by_id(cleaned);
    proof {
        lemma_isort_deep::<SensorInfo>(cleaned@);
        assert(r.deep_view() =~= deep_of(r@));
        assert(cleaned.deep_view() =~= deep_of(cleaned@));
    }
    r
}

/// Clean and sort the data in one asset record.
fn clean_asset(raw_asset: &Asset) -> (r: Asset)
    ensures
        r@ == norm_asset(raw_asset@),
{
    let r = Asset {
        id: trim_str(raw_asset.id.as_str()),
        is_plant: raw_asset.is_plant,
        display_name: trim_str(raw_asset.display_name.as_str()),
        skyspark_marker_tags: clean_tags(&raw_asset.skyspark_marker_tags),
        mandatory_sensors: clean_infos(&raw_asset.mandatory_sensors),
        optional_sensors: clean_infos(&raw_asset.optional_sensors),
        arms_asset_type_id: raw_asset.arms_asset_type_id,
    };
    proof {
        assert(r@ =~= norm_asset(raw_asset@));
    }
    r
}

/// Clean and sort the data in `raw_assets`.
pub fn clean_raw_assets(raw_assets: Vec<Asset>) -> (r: Vec<Asset>)
    ensures
        r.deep_view() == norm_assets(raw_assets.deep_view()),
{
    let n = raw_assets.len();
    let mut cleaned: Vec<Asset> = Vec::new();
    let mut i: usize = 0;
    proof {
        assert(cleaned.deep_view() =~= raw_assets.deep_view().take(0).map_values(norm_asset_fn()));
    }
    while i < n
        invariant
            i <= n,
            n == raw_assets@.len(),
            cleaned.deep_view() == raw_assets.deep_view().take(i as int).map_values(
                norm_asset_fn(),
            ),
        decreases n - i,
    {
        let s = clean_asset(&raw_assets[i]);
        let ghost prev = cleaned.deep_view();
        cleaned.push(s);
        proof {
            assert(cleaned.deep_view() =~= prev.push(s@));
            assert(raw_assets.deep_view().take(i + 1).map_values(norm_asset_fn())
                =~= raw_assets.deep_view().take(i as int).map_values(norm_asset_fn()).push(
                norm_asset(raw_assets.deep_view()[i as int]),
            ));
            assert(raw_assets.deep_view()[i as int] == raw_assets@[i as int]@);
        }
        i = i + 1;
    }
    proof {
        assert(raw_assets.deep_view().take(n as int) =~= raw_assets.deep_view());
    }
    let r = sort_by_id(cleaned);
    proof {
        lemma_isort_deep::<Asset>(cleaned@);
        assert(r.deep_view() =~= deep_of(r@));
        assert(cleaned.deep_view() =~= deep_of(cleaned@));
    }
    r
}

/// Canonical tags stay canonical: trimming and sorting a tag list a
/// second time changes nothing.
pub proof fn lemma_norm_tags_idempotent(tags: Seq<Seq<char>>)
    ensures
        norm_tags(norm_tags(tags)) == norm_tags(tags),
{
    lemma_id_le_v_key_order::<String>();
    assert forall|x: Seq<char>| #[trigger] trim_fn()(trim_fn()(x)) == trim_fn()(x) by {
        lemma_trim_idempotent(x);
    }
    lemma_isort_map_idempotent(tags, trim_fn(), tag_le());
}

/// A canonical sensor record is a fixed point of `norm_sensor`.
pub proof fn lemma_norm_sensor_idempotent(s: SensorView)
    ensures
        norm_sensor(norm_sensor(s)) == norm_sensor(s),
{
    lemma_trim_idempotent(s.id);
    lemma_trim_idempotent(s.display_name);
    if s.unit is Some {
        lemma_trim_idempotent(s.unit->0);
    }
    lemma_norm_tags_idempotent(s.skyspark_marker_tags);
    assert(norm_sensor(norm_sensor(s)) =~= norm_sensor(s));
}

/// A canonical sensor link is a fixed point of `norm_info`.
pub proof fn lemma_norm_info_idempotent(info: SensorInfoView)
    ensures
        norm_info(norm_info(info)) == norm_info(info),
{
    lemma_trim_idempotent(info.sensor_id);
    lemma_norm_tags_idempotent(info.extra_skyspark_marker_tags);
    assert(norm_info(norm_info(info)) =~= norm_info(info));
}

/// A canonical sensor-link list is a fixed point of `norm_infos`.
pub proof fn lemma_norm_infos_idempotent(infos: Seq<SensorInfoView>)
    ensures
        norm_infos(norm_infos(infos)) == norm_infos(infos),
{
    lemma_id_le_v_key_order::<SensorInfo>();
    assert forall|x: SensorInfoView| #[trigger] norm_info_fn()(norm_info_fn()(x)) == norm_info_fn()(
        x,
    ) by {
        lemma_norm_info_idempotent(x);
    }
    lemma_isort_map_idempotent(infos, norm_info_fn(), id_le_v::<SensorInfo>());
}

/// A canonical asset record is a fixed point of `norm_asset`.
pub proof fn lemma_norm_asset_idempotent(a: AssetView)
    ensures
        norm_asset(norm_asset(a)) == norm_asset(a),
{
    lemma_trim_idempotent(a.id);
    lemma_trim_idempotent(a.display_name);
    lemma_norm_tags_idempotent(a.skyspark_marker_tags);
    lemma_norm_infos_idempotent(a.mandatory_sensors);
    lemma_norm_infos_idempotent(a.optional_sensors);
    assert(norm_asset(norm_asset(a)) =~= norm_asset(a));
}

/// Normalization of a sensor catalog is idempotent: normalizing an
/// already-normalized catalog yields an identical result.
pub proof fn lemma_norm_sensors_idempotent(sensors: Seq<SensorView>)
    ensures
        norm_sensors(norm_sensors(sensors)) == norm_sensors(sensors),
{
    lemma_id_le_v_key_order::<Sensor>();
    assert forall|x: SensorView| #[trigger] norm_sensor_fn()(norm_sensor_fn()(x))
        == norm_sensor_fn()(x) by {
        lemma_norm_sensor_idempotent(x);
    }
    lemma_isort_map_idempotent(sensors, norm_sensor_fn(), id_le_v::<Sensor>());
}

/// Normalization of an asset catalog is idempotent.
pub proof fn lemma_norm_assets_idempotent(assets: Seq<AssetView>)
    ensures
        norm_assets(norm_assets(assets)) == norm_assets(assets),
{
    lemma_id_le_v_key_order::<Asset>();
    assert forall|x: AssetView| #[trigger] norm_asset_fn()(norm_asset_fn()(x)) == norm_asset_fn()(
        x,
    ) by {
        lemma_norm_asset_idempotent(x);
    }
    lemma_isort_map_idempotent(assets, norm_asset_fn(), id_le_v::<Asset>());
}

/// The id of a sensor model, as a function value.
pub open spec fn sensor_key() -> spec_fn(SensorView) -> Seq<char> {
    |v: SensorView| v.id
}

/// The id of an asset model, as a function value.
pub open spec fn asset_key() -> spec_fn(AssetView) -> Seq<char> {
    |v: AssetView| v.id
}

/// Normalization of a sensor catalog is order-independent: permuting
/// the input records yields the same normalized output, provided no
/// two records share an id once trimmed (records with equal ids keep
/// their relative input order instead).
pub proof fn lemma_norm_sensors_order_independent(s1: Seq<SensorView>, s2: Seq<SensorView>)
    requires
        s1.to_multiset() == s2.to_multiset(),
        s1.map_values(norm_sensor_fn()).map_values(sensor_key()).no_duplicates(),
    ensures
        norm_sensors(s1) == norm_sensors(s2),
{
    lemma_id_le_v_key_order::<Sensor>();
    assert forall|x: SensorView, y: SensorView| #[trigger] id_le_v::<Sensor>()(x, y) == str_le(
        sensor_key()(x),
        sensor_key()(y),
    ) by {}
    lemma_isort_map_permutation(s1, s2, norm_sensor_fn(), id_le_v::<Sensor>(), sensor_key());
}

/// Normalization of an asset catalog is order-independent, under the
/// same distinct-ids proviso.
pub proof fn lemma_norm_assets_order_independent(a1: Seq<AssetView>, a2: Seq<AssetView>)
    requires
        a1.to_multiset() == a2.to_multiset(),
        a1.map_values(norm_asset_fn()).map_values(asset_key()).no_duplicates(),
    ensures
        norm_assets(a1) == norm_assets(a2),
{
    lemma_id_le_v_key_order::<Asset>();
    assert forall|x: AssetView, y: AssetView| #[trigger] id_le_v::<Asset>()(x, y) == str_le(
        asset_key()(x),
        asset_key()(y),
    ) by {}
    lemma_isort_map_permutation(a1, a2, norm_asset_fn(), id_le_v::<Asset>(), asset_key());
}

} // verus!
