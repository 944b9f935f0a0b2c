//! The asset validator: field-level rules plus cross-references into
//! the sensor catalog and the asset-type catalog.

use vstd::prelude::*;
use crate::catalogs::AssetTypeCatalog;
use crate::records::{Asset, AssetView, Sensor, SensorInfo, SensorInfoView, SensorView};
use crate::sorting::{all_ids_unique, ids_of, HasId};
use crate::tags::{is_tag_name, is_tag_name_spec};
use crate::text::{dec_str, u32_to_string};
use crate::normalize::asset_key;

verus! {

/// One validation finding about an asset: the offending record's id
/// (or a placeholder marker) and a human-readable message.
#[derive(Clone, Debug, PartialEq, Eq)]
pub struct AssetError {
    pub asset_id: String,
    pub msg: String,
}

/// The model of an `AssetError`.
#[verifier::ext_equal]
pub struct AssetErrorView {
    pub asset_id: Seq<char>,
    pub msg: Seq<char>,
}

impl View for AssetError {
    type V = AssetErrorView;

    open spec fn view(&self) -> AssetErrorView {
        AssetErrorView { asset_id: self.asset_id@, msg: self.msg@ }
    }
}

impl DeepView for AssetError {
    type V = AssetErrorView;

    open spec fn deep_view(&self) -> AssetErrorView {
        self.view()
    }
}

impl AssetError {
    /// Builds a finding from an id and a message.
    pub fn new(asset_id: &str, msg: &str) -> (r: AssetError)
        ensures
            r@ == (AssetErrorView { asset_id: asset_id@, msg: msg@ }),
    {
        AssetError { asset_id: asset_id.to_owned(), msg: msg.to_owned() }
    }
}

/// A finding, at the model level.
pub open spec fn aerr(asset_id: Seq<char>, msg: Seq<char>) -> AssetErrorView {
    AssetErrorView { asset_id, msg }
}

/// One finding under `cond`, else none.
pub open spec fn aerr_if(cond: bool, id: Seq<char>, msg: Seq<char>) -> Seq<AssetErrorView> {
    if cond {
        seq![aerr(id, msg)]
    } else {
        Seq::<AssetErrorView>::empty()
    }
}

pub open spec fn msg_asset_empty_id() -> Seq<char> {
    "An asset has an empty id"@
}

pub open spec fn msg_asset_no_tags() -> Seq<char> {
    "No SkySpark marker tags"@
}

pub open spec fn msg_asset_invalid_tag(tag: Seq<char>) -> Seq<char> {
    "Invalid SkySpark marker tag '"@ + tag + "'"@
}

pub open spec fn msg_asset_empty_display_name() -> Seq<char> {
    "Empty display name"@
}

pub open spec fn msg_no_mandatory_sensors() -> Seq<char> {
    "No mandatory sensors"@
}

pub open spec fn msg_info_empty_id() -> Seq<char> {
    "Sensor has an empty id"@
}

pub open spec fn msg_no_matching_sensor(sensor_id: Seq<char>) -> Seq<char> {
    "No matching sensor with id '"@ + sensor_id + "'"@
}

pub open spec fn msg_duplicate_tags(sensor_id: Seq<char>) -> Seq<char> {
    "Sensor '"@ + sensor_id + "' has duplicate tags"@
}

pub open spec fn msg_union_invalid_tag(tag: Seq<char>) -> Seq<char> {
    "Invalid tag "@ + tag
}

pub open spec fn msg_duplicate_sensor_ids() -> Seq<char> {
    "Duplicate sensor ids"@
}

pub open spec fn msg_invalid_type_id(t: u32) -> Seq<char> {
    "Invalid AssetTypeID "@ + dec_str(t as int)
}

pub open spec fn msg_duplicate_asset_ids() -> Seq<char> {
    "Some assets have duplicate ids"@
}

/// The tag of a developer (virtual) asset, exempt from the mandatory
/// sensors rule.
pub open spec fn developer_tag() -> Seq<char> {
    "developer"@
}

/// The id-to-record lookup a sensor list induces: on a repeated id the
/// later record wins.
pub open spec fn map_of(sensors: Seq<SensorView>) -> Map<Seq<char>, SensorView>
    decreases sensors.len(),
{
    if sensors.len() == 0 {
        Map::<Seq<char>, SensorView>::empty()
    } else {
        map_of(sensors.drop_last()).insert(sensors.last().id, sensors.last())
    }
}

/// An id-keyed lookup of sensors.
pub struct SensorMap {
    pub entries: Vec<Sensor>,
}

impl View for SensorMap {
    type V = Map<Seq<char>, SensorView>;

    open spec fn view(&self) -> Map<Seq<char>, SensorView> {
        map_of(self.entries.deep_view())
    }
}

/// A key is present exactly when some entry carries it, and it maps to
/// the last entry that does.
pub proof fn lemma_map_of_get(s: Seq<SensorView>, k: Seq<char>)
    ensures
        map_of(s).contains_key(k) <==> exists|i: int| 0 <= i < s.len() && s[i].id == k,
        forall|j: int|
            0 <= j < s.len() && s[j].id == k && (forall|l: int|
                j < l < s.len() ==> s[l].id != k) ==> map_of(s).contains_key(k) && map_of(s)[k]
                == s[j],
    decreases s.len(),
{
    if s.len() > 0 {
        lemma_map_of_get(s.drop_last(), k);
        assert forall|i: int| 0 <= i < s.drop_last().len() implies s.drop_last()[i] == s[i] by {}
        if s.last().id == k {
        } else {
            assert(map_of(s).contains_key(k) == map_of(s.drop_last()).contains_key(k));
        }
    }
}

/// Return a map which maps the sensor's id to the `Sensor` struct itself.
pub fn sensors_to_sensor_map(sensors: Vec<Sensor>) -> (r: SensorMap)
    ensures
        r@ == map_of(sensors.deep_view()),
        r.entries == sensors,
{
    SensorMap { entries: sensors }
}

impl SensorMap {
    /// Looks a sensor up by id.
    pub fn get(&self, sensor_id: &String) -> (r: Option<&Sensor>)
        ensures
            match r {
                Some(s) => self@.contains_key(sensor_id@) && s@ == self@[sensor_id@],
                None => !self@.contains_key(sensor_id@),
            },
    {
        let ghost sv = self.entries.deep_view();
        let n = self.entries.len();
        let mut i: usize = n;
        while i > 0
            invariant
                i <= n,
                n == self.entries@.len(),
                sv == self.entries.deep_view(),
                forall|l: int| i <= l < n ==> sv[l].id != sensor_id@,
            decreases i,
        {
            i = i - 1;
            if self.entries[i].id.eq(sensor_id) {
                proof {
                    assert(sv[i as int] == self.entries@[i as int]@);
                    assert(sv[i as int].id == sensor_id@);
                    lemma_map_of_get(sv, sensor_id@);
                }
                return Some(&self.entries[i]);
            }
            proof {
                assert(sv[i as int] == self.entries@[i as int]@);
            }
        }
        proof {
            lemma_map_of_get(sv, sensor_id@);
        }
        None
    }
}

/// The first occurrence of each value, in order of first appearance.
pub open spec fn dedup_first(s: Seq<Seq<char>>) -> Seq<Seq<char>>
    decreases s.len(),
{
    if s.len() == 0 {
        Seq::<Seq<char>>::empty()
    } else if s.drop_last().contains(s.last()) {
        dedup_first(s.drop_last())
    } else {
        dedup_first(s.drop_last()).push(s.last())
    }
}

/// `dedup_first` keeps the elements, never grows, has no duplicates,
/// and keeps the length exactly when there was no duplicate.
pub proof fn lemma_dedup_first_props(s: Seq<Seq<char>>)
    ensures
        dedup_first(s).len() <= s.len(),
        dedup_first(s).len() == s.len() <==> s.no_duplicates(),
        forall|x: Seq<char>| dedup_first(s).contains(x) <==> s.contains(x),
        dedup_first(s).no_duplicates(),
    decreases s.len(),
{
    if s.len() > 0 {
        let p = s.drop_last();
        lemma_dedup_first_props(p);
        assert forall|x: Seq<char>| s.contains(x) implies dedup_first(s).contains(x) by {
            let i = choose|i: int| 0 <= i < s.len() && s[i] == x;
            if i < s.len() - 1 {
                assert(p[i] == x);
                assert(p.contains(x));
                if p.contains(s.last()) {
                } else {
                    assert(dedup_first(p).contains(x));
                    let j = choose|j: int|
                        0 <= j < dedup_first(p).len() && dedup_first(p)[j] == x;
                    assert(dedup_first(s)[j] == x);
                }
            } else {
                if p.contains(s.last()) {
                    assert(p.contains(x));
                } else {
                    assert(dedup_first(s).last() == x);
                }
            }
        }
        assert forall|x: Seq<char>| dedup_first(s).contains(x) implies s.contains(x) by {
            if p.contains(s.last()) {
                assert(dedup_first(p).contains(x));
                assert(p.contains(x));
                let i = choose|i: int| 0 <= i < p.len() && p[i] == x;
                assert(s[i] == x);
            } else {
                let j = choose|j: int| 0 <= j < dedup_first(s).len() && dedup_first(s)[j] == x;
                if j < dedup_first(p).len() {
                    assert(dedup_first(p)[j] == x);
                    assert(p.contains(x));
                    let i = choose|i: int| 0 <= i < p.len() && p[i] == x;
                    assert(s[i] == x);
                } else {
                    assert(x == s.last());
                    assert(s[s.len() - 1] == x);
                }
            }
        }
        if p.contains(s.last()) {
            assert(!s.no_duplicates()) by {
                let i = choose|i: int| 0 <= i < p.len() && p[i] == s.last();
                assert(s[i] == s.last());
            }
            assert(dedup_first(s).len() < s.len());
        } else {
            assert(s.no_duplicates() <==> p.no_duplicates()) by {
                if p.no_duplicates() {
                    assert forall|a: int, b: int|
                        0 <= a < s.len() && 0 <= b < s.len() && a != b implies s[a] != s[b] by {
                        if a < s.len() - 1 && b < s.len() - 1 {
                            assert(p[a] == s[a] && p[b] == s[b]);
                        } else if a == s.len() - 1 && b < s.len() - 1 {
                            assert(p[b] == s[b]);
                            if s[a] == s[b] {
                                assert(p.contains(s.last()));
                            }
                        } else if b == s.len() - 1 && a < s.len() - 1 {
                            assert(p[a] == s[a]);
                            if s[a] == s[b] {
                                assert(p.contains(s.last()));
                            }
                        }
                    }
                } else {
                    let (a, b) = choose|a: int, b: int|
                        0 <= a < p.len() && 0 <= b < p.len() && a != b && p[a] == p[b];
                    assert(s[a] == p[a] && s[b] == p[b]);
                }
            }
            assert(dedup_first(s).no_duplicates()) by {
                let dp = dedup_first(p);
                assert forall|a: int, b: int|
                    0 <= a < dp.push(s.last()).len() && 0 <= b < dp.push(s.last()).len() && a != b
                    implies dp.push(s.last())[a] != dp.push(s.last())[b] by {
                    if a < dp.len() && b < dp.len() {
                    } else if a == dp.len() && b < dp.len() {
                        if dp[b] == s.last() {
                            assert(dp.contains(s.last()));
                            assert(p.contains(s.last()));
                        }
                    } else if b == dp.len() && a < dp.len() {
                        if dp[a] == s.last() {
                            assert(dp.contains(s.last()));
                            assert(p.contains(s.last()));
                        }
                    }
                }
            }
        }
    }
}

/// Whether a vector of strings holds the given value.
fn contains_string(items: &Vec<String>, x: &String) -> (r: bool)
    ensures
        r == items.deep_view().contains(x@),
{
    let n = items.len();
    let mut i: usize = 0;
    while i < n
        invariant
            i <= n,
            n == items@.len(),
            forall|k: int| 0 <= k < i ==> items.deep_view()[k] != x@,
        decreases n - i,
    {
        if items[i].eq(x) {
            proof {
                assert(items.deep_view()[i as int] == x@);
            }
            return true;
        }
        i = i + 1;
    }
    proof {
        if items.deep_view().contains(x@) {
            let k = choose|k: int|
                0 <= k < items.deep_view().len() && items.deep_view()[k] == x@;
            assert(false);
        }
    }
    false
}

/// The first occurrence of each string, in order.
fn dedup_strings(items: &Vec<String>) -> (r: Vec<String>)
    ensures
        r.deep_view() == dedup_first(items.deep_view()),
{
    let n = items.len();
    let mut out: Vec<String> = Vec::new();
    let mut i: usize = 0;
    proof {
        assert(out.deep_view() =~= dedup_first(items.deep_view().take(0)));
    }
    while i < n
        invariant
            i <= n,
            n == items@.len(),
            out.deep_view() == dedup_first(items.deep_view().take(i as int)),
        decreases n - i,
    {
        proof {
            lemma_dedup_first_props(items.deep_view().take(i as int));
            assert(items.deep_view().take(i + 1).drop_last() =~= items.deep_view().take(i as int));
            assert(items.deep_view().take(i + 1).last() == items.deep_view()[i as int]);
            assert(items.deep_view()[i as int] == items@[i as int]@);
        }
        if !contains_string(&out, &items[i]) {
            let ghost prev = out.deep_view();
            out.push(items[i].clone());
            proof {
                assert(out.deep_view() =~= prev.push(items.deep_view()[i as int]));
            }
        }
        i = i + 1;
    }
    proof {
        assert(items.deep_view().take(n as int) =~= items.deep_view());
    }
    out
}

/// The referenced sensor's own tags followed by the link's extra tags.
pub open spec fn combined_tags(sensor: SensorView, info: SensorInfoView) -> Seq<Seq<char>> {
    sensor.skyspark_marker_tags + info.extra_skyspark_marker_tags
}

/// One finding per union tag that is not a legal tag name, in first
/// appearance order.
pub open spec fn union_tag_errs(asset_id: Seq<char>, tags: Seq<Seq<char>>) -> Seq<AssetErrorView>
    decreases tags.len(),
{
    if tags.len() == 0 {
        Seq::<AssetErrorView>::empty()
    } else {
        union_tag_errs(asset_id, tags.drop_last()) + aerr_if(
            !is_tag_name_spec(tags.last()),
            asset_id,
            msg_union_invalid_tag(tags.last()),
        )
    }
}

/// The findings of one sensor link: an empty reference id, a dangling
/// reference, duplicate tags between the sensor and the link's extras,
/// and illegal tags in their union.
pub open spec fn info_errs(
    info: SensorInfoView,
    smap: Map<Seq<char>, SensorView>,
    asset_id: Seq<char>,
) -> Seq<AssetErrorView> {
    aerr_if(info.sensor_id.len() == 0, asset_id, msg_info_empty_id()) + (
    if !smap.contains_key(info.sensor_id) {
        seq![aerr(asset_id, msg_no_matching_sensor(info.sensor_id))]
    } else {
        let c = combined_tags(smap[info.sensor_id], info);
        aerr_if(!c.no_duplicates(), asset_id, msg_duplicate_tags(info.sensor_id)) + union_tag_errs(
            asset_id,
            dedup_first(c),
        )
    })
}

/// The findings of a list of sensor links, in order.
pub open spec fn infos_errs(
    infos: Seq<SensorInfoView>,
    smap: Map<Seq<char>, SensorView>,
    asset_id: Seq<char>,
) -> Seq<AssetErrorView>
    decreases infos.len(),
{
    if infos.len() == 0 {
        Seq::<AssetErrorView>::empty()
    } else {
        infos_errs(infos.drop_last(), smap, asset_id) + info_errs(infos.last(), smap, asset_id)
    }
}

/// The ids referenced by an asset's sensor links, mandatory then
/// optional.
pub open spec fn linked_sensor_ids(a: AssetView) -> Seq<Seq<char>> {
    a.mandatory_sensors.map_values(|i: SensorInfoView| i.sensor_id)
        + a.optional_sensors.map_values(|i: SensorInfoView| i.sensor_id)
}

/// The asset-type finding: an id present but unknown to the catalog.
pub open spec fn type_id_errs(a: AssetView, typeids: Set<u32>) -> Seq<AssetErrorView> {
    match a.arms_asset_type_id {
        Some(t) => aerr_if(!typeids.contains(t), a.id, msg_invalid_type_id(t)),
        None => Seq::<AssetErrorView>::empty(),
    }
}

/// The field-level findings of one asset: its own id, tags, display
/// name and the mandatory-sensors rule.
pub open spec fn asset_field_errs(a: AssetView) -> Seq<AssetErrorView> {
    aerr_if(a.id.len() == 0, crate::sensor_check::id_placeholder(), msg_asset_empty_id())
        + aerr_if(a.skyspark_marker_tags.len() == 0, a.id, msg_asset_no_tags()) + asset_tag_errs(
        a.id,
        a.skyspark_marker_tags,
    ) + aerr_if(a.display_name.len() == 0, a.id, msg_asset_empty_display_name()) + aerr_if(
        a.mandatory_sensors.len() == 0 && !a.skyspark_marker_tags.contains(developer_tag()),
        a.id,
        msg_no_mandatory_sensors(),
    )
}

/// All findings of one asset, in the order they are checked: the
/// field-level findings, then both sensor-link lists, the duplicate
/// link check, and the asset-type check.
pub open spec fn asset_errs(
    a: AssetView,
    smap: Map<Seq<char>, SensorView>,
    typeids: Set<u32>,
) -> Seq<AssetErrorView> {
    asset_field_errs(a) + infos_errs(a.mandatory_sensors, smap, a.id) + infos_errs(
        a.optional_sensors,
        smap,
        a.id,
    ) + aerr_if(!linked_sensor_ids(a).no_duplicates(), a.id, msg_duplicate_sensor_ids())
        + type_id_errs(a, typeids)
}

/// One finding per asset tag that is not a legal tag name, in order.
pub open spec fn asset_tag_errs(id: Seq<char>, tags: Seq<Seq<char>>) -> Seq<AssetErrorView>
    decreases tags.len(),
{
    if tags.len() == 0 {
        Seq::<AssetErrorView>::empty()
    } else {
        asset_tag_errs(id, tags.drop_last()) + aerr_if(
            !is_tag_name_spec(tags.last()),
            id,
            msg_asset_invalid_tag(tags.last()),
        )
    }
}

/// The per-asset findings of a list, record by record.
pub open spec fn assets_errs(
    assets: Seq<AssetView>,
    smap: Map<Seq<char>, SensorView>,
    typeids: Set<u32>,
) -> Seq<AssetErrorView>
    decreases assets.len(),
{
    if assets.len() == 0 {
        Seq::<AssetErrorView>::empty()
    } else {
        assets_errs(assets.drop_last(), smap, typeids) + asset_errs(assets.last(), smap, typeids)
    }
}

/// All findings of an asset list: the per-record pass, then one
/// aggregate finding when ids repeat.
pub open spec fn asset_errors_spec(
    assets: Seq<AssetView>,
    smap: Map<Seq<char>, SensorView>,
    typeids: Set<u32>,
) -> Seq<AssetErrorView> {
    assets_errs(assets, smap, typeids) + aerr_if(
        !assets.map_values(asset_key()).no_duplicates(),
        crate::sensor_check::id_aggregate(),
        msg_duplicate_asset_ids(),
    )
}

/// Return true only if there are duplicate sensor ids in the given
/// lists, taken together.
pub fn has_duplicate_sensor_ids(
    mandatory_sensors: &[SensorInfo],
    optional_sensors: &[SensorInfo],
) -> (r: bool)
    ensures
        r == !(ids_of(mandatory_sensors@) + ids_of(optional_sensors@)).no_duplicates(),
{
    let mut combined: Vec<String> = Vec::new();
    let n1 = mandatory_sensors.len();
    let mut i: usize = 0;
    while i < n1
        invariant
            i <= n1,
            n1 == mandatory_sensors@.len(),
            combined.deep_view() == ids_of(mandatory_sensors@).take(i as int),
        decreases n1 - i,
    {
        let ghost prev = combined.deep_view();
        combined.push(mandatory_sensors[i].id());
        proof {
            assert(combined.deep_view() =~= prev.push(mandatory_sensors@[i as int].id_spec()));
            assert(ids_of(mandatory_sensors@).take(i + 1) =~= ids_of(mandatory_sensors@).take(
                i as int,
            ).push(mandatory_sensors@[i as int].id_spec()));
        }
        i = i + 1;
    }
    let n2 = optional_sensors.len();
    let mut j: usize = 0;
    proof {
        assert(ids_of(mandatory_sensors@).take(n1 as int) =~= ids_of(mandatory_sensors@));
        assert(ids_of(optional_sensors@).take(0) =~= Seq::<Seq<char>>::empty());
        assert(combined.deep_view() =~= ids_of(mandatory_sensors@) + ids_of(
            optional_sensors@,
        ).take(0));
    }
    while j < n2
        invariant
            j <= n2,
            n2 == optional_sensors@.len(),
            combined.deep_view() == ids_of(mandatory_sensors@) + ids_of(optional_sensors@).take(
                j as int,
            ),
        decreases n2 - j,
    {
        let ghost prev = combined.deep_view();
        combined.push(optional_sensors[j].id());
        proof {
            assert(combined.deep_view() =~= prev.push(optional_sensors@[j as int].id_spec()));
            assert(ids_of(optional_sensors@).take(j + 1) =~= ids_of(optional_sensors@).take(
                j as int,
            ).push(optional_sensors@[j as int].id_spec()));
            assert(combined.deep_view() =~= ids_of(mandatory_sensors@) + ids_of(
                optional_sensors@,
            ).take(j + 1));
        }
        j = j + 1;
    }
    proof {
        assert(ids_of(optional_sensors@).take(n2 as int) =~= ids_of(optional_sensors@));
        assert(ids_of(combined@) =~= combined.deep_view());
    }
    !all_ids_unique(combined.as_slice())
}

/// Appends all findings of one sensor link.
#[verifier::rlimit(60)]
fn check_info(
    errs: &mut Vec<AssetError>,
    info: &SensorInfo,
    sensors: &SensorMap,
    asset_id: &str,
)
    ensures
        final(errs).deep_view() == old(errs).deep_view() + info_errs(info@, sensors@, asset_id@),
{
    let ghost iv = info@;
    let ghost base = errs.deep_view();
    if info.sensor_id.as_str().is_empty() {
        let e = AssetError::new(asset_id, "Sensor has an empty id");
        let ghost prev = errs.deep_view();
        errs.push(e);
        proof {
            assert(errs.deep_view() =~= prev + seq![e@]);
        }
    }
    let ghost seg_a = aerr_if(iv.sensor_id.len() == 0, asset_id@, msg_info_empty_id());
    proof {
        assert(errs.deep_view() =~= base + seg_a);
    }
    match sensors.get(&info.sensor_id) {
        None => {
            let msg = String::from_str("No matching sensor with id '").concat(
                info.sensor_id.as_str(),
            ).concat("'");
            let e = AssetError::new(asset_id, msg.as_str());
            let ghost prev = errs.deep_view();
            errs.push(e);
            proof {
                assert(e@.msg == msg_no_matching_sensor(iv.sensor_id));
                assert(errs.deep_view() =~= prev + seq![e@]);
                assert(errs.deep_view() =~= base + info_errs(iv, sensors@, asset_id@));
            }
        },
        Some(sensor) => {
            let ghost c = combined_tags(sensors@[iv.sensor_id], iv);
            let mut combined: Vec<String> = Vec::new();
            let m1 = sensor.skyspark_marker_tags.len();
            let mut i: usize = 0;
            while i < m1
                invariant
                    i <= m1,
                    m1 == sensor.skyspark_marker_tags@.len(),
                    combined.deep_view() == sensor.skyspark_marker_tags.deep_view().take(i as int),
                decreases m1 - i,
            {
                let ghost prev = combined.deep_view();
                combined.push(sensor.skyspark_marker_tags[i].clone());
                proof {
                    assert(combined.deep_view() =~= prev.push(
                        sensor.skyspark_marker_tags.deep_view()[i as int],
                    ));
                    assert(sensor.skyspark_marker_tags.deep_view().take(i + 1)
                        =~= sensor.skyspark_marker_tags.deep_view().take(i as int).push(
                        sensor.skyspark_marker_tags.deep_view()[i as int],
                    ));
                }
                i = i + 1;
            }
            let m2 = info.extra_skyspark_marker_tags.len();
            let mut j: usize = 0;
            proof {
                assert(sensor.skyspark_marker_tags.deep_view().take(m1 as int)
                    =~= sensor.skyspark_marker_tags.deep_view());
                assert(sensor.skyspark_marker_tags.deep_view() == sensor@.skyspark_marker_tags);
                assert(sensor@ == sensors@[iv.sensor_id]);
                assert(combined.deep_view() =~= sensors@[iv.sensor_id].skyspark_marker_tags
                    + iv.extra_skyspark_marker_tags.take(0));
            }
            while j < m2
                invariant
                    j <= m2,
                    m2 == info.extra_skyspark_marker_tags@.len(),
                    iv == info@,
                    c == combined_tags(sensors@[iv.sensor_id], iv),
                    combined.deep_view() == sensors@[iv.sensor_id].skyspark_marker_tags
                        + iv.extra_skyspark_marker_tags.take(j as int),
                decreases m2 - j,
            {
                let ghost prev = combined.deep_view();
                combined.push(info.extra_skyspark_marker_tags[j].clone());
                proof {
                    assert(combined.deep_view() =~= prev.push(
                        iv.extra_skyspark_marker_tags[j as int],
                    ));
                    assert(iv.extra_skyspark_marker_tags.take(j + 1)
                        =~= iv.extra_skyspark_marker_tags.take(j as int).push(
                        iv.extra_skyspark_marker_tags[j as int],
                    ));
                    assert(combined.deep_view() =~= sensors@[iv.sensor_id].skyspark_marker_tags
                        + iv.extra_skyspark_marker_tags.take(j + 1));
                }
                j = j + 1;
            }
            proof {
                assert(iv.extra_skyspark_marker_tags.take(m2 as int)
                    =~= iv.extra_skyspark_marker_tags);
                assert(combined.deep_view() =~= c);
            }
            let unique = dedup_strings(&combined);
            proof {
                lemma_dedup_first_props(c);
            }
            if unique.len() != combined.len() {
                let msg = String::from_str("Sensor '").concat(info.sensor_id.as_str()).concat(
                    "' has duplicate tags",
                );
                let e = AssetError::new(asset_id, msg.as_str());
                let ghost prev = errs.deep_view();
                errs.push(e);
                proof {
                    assert(e@.msg == msg_duplicate_tags(iv.sensor_id));
                    assert(errs.deep_view() =~= prev + seq![e@]);
                }
            }
            let ghost seg_b = aerr_if(
                !c.no_duplicates(),
                asset_id@,
                msg_duplicate_tags(iv.sensor_id),
            );
            proof {
                assert(errs.deep_view() =~= base + seg_a + seg_b);
                assert(dedup_first(c).take(0) =~= Seq::<Seq<char>>::empty());
            }
            let mu = unique.len();
            let mut k: usize = 0;
            while k < mu
                invariant
                    k <= mu,
                    mu == unique@.len(),
                    unique.deep_view() == dedup_first(c),
                    errs.deep_view() == base + seg_a + seg_b + union_tag_errs(
                        asset_id@,
                        dedup_first(c).take(k as int),
                    ),
                decreases mu - k,
            {
                let tag = &unique[k];
                proof {
                    assert(dedup_first(c)[k as int] == unique@[k as int]@);
                    assert(dedup_first(c).take(k + 1).drop_last() =~= dedup_first(c).take(
                        k as int,
                    ));
                    assert(dedup_first(c).take(k + 1).last() == dedup_first(c)[k as int]);
                }
                if !is_tag_name(tag.as_str()) {
                    let msg = String::from_str("Invalid tag ").concat(tag.as_str());
                    let e = AssetError::new(asset_id, msg.as_str());
                    let ghost prev = errs.deep_view();
                    errs.push(e);
                    proof {
                        assert(e@.msg == msg_union_invalid_tag(dedup_first(c)[k as int]));
                        assert(errs.deep_view() =~= prev + seq![e@]);
                        assert(errs.deep_view() =~= base + seg_a + seg_b + union_tag_errs(
                            asset_id@,
                            dedup_first(c).take(k + 1),
                        ));
                    }
                } else {
                    proof {
                        assert(union_tag_errs(asset_id@, dedup_first(c).take(k + 1))
                            =~= union_tag_errs(asset_id@, dedup_first(c).take(k as int)));
                    }
                }
                k = k + 1;
            }
            proof {
                assert(dedup_first(c).take(mu as int) =~= dedup_first(c));
                assert(errs.deep_view() =~= base + info_errs(iv, sensors@, asset_id@));
            }
        },
    }
}

/// Return all the errors present in an asset's sensors.
pub fn check_asset_sensors(
    sensor_infos: &[SensorInfo],
    sensors: &SensorMap,
    asset_id: &str,
) -> (errs: Vec<AssetError>)
    ensures
        errs.deep_view() == infos_errs(sensor_infos.deep_view(), sensors@, asset_id@),
{
    let n = sensor_infos.len();
    let mut errs: Vec<AssetError> = Vec::new();
    let mut i: usize = 0;
    proof {
        assert(errs.deep_view() =~= infos_errs(
            sensor_infos.deep_view().take(0),
            sensors@,
            asset_id@,
        ));
    }
    while i < n
        invariant
            i <= n,
            n == sensor_infos@.len(),
            errs.deep_view() == infos_errs(
                sensor_infos.deep_view().take(i as int),
                sensors@,
                asset_id@,
            ),
        decreases n - i,
    {
        check_info(&mut errs, &sensor_infos[i], sensors, asset_id);
        proof {
            assert(sensor_infos.deep_view()[i as int] == sensor_infos@[i as int]@);
            assert(sensor_infos.deep_view().take(i + 1).drop_last()
                =~= sensor_infos.deep_view().take(i as int));
            assert(sensor_infos.deep_view().take(i + 1).last() == sensor_infos.deep_view()[
                i as int
            ]);
        }
        i = i + 1;
    }
    proof {
        assert(sensor_infos.deep_view().take(n as int) =~= sensor_infos.deep_view());
    }
    errs
}

/// Whether the asset's tags include the developer tag.
fn has_developer_tag(tags: &Vec<String>) -> (r: bool)
    ensures
        r == tags.deep_view().contains(developer_tag()),
{
    let needle = String::from_str("developer");
    let r = contains_string(tags, &needle);
    r
}

/// Appends the field-level findings of one asset.
#[verifier::rlimit(60)]
fn check_asset_fields(errs: &mut Vec<AssetError>, asset: &Asset)
    ensures
        final(errs).deep_view() == old(errs).deep_view() + asset_field_errs(asset@),
{
    let ghost av = asset@;
    let ghost base = errs.deep_view();
    if asset.id.as_str().is_empty() {
        let e = AssetError::new("?", "An asset has an empty id");
        let ghost prev = errs.deep_view();
        errs.push(e);
        proof {
            assert(errs.deep_view() =~= prev + seq![e@]);
        }
    }
    let ghost seg_a = aerr_if(
        av.id.len() == 0,
        crate::sensor_check::id_placeholder(),
        msg_asset_empty_id(),
    );
    proof {
        assert(errs.deep_view() =~= base + seg_a);
    }
    if asset.skyspark_marker_tags.len() == 0 {
        let e = AssetError::new(asset.id.as_str(), "No SkySpark marker tags");
        let ghost prev = errs.deep_view();
        errs.push(e);
        proof {
            assert(errs.deep_view() =~= prev + seq![e@]);
        }
    }
    let ghost seg_b = aerr_if(av.skyspark_marker_tags.len() == 0, av.id, msg_asset_no_tags());
    proof {
        assert(errs.deep_view() =~= base + seg_a + seg_b);
        assert(av.skyspark_marker_tags.take(0) =~= Seq::<Seq<char>>::empty());
    }
    let m = asset.skyspark_marker_tags.len();
    let mut j: usize = 0;
    while j < m
        invariant
            j <= m,
            av == asset@,
            m == asset.skyspark_marker_tags@.len(),
            errs.deep_view() == base + seg_a + seg_b + asset_tag_errs(
                av.id,
                av.skyspark_marker_tags.take(j as int),
            ),
        decreases m - j,
    {
        let tag = &asset.skyspark_marker_tags[j];
        proof {
            assert(av.skyspark_marker_tags[j as int] == asset.skyspark_marker_tags@[j as int]@);
            assert(av.skyspark_marker_tags.take(j + 1).drop_last() =~= av.skyspark_marker_tags.take(
                j as int,
            ));
            assert(av.skyspark_marker_tags.take(j + 1).last() == av.skyspark_marker_tags[j as int]);
        }
        if !is_tag_name(tag.as_str()) {
            let msg = String::from_str("Invalid SkySpark marker tag '").concat(
                tag.as_str(),
            ).concat("'");
            let e = AssetError::new(asset.id.as_str(), msg.as_str());
            let ghost prev = errs.deep_view();
            errs.push(e);
            proof {
                assert(e@.msg == msg_asset_invalid_tag(av.skyspark_marker_tags[j as int]));
                assert(errs.deep_view() =~= prev + seq![e@]);
                assert(errs.deep_view() =~= base + seg_a + seg_b + asset_tag_errs(
                    av.id,
                    av.skyspark_marker_tags.take(j + 1),
                ));
            }
        } else {
            proof {
                assert(asset_tag_errs(av.id, av.skyspark_marker_tags.take(j + 1))
                    =~= asset_tag_errs(av.id, av.skyspark_marker_tags.take(j as int)));
            }
        }
        j = j + 1;
    }
    let ghost seg_c = asset_tag_errs(av.id, av.skyspark_marker_tags);
    proof {
        assert(av.skyspark_marker_tags.take(m as int) =~= av.skyspark_marker_tags);
        assert(errs.deep_view() =~= base + seg_a + seg_b + seg_c);
    }
    if asset.display_name.as_str().is_empty() {
        let e = AssetError::new(asset.id.as_str(), "Empty display name");
        let ghost prev = errs.deep_view();
        errs.push(e);
        proof {
            assert(errs.deep_view() =~= prev + seq![e@]);
        }
    }
    let ghost seg_d = aerr_if(av.display_name.len() == 0, av.id, msg_asset_empty_display_name());
    proof {
        assert(errs.deep_view() =~= base + seg_a + seg_b + seg_c + seg_d);
    }
    let is_dev_equip = has_developer_tag(&asset.skyspark_marker_tags);
    if asset.mandatory_sensors.len() == 0 && !is_dev_equip {
        let e = AssetError::new(asset.id.as_str(), "No mandatory sensors");
        let ghost prev = errs.deep_view();
        errs.push(e);
        proof {
            assert(errs.deep_view() =~= prev + seq![e@]);
        }
    }
    let ghost seg_e = aerr_if(
        av.mandatory_sensors.len() == 0 && !av.skyspark_marker_tags.contains(developer_tag()),
        av.id,
        msg_no_mandatory_sensors(),
    );
    proof {
        assert(errs.deep_view() =~= base + seg_a + seg_b + seg_c + seg_d + seg_e);
        assert(errs.deep_view() =~= base + asset_field_errs(av));
    }
}

/// Appends all findings of one asset.
#[verifier::rlimit(60)]
fn check_asset(
    errs: &mut Vec<AssetError>,
    asset: &Asset,
    sensors: &SensorMap,
    arms_asset_type_ids: &AssetTypeCatalog,
)
    ensures
        final(errs).deep_view() == old(errs).deep_view() + asset_errs(
            asset@,
            sensors@,
            arms_asset_type_ids@,
        ),
{
    let ghost av = asset@;
    let ghost base = errs.deep_view();
    check_asset_fields(errs, asset);
    let ghost seg_fields = asset_field_errs(av);
    let mand_slice = asset.mandatory_sensors.as_slice();
    let mut mand_errs = check_asset_sensors(mand_slice, sensors, asset.id.as_str());
    let ghost mand_errs_v = mand_errs.deep_view();
    let ghost prev_f = errs.deep_view();
    errs.append(&mut mand_errs);
    proof {
        assert(errs.deep_view() =~= prev_f + mand_errs_v);
        assert(mand_slice.deep_view() =~= asset.mandatory_sensors.deep_view());
    }
    let opt_slice = asset.optional_sensors.as_slice();
    let mut opt_errs = check_asset_sensors(opt_slice, sensors, asset.id.as_str());
    let ghost opt_errs_v = opt_errs.deep_view();
    let ghost prev_g = errs.deep_view();
    errs.append(&mut opt_errs);
    proof {
        assert(errs.deep_view() =~= prev_g + opt_errs_v);
        assert(opt_slice.deep_view() =~= asset.optional_sensors.deep_view());
        assert(errs.deep_view() =~= base + seg_fields + infos_errs(
            av.mandatory_sensors,
            sensors@,
            av.id,
        ) + infos_errs(av.optional_sensors, sensors@, av.id));
    }
    if has_duplicate_sensor_ids(
        asset.mandatory_sensors.as_slice(),
        asset.optional_sensors.as_slice(),
    ) {
        let e = AssetError::new(asset.id.as_str(), "Duplicate sensor ids");
        let ghost prev = errs.deep_view();
        errs.push(e);
        proof {
            assert(errs.deep_view() =~= prev + seq![e@]);
        }
    }
    let ghost seg_h = aerr_if(
        !linked_sensor_ids(av).no_duplicates(),
        av.id,
        msg_duplicate_sensor_ids(),
    );
    proof {
        assert(ids_of(asset.mandatory_sensors@) =~= av.mandatory_sensors.map_values(
            |i: SensorInfoView| i.sensor_id,
        ));
        assert(ids_of(asset.optional_sensors@) =~= av.optional_sensors.map_values(
            |i: SensorInfoView| i.sensor_id,
        ));
        assert(errs.deep_view() =~= base + seg_fields + infos_errs(
            av.mandatory_sensors,
            sensors@,
            av.id,
        ) + infos_errs(av.optional_sensors, sensors@, av.id) + seg_h);
    }
    match &asset.arms_asset_type_id {
        Some(asset_type_id) => {
            if !arms_asset_type_ids.contains_id(*asset_type_id) {
                let msg = String::from_str("Invalid AssetTypeID ").concat(
                    u32_to_string(*asset_type_id).as_str(),
                );
                let e = AssetError::new(asset.id.as_str(), msg.as_str());
                let ghost prev = errs.deep_view();
                errs.push(e);
                proof {
                    assert(e@.msg == msg_invalid_type_id(av.arms_asset_type_id->0));
                    assert(errs.deep_view() =~= prev + seq![e@]);
                }
            }
        },
        None => {},
    }
    proof {
        assert(errs.deep_view() =~= base + seg_fields + infos_errs(
            av.mandatory_sensors,
            sensors@,
            av.id,
        ) + infos_errs(av.optional_sensors, sensors@, av.id) + seg_h + type_id_errs(
            av,
            arms_asset_type_ids@,
        ));
        assert(errs.deep_view() =~= base + asset_errs(av, sensors@, arms_asset_type_ids@));
    }
}

/// Return all the errors present in the given assets.
pub fn get_asset_errors(
    assets: &[Asset],
    sensors: &SensorMap,
    arms_asset_type_ids: &AssetTypeCatalog,
) -> (errs: Vec<AssetError>)
    ensures
        errs.deep_view() == asset_errors_spec(assets.deep_view(), sensors@, arms_asset_type_ids@),
{
    let n = assets.len();
    let mut errs: Vec<AssetError> = Vec::new();
    let mut i: usize = 0;
    proof {
        assert(errs.deep_view() =~= assets_errs(
            assets.deep_view().take(0),
            sensors@,
            arms_asset_type_ids@,
        ));
    }
    while i < n
        invariant
            i <= n,
            n == assets@.len(),
            errs.deep_view() == assets_errs(
                assets.deep_view().take(i as int),
                sensors@,
                arms_asset_type_ids@,
            ),
        decreases n - i,
    {
        check_asset(&mut errs, &assets[i], sensors, arms_asset_type_ids);
        proof {
            assert(assets.deep_view()[i as int] == assets@[i as int]@);
            assert(assets.deep_view().take(i + 1).drop_last() =~= assets.deep_view().take(
                i as int,
            ));
            assert(assets.deep_view().take(i + 1).last() == assets.deep_view()[i as int]);
        }
        i = i + 1;
    }
    proof {
        assert(assets.deep_view().take(n as int) =~= assets.deep_view());
    }
    if !all_ids_unique(assets) {
        let e = AssetError::new("-", "Some assets have duplicate ids");
        let ghost prev = errs.deep_view();
        errs.push(e);
        proof {
            assert(ids_of(assets@) =~= assets.deep_view().map_values(asset_key()));
            assert(errs.deep_view() =~= prev + seq![e@]);
            assert(errs.deep_view() =~= asset_errors_spec(
                assets.deep_view(),
                sensors@,
                arms_asset_type_ids@,
            ));
        }
    } else {
        proof {
            assert(ids_of(assets@) =~= assets.deep_view().map_values(asset_key()));
            assert(errs.deep_view() =~= asset_errors_spec(
                assets.deep_view(),
                sensors@,
                arms_asset_type_ids@,
            ));
        }
    }
    errs
}

/// The message of a finding, as a function value.
pub open spec fn msg_of_a() -> spec_fn(AssetErrorView) -> Seq<char> {
    |e: AssetErrorView| e.msg
}

/// Lengths and leading characters of the asset messages, enough to
/// tell any two families apart.
proof fn lemma_asset_msg_facts()
    ensures
        msg_asset_empty_id().len() == 24,
        msg_asset_no_tags().len() == 23,
        msg_asset_empty_display_name().len() == 18,
        msg_no_mandatory_sensors().len() == 20,
        msg_info_empty_id().len() == 22,
        msg_duplicate_sensor_ids().len() == 20,
        msg_duplicate_asset_ids().len() == 30,
        msg_no_mandatory_sensors()[0] == 'N',
        msg_duplicate_sensor_ids()[0] == 'D',
        msg_duplicate_asset_ids()[0] == 'S',
        msg_duplicate_asset_ids()[1] == 'o',
        forall|t: Seq<char>| (#[trigger] msg_asset_invalid_tag(t)).len() == 30 + t.len(),
        forall|t: Seq<char>| (#[trigger] msg_asset_invalid_tag(t))[0] == 'I',
        forall|s: Seq<char>| (#[trigger] msg_no_matching_sensor(s)).len() == 29 + s.len(),
        forall|s: Seq<char>| (#[trigger] msg_no_matching_sensor(s))[0] == 'N',
        forall|s: Seq<char>| (#[trigger] msg_duplicate_tags(s)).len() == 28 + s.len(),
        forall|s: Seq<char>| (#[trigger] msg_duplicate_tags(s))[0] == 'S',
        forall|s: Seq<char>| (#[trigger] msg_duplicate_tags(s))[1] == 'e',
        forall|t: Seq<char>| (#[trigger] msg_union_invalid_tag(t)).len() == 12 + t.len(),
        forall|t: Seq<char>| (#[trigger] msg_union_invalid_tag(t))[0] == 'I',
        forall|t: u32| (#[trigger] msg_invalid_type_id(t)).len() >= 21,
        forall|t: u32| (#[trigger] msg_invalid_type_id(t))[0] == 'I',
{
    reveal_strlit("An asset has an empty id");
    reveal_strlit("No SkySpark marker tags");
    reveal_strlit("Empty display name");
    reveal_strlit("No mandatory sensors");
    reveal_strlit("Sensor has an empty id");
    reveal_strlit("Duplicate sensor ids");
    reveal_strlit("Some assets have duplicate ids");
    reveal_strlit("Invalid SkySpark marker tag '");
    reveal_strlit("No matching sensor with id '");
    reveal_strlit("Sensor '");
    reveal_strlit("' has duplicate tags");
    reveal_strlit("Invalid tag ");
    reveal_strlit("Invalid AssetTypeID ");
    reveal_strlit("'");
    assert forall|t: u32| (#[trigger] msg_invalid_type_id(t)).len() >= 21 by {
        assert(dec_str(t as int).len() >= 1);
    }
}

/// The count of a message in one conditional segment.
proof fn lemma_aerr_if_count(cond: bool, id: Seq<char>, msg: Seq<char>, x: Seq<char>)
    ensures
        crate::sorting::count_eq(aerr_if(cond, id, msg).map_values(msg_of_a()), x) == if cond
            && msg == x {
            1int
        } else {
            0
        },
{
    if cond {
        assert(aerr_if(cond, id, msg).map_values(msg_of_a()) =~= seq![msg]);
        crate::sorting::lemma_count_eq_singleton(msg, x);
    } else {
        assert(aerr_if(cond, id, msg).map_values(msg_of_a()) =~= Seq::<Seq<char>>::empty());
    }
}

/// Asset-tag findings never carry `x` when `x` is no asset-tag message.
proof fn lemma_asset_tag_errs_count(id: Seq<char>, tags: Seq<Seq<char>>, x: Seq<char>)
    requires
        forall|t: Seq<char>| msg_asset_invalid_tag(t) != x,
    ensures
        crate::sorting::count_eq(asset_tag_errs(id, tags).map_values(msg_of_a()), x) == 0,
    decreases tags.len(),
{
    if tags.len() == 0 {
        assert(asset_tag_errs(id, tags).map_values(msg_of_a()) =~= Seq::<Seq<char>>::empty());
    } else {
        lemma_asset_tag_errs_count(id, tags.drop_last(), x);
        lemma_aerr_if_count(
            !is_tag_name_spec(tags.last()),
            id,
            msg_asset_invalid_tag(tags.last()),
            x,
        );
        assert(asset_tag_errs(id, tags).map_values(msg_of_a()) =~= asset_tag_errs(
            id,
            tags.drop_last(),
        ).map_values(msg_of_a()) + aerr_if(
            !is_tag_name_spec(tags.last()),
            id,
            msg_asset_invalid_tag(tags.last()),
        ).map_values(msg_of_a()));
        crate::sorting::lemma_count_eq_concat(
            asset_tag_errs(id, tags.drop_last()).map_values(msg_of_a()),
            aerr_if(!is_tag_name_spec(tags.last()), id, msg_asset_invalid_tag(tags.last()))
                .map_values(msg_of_a()),
            x,
        );
    }
}

/// Union-tag findings never carry `x` when `x` is no union-tag message.
proof fn lemma_union_tag_errs_count(id: Seq<char>, tags: Seq<Seq<char>>, x: Seq<char>)
    requires
        forall|t: Seq<char>| msg_union_invalid_tag(t) != x,
    ensures
        crate::sorting::count_eq(union_tag_errs(id, tags).map_values(msg_of_a()), x) == 0,
    decreases tags.len(),
{
    if tags.len() == 0 {
        assert(union_tag_errs(id, tags).map_values(msg_of_a()) =~= Seq::<Seq<char>>::empty());
    } else {
        lemma_union_tag_errs_count(id, tags.drop_last(), x);
        lemma_aerr_if_count(
            !is_tag_name_spec(tags.last()),
            id,
            msg_union_invalid_tag(tags.last()),
            x,
        );
        assert(union_tag_errs(id, tags).map_values(msg_of_a()) =~= union_tag_errs(
            id,
            tags.drop_last(),
        ).map_values(msg_of_a()) + aerr_if(
            !is_tag_name_spec(tags.last()),
            id,
            msg_union_invalid_tag(tags.last()),
        ).map_values(msg_of_a()));
        crate::sorting::lemma_count_eq_concat(
            union_tag_errs(id, tags.drop_last()).map_values(msg_of_a()),
            aerr_if(!is_tag_name_spec(tags.last()), id, msg_union_invalid_tag(tags.last()))
                .map_values(msg_of_a()),
            x,
        );
    }
}

/// The count of `x` among one link's findings: one exactly when `x` is
/// this link's duplicate-tags message and its tag union collides.
proof fn lemma_info_errs_count(
    info: SensorInfoView,
    smap: Map<Seq<char>, SensorView>,
    asset_id: Seq<char>,
    x: Seq<char>,
)
    requires
        x != msg_info_empty_id(),
        forall|s: Seq<char>| msg_no_matching_sensor(s) != x,
        forall|t: Seq<char>| msg_union_invalid_tag(t) != x,
        forall|s: Seq<char>| s != info.sensor_id ==> msg_duplicate_tags(s) != x,
    ensures
        crate::sorting::count_eq(info_errs(info, smap, asset_id).map_values(msg_of_a()), x) == (
        if smap.contains_key(info.sensor_id) && !combined_tags(
            smap[info.sensor_id],
            info,
        ).no_duplicates() && x == msg_duplicate_tags(info.sensor_id) {
            1int
        } else {
            0
        }),
{
    let f = msg_of_a();
    let seg_a = aerr_if(info.sensor_id.len() == 0, asset_id, msg_info_empty_id());
    lemma_aerr_if_count(info.sensor_id.len() == 0, asset_id, msg_info_empty_id(), x);
    if !smap.contains_key(info.sensor_id) {
        let seg_b = seq![aerr(asset_id, msg_no_matching_sensor(info.sensor_id))];
        assert(info_errs(info, smap, asset_id).map_values(f) =~= seg_a.map_values(f)
            + seg_b.map_values(f));
        assert(seg_b.map_values(f) =~= seq![msg_no_matching_sensor(info.sensor_id)]);
        crate::sorting::lemma_count_eq_singleton(msg_no_matching_sensor(info.sensor_id), x);
        crate::sorting::lemma_count_eq_concat(seg_a.map_values(f), seg_b.map_values(f), x);
    } else {
        let c = combined_tags(smap[info.sensor_id], info);
        let seg_b = aerr_if(!c.no_duplicates(), asset_id, msg_duplicate_tags(info.sensor_id));
        let seg_c = union_tag_errs(asset_id, dedup_first(c));
        assert(info_errs(info, smap, asset_id).map_values(f) =~= seg_a.map_values(f) + (
        seg_b.map_values(f) + seg_c.map_values(f)));
        lemma_aerr_if_count(
            !c.no_duplicates(),
            asset_id,
            msg_duplicate_tags(info.sensor_id),
            x,
        );
        lemma_union_tag_errs_count(asset_id, dedup_first(c), x);
        crate::sorting::lemma_count_eq_concat(seg_b.map_values(f), seg_c.map_values(f), x);
        crate::sorting::lemma_count_eq_concat(
            seg_a.map_values(f),
            seg_b.map_values(f) + seg_c.map_values(f),
            x,
        );
    }
}

/// The count of `x` among a link list's findings, when `x` is no
/// message any of its links can produce.
proof fn lemma_infos_errs_count(
    infos: Seq<SensorInfoView>,
    smap: Map<Seq<char>, SensorView>,
    asset_id: Seq<char>,
    x: Seq<char>,
)
    requires
        x != msg_info_empty_id(),
        forall|s: Seq<char>| msg_no_matching_sensor(s) != x,
        forall|t: Seq<char>| msg_union_invalid_tag(t) != x,
        forall|s: Seq<char>| msg_duplicate_tags(s) != x,
    ensures
        crate::sorting::count_eq(infos_errs(infos, smap, asset_id).map_values(msg_of_a()), x)
            == 0,
    decreases infos.len(),
{
    let f = msg_of_a();
    if infos.len() == 0 {
        assert(infos_errs(infos, smap, asset_id).map_values(f) =~= Seq::<Seq<char>>::empty());
    } else {
        lemma_infos_errs_count(infos.drop_last(), smap, asset_id, x);
        lemma_info_errs_count(infos.last(), smap, asset_id, x);
        assert(infos_errs(infos, smap, asset_id).map_values(f) =~= infos_errs(
            infos.drop_last(),
            smap,
            asset_id,
        ).map_values(f) + info_errs(infos.last(), smap, asset_id).map_values(f));
        crate::sorting::lemma_count_eq_concat(
            infos_errs(infos.drop_last(), smap, asset_id).map_values(f),
            info_errs(infos.last(), smap, asset_id).map_values(f),
            x,
        );
    }
}

/// The count of `x` among the field-level findings, when `x` is none
/// of the first four field messages.
proof fn lemma_field_errs_count(a: AssetView, x: Seq<char>)
    requires
        x != msg_asset_empty_id(),
        x != msg_asset_no_tags(),
        x != msg_asset_empty_display_name(),
        forall|t: Seq<char>| msg_asset_invalid_tag(t) != x,
    ensures
        crate::sorting::count_eq(asset_field_errs(a).map_values(msg_of_a()), x) == (if (
        a.mandatory_sensors.len() == 0 && !a.skyspark_marker_tags.contains(developer_tag())) && x
            == msg_no_mandatory_sensors() {
            1int
        } else {
            0
        }),
{
    let f = msg_of_a();
    let seg_a = aerr_if(
        a.id.len() == 0,
        crate::sensor_check::id_placeholder(),
        msg_asset_empty_id(),
    );
    let seg_b = aerr_if(a.skyspark_marker_tags.len() == 0, a.id, msg_asset_no_tags());
    let seg_c = asset_tag_errs(a.id, a.skyspark_marker_tags);
    let seg_d = aerr_if(a.display_name.len() == 0, a.id, msg_asset_empty_display_name());
    let seg_e = aerr_if(
        a.mandatory_sensors.len() == 0 && !a.skyspark_marker_tags.contains(developer_tag()),
        a.id,
        msg_no_mandatory_sensors(),
    );
    assert(asset_field_errs(a).map_values(f) =~= seg_a.map_values(f) + seg_b.map_values(f)
        + seg_c.map_values(f) + seg_d.map_values(f) + seg_e.map_values(f));
    lemma_aerr_if_count(
        a.id.len() == 0,
        crate::sensor_check::id_placeholder(),
        msg_asset_empty_id(),
        x,
    );
    lemma_aerr_if_count(a.skyspark_marker_tags.len() == 0, a.id, msg_asset_no_tags(), x);
    lemma_asset_tag_errs_count(a.id, a.skyspark_marker_tags, x);
    lemma_aerr_if_count(a.display_name.len() == 0, a.id, msg_asset_empty_display_name(), x);
    lemma_aerr_if_count(
        a.mandatory_sensors.len() == 0 && !a.skyspark_marker_tags.contains(developer_tag()),
        a.id,
        msg_no_mandatory_sensors(),
        x,
    );
    crate::sorting::lemma_count_eq_concat(seg_a.map_values(f), seg_b.map_values(f), x);
    crate::sorting::lemma_count_eq_concat(
        seg_a.map_values(f) + seg_b.map_values(f),
        seg_c.map_values(f),
        x,
    );
    crate::sorting::lemma_count_eq_concat(
        seg_a.map_values(f) + seg_b.map_values(f) + seg_c.map_values(f),
        seg_d.map_values(f),
        x,
    );
    crate::sorting::lemma_count_eq_concat(
        seg_a.map_values(f) + seg_b.map_values(f) + seg_c.map_values(f) + seg_d.map_values(f),
        seg_e.map_values(f),
        x,
    );
}

/// The count of `x` among one asset's findings, when `x` is none of
/// the messages a single asset can produce except possibly the
/// no-mandatory-sensors message.
proof fn lemma_asset_errs_count(
    a: AssetView,
    smap: Map<Seq<char>, SensorView>,
    typeids: Set<u32>,
    x: Seq<char>,
)
    requires
        x != msg_asset_empty_id(),
        x != msg_asset_no_tags(),
        x != msg_asset_empty_display_name(),
        x != msg_info_empty_id(),
        x != msg_duplicate_sensor_ids(),
        forall|t: Seq<char>| msg_asset_invalid_tag(t) != x,
        forall|s: Seq<char>| msg_no_matching_sensor(s) != x,
        forall|t: Seq<char>| msg_union_invalid_tag(t) != x,
        forall|s: Seq<char>| msg_duplicate_tags(s) != x,
        forall|t: u32| msg_invalid_type_id(t) != x,
    ensures
        crate::sorting::count_eq(asset_errs(a, smap, typeids).map_values(msg_of_a()), x) == (if (
        a.mandatory_sensors.len() == 0 && !a.skyspark_marker_tags.contains(developer_tag())) && x
            == msg_no_mandatory_sensors() {
            1int
        } else {
            0
        }),
{
    let f = msg_of_a();
    let s1 = asset_field_errs(a);
    let s2 = infos_errs(a.mandatory_sensors, smap, a.id);
    let s3 = infos_errs(a.optional_sensors, smap, a.id);
    let s4 = aerr_if(!linked_sensor_ids(a).no_duplicates(), a.id, msg_duplicate_sensor_ids());
    let s5 = type_id_errs(a, typeids);
    assert(asset_errs(a, smap, typeids).map_values(f) =~= s1.map_values(f) + s2.map_values(f)
        + s3.map_values(f) + s4.map_values(f) + s5.map_values(f));
    lemma_field_errs_count(a, x);
    lemma_infos_errs_count(a.mandatory_sensors, smap, a.id, x);
    lemma_infos_errs_count(a.optional_sensors, smap, a.id, x);
    lemma_aerr_if_count(
        !linked_sensor_ids(a).no_duplicates(),
        a.id,
        msg_duplicate_sensor_ids(),
        x,
    );
    assert(crate::sorting::count_eq(s5.map_values(f), x) == 0) by {
        match a.arms_asset_type_id {
            Some(t) => {
                lemma_aerr_if_count(!typeids.contains(t), a.id, msg_invalid_type_id(t), x);
            },
            None => {
                assert(s5.map_values(f) =~= Seq::<Seq<char>>::empty());
            },
        }
    }
    crate::sorting::lemma_count_eq_concat(s1.map_values(f), s2.map_values(f), x);
    crate::sorting::lemma_count_eq_concat(
        s1.map_values(f) + s2.map_values(f),
        s3.map_values(f),
        x,
    );
    crate::sorting::lemma_count_eq_concat(
        s1.map_values(f) + s2.map_values(f) + s3.map_values(f),
        s4.map_values(f),
        x,
    );
    crate::sorting::lemma_count_eq_concat(
        s1.map_values(f) + s2.map_values(f) + s3.map_values(f) + s4.map_values(f),
        s5.map_values(f),
        x,
    );
}

/// An asset tagged `developer` with no mandatory sensor links draws no
/// "no mandatory sensors" finding.
pub proof fn lemma_developer_exemption(
    a: AssetView,
    smap: Map<Seq<char>, SensorView>,
    typeids: Set<u32>,
)
    requires
        a.skyspark_marker_tags.contains(developer_tag()),
        a.mandatory_sensors.len() == 0,
    ensures
        crate::sorting::count_eq(
            asset_errs(a, smap, typeids).map_values(msg_of_a()),
            msg_no_mandatory_sensors(),
        ) == 0,
{
    lemma_asset_msg_facts();
    lemma_asset_errs_count(a, smap, typeids, msg_no_mandatory_sensors());
}

/// A sensor link whose extra tags share a tag with the referenced
/// sensor's own tags draws exactly one duplicate-tags finding for that
/// asset/sensor pair.
pub proof fn lemma_shared_tag_one_duplicate_finding(
    info: SensorInfoView,
    smap: Map<Seq<char>, SensorView>,
    asset_id: Seq<char>,
)
    requires
        smap.contains_key(info.sensor_id),
        exists|t: Seq<char>|
            smap[info.sensor_id].skyspark_marker_tags.contains(t)
                && info.extra_skyspark_marker_tags.contains(t),
    ensures
        crate::sorting::count_eq(
            info_errs(info, smap, asset_id).map_values(msg_of_a()),
            msg_duplicate_tags(info.sensor_id),
        ) == 1,
{
    lemma_asset_msg_facts();
    let c = combined_tags(smap[info.sensor_id], info);
    assert(!c.no_duplicates()) by {
        let t = choose|t: Seq<char>|
            smap[info.sensor_id].skyspark_marker_tags.contains(t)
                && info.extra_skyspark_marker_tags.contains(t);
        let i = choose|i: int|
            0 <= i < smap[info.sensor_id].skyspark_marker_tags.len() && smap[
                info.sensor_id
            ].skyspark_marker_tags[i] == t;
        let j = choose|j: int|
            0 <= j < info.extra_skyspark_marker_tags.len() && info.extra_skyspark_marker_tags[j]
                == t;
        let n1 = smap[info.sensor_id].skyspark_marker_tags.len() as int;
        assert(c[i] == t);
        assert(c[n1 + j] == t);
    }
    assert forall|s: Seq<char>|
        s != info.sensor_id implies #[trigger] msg_duplicate_tags(s) != msg_duplicate_tags(
        info.sensor_id,
    ) by {
        lemma_duplicate_tags_injective(s, info.sensor_id);
    }
    lemma_info_errs_count(info, smap, asset_id, msg_duplicate_tags(info.sensor_id));
}

/// Two duplicate-tags messages agree only on the same sensor id.
proof fn lemma_duplicate_tags_injective(s1: Seq<char>, s2: Seq<char>)
    ensures
        msg_duplicate_tags(s1) == msg_duplicate_tags(s2) ==> s1 == s2,
{
    reveal_strlit("Sensor '");
    reveal_strlit("' has duplicate tags");
    if msg_duplicate_tags(s1) == msg_duplicate_tags(s2) {
        assert("Sensor '"@.len() == 8);
        assert("' has duplicate tags"@.len() == 20);
        assert(msg_duplicate_tags(s1).len() == 28 + s1.len());
        assert(msg_duplicate_tags(s2).len() == 28 + s2.len());
        assert(s1.len() == s2.len());
        assert forall|i: int| 0 <= i < s1.len() implies s1[i] == s2[i] by {
            assert(msg_duplicate_tags(s1)[8 + i] == s1[i]);
            assert(msg_duplicate_tags(s2)[8 + i] == s2[i]);
        }
        assert(s1 =~= s2);
    }
}

/// Assets sharing an id draw exactly one aggregate duplicate-ids
/// finding, however many share it.
pub proof fn lemma_one_duplicate_ids_finding(
    assets: Seq<AssetView>,
    smap: Map<Seq<char>, SensorView>,
    typeids: Set<u32>,
)
    requires
        !assets.map_values(asset_key()).no_duplicates(),
    ensures
        crate::sorting::count_eq(
            asset_errors_spec(assets, smap, typeids).map_values(msg_of_a()),
            msg_duplicate_asset_ids(),
        ) == 1,
{
    lemma_asset_msg_facts();
    let f = msg_of_a();
    let x = msg_duplicate_asset_ids();
    assert(crate::sorting::count_eq(assets_errs(assets, smap, typeids).map_values(f), x) == 0)
        by {
        lemma_assets_errs_count_agg(assets, smap, typeids);
    }
    let agg = aerr_if(
        !assets.map_values(asset_key()).no_duplicates(),
        crate::sensor_check::id_aggregate(),
        msg_duplicate_asset_ids(),
    );
    assert(asset_errors_spec(assets, smap, typeids).map_values(f) =~= assets_errs(
        assets,
        smap,
        typeids,
    ).map_values(f) + agg.map_values(f));
    lemma_aerr_if_count(
        !assets.map_values(asset_key()).no_duplicates(),
        crate::sensor_check::id_aggregate(),
        msg_duplicate_asset_ids(),
        x,
    );
    crate::sorting::lemma_count_eq_concat(
        assets_errs(assets, smap, typeids).map_values(f),
        agg.map_values(f),
        x,
    );
}

/// No per-asset finding carries the aggregate duplicate-ids message.
proof fn lemma_assets_errs_count_agg(
    assets: Seq<AssetView>,
    smap: Map<Seq<char>, SensorView>,
    typeids: Set<u32>,
)
    ensures
        crate::sorting::count_eq(
            assets_errs(assets, smap, typeids).map_values(msg_of_a()),
            msg_duplicate_asset_ids(),
        ) == 0,
    decreases assets.len(),
{
    lemma_asset_msg_facts();
    let f = msg_of_a();
    let x = msg_duplicate_asset_ids();
    if assets.len() == 0 {
        assert(assets_errs(assets, smap, typeids).map_values(f) =~= Seq::<Seq<char>>::empty());
    } else {
        lemma_assets_errs_count_agg(assets.drop_last(), smap, typeids);
        assert forall|s: Seq<char>| msg_duplicate_tags(s) != x by {
            if msg_duplicate_tags(s) == x {
                assert(msg_duplicate_tags(s)[1] == x[1]);
            }
        }
        lemma_asset_errs_count(assets.last(), smap, typeids, x);
        assert(assets_errs(assets, smap, typeids).map_values(f) =~= assets_errs(
            assets.drop_last(),
            smap,
            typeids,
        ).map_values(f) + asset_errs(assets.last(), smap, typeids).map_values(f));
        crate::sorting::lemma_count_eq_concat(
            assets_errs(assets.drop_last(), smap, typeids).map_values(f),
            asset_errs(assets.last(), smap, typeids).map_values(f),
            x,
        );
    }
}

} // verus!
