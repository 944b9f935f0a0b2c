//! The sensor validator: field-level and unit-catalog rules applied to
//! a normalized sensor list, accumulating one finding per violation.

use vstd::prelude::*;
use crate::catalogs::UnitCatalog;
use crate::records::{Sensor, SensorType, SensorView};
use crate::sorting::{all_ids_unique, ids_of, HasId};
use crate::tags::{is_tag_name, is_tag_name_spec};
use crate::normalize::sensor_key;

verus! {

/// One validation finding about a sensor: the offending record's id
/// (or a placeholder marker) and a human-readable message.
#[derive(Clone, Debug, PartialEq, Eq)]
pub struct SensorError {
    pub sensor_id: String,
    pub msg: String,
}

/// The model of a `SensorError`.
#[verifier::ext_equal]
pub struct SensorErrorView {
    pub sensor_id: Seq<char>,
    pub msg: Seq<char>,
}

impl View for SensorError {
    type V = SensorErrorView;

    open spec fn view(&self) -> SensorErrorView {
        SensorErrorView { sensor_id: self.sensor_id@, msg: self.msg@ }
    }
}

impl DeepView for SensorError {
    type V = SensorErrorView;

    open spec fn deep_view(&self) -> SensorErrorView {
        self.view()
    }
}

impl SensorError {
    /// Builds a finding from an id and a message.
    pub fn new(sensor_id: &str, msg: &str) -> (r: SensorError)
        ensures
            r@ == (SensorErrorView { sensor_id: sensor_id@, msg: msg@ }),
    {
        SensorError { sensor_id: sensor_id.to_owned(), msg: msg.to_owned() }
    }
}

/// A finding, at the model level.
pub open spec fn serr(sensor_id: Seq<char>, msg: Seq<char>) -> SensorErrorView {
    SensorErrorView { sensor_id, msg }
}

/// The id standing in for a sensor whose own id is empty.
pub open spec fn id_placeholder() -> Seq<char> {
    "?"@
}

/// The id of aggregate findings that concern no single record.
pub open spec fn id_aggregate() -> Seq<char> {
    "-"@
}

pub open spec fn msg_sensor_empty_id() -> Seq<char> {
    "A sensor has an empty id"@
}

pub open spec fn msg_empty_display_name() -> Seq<char> {
    "Empty display name"@
}

pub open spec fn msg_no_tags() -> Seq<char> {
    "No SkySpark marker tags"@
}

pub open spec fn msg_invalid_tag(tag: Seq<char>) -> Seq<char> {
    "Invalid SkySpark marker tag '"@ + tag + "'"@
}

pub open spec fn msg_invalid_unit() -> Seq<char> {
    "Invalid unit"@
}

pub open spec fn msg_nonnumeric_unit() -> Seq<char> {
    "Has a unit but is not numeric"@
}

pub open spec fn msg_sensor_ids_not_unique() -> Seq<char> {
    "Some sensor ids are not unique"@
}

/// One finding under `cond`, else none.
pub open spec fn err_if(cond: bool, id: Seq<char>, msg: Seq<char>) -> Seq<SensorErrorView> {
    if cond {
        seq![serr(id, msg)]
    } else {
        Seq::<SensorErrorView>::empty()
    }
}

/// One finding per tag that is not a legal tag name, in tag order.
pub open spec fn invalid_tag_errs(id: Seq<char>, tags: Seq<Seq<char>>) -> Seq<SensorErrorView>
    decreases tags.len(),
{
    if tags.len() == 0 {
        Seq::<SensorErrorView>::empty()
    } else {
        invalid_tag_errs(id, tags.drop_last()) + err_if(
            !is_tag_name_spec(tags.last()),
            id,
            msg_invalid_tag(tags.last()),
        )
    }
}

/// The unit findings of one sensor: a Numeric sensor may carry no unit
/// or a cataloged one; any other type must carry none.
pub open spec fn unit_errs(s: SensorView, units: Set<Seq<char>>) -> Seq<SensorErrorView> {
    if s.sensor_type == SensorType::Numeric {
        match s.unit {
            Some(u) => err_if(!units.contains(u), s.id, msg_invalid_unit()),
            None => Seq::<SensorErrorView>::empty(),
        }
    } else {
        err_if(s.unit is Some, s.id, msg_nonnumeric_unit())
    }
}

/// All findings of one sensor, in the order they are checked.
pub open spec fn sensor_errs(s: SensorView, units: Set<Seq<char>>) -> Seq<SensorErrorView> {
    err_if(s.id.len() == 0, id_placeholder(), msg_sensor_empty_id()) + err_if(
        s.display_name.len() == 0,
        s.id,
        msg_empty_display_name(),
    ) + err_if(s.skyspark_marker_tags.len() == 0, s.id, msg_no_tags()) + invalid_tag_errs(
        s.id,
        s.skyspark_marker_tags,
    ) + unit_errs(s, units)
}

/// The per-sensor findings of a list, record by record.
pub open spec fn sensors_errs(sensors: Seq<SensorView>, units: Set<Seq<char>>) -> Seq<
    SensorErrorView,
>
    decreases sensors.len(),
{
    if sensors.len() == 0 {
        Seq::<SensorErrorView>::empty()
    } else {
        sensors_errs(sensors.drop_last(), units) + sensor_errs(sensors.last(), units)
    }
}

/// All findings of a sensor list: the per-record pass, then one
/// aggregate finding when ids repeat.
pub open spec fn sensor_errors_spec(sensors: Seq<SensorView>, units: Set<Seq<char>>) -> Seq<
    SensorErrorView,
> {
    sensors_errs(sensors, units) + err_if(
        !sensors.map_values(sensor_key()).no_duplicates(),
        id_aggregate(),
        msg_sensor_ids_not_unique(),
    )
}

/// Appends all findings of one sensor.
#[verifier::rlimit(60)]
fn check_sensor(errs: &mut Vec<SensorError>, sensor: &Sensor, units: &UnitCatalog)
    ensures
        final(errs).deep_view() == old(errs).deep_view() + sensor_errs(sensor@, units@),
{
    let ghost sv = sensor@;
    let ghost base = errs.deep_view();
    if sensor.id.as_str().is_empty() {
        let e = SensorError::new("?", "A sensor has an empty id");
        let ghost prev = errs.deep_view();
        errs.push(e);
        proof {
            assert(errs.deep_view() =~= prev + seq![e@]);
        }
    }
    let ghost seg_a = err_if(sv.id.len() == 0, id_placeholder(), msg_sensor_empty_id());
    proof {
        assert(errs.deep_view() =~= base + seg_a);
    }
    if sensor.display_name.as_str().is_empty() {
        let e = SensorError::new(sensor.id.as_str(), "Empty display name");
        let ghost prev = errs.deep_view();
        errs.push(e);
        proof {
            assert(errs.deep_view() =~= prev + seq![e@]);
        }
    }
    let ghost seg_b = err_if(sv.display_name.len() == 0, sv.id, msg_empty_display_name());
    proof {
        assert(errs.deep_view() =~= base + seg_a + seg_b);
    }
    if sensor.skyspark_marker_tags.len() == 0 {
        let e = SensorError::new(sensor.id.as_str(), "No SkySpark marker tags");
        let ghost prev = errs.deep_view();
        errs.push(e);
        proof {
            assert(errs.deep_view() =~= prev + seq![e@]);
        }
    }
    let ghost seg_c = err_if(sv.skyspark_marker_tags.len() == 0, sv.id, msg_no_tags());
    proof {
        assert(errs.deep_view() =~= base + seg_a + seg_b + seg_c);
        assert(sv.skyspark_marker_tags.take(0) =~= Seq::<Seq<char>>::empty());
    }
    let m = sensor.skyspark_marker_tags.len();
    let mut j: usize = 0;
    while j < m
        invariant
            j <= m,
            sv == sensor@,
            m == sensor.skyspark_marker_tags@.len(),
            m == sv.skyspark_marker_tags.len(),
            errs.deep_view() == base + seg_a + seg_b + seg_c + invalid_tag_errs(
                sv.id,
                sv.skyspark_marker_tags.take(j as int),
            ),
        decreases m - j,
    {
        let tag = &sensor.skyspark_marker_tags[j];
        proof {
            assert(sv.skyspark_marker_tags[j as int] == sensor.skyspark_marker_tags@[j as int]@);
            assert(sv.skyspark_marker_tags.take(j + 1).drop_last() =~= sv.skyspark_marker_tags.take(
                j as int,
            ));
            assert(sv.skyspark_marker_tags.take(j + 1).last() == sv.skyspark_marker_tags[j as int]);
        }
        if !is_tag_name(tag.as_str()) {
            let msg = String::from_str("Invalid SkySpark marker tag '").concat(
                tag.as_str(),
            ).concat("'");
            let e = SensorError::new(sensor.id.as_str(), msg.as_str());
            let ghost prev = errs.deep_view();
            errs.push(e);
            proof {
                assert(e@.msg == msg_invalid_tag(sv.skyspark_marker_tags[j as int]));
                assert(errs.deep_view() =~= prev + seq![e@]);
                assert(errs.deep_view() =~= base + seg_a + seg_b + seg_c + invalid_tag_errs(
                    sv.id,
                    sv.skyspark_marker_tags.take(j + 1),
                ));
            }
        } else {
            proof {
                assert(invalid_tag_errs(sv.id, sv.skyspark_marker_tags.take(j + 1))
                    =~= invalid_tag_errs(sv.id, sv.skyspark_marker_tags.take(j as int)));
            }
        }
        j = j + 1;
    }
    proof {
        assert(sv.skyspark_marker_tags.take(m as int) =~= sv.skyspark_marker_tags);
    }
    let ghost seg_d = invalid_tag_errs(sv.id, sv.skyspark_marker_tags);
    if sensor.sensor_type == SensorType::Numeric {
        match &sensor.unit {
            Some(u) => {
                if !units.contains_symbol(u) {
                    let e = SensorError::new(sensor.id.as_str(), "Invalid unit");
                    let ghost prev = errs.deep_view();
                    errs.push(e);
                    proof {
                        assert(errs.deep_view() =~= prev + seq![e@]);
                    }
                }
            },
            None => {},
        }
    } else {
        if sensor.unit.is_some() {
            let e = SensorError::new(sensor.id.as_str(), "Has a unit but is not numeric");
            let ghost prev = errs.deep_view();
            errs.push(e);
            proof {
                assert(errs.deep_view() =~= prev + seq![e@]);
            }
        }
    }
    proof {
        assert(errs.deep_view() =~= base + seg_a + seg_b + seg_c + seg_d + unit_errs(sv, units@));
        assert(errs.deep_view() =~= base + sensor_errs(sv, units@));
    }
}

/// Return all the errors present in the given `Sensor`s, checked
/// against the given unit catalog.
pub fn get_sensor_errors(sensors: &[Sensor], units: &UnitCatalog) -> (errs: Vec<SensorError>)
    ensures
        errs.deep_view() == sensor_errors_spec(sensors.deep_view(), units@),
{
    let n = sensors.len();
    let mut errs: Vec<SensorError> = Vec::new();
    let mut i: usize = 0;
    proof {
        assert(errs.deep_view() =~= sensors_errs(sensors.deep_view().take(0), units@));
    }
    while i < n
        invariant
            i <= n,
            n == sensors@.len(),
            errs.deep_view() == sensors_errs(sensors.deep_view().take(i as int), units@),
        decreases n - i,
    {
        check_sensor(&mut errs, &sensors[i], units);
        proof {
            assert(sensors.deep_view()[i as int] == sensors@[i as int]@);
            assert(sensors.deep_view().take(i + 1).drop_last() =~= sensors.deep_view().take(
                i as int,
            ));
            assert(sensors.deep_view().take(i + 1).last() == sensors.deep_view()[i as int]);
        }
        i = i + 1;
    }
    proof {
        assert(sensors.deep_view().take(n as int) =~= sensors.deep_view());
    }
    if !all_ids_unique(sensors) {
        let e = SensorError::new("-", "Some sensor ids are not unique");
        let ghost prev = errs.deep_view();
        errs.push(e);
        proof {
            assert(ids_of(sensors@) =~= sensors.deep_view().map_values(sensor_key()));
            assert(errs.deep_view() =~= prev + seq![e@]);
            assert(errs.deep_view() =~= sensor_errors_spec(sensors.deep_view(), units@));
        }
    } else {
        proof {
            assert(ids_of(sensors@) =~= sensors.deep_view().map_values(sensor_key()));
            assert(errs.deep_view() =~= sensor_errors_spec(sensors.deep_view(), units@));
        }
    }
    errs
}

/// The message of a finding, as a function value.
pub open spec fn msg_of() -> spec_fn(SensorErrorView) -> Seq<char> {
    |e: SensorErrorView| e.msg
}

/// The fixed sensor messages are pairwise distinct.
proof fn lemma_sensor_msgs_distinct()
    ensures
        msg_sensor_empty_id() != msg_no_tags(),
        msg_empty_display_name() != msg_no_tags(),
        msg_invalid_unit() != msg_no_tags(),
        msg_nonnumeric_unit() != msg_no_tags(),
        msg_sensor_empty_id() != msg_invalid_unit(),
        msg_empty_display_name() != msg_invalid_unit(),
        msg_no_tags() != msg_invalid_unit(),
        msg_nonnumeric_unit() != msg_invalid_unit(),
{
    reveal_strlit("A sensor has an empty id");
    reveal_strlit("Empty display name");
    reveal_strlit("No SkySpark marker tags");
    reveal_strlit("Invalid unit");
    reveal_strlit("Has a unit but is not numeric");
    assert(msg_sensor_empty_id().len() == 24);
    assert(msg_empty_display_name().len() == 18);
    assert(msg_no_tags().len() == 23);
    assert(msg_invalid_unit().len() == 12);
    assert(msg_nonnumeric_unit().len() == 29);
}

/// A tag message is longer than any fixed sensor message, so it never
/// equals one.
proof fn lemma_invalid_tag_msg_ne(t: Seq<char>, x: Seq<char>)
    requires
        x == msg_no_tags() || x == msg_invalid_unit() || x == msg_sensor_empty_id() || x
            == msg_empty_display_name() || x == msg_nonnumeric_unit(),
    ensures
        msg_invalid_tag(t) != x,
{
    reveal_strlit("Invalid SkySpark marker tag '");
    reveal_strlit("'");
    reveal_strlit("A sensor has an empty id");
    reveal_strlit("Empty display name");
    reveal_strlit("No SkySpark marker tags");
    reveal_strlit("Invalid unit");
    reveal_strlit("Has a unit but is not numeric");
    assert(msg_invalid_tag(t).len() == 30 + t.len());
}

/// The count of a message in the findings of one conditional segment.
proof fn lemma_err_if_count(cond: bool, id: Seq<char>, msg: Seq<char>, x: Seq<char>)
    ensures
        crate::sorting::count_eq(err_if(cond, id, msg).map_values(msg_of()), x) == if cond && msg
            == x {
            1int
        } else {
            0
        },
{
    if cond {
        assert(err_if(cond, id, msg).map_values(msg_of()) =~= seq![msg]);
        crate::sorting::lemma_count_eq_singleton(msg, x);
    } else {
        assert(err_if(cond, id, msg).map_values(msg_of()) =~= Seq::<Seq<char>>::empty());
    }
}

/// Tag findings never carry the message `x` when `x` is no tag message.
proof fn lemma_invalid_tag_errs_count(id: Seq<char>, tags: Seq<Seq<char>>, x: Seq<char>)
    requires
        forall|t: Seq<char>| msg_invalid_tag(t) != x,
    ensures
        crate::sorting::count_eq(invalid_tag_errs(id, tags).map_values(msg_of()), x) == 0,
    decreases tags.len(),
{
    if tags.len() == 0 {
        assert(invalid_tag_errs(id, tags).map_values(msg_of()) =~= Seq::<Seq<char>>::empty());
    } else {
        lemma_invalid_tag_errs_count(id, tags.drop_last(), x);
        lemma_err_if_count(
            !is_tag_name_spec(tags.last()),
            id,
            msg_invalid_tag(tags.last()),
            x,
        );
        assert(invalid_tag_errs(id, tags).map_values(msg_of()) =~= invalid_tag_errs(
            id,
            tags.drop_last(),
        ).map_values(msg_of()) + err_if(
            !is_tag_name_spec(tags.last()),
            id,
            msg_invalid_tag(tags.last()),
        ).map_values(msg_of()));
        crate::sorting::lemma_count_eq_concat(
            invalid_tag_errs(id, tags.drop_last()).map_values(msg_of()),
            err_if(!is_tag_name_spec(tags.last()), id, msg_invalid_tag(tags.last())).map_values(
                msg_of(),
            ),
            x,
        );
    }
}

/// The findings of one sensor hold exactly one "no tags" finding when
/// its tag list is empty and none otherwise; and a Numeric sensor
/// without a unit draws no "invalid unit" finding.
pub proof fn lemma_sensor_errs_no_tags_and_unit(s: SensorView, units: Set<Seq<char>>)
    ensures
        crate::sorting::count_eq(sensor_errs(s, units).map_values(msg_of()), msg_no_tags()) == (
        if s.skyspark_marker_tags.len() == 0 {
            1int
        } else {
            0
        }),
        s.sensor_type == SensorType::Numeric && s.unit is None ==> crate::sorting::count_eq(
            sensor_errs(s, units).map_values(msg_of()),
            msg_invalid_unit(),
        ) == 0,
{
    lemma_sensor_msgs_distinct();
    let a = err_if(s.id.len() == 0, id_placeholder(), msg_sensor_empty_id());
    let b = err_if(s.display_name.len() == 0, s.id, msg_empty_display_name());
    let c = err_if(s.skyspark_marker_tags.len() == 0, s.id, msg_no_tags());
    let d = invalid_tag_errs(s.id, s.skyspark_marker_tags);
    let e = unit_errs(s, units);
    let f = msg_of();
    assert(sensor_errs(s, units).map_values(f) =~= a.map_values(f) + b.map_values(f)
        + c.map_values(f) + d.map_values(f) + e.map_values(f));
    assert forall|t: Seq<char>| msg_invalid_tag(t) != msg_no_tags() by {
        lemma_invalid_tag_msg_ne(t, msg_no_tags());
    }
    assert forall|t: Seq<char>| msg_invalid_tag(t) != msg_invalid_unit() by {
        lemma_invalid_tag_msg_ne(t, msg_invalid_unit());
    }
    lemma_err_if_count(s.id.len() == 0, id_placeholder(), msg_sensor_empty_id(), msg_no_tags());
    lemma_err_if_count(
        s.display_name.len() == 0,
        s.id,
        msg_empty_display_name(),
        msg_no_tags(),
    );
    lemma_err_if_count(s.skyspark_marker_tags.len() == 0, s.id, msg_no_tags(), msg_no_tags());
    lemma_invalid_tag_errs_count(s.id, s.skyspark_marker_tags, msg_no_tags());
    lemma_unit_errs_count(s, units, msg_no_tags());
    crate::sorting::lemma_count_eq_concat(a.map_values(f), b.map_values(f), msg_no_tags());
    crate::sorting::lemma_count_eq_concat(
        a.map_values(f) + b.map_values(f),
        c.map_values(f),
        msg_no_tags(),
    );
    crate::sorting::lemma_count_eq_concat(
        a.map_values(f) + b.map_values(f) + c.map_values(f),
        d.map_values(f),
        msg_no_tags(),
    );
    crate::sorting::lemma_count_eq_concat(
        a.map_values(f) + b.map_values(f) + c.map_values(f) + d.map_values(f),
        e.map_values(f),
        msg_no_tags(),
    );
    if s.sensor_type == SensorType::Numeric && s.unit is None {
        lemma_err_if_count(
            s.id.len() == 0,
            id_placeholder(),
            msg_sensor_empty_id(),
            msg_invalid_unit(),
        );
        lemma_err_if_count(
            s.display_name.len() == 0,
            s.id,
            msg_empty_display_name(),
            msg_invalid_unit(),
        );
        lemma_err_if_count(
            s.skyspark_marker_tags.len() == 0,
            s.id,
            msg_no_tags(),
            msg_invalid_unit(),
        );
        lemma_invalid_tag_errs_count(s.id, s.skyspark_marker_tags, msg_invalid_unit());
        lemma_unit_errs_count(s, units, msg_invalid_unit());
        crate::sorting::lemma_count_eq_concat(a.map_values(f), b.map_values(f), msg_invalid_unit());
        crate::sorting::lemma_count_eq_concat(
            a.map_values(f) + b.map_values(f),
            c.map_values(f),
            msg_invalid_unit(),
        );
        crate::sorting::lemma_count_eq_concat(
            a.map_values(f) + b.map_values(f) + c.map_values(f),
            d.map_values(f),
            msg_invalid_unit(),
        );
        crate::sorting::lemma_count_eq_concat(
            a.map_values(f) + b.map_values(f) + c.map_values(f) + d.map_values(f),
            e.map_values(f),
            msg_invalid_unit(),
        );
    }
}

/// The count of a message among the unit findings of one sensor.
proof fn lemma_unit_errs_count(s: SensorView, units: Set<Seq<char>>, x: Seq<char>)
    requires
        x == msg_no_tags() || (x == msg_invalid_unit() && !(s.sensor_type == SensorType::Numeric
            && s.unit is Some)),
    ensures
        crate::sorting::count_eq(unit_errs(s, units).map_values(msg_of()), x) == 0,
{
    lemma_sensor_msgs_distinct();
    if s.sensor_type == SensorType::Numeric {
        match s.unit {
            Some(u) => {
                lemma_err_if_count(!units.contains(u), s.id, msg_invalid_unit(), x);
            },
            None => {
                assert(unit_errs(s, units).map_values(msg_of()) =~= Seq::<Seq<char>>::empty());
            },
        }
    } else {
        lemma_err_if_count(s.unit is Some, s.id, msg_nonnumeric_unit(), x);
    }
}

} // verus!
