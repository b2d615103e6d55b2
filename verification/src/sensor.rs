//! Selecting the temperature sensors of the core group and of the GPU group,
//! and putting each group in the order of the ordinals in its labels.
//!
//! The two groups are chosen independently: a label may belong to both, or
//! to neither.

use crate::binary32::Binary32;
use crate::label::{is_core, is_core_label, is_gpu, is_gpu_label};
use crate::ordinal::{extract_ordinal, ordinal_of};
use crate::order::{
    insert_front_position, stable_sort, stable_sort_ordered, stable_sort_permutes,
    stable_sort_stable, strict_weak_order, tied_with,
};
use crate::snapshot::{Sensor, SensorModel};
use vstd::prelude::*;

verus! {

/// One of the two groups of temperature sensors.
#[derive(Clone, Copy, Debug, PartialEq, Eq, Structural)]
pub enum Group {
    Core,
    Gpu,
}

/// A temperature reading of one cycle: the group that it was selected for,
/// the label of its sensor, the ordinal in the label, and the temperature.
#[derive(Clone, Debug)]
pub struct TemperatureReading {
    pub group: Group,
    pub label: String,
    pub ordinal: usize,
    pub temperature: Binary32,
}

/// The model of a `TemperatureReading`.
pub struct ReadingModel {
    pub group: Group,
    pub label: Seq<char>,
    pub ordinal: nat,
    pub temperature: Binary32,
}

impl View for TemperatureReading {
    type V = ReadingModel;

    open spec fn view(&self) -> ReadingModel {
        ReadingModel {
            group: self.group,
            label: self.label@,
            ordinal: self.ordinal as nat,
            temperature: self.temperature,
        }
    }
}

impl DeepView for TemperatureReading {
    type V = ReadingModel;

    open spec fn deep_view(&self) -> ReadingModel {
        self@
    }
}

/// The readings of the two groups, each in the order of its ordinals.
#[derive(Clone, Debug)]
pub struct Classification {
    pub core: Vec<TemperatureReading>,
    pub gpu: Vec<TemperatureReading>,
}

/// The model of a `Classification`.
pub struct ClassificationModel {
    pub core: Seq<ReadingModel>,
    pub gpu: Seq<ReadingModel>,
}

impl View for Classification {
    type V = ClassificationModel;

    open spec fn view(&self) -> ClassificationModel {
        ClassificationModel { core: self.core.deep_view(), gpu: self.gpu.deep_view() }
    }
}

/// Whether a label belongs to `group`.
pub open spec fn in_group(label: Seq<char>, group: Group) -> bool {
    match group {
        Group::Core => is_core_label(label),
        Group::Gpu => is_gpu_label(label),
    }
}

/// The test that picks the sensors of `group`.
pub open spec fn member_of(group: Group) -> spec_fn(SensorModel) -> bool {
    |sensor: SensorModel| in_group(sensor.label, group)
}

/// The reading that a sensor gives to `group`.
pub open spec fn reading_of(sensor: SensorModel, group: Group) -> ReadingModel {
    ReadingModel {
        group,
        label: sensor.label,
        ordinal: ordinal_of(sensor.label),
        temperature: sensor.temperature,
    }
}

/// The order of readings: by ordinal, ascending.
pub open spec fn ordinal_before() -> spec_fn(ReadingModel, ReadingModel) -> bool {
    |a: ReadingModel, b: ReadingModel| a.ordinal < b.ordinal
}

/// The step from a sensor to the reading that it gives to `group`.
pub open spec fn read_for(group: Group) -> spec_fn(SensorModel) -> ReadingModel {
    |sensor: SensorModel| reading_of(sensor, group)
}

/// The readings of the sensors of `group`, in the order of the sensors.
pub open spec fn selected(sensors: Seq<SensorModel>, group: Group) -> Seq<ReadingModel> {
    sensors.filter(member_of(group)).map_values(read_for(group))
}

/// The readings of `group`: those of its sensors, sorted by ordinal; readings
/// with one ordinal keep the order of their sensors.
pub open spec fn group_readings(sensors: Seq<SensorModel>, group: Group) -> Seq<ReadingModel> {
    stable_sort(selected(sensors, group), ordinal_before())
}

/// The classification of the sensors of a snapshot.
pub open spec fn classification_of(sensors: Seq<SensorModel>) -> ClassificationModel {
    ClassificationModel {
        core: group_readings(sensors, Group::Core),
        gpu: group_readings(sensors, Group::Gpu),
    }
}

/// The test that picks the readings with the ordinal `ordinal`.
pub open spec fn has_ordinal(ordinal: nat) -> spec_fn(ReadingModel) -> bool {
    |reading: ReadingModel| reading.ordinal == ordinal
}

/// The readings of a group come in ascending order of their ordinals.
pub proof fn group_readings_ascending(sensors: Seq<SensorModel>, group: Group)
    ensures
        forall|i: int, j: int|
            0 <= i < j < group_readings(sensors, group).len() ==> group_readings(
                sensors,
                group,
            )[i].ordinal <= group_readings(sensors, group)[j].ordinal,
{
    assert(strict_weak_order(ordinal_before()));
    stable_sort_ordered(selected(sensors, group), ordinal_before());
    let sorted = group_readings(sensors, group);
    assert forall|i: int, j: int| 0 <= i < j < sorted.len() implies sorted[i].ordinal
        <= sorted[j].ordinal by {
        assert(!ordinal_before()(sorted[j], sorted[i]));
    }
}

/// The readings of a group that share an ordinal keep the order of their
/// sensors.
pub proof fn group_readings_stable(sensors: Seq<SensorModel>, group: Group, ordinal: nat)
    ensures
        group_readings(sensors, group).filter(has_ordinal(ordinal)) == selected(
            sensors,
            group,
        ).filter(has_ordinal(ordinal)),
{
    assert(strict_weak_order(ordinal_before()));
    let r = ReadingModel {
        group,
        label: Seq::empty(),
        ordinal,
        temperature: Binary32 { bits: 0 },
    };
    stable_sort_stable(selected(sensors, group), ordinal_before(), r);
    let class = tied_with(r, ordinal_before());
    assert(class =~= has_ordinal(ordinal)) by {
        assert forall|y: ReadingModel| class(y) == #[trigger] has_ordinal(ordinal)(y) by {}
    }
}

/// The readings of a group are those of its sensors: sorting neither loses
/// nor adds one.
pub proof fn group_readings_same_items(sensors: Seq<SensorModel>, group: Group)
    ensures
        group_readings(sensors, group).len() == selected(sensors, group).len(),
        group_readings(sensors, group).to_multiset() == selected(sensors, group).to_multiset(),
{
    stable_sort_permutes(selected(sensors, group), ordinal_before());
}

/// Whether a label belongs to `group`.
pub fn label_in_group(label: &str, group: Group) -> (member: bool)
    ensures
        member == in_group(label@, group),
{
    match group {
        Group::Core => is_core(label),
        Group::Gpu => is_gpu(label),
    }
}

/// The readings of the sensors of `group`, in the order of the sensors.
pub fn select(sensors: &Vec<Sensor>, group: Group) -> (readings: Vec<TemperatureReading>)
    ensures
        readings.deep_view() == selected(sensors.deep_view(), group),
{
    let mut readings: Vec<TemperatureReading> = Vec::new();
    let ghost models = sensors.deep_view();
    let mut i: usize = 0;
    while i < sensors.len()
        invariant
            i <= sensors.len(),
            models == sensors.deep_view(),
            readings.deep_view() == selected(models.subrange(0, i as int), group),
        decreases sensors.len() - i,
    {
        let sensor = &sensors[i];
        let ghost seen = models.subrange(0, i as int);
        let ghost next = models.subrange(0, i + 1);
        proof {
            assert(next.drop_last() =~= seen);
            assert(next.last() == sensor@);
            reveal(Seq::filter);
            assert(next.filter(member_of(group)) == if member_of(group)(sensor@) {
                seen.filter(member_of(group)).push(sensor@)
            } else {
                seen.filter(member_of(group))
            });
        }
        if label_in_group(sensor.label.as_str(), group) {
            let ghost before = readings.deep_view();
            let reading = TemperatureReading {
                group,
                label: sensor.label.clone(),
                ordinal: extract_ordinal(sensor.label.as_str()),
                temperature: sensor.temperature,
            };
            readings.push(reading);
            assert(readings.deep_view() =~= before.push(reading_of(sensor@, group)));
            assert(selected(next, group) =~= selected(seen, group).push(
                reading_of(sensor@, group),
            ));
        }
        i = i + 1;
    }
    assert(models.subrange(0, i as int) =~= models);
    readings
}

/// Sorts readings by ordinal; readings with one ordinal keep their order.
pub fn sort_by_ordinal(readings: Vec<TemperatureReading>) -> (sorted: Vec<TemperatureReading>)
    ensures
        sorted.deep_view() == stable_sort(readings.deep_view(), ordinal_before()),
{
    let mut rest = readings;
    let mut sorted: Vec<TemperatureReading> = Vec::new();
    let ghost models = readings.deep_view();
    assert(models.subrange(models.len() as int, models.len() as int) =~= Seq::<
        ReadingModel,
    >::empty());
    assert(rest.deep_view() =~= models.subrange(0, models.len() as int));
    while rest.len() > 0
        invariant
            rest.len() <= models.len(),
            rest.deep_view() == models.subrange(0, rest.len() as int),
            sorted.len() + rest.len() == models.len(),
            sorted.deep_view() == stable_sort(
                models.subrange(rest.len() as int, models.len() as int),
                ordinal_before(),
            ),
        decreases rest.len(),
    {
        let ghost k = rest.len() as int;
        let ghost rest_before = rest.deep_view();
        let reading = rest.pop().unwrap();
        let ghost x = reading@;
        proof {
            assert(x == rest_before[k - 1]);
            assert(x == models[k - 1]);
            assert(rest.deep_view() =~= models.subrange(0, k - 1));
        }
        let mut at: usize = 0;
        while at < sorted.len() && sorted[at].ordinal < reading.ordinal
            invariant
                at <= sorted.len(),
                x == reading@,
                forall|i: int| 0 <= i < at ==> ordinal_before()(sorted.deep_view()[i], x),
            decreases sorted.len() - at,
        {
            at = at + 1;
        }
        let ghost sorted_before = sorted.deep_view();
        proof {
            if at < sorted.len() {
                assert(!ordinal_before()(sorted_before[at as int], x));
            }
            insert_front_position(x, sorted_before, ordinal_before(), at as int);
            let tail = models.subrange(k - 1, models.len() as int);
            assert(tail.drop_first() =~= models.subrange(k, models.len() as int));
            assert(tail[0] == x);
        }
        sorted.insert(at, reading);
        assert(sorted.deep_view() =~= sorted_before.insert(at as int, x));
    }
    assert(models.subrange(0, models.len() as int) =~= models);
    sorted
}

/// The readings of `group`, sorted by ordinal.
pub fn readings_of_group(sensors: &Vec<Sensor>, group: Group) -> (readings: Vec<
    TemperatureReading,
>)
    ensures
        readings.deep_view() == group_readings(sensors.deep_view(), group),
{
    sort_by_ordinal(select(sensors, group))
}

/// Selects and orders the readings of both groups.
pub fn classify(sensors: &Vec<Sensor>) -> (classification: Classification)
    ensures
        classification@ == classification_of(sensors.deep_view()),
{
    Classification {
        core: readings_of_group(sensors, Group::Core),
        gpu: readings_of_group(sensors, Group::Gpu),
    }
}

} // verus!
