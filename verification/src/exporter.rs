//! What the metrics exporter publishes: the metrics it registers and the
//! samples that a scan gives them.

use crate::disks::{disk_views, Disk, DiskView};
use crate::enclosure::{Enclosure, EnclosureFan, EnclosureFanView};
use crate::helper::string_views;
use crate::order::{keys_of, sorted_by_key, stable_order, SortKey};
use crate::text::{chars_of, parse_i64, parsed_i64};
use vstd::prelude::*;

verus! {

/// A gauge of the exporter: its name, its help text and the names of its
/// labels.
pub struct MetricDefinition {
    pub name: String,
    pub help: String,
    pub labels: Vec<String>,
}

/// The texts a [`MetricDefinition`] holds.
pub ghost struct MetricDefinitionView {
    pub name: Seq<char>,
    pub help: Seq<char>,
    pub labels: Seq<Seq<char>>,
}

impl View for MetricDefinition {
    type V = MetricDefinitionView;

    open spec fn view(&self) -> MetricDefinitionView {
        MetricDefinitionView {
            name: self.name@,
            help: self.help@,
            labels: string_views(self.labels@),
        }
    }
}

/// The gauge that counts the enclosures.
pub open spec fn number_of_enclosures() -> MetricDefinitionView {
    MetricDefinitionView {
        name: "number_of_enclosures"@,
        help: "Number of enclosures"@,
        labels: Seq::empty(),
    }
}

/// The gauge of the temperature in each slot.
pub open spec fn jbod_slot_temperature() -> MetricDefinitionView {
    MetricDefinitionView {
        name: "jbod_slot_temperature"@,
        help: "Enclosure number, slot position and temperature"@,
        labels: seq!["slot"@, "enclosure"@],
    }
}

/// The gauge of the speed of each fan.
pub open spec fn jbod_fan_rpm() -> MetricDefinitionView {
    MetricDefinitionView {
        name: "jbod_fan_rpm"@,
        help: "The RPM speed of FAN components, device and slot"@,
        labels: seq!["device"@, "slot"@],
    }
}

/// The views of a sequence of definitions.
pub open spec fn definition_views(v: Seq<MetricDefinition>) -> Seq<MetricDefinitionView> {
    v.map_values(|d: MetricDefinition| d@)
}

/// The gauges that the exporter registers, in the order in which it
/// registers them.
pub fn register_metrics() -> (r: Vec<MetricDefinition>)
    ensures
        definition_views(r@) == seq![
            number_of_enclosures(),
            jbod_slot_temperature(),
            jbod_fan_rpm(),
        ],
{
    let enclosures = MetricDefinition {
        name: "number_of_enclosures".to_owned(),
        help: "Number of enclosures".to_owned(),
        labels: Vec::new(),
    };
    let mut slot_labels: Vec<String> = Vec::new();
    slot_labels.push("slot".to_owned());
    slot_labels.push("enclosure".to_owned());
    let temperature = MetricDefinition {
        name: "jbod_slot_temperature".to_owned(),
        help: "Enclosure number, slot position and temperature".to_owned(),
        labels: slot_labels,
    };
    let mut fan_labels: Vec<String> = Vec::new();
    fan_labels.push("device".to_owned());
    fan_labels.push("slot".to_owned());
    let fans = MetricDefinition {
        name: "jbod_fan_rpm".to_owned(),
        help: "The RPM speed of FAN components, device and slot".to_owned(),
        labels: fan_labels,
    };
    proof {
        assert(enclosures@.labels =~= Seq::<Seq<char>>::empty());
        assert(temperature@.labels =~= seq!["slot"@, "enclosure"@]);
        assert(fans@.labels =~= seq!["device"@, "slot"@]);
    }
    let mut r: Vec<MetricDefinition> = Vec::new();
    r.push(enclosures);
    r.push(temperature);
    r.push(fans);
    proof {
        assert(definition_views(r@) =~= seq![
            number_of_enclosures(),
            jbod_slot_temperature(),
            jbod_fan_rpm(),
        ]);
    }
    r
}

/// One value of a gauge: the values of its labels, in the order of the
/// label names, and the number to set.
pub struct Sample {
    pub labels: Vec<String>,
    pub value: i64,
}

/// The values a [`Sample`] holds.
pub ghost struct SampleView {
    pub labels: Seq<Seq<char>>,
    pub value: i64,
}

impl View for Sample {
    type V = SampleView;

    open spec fn view(&self) -> SampleView {
        SampleView { labels: string_views(self.labels@), value: self.value }
    }
}

/// The views of a sequence of samples.
pub open spec fn sample_views(v: Seq<Sample>) -> Seq<SampleView> {
    v.map_values(|s: Sample| s@)
}

/// The number of enclosures, as the gauge takes it.
pub fn number_of_enclosure_metrics(enclosures: &Vec<Enclosure>) -> (r: i64)
    ensures
        r == if enclosures@.len() <= i64::MAX {
            enclosures@.len() as int
        } else {
            i64::MAX as int
        },
{
    let n: u64 = enclosures.len() as u64;
    if n > 0x7fff_ffff_ffff_ffffu64 {
        i64::MAX
    } else {
        n as i64
    }
}

/// The sample of a fan: its description and component index as labels, its
/// speed as value.
pub open spec fn fan_sample(f: EnclosureFanView) -> SampleView {
    SampleView { labels: seq![f.description, f.index], value: f.speed }
}

/// The samples of the fan gauge: one for each fan, in order.
pub fn fan_rpm_samples(fans: &Vec<EnclosureFan>) -> (r: Vec<Sample>)
    ensures
        r@.len() == fans@.len(),
        forall|i: int| 0 <= i < fans@.len() ==> (#[trigger] r@[i])@ == fan_sample(fans@[i]@),
{
    let mut r: Vec<Sample> = Vec::new();
    let mut i: usize = 0;
    while i < fans.len()
        invariant
            i <= fans.len(),
            r@.len() == i,
            forall|j: int| 0 <= j < i ==> (#[trigger] r@[j])@ == fan_sample(fans@[j]@),
        decreases fans.len() - i,
    {
        let mut labels: Vec<String> = Vec::new();
        labels.push(fans[i].description.clone());
        labels.push(fans[i].index.clone());
        let sample = Sample { labels, value: fans[i].speed };
        proof {
            assert(sample@.labels =~= seq![fans@[i as int].description@, fans@[i as int].index@]);
        }
        r.push(sample);
        i += 1;
    }
    r
}

/// The sample of a disk: its slot and enclosure as labels, its temperature
/// as value. A disk whose temperature is no 64-bit decimal number has none.
pub open spec fn temperature_sample(d: DiskView) -> Option<SampleView> {
    match parsed_i64(d.temperature) {
        Some(t) => Some(SampleView { labels: seq![d.slot, d.enclosure], value: t }),
        None => None,
    }
}

/// Reads the temperature sample off a disk record.
pub fn slot_temperature(disk: &Disk) -> (r: Option<Sample>)
    ensures
        r is Some <==> temperature_sample(disk@) is Some,
        r matches Some(s) ==> temperature_sample(disk@) == Some(s@),
{
    match parse_i64(&chars_of(disk.temperature.as_str())) {
        Some(t) => {
            let mut labels: Vec<String> = Vec::new();
            labels.push(disk.slot.clone());
            labels.push(disk.enclosure.clone());
            let sample = Sample { labels, value: t };
            proof {
                assert(sample@.labels =~= seq![disk.slot@, disk.enclosure@]);
            }
            Some(sample)
        },
        None => None,
    }
}

/// The samples of the disks whose temperature can be read, in order.
pub open spec fn temperature_samples(disks: Seq<DiskView>) -> Seq<SampleView>
    decreases disks.len(),
{
    if disks.len() == 0 {
        Seq::empty()
    } else {
        match temperature_sample(disks.last()) {
            Some(s) => temperature_samples(disks.drop_last()).push(s),
            None => temperature_samples(disks.drop_last()),
        }
    }
}

/// The samples of the temperature gauge: one for each disk whose
/// temperature can be read, in the order of the disks.
pub fn slot_temperature_samples(disks: &Vec<Disk>) -> (r: Vec<Sample>)
    ensures
        sample_views(r@) == temperature_samples(disk_views(disks@)),
{
    let mut r: Vec<Sample> = Vec::new();
    let mut i: usize = 0;
    let ghost all = disk_views(disks@);
    proof {
        assert(all.take(0).len() == 0);
        assert(sample_views(r@) =~= Seq::<SampleView>::empty());
    }
    while i < disks.len()
        invariant
            i <= disks.len(),
            all == disk_views(disks@),
            sample_views(r@) == temperature_samples(all.take(i as int)),
        decreases disks.len() - i,
    {
        proof {
            assert(all.take(i + 1).drop_last() =~= all.take(i as int));
            assert(all.take(i + 1).last() == disks@[i as int]@);
        }
        match slot_temperature(&disks[i]) {
            Some(s) => {
                proof {
                    assert(sample_views(r@.push(s)) =~= sample_views(r@).push(s@));
                }
                r.push(s);
            },
            None => {},
        }
        i += 1;
    }
    proof {
        assert(all.take(disks@.len() as int) =~= all);
    }
    r
}

impl SortKey for EnclosureFan {
    /// The exporter takes the fans by their component index.
    open spec fn key_text(&self) -> Seq<char> {
        self.index@
    }

    fn sort_key(&self) -> (r: &str) {
        self.index.as_str()
    }
}

/// The component indexes of the fans, by which the exporter orders them.
pub open spec fn index_keys(fans: Seq<EnclosureFan>) -> Seq<Seq<char>> {
    fans.map_values(|f: EnclosureFan| f.index@)
}

/// Orders the fans by component index, fans of the same index as they
/// stand: the result lists their positions in that order.
pub fn fans_by_index(fans: &Vec<EnclosureFan>) -> (order: Vec<usize>)
    ensures
        stable_order(index_keys(fans@), order@),
{
    proof {
        assert(keys_of(fans@) =~= index_keys(fans@));
    }
    sorted_by_key(fans)
}

} // verus!
