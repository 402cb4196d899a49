//! The results of a run and what they must say of the input.

use vstd::prelude::*;
use crate::lexical::id_precedes;
use crate::record::{passes, passing, readings, Record};

verus! {

/// An average left unevaluated: the readings whose floating sum is to be
/// divided by their number. The library fixes which readings enter and in
/// which order; the arithmetic on them is the caller's.
#[derive(Debug)]
pub struct Mean {
    /// The readings to be averaged, as binary64 bit patterns, in file order.
    pub terms: Vec<u64>,
}

impl View for Mean {
    type V = Seq<u64>;

    open spec fn view(&self) -> Seq<u64> {
        self.terms@
    }
}

/// The statistics of one sensor.
#[derive(Debug)]
pub struct SensorStats {
    /// The sensor.
    pub sensor_id: String,
    /// How many of its readings passed the filter.
    pub count: usize,
    /// The average of those readings.
    pub average: Mean,
}

/// What a `SensorStats` stands for.
pub struct SensorStatsView {
    pub sensor_id: Seq<char>,
    pub count: nat,
    pub average: Seq<u64>,
}

impl View for SensorStats {
    type V = SensorStatsView;

    open spec fn view(&self) -> SensorStatsView {
        SensorStatsView {
            sensor_id: self.sensor_id@,
            count: self.count as nat,
            average: self.average@,
        }
    }
}

/// The statistics of a whole run.
#[derive(Debug)]
pub struct ProcessingStats {
    /// The number of records read.
    pub total_rows: usize,
    /// The number of records whose reading passed the filter.
    pub filtered_rows: usize,
    /// The average of the readings that passed; absent when none did.
    pub average: Option<Mean>,
    /// One entry per sensor with a passing reading, ascending by sensor;
    /// empty unless per-sensor detail was asked for.
    pub per_sensor: Vec<SensorStats>,
}

/// What a `ProcessingStats` stands for.
pub struct ProcessingStatsView {
    pub total_rows: nat,
    pub filtered_rows: nat,
    pub average: Option<Seq<u64>>,
    pub per_sensor: Seq<SensorStatsView>,
}

/// The entries of a per-sensor table, each by what it stands for.
pub open spec fn table(stats: Seq<SensorStats>) -> Seq<SensorStatsView> {
    stats.map_values(|s: SensorStats| s@)
}

impl View for ProcessingStats {
    type V = ProcessingStatsView;

    open spec fn view(&self) -> ProcessingStatsView {
        ProcessingStatsView {
            total_rows: self.total_rows as nat,
            filtered_rows: self.filtered_rows as nat,
            average: match self.average {
                Some(mean) => Some(mean@),
                None => None,
            },
            per_sensor: table(self.per_sensor@),
        }
    }
}

/// The records of one sensor.
pub open spec fn of_sensor(sensor: Seq<char>) -> spec_fn(Record) -> bool {
    |r: Record| r.sensor_id@ == sensor
}

/// The readings of one sensor among `kept`, in order.
pub open spec fn readings_of(kept: Seq<Record>, sensor: Seq<char>) -> Seq<u64> {
    readings(kept.filter(of_sensor(sensor)))
}

/// The entries ascend strictly by sensor, so no sensor occurs twice.
pub open spec fn ascending(groups: Seq<SensorStatsView>) -> bool {
    forall|i: int, j: int|
        0 <= i < j < groups.len() ==> id_precedes(
            #[trigger] groups[i].sensor_id,
            #[trigger] groups[j].sensor_id,
        )
}

/// Each entry holds exactly the readings of its sensor among `kept`, in
/// order, with their number, and holds at least one.
pub open spec fn exact(groups: Seq<SensorStatsView>, kept: Seq<Record>) -> bool {
    forall|i: int|
        0 <= i < groups.len() ==> {
            &&& (#[trigger] groups[i]).average == readings_of(kept, groups[i].sensor_id)
            &&& groups[i].count == groups[i].average.len()
            &&& groups[i].count > 0
        }
}

/// Whether some entry is that of `sensor`.
pub open spec fn lists(groups: Seq<SensorStatsView>, sensor: Seq<char>) -> bool {
    exists|i: int| 0 <= i < groups.len() && (#[trigger] groups[i]).sensor_id == sensor
}

/// Every sensor that occurs among `kept` has its entry.
pub open spec fn complete(groups: Seq<SensorStatsView>, kept: Seq<Record>) -> bool {
    forall|k: int| 0 <= k < kept.len() ==> lists(groups, (#[trigger] kept[k]).sensor_id@)
}

/// `groups` is the per-sensor table of the records `kept`.
pub open spec fn tallies(groups: Seq<SensorStatsView>, kept: Seq<Record>) -> bool {
    &&& ascending(groups)
    &&& exact(groups, kept)
    &&& complete(groups, kept)
}

/// The number of readings over all entries of a per-sensor table.
pub open spec fn total_count(groups: Seq<SensorStatsView>) -> nat
    decreases groups.len(),
{
    if groups.len() == 0 {
        0
    } else {
        total_count(groups.drop_last()) + groups.last().count
    }
}

impl ProcessingStatsView {
    /// The invariant of the statistics of a run: no more rows pass than were
    /// read; the average is there exactly when a row passed, with one term
    /// per such row; the table ascends strictly by sensor; every entry counts
    /// its own terms and has at least one; and a table that is there
    /// accounts for every filtered row.
    pub open spec fn wf(self) -> bool {
        &&& self.filtered_rows <= self.total_rows
        &&& self.average.is_some() <==> self.filtered_rows > 0
        &&& self.average.is_some() ==> self.average.unwrap().len() == self.filtered_rows
        &&& ascending(self.per_sensor)
        &&& forall|i: int|
            0 <= i < self.per_sensor.len() ==> {
                &&& (#[trigger] self.per_sensor[i]).count == self.per_sensor[i].average.len()
                &&& self.per_sensor[i].count > 0
            }
        &&& self.per_sensor.len() > 0 ==> total_count(self.per_sensor) == self.filtered_rows
    }
}

/// `stats` is the result of a run over `records` with the given threshold.
pub open spec fn summarises(
    stats: ProcessingStatsView,
    records: Seq<Record>,
    threshold: u64,
    verbose: bool,
) -> bool {
    &&& stats.total_rows == records.len()
    &&& stats.filtered_rows == passing(records, threshold).len()
    &&& stats.average == if passing(records, threshold).len() > 0 {
        Some(passing(records, threshold))
    } else {
        None
    }
    &&& if verbose {
        tallies(stats.per_sensor, records.filter(passes(threshold)))
    } else {
        stats.per_sensor == Seq::<SensorStatsView>::empty()
    }
}

} // verus!
