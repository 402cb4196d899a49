//! A whole run: global aggregation, optional per-sensor detail, assembly.

use rayon::iter::{IntoParallelRefIterator, ParallelIterator};
use vstd::prelude::*;
use crate::accumulator::Accumulator;
use crate::grouped::compute_per_sensor_stats;
use crate::laws::lemma_summary_is_well_formed;
use crate::reading::is_above;
use crate::record::{passing, Record};
use crate::stats::{summarises, Mean, ProcessingStats, SensorStats};

verus! {

/// One step of a worker's fold: the accumulator after taking in the reading
/// of `record`.
pub fn take_in(acc: Accumulator, record: &Record) -> (next: Accumulator)
    requires
        acc.wf(),
    ensures
        next.wf(),
        next@ == acc@.push(record.value),
{
    let mut next = acc;
    next.add(record.value);
    next
}

/// Gathers the readings strictly above the threshold into one accumulator.
/// The work is done by rayon: `par_iter` on the records, `filter` with the
/// library's own test, `fold` from the empty accumulator with `take_in`, and
/// `reduce` with `merge`. Trusted of rayon: that `filter` keeps exactly the
/// items on which the test holds; that `fold` cuts what is kept into
/// consecutive runs and folds each run in order from the identity; and that
/// `reduce` joins the results of neighbouring runs, left before right. Since
/// merging appends and the empty accumulator is its identity, every such
/// cutting gathers the passing readings in file order.
#[verifier::external_body]
fn par_accumulate(records: &Vec<Record>, threshold: u64) -> (acc: Accumulator)
    ensures
        acc.wf(),
        acc@ == passing(records@, threshold),
{
    records.par_iter().filter(|r| is_above(r.value, threshold)).fold(
        Accumulator::empty,
        take_in,
    ).reduce(Accumulator::empty, Accumulator::merge)
}

/// Runs the filter over the records and assembles the statistics: how many
/// records there are, how many readings are strictly above the threshold,
/// their average if there is any such reading, and, if `verbose`, the
/// per-sensor table.
pub fn process(records: &Vec<Record>, threshold: u64, verbose: bool) -> (stats: ProcessingStats)
    ensures
        summarises(stats@, records@, threshold, verbose),
        stats@.wf(),
{
    let total_rows = records.len();
    let global = par_accumulate(records, threshold);
    let filtered_rows = global.count();
    let average = if filtered_rows > 0 {
        Some(Mean { terms: global.into_readings() })
    } else {
        None
    };
    let per_sensor: Vec<SensorStats> = if verbose {
        compute_per_sensor_stats(records, threshold)
    } else {
        Vec::new()
    };
    let stats = ProcessingStats { total_rows, filtered_rows, average, per_sensor };
    proof {
        if !verbose {
            assert(stats@.per_sensor =~= Seq::empty());
        }
        lemma_summary_is_well_formed(stats@, records@, threshold, verbose);
    }
    stats
}

} // verus!
