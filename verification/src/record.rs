//! Input rows and the strict threshold filter over them.

use vstd::prelude::*;
use crate::reading::exceeds;

verus! {

/// One row of input.
#[derive(Clone, Debug)]
pub struct Record {
    /// Free-form time of the reading; carried along, never interpreted.
    pub timestamp: String,
    /// The sensor that took the reading; the grouping key.
    pub sensor_id: String,
    /// The reading, as the bits of an IEEE 754 binary64 number.
    pub value: u64,
}

/// The filter of a run: a record passes when its reading is strictly greater
/// than the threshold.
pub open spec fn passes(threshold: u64) -> spec_fn(Record) -> bool {
    |r: Record| exceeds(r.value, threshold)
}

/// The readings of a run of records, in their order.
pub open spec fn readings(records: Seq<Record>) -> Seq<u64> {
    records.map_values(|r: Record| r.value)
}

/// The readings that pass the filter, in file order.
pub open spec fn passing(records: Seq<Record>, threshold: u64) -> Seq<u64> {
    readings(records.filter(passes(threshold)))
}

/// Taking one more record into account appends its reading if it passes and
/// changes nothing otherwise.
pub proof fn lemma_passing_push(records: Seq<Record>, last: Record, threshold: u64)
    ensures
        passing(records.push(last), threshold) == if exceeds(last.value, threshold) {
            passing(records, threshold).push(last.value)
        } else {
            passing(records, threshold)
        },
{
    records.lemma_filter_push(last, passes(threshold));
    let kept = records.filter(passes(threshold));
    if exceeds(last.value, threshold) {
        assert(readings(kept.push(last)) =~= readings(kept).push(last.value));
    }
}

/// Splitting the input anywhere splits the passing readings at the matching
/// place: partitions may be filtered apart and their results joined.
pub proof fn lemma_passing_concat(first: Seq<Record>, second: Seq<Record>, threshold: u64)
    ensures
        passing(first + second, threshold) == passing(first, threshold) + passing(
            second,
            threshold,
        ),
{
    Seq::filter_distributes_over_add(first, second, passes(threshold));
    assert(readings(first.filter(passes(threshold)) + second.filter(passes(threshold)))
        =~= readings(first.filter(passes(threshold))) + readings(
        second.filter(passes(threshold)),
    ));
}

/// No more readings pass than there are records.
pub proof fn lemma_passing_bounded(records: Seq<Record>, threshold: u64)
    ensures
        passing(records, threshold).len() <= records.len(),
{
    records.lemma_filter_len(passes(threshold));
}

} // verus!
