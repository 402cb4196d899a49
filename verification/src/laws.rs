//! What holds of every run, proved from what the results must say.

use vstd::prelude::*;
use crate::grouped::lemma_absent_sensor_has_no_readings;
use crate::lexical::{
    id_precedes, key, lemma_precedes_is_irreflexive, lemma_precedes_is_transitive,
};
use crate::reading::{exceeds, rank};
use crate::record::{
    lemma_passing_bounded, lemma_passing_concat, lemma_passing_push, passes, passing, Record,
};
use crate::stats::{
    lists, of_sensor, readings_of, summarises, tallies, total_count, ProcessingStatsView,
    SensorStatsView,
};

verus! {

/// The records whose sensor has one of the first `n` entries.
pub open spec fn among(groups: Seq<SensorStatsView>, n: int) -> spec_fn(Record) -> bool {
    |r: Record| lists(groups.take(n), r.sensor_id@)
}

/// A filter that nothing meets keeps nothing.
proof fn lemma_filter_none(s: Seq<Record>, p: spec_fn(Record) -> bool)
    requires
        forall|k: int| 0 <= k < s.len() ==> !p(#[trigger] s[k]),
    ensures
        s.filter(p).len() == 0,
    decreases s.len(),
{
    reveal(Seq::filter);
    if s.len() > 0 {
        let front = s.drop_last();
        assert(forall|k: int| 0 <= k < front.len() ==> front[k] == s[k]);
        lemma_filter_none(front, p);
    }
}

/// A filter that everything meets keeps everything.
proof fn lemma_filter_all(s: Seq<Record>, p: spec_fn(Record) -> bool)
    requires
        forall|k: int| 0 <= k < s.len() ==> p(#[trigger] s[k]),
    ensures
        s.filter(p).len() == s.len(),
    decreases s.len(),
{
    reveal(Seq::filter);
    if s.len() > 0 {
        let front = s.drop_last();
        assert(forall|k: int| 0 <= k < front.len() ==> front[k] == s[k]);
        lemma_filter_all(front, p);
    }
}

/// Where every record meets `either` exactly when it meets one of two tests
/// that exclude each other, the two tests share out what `either` keeps.
proof fn lemma_filter_split(
    s: Seq<Record>,
    p: spec_fn(Record) -> bool,
    q: spec_fn(Record) -> bool,
    either: spec_fn(Record) -> bool,
)
    requires
        forall|k: int|
            0 <= k < s.len() ==> {
                &&& either(#[trigger] s[k]) == (p(s[k]) || q(s[k]))
                &&& !(p(s[k]) && q(s[k]))
            },
    ensures
        s.filter(either).len() == s.filter(p).len() + s.filter(q).len(),
    decreases s.len(),
{
    reveal(Seq::filter);
    if s.len() > 0 {
        let front = s.drop_last();
        assert(forall|k: int| 0 <= k < front.len() ==> front[k] == s[k]);
        lemma_filter_split(front, p, q, either);
        assert(s.last() == s[s.len() - 1]);
    }
}

/// The first `n` entries count exactly the records of their sensors.
proof fn lemma_prefix_counts(groups: Seq<SensorStatsView>, kept: Seq<Record>, n: int)
    requires
        tallies(groups, kept),
        0 <= n <= groups.len(),
    ensures
        total_count(groups.take(n)) == kept.filter(among(groups, n)).len(),
    decreases n,
{
    if n == 0 {
        assert forall|k: int| 0 <= k < kept.len() implies !among(groups, 0)(#[trigger] kept[k]) by {
            assert(groups.take(0).len() == 0);
        }
        lemma_filter_none(kept, among(groups, 0));
    } else {
        lemma_prefix_counts(groups, kept, n - 1);
        let sensor = groups[n - 1].sensor_id;
        let before = groups.take(n - 1);
        let now = groups.take(n);
        assert(now.drop_last() =~= before);
        assert(now.last() == groups[n - 1]);
        lemma_precedes_is_irreflexive(key(sensor));
        assert forall|k: int| 0 <= k < kept.len() implies {
            &&& among(groups, n)(#[trigger] kept[k]) == (among(groups, n - 1)(kept[k])
                || of_sensor(sensor)(kept[k]))
            &&& !(among(groups, n - 1)(kept[k]) && of_sensor(sensor)(kept[k]))
        } by {
            let id = kept[k].sensor_id@;
            if lists(before, id) {
                let i = choose|i: int| 0 <= i < before.len() && (#[trigger] before[i]).sensor_id == id;
                assert(now[i].sensor_id == id);
                assert(before[i] == groups[i]);
                if id == sensor {
                    assert(id_precedes(groups[i].sensor_id, groups[n - 1].sensor_id));
                }
            }
            if id == sensor {
                assert(now[n - 1].sensor_id == id);
            }
            if lists(now, id) {
                let i = choose|i: int| 0 <= i < now.len() && (#[trigger] now[i]).sensor_id == id;
                if i < n - 1 {
                    assert(before[i].sensor_id == id);
                }
            }
        }
        lemma_filter_split(kept, among(groups, n - 1), of_sensor(sensor), among(groups, n));
        assert(groups[n - 1].average == readings_of(kept, sensor));
    }
}

/// The counts of a per-sensor table add up to the number of records it was
/// made from, and no sensor has two entries.
pub proof fn lemma_sensor_counts_add_up(groups: Seq<SensorStatsView>, kept: Seq<Record>)
    requires
        tallies(groups, kept),
    ensures
        total_count(groups) == kept.len(),
        forall|i: int, j: int|
            0 <= i < j < groups.len() ==> groups[i].sensor_id != groups[j].sensor_id,
{
    let n = groups.len() as int;
    lemma_prefix_counts(groups, kept, n);
    assert(groups.take(n) =~= groups);
    assert forall|k: int| 0 <= k < kept.len() implies among(groups, n)(#[trigger] kept[k]) by {}
    lemma_filter_all(kept, among(groups, n));
    assert forall|i: int, j: int| 0 <= i < j < groups.len() implies groups[i].sensor_id
        != groups[j].sensor_id by {
        lemma_precedes_is_irreflexive(key(groups[i].sensor_id));
        assert(id_precedes(groups[i].sensor_id, groups[j].sensor_id));
    }
}

/// In a run with per-sensor detail the per-sensor counts add up to the
/// number of filtered rows, and the table ascends strictly by sensor.
pub proof fn lemma_detail_accounts_for_filtered_rows(
    stats: ProcessingStatsView,
    records: Seq<Record>,
    threshold: u64,
)
    requires
        summarises(stats, records, threshold, true),
    ensures
        total_count(stats.per_sensor) == stats.filtered_rows,
        forall|i: int, j: int|
            0 <= i < j < stats.per_sensor.len() ==> {
                &&& id_precedes(stats.per_sensor[i].sensor_id, stats.per_sensor[j].sensor_id)
                &&& stats.per_sensor[i].sensor_id != stats.per_sensor[j].sensor_id
            },
{
    lemma_sensor_counts_add_up(stats.per_sensor, records.filter(passes(threshold)));
}

/// Whatever a run returns keeps the invariant of its statistics.
pub proof fn lemma_summary_is_well_formed(
    stats: ProcessingStatsView,
    records: Seq<Record>,
    threshold: u64,
    verbose: bool,
)
    requires
        summarises(stats, records, threshold, verbose),
    ensures
        stats.wf(),
{
    lemma_passing_bounded(records, threshold);
    if verbose {
        lemma_sensor_counts_add_up(stats.per_sensor, records.filter(passes(threshold)));
    }
}

/// The number of filtered rows is the number of records whose reading is
/// strictly above the threshold, and never more than the number of rows.
pub proof fn lemma_filtered_rows_within_total(
    stats: ProcessingStatsView,
    records: Seq<Record>,
    threshold: u64,
    verbose: bool,
)
    requires
        summarises(stats, records, threshold, verbose),
    ensures
        stats.filtered_rows == records.filter(passes(threshold)).len(),
        stats.filtered_rows <= stats.total_rows,
{
    lemma_passing_bounded(records, threshold);
}

/// The average is there exactly when a row passed the filter, and it is then
/// the average of the passing readings: as many terms as filtered rows.
pub proof fn lemma_average_iff_filtered(
    stats: ProcessingStatsView,
    records: Seq<Record>,
    threshold: u64,
    verbose: bool,
)
    requires
        summarises(stats, records, threshold, verbose),
    ensures
        stats.average.is_some() <==> stats.filtered_rows > 0,
        stats.average.is_some() ==> {
            &&& stats.average.unwrap() == passing(records, threshold)
            &&& stats.average.unwrap().len() == stats.filtered_rows
        },
{
}

/// A record whose reading equals the threshold does not pass: with it or
/// without it the passing readings are the same.
pub proof fn lemma_reading_at_threshold_is_excluded(
    records: Seq<Record>,
    record: Record,
    threshold: u64,
)
    requires
        rank(record.value) == rank(threshold),
    ensures
        !exceeds(record.value, threshold),
        passing(records.push(record), threshold) == passing(records, threshold),
{
    lemma_passing_push(records, record, threshold);
}

/// Every entry of a per-sensor table is that of a sensor which occurs.
proof fn lemma_listed_sensor_occurs(groups: Seq<SensorStatsView>, kept: Seq<Record>, i: int)
    requires
        tallies(groups, kept),
        0 <= i < groups.len(),
    ensures
        lists_sensor(kept, groups[i].sensor_id),
{
    if !lists_sensor(kept, groups[i].sensor_id) {
        lemma_absent_sensor_has_no_readings(kept, groups[i].sensor_id);
        assert(groups[i].average.len() == 0);
    }
}

/// Whether some record is of `sensor`.
pub open spec fn lists_sensor(kept: Seq<Record>, sensor: Seq<char>) -> bool {
    exists|k: int| 0 <= k < kept.len() && (#[trigger] kept[k]).sensor_id@ == sensor
}

/// Every entry of one table of `kept` has its sensor in any other.
proof fn lemma_entry_is_shared(
    a: Seq<SensorStatsView>,
    b: Seq<SensorStatsView>,
    kept: Seq<Record>,
    i: int,
) -> (m: int)
    requires
        tallies(a, kept),
        tallies(b, kept),
        0 <= i < a.len(),
    ensures
        0 <= m < b.len(),
        b[m].sensor_id == a[i].sensor_id,
{
    lemma_listed_sensor_occurs(a, kept, i);
    let k = choose|k: int| 0 <= k < kept.len() && (#[trigger] kept[k]).sensor_id@ == a[i].sensor_id;
    assert(lists(b, kept[k].sensor_id@));
    choose|m: int| 0 <= m < b.len() && (#[trigger] b[m]).sensor_id == a[i].sensor_id
}

/// Two tables of the same records name the same sensors at their first `n`
/// places.
proof fn lemma_prefix_agrees(
    a: Seq<SensorStatsView>,
    b: Seq<SensorStatsView>,
    kept: Seq<Record>,
    n: int,
)
    requires
        tallies(a, kept),
        tallies(b, kept),
        0 <= n <= a.len(),
        n <= b.len(),
    ensures
        forall|i: int| 0 <= i < n ==> (#[trigger] a[i]).sensor_id == b[i].sensor_id,
    decreases n,
{
    if n > 0 {
        lemma_prefix_agrees(a, b, kept, n - 1);
        let last = n - 1;
        let x = a[last].sensor_id;
        let y = b[last].sensor_id;
        lemma_precedes_is_irreflexive(key(x));
        lemma_precedes_is_irreflexive(key(y));
        let m = lemma_entry_is_shared(a, b, kept, last);
        let w = lemma_entry_is_shared(b, a, kept, last);
        if m < last {
            assert(a[m].sensor_id == b[m].sensor_id);
            assert(id_precedes(a[m].sensor_id, a[last].sensor_id));
        } else if m > last {
            assert(id_precedes(b[last].sensor_id, b[m].sensor_id));
            if w < last {
                assert(a[w].sensor_id == b[w].sensor_id);
                assert(id_precedes(b[w].sensor_id, b[last].sensor_id));
            } else if w > last {
                assert(id_precedes(a[last].sensor_id, a[w].sensor_id));
                lemma_precedes_is_transitive(key(x), key(y), key(x));
            }
        }
    }
}

/// Records have one per-sensor table only.
pub proof fn lemma_table_is_unique(
    a: Seq<SensorStatsView>,
    b: Seq<SensorStatsView>,
    kept: Seq<Record>,
)
    requires
        tallies(a, kept),
        tallies(b, kept),
    ensures
        a == b,
{
    if a.len() > b.len() {
        let n = b.len() as int;
        lemma_prefix_agrees(a, b, kept, n);
        let m = lemma_entry_is_shared(a, b, kept, n);
        lemma_precedes_is_irreflexive(key(a[n].sensor_id));
        assert(a[m].sensor_id == b[m].sensor_id);
        assert(id_precedes(a[m].sensor_id, a[n].sensor_id));
    } else if b.len() > a.len() {
        let n = a.len() as int;
        lemma_prefix_agrees(a, b, kept, n);
        let m = lemma_entry_is_shared(b, a, kept, n);
        lemma_precedes_is_irreflexive(key(b[n].sensor_id));
        assert(a[m].sensor_id == b[m].sensor_id);
        assert(id_precedes(b[m].sensor_id, b[n].sensor_id));
    } else {
        lemma_prefix_agrees(a, b, kept, a.len() as int);
        assert forall|i: int| 0 <= i < a.len() implies a[i] == b[i] by {
            assert(a[i].sensor_id == b[i].sensor_id);
            assert(a[i].average == readings_of(kept, a[i].sensor_id));
            assert(b[i].average == readings_of(kept, b[i].sensor_id));
        }
        assert(a =~= b);
    }
}

/// A run is repeatable: the same records, threshold and level of detail
/// leave room for one result only, so two runs agree in every field.
pub proof fn lemma_run_is_repeatable(
    first: ProcessingStatsView,
    second: ProcessingStatsView,
    records: Seq<Record>,
    threshold: u64,
    verbose: bool,
)
    requires
        summarises(first, records, threshold, verbose),
        summarises(second, records, threshold, verbose),
    ensures
        first == second,
{
    if verbose {
        lemma_table_is_unique(
            first.per_sensor,
            second.per_sensor,
            records.filter(passes(threshold)),
        );
    }
}

/// Taking one record out takes its reading out of what passes, if it passed,
/// and nothing else.
proof fn lemma_passing_without(records: Seq<Record>, i: int, threshold: u64)
    requires
        0 <= i < records.len(),
    ensures
        passing(records, threshold).to_multiset() == if exceeds(records[i].value, threshold) {
            passing(records.remove(i), threshold).to_multiset().insert(records[i].value)
        } else {
            passing(records.remove(i), threshold).to_multiset()
        },
{
    let front = records.take(i);
    let back = records.skip(i + 1);
    let with = passing(front.push(records[i]), threshold);
    assert(records =~= front.push(records[i]) + back);
    assert(records.remove(i) =~= front + back);
    lemma_passing_concat(front.push(records[i]), back, threshold);
    lemma_passing_concat(front, back, threshold);
    lemma_passing_push(front, records[i], threshold);
    let f = passing(front, threshold);
    let b = passing(back, threshold);
    vstd::seq_lib::lemma_multiset_commutative(with, b);
    vstd::seq_lib::lemma_multiset_commutative(f, b);
    if exceeds(records[i].value, threshold) {
        f.to_multiset_ensures();
        assert(with.to_multiset().add(b.to_multiset()) =~= f.to_multiset().add(
            b.to_multiset(),
        ).insert(records[i].value));
    }
}

/// The order of the rows is immaterial to what is aggregated: two inputs
/// that hold the same records, each as often, pass the same readings, each
/// as often, and so the same number of them.
pub proof fn lemma_row_order_is_immaterial(a: Seq<Record>, b: Seq<Record>, threshold: u64)
    requires
        a.to_multiset() == b.to_multiset(),
    ensures
        passing(a, threshold).to_multiset() == passing(b, threshold).to_multiset(),
        passing(a, threshold).len() == passing(b, threshold).len(),
    decreases a.len(),
{
    a.to_multiset_ensures();
    b.to_multiset_ensures();
    if a.len() == 0 {
        assert(b.len() == 0);
        assert(a =~= b);
    } else {
        let last = a.last();
        let front = a.drop_last();
        assert(a =~= front.push(last));
        assert(a.contains(last));
        assert(a.to_multiset().count(last) > 0);
        assert(b.to_multiset().count(last) > 0);
        assert(b.contains(last));
        let i = choose|i: int| 0 <= i < b.len() && b[i] == last;
        front.to_multiset_ensures();
        assert(front.to_multiset() =~= a.to_multiset().remove(last)) by {
            assert(a.remove(a.len() - 1) =~= front);
        }
        lemma_row_order_is_immaterial(front, b.remove(i), threshold);
        lemma_passing_push(front, last, threshold);
        lemma_passing_without(b, i, threshold);
        passing(front, threshold).to_multiset_ensures();
    }
    passing(a, threshold).to_multiset_ensures();
    passing(b, threshold).to_multiset_ensures();
}

} // verus!
