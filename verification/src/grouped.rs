//! Grouped aggregation: one accumulator per sensor, kept in sensor order.

use rayon::iter::{IntoParallelRefIterator, ParallelIterator};
use vstd::prelude::*;
use crate::accumulator::Accumulator;
use crate::reading::is_above;
use crate::lexical::{
    comes_before, id_precedes, key, lemma_distinct_ids_are_ordered, lemma_precedes_is_irreflexive,
    lemma_precedes_is_transitive,
};
use crate::record::{passes, readings, Record};
use crate::stats::{
    ascending, lists, of_sensor, readings_of, table, tallies, Mean, SensorStats, SensorStatsView,
};

verus! {

/// The accumulator of one sensor while records are still being taken in.
struct Group {
    sensor_id: String,
    acc: Accumulator,
}

/// What a group will stand for once it is turned into statistics.
spec fn group_view(group: Group) -> SensorStatsView {
    SensorStatsView {
        sensor_id: group.sensor_id@,
        count: group.acc@.len(),
        average: group.acc@,
    }
}

/// The groups, each by what it stands for.
spec fn group_table(groups: Seq<Group>) -> Seq<SensorStatsView> {
    groups.map_values(|g: Group| group_view(g))
}

/// Every accumulator is well formed.
spec fn all_wf(groups: Seq<Group>) -> bool {
    forall|i: int| 0 <= i < groups.len() ==> (#[trigger] groups[i]).acc.wf()
}

/// The entry that a first reading opens.
spec fn opened(record: Record) -> SensorStatsView {
    SensorStatsView { sensor_id: record.sensor_id@, count: 1, average: seq![record.value] }
}

/// An entry after one more reading of its sensor.
spec fn extended(entry: SensorStatsView, value: u64) -> SensorStatsView {
    SensorStatsView {
        sensor_id: entry.sensor_id,
        count: entry.count + 1,
        average: entry.average.push(value),
    }
}

/// One more record appends its reading to the readings of its own sensor and
/// leaves those of every other sensor alone.
pub proof fn lemma_readings_of_push(kept: Seq<Record>, last: Record, sensor: Seq<char>)
    ensures
        readings_of(kept.push(last), sensor) == if last.sensor_id@ == sensor {
            readings_of(kept, sensor).push(last.value)
        } else {
            readings_of(kept, sensor)
        },
{
    kept.lemma_filter_push(last, of_sensor(sensor));
    let own = kept.filter(of_sensor(sensor));
    if last.sensor_id@ == sensor {
        assert(readings(own.push(last)) =~= readings(own).push(last.value));
    }
}

/// A sensor that does not occur has no readings.
pub proof fn lemma_absent_sensor_has_no_readings(kept: Seq<Record>, sensor: Seq<char>)
    requires
        forall|k: int| 0 <= k < kept.len() ==> (#[trigger] kept[k]).sensor_id@ != sensor,
    ensures
        readings_of(kept, sensor) == Seq::<u64>::empty(),
    decreases kept.len(),
{
    if kept.len() == 0 {
        reveal(Seq::filter);
        assert(readings_of(kept, sensor) =~= Seq::<u64>::empty());
    } else {
        let front = kept.drop_last();
        assert(forall|k: int| 0 <= k < front.len() ==> front[k] == kept[k]);
        lemma_absent_sensor_has_no_readings(front, sensor);
        assert(kept == front.push(kept.last()));
        lemma_readings_of_push(front, kept.last(), sensor);
    }
}

/// A reading of a sensor that has its entry extends that entry.
proof fn lemma_tally_existing(
    groups: Seq<SensorStatsView>,
    kept: Seq<Record>,
    record: Record,
    p: int,
)
    requires
        tallies(groups, kept),
        0 <= p < groups.len(),
        groups[p].sensor_id == record.sensor_id@,
    ensures
        tallies(groups.update(p, extended(groups[p], record.value)), kept.push(record)),
{
    let after = groups.update(p, extended(groups[p], record.value));
    let more = kept.push(record);
    assert forall|i: int, j: int| 0 <= i < j < after.len() implies id_precedes(
        #[trigger] after[i].sensor_id,
        #[trigger] after[j].sensor_id,
    ) by {
        assert(after[i].sensor_id == groups[i].sensor_id);
        assert(after[j].sensor_id == groups[j].sensor_id);
    }
    assert forall|i: int| 0 <= i < after.len() implies {
        &&& (#[trigger] after[i]).average == readings_of(more, after[i].sensor_id)
        &&& after[i].count == after[i].average.len()
        &&& after[i].count > 0
    } by {
        lemma_readings_of_push(kept, record, groups[i].sensor_id);
        if i != p {
            assert(after[i] == groups[i]);
            if groups[i].sensor_id == record.sensor_id@ {
                lemma_precedes_is_irreflexive(key(record.sensor_id@));
                if i < p {
                    assert(id_precedes(groups[i].sensor_id, groups[p].sensor_id));
                } else {
                    assert(id_precedes(groups[p].sensor_id, groups[i].sensor_id));
                }
            }
        }
    }
    assert forall|k: int| 0 <= k < more.len() implies lists(
        after,
        (#[trigger] more[k]).sensor_id@,
    ) by {
        if k < kept.len() {
            assert(more[k] == kept[k]);
            assert(lists(groups, kept[k].sensor_id@));
            let i = choose|i: int|
                0 <= i < groups.len() && (#[trigger] groups[i]).sensor_id == kept[k].sensor_id@;
            assert(after[i].sensor_id == kept[k].sensor_id@);
        } else {
            assert(after[p].sensor_id == record.sensor_id@);
        }
    }
}

/// A reading of a sensor without an entry opens one at the sensor's place.
proof fn lemma_tally_new(groups: Seq<SensorStatsView>, kept: Seq<Record>, record: Record, p: int)
    requires
        tallies(groups, kept),
        0 <= p <= groups.len(),
        forall|i: int|
            0 <= i < p ==> id_precedes((#[trigger] groups[i]).sensor_id, record.sensor_id@),
        forall|j: int|
            p <= j < groups.len() ==> id_precedes(
                record.sensor_id@,
                (#[trigger] groups[j]).sensor_id,
            ),
    ensures
        tallies(groups.insert(p, opened(record)), kept.push(record)),
{
    let after = groups.insert(p, opened(record));
    let more = kept.push(record);
    lemma_precedes_is_irreflexive(key(record.sensor_id@));
    assert forall|i: int, j: int| 0 <= i < j < after.len() implies id_precedes(
        #[trigger] after[i].sensor_id,
        #[trigger] after[j].sensor_id,
    ) by {
        if j < p {
            assert(after[i] == groups[i] && after[j] == groups[j]);
        } else if j == p {
            assert(after[i] == groups[i]);
        } else if i < p {
            assert(after[i] == groups[i] && after[j] == groups[j - 1]);
        } else if i == p {
            assert(after[j] == groups[j - 1]);
        } else {
            assert(after[i] == groups[i - 1] && after[j] == groups[j - 1]);
        }
    }
    assert forall|k: int| 0 <= k < kept.len() implies (#[trigger] kept[k]).sensor_id@
        != record.sensor_id@ by {
        assert(lists(groups, kept[k].sensor_id@));
        let i = choose|i: int|
            0 <= i < groups.len() && (#[trigger] groups[i]).sensor_id == kept[k].sensor_id@;
        if i < p {
            assert(id_precedes(groups[i].sensor_id, record.sensor_id@));
        } else {
            assert(id_precedes(record.sensor_id@, groups[i].sensor_id));
        }
    }
    lemma_absent_sensor_has_no_readings(kept, record.sensor_id@);
    assert forall|i: int| 0 <= i < after.len() implies {
        &&& (#[trigger] after[i]).average == readings_of(more, after[i].sensor_id)
        &&& after[i].count == after[i].average.len()
        &&& after[i].count > 0
    } by {
        lemma_readings_of_push(kept, record, after[i].sensor_id);
        if i < p {
            assert(after[i] == groups[i]);
        } else if i == p {
            assert(Seq::<u64>::empty().push(record.value) =~= seq![record.value]);
        } else {
            assert(after[i] == groups[i - 1]);
        }
    }
    assert forall|k: int| 0 <= k < more.len() implies lists(
        after,
        (#[trigger] more[k]).sensor_id@,
    ) by {
        if k < kept.len() {
            assert(more[k] == kept[k]);
            assert(lists(groups, kept[k].sensor_id@));
            let i = choose|i: int|
                0 <= i < groups.len() && (#[trigger] groups[i]).sensor_id == kept[k].sensor_id@;
            if i < p {
                assert(after[i].sensor_id == kept[k].sensor_id@);
            } else {
                assert(after[i + 1].sensor_id == kept[k].sensor_id@);
            }
        } else {
            assert(after[p].sensor_id == record.sensor_id@);
        }
    }
}

/// Finds the place of a sensor among the groups: the first group that does
/// not come before it.
fn locate(groups: &Vec<Group>, sensor_id: &String) -> (p: usize)
    requires
        ascending(group_table(groups@)),
    ensures
        p <= groups.len(),
        forall|i: int|
            0 <= i < p ==> id_precedes((#[trigger] groups[i]).sensor_id@, sensor_id@),
        forall|j: int|
            p <= j < groups.len() && groups[j].sensor_id@ != sensor_id@ ==> id_precedes(
                sensor_id@,
                (#[trigger] groups[j]).sensor_id@,
            ),
        forall|j: int| p < j < groups.len() ==> (#[trigger] groups[j]).sensor_id@ != sensor_id@,
{
    let mut p: usize = 0;
    while p < groups.len() && comes_before(groups[p].sensor_id.as_str(), sensor_id.as_str())
        invariant
            p <= groups.len(),
            forall|i: int|
                0 <= i < p ==> id_precedes((#[trigger] groups[i]).sensor_id@, sensor_id@),
        decreases groups.len() - p,
    {
        p += 1;
    }
    proof {
        let views = group_table(groups@);
        assert forall|j: int|
            p <= j < groups.len() && groups[j].sensor_id@ != sensor_id@ implies id_precedes(
            sensor_id@,
            (#[trigger] groups[j]).sensor_id@,
        ) by {
            assert(views[p as int].sensor_id == groups[p as int].sensor_id@);
            assert(views[j].sensor_id == groups[j].sensor_id@);
            if j > p {
                assert(id_precedes(views[p as int].sensor_id, views[j].sensor_id));
                if groups[p as int].sensor_id@ == sensor_id@ {
                } else {
                    lemma_distinct_ids_are_ordered(groups[p as int].sensor_id@, sensor_id@);
                    lemma_precedes_is_transitive(
                        key(sensor_id@),
                        key(groups[p as int].sensor_id@),
                        key(groups[j].sensor_id@),
                    );
                }
            } else {
                lemma_distinct_ids_are_ordered(groups[j].sensor_id@, sensor_id@);
            }
        }
        assert forall|j: int| p < j < groups.len() implies (#[trigger] groups[j]).sensor_id@
            != sensor_id@ by {
            assert(views[p as int].sensor_id == groups[p as int].sensor_id@);
            assert(views[j].sensor_id == groups[j].sensor_id@);
            assert(id_precedes(views[p as int].sensor_id, views[j].sensor_id));
            if groups[j].sensor_id@ == sensor_id@ {
                assert(!id_precedes(groups[p as int].sensor_id@, sensor_id@));
            }
        }
    }
    p
}

/// Takes one record into the groups: its reading goes to the accumulator of
/// its sensor, which is opened at the sensor's place if it is not there yet.
fn record_reading(groups: &mut Vec<Group>, record: &Record, Ghost(kept): Ghost<Seq<Record>>)
    requires
        all_wf(old(groups)@),
        tallies(group_table(old(groups)@), kept),
    ensures
        all_wf(final(groups)@),
        tallies(group_table(final(groups)@), kept.push(*record)),
{
    let p = locate(groups, &record.sensor_id);
    let ghost before = group_table(groups@);
    if p < groups.len() && groups[p].sensor_id == record.sensor_id {
        groups[p].acc.add(record.value);
        proof {
            lemma_tally_existing(before, kept, *record, p as int);
            assert(group_table(groups@) =~= before.update(
                p as int,
                extended(before[p as int], record.value),
            ));
        }
    } else {
        let mut acc = Accumulator::empty();
        acc.add(record.value);
        let ghost old_groups = groups@;
        groups.insert(p, Group { sensor_id: record.sensor_id.clone(), acc });
        proof {
            assert(Seq::<u64>::empty().push(record.value) =~= seq![record.value]);
            assert forall|i: int| 0 <= i < p implies id_precedes(
                (#[trigger] before[i]).sensor_id,
                record.sensor_id@,
            ) by {
                assert(before[i].sensor_id == old_groups[i].sensor_id@);
            }
            assert forall|j: int| p <= j < before.len() implies id_precedes(
                record.sensor_id@,
                (#[trigger] before[j]).sensor_id,
            ) by {
                assert(before[j].sensor_id == old_groups[j].sensor_id@);
            }
            lemma_tally_new(before, kept, *record, p as int);
            assert(group_table(groups@) =~= before.insert(p as int, opened(*record)));
        }
    }
}

/// The records that a run of references points at.
pub open spec fn referents(kept: Seq<&Record>) -> Seq<Record> {
    kept.map_values(|r: &Record| *r)
}

/// Turns the finished groups into statistics, entry by entry.
fn into_stats(groups: Vec<Group>) -> (stats: Vec<SensorStats>)
    requires
        all_wf(groups@),
    ensures
        table(stats@) == group_table(groups@),
{
    let ghost finished = groups@;
    let mut stats: Vec<SensorStats> = Vec::new();
    for group in it: groups
        invariant
            it.seq() == finished,
            all_wf(finished),
            stats.len() == it.index(),
            table(stats@) == group_table(finished.take(it.index() as int)),
    {
        let ghost done = it.index() as int;
        let ghost entries = stats@;
        assert(group == finished[done]);
        let count = group.acc.count();
        let entry = SensorStats {
            sensor_id: group.sensor_id,
            count,
            average: Mean { terms: group.acc.into_readings() },
        };
        stats.push(entry);
        proof {
            assert(finished.take(done + 1) =~= finished.take(done).push(finished[done]));
            assert(table(entries.push(entry)) =~= table(entries).push(entry@));
            assert(group_table(finished.take(done).push(finished[done])) =~= group_table(
                finished.take(done),
            ).push(group_view(finished[done])));
        }
    }
    proof {
        assert(finished.take(finished.len() as int) =~= finished);
    }
    stats
}

/// Groups records that have passed the filter by their sensor. The result
/// has one entry per sensor that occurs, in ascending order of the sensors,
/// and each entry holds the readings of its sensor in the order given.
pub fn group_by_sensor(kept: &Vec<&Record>) -> (stats: Vec<SensorStats>)
    ensures
        tallies(table(stats@), referents(kept@)),
{
    let mut groups: Vec<Group> = Vec::new();
    let ghost all = referents(kept@);
    let mut k: usize = 0;
    proof {
        assert(group_table(groups@) =~= Seq::<SensorStatsView>::empty());
    }
    while k < kept.len()
        invariant
            k <= kept.len(),
            all == referents(kept@),
            all_wf(groups@),
            tallies(group_table(groups@), all.take(k as int)),
        decreases kept.len() - k,
    {
        record_reading(&mut groups, kept[k], Ghost(all.take(k as int)));
        proof {
            assert(all.take(k as int).push(*kept[k as int]) =~= all.take(k as int + 1));
        }
        k += 1;
    }
    proof {
        assert(all.take(kept.len() as int) =~= all);
    }
    into_stats(groups)
}

/// Keeps the records whose reading is strictly above the threshold, in file
/// order. The work is done by rayon: `par_iter` on the records, `filter` with
/// the library's own test, `collect` into a vector. Trusted of rayon: that
/// `filter` keeps exactly the items on which the test holds and that
/// `collect` into a vector hands them back in the order of the input.
#[verifier::external_body]
fn par_keep<'a>(records: &'a Vec<Record>, threshold: u64) -> (kept: Vec<&'a Record>)
    ensures
        referents(kept@) == records@.filter(passes(threshold)),
{
    records.par_iter().filter(|r| is_above(r.value, threshold)).collect()
}

/// Per-sensor statistics of the records whose reading is strictly above the
/// threshold: one entry per sensor with such a reading, ascending by sensor,
/// with the number of those readings and the readings themselves in file
/// order.
pub fn compute_per_sensor_stats(records: &Vec<Record>, threshold: u64) -> (stats: Vec<
    SensorStats,
>)
    ensures
        tallies(table(stats@), records@.filter(passes(threshold))),
{
    let kept = par_keep(records, threshold);
    group_by_sensor(&kept)
}

} // verus!
