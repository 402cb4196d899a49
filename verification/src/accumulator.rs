//! The unit of aggregation: a mergeable collection of readings.

use vstd::prelude::*;

verus! {

/// What one worker has gathered: the readings it took in, in the order it took
/// them, and their number. The floating sum of the readings is left to the
/// caller; everything else about an average is fixed here.
#[derive(Debug)]
pub struct Accumulator {
    count: usize,
    readings: Vec<u64>,
}

impl View for Accumulator {
    type V = Seq<u64>;

    closed spec fn view(&self) -> Seq<u64> {
        self.readings@
    }
}

impl Accumulator {
    /// The count agrees with the readings held.
    pub closed spec fn wf(&self) -> bool {
        self.count == self.readings@.len()
    }

    /// The identity of `merge`: nothing taken in yet.
    pub fn empty() -> (acc: Self)
        ensures
            acc.wf(),
            acc@ == Seq::<u64>::empty(),
    {
        Accumulator { count: 0, readings: Vec::new() }
    }

    /// Takes in one reading.
    pub fn add(&mut self, value: u64)
        requires
            old(self).wf(),
        ensures
            final(self).wf(),
            final(self)@ == old(self)@.push(value),
    {
        self.readings.push(value);
        self.count = self.readings.len();
    }

    /// Joins two accumulators: the readings of `self`, then those of `other`.
    pub fn merge(self, other: Self) -> (merged: Self)
        requires
            self.wf(),
            other.wf(),
        ensures
            merged.wf(),
            merged@ == self@ + other@,
    {
        let mut readings = self.readings;
        let mut rest = other.readings;
        readings.append(&mut rest);
        Accumulator { count: readings.len(), readings }
    }

    /// The number of readings taken in.
    pub fn count(&self) -> (n: usize)
        requires
            self.wf(),
        ensures
            n == self@.len(),
    {
        self.count
    }

    /// Gives up the readings, in the order they were taken in.
    pub fn into_readings(self) -> (readings: Vec<u64>)
        ensures
            readings@ == self@,
    {
        self.readings
    }
}

/// Merging is associative: how partial results are paired does not matter.
pub proof fn lemma_merge_is_associative(a: Seq<u64>, b: Seq<u64>, c: Seq<u64>)
    ensures
        (a + b) + c == a + (b + c),
{
    assert((a + b) + c =~= a + (b + c));
}

/// The empty accumulator is neutral on both sides of a merge.
pub proof fn lemma_merge_identity(a: Seq<u64>)
    ensures
        Seq::<u64>::empty() + a == a,
        a + Seq::<u64>::empty() == a,
{
    assert(Seq::<u64>::empty() + a =~= a);
    assert(a + Seq::<u64>::empty() =~= a);
}

/// Merging is commutative in what it gathers: either order holds the same
/// readings, each as often, and so the same count.
pub proof fn lemma_merge_is_commutative(a: Seq<u64>, b: Seq<u64>)
    ensures
        (a + b).to_multiset() == (b + a).to_multiset(),
        (a + b).len() == (b + a).len(),
{
    vstd::seq_lib::lemma_multiset_commutative(a, b);
    vstd::seq_lib::lemma_multiset_commutative(b, a);
}

} // verus!
