//! Round-robin scalar accumulators, which expose independent addition chains.

use vstd::prelude::*;

use crate::element::{lemma_sum_update_plus, lemma_sum_zeros, sum, Element};

verus! {

/// Marks the array lengths that are supported as accumulator lane counts.
pub trait ValidLaneCount {}

impl ValidLaneCount for [(); 1] {}

impl ValidLaneCount for [(); 2] {}

impl ValidLaneCount for [(); 4] {}

impl ValidLaneCount for [(); 8] {}

impl ValidLaneCount for [(); 16] {}

impl ValidLaneCount for [(); 32] {}

impl ValidLaneCount for [(); 64] {}

/// The lane counts that `ValidLaneCount` admits: the powers of two up to 64.
pub open spec fn is_valid_lane_count(lanes: usize) -> bool {
    lanes == 1 || lanes == 2 || lanes == 4 || lanes == 8 || lanes == 16 || lanes == 32 || lanes == 64
}

/// The lane that follows `next`, in round-robin order.
pub open spec fn following_lane(next: int, lanes: int) -> int {
    (next + 1) % lanes
}

/// `LANES` accumulators; each new value goes to the next lane in turn.
pub struct Stride<const LANES: usize, F> where [(); LANES]: ValidLaneCount {
    lanes: Vec<F>,
    next: usize,
}

/// For a power-of-two lane count, masking with `lanes - 1` wraps round to lane zero.
proof fn lemma_mask_wraps(x: usize, lanes: usize)
    requires
        is_valid_lane_count(lanes),
        x < lanes,
    ensures
        ((x + 1) as usize & (lanes - 1) as usize) == following_lane(x as int, lanes as int),
{
    let y: usize = (x + 1) as usize;
    if lanes == 1 {
        assert(y & 0 == 0) by (bit_vector);
    } else if lanes == 2 {
        assert(y <= 2 ==> y & 1 == y % 2) by (bit_vector);
    } else if lanes == 4 {
        assert(y <= 4 ==> y & 3 == y % 4) by (bit_vector);
    } else if lanes == 8 {
        assert(y <= 8 ==> y & 7 == y % 8) by (bit_vector);
    } else if lanes == 16 {
        assert(y <= 16 ==> y & 15 == y % 16) by (bit_vector);
    } else if lanes == 32 {
        assert(y <= 32 ==> y & 31 == y % 32) by (bit_vector);
    } else {
        assert(y <= 64 ==> y & 63 == y % 64) by (bit_vector);
    }
}

impl<const LANES: usize, F: Element> Stride<LANES, F> where [(); LANES]: ValidLaneCount {
    /// The accumulated value of each lane.
    pub closed spec fn lanes_spec(&self) -> Seq<F> {
        self.lanes@
    }

    /// The lane that the next value goes to.
    pub closed spec fn next_spec(&self) -> int {
        self.next as int
    }

    /// One accumulator per lane, and the next lane is one of them.
    pub open spec fn wf(&self) -> bool {
        &&& is_valid_lane_count(LANES)
        &&& self.lanes_spec().len() == LANES
        &&& 0 <= self.next_spec() < LANES
    }

    /// All lanes at zero, starting at lane zero.
    pub fn zeros() -> (s: Self)
        requires
            is_valid_lane_count(LANES),
        ensures
            s.wf(),
            s.next_spec() == 0,
            s.lanes_spec() == Seq::new(LANES as nat, |i: int| F::zero_spec()),
    {
        let mut lanes: Vec<F> = Vec::new();
        let mut i: usize = 0;
        while i < LANES
            invariant
                i <= LANES,
                lanes@ == Seq::new(i as nat, |k: int| F::zero_spec()),
            decreases LANES - i,
        {
            lanes.push(F::zero());
            i = i + 1;
            assert(lanes@ =~= Seq::new(i as nat, |k: int| F::zero_spec()));
        }
        Stride { lanes, next: 0 }
    }

    /// Adds `value` to the next lane and moves on to the lane after it.
    pub fn add_next_lane(&mut self, value: F)
        requires
            old(self).wf(),
        ensures
            final(self).wf(),
            final(self).lanes_spec() == old(self).lanes_spec().update(
                old(self).next_spec(),
                old(self).lanes_spec()[old(self).next_spec()].plus_spec(value),
            ),
            final(self).next_spec() == following_lane(old(self).next_spec(), LANES as int),
            sum(final(self).lanes_spec()) == sum(old(self).lanes_spec()).plus_spec(value),
    {
        let next = self.next;
        let current = self.lanes[next];
        self.lanes.set(next, current.plus(value));
        proof {
            lemma_mask_wraps(next, LANES);
            lemma_sum_update_plus(old(self).lanes_spec(), next as int, value);
        }
        self.next = (next + 1) & (LANES - 1);
    }

    /// The total over all lanes, added up from lane zero.
    pub fn sum(&self) -> (r: F)
        requires
            self.wf(),
        ensures
            r == sum(self.lanes_spec()),
    {
        let mut accumulator = F::zero();
        let mut i: usize = 0;
        while i < self.lanes.len()
            invariant
                i <= self.lanes@.len(),
                accumulator == sum(self.lanes@.subrange(0, i as int)),
            decreases self.lanes@.len() - i,
        {
            assert(self.lanes@.subrange(0, i + 1).drop_last() =~= self.lanes@.subrange(0, i as int));
            accumulator = accumulator.plus(self.lanes[i]);
            i = i + 1;
        }
        assert(self.lanes@.subrange(0, i as int) =~= self.lanes@);
        accumulator
    }

    /// The accumulated value of each lane.
    pub fn lanes(&self) -> (r: &[F])
        ensures
            r@ == self.lanes_spec(),
    {
        self.lanes.as_slice()
    }

    /// The lane that the next value goes to.
    pub fn next_lane(&self) -> (r: usize)
        ensures
            r == self.next_spec(),
    {
        self.next
    }
}

/// The lanes after adding `values` in turn to `lanes` zeroed accumulators, starting at lane
/// zero: value `i` goes to lane `i % lanes`.
pub open spec fn round_robin<F: Element>(values: Seq<F>, lanes: nat) -> Seq<F>
    decreases values.len(),
{
    if values.len() == 0 {
        Seq::new(lanes, |i: int| F::zero_spec())
    } else {
        let before = round_robin(values.drop_last(), lanes);
        let lane = (values.len() - 1) % (lanes as int);
        before.update(lane, before[lane].plus_spec(values.last()))
    }
}

proof fn lemma_round_robin_len<F: Element>(values: Seq<F>, lanes: nat)
    requires
        lanes > 0,
    ensures
        round_robin(values, lanes).len() == lanes,
    decreases values.len(),
{
    if values.len() > 0 {
        lemma_round_robin_len(values.drop_last(), lanes);
    }
}

/// Round-robin accumulation: when the lanes hold the round-robin sums of `values` and the next
/// lane is the one after them, one more `add_next_lane(value)` leaves the round-robin sums of
/// `values` followed by `value`, with the next lane again the one after them.
pub proof fn lemma_round_robin_step<F: Element>(values: Seq<F>, value: F, lanes: nat, before: Seq<F>, next: int, after: Seq<F>, after_next: int)
    requires
        lanes > 0,
        before == round_robin(values, lanes),
        next == (values.len() as int) % (lanes as int),
        after == before.update(next, before[next].plus_spec(value)),
        after_next == following_lane(next, lanes as int),
    ensures
        after == round_robin(values.push(value), lanes),
        after_next == (values.push(value).len() as int) % (lanes as int),
{
    assert(values.push(value).drop_last() =~= values);
    vstd::arithmetic::div_mod::lemma_add_mod_noop(values.len() as int, 1, lanes as int);
    vstd::arithmetic::div_mod::lemma_mod_twice(values.len() as int, lanes as int);
    if lanes > 1 {
        vstd::arithmetic::div_mod::lemma_small_mod(1, lanes);
    }
    lemma_round_robin_len(values, lanes);
}

/// The accumulators together hold the total of everything added to them.
pub proof fn lemma_round_robin_total<F: Element>(values: Seq<F>, lanes: nat)
    requires
        lanes > 0,
    ensures
        sum(round_robin(values, lanes)) == sum(values),
    decreases values.len(),
{
    if values.len() == 0 {
        lemma_sum_zeros::<F>(lanes);
    } else {
        let rest = values.drop_last();
        lemma_round_robin_total(rest, lanes);
        lemma_round_robin_len(rest, lanes);
        let lane = (values.len() - 1) % (lanes as int);
        lemma_sum_update_plus(round_robin(rest, lanes), lane, values.last());
    }
}

} // verus!
