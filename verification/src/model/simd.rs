//! Lane-parallel accumulation: vectors of `LANES` elements combined lane by lane,
//! and a dot product that spreads its work over several such accumulators.

use vstd::prelude::*;

use crate::element::{
    dot, lanewise_plus, lemma_dot_split, lemma_sum_concat, lemma_sum_lanewise_plus,
    lemma_sum_singleton, lemma_sum_update_plus, lemma_sum_zeros, lemma_zero_plus, products, sum,
    Element,
};

verus! {

/// The number of lanes of each accumulator used by the host backend.
pub const LANES: usize = 8;

/// The number of independent accumulators used by the host backend.
pub const ACCUMULATORS: usize = 8;

/// A vector of `LANES` elements that is combined lane by lane.
pub struct LaneVector<T, const LANES: usize> {
    values: Vec<T>,
}

impl<T, const LANES: usize> View for LaneVector<T, LANES> {
    type V = Seq<T>;

    closed spec fn view(&self) -> Seq<T> {
        self.values@
    }
}

/// Operations on a vector of `LANES` lanes.
pub trait SimdVector<T: Element, const LANES: usize>: Sized + View<V = Seq<T>> {
    /// A vector with `initial` in every lane.
    fn splat(initial: T) -> (r: Self)
        ensures
            r@ == Seq::new(LANES as nat, |i: int| initial),
    ;

    /// A vector holding `lanes`.
    fn from_array(lanes: &[T]) -> (r: Self)
        requires
            lanes@.len() == LANES,
        ensures
            r@ == lanes@,
    ;

    /// Lane by lane, `self * multiplier + accumulator`.
    fn mul_add(&self, multiplier: &Self, accumulator: &Self) -> (r: Self)
        requires
            self@.len() == LANES,
            multiplier@.len() == LANES,
            accumulator@.len() == LANES,
        ensures
            r@ == lanewise_plus(products(self@, multiplier@), accumulator@),
    ;

    /// Lane by lane, `self + rhs`.
    fn add(&self, rhs: &Self) -> (r: Self)
        requires
            self@.len() == LANES,
            rhs@.len() == LANES,
        ensures
            r@ == lanewise_plus(self@, rhs@),
    ;

    /// The sum of all lanes.
    fn sum(&self) -> (r: T)
        ensures
            r == sum(self@),
    ;

    /// Replaces `accumulator` with `self * multiplier + accumulator`.
    fn fma_accumulate(&self, multiplier: &Self, accumulator: &mut Self)
        requires
            self@.len() == LANES,
            multiplier@.len() == LANES,
            old(accumulator)@.len() == LANES,
        ensures
            final(accumulator)@ == lanewise_plus(products(self@, multiplier@), old(accumulator)@),
    {
        *accumulator = self.mul_add(multiplier, accumulator);
    }
}

impl<T: Element, const LANES: usize> LaneVector<T, LANES> {
    /// The `LANES` elements of `source` starting at `start`.
    pub fn load(source: &[T], start: usize) -> (r: Self)
        requires
            start + LANES <= source@.len(),
        ensures
            r@ == source@.subrange(start as int, start + LANES),
    {
        let len = source.len();
        let mut values: Vec<T> = Vec::new();
        let mut i: usize = 0;
        while i < LANES
            invariant
                i <= LANES,
                len == source@.len(),
                start + LANES <= source@.len(),
                values@ == source@.subrange(start as int, start + i),
            decreases LANES - i,
        {
            values.push(source[start + i]);
            i = i + 1;
            assert(values@ =~= source@.subrange(start as int, start + i));
        }
        LaneVector { values }
    }

    /// The `count` elements of `source` starting at `start`, followed by zeros up to `LANES` lanes.
    pub fn load_padded(source: &[T], start: usize, count: usize) -> (r: Self)
        requires
            count <= LANES,
            start + count <= source@.len(),
        ensures
            r@ == source@.subrange(start as int, start + count) + Seq::new(
                (LANES - count) as nat,
                |i: int| T::zero_spec(),
            ),
    {
        let len = source.len();
        let mut values: Vec<T> = Vec::new();
        let mut i: usize = 0;
        while i < LANES
            invariant
                i <= LANES,
                len == source@.len(),
                count <= LANES,
                start + count <= source@.len(),
                i <= count ==> values@ == source@.subrange(start as int, start + i),
                i > count ==> values@ == source@.subrange(start as int, start + count) + Seq::new(
                    (i - count) as nat,
                    |k: int| T::zero_spec(),
                ),
            decreases LANES - i,
        {
            if i < count {
                values.push(source[start + i]);
                assert(values@ =~= source@.subrange(start as int, start + i + 1));
            } else {
                values.push(T::zero());
                assert(values@ =~= source@.subrange(start as int, start + count) + Seq::new(
                    (i + 1 - count) as nat,
                    |k: int| T::zero_spec(),
                ));
            }
            i = i + 1;
        }
        if count == LANES {
            assert(values@ =~= source@.subrange(start as int, start + count) + Seq::new(
                (LANES - count) as nat,
                |i: int| T::zero_spec(),
            ));
        }
        LaneVector { values }
    }
}

impl<T: Element, const LANES: usize> SimdVector<T, LANES> for LaneVector<T, LANES> {
    fn splat(initial: T) -> (r: Self) {
        let mut values: Vec<T> = Vec::new();
        let mut i: usize = 0;
        while i < LANES
            invariant
                i <= LANES,
                values@ == Seq::new(i as nat, |k: int| initial),
            decreases LANES - i,
        {
            values.push(initial);
            i = i + 1;
            assert(values@ =~= Seq::new(i as nat, |k: int| initial));
        }
        LaneVector { values }
    }

    fn from_array(lanes: &[T]) -> (r: Self) {
        let r = Self::load(lanes, 0);
        assert(lanes@.subrange(0, LANES as int) =~= lanes@);
        r
    }

    fn mul_add(&self, multiplier: &Self, accumulator: &Self) -> (r: Self) {
        let mut values: Vec<T> = Vec::new();
        let mut i: usize = 0;
        while i < LANES
            invariant
                i <= LANES,
                self@.len() == LANES,
                multiplier@.len() == LANES,
                accumulator@.len() == LANES,
                values@ == lanewise_plus(products(self@, multiplier@), accumulator@).subrange(
                    0,
                    i as int,
                ),
            decreases LANES - i,
        {
            let product = self.values[i].times(multiplier.values[i]);
            values.push(product.plus(accumulator.values[i]));
            i = i + 1;
            assert(values@ =~= lanewise_plus(products(self@, multiplier@), accumulator@).subrange(
                0,
                i as int,
            ));
        }
        assert(values@ =~= lanewise_plus(products(self@, multiplier@), accumulator@));
        LaneVector { values }
    }

    fn add(&self, rhs: &Self) -> (r: Self) {
        let mut values: Vec<T> = Vec::new();
        let mut i: usize = 0;
        while i < LANES
            invariant
                i <= LANES,
                self@.len() == LANES,
                rhs@.len() == LANES,
                values@ == lanewise_plus(self@, rhs@).subrange(0, i as int),
            decreases LANES - i,
        {
            values.push(self.values[i].plus(rhs.values[i]));
            i = i + 1;
            assert(values@ =~= lanewise_plus(self@, rhs@).subrange(0, i as int));
        }
        assert(values@ =~= lanewise_plus(self@, rhs@));
        LaneVector { values }
    }

    fn sum(&self) -> (r: T) {
        let mut total = T::zero();
        let mut i: usize = 0;
        while i < self.values.len()
            invariant
                i <= self@.len(),
                total == sum(self@.subrange(0, i as int)),
            decreases self@.len() - i,
        {
            assert(self@.subrange(0, i + 1).drop_last() =~= self@.subrange(0, i as int));
            total = total.plus(self.values[i]);
            i = i + 1;
        }
        assert(self@.subrange(0, self@.len() as int) =~= self@);
        total
    }
}


impl<T: Element, const LANES: usize> LaneVector<T, LANES> {
    /// A copy of this vector.
    pub fn duplicate(&self) -> (r: Self)
        ensures
            r@ == self@,
    {
        let mut values: Vec<T> = Vec::new();
        let mut i: usize = 0;
        while i < self.values.len()
            invariant
                i <= self@.len(),
                values@ == self@.subrange(0, i as int),
            decreases self@.len() - i,
        {
            values.push(self.values[i]);
            i = i + 1;
            assert(values@ =~= self@.subrange(0, i as int));
        }
        assert(values@ =~= self@);
        LaneVector { values }
    }
}

/// The lane sums of the accumulators `lo..hi`.
pub open spec fn lane_totals<T: Element, const L: usize>(
    accumulators: Seq<LaneVector<T, L>>,
    lo: int,
    hi: int,
) -> Seq<T> {
    Seq::new((hi - lo) as nat, |q: int| sum(accumulators[lo + q]@))
}

/// Everything held by the accumulators `lo..hi`, summed.
pub open spec fn accumulated<T: Element, const L: usize>(
    accumulators: Seq<LaneVector<T, L>>,
    lo: int,
    hi: int,
) -> T {
    sum(lane_totals(accumulators, lo, hi))
}

pub proof fn lemma_accumulated_split<T: Element, const L: usize>(
    accumulators: Seq<LaneVector<T, L>>,
    lo: int,
    mid: int,
    hi: int,
)
    requires
        lo <= mid <= hi,
    ensures
        accumulated(accumulators, lo, hi) == accumulated(accumulators, lo, mid).plus_spec(
            accumulated(accumulators, mid, hi),
        ),
{
    assert(lane_totals(accumulators, lo, hi) =~= lane_totals(accumulators, lo, mid) + lane_totals(
        accumulators,
        mid,
        hi,
    ));
    lemma_sum_concat(lane_totals(accumulators, lo, mid), lane_totals(accumulators, mid, hi));
}

pub proof fn lemma_accumulated_single<T: Element, const L: usize>(
    accumulators: Seq<LaneVector<T, L>>,
    i: int,
)
    ensures
        accumulated(accumulators, i, i + 1) == sum(accumulators[i]@),
{
    assert(lane_totals(accumulators, i, i + 1) =~= seq![sum(accumulators[i]@)]);
    lemma_sum_singleton(sum(accumulators[i]@));
}

pub proof fn lemma_accumulated_same<T: Element, const L: usize>(
    a: Seq<LaneVector<T, L>>,
    b: Seq<LaneVector<T, L>>,
    lo: int,
    hi: int,
)
    requires
        lo <= hi,
        forall|q: int| lo <= q < hi ==> #[trigger] a[q]@ == b[q]@,
    ensures
        accumulated(a, lo, hi) == accumulated(b, lo, hi),
{
    assert(lane_totals(a, lo, hi) =~= lane_totals(b, lo, hi));
}

/// Adding `x` into one accumulator adds `x` to the total.
pub proof fn lemma_accumulated_update<T: Element, const L: usize>(
    accumulators: Seq<LaneVector<T, L>>,
    index: int,
    v: LaneVector<T, L>,
    x: T,
)
    requires
        0 <= index < accumulators.len(),
        sum(v@) == sum(accumulators[index]@).plus_spec(x),
    ensures
        accumulated(accumulators.update(index, v), 0, accumulators.len() as int) == accumulated(
            accumulators,
            0,
            accumulators.len() as int,
        ).plus_spec(x),
{
    let totals = lane_totals(accumulators, 0, accumulators.len() as int);
    assert(lane_totals(accumulators.update(index, v), 0, accumulators.len() as int) =~= totals.update(
        index,
        totals[index].plus_spec(x),
    ));
    lemma_sum_update_plus(totals, index, x);
}

/// Padding both operands with zeros leaves a dot product unchanged.
pub proof fn lemma_dot_padded<T: Element>(a: Seq<T>, b: Seq<T>, pad: nat)
    requires
        a.len() == b.len(),
    ensures
        dot(a + Seq::new(pad, |i: int| T::zero_spec()), b + Seq::new(pad, |i: int| T::zero_spec()))
            == dot(a, b),
{
    let zeros = Seq::new(pad, |i: int| T::zero_spec());
    T::lemma_times_zero(T::zero_spec());
    assert(products(a + zeros, b + zeros) =~= products(a, b) + zeros);
    lemma_sum_concat(products(a, b), zeros);
    lemma_sum_zeros::<T>(pad);
    T::lemma_plus_zero(dot(a, b));
}

/// Adding the lane products of the next chunk to lanes that hold the dot product of a
/// prefix gives lanes that hold the dot product of the longer prefix.
pub proof fn lemma_prefix_step<T: Element>(
    x: Seq<T>,
    y: Seq<T>,
    start: int,
    len: int,
    old_lanes: Seq<T>,
    new_lanes: Seq<T>,
)
    requires
        x.len() == y.len(),
        0 <= start,
        0 <= len,
        start + len <= x.len(),
        old_lanes.len() == len,
        new_lanes == lanewise_plus(
            products(x.subrange(start, start + len), y.subrange(start, start + len)),
            old_lanes,
        ),
        sum(old_lanes) == dot(x.subrange(0, start), y.subrange(0, start)),
    ensures
        sum(new_lanes) == dot(x.subrange(0, start + len), y.subrange(0, start + len)),
{
    let xc = x.subrange(start, start + len);
    let yc = y.subrange(start, start + len);
    lemma_sum_lanewise_plus(products(xc, yc), old_lanes);
    T::lemma_plus_commutative(dot(xc, yc), sum(old_lanes));
    let end = start + len;
    lemma_dot_split(x.subrange(0, end), y.subrange(0, end), start);
    assert(x.subrange(0, end).subrange(0, start) =~= x.subrange(0, start));
    assert(y.subrange(0, end).subrange(0, start) =~= y.subrange(0, start));
    assert(x.subrange(0, end).subrange(start, end) =~= xc);
    assert(y.subrange(0, end).subrange(start, end) =~= yc);
}

/// Dot products spread over `ACCUMULATORS` accumulators of `LANES` lanes each.
pub trait SimdDotProduct<const LANES: usize, const ACCUMULATORS: usize>: Element {
    /// The dot product of `a` and `b`: chunks of `LANES` elements are multiplied lane by lane
    /// into the accumulators in turn, the last partial chunk padded with zeros, and the
    /// accumulators are then added pairwise and their lanes summed.
    fn simd_dot_product(a: &[Self], b: &[Self]) -> (r: Self)
        requires
            a@.len() == b@.len(),
            LANES > 0,
            ACCUMULATORS > 0,
        ensures
            r == dot(a@, b@),
    ;
}

impl<T: Element, const LANES: usize, const ACCUMULATORS: usize> SimdDotProduct<
    LANES,
    ACCUMULATORS,
> for T {
    fn simd_dot_product(a: &[T], b: &[T]) -> (r: T) {
        lane_dot_product::<T, LANES, ACCUMULATORS>(a, b)
    }
}

fn lane_dot_product<T: Element, const LANES: usize, const ACCUMULATORS: usize>(
    a: &[T],
    b: &[T],
) -> (r: T)
    requires
        a@.len() == b@.len(),
        LANES > 0,
        ACCUMULATORS > 0,
    ensures
        r == dot(a@, b@),
{
    let n = a.len();
    let mut accumulators: Vec<LaneVector<T, LANES>> = Vec::new();
    let mut q: usize = 0;
    while q < ACCUMULATORS
        invariant
            q <= ACCUMULATORS,
            accumulators@.len() == q,
            forall|p: int|
                0 <= p < q ==> #[trigger] accumulators@[p]@ == Seq::new(
                    LANES as nat,
                    |i: int| T::zero_spec(),
                ),
        decreases ACCUMULATORS - q,
    {
        accumulators.push(LaneVector::splat(T::zero()));
        q = q + 1;
    }
    proof {
        assert(lane_totals(accumulators@, 0, ACCUMULATORS as int) =~= Seq::new(
            ACCUMULATORS as nat,
            |i: int| T::zero_spec(),
        )) by {
            lemma_sum_zeros::<T>(LANES as nat);
        }
        lemma_sum_zeros::<T>(ACCUMULATORS as nat);
        assert(a@.subrange(0, 0) =~= Seq::<T>::empty());
        assert(b@.subrange(0, 0) =~= Seq::<T>::empty());
        assert(products(a@.subrange(0, 0), b@.subrange(0, 0)) =~= Seq::<T>::empty());
    }
    let chunks = n / LANES;
    proof {
        assert(chunks * LANES <= n) by (nonlinear_arith)
            requires
                chunks == n / LANES,
                LANES > 0,
        ;
    }
    let mut chunk: usize = 0;
    while chunk < chunks
        invariant
            chunk <= chunks,
            chunks * LANES <= n,
            n == a@.len(),
            n == b@.len(),
            LANES > 0,
            ACCUMULATORS > 0,
            accumulators@.len() == ACCUMULATORS,
            forall|p: int| 0 <= p < ACCUMULATORS ==> (#[trigger] accumulators@[p])@.len() == LANES,
            accumulated(accumulators@, 0, ACCUMULATORS as int) == dot(
                a@.subrange(0, chunk * LANES),
                b@.subrange(0, chunk * LANES),
            ),
        decreases chunks - chunk,
    {
        proof {
            assert((chunk + 1) * LANES <= chunks * LANES) by (nonlinear_arith)
                requires
                    chunk < chunks,
                    LANES > 0,
            ;
            assert((chunk + 1) * LANES == chunk * LANES + LANES) by (nonlinear_arith);
        }
        let index = chunk % ACCUMULATORS;
        let start = chunk * LANES;
        let a_chunk = LaneVector::<T, LANES>::load(a, start);
        let b_chunk = LaneVector::<T, LANES>::load(b, start);
        let updated = a_chunk.mul_add(&b_chunk, &accumulators[index]);
        proof {
            let old_lanes = accumulators@[index as int]@;
            lemma_sum_lanewise_plus(products(a_chunk@, b_chunk@), old_lanes);
            T::lemma_plus_commutative(dot(a_chunk@, b_chunk@), sum(old_lanes));
            lemma_accumulated_update(
                accumulators@,
                index as int,
                updated,
                dot(a_chunk@, b_chunk@),
            );
            let end = start + LANES;
            lemma_dot_split(a@.subrange(0, end), b@.subrange(0, end), start as int);
            assert(a@.subrange(0, end).subrange(0, start as int) =~= a@.subrange(0, start as int));
            assert(b@.subrange(0, end).subrange(0, start as int) =~= b@.subrange(0, start as int));
            assert(a@.subrange(0, end).subrange(start as int, end) =~= a_chunk@);
            assert(b@.subrange(0, end).subrange(start as int, end) =~= b_chunk@);
        }
        accumulators.set(index, updated);
        chunk = chunk + 1;
    }
    let done = chunks * LANES;
    let remainder = n - done;
    if remainder > 0 {
        proof {
            assert(remainder < LANES) by (nonlinear_arith)
                requires
                    chunks == n / LANES,
                    LANES > 0,
                    remainder == n - chunks * LANES,
            ;
        }
        let index = chunks % ACCUMULATORS;
        let a_tail = LaneVector::<T, LANES>::load_padded(a, done, remainder);
        let b_tail = LaneVector::<T, LANES>::load_padded(b, done, remainder);
        let updated = a_tail.mul_add(&b_tail, &accumulators[index]);
        proof {
            let old_lanes = accumulators@[index as int]@;
            lemma_sum_lanewise_plus(products(a_tail@, b_tail@), old_lanes);
            lemma_dot_padded(
                a@.subrange(done as int, n as int),
                b@.subrange(done as int, n as int),
                (LANES - remainder) as nat,
            );
            T::lemma_plus_commutative(dot(a_tail@, b_tail@), sum(old_lanes));
            lemma_accumulated_update(accumulators@, index as int, updated, dot(a_tail@, b_tail@));
            lemma_dot_split(a@, b@, done as int);
        }
        accumulators.set(index, updated);
    } else {
        assert(a@.subrange(0, done as int) =~= a@);
        assert(b@.subrange(0, done as int) =~= b@);
    }
    let mut width = ACCUMULATORS;
    while width > 1
        invariant
            1 <= width <= ACCUMULATORS,
            accumulators@.len() == ACCUMULATORS,
            forall|p: int| 0 <= p < ACCUMULATORS ==> (#[trigger] accumulators@[p])@.len() == LANES,
            accumulated(accumulators@, 0, width as int) == dot(a@, b@),
        decreases width,
    {
        let pairs = width / 2;
        let ghost start_accumulators = accumulators@;
        let ghost total = dot(a@, b@);
        let mut pair: usize = 0;
        proof {
            lemma_accumulated_split(start_accumulators, 0, 0, width as int);
            assert(lane_totals(start_accumulators, 0, 0) =~= Seq::<T>::empty());
            lemma_zero_plus(accumulated(start_accumulators, 0, width as int));
            assert(lane_totals(accumulators@, 0, 0) =~= Seq::<T>::empty());
        }
        while pair < pairs
            invariant
                pairs == width / 2,
                2 <= width <= ACCUMULATORS,
                pair <= pairs,
                accumulators@.len() == ACCUMULATORS,
                start_accumulators.len() == ACCUMULATORS,
                forall|p: int| 0 <= p < ACCUMULATORS ==> (#[trigger] accumulators@[p])@.len() == LANES,
                forall|p: int|
                    2 * pair <= p < ACCUMULATORS ==> #[trigger] accumulators@[p] == start_accumulators[p],
                accumulated(accumulators@, 0, pair as int).plus_spec(
                    accumulated(start_accumulators, 2 * pair, width as int),
                ) == total,
            decreases pairs - pair,
        {
            let combined = accumulators[2 * pair].add(&accumulators[2 * pair + 1]);
            proof {
                let before = accumulators@;
                let after = before.update(pair as int, combined);
                let s1 = sum(start_accumulators[2 * pair]@);
                let s2 = sum(start_accumulators[2 * pair + 1]@);
                let done_total = accumulated(before, 0, pair as int);
                let rest = accumulated(start_accumulators, 2 * pair + 2, width as int);
                lemma_sum_lanewise_plus(
                    start_accumulators[2 * pair]@,
                    start_accumulators[2 * pair + 1]@,
                );
                lemma_accumulated_split(after, 0, pair as int, pair + 1);
                lemma_accumulated_single(after, pair as int);
                lemma_accumulated_same(after, before, 0, pair as int);
                lemma_accumulated_split(start_accumulators, 2 * pair, 2 * pair + 1, width as int);
                lemma_accumulated_split(
                    start_accumulators,
                    2 * pair + 1,
                    2 * pair + 2,
                    width as int,
                );
                lemma_accumulated_single(start_accumulators, 2 * pair);
                lemma_accumulated_single(start_accumulators, 2 * pair + 1);
                // (done + (s1 + s2)) + rest == done + (s1 + (s2 + rest))
                T::lemma_plus_associative(s1, s2, rest);
                T::lemma_plus_associative(done_total, s1.plus_spec(s2), rest);
            }
            accumulators.set(pair, combined);
            pair = pair + 1;
        }
        if width % 2 == 1 {
            let last = accumulators[width - 1].duplicate();
            proof {
                let before = accumulators@;
                let after = before.update(pairs as int, last);
                lemma_accumulated_split(after, 0, pairs as int, pairs + 1);
                lemma_accumulated_single(after, pairs as int);
                lemma_accumulated_same(after, before, 0, pairs as int);
                lemma_accumulated_single(start_accumulators, (width - 1) as int);
            }
            accumulators.set(pairs, last);
            width = pairs + 1;
        } else {
            proof {
                assert(lane_totals(start_accumulators, 2 * pairs, width as int) =~= Seq::<T>::empty());
                T::lemma_plus_zero(accumulated(accumulators@, 0, pairs as int));
            }
            width = pairs;
        }
    }
    proof {
        lemma_accumulated_single(accumulators@, 0);
    }
    accumulators[0].sum()
}

} // verus!
