//! The values that tensors compute with, and sums over sequences of them.

use vstd::prelude::*;

verus! {

/// A value that tensors store and compute with.
///
/// Addition forms a commutative monoid with `zero`; multiplication by `zero`
/// gives `zero`. Signed bytes embed into every element type, which is how
/// generated inputs are produced.
pub trait Element: Copy + Sized {
    spec fn zero_spec() -> Self;

    spec fn plus_spec(self, rhs: Self) -> Self;

    spec fn times_spec(self, rhs: Self) -> Self;

    spec fn from_i8_spec(value: i8) -> Self;

    fn zero() -> (r: Self)
        ensures
            r == Self::zero_spec(),
    ;

    fn plus(self, rhs: Self) -> (r: Self)
        ensures
            r == self.plus_spec(rhs),
    ;

    fn times(self, rhs: Self) -> (r: Self)
        ensures
            r == self.times_spec(rhs),
    ;

    fn from_i8(value: i8) -> (r: Self)
        ensures
            r == Self::from_i8_spec(value),
    ;

    proof fn lemma_plus_associative(a: Self, b: Self, c: Self)
        ensures
            a.plus_spec(b).plus_spec(c) == a.plus_spec(b.plus_spec(c)),
    ;

    proof fn lemma_plus_commutative(a: Self, b: Self)
        ensures
            a.plus_spec(b) == b.plus_spec(a),
    ;

    proof fn lemma_plus_zero(a: Self)
        ensures
            a.plus_spec(Self::zero_spec()) == a,
    ;

    proof fn lemma_times_zero(a: Self)
        ensures
            a.times_spec(Self::zero_spec()) == Self::zero_spec(),
    ;
}

impl Element for i64 {
    open spec fn zero_spec() -> i64 {
        0
    }

    open spec fn plus_spec(self, rhs: i64) -> i64 {
        vstd::wrapping::i64_specs::wrapping_add(self, rhs)
    }

    open spec fn times_spec(self, rhs: i64) -> i64 {
        vstd::wrapping::i64_specs::wrapping_mul(self, rhs)
    }

    open spec fn from_i8_spec(value: i8) -> i64 {
        value as i64
    }

    fn zero() -> (r: i64) {
        0
    }

    fn plus(self, rhs: i64) -> (r: i64) {
        self.wrapping_add(rhs)
    }

    fn times(self, rhs: i64) -> (r: i64) {
        self.wrapping_mul(rhs)
    }

    fn from_i8(value: i8) -> (r: i64) {
        value as i64
    }

    proof fn lemma_plus_associative(a: i64, b: i64, c: i64) {
    }

    proof fn lemma_plus_commutative(a: i64, b: i64) {
    }

    proof fn lemma_plus_zero(a: i64) {
    }

    proof fn lemma_times_zero(a: i64) {
    }
}

impl Element for i32 {
    open spec fn zero_spec() -> i32 {
        0
    }

    open spec fn plus_spec(self, rhs: i32) -> i32 {
        vstd::wrapping::i32_specs::wrapping_add(self, rhs)
    }

    open spec fn times_spec(self, rhs: i32) -> i32 {
        vstd::wrapping::i32_specs::wrapping_mul(self, rhs)
    }

    open spec fn from_i8_spec(value: i8) -> i32 {
        value as i32
    }

    fn zero() -> (r: i32) {
        0
    }

    fn plus(self, rhs: i32) -> (r: i32) {
        self.wrapping_add(rhs)
    }

    fn times(self, rhs: i32) -> (r: i32) {
        self.wrapping_mul(rhs)
    }

    fn from_i8(value: i8) -> (r: i32) {
        value as i32
    }

    proof fn lemma_plus_associative(a: i32, b: i32, c: i32) {
    }

    proof fn lemma_plus_commutative(a: i32, b: i32) {
    }

    proof fn lemma_plus_zero(a: i32) {
    }

    proof fn lemma_times_zero(a: i32) {
    }
}

/// The sum of a sequence, added from left to right starting at zero.
pub open spec fn sum<T: Element>(s: Seq<T>) -> T
    decreases s.len(),
{
    if s.len() == 0 {
        T::zero_spec()
    } else {
        sum(s.drop_last()).plus_spec(s.last())
    }
}

/// The element-wise products of two sequences, as long as the first.
pub open spec fn products<T: Element>(a: Seq<T>, b: Seq<T>) -> Seq<T> {
    Seq::new(a.len(), |k: int| a[k].times_spec(b[k]))
}

/// The dot product of two sequences.
pub open spec fn dot<T: Element>(a: Seq<T>, b: Seq<T>) -> T {
    sum(products(a, b))
}

/// The element-wise sums of two sequences, as long as the first.
pub open spec fn lanewise_plus<T: Element>(a: Seq<T>, b: Seq<T>) -> Seq<T> {
    Seq::new(a.len(), |k: int| a[k].plus_spec(b[k]))
}

pub proof fn lemma_zero_plus<T: Element>(a: T)
    ensures
        T::zero_spec().plus_spec(a) == a,
{
    T::lemma_plus_commutative(T::zero_spec(), a);
    T::lemma_plus_zero(a);
}

/// Summing a concatenation adds the sums of its parts.
pub proof fn lemma_sum_concat<T: Element>(s: Seq<T>, t: Seq<T>)
    ensures
        sum(s + t) == sum(s).plus_spec(sum(t)),
    decreases t.len(),
{
    if t.len() == 0 {
        assert(s + t =~= s);
        T::lemma_plus_zero(sum(s));
    } else {
        lemma_sum_concat(s, t.drop_last());
        assert((s + t).drop_last() =~= s + t.drop_last());
        assert((s + t).last() == t.last());
        T::lemma_plus_associative(sum(s), sum(t.drop_last()), t.last());
    }
}

/// Adding `x` to one entry adds `x` to the sum.
pub proof fn lemma_sum_update_plus<T: Element>(s: Seq<T>, i: int, x: T)
    requires
        0 <= i < s.len(),
    ensures
        sum(s.update(i, s[i].plus_spec(x))) == sum(s).plus_spec(x),
{
    let pre = s.subrange(0, i);
    let post = s.subrange(i + 1, s.len() as int);
    let updated = s.update(i, s[i].plus_spec(x));
    assert(s =~= pre + seq![s[i]] + post);
    assert(updated =~= pre + seq![s[i].plus_spec(x)] + post);
    lemma_sum_concat(pre + seq![s[i]], post);
    lemma_sum_concat(pre, seq![s[i]]);
    lemma_sum_concat(pre + seq![s[i].plus_spec(x)], post);
    lemma_sum_concat(pre, seq![s[i].plus_spec(x)]);
    lemma_sum_singleton(s[i]);
    lemma_sum_singleton(s[i].plus_spec(x));
    let a = sum(pre);
    let b = s[i];
    let c = sum(post);
    // (a + (b + x)) + c == ((a + b) + c) + x
    T::lemma_plus_associative(a, b, x);
    T::lemma_plus_associative(a.plus_spec(b), x, c);
    T::lemma_plus_commutative(x, c);
    T::lemma_plus_associative(a.plus_spec(b), c, x);
}

pub proof fn lemma_sum_singleton<T: Element>(x: T)
    ensures
        sum(seq![x]) == x,
{
    assert(seq![x].drop_last() =~= Seq::<T>::empty());
    assert(sum(Seq::<T>::empty()) == T::zero_spec());
    lemma_zero_plus(x);
}

/// The sum of lane-wise sums is the sum of both sums.
pub proof fn lemma_sum_lanewise_plus<T: Element>(a: Seq<T>, b: Seq<T>)
    requires
        a.len() == b.len(),
    ensures
        sum(lanewise_plus(a, b)) == sum(a).plus_spec(sum(b)),
    decreases a.len(),
{
    if a.len() == 0 {
        lemma_zero_plus(T::zero_spec());
    } else {
        let n = a.len() - 1;
        lemma_sum_lanewise_plus(a.drop_last(), b.drop_last());
        assert(lanewise_plus(a, b).drop_last() =~= lanewise_plus(a.drop_last(), b.drop_last()));
        let sa = sum(a.drop_last());
        let sb = sum(b.drop_last());
        let x = a.last();
        let y = b.last();
        // (sa + sb) + (x + y) == (sa + x) + (sb + y)
        T::lemma_plus_associative(sa.plus_spec(sb), x, y);
        T::lemma_plus_associative(sa, sb, x);
        T::lemma_plus_commutative(sb, x);
        T::lemma_plus_associative(sa, x, sb);
        T::lemma_plus_associative(sa.plus_spec(x), sb, y);
    }
}

/// A dot product splits at any point into the dot products of the two parts.
pub proof fn lemma_dot_split<T: Element>(a: Seq<T>, b: Seq<T>, k: int)
    requires
        a.len() == b.len(),
        0 <= k <= a.len(),
    ensures
        dot(a, b) == dot(a.subrange(0, k), b.subrange(0, k)).plus_spec(
            dot(a.subrange(k, a.len() as int), b.subrange(k, b.len() as int)),
        ),
{
    let p = products(a, b);
    assert(p =~= products(a.subrange(0, k), b.subrange(0, k)) + products(
        a.subrange(k, a.len() as int),
        b.subrange(k, b.len() as int),
    ));
    lemma_sum_concat(
        products(a.subrange(0, k), b.subrange(0, k)),
        products(a.subrange(k, a.len() as int), b.subrange(k, b.len() as int)),
    );
}

/// Extending both prefixes by `len` entries adds the dot product of those entries.
pub proof fn lemma_dot_prefix_extend<T: Element>(x: Seq<T>, y: Seq<T>, start: int, len: int)
    requires
        x.len() == y.len(),
        0 <= start,
        0 <= len,
        start + len <= x.len(),
    ensures
        dot(x.subrange(0, start + len), y.subrange(0, start + len)) == dot(
            x.subrange(0, start),
            y.subrange(0, start),
        ).plus_spec(dot(x.subrange(start, start + len), y.subrange(start, start + len))),
{
    let end = start + len;
    lemma_dot_split(x.subrange(0, end), y.subrange(0, end), start);
    assert(x.subrange(0, end).subrange(0, start) =~= x.subrange(0, start));
    assert(y.subrange(0, end).subrange(0, start) =~= y.subrange(0, start));
    assert(x.subrange(0, end).subrange(start, end) =~= x.subrange(start, end));
    assert(y.subrange(0, end).subrange(start, end) =~= y.subrange(start, end));
}

/// The sum of zeros is zero.
pub proof fn lemma_sum_zeros<T: Element>(n: nat)
    ensures
        sum(Seq::new(n, |i: int| T::zero_spec())) == T::zero_spec(),
    decreases n,
{
    if n > 0 {
        lemma_sum_zeros::<T>((n - 1) as nat);
        assert(Seq::new(n, |i: int| T::zero_spec()).drop_last() =~= Seq::new(
            (n - 1) as nat,
            |i: int| T::zero_spec(),
        ));
        T::lemma_plus_zero(T::zero_spec());
    }
}

} // verus!
