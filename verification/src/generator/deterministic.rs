//! The SplitMix64 stream behind generated matrices, and the exact checksum of their product.

use vstd::prelude::*;

use crate::element::Element;
use crate::generator::{canonical_checksum_spec, GeneratorError, CANONICAL_SEED};
use crate::tensor::host::HostTensor;
use crate::generator::sums::{
    lemma_sum_range_bound, lemma_sum_range_ext, lemma_sum_range_product, lemma_sum_range_swap, magnitude,
    sum_range,
};
use crate::tensor::layout::lemma_div_mod_of_index;
use crate::tensor::shape::{lemma_product_two, prefix_products_fit, Shape};

verus! {

/// Mixed into a seed to derive the stream of the left operand.
pub const A_DOMAIN: u64 = 0x41A4_1A41_5EED_0001;

/// Mixed into a seed to derive the stream of the right operand.
pub const B_DOMAIN: u64 = 0xB4B4_1B42_5EED_0002;

/// The SplitMix64 state increment.
pub const SPLITMIX_INCREMENT: u64 = 0x9E37_79B9_7F4A_7C15;

/// The first SplitMix64 output multiplier.
pub const MIX_FIRST: u64 = 0xBF58_476D_1CE4_E5B9;

/// The second SplitMix64 output multiplier.
pub const MIX_SECOND: u64 = 0x94D0_49BB_1331_11EB;

/// The most signed bytes whose sum always fits an `i64`: 128 times it is at most `i64::MAX`.
pub const MAX_SUM_TERMS: u64 = 72057594037927935;

/// The seed of the left operand's stream.
pub open spec fn a_seed_spec(seed: u64) -> u64 {
    seed ^ A_DOMAIN
}

/// The seed of the right operand's stream.
pub open spec fn b_seed_spec(seed: u64) -> u64 {
    seed ^ B_DOMAIN
}

/// The seed of the left operand's stream.
pub fn a_seed(seed: u64) -> (r: u64)
    ensures
        r == a_seed_spec(seed),
{
    seed ^ A_DOMAIN
}

/// The seed of the right operand's stream.
pub fn b_seed(seed: u64) -> (r: u64)
    ensures
        r == b_seed_spec(seed),
{
    seed ^ B_DOMAIN
}

/// The SplitMix64 state after `steps` draws from `seed`.
pub open spec fn splitmix_state(seed: u64, steps: nat) -> u64
    decreases steps,
{
    if steps == 0 {
        seed
    } else {
        vstd::wrapping::u64_specs::wrapping_add(splitmix_state(seed, (steps - 1) as nat), SPLITMIX_INCREMENT)
    }
}

/// The SplitMix64 output function applied to a state.
pub open spec fn splitmix_mix(z: u64) -> u64 {
    let z1 = vstd::wrapping::u64_specs::wrapping_mul(z ^ (z >> 30u64), MIX_FIRST);
    let z2 = vstd::wrapping::u64_specs::wrapping_mul(z1 ^ (z1 >> 27u64), MIX_SECOND);
    z2 ^ (z2 >> 31u64)
}

/// The top eight bits of a draw, read as a signed byte.
pub open spec fn top_byte(x: u64) -> i8 {
    ((x >> 56u64) as u8) as i8
}

/// The signed byte drawn at position `index` of the stream of `seed`.
pub open spec fn generated_byte(seed: u64, index: nat) -> i8 {
    top_byte(splitmix_mix(splitmix_state(seed, index + 1)))
}

/// The first `count` signed bytes of the stream of `seed`.
pub open spec fn generated_bytes(seed: u64, count: nat) -> Seq<i8> {
    Seq::new(count, |i: int| generated_byte(seed, i as nat))
}

/// The first `count` values of the stream of `seed`, as elements.
pub open spec fn generated_values<F: Element>(seed: u64, count: nat) -> Seq<F> {
    Seq::new(count, |i: int| F::from_i8_spec(generated_byte(seed, i as nat)))
}

/// The SplitMix64 pseudo-random generator.
struct SplitMix64 {
    state: u64,
}

impl SplitMix64 {
    fn new(seed: u64) -> (r: Self)
        ensures
            r.state == seed,
    {
        SplitMix64 { state: seed }
    }

    fn next(&mut self) -> (r: u64)
        ensures
            final(self).state == vstd::wrapping::u64_specs::wrapping_add(old(self).state, SPLITMIX_INCREMENT),
            r == splitmix_mix(final(self).state),
    {
        self.state = self.state.wrapping_add(SPLITMIX_INCREMENT);
        let mut value = self.state;
        value = (value ^ (value >> 30)).wrapping_mul(MIX_FIRST);
        value = (value ^ (value >> 27)).wrapping_mul(MIX_SECOND);
        value ^ (value >> 31)
    }

    fn next_i8(&mut self) -> (r: i8)
        ensures
            final(self).state == vstd::wrapping::u64_specs::wrapping_add(old(self).state, SPLITMIX_INCREMENT),
            r == top_byte(splitmix_mix(final(self).state)),
    {
        (self.next() >> 56) as u8 as i8
    }
}

/// A `rows x columns` matrix filled, row by row, with the stream of `seed`.
pub fn matrix<F: Element>(rows: usize, columns: usize, seed: u64) -> (r: Result<HostTensor<F, 2>, GeneratorError>)
    ensures
        r is Ok <==> rows * columns <= usize::MAX,
        r matches Err(e) ==> e == (GeneratorError::DimensionOverflow { rows, columns }),
        r matches Ok(t) ==> {
            &&& t.wf()
            &&& t.shape_spec()@ == seq![rows, columns]
            &&& t@ == generated_values::<F>(seed, (rows * columns) as nat)
        },
{
    let element_count = match rows.checked_mul(columns) {
        Some(count) => count,
        None => return Err(GeneratorError::DimensionOverflow { rows, columns }),
    };
    let mut random = SplitMix64::new(seed);
    let mut values: Vec<F> = Vec::new();
    let mut i: usize = 0;
    while i < element_count
        invariant
            i <= element_count,
            random.state == splitmix_state(seed, i as nat),
            values@ == generated_values::<F>(seed, i as nat),
        decreases element_count - i,
    {
        let signed = random.next_i8();
        values.push(F::from_i8(signed));
        i = i + 1;
        assert(values@ =~= generated_values::<F>(seed, i as nat));
    }
    let shape = Shape::new([rows, columns]);
    proof {
        lemma_product_two(shape@);
        assert(prefix_products_fit(shape@));
    }
    match HostTensor::from_vec(values, shape) {
        Ok(t) => Ok(t),
        Err(e) => Err(GeneratorError::ElementCountMismatch(e)),
    }
}

/// The sum of the first `count` bytes whose position leaves remainder `column` modulo
/// `columns`: a column sum of a row-major matrix with `columns` columns.
pub open spec fn column_sum(values: Seq<i8>, count: nat, columns: nat, column: int) -> int
    decreases count,
{
    if count == 0 {
        0
    } else {
        column_sum(values, (count - 1) as nat, columns, column) + if (count - 1) % (columns as int) == column {
            values[count - 1] as int
        } else {
            0
        }
    }
}

/// The sum of the first `count` bytes whose position divided by `columns` is `row`: a row
/// sum of a row-major matrix with `columns` columns.
pub open spec fn row_sum(values: Seq<i8>, count: nat, columns: nat, row: int) -> int
    decreases count,
{
    if count == 0 {
        0
    } else {
        row_sum(values, (count - 1) as nat, columns, row) + if (count - 1) / (columns as int) == row {
            values[count - 1] as int
        } else {
            0
        }
    }
}

/// The sum over the first `len` shared indices `c` of (column `c` of `A`) times (row `c` of
/// `B`), for the generated `m x k` matrix `A` and `k x n` matrix `B`.
pub open spec fn checksum_partial(m: nat, n: nat, k: nat, seed: u64, len: nat) -> int
    decreases len,
{
    if len == 0 {
        0
    } else {
        let a = generated_bytes(a_seed_spec(seed), m * k);
        let b = generated_bytes(b_seed_spec(seed), k * n);
        checksum_partial(m, n, k, seed, (len - 1) as nat) + column_sum(a, m * k, k, len - 1) * row_sum(
            b,
            k * n,
            n,
            len - 1,
        )
    }
}

/// The sum of every entry of `a * b`, for row-major `a` of `m x k` and `b` of `k x n`
/// integers.
pub open spec fn product_total(a: Seq<i8>, b: Seq<i8>, m: nat, n: nat, k: nat) -> int {
    sum_range(
        m,
        |i: int| sum_range(n, |j: int| sum_range(k, |c: int| a[i * k + c] as int * b[c * n + j] as int)),
    )
}

/// The exact checksum of the generated `m x n x k` product, in units of 1/16384: the sum of
/// every entry of `A * B`, taken over the signed bytes that the generated values stand for.
pub open spec fn checksum_numerator(m: nat, n: nat, k: nat, seed: u64) -> int {
    product_total(generated_bytes(a_seed_spec(seed), m * k), generated_bytes(b_seed_spec(seed), k * n), m, n, k)
}

/// Within one row of `columns` entries, the column sum of `column` gains that row's entry
/// once the row has reached it.
proof fn lemma_column_sum_block(values: Seq<i8>, columns: nat, column: int, q: nat, r: nat)
    requires
        0 <= column < columns,
        r <= columns,
    ensures
        column_sum(values, q * columns + r, columns, column) == column_sum(values, q * columns, columns, column)
            + if column < r {
            values[q * columns + column] as int
        } else {
            0
        },
    decreases r,
{
    if r > 0 {
        let rr = (r - 1) as nat;
        lemma_column_sum_block(values, columns, column, q, rr);
        lemma_div_mod_of_index(q as int, rr as int, columns as int);
        assert((q * columns + r) as nat - 1 == q * columns + rr);
    }
}

/// The column sum over whole rows is the sum of that column's entries.
proof fn lemma_column_sum_rows(values: Seq<i8>, columns: nat, column: int, q: nat)
    requires
        0 <= column < columns,
    ensures
        column_sum(values, q * columns, columns, column) == sum_range(
            q,
            |i: int| values[i * columns + column] as int,
        ),
    decreases q,
{
    if q > 0 {
        let qq = (q - 1) as nat;
        lemma_column_sum_rows(values, columns, column, qq);
        lemma_column_sum_block(values, columns, column, qq, columns);
        assert(qq * columns + columns == q * columns) by (nonlinear_arith)
            requires
                qq == q - 1,
        ;
        let g = |i: int| values[i * columns + column] as int;
        assert(sum_range(q, g) == sum_range(qq, g) + g(qq as int));
    } else {
        assert(q * columns == 0) by (nonlinear_arith)
            requires
                q == 0,
        ;
    }
}

/// Within row `q` of `columns` entries, the row sum of `q` gains that row's entries so far.
proof fn lemma_row_sum_block(values: Seq<i8>, columns: nat, row: int, q: nat, s: nat)
    requires
        s <= columns,
        row >= 0,
    ensures
        row_sum(values, q * columns + s, columns, row) == row_sum(values, q * columns, columns, row)
            + if row == q {
            sum_range(s, |j: int| values[q * columns + j] as int)
        } else {
            0
        },
    decreases s,
{
    if s > 0 {
        let ss = (s - 1) as nat;
        lemma_row_sum_block(values, columns, row, q, ss);
        lemma_div_mod_of_index(q as int, ss as int, columns as int);
        assert((q * columns + s) as nat - 1 == q * columns + ss);
    }
}

/// The row sum of `row` over the first `q` whole rows is the sum of that row's entries when it
/// is one of them.
proof fn lemma_row_sum_rows(values: Seq<i8>, columns: nat, row: int, q: nat)
    requires
        0 <= row,
    ensures
        row_sum(values, q * columns, columns, row) == if row < q {
            sum_range(columns, |j: int| values[row * columns + j] as int)
        } else {
            0
        },
    decreases q,
{
    if q > 0 {
        let qq = (q - 1) as nat;
        lemma_row_sum_rows(values, columns, row, qq);
        lemma_row_sum_block(values, columns, row, qq, columns);
        assert(qq * columns + columns == q * columns) by (nonlinear_arith)
            requires
                qq == q - 1,
        ;
        if row == qq {
            assert((|j: int| values[qq * columns + j] as int) =~= (|j: int| values[row * columns + j] as int));
        }
    } else {
        assert(q * columns == 0) by (nonlinear_arith)
            requires
                q == 0,
        ;
    }
}

/// The running checksum is a sum over the shared index of column sum times row sum.
proof fn lemma_checksum_partial_sum(m: nat, n: nat, k: nat, seed: u64, len: nat)
    ensures
        checksum_partial(m, n, k, seed, len) == sum_range(
            len,
            |c: int|
                column_sum(generated_bytes(a_seed_spec(seed), m * k), m * k, k, c) * row_sum(
                    generated_bytes(b_seed_spec(seed), k * n),
                    k * n,
                    n,
                    c,
                ),
        ),
    decreases len,
{
    if len > 0 {
        lemma_checksum_partial_sum(m, n, k, seed, (len - 1) as nat);
    }
}

/// The column-sum form of the checksum is the sum of every entry of the product.
proof fn lemma_checksum_is_product_total(m: nat, n: nat, k: nat, seed: u64)
    ensures
        checksum_partial(m, n, k, seed, k) == checksum_numerator(m, n, k, seed),
{
    let a = generated_bytes(a_seed_spec(seed), m * k);
    let b = generated_bytes(b_seed_spec(seed), k * n);
    let term = |c: int, i: int, j: int| a[i * k + c] as int * b[c * n + j] as int;
    let by_column = |c: int| column_sum(a, m * k, k, c) * row_sum(b, k * n, n, c);
    let by_c_then_i = |c: int| sum_range(m, |i: int| sum_range(n, |j: int| term(c, i, j)));
    lemma_checksum_partial_sum(m, n, k, seed, k);
    assert((|c: int| column_sum(a, m * k, k, c) * row_sum(b, k * n, n, c)) =~= by_column);
    assert forall|c: int| 0 <= c < k implies #[trigger] by_column(c) == by_c_then_i(c) by {
        let x = |i: int| a[i * k + c] as int;
        let y = |j: int| b[c * n + j] as int;
        lemma_column_sum_rows(a, k, c, m);
        assert(m * k == k * m) by (nonlinear_arith);
        assert(column_sum(a, m * k, k, c) == sum_range(m, x)) by {
            assert((|i: int| a[i * k + c] as int) =~= x);
        }
        lemma_row_sum_rows(b, n, c, k);
        assert(row_sum(b, k * n, n, c) == sum_range(n, y)) by {
            assert((|j: int| b[c * n + j] as int) =~= y);
        }
        lemma_sum_range_product(m, x, n, y);
        let lhs = |i: int| sum_range(n, |j: int| x(i) * y(j));
        let rhs = |i: int| sum_range(n, |j: int| term(c, i, j));
        assert forall|i: int| #[trigger] lhs(i) == rhs(i) by {
            assert((|j: int| x(i) * y(j)) =~= (|j: int| term(c, i, j)));
        }
        assert(lhs =~= rhs);
        assert((|i: int| sum_range(n, |j: int| x(i) * y(j))) =~= lhs);
    }
    lemma_sum_range_ext(k, by_column, by_c_then_i);
    // Sum over i outside, then over c, then over j.
    let f_ci = |c: int, i: int| sum_range(n, |j: int| term(c, i, j));
    lemma_sum_range_swap(k, m, f_ci);
    let swap_lhs = |u: int| sum_range(m, |v: int| f_ci(u, v));
    assert forall|u: int| #[trigger] swap_lhs(u) == by_c_then_i(u) by {
        assert((|v: int| f_ci(u, v)) =~= (|i: int| sum_range(n, |j: int| term(u, i, j))));
    }
    assert(swap_lhs =~= by_c_then_i);
    assert((|u: int| sum_range(m, |v: int| f_ci(u, v))) =~= swap_lhs);
    let by_i_then_c = |i: int| sum_range(k, |c: int| f_ci(c, i));
    assert((|v: int| sum_range(k, |u: int| f_ci(u, v))) =~= by_i_then_c);
    let by_i_then_j = |i: int| sum_range(n, |j: int| sum_range(k, |c: int| a[i * k + c] as int * b[c * n + j] as int));
    assert forall|i: int| 0 <= i < m implies #[trigger] by_i_then_c(i) == by_i_then_j(i) by {
        let g = |c: int, j: int| term(c, i, j);
        lemma_sum_range_swap(k, n, g);
        let inner_c = |u: int| sum_range(n, |v: int| g(u, v));
        assert forall|u: int| #[trigger] inner_c(u) == f_ci(u, i) by {
            assert((|v: int| g(u, v)) =~= (|j: int| term(u, i, j)));
        }
        assert(inner_c =~= (|c: int| f_ci(c, i)));
        assert((|u: int| sum_range(n, |v: int| g(u, v))) =~= inner_c);
        let inner_j = |v: int| sum_range(k, |u: int| g(u, v));
        assert forall|v: int| #[trigger] inner_j(v) == sum_range(k, |c: int| a[i * k + c] as int * b[c * n + v] as int) by {
            assert((|u: int| g(u, v)) =~= (|c: int| a[i * k + c] as int * b[c * n + v] as int));
        }
        assert(inner_j =~= (|j: int| sum_range(k, |c: int| a[i * k + c] as int * b[c * n + j] as int)));
        assert((|v: int| sum_range(k, |u: int| g(u, v))) =~= inner_j);
    }
    lemma_sum_range_ext(m, by_i_then_c, by_i_then_j);
    assert(by_i_then_j =~= (|i: int| sum_range(n, |j: int| sum_range(k, |c: int| a[i * k + c] as int * b[c * n + j] as int))));
}

/// `count` zeros.
fn zeroed(count: usize) -> (v: Vec<i64>)
    ensures
        v@ == Seq::new(count as nat, |i: int| 0i64),
{
    let mut v: Vec<i64> = Vec::new();
    let mut i: usize = 0;
    while i < count
        invariant
            i <= count,
            v@ == Seq::new(i as nat, |j: int| 0i64),
        decreases count - i,
    {
        v.push(0);
        i = i + 1;
        assert(v@ =~= Seq::new(i as nat, |j: int| 0i64));
    }
    v
}

/// A column sum over the first `count` entries of a matrix with `rows` rows holds at most one
/// entry per row, so it is at most `128 * rows` in magnitude.
proof fn lemma_column_sum_bound(values: Seq<i8>, columns: nat, column: int, rows: nat, count: nat)
    requires
        0 <= column < columns,
        count <= rows * columns,
    ensures
        magnitude(column_sum(values, count, columns, column)) <= 128 * rows,
{
    let q = count / columns;
    let r = count % columns;
    vstd::arithmetic::div_mod::lemma_fundamental_div_mod(count as int, columns as int);
    assert(count == q * columns + r) by (nonlinear_arith)
        requires
            count == columns * q + r,
    ;
    lemma_column_sum_block(values, columns, column, q as nat, r as nat);
    lemma_column_sum_rows(values, columns, column, q as nat);
    let g = |i: int| values[i * columns + column] as int;
    lemma_sum_range_bound(q as nat, g, 128);
    if r > 0 {
        assert(q < rows) by (nonlinear_arith)
            requires
                count == q * columns + r,
                r > 0,
                count <= rows * columns,
                q >= 0,
        ;
    } else {
        assert(q <= rows) by (nonlinear_arith)
            requires
                count == q * columns,
                count <= rows * columns,
                columns > 0,
        ;
    }
    assert(128 * q <= 128 * rows);
}

/// A row sum over the first `count` entries of a matrix with `columns` columns holds at most
/// one row's entries, so it is at most `128 * columns` in magnitude.
proof fn lemma_row_sum_bound(values: Seq<i8>, columns: nat, row: int, rows: nat, count: nat)
    requires
        0 <= row,
        count <= rows * columns,
    ensures
        magnitude(row_sum(values, count, columns, row)) <= 128 * columns,
{
    if columns == 0 {
        assert(count == 0) by (nonlinear_arith)
            requires
                count <= rows * columns,
                columns == 0,
        ;
    } else {
        let q = count / columns;
        let s = count % columns;
        vstd::arithmetic::div_mod::lemma_fundamental_div_mod(count as int, columns as int);
        assert(count == q * columns + s) by (nonlinear_arith)
            requires
                count == columns * q + s,
        ;
        lemma_row_sum_block(values, columns, row, q as nat, s as nat);
        lemma_row_sum_rows(values, columns, row, q as nat);
        lemma_sum_range_bound(columns, |j: int| values[row * columns + j] as int, 128);
        lemma_sum_range_bound(s as nat, |j: int| values[q * columns + j] as int, 128);
    }
}

/// The column sums of the `rows x columns` matrix drawn from `seed`. Each has at most `rows`
/// terms, so each stays within an `i64` while `rows <= MAX_SUM_TERMS`.
fn column_sums(rows: usize, columns: usize, elements: usize, seed: u64) -> (sums: Vec<i64>)
    requires
        elements == rows * columns,
        rows <= MAX_SUM_TERMS,
    ensures
        sums@.len() == columns,
        forall|c: int| 0 <= c < columns ==> #[trigger] sums@[c] == column_sum(
            generated_bytes(seed, elements as nat),
            elements as nat,
            columns as nat,
            c,
        ),
        forall|c: int| 0 <= c < columns ==> magnitude(#[trigger] sums@[c] as int) <= 128 * rows,
{
    let ghost values = generated_bytes(seed, elements as nat);
    let mut random = SplitMix64::new(seed);
    let mut sums = zeroed(columns);
    let mut index: usize = 0;
    while index < elements
        invariant
            index <= elements,
            elements == rows * columns,
            rows <= MAX_SUM_TERMS,
            values == generated_bytes(seed, elements as nat),
            random.state == splitmix_state(seed, index as nat),
            sums@.len() == columns,
            forall|c: int| 0 <= c < columns ==> #[trigger] sums@[c] == column_sum(values, index as nat, columns as nat, c),
        decreases elements - index,
    {
        assert(columns > 0) by (nonlinear_arith)
            requires
                index < elements,
                elements == rows * columns,
        ;
        let column = index % columns;
        let value = random.next_i8();
        assert(value == values[index as int]);
        proof {
            lemma_column_sum_bound(values, columns as nat, column as int, rows as nat, (index + 1) as nat);
            assert(column_sum(values, (index + 1) as nat, columns as nat, column as int) == column_sum(
                values,
                index as nat,
                columns as nat,
                column as int,
            ) + value);
        }
        let updated = sums[column] + value as i64;
        sums.set(column, updated);
        proof {
            assert forall|c: int| 0 <= c < columns implies #[trigger] sums@[c] == column_sum(
                values,
                (index + 1) as nat,
                columns as nat,
                c,
            ) by {
                assert(column_sum(values, (index + 1) as nat, columns as nat, c) == column_sum(
                    values,
                    index as nat,
                    columns as nat,
                    c,
                ) + if (index as int) % (columns as int) == c {
                    values[index as int] as int
                } else {
                    0
                });
            }
        }
        index = index + 1;
    }
    proof {
        assert forall|c: int| 0 <= c < columns implies magnitude(#[trigger] sums@[c] as int) <= 128 * rows by {
            lemma_column_sum_bound(values, columns as nat, c, rows as nat, elements as nat);
        }
    }
    sums
}

/// The row sums of the `rows x columns` matrix drawn from `seed`. Each has at most `columns`
/// terms, so each stays within an `i64` while `columns <= MAX_SUM_TERMS`.
fn row_sums(rows: usize, columns: usize, elements: usize, seed: u64) -> (sums: Vec<i64>)
    requires
        elements == rows * columns,
        columns <= MAX_SUM_TERMS,
    ensures
        sums@.len() == rows,
        forall|r: int| 0 <= r < rows ==> #[trigger] sums@[r] == row_sum(
            generated_bytes(seed, elements as nat),
            elements as nat,
            columns as nat,
            r,
        ),
        forall|r: int| 0 <= r < rows ==> magnitude(#[trigger] sums@[r] as int) <= 128 * columns,
{
    let ghost values = generated_bytes(seed, elements as nat);
    let mut random = SplitMix64::new(seed);
    let mut sums = zeroed(rows);
    let mut index: usize = 0;
    while index < elements
        invariant
            index <= elements,
            elements == rows * columns,
            columns <= MAX_SUM_TERMS,
            values == generated_bytes(seed, elements as nat),
            random.state == splitmix_state(seed, index as nat),
            sums@.len() == rows,
            forall|r: int| 0 <= r < rows ==> #[trigger] sums@[r] == row_sum(values, index as nat, columns as nat, r),
        decreases elements - index,
    {
        assert(columns > 0 && (index as int) / (columns as int) < rows) by (nonlinear_arith)
            requires
                index < elements,
                elements == rows * columns,
        ;
        let row = index / columns;
        let value = random.next_i8();
        assert(value == values[index as int]);
        proof {
            lemma_row_sum_bound(values, columns as nat, row as int, rows as nat, (index + 1) as nat);
            assert(row_sum(values, (index + 1) as nat, columns as nat, row as int) == row_sum(
                values,
                index as nat,
                columns as nat,
                row as int,
            ) + value);
        }
        let updated = sums[row] + value as i64;
        sums.set(row, updated);
        proof {
            assert forall|r: int| 0 <= r < rows implies #[trigger] sums@[r] == row_sum(
                values,
                (index + 1) as nat,
                columns as nat,
                r,
            ) by {
                assert(row_sum(values, (index + 1) as nat, columns as nat, r) == row_sum(
                    values,
                    index as nat,
                    columns as nat,
                    r,
                ) + if (index as int) / (columns as int) == r {
                    values[index as int] as int
                } else {
                    0
                });
            }
        }
        index = index + 1;
    }
    proof {
        assert forall|r: int| 0 <= r < rows implies magnitude(#[trigger] sums@[r] as int) <= 128 * columns by {
            lemma_row_sum_bound(values, columns as nat, r, rows as nat, elements as nat);
        }
    }
    sums
}

/// The sums of an `m x n x k` checksum stay exact: every column sum of `A` (at most `m`
/// terms) and row sum of `B` (at most `n` terms) fits an `i64`, and the `k` products of one
/// with the other, each at most `16384 * m * n`, add up within an `i128`.
pub open spec fn checksum_fits(m: int, n: int, k: int) -> bool {
    k > 0 ==> (m <= MAX_SUM_TERMS && n <= MAX_SUM_TERMS && 16384 * m * n * k <= i128::MAX)
}

/// The exact checksum of the generated `m x n x k` product, in units of 1/16384, or the
/// dimensions whose element count overflows (`m x k` checked first).
pub fn exact_matmul_checksum(m: usize, n: usize, k: usize, seed: u64) -> (r: Result<i128, GeneratorError>)
    requires
        m * k <= usize::MAX && k * n <= usize::MAX ==> checksum_fits(m as int, n as int, k as int),
    ensures
        r is Ok <==> m * k <= usize::MAX && k * n <= usize::MAX,
        r matches Ok(numerator) ==> numerator == checksum_numerator(m as nat, n as nat, k as nat, seed),
        r matches Err(e) ==> if m * k > usize::MAX {
            e == (GeneratorError::DimensionOverflow { rows: m, columns: k })
        } else {
            e == (GeneratorError::DimensionOverflow { rows: k, columns: n })
        },
{
    let a_elements = match m.checked_mul(k) {
        Some(count) => count,
        None => return Err(GeneratorError::DimensionOverflow { rows: m, columns: k }),
    };
    let b_elements = match k.checked_mul(n) {
        Some(count) => count,
        None => return Err(GeneratorError::DimensionOverflow { rows: k, columns: n }),
    };
    if k == 0 {
        proof {
            lemma_checksum_is_product_total(m as nat, n as nat, k as nat, seed);
        }
        return Ok(0);
    }
    let a_column_sums = column_sums(m, k, a_elements, a_seed(seed));
    let b_row_sums = row_sums(k, n, b_elements, b_seed(seed));
    let ghost bound: int = 16384 * m * n;
    let mut numerator: i128 = 0;
    let mut c: usize = 0;
    while c < k
        invariant
            c <= k,
            a_column_sums@.len() == k,
            b_row_sums@.len() == k,
            a_elements == m * k,
            b_elements == k * n,
            bound == 16384 * m * n,
            bound * k <= i128::MAX,
            forall|j: int| 0 <= j < k ==> #[trigger] a_column_sums@[j] == column_sum(
                generated_bytes(a_seed_spec(seed), a_elements as nat),
                a_elements as nat,
                k as nat,
                j,
            ),
            forall|j: int| 0 <= j < k ==> #[trigger] b_row_sums@[j] == row_sum(
                generated_bytes(b_seed_spec(seed), b_elements as nat),
                b_elements as nat,
                n as nat,
                j,
            ),
            forall|j: int| 0 <= j < k ==> magnitude(#[trigger] a_column_sums@[j] as int) <= 128 * m,
            forall|j: int| 0 <= j < k ==> magnitude(#[trigger] b_row_sums@[j] as int) <= 128 * n,
            numerator == checksum_partial(m as nat, n as nat, k as nat, seed, c as nat),
            magnitude(numerator as int) <= c * bound,
        decreases k - c,
    {
        let x = a_column_sums[c];
        let y = b_row_sums[c];
        proof {
            let ax = magnitude(x as int);
            let ay = magnitude(y as int);
            assert(magnitude(x as int * y as int) <= bound) by (nonlinear_arith)
                requires
                    ax == magnitude(x as int),
                    ay == magnitude(y as int),
                    ax <= 128 * m,
                    ay <= 128 * n,
                    bound == 16384 * m * n,
            ;
            assert(bound >= 0) by (nonlinear_arith)
                requires
                    bound == 16384 * m * n,
                    m >= 0,
                    n >= 0,
            ;
            assert((c + 1) * bound <= k * bound) by (nonlinear_arith)
                requires
                    c + 1 <= k,
                    bound >= 0,
            ;
            assert(bound * k == k * bound) by (nonlinear_arith);
            assert(c * bound + bound == (c + 1) * bound) by (nonlinear_arith);
            assert(magnitude(x as int * y as int) <= i128::MAX);
            assert(magnitude(numerator as int) + magnitude(x as int * y as int) <= i128::MAX);
        }
        let product = (x as i128) * (y as i128);
        numerator = numerator + product;
        proof {
            let a = generated_bytes(a_seed_spec(seed), (m * k) as nat);
            let b = generated_bytes(b_seed_spec(seed), (k * n) as nat);
            assert(checksum_partial(m as nat, n as nat, k as nat, seed, (c + 1) as nat) == checksum_partial(
                m as nat,
                n as nat,
                k as nat,
                seed,
                c as nat,
            ) + column_sum(a, (m * k) as nat, k as nat, c as int) * row_sum(b, (k * n) as nat, n as nat, c as int));
        }
        c = c + 1;
    }
    proof {
        lemma_checksum_is_product_total(m as nat, n as nat, k as nat, seed);
    }
    Ok(numerator)
}


/// The first sixteen signed bytes of the canonical left operand's stream.
proof fn lemma_canonical_left_bytes()
    ensures
        generated_bytes(a_seed_spec(CANONICAL_SEED), 16) == seq![-104i8, -44i8, -35i8, 36i8, -28i8, -50i8, -98i8, -32i8, 54i8, -6i8, -126i8, -106i8, -54i8, -11i8, 1i8, -46i8],
{
    assert(CANONICAL_SEED ^ A_DOMAIN == 0x11f743050bae4b00u64) by (bit_vector);
    let seed = a_seed_spec(CANONICAL_SEED);
    assert(splitmix_state(seed, 0) == 0x11f743050bae4b00u64);
    assert(splitmix_state(seed, 1) == 0xb02ebcbe8af8c715u64);
    assert(splitmix_state(seed, 2) == 0x4e6636780a43432au64);
    assert(splitmix_state(seed, 3) == 0xec9db031898dbf3fu64);
    assert(splitmix_state(seed, 4) == 0x8ad529eb08d83b54u64);
    assert(splitmix_state(seed, 5) == 0x290ca3a48822b769u64);
    assert(splitmix_state(seed, 6) == 0xc7441d5e076d337eu64);
    assert(splitmix_state(seed, 7) == 0x657b971786b7af93u64);
    assert(splitmix_state(seed, 8) == 0x03b310d106022ba8u64);
    assert(splitmix_state(seed, 9) == 0xa1ea8a8a854ca7bdu64);
    assert(splitmix_state(seed, 10) == 0x40220444049723d2u64);
    assert(splitmix_state(seed, 11) == 0xde597dfd83e19fe7u64);
    assert(splitmix_state(seed, 12) == 0x7c90f7b7032c1bfcu64);
    assert(splitmix_state(seed, 13) == 0x1ac8717082769811u64);
    assert(splitmix_state(seed, 14) == 0xb8ffeb2a01c11426u64);
    assert(splitmix_state(seed, 15) == 0x573764e3810b903bu64);
    assert(splitmix_state(seed, 16) == 0xf56ede9d00560c50u64);
    assert(top_byte(splitmix_mix(0xb02ebcbe8af8c715u64)) == -104i8) by (bit_vector);
    assert(top_byte(splitmix_mix(0x4e6636780a43432au64)) == -44i8) by (bit_vector);
    assert(top_byte(splitmix_mix(0xec9db031898dbf3fu64)) == -35i8) by (bit_vector);
    assert(top_byte(splitmix_mix(0x8ad529eb08d83b54u64)) == 36i8) by (bit_vector);
    assert(top_byte(splitmix_mix(0x290ca3a48822b769u64)) == -28i8) by (bit_vector);
    assert(top_byte(splitmix_mix(0xc7441d5e076d337eu64)) == -50i8) by (bit_vector);
    assert(top_byte(splitmix_mix(0x657b971786b7af93u64)) == -98i8) by (bit_vector);
    assert(top_byte(splitmix_mix(0x03b310d106022ba8u64)) == -32i8) by (bit_vector);
    assert(top_byte(splitmix_mix(0xa1ea8a8a854ca7bdu64)) == 54i8) by (bit_vector);
    assert(top_byte(splitmix_mix(0x40220444049723d2u64)) == -6i8) by (bit_vector);
    assert(top_byte(splitmix_mix(0xde597dfd83e19fe7u64)) == -126i8) by (bit_vector);
    assert(top_byte(splitmix_mix(0x7c90f7b7032c1bfcu64)) == -106i8) by (bit_vector);
    assert(top_byte(splitmix_mix(0x1ac8717082769811u64)) == -54i8) by (bit_vector);
    assert(top_byte(splitmix_mix(0xb8ffeb2a01c11426u64)) == -11i8) by (bit_vector);
    assert(top_byte(splitmix_mix(0x573764e3810b903bu64)) == 1i8) by (bit_vector);
    assert(top_byte(splitmix_mix(0xf56ede9d00560c50u64)) == -46i8) by (bit_vector);
    assert(generated_bytes(seed, 16) =~= seq![-104i8, -44i8, -35i8, 36i8, -28i8, -50i8, -98i8, -32i8, 54i8, -6i8, -126i8, -106i8, -54i8, -11i8, 1i8, -46i8]);
}

/// The first sixteen signed bytes of the canonical right operand's stream.
proof fn lemma_canonical_right_bytes()
    ensures
        generated_bytes(b_seed_spec(CANONICAL_SEED), 16) == seq![-127i8, -39i8, -57i8, 101i8, -2i8, -88i8, -112i8, -2i8, -124i8, -72i8, 42i8, 46i8, -102i8, 64i8, -76i8, -80i8],
{
    assert(CANONICAL_SEED ^ B_DOMAIN == 0xe4e742060bae4b03u64) by (bit_vector);
    let seed = b_seed_spec(CANONICAL_SEED);
    assert(splitmix_state(seed, 0) == 0xe4e742060bae4b03u64);
    assert(splitmix_state(seed, 1) == 0x831ebbbf8af8c718u64);
    assert(splitmix_state(seed, 2) == 0x215635790a43432du64);
    assert(splitmix_state(seed, 3) == 0xbf8daf32898dbf42u64);
    assert(splitmix_state(seed, 4) == 0x5dc528ec08d83b57u64);
    assert(splitmix_state(seed, 5) == 0xfbfca2a58822b76cu64);
    assert(splitmix_state(seed, 6) == 0x9a341c5f076d3381u64);
    assert(splitmix_state(seed, 7) == 0x386b961886b7af96u64);
    assert(splitmix_state(seed, 8) == 0xd6a30fd206022babu64);
    assert(splitmix_state(seed, 9) == 0x74da898b854ca7c0u64);
    assert(splitmix_state(seed, 10) == 0x13120345049723d5u64);
    assert(splitmix_state(seed, 11) == 0xb1497cfe83e19feau64);
    assert(splitmix_state(seed, 12) == 0x4f80f6b8032c1bffu64);
    assert(splitmix_state(seed, 13) == 0xedb8707182769814u64);
    assert(splitmix_state(seed, 14) == 0x8befea2b01c11429u64);
    assert(splitmix_state(seed, 15) == 0x2a2763e4810b903eu64);
    assert(splitmix_state(seed, 16) == 0xc85edd9e00560c53u64);
    assert(top_byte(splitmix_mix(0x831ebbbf8af8c718u64)) == -127i8) by (bit_vector);
    assert(top_byte(splitmix_mix(0x215635790a43432du64)) == -39i8) by (bit_vector);
    assert(top_byte(splitmix_mix(0xbf8daf32898dbf42u64)) == -57i8) by (bit_vector);
    assert(top_byte(splitmix_mix(0x5dc528ec08d83b57u64)) == 101i8) by (bit_vector);
    assert(top_byte(splitmix_mix(0xfbfca2a58822b76cu64)) == -2i8) by (bit_vector);
    assert(top_byte(splitmix_mix(0x9a341c5f076d3381u64)) == -88i8) by (bit_vector);
    assert(top_byte(splitmix_mix(0x386b961886b7af96u64)) == -112i8) by (bit_vector);
    assert(top_byte(splitmix_mix(0xd6a30fd206022babu64)) == -2i8) by (bit_vector);
    assert(top_byte(splitmix_mix(0x74da898b854ca7c0u64)) == -124i8) by (bit_vector);
    assert(top_byte(splitmix_mix(0x13120345049723d5u64)) == -72i8) by (bit_vector);
    assert(top_byte(splitmix_mix(0xb1497cfe83e19feau64)) == 42i8) by (bit_vector);
    assert(top_byte(splitmix_mix(0x4f80f6b8032c1bffu64)) == 46i8) by (bit_vector);
    assert(top_byte(splitmix_mix(0xedb8707182769814u64)) == -102i8) by (bit_vector);
    assert(top_byte(splitmix_mix(0x8befea2b01c11429u64)) == 64i8) by (bit_vector);
    assert(top_byte(splitmix_mix(0x2a2763e4810b903eu64)) == -76i8) by (bit_vector);
    assert(top_byte(splitmix_mix(0xc85edd9e00560c53u64)) == -80i8) by (bit_vector);
    assert(generated_bytes(seed, 16) =~= seq![-127i8, -39i8, -57i8, 101i8, -2i8, -88i8, -112i8, -2i8, -124i8, -72i8, 42i8, 46i8, -102i8, 64i8, -76i8, -80i8]);
}

/// The column sums of the canonical `4 x 4` left operand.
proof fn lemma_canonical_column_sums()
    ensures
        column_sum(generated_bytes(a_seed_spec(CANONICAL_SEED), 16), 16, 4, 0) == -132,
        column_sum(generated_bytes(a_seed_spec(CANONICAL_SEED), 16), 16, 4, 1) == -111,
        column_sum(generated_bytes(a_seed_spec(CANONICAL_SEED), 16), 16, 4, 2) == -258,
        column_sum(generated_bytes(a_seed_spec(CANONICAL_SEED), 16), 16, 4, 3) == -148,
{
    lemma_canonical_left_bytes();
    let a = generated_bytes(a_seed_spec(CANONICAL_SEED), 16);
    lemma_column_sum_rows(a, 4, 0, 4);
    lemma_column_sum_rows(a, 4, 1, 4);
    lemma_column_sum_rows(a, 4, 2, 4);
    lemma_column_sum_rows(a, 4, 3, 4);
    reveal_with_fuel(sum_range, 5);
}

/// The row sums of the canonical `4 x 4` right operand.
proof fn lemma_canonical_row_sums()
    ensures
        row_sum(generated_bytes(b_seed_spec(CANONICAL_SEED), 16), 16, 4, 0) == -122,
        row_sum(generated_bytes(b_seed_spec(CANONICAL_SEED), 16), 16, 4, 1) == -204,
        row_sum(generated_bytes(b_seed_spec(CANONICAL_SEED), 16), 16, 4, 2) == -108,
        row_sum(generated_bytes(b_seed_spec(CANONICAL_SEED), 16), 16, 4, 3) == -194,
{
    lemma_canonical_right_bytes();
    let b = generated_bytes(b_seed_spec(CANONICAL_SEED), 16);
    lemma_row_sum_rows(b, 4, 0, 4);
    lemma_row_sum_rows(b, 4, 1, 4);
    lemma_row_sum_rows(b, 4, 2, 4);
    lemma_row_sum_rows(b, 4, 3, 4);
    reveal_with_fuel(sum_range, 5);
}

/// The published checksum of the canonical `4 x 4 x 4` product is the exact one: the signed
/// bytes drawn from the canonical seed multiply out to 95324 units of 1/16384.
pub proof fn lemma_canonical_checksum_of_four()
    ensures
        checksum_numerator(4, 4, 4, CANONICAL_SEED) == 95324,
        canonical_checksum_spec(4) == Some(checksum_numerator(4, 4, 4, CANONICAL_SEED) as i128),
{
    lemma_canonical_column_sums();
    lemma_canonical_row_sums();
    lemma_checksum_is_product_total(4, 4, 4, CANONICAL_SEED);
    reveal_with_fuel(checksum_partial, 5);
}

} // verus!
