use vstd::prelude::*;

verus! {

/// A coordinate axis, used to pick the plane of a single-axis rotation.
#[derive(Clone, Copy, PartialEq, Eq, Structural, Debug)]
pub enum Axis {
    X,
    Y,
    Z,
}

/// `num / den` rounded to the nearest integer, halves rounded away from zero.
pub open spec fn round_ratio(num: int, den: int) -> int
    recommends
        den > 0,
{
    if num >= 0 {
        (2 * num + den) / (2 * den)
    } else {
        -((2 * (-num) + den) / (2 * den))
    }
}

/// The value at step `k` of the straight line through `(i0, d0)` and `(i1, d1)`,
/// rounded to the nearest integer; a single index `i0 == i1` holds `d0`.
pub open spec fn interp_at(i0: int, d0: int, i1: int, d1: int, k: int) -> int {
    if i0 == i1 {
        d0
    } else {
        round_ratio(d0 * (i1 - i0) + k * (d1 - d0), i1 - i0)
    }
}

/// One rounded value for each integer index from `i0` to `i1` inclusive
/// (none when `i1 < i0`, and just `d0` when the range is a single index).
pub open spec fn interp_seq(i0: int, d0: int, i1: int, d1: int) -> Seq<int> {
    if i0 == i1 {
        seq![d0]
    } else if i1 < i0 {
        Seq::empty()
    } else {
        Seq::new((i1 - i0 + 1) as nat, |k: int| interp_at(i0, d0, i1, d1, k))
    }
}

/// The mathematical values of a sequence of 32-bit integers.
pub open spec fn ints(v: Seq<i32>) -> Seq<int> {
    v.map_values(|x: i32| x as int)
}

/// `ints` keeps the length and each element's value.
pub proof fn lemma_ints(v: Seq<i32>)
    ensures
        ints(v).len() == v.len(),
        forall|k: int| 0 <= k < v.len() ==> #[trigger] ints(v)[k] == v[k] as int,
{
}

/// The smaller of two integers.
pub open spec fn min_int(a: int, b: int) -> int {
    if a <= b { a } else { b }
}

/// The larger of two integers.
pub open spec fn max_int(a: int, b: int) -> int {
    if a >= b { a } else { b }
}

proof fn lemma_round_half_up_bounds(m: int, n: int, c: int)
    requires
        m >= 0,
        n > 0,
    ensures
        c * n <= m ==> c <= (2 * m + n) / (2 * n),
        m <= c * n ==> (2 * m + n) / (2 * n) <= c,
        (2 * m + n) / (2 * n) >= 0,
{
    let x = 2 * m + n;
    let d = 2 * n;
    let q = x / d;
    vstd::arithmetic::div_mod::lemma_fundamental_div_mod(x, d);
    let r = x % d;
    assert(0 <= r < d);
    assert(x == d * q + r);
    if c * n <= m {
        assert(c <= q) by (nonlinear_arith)
            requires
                x == d * q + r,
                0 <= r < d,
                x == 2 * m + n,
                d == 2 * n,
                c * n <= m,
                n > 0,
        ;
    }
    if m <= c * n {
        assert(q <= c) by (nonlinear_arith)
            requires
                x == d * q + r,
                0 <= r < d,
                x == 2 * m + n,
                d == 2 * n,
                m <= c * n,
                n > 0,
        ;
    }
    assert(q >= 0) by (nonlinear_arith)
        requires
            x == d * q + r,
            0 <= r < d,
            x > 0,
            d > 0,
    ;
}

/// A rounded ratio that lies between `lo * den` and `hi * den` rounds into `[lo, hi]`.
proof fn lemma_round_ratio_between(num: int, den: int, lo: int, hi: int)
    requires
        den > 0,
        lo * den <= num <= hi * den,
    ensures
        lo <= round_ratio(num, den) <= hi,
{
    if num >= 0 {
        lemma_round_half_up_bounds(num, den, lo);
        lemma_round_half_up_bounds(num, den, hi);
    } else {
        assert((-hi) * den <= -num <= (-lo) * den) by (nonlinear_arith)
            requires
                lo * den <= num <= hi * den,
        ;
        lemma_round_half_up_bounds(-num, den, -hi);
        lemma_round_half_up_bounds(-num, den, -lo);
    }
}

/// Every interpolated value lies between the two end values.
pub proof fn lemma_interp_between(i0: int, d0: int, i1: int, d1: int, k: int)
    requires
        i0 < i1,
        0 <= k <= i1 - i0,
    ensures
        min_int(d0, d1) <= interp_at(i0, d0, i1, d1, k) <= max_int(d0, d1),
{
    let n = i1 - i0;
    let num = d0 * n + k * (d1 - d0);
    if d0 <= d1 {
        assert(d0 * n <= num <= d1 * n) by (nonlinear_arith)
            requires
                num == d0 * n + k * (d1 - d0),
                0 <= k <= n,
                d0 <= d1,
        ;
        lemma_round_ratio_between(num, n, d0, d1);
    } else {
        assert(d1 * n <= num <= d0 * n) by (nonlinear_arith)
            requires
                num == d0 * n + k * (d1 - d0),
                0 <= k <= n,
                d1 < d0,
        ;
        lemma_round_ratio_between(num, n, d1, d0);
    }
}

/// Interpolating over a single index yields that one start value, whatever the
/// end value.
pub proof fn lemma_single_index_interpolation(i0: int, d0: int, d1: int)
    ensures
        interp_seq(i0, d0, i0, d1) == seq![d0],
        interp_seq(i0, d0, i0, d0) == seq![d0],
{
}

fn round_ratio_exec(num: i128, den: i128) -> (r: i128)
    requires
        0 < den < 0x1_0000_0000_0000,
        -0x1_0000_0000_0000_0000_0000_0000 < num < 0x1_0000_0000_0000_0000_0000_0000,
    ensures
        r == round_ratio(num as int, den as int),
{
    if num >= 0 {
        (2 * num + den) / (2 * den)
    } else {
        -((2 * (-num) + den) / (2 * den))
    }
}

/// Linear interpolation from `(start_idx, start_val)` to `(end_idx, end_val)`: one
/// rounded value per integer index from `start_idx` to `end_idx` inclusive.
pub fn interpolate(start_idx: i32, start_val: i32, end_idx: i32, end_val: i32) -> (values: Vec<i32>)
    ensures
        ints(values@) == interp_seq(start_idx as int, start_val as int, end_idx as int, end_val as int),
{
    if start_idx == end_idx {
        let values = vec![start_val];
        assert(ints(values@) =~= seq![start_val as int]);
        return values;
    }
    let mut values: Vec<i32> = Vec::new();
    if end_idx < start_idx {
        assert(ints(values@) =~= Seq::<int>::empty());
        return values;
    }
    let n: i64 = end_idx as i64 - start_idx as i64;
    let delta: i64 = end_val as i64 - start_val as i64;
    let ghost spec_seq = interp_seq(start_idx as int, start_val as int, end_idx as int, end_val as int);
    let mut k: i64 = 0;
    while k <= n
        invariant
            0 < n < 0x1_0000_0000,
            n == end_idx - start_idx,
            delta == end_val - start_val,
            0 <= k <= n + 1,
            spec_seq == interp_seq(start_idx as int, start_val as int, end_idx as int, end_val as int),
            spec_seq.len() == n + 1,
            values@.len() == k,
            forall|j: int| 0 <= j < k ==> values@[j] as int == spec_seq[j],
        decreases n + 1 - k,
    {
        assert(-0x10_0000_0000_0000_0000 < (start_val as int) * (n as int) < 0x10_0000_0000_0000_0000)
            by (nonlinear_arith)
            requires
                0 < n < 0x1_0000_0000,
                -0x8000_0000 <= start_val < 0x8000_0000,
        ;
        assert(-0x10_0000_0000_0000_0000 < (k as int) * (delta as int) < 0x10_0000_0000_0000_0000)
            by (nonlinear_arith)
            requires
                0 <= k <= 0x1_0000_0000,
                -0x1_0000_0000 <= delta <= 0x1_0000_0000,
        ;
        let num: i128 = start_val as i128 * n as i128 + k as i128 * delta as i128;
        let v = round_ratio_exec(num, n as i128);
        proof {
            lemma_interp_between(start_idx as int, start_val as int, end_idx as int, end_val as int, k as int);
            assert(v == spec_seq[k as int]);
        }
        values.push(v as i32);
        k = k + 1;
    }
    assert(ints(values@) =~= spec_seq);
    values
}

} // verus!
