//! Mapping of values to chart columns.
//!
//! A value is a signed integer in whatever unit the caller counts in
//! (hundredths, millivolts, ticks). All arithmetic on values is exact: a
//! column is a quotient of integers, and no rounding happens before the one
//! that picks the column.

use vstd::prelude::*;
use vstd::arithmetic::div_mod::lemma_fundamental_div_mod;
use vstd::arithmetic::div_mod::lemma_fundamental_div_mod_converse;
use crate::rounding::distance;

verus! {

/// `n` held to the range of `isize`.
pub open spec fn saturate_isize(n: int) -> int {
    if n < isize::MIN {
        isize::MIN as int
    } else if n > isize::MAX {
        isize::MAX as int
    } else {
        n
    }
}

/// The column of the value `at` on an axis of `max_col + 1` columns whose
/// column 0 is centred on `lo` and whose last column is centred on `hi`.
///
/// A bucket is `(hi - lo) / max_col` wide, and half a bucket `w` is half of
/// that. Every column has a bucket of that width around its centre, the
/// columns before the first and beyond the last too. The column of `at` is
/// its distance from the point half a bucket before `lo`, counted in buckets
/// and rounded down: `(at - (lo - w)) / (2 * w)`. Both sides of that fraction
/// are taken here times `2 * max_col`, which makes them integers, and with
/// `hi` below `lo` all distances are counted downward. Nothing holds the
/// result to `0..=max_col`.
pub open spec fn column_of(lo: int, hi: int, max_col: int, at: int) -> int
    recommends
        lo != hi,
        max_col > 0,
{
    if hi > lo {
        (2 * max_col * (at - lo) + (hi - lo)) / (2 * (hi - lo))
    } else {
        (2 * max_col * (lo - at) + (lo - hi)) / (2 * (lo - hi))
    }
}

/// Maps values to raw column numbers, which can be out of bounds.
///
/// How a columnizer places its values is its own matter: it says so in
/// `raw_col`. The column of a value depends on the columnizer and the value
/// and on nothing else.
pub trait Columnizer<Value> {
    /// The column that this columnizer gives to `at`.
    spec fn raw_col(&self, at: Value) -> int;

    /// Gets the raw column number of `at`. It can be negative or beyond the
    /// last column: the caller has to check.
    fn get_raw_col(&self, at: Value) -> (col: isize)
        ensures
            col == self.raw_col(at),
    ;
}

/// A columnizer that sends each value to the nearest column, and a value
/// midway between two columns to the one nearer to `hi`.
pub struct RoundingColumnizer {
    lo: i64,
    hi: i64,
    max_col: usize,
}

impl RoundingColumnizer {
    /// The value on which column 0 is centred.
    pub closed spec fn lo(&self) -> i64 {
        self.lo
    }

    /// The value on which the last column is centred.
    pub closed spec fn hi(&self) -> i64 {
        self.hi
    }

    /// The number of the last column.
    pub closed spec fn max_col(&self) -> usize {
        self.max_col
    }

    /// A columnizer has at least two columns, and its range is not empty.
    #[verifier::type_invariant]
    pub open spec fn wf(&self) -> bool {
        self.max_col() > 0 && self.lo() != self.hi()
    }

    /// The column of `at`, before it is held to the range of `isize`.
    pub open spec fn column(&self, at: int) -> int {
        column_of(self.lo() as int, self.hi() as int, self.max_col() as int, at)
    }

    /// Half the width of a bucket, on the scale of `lead`.
    pub open spec fn half_bucket(&self) -> int {
        distance(self.lo() as int, self.hi() as int)
    }

    /// How far `at` lies past the centre of column `col`: positive toward
    /// `hi`, negative toward `lo`. The scale is `2 * max_col` times finer than
    /// that of the values, so that the centres and the edges of all buckets
    /// fall on integers: the bucket of column `col` reaches from
    /// `-half_bucket()` to `half_bucket()`.
    pub open spec fn lead(&self, col: int, at: int) -> int {
        let t = 2 * self.max_col() * (at - self.lo()) - 2 * col * (self.hi() - self.lo());
        if self.hi() > self.lo() {
            t
        } else {
            -t
        }
    }

    /// Returns the columnizer that puts `lo` in the middle of column 0 and
    /// `hi` in the middle of column `max_col`. `hi` may be less than `lo`: the
    /// columns then count downward in value.
    pub fn new(lo: i64, hi: i64, max_col: usize) -> (c: RoundingColumnizer)
        requires
            max_col > 0,
            lo != hi,
        ensures
            c.wf(),
            c.lo() == lo,
            c.hi() == hi,
            c.max_col() == max_col,
    {
        RoundingColumnizer { lo, hi, max_col }
    }
}

impl Columnizer<i64> for RoundingColumnizer {
    /// The column of the bucket of `at`, held to the range of `isize` and to
    /// nothing else.
    open spec fn raw_col(&self, at: i64) -> int {
        saturate_isize(self.column(at as int))
    }

    fn get_raw_col(&self, at: i64) -> (col: isize) {
        proof {
            use_type_invariant(self);
        }
        let span: i128 = self.hi as i128 - self.lo as i128;
        let offset: i128 = at as i128 - self.lo as i128;
        // Whether `at` lies on the side of `lo` on which `hi` lies.
        let ahead: bool = (offset >= 0) == (span > 0);
        let s: u128 = magnitude(span);
        let d: u128 = magnitude(offset);
        assert(self.max_col * d <= 0xffff_ffff_ffff_ffff * 0xffff_ffff_ffff_ffff)
            by (nonlinear_arith)
            requires
                0 <= self.max_col <= 0xffff_ffff_ffff_ffff,
                0 <= d <= 0xffff_ffff_ffff_ffff,
        ;
        // `at` is `p / s` buckets away from `lo`: `q` whole ones and a rest.
        let p: u128 = (self.max_col as u128) * d;
        let q: u128 = p / s;
        let r: u128 = p % s;
        proof {
            lemma_column_by_distance(self.lo as int, self.hi as int, self.max_col as int, at as int);
            lemma_fundamental_div_mod(p as int, s as int);
            assert(s as int * (p as int / s as int) == q * s) by (nonlinear_arith)
                requires
                    q == p as int / s as int,
            ;
            assert(q <= p) by (nonlinear_arith)
                requires
                    p == q * s + r,
                    s >= 1,
                    r >= 0,
                    q >= 0,
            ;
            if ahead {
                lemma_half_up(p as int, s as int, q as int, r as int);
            } else {
                lemma_half_down(p as int, s as int, q as int, r as int);
            }
        }
        if ahead {
            // The half bucket added carries into the next column where the
            // rest is half a bucket or more.
            let m: u128 = if r >= s - r { q + 1 } else { q };
            assert(m == self.column(at as int));
            if m > isize::MAX as u128 {
                isize::MAX
            } else {
                m as isize
            }
        } else {
            // Behind `lo` the columns count downward, and the half bucket
            // added makes up for a rest of half a bucket or less.
            let m: u128 = if r > s - r { q + 1 } else { q };
            assert(-m == self.column(at as int));
            if m > isize::MAX as u128 {
                isize::MIN
            } else {
                -(m as isize)
            }
        }
    }
}

/// The absolute value of `x`.
fn magnitude(x: i128) -> (m: u128)
    requires
        x > i128::MIN,
    ensures
        m == distance(0, x as int),
{
    if x < 0 {
        (-x) as u128
    } else {
        x as u128
    }
}

/// With `p == q * s + r`, the quotient of `2 * p + s` by `2 * s` is `q` or
/// `q + 1`, as `r` is under or over half of `s`.
proof fn lemma_half_up(p: int, s: int, q: int, r: int)
    requires
        s > 0,
        0 <= r < s,
        p == q * s + r,
    ensures
        (2 * p + s) / (2 * s) == if 2 * r >= s { q + 1 } else { q },
{
    if 2 * r >= s {
        assert(2 * p + s == (q + 1) * (2 * s) + (2 * r - s)) by (nonlinear_arith)
            requires
                p == q * s + r,
        ;
        lemma_fundamental_div_mod_converse(2 * p + s, 2 * s, q + 1, 2 * r - s);
    } else {
        assert(2 * p + s == q * (2 * s) + (2 * r + s)) by (nonlinear_arith)
            requires
                p == q * s + r,
        ;
        lemma_fundamental_div_mod_converse(2 * p + s, 2 * s, q, 2 * r + s);
    }
}

/// With `p == q * s + r`, the quotient of `s - 2 * p` by `2 * s`, rounded
/// down, is `-q` or `-q - 1`, as `r` is under or over half of `s`.
proof fn lemma_half_down(p: int, s: int, q: int, r: int)
    requires
        s > 0,
        0 <= r < s,
        p == q * s + r,
    ensures
        (s - 2 * p) / (2 * s) == if 2 * r > s { -q - 1 } else { -q },
{
    if 2 * r > s {
        assert(s - 2 * p == (-q - 1) * (2 * s) + (3 * s - 2 * r)) by (nonlinear_arith)
            requires
                p == q * s + r,
        ;
        lemma_fundamental_div_mod_converse(s - 2 * p, 2 * s, -q - 1, 3 * s - 2 * r);
    } else {
        assert(s - 2 * p == (-q) * (2 * s) + (s - 2 * r)) by (nonlinear_arith)
            requires
                p == q * s + r,
        ;
        lemma_fundamental_div_mod_converse(s - 2 * p, 2 * s, -q, s - 2 * r);
    }
}

/// The column of a value by its distance from `lo`. With `p` that distance
/// times `max_col` and `s` the length of the range, a value on the side of
/// `hi` has the column `(2 * p + s) / (2 * s)`, and one on the other side
/// has the column `(s - 2 * p) / (2 * s)`.
proof fn lemma_column_by_distance(lo: int, hi: int, max_col: int, at: int)
    requires
        lo != hi,
        max_col > 0,
    ensures
        ({
            let p = max_col * distance(lo, at);
            let s = distance(lo, hi);
            column_of(lo, hi, max_col, at) == if (at >= lo) == (hi > lo) {
                (2 * p + s) / (2 * s)
            } else {
                (s - 2 * p) / (2 * s)
            }
        }),
{
    let p = max_col * distance(lo, at);
    assert(2 * max_col * (at - lo) == if at >= lo { 2 * p } else { -2 * p }) by (nonlinear_arith)
        requires
            p == max_col * distance(lo, at),
            distance(lo, at) == if at >= lo { at - lo } else { lo - at },
    ;
    assert(2 * max_col * (lo - at) == -(2 * max_col * (at - lo))) by (nonlinear_arith);
}

/// The column of `at` is its lead over the point half a bucket before the
/// centre of column 0, counted in whole buckets and rounded down.
proof fn lemma_column_by_lead(c: RoundingColumnizer, at: int)
    requires
        c.wf(),
    ensures
        c.column(at) == (c.lead(0, at) + c.half_bucket()) / (2 * c.half_bucket()),
{
    assert(2 * 0 * (c.hi() - c.lo()) == 0) by (nonlinear_arith);
    assert(2 * c.max_col() * (c.lo() - at) == -(2 * c.max_col() * (at - c.lo())))
        by (nonlinear_arith);
}

/// From one column to the next the lead falls by a bucket.
proof fn lemma_lead_by_column(c: RoundingColumnizer, col: int, at: int)
    ensures
        c.lead(col, at) == c.lead(0, at) - col * (2 * c.half_bucket()),
{
    let span = c.hi() - c.lo();
    assert(2 * col * span == col * (2 * span)) by (nonlinear_arith);
    assert(2 * 0 * span == 0) by (nonlinear_arith);
    assert(col * (2 * -span) == -(col * (2 * span))) by (nonlinear_arith);
}

/// Every value from `lo` to `hi`, both included, has a column from 0 to
/// `max_col`, and `get_raw_col` returns a number in that range for it.
pub proof fn lemma_range_stays_on_chart(c: RoundingColumnizer, at: i64)
    requires
        c.wf(),
        c.lo() <= at <= c.hi() || c.hi() <= at <= c.lo(),
    ensures
        0 <= c.column(at as int) <= c.max_col(),
        0 <= c.raw_col(at) <= c.max_col(),
{
    let lo = c.lo() as int;
    let m = c.max_col() as int;
    let s = distance(lo, c.hi() as int);
    let p = m * distance(lo, at as int);
    lemma_column_by_distance(lo, c.hi() as int, m, at as int);
    assert(0 <= p <= m * s) by (nonlinear_arith)
        requires
            p == m * distance(lo, at as int),
            0 <= distance(lo, at as int) <= s,
            m > 0,
    ;
    if (at >= c.lo()) == (c.hi() > c.lo()) {
        let q = (2 * p + s) / (2 * s);
        lemma_fundamental_div_mod(2 * p + s, 2 * s);
        assert(0 <= q <= m) by (nonlinear_arith)
            requires
                2 * p + s == (2 * s) * q + (2 * p + s) % (2 * s),
                0 <= (2 * p + s) % (2 * s) < 2 * s,
                0 <= p <= m * s,
                s > 0,
        ;
    } else {
        assert(p == 0) by (nonlinear_arith)
            requires
                p == m * distance(lo, at as int),
                distance(lo, at as int) == 0,
        ;
        lemma_fundamental_div_mod_converse(s, 2 * s, 0, s);
    }
}

/// The two ends of the range are the centres of the two outer columns: `lo`
/// has column 0 and `hi` has column `max_col`. `get_raw_col` returns 0 for
/// `lo`, and `max_col` for `hi` wherever an `isize` can hold `max_col`.
pub proof fn lemma_ends_are_exact(c: RoundingColumnizer)
    requires
        c.wf(),
    ensures
        c.column(c.lo() as int) == 0,
        c.column(c.hi() as int) == c.max_col(),
        c.raw_col(c.lo()) == 0,
        c.max_col() <= isize::MAX ==> c.raw_col(c.hi()) == c.max_col(),
{
    let lo = c.lo() as int;
    let hi = c.hi() as int;
    let m = c.max_col() as int;
    let s = distance(lo, hi);
    lemma_column_by_distance(lo, hi, m, lo);
    lemma_column_by_distance(lo, hi, m, hi);
    assert(m * 0 == 0) by (nonlinear_arith);
    lemma_fundamental_div_mod_converse(s, 2 * s, 0, s);
    assert(2 * (m * s) + s == m * (2 * s) + s) by (nonlinear_arith);
    lemma_fundamental_div_mod_converse(2 * (m * s) + s, 2 * s, m, s);
}

/// Each value goes to the nearest column. The values with column `col` are
/// those less than half a bucket away from the centre of that column, and
/// those exactly half a bucket away on the side of `lo`. This holds of every
/// column, the negative ones and those beyond the last too. `get_raw_col`
/// returns `col` for such a value wherever an `isize` can hold `col`.
pub proof fn lemma_nearest_column(c: RoundingColumnizer, col: int, at: i64)
    requires
        c.wf(),
    ensures
        c.column(at as int) == col <==> -c.half_bucket() <= c.lead(col, at as int)
            < c.half_bucket(),
        -c.half_bucket() <= c.lead(col, at as int) < c.half_bucket() && isize::MIN <= col
            <= isize::MAX ==> c.raw_col(at) == col,
{
    let s = c.half_bucket();
    let k = c.lead(0, at as int) + s;
    lemma_column_by_lead(c, at as int);
    lemma_lead_by_column(c, col, at as int);
    if -s <= c.lead(col, at as int) < s {
        lemma_fundamental_div_mod_converse(k, 2 * s, col, k - col * (2 * s));
    }
    if c.column(at as int) == col {
        lemma_fundamental_div_mod(k, 2 * s);
        assert((2 * s) * col == col * (2 * s)) by (nonlinear_arith);
    }
}

/// A value exactly midway between the centres of the columns `col` and
/// `col + 1` goes to `col + 1`, whatever column `col` is.
pub proof fn lemma_midpoint_goes_up(c: RoundingColumnizer, col: int, at: i64)
    requires
        c.wf(),
        c.lead(col, at as int) == c.half_bucket(),
    ensures
        c.column(at as int) == col + 1,
        isize::MIN <= col + 1 <= isize::MAX ==> c.raw_col(at) == col + 1,
{
    lemma_lead_by_column(c, col, at as int);
    lemma_lead_by_column(c, col + 1, at as int);
    assert((col + 1) * (2 * c.half_bucket()) == col * (2 * c.half_bucket()) + 2 * c.half_bucket())
        by (nonlinear_arith);
    lemma_nearest_column(c, col + 1, at);
}

/// The values with a negative column are those that lie more than half a
/// bucket before `lo`. `get_raw_col` returns a negative number for them, and
/// for no others.
pub proof fn lemma_negative_columns(c: RoundingColumnizer, at: i64)
    requires
        c.wf(),
    ensures
        c.column(at as int) < 0 <==> c.lead(0, at as int) < -c.half_bucket(),
        c.raw_col(at) < 0 <==> c.lead(0, at as int) < -c.half_bucket(),
{
    let s = c.half_bucket();
    let k = c.lead(0, at as int) + s;
    lemma_column_by_lead(c, at as int);
    lemma_fundamental_div_mod(k, 2 * s);
    assert(k / (2 * s) < 0 <==> k < 0) by (nonlinear_arith)
        requires
            k == (2 * s) * (k / (2 * s)) + k % (2 * s),
            0 <= k % (2 * s) < 2 * s,
            s > 0,
    ;
}

/// The values with a column beyond the last are those that lie half a bucket
/// or more past `hi`. `get_raw_col` returns a number beyond `max_col` for
/// them, and for no others, wherever an `isize` can hold such a number.
pub proof fn lemma_columns_past_last(c: RoundingColumnizer, at: i64)
    requires
        c.wf(),
    ensures
        c.column(at as int) > c.max_col() <==> c.lead(c.max_col() as int, at as int)
            >= c.half_bucket(),
        c.max_col() < isize::MAX ==> (c.raw_col(at) > c.max_col() <==> c.lead(
            c.max_col() as int,
            at as int,
        ) >= c.half_bucket()),
{
    let s = c.half_bucket();
    let m = c.max_col() as int;
    let k = c.lead(0, at as int) + s;
    lemma_column_by_lead(c, at as int);
    lemma_lead_by_column(c, m, at as int);
    lemma_fundamental_div_mod(k, 2 * s);
    assert(k / (2 * s) >= m + 1 <==> k >= m * (2 * s) + 2 * s) by (nonlinear_arith)
        requires
            k == (2 * s) * (k / (2 * s)) + k % (2 * s),
            0 <= k % (2 * s) < 2 * s,
            s > 0,
    ;
}

} // verus!
