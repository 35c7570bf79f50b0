//! Per-bin statistics: the mean color of a bin and the exact luminance
//! spread key that drives quadrant selection.

use vstd::prelude::*;
use vstd::arithmetic::div_mod::{lemma_div_is_ordered, lemma_div_multiples_vanish};

use crate::color::{luma_of, luma_scaled, Rgb8, Rgba8};

verus! {

/// Channel and luminance accumulators of a bin, in exact integers. The
/// luminance entries are in scaled units of one ten-thousandth.
pub ghost struct Totals {
    pub r: int,
    pub g: int,
    pub b: int,
    pub luma: int,
    pub luma_sq: int,
}

/// Exact sums over a bin: each color channel, the scaled luminance, and the
/// squared scaled luminance of every sampled pixel.
pub open spec fn totals_of(s: Seq<Rgba8>) -> Totals
    decreases s.len(),
{
    if s.len() == 0 {
        Totals { r: 0, g: 0, b: 0, luma: 0, luma_sq: 0 }
    } else {
        let t = totals_of(s.drop_last());
        let p = s.last();
        Totals {
            r: t.r + p.r,
            g: t.g + p.g,
            b: t.b + p.b,
            luma: t.luma + luma_of(p),
            luma_sq: t.luma_sq + luma_of(p) * luma_of(p),
        }
    }
}

/// Divisor of the mean: the bin size floored at one, so that an empty bin
/// averages to zero instead of dividing by zero.
pub open spec fn mean_divisor(s: Seq<Rgba8>) -> int {
    if s.len() == 0 {
        1
    } else {
        s.len() as int
    }
}

/// Mean of the red channel, as integer division of the channel sum.
pub open spec fn mean_r(s: Seq<Rgba8>) -> int {
    totals_of(s).r / mean_divisor(s)
}

/// Mean of the green channel, as integer division of the channel sum.
pub open spec fn mean_g(s: Seq<Rgba8>) -> int {
    totals_of(s).g / mean_divisor(s)
}

/// Mean of the blue channel, as integer division of the channel sum.
pub open spec fn mean_b(s: Seq<Rgba8>) -> int {
    totals_of(s).b / mean_divisor(s)
}

/// `c` is the mean color of the bin `s`, channel by channel.
pub open spec fn is_mean_of(c: Rgb8, s: Seq<Rgba8>) -> bool {
    &&& c.r == mean_r(s)
    &&& c.g == mean_g(s)
    &&& c.b == mean_b(s)
}

/// Numerator of the luminance variance of a bin over the denominator
/// `len * len`, in squared scaled-luminance units: `n * sum(l^2) - sum(l)^2`.
/// It is never negative; see `lemma_var_num_nonneg`.
pub open spec fn var_num(s: Seq<Rgba8>) -> int {
    let n = s.len() as int;
    let t = totals_of(s);
    n * t.luma_sq - t.luma * t.luma
}

/// Squared scaled value of the sentinel spread `10.0` that replaces an
/// exactly-zero standard deviation: `(10 * 10000)^2`.
pub const SENTINEL_NUM: u128 = 10000000000;

/// Numerator of a bin's selection key. A bin whose luminance variance is
/// exactly zero — an empty, single-sample or perfectly uniform bin — is
/// demoted to the sentinel spread instead of winning outright.
pub open spec fn key_num(s: Seq<Rgba8>) -> int {
    if var_num(s) == 0 {
        SENTINEL_NUM as int
    } else {
        var_num(s)
    }
}

/// Denominator of a bin's selection key.
pub open spec fn key_den(s: Seq<Rgba8>) -> int {
    if var_num(s) == 0 {
        1
    } else {
        (s.len() * s.len()) as int
    }
}

/// A bin's selection key: the luminance variance as an exact fraction
/// `num / den` in squared scaled units, with the sentinel substituted for
/// an exactly-zero variance. Ordering keys by fraction value orders bins by
/// luminance standard deviation, since squaring is monotone on
/// non-negative spreads.
#[derive(Clone, Copy, Debug, PartialEq, Eq, Structural)]
pub struct DevKey {
    pub num: u128,
    pub den: u128,
}

/// `k` is the selection key of the bin `s`.
pub open spec fn key_matches(k: DevKey, s: Seq<Rgba8>) -> bool {
    &&& k.num == key_num(s)
    &&& k.den == key_den(s)
}

/// Extending a bin by its next pixel extends each accumulator by that
/// pixel's contribution.
pub proof fn lemma_totals_prefix(s: Seq<Rgba8>, i: int)
    requires
        0 <= i < s.len(),
    ensures
        totals_of(s.take(i + 1)) == (Totals {
            r: totals_of(s.take(i)).r + s[i].r,
            g: totals_of(s.take(i)).g + s[i].g,
            b: totals_of(s.take(i)).b + s[i].b,
            luma: totals_of(s.take(i)).luma + luma_of(s[i]),
            luma_sq: totals_of(s.take(i)).luma_sq + luma_of(s[i]) * luma_of(s[i]),
        }),
{
    assert(s.take(i + 1).drop_last() =~= s.take(i));
    assert(s.take(i + 1).last() == s[i]);
}

/// Every accumulator is bounded by the bin size times the largest value a
/// single pixel can contribute.
pub proof fn lemma_totals_bounds(s: Seq<Rgba8>)
    ensures
        0 <= totals_of(s).r <= 255 * s.len(),
        0 <= totals_of(s).g <= 255 * s.len(),
        0 <= totals_of(s).b <= 255 * s.len(),
        0 <= totals_of(s).luma <= 2550000 * s.len(),
        0 <= totals_of(s).luma_sq <= 6502500000000 * s.len(),
    decreases s.len(),
{
    if s.len() > 0 {
        lemma_totals_bounds(s.drop_last());
        let l = luma_of(s.last());
        assert(0 <= l * l <= 6502500000000) by (nonlinear_arith)
            requires
                0 <= l <= 2550000,
        ;
    }
}

/// Accumulators of a bin whose pixels all share one color.
pub proof fn lemma_totals_const(s: Seq<Rgba8>, c: Rgba8)
    requires
        forall|i: int| 0 <= i < s.len() ==> s[i] == c,
    ensures
        totals_of(s).r == s.len() * c.r,
        totals_of(s).g == s.len() * c.g,
        totals_of(s).b == s.len() * c.b,
        totals_of(s).luma == s.len() * luma_of(c),
        totals_of(s).luma_sq == s.len() * (luma_of(c) * luma_of(c)),
    decreases s.len(),
{
    if s.len() > 0 {
        lemma_totals_const(s.drop_last(), c);
        assert(s.last() == c);
        let n = s.len() as int;
        let l = luma_of(c);
        assert((n - 1) * (c.r as int) + c.r == n * (c.r as int)) by (nonlinear_arith);
        assert((n - 1) * (c.g as int) + c.g == n * (c.g as int)) by (nonlinear_arith);
        assert((n - 1) * (c.b as int) + c.b == n * (c.b as int)) by (nonlinear_arith);
        assert((n - 1) * l + l == n * l) by (nonlinear_arith);
        assert((n - 1) * (l * l) + l * l == n * (l * l)) by (nonlinear_arith);
    }
}

/// A bin of identical pixels, and only its length and luminance decide this,
/// has variance numerator zero, hence the sentinel key.
pub proof fn lemma_const_bin_key(s: Seq<Rgba8>, c: Rgba8)
    requires
        forall|i: int| 0 <= i < s.len() ==> s[i] == c,
    ensures
        var_num(s) == 0,
        key_num(s) == SENTINEL_NUM,
        key_den(s) == 1,
{
    lemma_totals_const(s, c);
    let n = s.len() as int;
    let l = luma_of(c);
    assert(n * (n * (l * l)) == (n * l) * (n * l)) by (nonlinear_arith);
}

/// One step of the quadratic mean inequality: adjoining a value keeps the
/// size-weighted sum of squares at or above the squared sum.
proof fn lemma_var_step(k: int, q: int, s: int, l: int)
    requires
        k >= 0,
        q >= 0,
        k * q >= s * s,
    ensures
        (k + 1) * (q + l * l) >= (s + l) * (s + l),
{
    assert((k * l * l - q) * (k * l * l - q) >= 0) by (nonlinear_arith);
    assert(4 * ((s * l) * (s * l)) <= 4 * ((k * q) * (l * l))) by (nonlinear_arith)
        requires
            s * s <= k * q,
            k * q >= 0,
    ;
    assert((k * (l * l) + q) * (k * (l * l) + q) >= 4 * ((k * q) * (l * l))) by (nonlinear_arith);
    assert(k * (l * l) >= 0) by (nonlinear_arith)
        requires
            k >= 0,
    ;
    assert(k * (l * l) + q >= 2 * (s * l)) by (nonlinear_arith)
        requires
            k * (l * l) + q >= 0,
            (k * (l * l) + q) * (k * (l * l) + q) >= 4 * ((s * l) * (s * l)),
    ;
    assert((k + 1) * (q + l * l) >= (s + l) * (s + l)) by (nonlinear_arith)
        requires
            k * q >= s * s,
            k * (l * l) + q >= 2 * (s * l),
    ;
}

/// The variance numerator of any bin is non-negative: the size-weighted sum
/// of squared luminances is at least the squared luminance sum.
pub proof fn lemma_var_num_nonneg(s: Seq<Rgba8>)
    ensures
        var_num(s) >= 0,
    decreases s.len(),
{
    if s.len() == 0 {
        assert(var_num(s) == 0) by (nonlinear_arith)
            requires
                var_num(s) == 0 * totals_of(s).luma_sq - totals_of(s).luma * totals_of(s).luma,
                totals_of(s).luma == 0,
        ;
    } else {
        lemma_var_num_nonneg(s.drop_last());
        lemma_totals_bounds(s.drop_last());
        let t = totals_of(s.drop_last());
        let l = luma_of(s.last());
        lemma_var_step(s.drop_last().len() as int, t.luma_sq, t.luma, l);
    }
}

/// Computes the mean color of a bin: each channel summed exactly and divided
/// by the bin size floored at one. An empty bin yields black.
pub fn average_quadrant_color(colors: &Vec<Rgba8>) -> (c: Rgb8)
    ensures
        is_mean_of(c, colors@),
        colors@.len() == 0 ==> c == (Rgb8 { r: 0, g: 0, b: 0 }),
{
    let mut r: u128 = 0;
    let mut g: u128 = 0;
    let mut b: u128 = 0;
    let n = colors.len();
    let mut i: usize = 0;
    while i < n
        invariant
            i <= n,
            n == colors@.len(),
            r == totals_of(colors@.take(i as int)).r,
            g == totals_of(colors@.take(i as int)).g,
            b == totals_of(colors@.take(i as int)).b,
            r <= 255 * i,
            g <= 255 * i,
            b <= 255 * i,
        decreases n - i,
    {
        proof {
            lemma_totals_prefix(colors@, i as int);
        }
        let p = colors[i];
        r = r + p.r as u128;
        g = g + p.g as u128;
        b = b + p.b as u128;
        i = i + 1;
    }
    proof {
        assert(colors@.take(n as int) =~= colors@);
    }
    let number: u128 = if n == 0 {
        1
    } else {
        n as u128
    };
    proof {
        lemma_totals_bounds(colors@);
        lemma_div_is_ordered(r as int, 255 * (number as int), number as int);
        lemma_div_multiples_vanish(255, number as int);
        lemma_div_is_ordered(g as int, 255 * (number as int), number as int);
        lemma_div_is_ordered(b as int, 255 * (number as int), number as int);
        lemma_div_is_ordered(0, r as int, number as int);
        lemma_div_is_ordered(0, g as int, number as int);
        lemma_div_is_ordered(0, b as int, number as int);
    }
    Rgb8 { r: (r / number) as u8, g: (g / number) as u8, b: (b / number) as u8 }
}

/// Computes the selection key of a bin: its exact luminance variance as a
/// fraction, with the sentinel substituted when the variance is exactly
/// zero. The bound on the bin size — at most one sample per grid cell of the
/// largest accepted image — keeps every accumulator inside 128 bits.
pub fn deviation_key(colors: &Vec<Rgba8>) -> (k: DevKey)
    requires
        colors@.len() <= 0x40000000,
    ensures
        key_matches(k, colors@),
        k.den > 0,
        var_num(colors@) == 0 ==> k == (DevKey { num: SENTINEL_NUM, den: 1 }),
{
    let n = colors.len();
    if n == 0 {
        proof {
            let t = totals_of(colors@);
            assert(t.luma == 0 && t.luma_sq == 0);
            assert((0int) * t.luma_sq == 0 && t.luma * t.luma == 0) by (nonlinear_arith)
                requires
                    t.luma == 0,
                    t.luma_sq == 0,
            ;
        }
        return DevKey { num: SENTINEL_NUM, den: 1 };
    }
    let mut s: u128 = 0;
    let mut q: u128 = 0;
    let mut i: usize = 0;
    while i < n
        invariant
            i <= n,
            n == colors@.len(),
            n <= 0x40000000,
            s == totals_of(colors@.take(i as int)).luma,
            q == totals_of(colors@.take(i as int)).luma_sq,
            s <= 2550000 * i,
            q <= 6502500000000 * i,
        decreases n - i,
    {
        proof {
            lemma_totals_prefix(colors@, i as int);
        }
        let p = colors[i];
        let l = luma_scaled(p);
        let l128 = l as u128;
        proof {
            assert(l128 * l128 <= 6502500000000) by (nonlinear_arith)
                requires
                    0 <= l128 <= 2550000,
            ;
        }
        s = s + l128;
        q = q + l128 * l128;
        i = i + 1;
    }
    proof {
        assert(colors@.take(n as int) =~= colors@);
        assert((n as int) * (q as int) <= 0x10000000000000000000000000000) by (nonlinear_arith)
            requires
                0 <= n <= 0x40000000,
                0 <= q <= 6502500000000 * (n as int),
        ;
        assert((s as int) * (s as int) <= 0x10000000000000000000000000000) by (nonlinear_arith)
            requires
                0 <= s,
                s <= 2550000 * (n as int),
                n <= 0x40000000,
        ;
        assert(1 <= (n as int) * (n as int) <= 0x1000000000000000) by (nonlinear_arith)
            requires
                1 <= n <= 0x40000000,
        ;
    }
    proof {
        lemma_var_num_nonneg(colors@);
    }
    let nw = n as u128;
    let nq = nw * q;
    let s2 = s * s;
    let num = nq - s2;
    if num == 0 {
        DevKey { num: SENTINEL_NUM, den: 1 }
    } else {
        DevKey { num, den: nw * nw }
    }
}

} // verus!
