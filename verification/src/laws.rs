//! Laws of the filter: bounds of sampled coordinates, the quadrant
//! partition, and the behavior on uniform images.

use vstd::prelude::*;
use vstd::arithmetic::div_mod::lemma_div_multiples_vanish;

use crate::color::{Rgb8, Rgba8};
use crate::grid::Image;
use crate::pipeline::{is_filtered_pixel, selected_quadrant};
use crate::sampler::{bin_model, keeps, quadrant_of, row_bin, win_bin};
use crate::stats::{lemma_const_bin_key, lemma_totals_const, mean_divisor, totals_of};

verus! {

/// Every sample that survives the bound and skip rule lies inside the
/// image, so no out-of-bounds coordinate is ever read.
pub proof fn lemma_kept_sample_in_bounds(img: Image, x: int, ox: int, oy: int)
    requires
        keeps(img, x, ox, oy),
    ensures
        0 <= ox < img.width,
        0 <= oy < img.height,
{
}

/// The quadrant rule is a partition: an offset that is nonzero on both axes
/// falls in exactly one of the four quadrants, decided by the two signs.
pub proof fn lemma_quadrant_partition(dx: int, dy: int)
    requires
        dx != 0,
        dy != 0,
    ensures
        0 <= quadrant_of(dx, dy) < 4,
        quadrant_of(dx, dy) == 3 <==> (dx > 0 && dy > 0),
        quadrant_of(dx, dy) == 2 <==> (dx < 0 && dy > 0),
        quadrant_of(dx, dy) == 1 <==> (dx > 0 && dy < 0),
        quadrant_of(dx, dy) == 0 <==> (dx < 0 && dy < 0),
{
}

/// Every pixel of the image has the color `c`.
pub open spec fn uniform(img: Image, c: Rgba8) -> bool {
    forall|ox: int, oy: int|
        0 <= ox < img.width && 0 <= oy < img.height ==> img.pix(ox, oy) == c
}

/// On a uniform image, every sample a row contributes has the shared color.
proof fn lemma_row_bin_uniform(
    img: Image,
    c: Rgba8,
    x: int,
    y: int,
    oy: int,
    lo: int,
    hi: int,
    q: int,
)
    requires
        uniform(img, c),
    ensures
        forall|i: int|
            0 <= i < row_bin(img, x, y, oy, lo, hi, q).len() ==> row_bin(
                img,
                x,
                y,
                oy,
                lo,
                hi,
                q,
            )[i] == c,
    decreases hi - lo,
{
    if lo < hi {
        lemma_row_bin_uniform(img, c, x, y, oy, lo + 1, hi, q);
        let s = row_bin(img, x, y, oy, lo, hi, q);
        let head = crate::sampler::sample_contrib(img, x, y, lo, oy, q);
        let rest = row_bin(img, x, y, oy, lo + 1, hi, q);
        assert(s == head + rest);
        assert forall|i: int| 0 <= i < s.len() implies s[i] == c by {
            if i < head.len() {
                assert(keeps(img, x, lo, oy));
                assert(head[i] == img.pix(lo, oy));
                assert(img.pix(lo, oy) == c);
            } else {
                assert(s[i] == rest[i - head.len()]);
            }
        }
    }
}

/// On a uniform image, every sample a window contributes has the shared
/// color.
proof fn lemma_win_bin_uniform(
    img: Image,
    c: Rgba8,
    x: int,
    y: int,
    r: int,
    lo: int,
    hi: int,
    q: int,
)
    requires
        uniform(img, c),
    ensures
        forall|i: int|
            0 <= i < win_bin(img, x, y, r, lo, hi, q).len() ==> win_bin(
                img,
                x,
                y,
                r,
                lo,
                hi,
                q,
            )[i] == c,
    decreases hi - lo,
{
    if lo < hi {
        lemma_win_bin_uniform(img, c, x, y, r, lo + 1, hi, q);
        lemma_row_bin_uniform(img, c, x, y, lo, x - r, x + r, q);
        let s = win_bin(img, x, y, r, lo, hi, q);
        let head = row_bin(img, x, y, lo, x - r, x + r, q);
        let rest = win_bin(img, x, y, r, lo + 1, hi, q);
        assert(s == head + rest);
        assert forall|i: int| 0 <= i < s.len() implies s[i] == c by {
            if i < head.len() {
                assert(s[i] == head[i]);
            } else {
                assert(s[i] == rest[i - head.len()]);
            }
        }
    }
}

/// A row scan that passes a surviving sample of quadrant `q` contributes at
/// least that sample.
proof fn lemma_row_bin_hit(img: Image, x: int, y: int, oy: int, lo: int, hi: int, q: int, ox: int)
    requires
        lo <= ox < hi,
        keeps(img, x, ox, oy),
        quadrant_of(ox - x, oy - y) == q,
    ensures
        row_bin(img, x, y, oy, lo, hi, q).len() >= 1,
    decreases hi - lo,
{
    if lo < ox {
        lemma_row_bin_hit(img, x, y, oy, lo + 1, hi, q, ox);
    }
}

/// A window scan contributes at least what any one of its rows contributes.
proof fn lemma_win_bin_hasrow(
    img: Image,
    x: int,
    y: int,
    r: int,
    lo: int,
    hi: int,
    q: int,
    oy: int,
)
    requires
        lo <= oy < hi,
    ensures
        win_bin(img, x, y, r, lo, hi, q).len() >= row_bin(img, x, y, oy, x - r, x + r, q).len(),
    decreases hi - lo,
{
    if lo < oy {
        lemma_win_bin_hasrow(img, x, y, r, lo + 1, hi, q, oy);
    }
}

/// At a target in the leftmost column, a row contributes nothing to the
/// quadrants of non-positive horizontal offset: every surviving sample lies
/// strictly to the right.
proof fn lemma_row_bin_left_empty(img: Image, y: int, oy: int, lo: int, hi: int, q: int)
    requires
        q == 0 || q == 2,
    ensures
        row_bin(img, 0, y, oy, lo, hi, q).len() == 0,
    decreases hi - lo,
{
    if lo < hi {
        lemma_row_bin_left_empty(img, y, oy, lo + 1, hi, q);
    }
}

/// At a target in the leftmost column, the whole window contributes nothing
/// to quadrants 0 and 2.
proof fn lemma_win_bin_left_empty(img: Image, y: int, r: int, lo: int, hi: int, q: int)
    requires
        q == 0 || q == 2,
    ensures
        win_bin(img, 0, y, r, lo, hi, q).len() == 0,
    decreases hi - lo,
{
    if lo < hi {
        lemma_win_bin_left_empty(img, y, r, lo + 1, hi, q);
        lemma_row_bin_left_empty(img, y, lo, 0 - r, r, q);
    }
}

/// On a uniform image every bin is a run of the shared color, so every
/// selection key is the sentinel and the filter selects quadrant 0.
proof fn lemma_uniform_selects_first(img: Image, c: Rgba8, x: int, y: int, r: int)
    requires
        uniform(img, c),
    ensures
        selected_quadrant(img, x, y, r) == 0,
{
    lemma_win_bin_uniform(img, c, x, y, r, y - r, y + r, 0);
    lemma_win_bin_uniform(img, c, x, y, r, y - r, y + r, 1);
    lemma_win_bin_uniform(img, c, x, y, r, y - r, y + r, 2);
    lemma_win_bin_uniform(img, c, x, y, r, y - r, y + r, 3);
    lemma_const_bin_key(bin_model(img, x, y, r, 0), c);
    lemma_const_bin_key(bin_model(img, x, y, r, 1), c);
    lemma_const_bin_key(bin_model(img, x, y, r, 2), c);
    lemma_const_bin_key(bin_model(img, x, y, r, 3), c);
}

/// The mean of a nonempty bin of one shared color is that color's channels.
proof fn lemma_const_bin_mean(s: Seq<Rgba8>, c: Rgba8)
    requires
        s.len() >= 1,
        forall|i: int| 0 <= i < s.len() ==> s[i] == c,
    ensures
        crate::stats::is_mean_of(Rgb8 { r: c.r, g: c.g, b: c.b }, s),
{
    lemma_totals_const(s, c);
    let n = s.len() as int;
    lemma_div_multiples_vanish(c.r as int, n);
    lemma_div_multiples_vanish(c.g as int, n);
    lemma_div_multiples_vanish(c.b as int, n);
    assert(mean_divisor(s) == n);
}

/// Law: filtering a uniform image returns the shared color at every pixel
/// that does not sit in the leftmost column. The selected quadrant holds at
/// least one sample there, and all its samples carry the shared color.
pub proof fn lemma_uniform_keeps_color(img: Image, c: Rgba8, x: int, y: int, r: int)
    requires
        img.wf(),
        uniform(img, c),
        1 <= x < img.width,
        0 <= y < img.height,
        r >= 1,
    ensures
        is_filtered_pixel(Rgb8 { r: c.r, g: c.g, b: c.b }, img, x, y, r),
{
    lemma_uniform_selects_first(img, c, x, y, r);
    let oy0: int = if y == x {
        y - 1
    } else {
        y
    };
    assert(keeps(img, x, x - 1, oy0));
    assert(quadrant_of(x - 1 - x, oy0 - y) == 0);
    lemma_row_bin_hit(img, x, y, oy0, x - r, x + r, 0, x - 1);
    lemma_win_bin_hasrow(img, x, y, r, y - r, y + r, 0, oy0);
    lemma_win_bin_uniform(img, c, x, y, r, y - r, y + r, 0);
    lemma_const_bin_mean(bin_model(img, x, y, r, 0), c);
}

/// Law: in the leftmost column a uniform image filters to black, whatever
/// its color. Quadrant 0 is empty there, all keys carry the sentinel, so
/// the empty first quadrant wins and its mean is black.
pub proof fn lemma_uniform_left_column_black(img: Image, c: Rgba8, y: int, r: int)
    requires
        img.wf(),
        uniform(img, c),
        img.width >= 1,
        0 <= y < img.height,
        r >= 1,
    ensures
        is_filtered_pixel(Rgb8 { r: 0, g: 0, b: 0 }, img, 0, y, r),
{
    lemma_uniform_selects_first(img, c, 0, y, r);
    lemma_win_bin_left_empty(img, y, r, y - r, y + r, 0);
    let s = bin_model(img, 0, y, r, 0);
    assert(totals_of(s).r == 0);
    assert(mean_divisor(s) == 1);
}

} // verus!
