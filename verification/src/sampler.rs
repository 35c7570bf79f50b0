//! Neighborhood sampling: partitioning the window around a target pixel
//! into four directional quadrant bins.

use vstd::prelude::*;
use vstd::arithmetic::mul::lemma_mul_inequality;

use crate::color::Rgba8;
use crate::grid::Image;

verus! {

/// A window candidate survives the bound and skip rule: it lies inside the
/// image and neither its column nor its row equals the target column `x`.
/// Checking the row candidate against the column coordinate — `oy != x`
/// rather than `oy != y` — reproduces the filter's observed sampling rule
/// and is kept deliberately.
pub open spec fn keeps(img: Image, x: int, ox: int, oy: int) -> bool {
    &&& 0 <= oy < img.height
    &&& oy != x
    &&& 0 <= ox < img.width
    &&& ox != x
}

/// Quadrant index assigned to a sample from the sign of its offset
/// `(dx, dy)` to the target pixel: positive offsets on both axes go to 3,
/// only vertically positive to 2, only horizontally positive to 1, and the
/// rest to 0.
pub open spec fn quadrant_of(dx: int, dy: int) -> int {
    if dx > 0 && dy > 0 {
        3
    } else if !(dx > 0) && dy > 0 {
        2
    } else if dx > 0 {
        1
    } else {
        0
    }
}

/// What the sample candidate `(ox, oy)` contributes to quadrant `q`: its
/// color if it survives the bound and skip rule and falls in `q`, nothing
/// otherwise.
pub open spec fn sample_contrib(img: Image, x: int, y: int, ox: int, oy: int, q: int) -> Seq<
    Rgba8,
> {
    if keeps(img, x, ox, oy) && quadrant_of(ox - x, oy - y) == q {
        seq![img.pix(ox, oy)]
    } else {
        Seq::empty()
    }
}

/// Pixels contributed to quadrant `q` by row `oy`, columns `lo` up to `hi`,
/// in sampling order.
pub open spec fn row_bin(img: Image, x: int, y: int, oy: int, lo: int, hi: int, q: int) -> Seq<
    Rgba8,
>
    decreases hi - lo,
{
    if lo >= hi {
        Seq::empty()
    } else {
        sample_contrib(img, x, y, lo, oy, q) + row_bin(img, x, y, oy, lo + 1, hi, q)
    }
}

/// Pixels contributed to quadrant `q` by window rows `lo` up to `hi`.
pub open spec fn win_bin(img: Image, x: int, y: int, r: int, lo: int, hi: int, q: int) -> Seq<
    Rgba8,
>
    decreases hi - lo,
{
    if lo >= hi {
        Seq::empty()
    } else {
        row_bin(img, x, y, lo, x - r, x + r, q) + win_bin(img, x, y, r, lo + 1, hi, q)
    }
}

/// The bin of quadrant `q` for target `(x, y)` and radius `r`: the half-open
/// window of rows `y - r` up to `y + r` and columns `x - r` up to `x + r`.
/// The asymmetry of the window toward the lower bound is part of the
/// filter's observed contract.
pub open spec fn bin_model(img: Image, x: int, y: int, r: int, q: int) -> Seq<Rgba8> {
    win_bin(img, x, y, r, y - r, y + r, q)
}

/// Extending a row scan by one column appends that candidate's
/// contribution.
pub proof fn lemma_row_bin_snoc(img: Image, x: int, y: int, oy: int, lo: int, hi: int, q: int)
    requires
        lo <= hi,
    ensures
        row_bin(img, x, y, oy, lo, hi + 1, q) == row_bin(img, x, y, oy, lo, hi, q)
            + sample_contrib(img, x, y, hi, oy, q),
    decreases hi - lo,
{
    if lo == hi {
        assert(row_bin(img, x, y, oy, lo + 1, hi + 1, q) =~= Seq::<Rgba8>::empty());
        assert(row_bin(img, x, y, oy, lo, hi + 1, q) =~= row_bin(img, x, y, oy, lo, hi, q)
            + sample_contrib(img, x, y, hi, oy, q));
    } else {
        lemma_row_bin_snoc(img, x, y, oy, lo + 1, hi, q);
        assert(row_bin(img, x, y, oy, lo, hi + 1, q) =~= row_bin(img, x, y, oy, lo, hi, q)
            + sample_contrib(img, x, y, hi, oy, q));
    }
}

/// Extending a window scan by one row appends that row's contribution.
pub proof fn lemma_win_bin_snoc(img: Image, x: int, y: int, r: int, lo: int, hi: int, q: int)
    requires
        lo <= hi,
    ensures
        win_bin(img, x, y, r, lo, hi + 1, q) == win_bin(img, x, y, r, lo, hi, q) + row_bin(
            img,
            x,
            y,
            hi,
            x - r,
            x + r,
            q,
        ),
    decreases hi - lo,
{
    if lo == hi {
        assert(win_bin(img, x, y, r, lo + 1, hi + 1, q) =~= Seq::<Rgba8>::empty());
        assert(win_bin(img, x, y, r, lo, hi + 1, q) =~= win_bin(img, x, y, r, lo, hi, q)
            + row_bin(img, x, y, hi, x - r, x + r, q));
    } else {
        lemma_win_bin_snoc(img, x, y, r, lo + 1, hi, q);
        assert(win_bin(img, x, y, r, lo, hi + 1, q) =~= win_bin(img, x, y, r, lo, hi, q)
            + row_bin(img, x, y, hi, x - r, x + r, q));
    }
}

/// A row whose candidate fails the bound or skip rule contributes nothing,
/// whatever its columns.
pub proof fn lemma_row_bin_skipped(img: Image, x: int, y: int, oy: int, lo: int, hi: int, q: int)
    requires
        !(0 <= oy < img.height && oy != x),
    ensures
        row_bin(img, x, y, oy, lo, hi, q) == Seq::<Rgba8>::empty(),
    decreases hi - lo,
{
    if lo < hi {
        lemma_row_bin_skipped(img, x, y, oy, lo + 1, hi, q);
        assert(row_bin(img, x, y, oy, lo, hi, q) =~= Seq::<Rgba8>::empty());
    }
}

/// Number of integers of `[lo, hi)` that lie in `[0, n)`.
pub open spec fn clip_count(lo: int, hi: int, n: int) -> int {
    let l = if lo < 0 {
        0
    } else {
        lo
    };
    let h = if hi > n {
        n
    } else {
        hi
    };
    if h > l {
        h - l
    } else {
        0
    }
}

/// A row contributes at most one pixel per of its in-bounds columns.
pub proof fn lemma_row_bin_len(img: Image, x: int, y: int, oy: int, lo: int, hi: int, q: int)
    ensures
        row_bin(img, x, y, oy, lo, hi, q).len() <= clip_count(lo, hi, img.width as int),
    decreases hi - lo,
{
    if lo < hi {
        lemma_row_bin_len(img, x, y, oy, lo + 1, hi, q);
    }
}

/// A window contributes at most one pixel per grid cell: each in-bounds row
/// adds at most one full image row.
pub proof fn lemma_win_bin_len(img: Image, x: int, y: int, r: int, lo: int, hi: int, q: int)
    ensures
        win_bin(img, x, y, r, lo, hi, q).len() <= clip_count(lo, hi, img.height as int) * (
        img.width as int),
    decreases hi - lo,
{
    let w = img.width as int;
    let h = img.height as int;
    if lo >= hi {
        assert(clip_count(lo, hi, h) * w >= 0) by (nonlinear_arith)
            requires
                clip_count(lo, hi, h) >= 0,
                w >= 0,
        ;
    } else {
        lemma_win_bin_len(img, x, y, r, lo + 1, hi, q);
        lemma_row_bin_len(img, x, y, lo, x - r, x + r, q);
        if 0 <= lo < h {
            assert((clip_count(lo + 1, hi, h) + 1) * w == clip_count(lo + 1, hi, h) * w + w)
                by (nonlinear_arith);
        } else {
            lemma_row_bin_skipped(img, x, y, lo, x - r, x + r, q);
            lemma_mul_inequality(clip_count(lo + 1, hi, h), clip_count(lo, hi, h), w);
        }
    }
}

/// A quadrant bin holds at most one sample per grid cell of the largest
/// accepted image.
pub proof fn lemma_bin_model_len(img: Image, x: int, y: int, r: int, q: int)
    requires
        img.wf(),
    ensures
        bin_model(img, x, y, r, q).len() <= 0x40000000,
{
    let w = img.width as int;
    let h = img.height as int;
    lemma_win_bin_len(img, x, y, r, y - r, y + r, q);
    lemma_mul_inequality(clip_count(y - r, y + r, h), h, w);
    assert(h * w <= 0x40000000) by (nonlinear_arith)
        requires
            0 <= w <= 32768,
            0 <= h <= 32768,
    ;
}

/// The four quadrant bins sampled around one target pixel.
pub struct Quadrants {
    pub q0: Vec<Rgba8>,
    pub q1: Vec<Rgba8>,
    pub q2: Vec<Rgba8>,
    pub q3: Vec<Rgba8>,
}

impl Quadrants {
    /// The bin of quadrant `q`.
    pub open spec fn bin(self, q: int) -> Seq<Rgba8> {
        if q == 0 {
            self.q0@
        } else if q == 1 {
            self.q1@
        } else if q == 2 {
            self.q2@
        } else {
            self.q3@
        }
    }
}

/// Appends a sample to the bin of quadrant `q`, leaving the other bins
/// unchanged.
fn push_sample(bins: &mut Quadrants, q: usize, p: Rgba8)
    requires
        q < 4,
    ensures
        final(bins).bin(q as int) == old(bins).bin(q as int).push(p),
        forall|t: int| 0 <= t < 4 && t != q ==> final(bins).bin(t) == old(bins).bin(t),
{
    if q == 0 {
        bins.q0.push(p);
    } else if q == 1 {
        bins.q1.push(p);
    } else if q == 2 {
        bins.q2.push(p);
    } else {
        bins.q3.push(p);
    }
}

/// Samples the window of radius `radius` around `(x, y)` and partitions the
/// surviving candidates into the four directional quadrant bins. Every
/// coordinate that is read lies inside the image: the bound check precedes
/// each read.
pub fn sample_quadrants(img: &Image, x: u32, y: u32, radius: u32) -> (bins: Quadrants)
    requires
        img.wf(),
        x < img.width,
        y < img.height,
    ensures
        forall|q: int|
            0 <= q < 4 ==> bins.bin(q) == bin_model(*img, x as int, y as int, radius as int, q),
{
    let w = img.width as i64;
    let h = img.height as i64;
    let xi = x as i64;
    let yi = y as i64;
    let rad = radius as i64;
    let mut bins = Quadrants { q0: Vec::new(), q1: Vec::new(), q2: Vec::new(), q3: Vec::new() };
    let mut oy: i64 = yi - rad;
    while oy < yi + rad
        invariant
            img.wf(),
            w == img.width,
            h == img.height,
            xi == x,
            yi == y,
            rad == radius,
            x < img.width,
            y < img.height,
            yi - rad <= oy <= yi + rad,
            forall|q: int|
                0 <= q < 4 ==> bins.bin(q) == win_bin(
                    *img,
                    x as int,
                    y as int,
                    rad as int,
                    yi - rad,
                    oy as int,
                    q,
                ),
        decreases yi + rad - oy,
    {
        if oy >= 0 && oy < h && oy != xi {
            proof {
                assert forall|t: int|
                    0 <= t < 4 implies bins.bin(t) == win_bin(
                    *img,
                    x as int,
                    y as int,
                    rad as int,
                    yi - rad,
                    oy as int,
                    t,
                ) + row_bin(*img, x as int, y as int, oy as int, xi - rad, xi - rad, t) by {
                    assert(bins.bin(t) =~= bins.bin(t) + row_bin(
                        *img,
                        x as int,
                        y as int,
                        oy as int,
                        xi - rad,
                        xi - rad,
                        t,
                    ));
                }
            }
            let mut ox: i64 = xi - rad;
            while ox < xi + rad
                invariant
                    img.wf(),
                    w == img.width,
                    h == img.height,
                    xi == x,
                    yi == y,
                    rad == radius,
                    x < img.width,
                    y < img.height,
                    0 <= oy < h,
                    oy != xi,
                    xi - rad <= ox <= xi + rad,
                    forall|q: int|
                        0 <= q < 4 ==> bins.bin(q) == win_bin(
                            *img,
                            x as int,
                            y as int,
                            rad as int,
                            yi - rad,
                            oy as int,
                            q,
                        ) + row_bin(*img, x as int, y as int, oy as int, xi - rad, ox as int, q),
                decreases xi + rad - ox,
            {
                proof {
                    lemma_row_bin_snoc(*img, x as int, y as int, oy as int, xi - rad, ox as int, 0);
                    lemma_row_bin_snoc(*img, x as int, y as int, oy as int, xi - rad, ox as int, 1);
                    lemma_row_bin_snoc(*img, x as int, y as int, oy as int, xi - rad, ox as int, 2);
                    lemma_row_bin_snoc(*img, x as int, y as int, oy as int, xi - rad, ox as int, 3);
                }
                if ox >= 0 && ox < w && ox != xi {
                    let p = img.get(ox as u32, oy as u32);
                    let qi: usize = if ox > xi {
                        if oy > yi {
                            3
                        } else {
                            1
                        }
                    } else {
                        if oy > yi {
                            2
                        } else {
                            0
                        }
                    };
                    push_sample(&mut bins, qi, p);
                    proof {
                        assert(keeps(*img, x as int, ox as int, oy as int));
                        assert(quadrant_of(ox - x as int, oy - y as int) == qi);
                        assert forall|t: int|
                            0 <= t < 4 implies bins.bin(t) == win_bin(
                            *img,
                            x as int,
                            y as int,
                            rad as int,
                            yi - rad,
                            oy as int,
                            t,
                        ) + row_bin(
                            *img,
                            x as int,
                            y as int,
                            oy as int,
                            xi - rad,
                            ox as int + 1,
                            t,
                        ) by {
                            let wq = win_bin(
                                *img,
                                x as int,
                                y as int,
                                rad as int,
                                yi - rad,
                                oy as int,
                                t,
                            );
                            let rq = row_bin(
                                *img,
                                x as int,
                                y as int,
                                oy as int,
                                xi - rad,
                                ox as int,
                                t,
                            );
                            let cq = sample_contrib(*img, x as int, y as int, ox as int, oy as int, t);
                            assert(row_bin(*img, x as int, y as int, oy as int, xi - rad, ox as int + 1, t)
                                == rq + cq);
                            if t == qi {
                                assert(cq =~= seq![p]);
                                assert(bins.bin(t) =~= wq + (rq + cq));
                            } else {
                                assert(cq =~= Seq::<Rgba8>::empty());
                                assert(bins.bin(t) =~= wq + (rq + cq));
                            }
                        }
                    }
                } else {
                    proof {
                        assert(!keeps(*img, x as int, ox as int, oy as int));
                        assert forall|t: int|
                            0 <= t < 4 implies bins.bin(t) == win_bin(
                            *img,
                            x as int,
                            y as int,
                            rad as int,
                            yi - rad,
                            oy as int,
                            t,
                        ) + row_bin(
                            *img,
                            x as int,
                            y as int,
                            oy as int,
                            xi - rad,
                            ox as int + 1,
                            t,
                        ) by {
                            let wq = win_bin(
                                *img,
                                x as int,
                                y as int,
                                rad as int,
                                yi - rad,
                                oy as int,
                                t,
                            );
                            let rq = row_bin(
                                *img,
                                x as int,
                                y as int,
                                oy as int,
                                xi - rad,
                                ox as int,
                                t,
                            );
                            let cq = sample_contrib(*img, x as int, y as int, ox as int, oy as int, t);
                            assert(row_bin(*img, x as int, y as int, oy as int, xi - rad, ox as int + 1, t)
                                == rq + cq);
                            assert(cq =~= Seq::<Rgba8>::empty());
                            assert(bins.bin(t) =~= wq + (rq + cq));
                        }
                    }
                }
                ox = ox + 1;
            }
            proof {
                lemma_win_bin_snoc(*img, x as int, y as int, rad as int, yi - rad, oy as int, 0);
                lemma_win_bin_snoc(*img, x as int, y as int, rad as int, yi - rad, oy as int, 1);
                lemma_win_bin_snoc(*img, x as int, y as int, rad as int, yi - rad, oy as int, 2);
                lemma_win_bin_snoc(*img, x as int, y as int, rad as int, yi - rad, oy as int, 3);
            }
        } else {
            proof {
                lemma_win_bin_snoc(*img, x as int, y as int, rad as int, yi - rad, oy as int, 0);
                lemma_win_bin_snoc(*img, x as int, y as int, rad as int, yi - rad, oy as int, 1);
                lemma_win_bin_snoc(*img, x as int, y as int, rad as int, yi - rad, oy as int, 2);
                lemma_win_bin_snoc(*img, x as int, y as int, rad as int, yi - rad, oy as int, 3);
                lemma_row_bin_skipped(*img, x as int, y as int, oy as int, xi - rad, xi + rad, 0);
                lemma_row_bin_skipped(*img, x as int, y as int, oy as int, xi - rad, xi + rad, 1);
                lemma_row_bin_skipped(*img, x as int, y as int, oy as int, xi - rad, xi + rad, 2);
                lemma_row_bin_skipped(*img, x as int, y as int, oy as int, xi - rad, xi + rad, 3);
                assert forall|q: int|
                    0 <= q < 4 implies bins.bin(q) == win_bin(
                    *img,
                    x as int,
                    y as int,
                    rad as int,
                    yi - rad,
                    oy as int + 1,
                    q,
                ) by {
                    assert(bins.bin(q) =~= win_bin(
                        *img,
                        x as int,
                        y as int,
                        rad as int,
                        yi - rad,
                        oy as int + 1,
                        q,
                    ));
                }
            }
        }
        oy = oy + 1;
    }
    bins
}

} // verus!
