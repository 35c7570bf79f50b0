//! The full-image traversal: applies the quadrant filter to every pixel in
//! raster order and collects the output grid.

use vstd::prelude::*;

use crate::color::Rgb8;
use crate::frac::frac_lt_spec;
use crate::grid::{Image, RgbBuffer};
use crate::sampler::{bin_model, lemma_bin_model_len, sample_quadrants};
use crate::selector::{first_min, key_lt, select_quadrant};
use crate::stats::{
    average_quadrant_color, deviation_key, is_mean_of, key_den, key_num, DevKey,
};

verus! {

/// The selection key of quadrant `a` is strictly below that of quadrant `b`
/// at the given target pixel.
pub open spec fn quad_lt(img: Image, x: int, y: int, r: int, a: int, b: int) -> bool {
    frac_lt_spec(
        key_num(bin_model(img, x, y, r, a)),
        key_den(bin_model(img, x, y, r, a)),
        key_num(bin_model(img, x, y, r, b)),
        key_den(bin_model(img, x, y, r, b)),
    )
}

/// The quadrant the filter selects at `(x, y)`: the first index attaining
/// the minimum selection key, scanning quadrants 0 through 3 in order, so
/// ties fall to the lowest index.
pub open spec fn selected_quadrant(img: Image, x: int, y: int, r: int) -> int {
    let m1 = if quad_lt(img, x, y, r, 1, 0) {
        1int
    } else {
        0int
    };
    let m2 = if quad_lt(img, x, y, r, 2, m1) {
        2int
    } else {
        m1
    };
    if quad_lt(img, x, y, r, 3, m2) {
        3int
    } else {
        m2
    }
}

/// `c` is the color the filter writes at `(x, y)`: the mean color of the
/// selected quadrant's bin.
pub open spec fn is_filtered_pixel(c: Rgb8, img: Image, x: int, y: int, r: int) -> bool {
    is_mean_of(c, bin_model(img, x, y, r, selected_quadrant(img, x, y, r)))
}

/// Filters a single pixel: samples the four quadrant bins, takes their mean
/// colors and selection keys, and returns the mean color of the bin with
/// the minimal key.
pub fn filter_pixel(img: &Image, x: u32, y: u32, radius: u32) -> (c: Rgb8)
    requires
        img.wf(),
        x < img.width,
        y < img.height,
    ensures
        is_filtered_pixel(c, *img, x as int, y as int, radius as int),
{
    let bins = sample_quadrants(img, x, y, radius);
    proof {
        assert(bins.bin(0) == bin_model(*img, x as int, y as int, radius as int, 0));
        assert(bins.bin(1) == bin_model(*img, x as int, y as int, radius as int, 1));
        assert(bins.bin(2) == bin_model(*img, x as int, y as int, radius as int, 2));
        assert(bins.bin(3) == bin_model(*img, x as int, y as int, radius as int, 3));
        assert(bins.q0@ == bin_model(*img, x as int, y as int, radius as int, 0));
        assert(bins.q1@ == bin_model(*img, x as int, y as int, radius as int, 1));
        assert(bins.q2@ == bin_model(*img, x as int, y as int, radius as int, 2));
        assert(bins.q3@ == bin_model(*img, x as int, y as int, radius as int, 3));
    }
    let m0 = average_quadrant_color(&bins.q0);
    let m1 = average_quadrant_color(&bins.q1);
    let m2 = average_quadrant_color(&bins.q2);
    let m3 = average_quadrant_color(&bins.q3);
    proof {
        lemma_bin_model_len(*img, x as int, y as int, radius as int, 0);
        lemma_bin_model_len(*img, x as int, y as int, radius as int, 1);
        lemma_bin_model_len(*img, x as int, y as int, radius as int, 2);
        lemma_bin_model_len(*img, x as int, y as int, radius as int, 3);
    }
    let k0 = deviation_key(&bins.q0);
    let k1 = deviation_key(&bins.q1);
    let k2 = deviation_key(&bins.q2);
    let k3 = deviation_key(&bins.q3);
    let mut keys: Vec<DevKey> = Vec::new();
    keys.push(k0);
    keys.push(k1);
    keys.push(k2);
    keys.push(k3);
    let sel = select_quadrant(&keys);
    proof {
        let ks = keys@;
        let xi = x as int;
        let yi = y as int;
        let r = radius as int;
        assert(ks.len() == 4 && ks[0] == k0 && ks[1] == k1 && ks[2] == k2 && ks[3] == k3);
        let s3 = ks.drop_last();
        let s2 = s3.drop_last();
        let s1 = s2.drop_last();
        assert(s3.len() == 3 && s3[0] == k0 && s3[1] == k1 && s3[2] == k2);
        assert(s2.len() == 2 && s2[0] == k0 && s2[1] == k1);
        assert(s1.len() == 1 && s1[0] == k0);
        assert(first_min(s1) == 0);
        assert(key_lt(k1, k0) == quad_lt(*img, xi, yi, r, 1, 0));
        assert(first_min(s2) == (if quad_lt(*img, xi, yi, r, 1, 0) {
            1int
        } else {
            0int
        }));
        let j1 = first_min(s2);
        assert(key_lt(k2, s3[j1]) == quad_lt(*img, xi, yi, r, 2, j1));
        assert(first_min(s3) == (if quad_lt(*img, xi, yi, r, 2, j1) {
            2int
        } else {
            j1
        }));
        let j2 = first_min(s3);
        assert(key_lt(k3, ks[j2]) == quad_lt(*img, xi, yi, r, 3, j2));
        assert(first_min(ks) == (if quad_lt(*img, xi, yi, r, 3, j2) {
            3int
        } else {
            j2
        }));
        assert(sel == selected_quadrant(*img, xi, yi, r));
    }
    if sel == 0 {
        m0
    } else if sel == 1 {
        m1
    } else if sel == 2 {
        m2
    } else {
        m3
    }
}

/// Filters a whole image in raster order. The output grid has exactly the
/// input's dimensions, and every output pixel is the mean color of the
/// quadrant bin the filter selects around the matching input pixel.
pub fn filter_image(img: &Image, radius: u32) -> (out: RgbBuffer)
    requires
        img.wf(),
    ensures
        out.wf(),
        out.width == img.width,
        out.height == img.height,
        forall|xx: int, yy: int|
            0 <= xx < img.width && 0 <= yy < img.height ==> is_filtered_pixel(
                out.pix(xx, yy),
                *img,
                xx,
                yy,
                radius as int,
            ),
{
    let w = img.width;
    let h = img.height;
    let mut pixels: Vec<Rgb8> = Vec::new();
    let mut y: u32 = 0;
    while y < h
        invariant
            img.wf(),
            w == img.width,
            h == img.height,
            y <= h,
            pixels@.len() == y * w,
            forall|xx: int, yy: int|
                0 <= xx < w && 0 <= yy < y ==> is_filtered_pixel(
                    #[trigger] pixels@[yy * w + xx],
                    *img,
                    xx,
                    yy,
                    radius as int,
                ),
        decreases h - y,
    {
        let mut x: u32 = 0;
        while x < w
            invariant
                img.wf(),
                w == img.width,
                h == img.height,
                y < h,
                x <= w,
                pixels@.len() == y * w + x,
                forall|xx: int, yy: int|
                    0 <= xx < w && 0 <= yy < y ==> is_filtered_pixel(
                        #[trigger] pixels@[yy * w + xx],
                        *img,
                        xx,
                        yy,
                        radius as int,
                    ),
                forall|xx: int|
                    0 <= xx < x ==> is_filtered_pixel(
                        #[trigger] pixels@[y * w + xx],
                        *img,
                        xx,
                        y as int,
                        radius as int,
                    ),
            decreases w - x,
        {
            let c = filter_pixel(img, x, y, radius);
            pixels.push(c);
            proof {
                assert forall|xx: int, yy: int|
                    0 <= xx < w && 0 <= yy < y implies 0 <= #[trigger] (yy * (w as int) + xx) < (
                y as int) * (w as int) by {
                    crate::grid::lemma_row_major_index(w as int, y as int, xx, yy);
                    assert((w as int) * (y as int) == (y as int) * (w as int)) by (nonlinear_arith);
                }
            }
            x = x + 1;
        }
        proof {
            assert((y as int) * (w as int) + w == (y as int + 1) * (w as int)) by (nonlinear_arith);
        }
        y = y + 1;
    }
    proof {
        assert((h as int) * (w as int) == (w as int) * (h as int)) by (nonlinear_arith);
    }
    RgbBuffer { width: w, height: h, pixels }
}

} // verus!
