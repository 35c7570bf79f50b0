//! Row-major pixel grids: the four-channel input image and the
//! three-channel output buffer.

use vstd::prelude::*;

use crate::color::{Rgb8, Rgba8};
use crate::MAX_DIM;

verus! {

/// A decoded input image: a `width x height` grid of RGBA pixels stored in
/// row-major order.
pub struct Image {
    pub width: u32,
    pub height: u32,
    pub pixels: Vec<Rgba8>,
}

impl Image {
    /// The grid is well formed: both dimensions are within `MAX_DIM` and the
    /// pixel vector holds exactly one entry per coordinate.
    pub open spec fn wf(self) -> bool {
        &&& self.width <= MAX_DIM
        &&& self.height <= MAX_DIM
        &&& self.pixels@.len() == self.width * self.height
    }

    /// Color stored at column `x` of row `y`.
    pub open spec fn pix(self, x: int, y: int) -> Rgba8 {
        self.pixels@[y * self.width + x]
    }

    /// Builds an image from its dimensions and pixel vector, refusing
    /// dimensions beyond `MAX_DIM` and a vector of the wrong length.
    pub fn from_pixels(width: u32, height: u32, pixels: Vec<Rgba8>) -> (r: Option<Image>)
        ensures
            r is Some <==> (width <= MAX_DIM && height <= MAX_DIM && pixels@.len()
                == width * height),
            r is Some ==> {
                &&& r->0.wf()
                &&& r->0.width == width
                &&& r->0.height == height
                &&& r->0.pixels@ == pixels@
            },
    {
        if width > MAX_DIM || height > MAX_DIM {
            return None;
        }
        proof {
            assert(0 <= (width as int) * (height as int) <= 0x40000000) by (nonlinear_arith)
                requires
                    0 <= width <= 32768,
                    0 <= height <= 32768,
            ;
        }
        if pixels.len() as u64 == (width as u64) * (height as u64) {
            Some(Image { width, height, pixels })
        } else {
            None
        }
    }

    /// Builds an image from raw row-major RGBA bytes, four per pixel.
    pub fn from_rgba_bytes(width: u32, height: u32, bytes: &Vec<u8>) -> (r: Option<Image>)
        ensures
            r is Some <==> (width <= MAX_DIM && height <= MAX_DIM && bytes@.len() == 4 * (
            width * height)),
            r is Some ==> {
                &&& r->0.wf()
                &&& r->0.width == width
                &&& r->0.height == height
                &&& forall|i: int|
                    0 <= i < width * height ==> r->0.pixels@[i] == (Rgba8 {
                        r: bytes@[4 * i],
                        g: bytes@[4 * i + 1],
                        b: bytes@[4 * i + 2],
                        a: bytes@[4 * i + 3],
                    })
            },
    {
        if width > MAX_DIM || height > MAX_DIM {
            return None;
        }
        proof {
            assert(0 <= (width as int) * (height as int) <= 0x40000000) by (nonlinear_arith)
                requires
                    0 <= width <= 32768,
                    0 <= height <= 32768,
            ;
        }
        let count: usize = (width as usize) * (height as usize);
        if bytes.len() as u64 != 4 * (count as u64) {
            return None;
        }
        let mut pixels: Vec<Rgba8> = Vec::new();
        let mut i: usize = 0;
        while i < count
            invariant
                i <= count,
                count == width * height,
                count <= 0x40000000,
                bytes@.len() == 4 * count,
                pixels@.len() == i,
                forall|j: int|
                    0 <= j < i ==> pixels@[j] == (Rgba8 {
                        r: bytes@[4 * j],
                        g: bytes@[4 * j + 1],
                        b: bytes@[4 * j + 2],
                        a: bytes@[4 * j + 3],
                    }),
            decreases count - i,
        {
            pixels.push(
                Rgba8 {
                    r: bytes[4 * i],
                    g: bytes[4 * i + 1],
                    b: bytes[4 * i + 2],
                    a: bytes[4 * i + 3],
                },
            );
            i = i + 1;
        }
        Some(Image { width, height, pixels })
    }

    /// Reads the color at coordinate `(x, y)`.
    pub fn get(&self, x: u32, y: u32) -> (p: Rgba8)
        requires
            self.wf(),
            x < self.width,
            y < self.height,
        ensures
            p == self.pix(x as int, y as int),
    {
        proof {
            lemma_row_major_index(self.width as int, self.height as int, x as int, y as int);
        }
        let idx: usize = (y as usize) * (self.width as usize) + (x as usize);
        self.pixels[idx]
    }
}

/// The filtered output: a `width x height` grid of RGB pixels stored in
/// row-major order.
pub struct RgbBuffer {
    pub width: u32,
    pub height: u32,
    pub pixels: Vec<Rgb8>,
}

impl RgbBuffer {
    /// The grid is well formed: both dimensions are within `MAX_DIM` and the
    /// pixel vector holds exactly one entry per coordinate.
    pub open spec fn wf(self) -> bool {
        &&& self.width <= MAX_DIM
        &&& self.height <= MAX_DIM
        &&& self.pixels@.len() == self.width * self.height
    }

    /// Color stored at column `x` of row `y`.
    pub open spec fn pix(self, x: int, y: int) -> Rgb8 {
        self.pixels@[y * self.width + x]
    }

    /// Reads the color at coordinate `(x, y)`.
    pub fn get(&self, x: u32, y: u32) -> (p: Rgb8)
        requires
            self.wf(),
            x < self.width,
            y < self.height,
        ensures
            p == self.pix(x as int, y as int),
    {
        proof {
            lemma_row_major_index(self.width as int, self.height as int, x as int, y as int);
        }
        let idx: usize = (y as usize) * (self.width as usize) + (x as usize);
        self.pixels[idx]
    }

    /// Serializes the grid to raw row-major RGB bytes, three per pixel.
    pub fn to_rgb_bytes(&self) -> (bytes: Vec<u8>)
        requires
            self.wf(),
        ensures
            bytes@.len() == 3 * self.pixels@.len(),
            forall|i: int|
                0 <= i < self.pixels@.len() ==> {
                    &&& bytes@[3 * i] == self.pixels@[i].r
                    &&& bytes@[3 * i + 1] == self.pixels@[i].g
                    &&& bytes@[3 * i + 2] == self.pixels@[i].b
                },
    {
        let mut bytes: Vec<u8> = Vec::new();
        let mut i: usize = 0;
        let n: usize = self.pixels.len();
        while i < n
            invariant
                i <= n,
                n == self.pixels@.len(),
                bytes@.len() == 3 * i,
                forall|j: int|
                    0 <= j < i ==> {
                        &&& bytes@[3 * j] == self.pixels@[j].r
                        &&& bytes@[3 * j + 1] == self.pixels@[j].g
                        &&& bytes@[3 * j + 2] == self.pixels@[j].b
                    },
            decreases n - i,
        {
            let p = self.pixels[i];
            bytes.push(p.r);
            bytes.push(p.g);
            bytes.push(p.b);
            i = i + 1;
        }
        bytes
    }
}

/// A row-major index stays inside the pixel vector, which itself holds
/// fewer than `2^30` entries for dimensions within `MAX_DIM`.
pub proof fn lemma_row_major_index(w: int, h: int, x: int, y: int)
    requires
        0 <= x < w <= MAX_DIM,
        0 <= y < h <= MAX_DIM,
    ensures
        0 <= y * w + x < w * h,
        w * h <= 0x40000000,
{
    assert(y * w + x < w * h) by (nonlinear_arith)
        requires
            0 <= x < w,
            0 <= y < h,
    ;
    assert(y * w >= 0) by (nonlinear_arith)
        requires
            0 <= y,
            0 < w,
    ;
    assert(w * h <= 0x40000000) by (nonlinear_arith)
        requires
            0 < w <= 32768,
            0 < h <= 32768,
    ;
}

} // verus!
