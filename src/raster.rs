use vstd::prelude::*;

verus! {

/// An 8-bit RGB image, three bytes per pixel, rows top to bottom.
pub struct RgbImage {
    pub width: u32,
    pub height: u32,
    pub data: Vec<u8>,
}

impl RgbImage {
    /// The buffer holds exactly three bytes for each of `width * height` pixels.
    pub open spec fn wf(&self) -> bool {
        self.data@.len() == 3 * self.width * self.height
    }

    /// Builds an image from its dimensions and packed RGB bytes, when they agree.
    pub fn from_rgb(width: u32, height: u32, data: Vec<u8>) -> (r: Option<RgbImage>)
        ensures
            r is Some <==> data@.len() == 3 * width * height,
            r matches Some(img) ==> img.width == width && img.height == height && img.data@
                == data@,
    {
        let n = data.len() as u128;
        proof {
            assert(3 * (width as u128) * (height as u128) <= 3 * 0xffff_ffff * 0xffff_ffff)
                by (nonlinear_arith)
                requires width <= 0xffff_ffff, height <= 0xffff_ffff;
        }
        if n == 3 * (width as u128) * (height as u128) {
            Some(RgbImage { width, height, data })
        } else {
            None
        }
    }

    /// An image of one colour.
    pub fn filled(width: u32, height: u32, rgb: (u8, u8, u8)) -> (r: RgbImage)
        requires
            3 * width * height <= usize::MAX,
        ensures
            r.wf(),
            r.width == width,
            r.height == height,
            forall|i: int|
                0 <= i < r.data@.len() ==> r.data@[i] == (if i % 3 == 0 {
                    rgb.0
                } else if i % 3 == 1 {
                    rgb.1
                } else {
                    rgb.2
                }),
    {
        proof {
            assert(width * height <= 3 * width * height && 3 * width * height == 3 * (width
                * height)) by (nonlinear_arith);
        }
        let n: usize = width as usize * height as usize;
        let mut data: Vec<u8> = Vec::with_capacity(3 * n);
        let mut k: usize = 0;
        while k < n
            invariant
                n == width * height,
                3 * n <= usize::MAX,
                k <= n,
                data@.len() == 3 * k,
                forall|i: int|
                    0 <= i < data@.len() ==> data@[i] == (if i % 3 == 0 {
                        rgb.0
                    } else if i % 3 == 1 {
                        rgb.1
                    } else {
                        rgb.2
                    }),
            decreases n - k,
        {
            data.push(rgb.0);
            data.push(rgb.1);
            data.push(rgb.2);
            k = k + 1;
        }
        RgbImage { width, height, data }
    }
}

/// The cell `(x, y)` of a `w`-wide grid of `h` rows lies inside its `w * h` cells.
pub proof fn lemma_cell_in_grid(x: int, y: int, w: int, h: int)
    requires
        0 <= x < w,
        0 <= y < h,
    ensures
        0 <= y * w + x < w * h,
{
    assert(0 <= y * w + x < w * h) by (nonlinear_arith)
        requires 0 <= x < w, 0 <= y < h;
}

/// The `k`-th cell of a `w`-wide grid of `h` rows has column `k % w` and row `k / w`.
pub proof fn lemma_split_index(k: int, w: int, h: int)
    requires
        0 <= k < w * h,
        w > 0,
    ensures
        0 <= k / w < h,
        0 <= k % w < w,
        k == (k / w) * w + k % w,
{
    assert(0 <= k / w < h) by (nonlinear_arith)
        requires 0 <= k < w * h, w > 0;
    assert(k == (k / w) * w + k % w) by (nonlinear_arith)
        requires w > 0;
}

} // verus!
