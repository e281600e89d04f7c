use vstd::prelude::*;

use crate::profile::{quarter_turn, CropAnchor, Rotation, ScanOrder};
use crate::raster::{lemma_cell_in_grid, lemma_split_index, RgbImage};

verus! {

/// `n / d` rounded to the nearest integer, halves upwards (for `n >= 0`, `d > 0`).
pub open spec fn round_div(n: int, d: int) -> int {
    (2 * n + d) / (2 * d)
}

/// Intermediate size of a `sw`×`sh` source fitted to a `tw`×`th` target:
/// the axis that is relatively shorter meets the target exactly and the
/// other follows the source's aspect ratio, rounded to the nearest pixel.
pub open spec fn resize_dims(tw: int, th: int, sw: int, sh: int) -> (int, int) {
    if tw * sh < sw * th {
        (round_div(sw * th, sh), th)
    } else {
        (tw, round_div(sh * tw, sw))
    }
}

/// Largest side of a target panel.
pub const MAX_TARGET_SIDE: u32 = 4096;

/// Largest side of a decoded source image.
pub const MAX_SOURCE_SIDE: u32 = 32768;

pub open spec fn target_dims_ok(w: int, h: int) -> bool {
    1 <= w <= MAX_TARGET_SIDE && 1 <= h <= MAX_TARGET_SIDE
}

pub open spec fn source_dims_ok(w: int, h: int) -> bool {
    1 <= w <= MAX_SOURCE_SIDE && 1 <= h <= MAX_SOURCE_SIDE
}

proof fn lemma_round_div_bounds(n: int, d: int, lo: int)
    requires
        d > 0,
        n >= 0,
        n > lo * d,
        lo >= 0,
    ensures
        lo <= round_div(n, d) <= n,
        2 * (round_div(n, d) * d - n) <= d,
        2 * (n - round_div(n, d) * d) <= d,
{
    let q = round_div(n, d);
    assert(2 * n + d >= 2 * lo * d + d) by (nonlinear_arith)
        requires n > lo * d, d > 0;
    assert(q >= lo) by (nonlinear_arith)
        requires q == (2 * n + d) / (2 * d), 2 * n + d >= 2 * lo * d + d, d > 0;
    assert(q <= n) by (nonlinear_arith)
        requires q == (2 * n + d) / (2 * d), n >= 0, d > 0, n > lo * d, lo >= 0;
    assert(2 * d * q <= 2 * n + d < 2 * d * q + 2 * d) by (nonlinear_arith)
        requires q == (2 * n + d) / (2 * d), d > 0;
    assert(2 * (q * d - n) <= d && 2 * (n - q * d) <= d) by (nonlinear_arith)
        requires 2 * d * q <= 2 * n + d < 2 * d * q + 2 * d;
}

/// Fitting keeps the aspect ratio: the resized picture covers the target,
/// one of its sides equals the target's, and the other differs by at most
/// half a pixel from the source side scaled by the same factor.
pub proof fn lemma_fit_keeps_aspect(tw: int, th: int, sw: int, sh: int)
    requires
        target_dims_ok(tw, th),
        source_dims_ok(sw, sh),
    ensures
        ({
            let (iw, ih) = resize_dims(tw, th, sw, sh);
            &&& iw >= tw
            &&& ih >= th
            &&& (ih == th && 2 * (iw * sh - sw * th) <= sh && 2 * (sw * th - iw * sh) <= sh) || (iw
                == tw && 2 * (ih * sw - sh * tw) <= sw && 2 * (sh * tw - ih * sw) <= sw)
        }),
{
    if tw * sh < sw * th {
        assert(sw * th > tw * sh && sw * th >= 0) by (nonlinear_arith)
            requires tw * sh < sw * th, sw >= 1, th >= 1;
        lemma_round_div_bounds(sw * th, sh, tw);
    } else {
        assert(sh * tw >= th * sw && sh * tw >= 0) by (nonlinear_arith)
            requires tw * sh >= sw * th, sh >= 1, tw >= 1;
        if sh * tw == th * sw {
            assert(round_div(sh * tw, sw) == th) by (nonlinear_arith)
                requires sh * tw == th * sw, sw >= 1;
            assert(th * sw == sh * tw);
        } else {
            lemma_round_div_bounds(sh * tw, sw, th);
        }
    }
}

/// Given target dimensions and source dimensions, the dimensions to which the
/// source is resized so that one axis meets the target exactly and the other
/// keeps the source's aspect ratio (and is at least the target's).
pub fn constrained_resize_dims(target: (u32, u32), orig: (u32, u32)) -> (r: (u32, u32))
    requires
        target_dims_ok(target.0 as int, target.1 as int),
        source_dims_ok(orig.0 as int, orig.1 as int),
    ensures
        (r.0 as int, r.1 as int) == resize_dims(
            target.0 as int,
            target.1 as int,
            orig.0 as int,
            orig.1 as int,
        ),
        r.0 >= target.0,
        r.1 >= target.1,
{
    let tw = target.0 as u64;
    let th = target.1 as u64;
    let sw = orig.0 as u64;
    let sh = orig.1 as u64;
    assert(tw * sh <= 4096 * 32768 && sw * th <= 4096 * 32768) by (nonlinear_arith)
        requires 1 <= tw <= 4096, 1 <= th <= 4096, 1 <= sw <= 32768, 1 <= sh <= 32768;
    if tw * sh < sw * th {
        proof {
            lemma_round_div_bounds(sw * th, sh as int, tw as int);
        }
        let w = (2 * (sw * th) + sh) / (2 * sh);
        (w as u32, target.1)
    } else {
        proof {
            assert(sh * tw >= th * sw) by (nonlinear_arith)
                requires tw * sh >= sw * th;
            if sh * tw == th * sw {
                assert(round_div(sh * tw, sw as int) == th) by (nonlinear_arith)
                    requires sh * tw == th * sw, sw >= 1;
                assert(sh * tw <= 4096 * 32768);
            } else {
                lemma_round_div_bounds(sh * tw, sw as int, th as int);
            }
        }
        let h = (2 * (sh * tw) + sw) / (2 * sw);
        (target.0, h as u32)
    }
}


/// Top left corner, inside an `iw`×`ih` picture, of the `cw`×`ch` rectangle kept by the crop.
pub open spec fn crop_origin(anchor: CropAnchor, iw: int, ih: int, cw: int, ch: int) -> (int, int) {
    match anchor {
        CropAnchor::Center => ((iw - cw) / 2, (ih - ch) / 2),
        CropAnchor::TopLeft => (0, 0),
    }
}

/// Byte `t` of the `cw`×`ch` RGB rectangle whose top left corner is `(x0, y0)`
/// in an RGB picture `iw` pixels wide: channel `t % 3` of pixel `(x, y)`
/// comes from pixel `(x0 + x, y0 + y)`.
pub open spec fn crop_source(t: int, iw: int, x0: int, y0: int, cw: int) -> int {
    let k = t / 3;
    ((y0 + k / cw) * iw + (x0 + k % cw)) * 3 + t % 3
}

pub open spec fn cropped(px: Seq<u8>, iw: int, x0: int, y0: int, cw: int, ch: int) -> Seq<u8> {
    Seq::new((3 * cw * ch) as nat, |t: int| px[crop_source(t, iw, x0, y0, cw)])
}

proof fn lemma_crop_source_in_bounds(t: int, iw: int, ih: int, x0: int, y0: int, cw: int, ch: int)
    requires
        0 <= t < 3 * cw * ch,
        cw >= 1,
        0 <= x0,
        x0 + cw <= iw,
        0 <= y0,
        y0 + ch <= ih,
    ensures
        0 <= crop_source(t, iw, x0, y0, cw) < 3 * iw * ih,
        0 <= (y0 + (t / 3) / cw) * iw + (x0 + (t / 3) % cw) < iw * ih,
        0 <= (y0 + (t / 3) / cw) * iw,
        0 <= (t / 3) / cw < ch,
        0 <= (t / 3) % cw < cw,
{
    let k = t / 3;
    assert(0 <= k < cw * ch) by (nonlinear_arith)
        requires 0 <= t < 3 * cw * ch, k == t / 3;
    lemma_split_index(k, cw, ch);
    lemma_cell_in_grid(x0 + k % cw, y0 + k / cw, iw, ih);
    let c = (y0 + k / cw) * iw + (x0 + k % cw);
    assert(0 <= c * 3 + t % 3 < 3 * iw * ih) by (nonlinear_arith)
        requires 0 <= c < iw * ih, 0 <= t % 3 < 3;
    assert(0 <= (y0 + k / cw) * iw) by (nonlinear_arith)
        requires 0 <= y0 + k / cw, 0 <= iw;
}

/// The `cw`×`ch` rectangle with top left corner `(x0, y0)` of an RGB picture
/// `iw`×`ih`.
pub fn crop_rgb(px: &Vec<u8>, iw: u32, ih: u32, x0: u32, y0: u32, cw: u32, ch: u32) -> (r: Vec<u8>)
    requires
        px@.len() == 3 * iw * ih,
        1 <= cw,
        x0 + cw <= iw,
        y0 + ch <= ih,
        3 * cw * ch <= usize::MAX,
    ensures
        r@ == cropped(px@, iw as int, x0 as int, y0 as int, cw as int, ch as int),
{
    proof {
        assert(cw * ch <= 3 * cw * ch && 3 * cw * ch == 3 * (cw * ch)) by (nonlinear_arith);
        assert(iw * ih <= 3 * iw * ih) by (nonlinear_arith);
    }
    let plen = px.len();
    let n: usize = 3 * (cw as usize * ch as usize);
    let mut out: Vec<u8> = Vec::with_capacity(n);
    let mut t: usize = 0;
    while t < n
        invariant
            n == 3 * cw * ch,
            t <= n,
            px@.len() == 3 * iw * ih,
            plen == px@.len(),
            iw * ih <= plen,
            1 <= cw,
            x0 + cw <= iw,
            y0 + ch <= ih,
            out@.len() == t,
            forall|j: int| 0 <= j < t ==> out@[j] == px@[crop_source(j, iw as int, x0 as int, y0 as int, cw as int)],
        decreases n - t,
    {
        proof {
            lemma_crop_source_in_bounds(t as int, iw as int, ih as int, x0 as int, y0 as int, cw as int, ch as int);
        }
        let k = t / 3;
        let c = t % 3;
        let cwu = cw as usize;
        let yy = y0 as usize + k / cwu;
        assert(yy * iw <= iw * ih);
        let row = yy * iw as usize;
        let cell = row + (x0 as usize + k % cwu);
        let src = cell * 3 + c;
        out.push(px[src]);
        t = t + 1;
    }
    proof {
        assert(out@ =~= cropped(px@, iw as int, x0 as int, y0 as int, cw as int, ch as int));
    }
    out
}

/// Dimensions of a `w`×`h` picture after rotation.
pub open spec fn rotated_dims(w: int, h: int, rot: Rotation) -> (int, int) {
    if quarter_turn(rot) {
        (h, w)
    } else {
        (w, h)
    }
}

/// Panel position `(x, y)` of the `k`-th pixel of a `pw`×`ph` panel in scan order.
pub open spec fn scan_position(k: int, pw: int, ph: int, order: ScanOrder) -> (int, int) {
    match order {
        ScanOrder::RowMajor => (k % pw, k / pw),
        ScanOrder::ColumnMajor => (k / ph, k % ph),
    }
}

/// Index, in a `w`×`h` picture, of the pixel that a clockwise rotation by
/// `rot` brings to position `(x, y)`.
pub open spec fn unrotated_index(x: int, y: int, w: int, h: int, rot: Rotation) -> int {
    match rot {
        Rotation::Deg0 => y * w + x,
        Rotation::Deg90 => (h - 1 - x) * w + y,
        Rotation::Deg180 => (h - 1 - y) * w + (w - 1 - x),
        Rotation::Deg270 => x * w + (w - 1 - y),
    }
}

/// Index, in a `w`×`h` picture, of the pixel that comes `k`-th in the frame
/// once the picture is rotated by `rot` and laid out in `order`.
pub open spec fn arranged_source(k: int, w: int, h: int, rot: Rotation, order: ScanOrder) -> int {
    let (pw, ph) = rotated_dims(w, h, rot);
    let (x, y) = scan_position(k, pw, ph, order);
    unrotated_index(x, y, w, h, rot)
}

pub open spec fn arranged<T>(px: Seq<T>, w: int, h: int, rot: Rotation, order: ScanOrder) -> Seq<T> {
    Seq::new((w * h) as nat, |k: int| px[arranged_source(k, w, h, rot, order)])
}

proof fn lemma_arranged_source_in_bounds(k: int, w: int, h: int, rot: Rotation, order: ScanOrder)
    requires
        0 <= k < w * h,
        w >= 1,
        h >= 1,
    ensures
        0 <= arranged_source(k, w, h, rot, order) < w * h,
        ({
            let (pw, ph) = rotated_dims(w, h, rot);
            let (x, y) = scan_position(k, pw, ph, order);
            0 <= x < pw && 0 <= y < ph
        }),
{
    let (pw, ph) = rotated_dims(w, h, rot);
    assert(pw * ph == w * h) by (nonlinear_arith)
        requires (pw == w && ph == h) || (pw == h && ph == w);
    match order {
        ScanOrder::RowMajor => {
            lemma_split_index(k, pw, ph);
        },
        ScanOrder::ColumnMajor => {
            assert(k < ph * pw) by (nonlinear_arith)
                requires k < pw * ph;
            lemma_split_index(k, ph, pw);
        },
    }
    let (x, y) = scan_position(k, pw, ph, order);
    assert(0 <= x < pw && 0 <= y < ph);
    match rot {
        Rotation::Deg0 => lemma_cell_in_grid(x, y, w, h),
        Rotation::Deg90 => lemma_cell_in_grid(y, h - 1 - x, w, h),
        Rotation::Deg180 => lemma_cell_in_grid(w - 1 - x, h - 1 - y, w, h),
        Rotation::Deg270 => lemma_cell_in_grid(w - 1 - y, x, w, h),
    }
}

/// The pixels of a `w`×`h` picture rotated clockwise by `rot` and laid out
/// in `order` on the rotated panel.
pub fn arrange<T: Copy>(px: &Vec<T>, w: u32, h: u32, rot: Rotation, order: ScanOrder) -> (r: Vec<T>)
    requires
        px@.len() == w * h,
        w >= 1,
        h >= 1,
    ensures
        r@ == arranged(px@, w as int, h as int, rot, order),
{
    let n: usize = px.len();
    let wu = w as usize;
    let hu = h as usize;
    let (pw, ph): (usize, usize) = match rot {
        Rotation::Deg90 | Rotation::Deg270 => (hu, wu),
        _ => (wu, hu),
    };
    let mut out: Vec<T> = Vec::with_capacity(n);
    let mut k: usize = 0;
    while k < n
        invariant
            n == w * h,
            px@.len() == n,
            w >= 1,
            h >= 1,
            wu == w,
            hu == h,
            (pw as int, ph as int) == rotated_dims(w as int, h as int, rot),
            k <= n,
            out@.len() == k,
            forall|j: int| 0 <= j < k ==> out@[j] == px@[arranged_source(j, w as int, h as int, rot, order)],
        decreases n - k,
    {
        proof {
            lemma_arranged_source_in_bounds(k as int, w as int, h as int, rot, order);
        }
        let (x, y): (usize, usize) = match order {
            ScanOrder::RowMajor => (k % pw, k / pw),
            ScanOrder::ColumnMajor => (k / ph, k % ph),
        };
        let src: usize = match rot {
            Rotation::Deg0 => y * wu + x,
            Rotation::Deg90 => (hu - 1 - x) * wu + y,
            Rotation::Deg180 => (hu - 1 - y) * wu + (wu - 1 - x),
            Rotation::Deg270 => x * wu + (wu - 1 - y),
        };
        out.push(px[src]);
        k = k + 1;
    }
    proof {
        assert(out@ =~= arranged(px@, w as int, h as int, rot, order));
    }
    out
}


/// The pixels that a Gaussian resampling of the `sw`×`sh` RGB picture `rgb`
/// to `nw`×`nh` yields; they depend on these arguments alone.
pub uninterp spec fn gaussian_resized(rgb: Seq<u8>, sw: nat, sh: nat, nw: nat, nh: nat) -> Seq<u8>;

/// Relies on `image::imageops::resize` with `FilterType::Gaussian`, which
/// returns an `nw`×`nh` image computed from the source pixels alone.
#[verifier::external_body]
fn resize_gaussian(rgb: &Vec<u8>, sw: u32, sh: u32, nw: u32, nh: u32) -> (r: Vec<u8>)
    requires
        rgb@.len() == 3 * sw * sh,
        sw >= 1,
        sh >= 1,
        nw >= 1,
        nh >= 1,
    ensures
        r@ == gaussian_resized(rgb@, sw as nat, sh as nat, nw as nat, nh as nat),
        r@.len() == 3 * nw * nh,
{
    let src = image::ImageBuffer::<image::Rgb<u8>, &[u8]>::from_raw(sw, sh, rgb.as_slice()).unwrap();
    image::imageops::resize(&src, nw, nh, image::imageops::FilterType::Gaussian).into_raw()
}

/// The `cw`×`ch` RGB picture made from an `sw`×`sh` one: resized so that it
/// covers the target with its aspect ratio kept, then cropped at `anchor`.
pub open spec fn fitted_rgb(px: Seq<u8>, sw: int, sh: int, cw: int, ch: int, anchor: CropAnchor) -> Seq<u8> {
    let (iw, ih) = resize_dims(cw, ch, sw, sh);
    let (x0, y0) = crop_origin(anchor, iw, ih, cw, ch);
    cropped(gaussian_resized(px, sw as nat, sh as nat, iw as nat, ih as nat), iw, x0, y0, cw, ch)
}

/// Resizes `img` so that it covers `w`×`h` with its aspect ratio kept, and
/// cuts the `w`×`h` rectangle at `anchor` out of the result.
pub fn resize_crop(img: &RgbImage, w: u32, h: u32, anchor: CropAnchor) -> (r: RgbImage)
    requires
        img.wf(),
        source_dims_ok(img.width as int, img.height as int),
        target_dims_ok(w as int, h as int),
    ensures
        r.wf(),
        r.width == w,
        r.height == h,
        r.data@ == fitted_rgb(img.data@, img.width as int, img.height as int, w as int, h as int, anchor),
{
    let (iw, ih) = constrained_resize_dims((w, h), (img.width, img.height));
    let resized = resize_gaussian(&img.data, img.width, img.height, iw, ih);
    let (x0, y0): (u32, u32) = match anchor {
        CropAnchor::Center => ((iw - w) / 2, (ih - h) / 2),
        CropAnchor::TopLeft => (0, 0),
    };
    proof {
        assert(3 * w * h <= 3 * 4096 * 4096) by (nonlinear_arith)
            requires 1 <= w <= 4096, 1 <= h <= 4096;
    }
    let data = crop_rgb(&resized, iw, ih, x0, y0, w, h);
    RgbImage { width: w, height: h, data }
}

} // verus!
