use vstd::prelude::*;

verus! {

/// Rec. 601 luminance of an RGB pixel, rounded to the nearest integer.
pub open spec fn luma(r: int, g: int, b: int) -> int {
    (299 * r + 587 * g + 114 * b + 500) / 1000
}

/// One luminance byte for each pixel of a packed RGB buffer.
pub open spec fn grayscale_of(rgb: Seq<u8>) -> Seq<u8> {
    Seq::new(
        rgb.len() / 3,
        |k: int| luma(rgb[3 * k] as int, rgb[3 * k + 1] as int, rgb[3 * k + 2] as int) as u8,
    )
}

pub open spec fn clamp_byte(v: int) -> int {
    if v < 0 {
        0
    } else if v > 255 {
        255
    } else {
        v
    }
}

/// `n / d` rounded to the nearest integer, halves away from zero (`d > 0`).
pub open spec fn round_half_away(n: int, d: int) -> int {
    if n >= 0 {
        (2 * n + d) / (2 * d)
    } else {
        -((-2 * n + d) / (2 * d))
    }
}

/// A luminance value after adding the brightness offset `b`.
pub open spec fn brightened(p: int, b: int) -> int {
    clamp_byte(p + b)
}

/// A luminance value after the contrast stretch with gain `c`:
/// `clamp(round(f * (p - 128) + 128))` where
/// `f = 259 * (c + 255) / (255 * (259 - c))`.
pub open spec fn stretched(p: int, c: int) -> int {
    clamp_byte(
        round_half_away(
            259 * (c + 255) * (p - 128) + 128 * 255 * (259 - c),
            255 * (259 - c),
        ),
    )
}

/// Converts a packed RGB buffer to luminance.
pub fn grayscale(rgb: &Vec<u8>) -> (r: Vec<u8>)
    requires
        rgb@.len() % 3 == 0,
    ensures
        r@ == grayscale_of(rgb@),
{
    let len = rgb.len();
    let n: usize = len / 3;
    let mut out: Vec<u8> = Vec::with_capacity(n);
    let mut k: usize = 0;
    while k < n
        invariant
            len == rgb@.len(),
            n == rgb@.len() / 3,
            rgb@.len() % 3 == 0,
            k <= n,
            out@.len() == k,
            forall|j: int| 0 <= j < k ==> out@[j] == grayscale_of(rgb@)[j],
        decreases n - k,
    {
        assert(3 * k + 2 < rgb@.len()) by (nonlinear_arith)
            requires k < n, n == rgb@.len() / 3, rgb@.len() % 3 == 0;
        let r = rgb[3 * k] as u32;
        let g = rgb[3 * k + 1] as u32;
        let b = rgb[3 * k + 2] as u32;
        let y = (299 * r + 587 * g + 114 * b + 500) / 1000;
        out.push(y as u8);
        k = k + 1;
    }
    proof {
        assert(out@ =~= grayscale_of(rgb@));
    }
    out
}

/// Adds `b` to every luminance value, clamping to `0..=255`.
pub fn brighten(px: &mut Vec<u8>, b: i32)
    ensures
        final(px)@.len() == old(px)@.len(),
        forall|i: int|
            0 <= i < old(px)@.len() ==> final(px)@[i] == brightened(old(px)@[i] as int, b as int),
{
    let n = px.len();
    let mut i: usize = 0;
    while i < n
        invariant
            n == px@.len(),
            n == old(px)@.len(),
            i <= n,
            forall|j: int| 0 <= j < i ==> px@[j] == brightened(old(px)@[j] as int, b as int),
            forall|j: int| i <= j < n ==> px@[j] == old(px)@[j],
        decreases n - i,
    {
        let v = px[i] as i64 + b as i64;
        let c: u8 = if v < 0 {
            0
        } else if v > 255 {
            255
        } else {
            v as u8
        };
        px.set(i, c);
        i = i + 1;
    }
}

/// The contrast stretch of one luminance value with gain `c`.
pub fn stretch_level(p: u8, c: i32) -> (r: u8)
    requires
        -255 <= c <= 255,
    ensures
        r == stretched(p as int, c as int),
{
    let c = c as i64;
    let q: i64 = p as i64 - 128;
    proof {
        assert(-259 * 510 * 128 <= 259 * (c + 255) * q <= 259 * 510 * 128)
            by (nonlinear_arith)
            requires -255 <= c <= 255, -128 <= q <= 127;
    }
    let n: i64 = 259 * (c + 255) * q + 128 * 255 * (259 - c);
    let d: i64 = 255 * (259 - c);
    if n < 0 {
        proof {
            assert(round_half_away(n as int, d as int) <= 0) by (nonlinear_arith)
                requires n < 0, d > 0;
        }
        0
    } else {
        let q = (2 * n + d) / (2 * d);
        if q > 255 {
            255
        } else {
            q as u8
        }
    }
}

/// Applies the contrast stretch with gain `c` to every luminance value.
pub fn stretch_contrast(px: &mut Vec<u8>, c: i32)
    requires
        -255 <= c <= 255,
    ensures
        final(px)@.len() == old(px)@.len(),
        forall|i: int|
            0 <= i < old(px)@.len() ==> final(px)@[i] == stretched(old(px)@[i] as int, c as int),
{
    let n = px.len();
    let mut i: usize = 0;
    while i < n
        invariant
            -255 <= c <= 255,
            n == px@.len(),
            n == old(px)@.len(),
            i <= n,
            forall|j: int| 0 <= j < i ==> px@[j] == stretched(old(px)@[j] as int, c as int),
            forall|j: int| i <= j < n ==> px@[j] == old(px)@[j],
        decreases n - i,
    {
        let v = stretch_level(px[i], c);
        px.set(i, v);
        i = i + 1;
    }
}

proof fn lemma_div_monotone(a: int, b: int, c: int, e: int)
    requires
        b > 0,
        e > 0,
        a * e <= c * b,
    ensures
        a / b <= c / e,
{
    let q = a / b;
    assert(q * b <= a) by (nonlinear_arith)
        requires q == a / b, b > 0;
    assert(q * b * e <= c * b) by (nonlinear_arith)
        requires q * b <= a, e > 0, a * e <= c * b;
    assert(q * e <= c) by (nonlinear_arith)
        requires q * b * e <= c * b, b > 0;
    assert(q <= c / e) by (nonlinear_arith)
        requires q * e <= c, e > 0;
}

proof fn lemma_round_half_away_monotone(n1: int, d1: int, n2: int, d2: int)
    requires
        d1 > 0,
        d2 > 0,
        n1 * d2 <= n2 * d1,
    ensures
        round_half_away(n1, d1) <= round_half_away(n2, d2),
{
    if n1 >= 0 && n2 >= 0 {
        assert((2 * n1 + d1) * (2 * d2) <= (2 * n2 + d2) * (2 * d1)) by (nonlinear_arith)
            requires n1 * d2 <= n2 * d1;
        lemma_div_monotone(2 * n1 + d1, 2 * d1, 2 * n2 + d2, 2 * d2);
    } else if n1 < 0 && n2 < 0 {
        assert((-2 * n2 + d2) * (2 * d1) <= (-2 * n1 + d1) * (2 * d2)) by (nonlinear_arith)
            requires n1 * d2 <= n2 * d1;
        lemma_div_monotone(-2 * n2 + d2, 2 * d2, -2 * n1 + d1, 2 * d1);
    } else if n1 < 0 {
        assert(round_half_away(n1, d1) <= 0) by (nonlinear_arith)
            requires n1 < 0, d1 > 0;
        assert(round_half_away(n2, d2) >= 0) by (nonlinear_arith)
            requires n2 >= 0, d2 > 0;
    } else {
        assert(n1 * d2 >= 0 && n2 * d1 < 0) by (nonlinear_arith)
            requires n1 >= 0, n2 < 0, d1 > 0, d2 > 0;
    }
}

/// A larger contrast gain moves every luminance value at least as far from
/// mid-grey: values above 128 do not get darker and values below 128 do
/// not get lighter.
pub proof fn lemma_stretch_monotone_in_gain(p: int, c1: int, c2: int)
    requires
        0 <= p <= 255,
        -255 <= c1 <= c2 <= 255,
    ensures
        p >= 128 ==> stretched(p, c1) <= stretched(p, c2),
        p <= 128 ==> stretched(p, c2) <= stretched(p, c1),
{
    let k = p - 128;
    let n1 = 259 * (c1 + 255) * k + 128 * 255 * (259 - c1);
    let d1 = 255 * (259 - c1);
    let n2 = 259 * (c2 + 255) * k + 128 * 255 * (259 - c2);
    let d2 = 255 * (259 - c2);
    assert(n1 * d2 - n2 * d1 == 255 * 259 * k * 514 * (c1 - c2)) by (nonlinear_arith)
        requires
            n1 == 259 * (c1 + 255) * k + 128 * 255 * (259 - c1),
            d1 == 255 * (259 - c1),
            n2 == 259 * (c2 + 255) * k + 128 * 255 * (259 - c2),
            d2 == 255 * (259 - c2);
    if p >= 128 {
        assert(255 * 259 * k * 514 * (c1 - c2) <= 0) by (nonlinear_arith)
            requires k >= 0, c1 <= c2;
        lemma_round_half_away_monotone(n1, d1, n2, d2);
    }
    if p <= 128 {
        assert(255 * 259 * k * 514 * (c1 - c2) >= 0) by (nonlinear_arith)
            requires k <= 0, c1 <= c2;
        lemma_round_half_away_monotone(n2, d2, n1, d1);
    }
}

/// What Floyd–Steinberg error diffusion to black and white makes of a
/// luminance picture `width` pixels wide; it depends on these arguments alone.
pub uninterp spec fn bilevel_dithered(luma: Seq<u8>, width: nat) -> Seq<u8>;

/// Relies on `image::imageops::colorops::dither` with the `BiLevel` colour
/// map: it keeps the picture's size and maps every pixel to 0 or 255.
/// It indexes a pixel to the right of the first column, so it needs two columns.
#[verifier::external_body]
pub(crate) fn dither_bilevel(luma: &mut Vec<u8>, width: u32, height: u32)
    requires
        old(luma)@.len() == width * height,
        width >= 2,
        height >= 1,
    ensures
        final(luma)@ == bilevel_dithered(old(luma)@, width as nat),
        final(luma)@.len() == old(luma)@.len(),
        forall|i: int| 0 <= i < final(luma)@.len() ==> final(luma)@[i] == 0 || final(luma)@[i] == 255,
{
    let buf = std::mem::take(luma);
    let mut img = image::GrayImage::from_raw(width, height, buf).unwrap();
    image::imageops::colorops::dither(&mut img, &image::imageops::colorops::BiLevel);
    *luma = img.into_raw();
}

} // verus!
