use vstd::prelude::*;

use crate::geometry::MAX_SOURCE_SIDE;
use crate::raster::RgbImage;

verus! {

/// Why one input produced no frame. Inputs fail one by one; a failure never
/// stops the batch.
#[derive(Clone, Copy, Debug, PartialEq, Eq, Structural)]
pub enum ItemFailure {
    /// The file could not be read.
    UnreadableFile,
    /// The leading bytes match no known image format.
    UnknownFormat,
    /// The bytes do not form a valid image of their format.
    DecodeCorrupt,
    /// The image is larger than the pipeline accepts.
    ResourceTooLarge,
    /// The image has no pixels along some axis.
    GeometricDegenerate,
    /// The frame could not be written.
    WriteFailed,
}

#[verifier::external_type_specification]
#[verifier::external_body]
pub struct ExImageError(image::ImageError);

/// Width, height and RGBA pixels (four bytes each) of the image that the
/// encoded `bytes` hold, or `None` where they hold none; depends on the bytes alone.
pub uninterp spec fn decoded_rgba(bytes: Seq<u8>) -> Option<(nat, nat, Seq<u8>)>;

/// Relies on `image::load_from_memory`, which picks the format from the
/// leading magic bytes and decodes, and on `DynamicImage::to_rgba8`, which
/// yields four bytes for each pixel of a width×height image.
#[verifier::external_body]
fn decode_rgba(bytes: &[u8]) -> (r: Result<(u32, u32, Vec<u8>), image::ImageError>)
    ensures
        r is Ok <==> decoded_rgba(bytes@) is Some,
        r matches Ok((w, h, px)) ==> decoded_rgba(bytes@) == Some((w as nat, h as nat, px@))
            && px@.len() == 4 * w * h,
{
    match image::load_from_memory(bytes) {
        Ok(img) => {
            let rgba = img.to_rgba8();
            Ok((rgba.width(), rgba.height(), rgba.into_raw()))
        },
        Err(e) => Err(e),
    }
}

/// Failures that decoding itself can report.
pub open spec fn decode_failure(k: ItemFailure) -> bool {
    k == ItemFailure::UnknownFormat || k == ItemFailure::DecodeCorrupt || k
        == ItemFailure::ResourceTooLarge
}

/// Relies on the variants of `image::ImageError`: an unsupported format, a
/// limit that was hit, or some other failure of the decoder.
#[verifier::external_body]
fn failure_of(e: &image::ImageError) -> (r: ItemFailure)
    ensures
        decode_failure(r),
{
    match e {
        image::ImageError::Unsupported(_) => ItemFailure::UnknownFormat,
        image::ImageError::Limits(_) => ItemFailure::ResourceTooLarge,
        image::ImageError::Decoding(_) => ItemFailure::DecodeCorrupt,
        image::ImageError::Encoding(_) => ItemFailure::DecodeCorrupt,
        image::ImageError::Parameter(_) => ItemFailure::DecodeCorrupt,
        image::ImageError::IoError(_) => ItemFailure::DecodeCorrupt,
    }
}

/// Colour channel `c` with opacity `a` laid over opaque white, rounded to
/// the nearest integer.
pub open spec fn over_white(c: int, a: int) -> int {
    (c * a + 255 * (255 - a) + 127) / 255
}

/// The RGB pixels of an RGBA buffer composited against opaque white.
pub open spec fn composited(rgba: Seq<u8>) -> Seq<u8> {
    Seq::new(
        (rgba.len() / 4 * 3) as nat,
        |t: int| over_white(rgba[4 * (t / 3) + t % 3] as int, rgba[4 * (t / 3) + 3] as int) as u8,
    )
}

/// Composites an RGBA buffer against opaque white.
pub fn composite_on_white(rgba: &Vec<u8>) -> (r: Vec<u8>)
    requires
        rgba@.len() % 4 == 0,
    ensures
        r@ == composited(rgba@),
{
    let len = rgba.len();
    let n: usize = len / 4;
    let mut out: Vec<u8> = Vec::with_capacity(3 * n);
    let mut k: usize = 0;
    while k < n
        invariant
            len == rgba@.len(),
            n == rgba@.len() / 4,
            rgba@.len() % 4 == 0,
            k <= n,
            out@.len() == 3 * k,
            forall|t: int| 0 <= t < 3 * k ==> out@[t] == composited(rgba@)[t],
        decreases n - k,
    {
        assert(4 * k + 3 < rgba@.len()) by (nonlinear_arith)
            requires k < n, n == rgba@.len() / 4, rgba@.len() % 4 == 0;
        let a = rgba[4 * k + 3] as u32;
        let mut c: usize = 0;
        while c < 3
            invariant
                len == rgba@.len(),
                n == rgba@.len() / 4,
                k < n,
                4 * k + 3 < rgba@.len(),
                a == rgba@[4 * k + 3],
                c <= 3,
                out@.len() == 3 * k + c,
                forall|t: int| 0 <= t < 3 * k + c ==> out@[t] == composited(rgba@)[t],
            decreases 3 - c,
        {
            let v = rgba[4 * k + c] as u32;
            proof {
                assert(v * a + 255 * (255 - a) + 127 <= 255 * 256) by (nonlinear_arith)
                    requires v <= 255, a <= 255;
                let t = 3 * k + c;
                assert(t / 3 == k && t % 3 == c) by (nonlinear_arith)
                    requires t == 3 * k + c, c < 3;
                assert(3 * k + c < rgba@.len() / 4 * 3) by (nonlinear_arith)
                    requires k < n, n == rgba@.len() / 4, c < 3;
            }
            out.push(((v * a + 255 * (255 - a) + 127) / 255) as u8);
            c = c + 1;
        }
        k = k + 1;
    }
    proof {
        assert(out@ =~= composited(rgba@));
    }
    out
}

/// The source picture that the encoded `bytes` hold, on a white background,
/// or why there is none.
pub open spec fn decoded_source_ok(bytes: Seq<u8>, img: RgbImage) -> bool {
    match decoded_rgba(bytes) {
        Some((w, h, px)) => img.width == w && img.height == h && img.data@ == composited(px),
        None => false,
    }
}

/// Decodes an encoded image, whatever its format, into an RGB source
/// picture composited against white, within the accepted size.
pub fn decode_source(bytes: &Vec<u8>) -> (r: Result<RgbImage, ItemFailure>)
    ensures
        match decoded_rgba(bytes@) {
            None => r matches Err(k) && decode_failure(k),
            Some((w, h, px)) => if w == 0 || h == 0 {
                r == Err::<RgbImage, _>(ItemFailure::GeometricDegenerate)
            } else if w > MAX_SOURCE_SIDE || h > MAX_SOURCE_SIDE {
                r == Err::<RgbImage, _>(ItemFailure::ResourceTooLarge)
            } else {
                r matches Ok(img) && img.wf() && decoded_source_ok(bytes@, img)
            },
        },
{
    match decode_rgba(bytes.as_slice()) {
        Err(e) => Err(failure_of(&e)),
        Ok((w, h, px)) => {
            if w == 0 || h == 0 {
                Err(ItemFailure::GeometricDegenerate)
            } else if w > MAX_SOURCE_SIDE || h > MAX_SOURCE_SIDE {
                Err(ItemFailure::ResourceTooLarge)
            } else {
                proof {
                    let m = w * h;
                    assert(px@.len() == 4 * m && 3 * w * h == 3 * m) by (nonlinear_arith)
                        requires px@.len() == 4 * w * h, m == w * h;
                    assert(px@.len() % 4 == 0 && px@.len() / 4 * 3 == 3 * m);
                }
                let data = composite_on_white(&px);
                Ok(RgbImage { width: w, height: h, data })
            }
        },
    }
}

} // verus!
