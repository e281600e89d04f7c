use vstd::prelude::*;

use crate::decode::{
    composited, decode_failure, decode_source, decoded_rgba, ItemFailure,
};
use crate::geometry::{
    arrange, arranged, fitted_rgb, resize_crop, source_dims_ok, MAX_SOURCE_SIDE,
};
use crate::pack::{big_endian, pack_bits, packed, rgb565_words, to_rgb565, words_to_bytes};
use crate::profile::{PixelMode, Rotation, ScanOrder, TargetProfile};
use crate::raster::RgbImage;
use crate::tone::{
    bilevel_dithered, brighten, brightened, dither_bilevel, grayscale, grayscale_of,
    stretch_contrast, stretched,
};

verus! {

/// Luminance after the brightness offset `b` and then the contrast stretch with gain `c`.
pub open spec fn toned(luma: Seq<u8>, b: int, c: int) -> Seq<u8> {
    luma.map_values(|v: u8| stretched(brightened(v as int, b), c) as u8)
}

/// The frame that profile `p` makes of an `sw`×`sh` RGB source `px`.
pub open spec fn frame_of(p: TargetProfile, px: Seq<u8>, sw: int, sh: int) -> Seq<u8> {
    let fw = p.fit_width();
    let fh = p.fit_height();
    let fitted = fitted_rgb(px, sw, sh, fw, fh, p.anchor);
    match p.mode {
        PixelMode::Mono1bpp => {
            let bw = bilevel_dithered(
                toned(grayscale_of(fitted), p.brightness as int, p.contrast as int),
                fw as nat,
            );
            packed(arranged(bw, fw, fh, p.rotation, p.scan), p.line_len(), p.line_count(), p.bit_order)
        },
        PixelMode::Gray8 => arranged(grayscale_of(fitted), fw, fh, p.rotation, p.scan),
        PixelMode::Rgb565 => big_endian(arranged(rgb565_words(fitted), fw, fh, p.rotation, p.scan)),
    }
}

/// Renders a decoded source picture into the frame that profile `p` describes.
pub fn render_frame(p: &TargetProfile, src: &RgbImage) -> (r: Vec<u8>)
    requires
        p.valid(),
        src.wf(),
        source_dims_ok(src.width as int, src.height as int),
    ensures
        r@ == frame_of(*p, src.data@, src.width as int, src.height as int),
        r@.len() == p.panel_size(),
{
    let (fw, fh): (u32, u32) = match p.rotation {
        Rotation::Deg90 | Rotation::Deg270 => (p.height, p.width),
        _ => (p.width, p.height),
    };
    let fitted = resize_crop(src, fw, fh, p.anchor);
    proof {
        let m = fw * fh;
        assert(fitted.data@.len() == 3 * m) by (nonlinear_arith)
            requires fitted.data@.len() == 3 * fw * fh, m == fw * fh;
        assert(fitted.data@.len() % 3 == 0 && fitted.data@.len() / 3 == fw * fh);
        assert(fw * fh <= 4096 * 4096) by (nonlinear_arith)
            requires 1 <= fw <= 4096, 1 <= fh <= 4096;
        assert(p.width * p.height == fw * fh) by (nonlinear_arith)
            requires (fw == p.width && fh == p.height) || (fw == p.height && fh == p.width);
    }
    let (line_len, lines): (u32, u32) = match p.scan {
        ScanOrder::RowMajor => (p.width, p.height),
        ScanOrder::ColumnMajor => (p.height, p.width),
    };
    match p.mode {
        PixelMode::Mono1bpp => {
            let mut luma = grayscale(&fitted.data);
            let ghost gray = luma@;
            brighten(&mut luma, p.brightness);
            stretch_contrast(&mut luma, p.contrast);
            proof {
                assert(luma@ =~= toned(gray, p.brightness as int, p.contrast as int));
            }
            dither_bilevel(&mut luma, fw, fh);
            let laid = arrange(&luma, fw, fh, p.rotation, p.scan);
            proof {
                assert(line_len * lines == fw * fh) by (nonlinear_arith)
                    requires line_len * lines == p.width * p.height, p.width * p.height == fw * fh;
            }
            pack_bits(&laid, line_len, lines, p.bit_order)
        },
        PixelMode::Gray8 => {
            let luma = grayscale(&fitted.data);
            arrange(&luma, fw, fh, p.rotation, p.scan)
        },
        PixelMode::Rgb565 => {
            let words = to_rgb565(&fitted.data);
            let laid = arrange(&words, fw, fh, p.rotation, p.scan);
            proof {
                assert(2 * (fw * fh) == 2 * p.width * p.height) by (nonlinear_arith)
                    requires p.width * p.height == fw * fh;
            }
            words_to_bytes(&laid)
        },
    }
}

/// The frame that profile `p` makes of the encoded image `bytes`, where
/// they decode to a picture of accepted size.
pub open spec fn prepared_frame(p: TargetProfile, bytes: Seq<u8>) -> Option<Seq<u8>> {
    match decoded_rgba(bytes) {
        Some((w, h, px)) => if source_dims_ok(w as int, h as int) {
            Some(frame_of(p, composited(px), w as int, h as int))
        } else {
            None
        },
        None => None,
    }
}

/// Decodes one encoded image and renders it for profile `p`, or reports
/// why this input yields no frame.
pub fn prepare_frame(p: &TargetProfile, bytes: &Vec<u8>) -> (r: Result<Vec<u8>, ItemFailure>)
    requires
        p.valid(),
    ensures
        match decoded_rgba(bytes@) {
            None => r matches Err(k) && decode_failure(k),
            Some((w, h, px)) => if w == 0 || h == 0 {
                r == Err::<Vec<u8>, _>(ItemFailure::GeometricDegenerate)
            } else if w > MAX_SOURCE_SIDE || h > MAX_SOURCE_SIDE {
                r == Err::<Vec<u8>, _>(ItemFailure::ResourceTooLarge)
            } else {
                r matches Ok(f) && Some(f@) == prepared_frame(*p, bytes@)
            },
        },
        r matches Ok(f) ==> f@.len() == p.panel_size(),
{
    match decode_source(bytes) {
        Err(k) => Err(k),
        Ok(src) => Ok(render_frame(p, &src)),
    }
}

/// Identical inputs give identical frames: the frame a profile makes of
/// encoded bytes is a function of the profile and the bytes alone.
pub proof fn lemma_frames_deterministic(p: TargetProfile, a: Seq<u8>, b: Seq<u8>, fa: Seq<u8>, fb: Seq<u8>)
    requires
        a == b,
        prepared_frame(p, a) == Some(fa),
        prepared_frame(p, b) == Some(fb),
    ensures
        fa == fb,
{
}


/// What ends a run early. Failures of single inputs never do.
#[derive(Clone, Copy, Debug, PartialEq, Eq, Structural)]
pub enum RunError {
    /// The command line is malformed.
    Usage,
    /// The output directory is missing or cannot be written.
    OutputDirUnusable,
}

/// Process exit status of a run: 0 when it went through, even where some
/// inputs failed; 1 on a usage error; 2 when the output directory is unusable.
pub fn exit_status(outcome: Option<RunError>) -> (r: u8)
    ensures
        r == match outcome {
            None => 0u8,
            Some(RunError::Usage) => 1u8,
            Some(RunError::OutputDirUnusable) => 2u8,
        },
{
    match outcome {
        None => 0,
        Some(RunError::Usage) => 1,
        Some(RunError::OutputDirUnusable) => 2,
    }
}

} // verus!
