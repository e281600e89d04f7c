//! Host-side preparation of panel-ready bitmap frames from photographs:
//! aspect-preserving fit, tone mapping for low bit depths, packing into the
//! byte layout a display panel streams, and stable output naming.

pub mod decode;
pub mod geometry;
pub mod naming;
pub mod ordering;
pub mod pack;
pub mod pipeline;
pub mod profile;
pub mod raster;
pub mod tone;

pub use decode::{composite_on_white, decode_source, ItemFailure};
pub use geometry::{arrange, constrained_resize_dims, crop_rgb, resize_crop};
pub use naming::{file_stem, frame_extension, ordinal, output_name, output_names, sanitize};
pub use ordering::{bytes_less_eq, sort_paths};
pub use pack::{pack_bits, to_rgb565, words_to_bytes};
pub use pipeline::{exit_status, prepare_frame, render_frame, RunError};
pub use profile::{
    BitOrder, CropAnchor, PixelMode, ProfileError, Rotation, ScanOrder, TargetProfile,
    DEFAULT_BRIGHTNESS, DEFAULT_CONTRAST,
};
pub use raster::RgbImage;
pub use tone::{brighten, grayscale, stretch_contrast, stretch_level};
