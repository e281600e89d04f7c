use vstd::prelude::*;

use crate::geometry::{target_dims_ok, MAX_TARGET_SIDE};

verus! {

/// How a panel stores a pixel.
#[derive(Clone, Copy, Debug, PartialEq, Eq, Structural)]
pub enum PixelMode {
    /// One bit per pixel, black or white.
    Mono1bpp,
    /// One byte of luminance per pixel.
    Gray8,
    /// Two bytes per pixel, 5 bits red, 6 green, 5 blue, big-endian.
    Rgb565,
}

/// Order in which the panel's pixels are laid out in the frame.
#[derive(Clone, Copy, Debug, PartialEq, Eq, Structural)]
pub enum ScanOrder {
    /// Row by row, each row left to right.
    RowMajor,
    /// Column by column, each column top to bottom.
    ColumnMajor,
}

/// Which bit of a byte holds the first of its eight pixels.
#[derive(Clone, Copy, Debug, PartialEq, Eq, Structural)]
pub enum BitOrder {
    MsbFirst,
    LsbFirst,
}

/// Clockwise rotation applied to the fitted picture before it is laid out.
#[derive(Clone, Copy, Debug, PartialEq, Eq, Structural)]
pub enum Rotation {
    Deg0,
    Deg90,
    Deg180,
    Deg270,
}

/// Which part of the resized picture the crop keeps.
#[derive(Clone, Copy, Debug, PartialEq, Eq, Structural)]
pub enum CropAnchor {
    /// The middle of the picture.
    Center,
    /// The top left corner.
    TopLeft,
}

/// Why a profile cannot be built.
#[derive(Clone, Copy, Debug, PartialEq, Eq, Structural)]
pub enum ProfileError {
    /// A side is zero or larger than the largest panel side.
    BadDimensions,
    /// The contrast gain lies outside `-255..=255`.
    BadContrast,
}

/// Brightness offset applied before the contrast stretch by default.
pub const DEFAULT_BRIGHTNESS: i32 = 20;

/// Contrast gain applied by default.
pub const DEFAULT_CONTRAST: i32 = 100;

/// Everything that decides how a source picture becomes a frame for one panel.
#[derive(Clone, Copy, Debug, PartialEq, Eq, Structural)]
pub struct TargetProfile {
    /// Panel width in pixels.
    pub width: u32,
    /// Panel height in pixels.
    pub height: u32,
    pub mode: PixelMode,
    /// Offset added to every luminance value (monochrome panels only).
    pub brightness: i32,
    /// Contrast gain (monochrome panels only).
    pub contrast: i32,
    pub scan: ScanOrder,
    pub bit_order: BitOrder,
    pub rotation: Rotation,
    pub anchor: CropAnchor,
}

pub open spec fn contrast_ok(c: int) -> bool {
    -255 <= c <= 255
}

pub open spec fn quarter_turn(rot: Rotation) -> bool {
    rot == Rotation::Deg90 || rot == Rotation::Deg270
}

impl TargetProfile {
    /// Sides within the panel limits, at least two pixels each on a
    /// monochrome panel (error diffusion needs a right neighbour), and a
    /// contrast gain in range.
    pub open spec fn valid(&self) -> bool {
        &&& target_dims_ok(self.width as int, self.height as int)
        &&& self.mode == PixelMode::Mono1bpp ==> self.width >= 2 && self.height >= 2
        &&& contrast_ok(self.contrast as int)
    }

    pub open spec fn dims_ok(width: u32, height: u32, mode: PixelMode) -> bool {
        &&& target_dims_ok(width as int, height as int)
        &&& mode == PixelMode::Mono1bpp ==> width >= 2 && height >= 2
    }

    /// Width of the picture before rotation.
    pub open spec fn fit_width(&self) -> int {
        if quarter_turn(self.rotation) {
            self.height as int
        } else {
            self.width as int
        }
    }

    /// Height of the picture before rotation.
    pub open spec fn fit_height(&self) -> int {
        if quarter_turn(self.rotation) {
            self.width as int
        } else {
            self.height as int
        }
    }

    /// Pixels in one scan line of the frame.
    pub open spec fn line_len(&self) -> int {
        match self.scan {
            ScanOrder::RowMajor => self.width as int,
            ScanOrder::ColumnMajor => self.height as int,
        }
    }

    /// Scan lines in the frame.
    pub open spec fn line_count(&self) -> int {
        match self.scan {
            ScanOrder::RowMajor => self.height as int,
            ScanOrder::ColumnMajor => self.width as int,
        }
    }

    /// Byte length of every frame made for this profile.
    pub open spec fn panel_size(&self) -> int {
        match self.mode {
            PixelMode::Mono1bpp => ((self.line_len() + 7) / 8) * self.line_count(),
            PixelMode::Gray8 => self.width * self.height,
            PixelMode::Rgb565 => 2 * self.width * self.height,
        }
    }

    /// A profile with the default tone parameters, row-major MSB-first
    /// packing, no rotation and a centred crop.
    pub fn new(width: u32, height: u32, mode: PixelMode) -> (r: Result<TargetProfile, ProfileError>)
        ensures
            r is Err <==> !Self::dims_ok(width, height, mode),
            r is Err ==> r == Err::<TargetProfile, _>(ProfileError::BadDimensions),
            r matches Ok(p) ==> p.valid() && p == (TargetProfile {
                width,
                height,
                mode,
                brightness: DEFAULT_BRIGHTNESS,
                contrast: DEFAULT_CONTRAST,
                scan: ScanOrder::RowMajor,
                bit_order: BitOrder::MsbFirst,
                rotation: Rotation::Deg0,
                anchor: CropAnchor::Center,
            }),
    {
        if width < 1 || width > MAX_TARGET_SIDE || height < 1 || height > MAX_TARGET_SIDE {
            return Err(ProfileError::BadDimensions);
        }
        if mode == PixelMode::Mono1bpp && (width < 2 || height < 2) {
            return Err(ProfileError::BadDimensions);
        }
        Ok(
            TargetProfile {
                width,
                height,
                mode,
                brightness: DEFAULT_BRIGHTNESS,
                contrast: DEFAULT_CONTRAST,
                scan: ScanOrder::RowMajor,
                bit_order: BitOrder::MsbFirst,
                rotation: Rotation::Deg0,
                anchor: CropAnchor::Center,
            },
        )
    }

    /// Whether the profile can be handed to the pipeline.
    pub fn is_valid(&self) -> (r: bool)
        ensures
            r == self.valid(),
    {
        let mono_ok = match self.mode {
            PixelMode::Mono1bpp => self.width >= 2 && self.height >= 2,
            _ => true,
        };
        self.width >= 1 && self.width <= MAX_TARGET_SIDE && self.height >= 1 && self.height
            <= MAX_TARGET_SIDE && mono_ok
            && self.contrast >= -255 && self.contrast <= 255
    }

    /// Byte length of every frame made for this profile.
    pub fn frame_len(&self) -> (r: usize)
        requires
            self.valid(),
        ensures
            r == self.panel_size(),
    {
        let w = self.width as usize;
        let h = self.height as usize;
        proof {
            assert(w * h <= 4096 * 4096 && 2 * w <= 8192 && 2 * w * h <= 2 * 4096 * 4096)
                by (nonlinear_arith)
                requires 1 <= w <= 4096, 1 <= h <= 4096;
        }
        match self.mode {
            PixelMode::Mono1bpp => match self.scan {
                ScanOrder::RowMajor => {
                    proof {
                        assert(((w + 7) / 8) * h <= 4096 * 4096) by (nonlinear_arith)
                            requires 1 <= w <= 4096, 1 <= h <= 4096;
                    }
                    ((w + 7) / 8) * h
                },
                ScanOrder::ColumnMajor => {
                    proof {
                        assert(((h + 7) / 8) * w <= 4096 * 4096) by (nonlinear_arith)
                            requires 1 <= w <= 4096, 1 <= h <= 4096;
                    }
                    ((h + 7) / 8) * w
                },
            },
            PixelMode::Gray8 => w * h,
            PixelMode::Rgb565 => 2 * w * h,
        }
    }

    /// The same profile with another brightness offset.
    pub fn with_brightness(self, brightness: i32) -> (r: TargetProfile)
        ensures
            r == (TargetProfile { brightness, ..self }),
    {
        TargetProfile { brightness, ..self }
    }

    /// The same profile with another contrast gain, which must lie in `-255..=255`.
    pub fn with_contrast(self, contrast: i32) -> (r: Result<TargetProfile, ProfileError>)
        ensures
            r is Err <==> !contrast_ok(contrast as int),
            r is Err ==> r == Err::<TargetProfile, _>(ProfileError::BadContrast),
            r matches Ok(p) ==> p == (TargetProfile { contrast, ..self }),
    {
        if contrast < -255 || contrast > 255 {
            Err(ProfileError::BadContrast)
        } else {
            Ok(TargetProfile { contrast, ..self })
        }
    }

    /// The same profile with another frame layout.
    pub fn with_layout(self, scan: ScanOrder, bit_order: BitOrder) -> (r: TargetProfile)
        ensures
            r == (TargetProfile { scan, bit_order, ..self }),
    {
        TargetProfile { scan, bit_order, ..self }
    }

    /// The same profile with another rotation.
    pub fn with_rotation(self, rotation: Rotation) -> (r: TargetProfile)
        ensures
            r == (TargetProfile { rotation, ..self }),
    {
        TargetProfile { rotation, ..self }
    }

    /// The same profile with another crop anchor.
    pub fn with_anchor(self, anchor: CropAnchor) -> (r: TargetProfile)
        ensures
            r == (TargetProfile { anchor, ..self }),
    {
        TargetProfile { anchor, ..self }
    }
}

} // verus!
