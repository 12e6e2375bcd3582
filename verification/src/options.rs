//! The settings of a conversion.

use vstd::prelude::*;

use crate::binary32::Binary32;
use crate::error::ConversionError;

verus! {

/// The bits of 72.0, the number of printer's points in an inch.
pub const POINTS_PER_INCH_BITS: u32 = 0x4290_0000;

/// The bits of 1.5.
pub const DEFAULT_RASTER_SCALE_BITS: u32 = 0x3fc0_0000;

/// Page-level options used by [`to_pdf`](crate::to_pdf).
///
/// These options do not apply to [`to_chunk`](crate::to_chunk), which creates a
/// reusable Form XObject rather than a standalone page.
#[derive(Copy, Clone)]
pub struct PageOptions {
    /// The DPI that should be assumed for the conversion to PDF.
    ///
    /// Must be finite and greater than zero.
    ///
    /// _Default:_ `72.0`.
    pub dpi: Binary32,
}

impl PageOptions {
    /// The DPI is finite and greater than zero.
    pub open spec fn is_valid(self) -> bool {
        self.dpi.is_positive_finite()
    }

    /// Reports a DPI that is not finite and greater than zero.
    pub fn validate(self) -> (result: Result<(), ConversionError>)
        ensures
            result == if self.is_valid() { Ok(()) } else { Err(ConversionError::InvalidDpi) },
    {
        if !self.dpi.is_finite_above_zero() {
            return Err(ConversionError::InvalidDpi);
        }
        Ok(())
    }
}

impl Default for PageOptions {
    fn default() -> (options: Self)
        ensures
            options.dpi.bits == POINTS_PER_INCH_BITS,
            options.is_valid(),
    {
        PageOptions { dpi: Binary32 { bits: POINTS_PER_INCH_BITS } }
    }
}

/// Options for the PDF conversion.
#[derive(Copy, Clone)]
pub struct ConversionOptions {
    /// Whether the content streams should be compressed.
    ///
    /// The smaller PDFs generated by this are generally more practical, but it
    /// might increase run-time a bit.
    ///
    /// _Default:_ `true`.
    pub compress: bool,
    /// How much raster images of rasterized effects should be scaled up.
    ///
    /// Higher values will lead to better quality, but will increase the size of
    /// the pdf. Must be finite and greater than zero. Filter rasterization is
    /// rejected if the resulting temporary image exceeds the pixel limit.
    ///
    /// _Default:_ `1.5`.
    pub raster_scale: Binary32,
    /// Whether text should be embedded as actual selectable text inside
    /// the PDF. If this option is disabled, text will be converted into paths
    /// before rendering.
    ///
    /// _Default:_ `true`.
    pub embed_text: bool,
    /// Whether to write chunks in PDF/A-2b compliant mode.
    ///
    /// **Note:** This currently only ensures that `to_chunk` does not generate
    /// anything that is forbidden by PDF/A. It does _not_ turn the
    /// free-standing PDF generated by [`to_pdf`](crate::to_pdf) into a valid
    /// PDF/A document.
    ///
    /// _Default:_ `false`.
    pub pdfa: bool,
}

impl ConversionOptions {
    /// The raster scale is finite and greater than zero.
    pub open spec fn is_valid(self) -> bool {
        self.raster_scale.is_positive_finite()
    }

    /// Reports a raster scale that is not finite and greater than zero.
    pub fn validate(self) -> (result: Result<(), ConversionError>)
        ensures
            result == if self.is_valid() {
                Ok(())
            } else {
                Err(ConversionError::InvalidRasterScale)
            },
    {
        if !self.raster_scale.is_finite_above_zero() {
            return Err(ConversionError::InvalidRasterScale);
        }
        Ok(())
    }
}

impl Default for ConversionOptions {
    fn default() -> (options: Self)
        ensures
            options.compress,
            options.raster_scale.bits == DEFAULT_RASTER_SCALE_BITS,
            options.embed_text,
            !options.pdfa,
            options.is_valid(),
    {
        ConversionOptions {
            compress: true,
            raster_scale: Binary32 { bits: DEFAULT_RASTER_SCALE_BITS },
            embed_text: true,
            pdfa: false,
        }
    }
}

} // verus!
