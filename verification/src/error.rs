//! The errors of a conversion.

use vstd::prelude::*;

verus! {

/// The number by which a font database knows a font.
#[verifier::external_type_specification]
#[verifier::external_body]
pub struct ExFontId(fontdb::ID);

/// An error that can occur during conversion.
#[derive(Copy, Clone, Debug)]
pub enum ConversionError {
    /// The SVG contains an invalid or unsupported embedded image.
    InvalidImage,
    /// Text shaping produced a `.notdef` glyph while PDF/A processing was enabled.
    MissingGlyphs,
    /// Converting the SVG would exceed PDF's supported graphics-state nesting depth.
    TooMuchNesting,
    /// The configured page DPI is not finite and greater than zero.
    InvalidDpi,
    /// The configured filter raster scale is not finite and greater than zero.
    InvalidRasterScale,
    /// A filter would require a temporary raster image larger than 16,777,216 pixels.
    FilterRegionTooLarge,
    /// An internal conversion invariant was violated.
    ///
    /// Receiving this error can indicate a bug in `svg2pdf`.
    UnknownError,
    /// The identified font could not be subset for embedding.
    SubsetError(fontdb::ID),
    /// The identified font could not be parsed.
    InvalidFont(fontdb::ID),
}

impl ConversionError {
    /// What a user is told.
    pub open spec fn text(self) -> Seq<char> {
        match self {
            Self::InvalidImage => "An unknown type of image appears in the SVG."@,
            Self::MissingGlyphs => "A piece of text could not be displayed with any font."@,
            Self::TooMuchNesting => "The SVG's nesting depth is too high."@,
            Self::InvalidDpi => "The page DPI must be finite and greater than zero."@,
            Self::InvalidRasterScale =>
                "The filter raster scale must be finite and greater than zero."@,
            Self::FilterRegionTooLarge =>
                "A filter region exceeds the rasterization pixel limit."@,
            Self::UnknownError =>
                "An unknown error occurred during the conversion. This could indicate a bug in svg2pdf"@,
            Self::SubsetError(_) => "An error occurred while subsetting a font."@,
            Self::InvalidFont(_) => "An error occurred while reading a font."@,
        }
    }

    /// The message for a user.
    pub fn message(self) -> (message: &'static str)
        ensures
            message@ == self.text(),
    {
        match self {
            Self::InvalidImage => "An unknown type of image appears in the SVG.",
            Self::MissingGlyphs => "A piece of text could not be displayed with any font.",
            Self::TooMuchNesting => "The SVG's nesting depth is too high.",
            Self::InvalidDpi => "The page DPI must be finite and greater than zero.",
            Self::InvalidRasterScale =>
                "The filter raster scale must be finite and greater than zero.",
            Self::FilterRegionTooLarge =>
                "A filter region exceeds the rasterization pixel limit.",
            Self::UnknownError =>
                "An unknown error occurred during the conversion. This could indicate a bug in svg2pdf",
            Self::SubsetError(_) => "An error occurred while subsetting a font.",
            Self::InvalidFont(_) => "An error occurred while reading a font.",
        }
    }
}

} // verus!
