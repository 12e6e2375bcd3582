//! Convert SVG files to PDFs.
//!
//! This crate allows to convert static (i.e. non-interactive) SVG files to
//! either standalone PDF files or Form XObjects that can be embedded in another
//! PDF file and used just like images.
//!
//! It holds the rules of a conversion: which settings are accepted, how large
//! the page and the temporary images are, what the file holds, and which error
//! ends a conversion. Single precision numbers are held by their bits.

pub mod binary32;
pub mod conversion;
pub mod error;
pub mod laws;
pub mod options;
pub mod pdf;
pub mod render;
mod rounding;
pub mod size;
pub mod svg;

pub use binary32::Binary32;
pub use conversion::{to_chunk, to_pdf};
pub use error::ConversionError;
pub use options::{ConversionOptions, PageOptions};
pub use size::Size;
/// The SVG parser and tree representation used by this crate.
///
/// Re-exporting `usvg` ensures callers can construct a compatible [`usvg::Tree`]
/// without depending on a potentially incompatible version themselves.
pub use usvg;
