use std::error::Error;

use svg2pdf::usvg::{self, Tree};
use svg2pdf::{to_chunk, to_pdf, Binary32, ConversionError, ConversionOptions, PageOptions};

fn test_tree() -> Result<Tree, usvg::Error> {
    Tree::from_str(
        r#"<svg xmlns="http://www.w3.org/2000/svg" width="1" height="1"/>"#,
        &usvg::Options::default(),
    )
}

fn single(value: f32) -> Binary32 {
    Binary32 { bits: value.to_bits() }
}

#[test]
fn to_pdf_rejects_invalid_dpi() -> Result<(), Box<dyn Error>> {
    let tree = test_tree()?;

    for dpi in [0.0, -1.0, f32::NAN, f32::INFINITY] {
        let dpi = single(dpi);
        let result = to_pdf(&tree, ConversionOptions::default(), PageOptions { dpi });
        assert!(matches!(result, Err(ConversionError::InvalidDpi)));
    }
    Ok(())
}

#[test]
fn conversion_rejects_invalid_raster_scale() -> Result<(), Box<dyn Error>> {
    let tree = test_tree()?;

    for raster_scale in [0.0, -1.0, f32::NAN, f32::INFINITY] {
        let raster_scale = single(raster_scale);
        let options = ConversionOptions { raster_scale, ..ConversionOptions::default() };
        let result = to_chunk(&tree, options);
        assert!(matches!(result, Err(ConversionError::InvalidRasterScale)));
    }
    Ok(())
}

#[test]
fn raster_scale_is_reported_before_dpi() -> Result<(), Box<dyn Error>> {
    let tree = test_tree()?;
    let options =
        ConversionOptions { raster_scale: single(-0.0), ..ConversionOptions::default() };
    let result = to_pdf(&tree, options, PageOptions { dpi: single(-0.0) });
    assert!(matches!(result, Err(ConversionError::InvalidRasterScale)));
    Ok(())
}

#[test]
fn extreme_settings_are_accepted() -> Result<(), Box<dyn Error>> {
    let tree = test_tree()?;
    for value in [f32::from_bits(1), f32::MIN_POSITIVE, 0.5, 300.0, f32::MAX] {
        let options =
            ConversionOptions { raster_scale: single(value), ..ConversionOptions::default() };
        assert!(to_chunk(&tree, options).is_ok());
        assert!(to_pdf(&tree, options, PageOptions { dpi: single(value) }).is_ok());
    }
    for value in [f32::NEG_INFINITY, f32::MIN, -f32::from_bits(1), -f32::NAN] {
        assert!(PageOptions { dpi: single(value) }.validate().is_err());
    }
    Ok(())
}

#[test]
fn defaults_are_the_documented_ones() {
    let options = ConversionOptions::default();
    assert!(options.compress);
    assert_eq!(options.raster_scale, single(1.5));
    assert!(options.embed_text);
    assert!(!options.pdfa);
    assert!(options.validate().is_ok());
    assert_eq!(PageOptions::default().dpi, single(72.0));
    assert!(PageOptions::default().validate().is_ok());
}

#[test]
fn errors_have_messages() {
    let id = fontdb::ID::dummy();
    let expected = [
        (ConversionError::InvalidImage, "An unknown type of image appears in the SVG."),
        (
            ConversionError::MissingGlyphs,
            "A piece of text could not be displayed with any font.",
        ),
        (ConversionError::TooMuchNesting, "The SVG's nesting depth is too high."),
        (
            ConversionError::InvalidDpi,
            "The page DPI must be finite and greater than zero.",
        ),
        (
            ConversionError::InvalidRasterScale,
            "The filter raster scale must be finite and greater than zero.",
        ),
        (
            ConversionError::FilterRegionTooLarge,
            "A filter region exceeds the rasterization pixel limit.",
        ),
        (
            ConversionError::UnknownError,
            "An unknown error occurred during the conversion. This could indicate a bug in svg2pdf",
        ),
        (ConversionError::SubsetError(id), "An error occurred while subsetting a font."),
        (ConversionError::InvalidFont(id), "An error occurred while reading a font."),
    ];
    for (error, message) in expected {
        assert_eq!(error.message(), message);
    }
}
