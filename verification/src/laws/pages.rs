//! What holds of the settings and of the size of the page.

use usvg::Tree;
use vstd::arithmetic::power2::*;
use vstd::prelude::*;

use crate::binary32::Binary32;
use crate::conversion;
use crate::conversion::{ChunkConversion, PageLayout, PdfConversion};
use crate::error::ConversionError;
use crate::laws;
use crate::laws::numbers;
use crate::options::{ConversionOptions, PageOptions, POINTS_PER_INCH_BITS};
use crate::svg;

verus! {

/// Both settings have to be finite and above zero, and the raster scale is
/// reported first.
pub proof fn law_settings(
    tree: &Tree,
    conversion_options: ConversionOptions,
    page_options: PageOptions,
    file: Result<PdfConversion<'_>, ConversionError>,
    chunk: Result<ChunkConversion<'_>, ConversionError>,
    raster_scale: Result<(), ConversionError>,
    dpi: Result<(), ConversionError>,
)
    requires
        call_ensures(conversion::to_pdf, (tree, conversion_options, page_options), file),
        call_ensures(conversion::to_chunk, (tree, conversion_options), chunk),
        call_ensures(ConversionOptions::validate, (conversion_options,), raster_scale),
        call_ensures(PageOptions::validate, (page_options,), dpi),
    ensures
        ({
            let scale_accepted: bool = 0 < conversion_options.raster_scale.bits < 0x7f80_0000;
            let dpi_accepted: bool = 0 < page_options.dpi.bits < 0x7f80_0000;
            &&& file is Ok <==> scale_accepted && dpi_accepted
            &&& chunk is Ok <==> scale_accepted
            &&& raster_scale is Ok <==> scale_accepted
            &&& dpi is Ok <==> dpi_accepted
            &&& file matches Err(error) ==> error == if scale_accepted {
                ConversionError::InvalidDpi
            } else {
                ConversionError::InvalidRasterScale
            }
            &&& chunk matches Err(error) ==> error == ConversionError::InvalidRasterScale
            &&& raster_scale matches Err(error) ==> error == ConversionError::InvalidRasterScale
            &&& dpi matches Err(error) ==> error == ConversionError::InvalidDpi
        }),
{
}

/// A conversion keeps the SVG and the options that it was started with.
pub proof fn law_conversions_keep_their_inputs(
    tree: &Tree,
    conversion_options: ConversionOptions,
    page_options: PageOptions,
    file: PdfConversion<'_>,
    chunk: ChunkConversion<'_>,
)
    requires
        call_ensures(
            conversion::to_pdf,
            (tree, conversion_options, page_options),
            Ok::<PdfConversion<'_>, ConversionError>(file),
        ),
        call_ensures(
            conversion::to_chunk,
            (tree, conversion_options),
            Ok::<ChunkConversion<'_>, ConversionError>(chunk),
        ),
    ensures
        forall|kept: &Tree|
            call_ensures(PdfConversion::tree, (&file,), kept) ==> *kept == *tree,
        forall|kept: &Tree|
            call_ensures(ChunkConversion::tree, (&chunk,), kept) ==> *kept == *tree,
        forall|kept: ConversionOptions|
            call_ensures(PdfConversion::options, (&file,), kept) ==> kept == conversion_options,
        forall|kept: ConversionOptions|
            call_ensures(ChunkConversion::options, (&chunk,), kept) ==> kept == conversion_options,
{
}

/// The bits are those of 72 over the DPI.
pub open spec fn is_ratio(dpi: Binary32, n: int) -> bool {
    numbers::closest(
        (72 * pow2(149) * pow2(149)) as int,
        numbers::worth(dpi.bits as int),
        n,
    )
}

/// The page is as wide as the SVG times the ratio of 72 to the DPI, and as high
/// as the SVG times the same ratio. There is no page if the ratio or one of its
/// extents leaves the number range. An error of the drawing context is passed
/// on.
pub proof fn law_page_is_scaled_by_the_dpi(
    tree: &Tree,
    conversion_options: ConversionOptions,
    page_options: PageOptions,
    conversion: PdfConversion<'_>,
    context: Result<(), ConversionError>,
    result: Result<PageLayout, ConversionError>,
)
    requires
        call_ensures(
            conversion::to_pdf,
            (tree, conversion_options, page_options),
            Ok::<PdfConversion<'_>, ConversionError>(conversion),
        ),
        call_ensures(PdfConversion::lay_out, (conversion, context), result),
        numbers::above_zero(svg::tree_size(*tree).width),
        numbers::above_zero(svg::tree_size(*tree).height),
    ensures
        ({
            let width: Binary32 = svg::tree_size(*tree).width;
            let height: Binary32 = svg::tree_size(*tree).height;
            let dpi: Binary32 = page_options.dpi;
            match (context, result) {
                (Err(error), _) => result == Err::<PageLayout, ConversionError>(error),
                (Ok(()), Ok(layout)) => {
                    &&& is_ratio(dpi, layout.dpi_ratio.bits as int)
                    &&& numbers::is_product(
                        width,
                        layout.dpi_ratio,
                        layout.page_size.width.bits as int,
                    )
                    &&& numbers::is_product(
                        height,
                        layout.dpi_ratio,
                        layout.page_size.height.bits as int,
                    )
                    &&& numbers::above_zero(layout.dpi_ratio)
                    &&& numbers::above_zero(layout.page_size.width)
                    &&& numbers::above_zero(layout.page_size.height)
                    &&& layout.compress == conversion_options.compress
                },
                (Ok(()), Err(error)) => {
                    &&& error == ConversionError::UnknownError
                    &&& exists|ratio: Binary32|
                        {
                            &&& #[trigger] is_ratio(dpi, ratio.bits as int)
                            &&& numbers::above_zero(ratio) ==> numbers::leaves_range(width, ratio)
                                || numbers::leaves_range(height, ratio)
                        }
                },
            }
        }),
{
    let points: Binary32 = Binary32 { bits: POINTS_PER_INCH_BITS };
    let ratio: Binary32 = points.quotient(page_options.dpi);
    laws::law_default_values();
    numbers::law_worth(POINTS_PER_INCH_BITS as int);
    numbers::lemma_quotient(points, page_options.dpi);
    assert(is_ratio(page_options.dpi, ratio.bits as int));
    numbers::lemma_scaled(svg::tree_size(*tree), ratio);
}

} // verus!
