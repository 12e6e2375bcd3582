//! Groups with filters, which are drawn as raster images.

use tiny_skia::Pixmap;
use usvg::{Group, NonZeroRect, Transform};
use vstd::prelude::*;

use crate::binary32::{Binary32, INFINITY_BITS};
use crate::error::ConversionError;
use crate::options::ConversionOptions;
use crate::size::Size;
use crate::svg;

verus! {

/// Keep temporary filter pixmaps below 64 MiB (four bytes per pixel).
pub const MAX_FILTER_PIXELS: u64 = 16 * 1024 * 1024;

/// How many pixels an extent takes: the nearest integer, but at least one
/// pixel, and at most as many as a `u32` can count.
pub open spec fn pixels(extent: Binary32) -> int {
    let nearest: int = extent.nearest_integer();
    if nearest < 1 {
        1
    } else if nearest > u32::MAX {
        u32::MAX as int
    } else {
        nearest
    }
}

/// The image for a region of this size is within the pixel limit.
pub open spec fn within_limit(size: Size) -> bool {
    pixels(size.width) * pixels(size.height) <= MAX_FILTER_PIXELS
}

/// The width and height in pixels of the image for a region of this size.
pub open spec fn dimensions(size: Size) -> Result<(u32, u32), ConversionError> {
    if within_limit(size) {
        Ok((pixels(size.width) as u32, pixels(size.height) as u32))
    } else {
        Err(ConversionError::FilterRegionTooLarge)
    }
}

/// A layer that is scaled up by a valid raster scale has an infinite extent, and
/// none that is zero.
pub open spec fn exceeds_numbers(layer: Size, raster_scale: Binary32) -> bool {
    let width: Binary32 = layer.width.product(raster_scale);
    let height: Binary32 = layer.height.product(raster_scale);
    &&& raster_scale.is_positive_finite()
    &&& width.bits != 0
    &&& height.bits != 0
    &&& width.bits == INFINITY_BITS || height.bits == INFINITY_BITS
}

/// The width and height in pixels of the image for a layer that is scaled up
/// by the raster scale. Where an extent leaves the number range at its upper end
/// the image is too large, too.
pub open spec fn raster_size(layer: Size, raster_scale: Binary32) -> Result<
    (u32, u32),
    ConversionError,
> {
    match layer.scaled(raster_scale) {
        Some(size) => dimensions(size),
        None => if exceeds_numbers(layer, raster_scale) {
            Err(ConversionError::FilterRegionTooLarge)
        } else {
            Err(ConversionError::UnknownError)
        },
    }
}

/// The image for a region of this size, unless it exceeds the pixel limit.
pub fn filter_pixmap_dimensions(size: Size) -> (result: Result<(u32, u32), ConversionError>)
    requires
        size.wf(),
    ensures
        result == dimensions(size),
{
    let width: u32 = at_least_one(size.width.round_to_u32());
    let height: u32 = at_least_one(size.height.round_to_u32());
    assert(width * height <= u32::MAX * u32::MAX) by (nonlinear_arith)
        requires
            width <= u32::MAX,
            height <= u32::MAX,
    ;
    let pixels: u64 = width as u64 * height as u64;
    if pixels > MAX_FILTER_PIXELS {
        return Err(ConversionError::FilterRegionTooLarge);
    }
    Ok((width, height))
}

fn at_least_one(n: u32) -> (result: u32)
    ensures
        result == if n < 1 { 1 } else { n },
{
    if n < 1 {
        1
    } else {
        n
    }
}

/// The image for a layer of this size, scaled up by the raster scale.
pub fn layer_pixmap_dimensions(layer: Size, raster_scale: Binary32) -> (result: Result<
    (u32, u32),
    ConversionError,
>)
    requires
        layer.wf(),
    ensures
        result == raster_size(layer, raster_scale),
{
    match layer.scale(raster_scale) {
        Some(size) => filter_pixmap_dimensions(size),
        None => {
            if raster_scale.is_finite_above_zero() {
                let width: Binary32 = layer.width.times(raster_scale);
                let height: Binary32 = layer.height.times(raster_scale);
                if width.bits != 0 && height.bits != 0 && (width.bits == INFINITY_BITS
                    || height.bits == INFINITY_BITS) {
                    return Err(ConversionError::FilterRegionTooLarge);
                }
            }
            Err(ConversionError::UnknownError)
        },
    }
}

/// The image of a group with filters.
pub struct FilterLayer {
    /// The image.
    pub pixmap: Pixmap,
    /// Where the image goes, in the coordinates of the group's parent.
    pub layer_bbox: NonZeroRect,
    /// How much the image is scaled up.
    pub raster_scale: Binary32,
}

/// What is embedded for a group with filters.
pub struct FilterImage {
    /// Whether the pixels are interpolated.
    pub interpolate: bool,
    /// The image, as a PNG file.
    pub png: Vec<u8>,
    /// Where the image goes, in the coordinates of the group's parent.
    pub layer_bbox: NonZeroRect,
}

/// The coefficients of the transform that moves a layer to the origin and
/// scales it up.
pub open spec fn layer_parts(layer_bbox: NonZeroRect, raster_scale: Binary32) -> (
    u32,
    u32,
    u32,
    u32,
    u32,
    u32,
) {
    let (x, y): (u32, u32) = svg::rect_origin(layer_bbox);
    svg::concatenated(
        svg::scaling(raster_scale.bits),
        svg::translation(svg::negated(x), svg::negated(y)),
    )
}

/// The coefficients of the transform through which a group is drawn on its
/// image. The renderer moves the group back by the place of its layer on the
/// canvas, so that it is moved there first.
pub open spec fn drawing_parts(group: Group, layer_bbox: NonZeroRect, raster_scale: Binary32) -> (
    u32,
    u32,
    u32,
    u32,
    u32,
    u32,
) {
    let (x, y): (u32, u32) = svg::rect_origin(svg::group_abs_layer(group));
    svg::concatenated(layer_parts(layer_bbox, raster_scale), svg::translation(x, y))
}

impl FilterLayer {
    /// A blank image of these dimensions, which goes to this place and is scaled
    /// up by this factor.
    pub open spec fn is_blank(
        self,
        width: u32,
        height: u32,
        layer_bbox: NonZeroRect,
        raster_scale: Binary32,
    ) -> bool {
        &&& self.raster_scale == raster_scale
        &&& svg::pixmap_size(self.pixmap) == (width, height)
        &&& svg::pixmap_data(self.pixmap) == svg::blank(width, height)
        &&& svg::same_place(self.layer_bbox, layer_bbox)
    }

    /// The transform through which to draw the group of this image. `scale` is
    /// the transform that scales by the raster scale; there is no result if it
    /// is another one, or if the layer is moved beyond the number range.
    pub fn initial_transform(&self, group: &Group, scale: Transform) -> (result: Option<Transform>)
        ensures
            result is Some == (svg::transform_parts(scale) == svg::scaling(self.raster_scale.bits)
                && self.raster_scale.is_finite() && svg::all_finite(
                layer_parts(self.layer_bbox, self.raster_scale),
            )),
            result matches Some(transform) ==> svg::transform_parts(transform) == drawing_parts(
                *group,
                self.layer_bbox,
                self.raster_scale,
            ),
            svg::transform_parts(scale) == svg::scaling(self.raster_scale.bits)
                && self.raster_scale.is_finite() ==> {
                let (x, y): (u32, u32) = svg::rect_origin(self.layer_bbox);
                svg::composes(
                    svg::scaling(self.raster_scale.bits),
                    svg::translation(svg::negated(x), svg::negated(y)),
                    layer_parts(self.layer_bbox, self.raster_scale),
                )
            },
            result matches Some(transform) ==> {
                let (x, y): (u32, u32) = svg::rect_origin(svg::group_abs_layer(*group));
                svg::composes(
                    layer_parts(self.layer_bbox, self.raster_scale),
                    svg::translation(x, y),
                    svg::transform_parts(transform),
                )
            },
    {
        if !svg::is_scaling(&scale, self.raster_scale.bits) || !svg::has_finite_parts(&scale) {
            return None;
        }
        let shifted: Transform = svg::pre_concat(&scale, svg::move_from(&self.layer_bbox));
        if !svg::has_finite_parts(&shifted) {
            return None;
        }
        let abs_layer: NonZeroRect = svg::read_group_abs_layer(group);
        Some(svg::pre_concat(&shifted, svg::move_to(&abs_layer)))
    }

    /// The image as it is embedded: as a PNG file, at its place, and with
    /// interpolation.
    pub fn encode(&self) -> (result: Result<FilterImage, ConversionError>)
        ensures
            match svg::png_file(
                svg::pixmap_size(self.pixmap).0,
                svg::pixmap_size(self.pixmap).1,
                svg::pixmap_data(self.pixmap),
            ) {
                Some(bytes) => result matches Ok(image) && {
                    &&& image.interpolate
                    &&& image.png@ == bytes
                    &&& image.layer_bbox == self.layer_bbox
                },
                None => result == Err::<FilterImage, ConversionError>(
                    ConversionError::UnknownError,
                ),
            },
    {
        match svg::encode_png(&self.pixmap) {
            Some(png) => Ok(FilterImage { interpolate: true, png, layer_bbox: self.layer_bbox }),
            None => Err(ConversionError::UnknownError),
        }
    }
}

/// What becomes of a group whose layer has this place, if it has one.
pub open spec fn layer_result(
    layer_bbox: Option<NonZeroRect>,
    layer_size: Size,
    raster_scale: Binary32,
    result: Result<FilterLayer, ConversionError>,
) -> bool {
    match layer_bbox {
        Some(layer_bbox) => match raster_size(layer_size, raster_scale) {
            Ok((width, height)) => result matches Ok(layer) && layer.is_blank(
                width,
                height,
                layer_bbox,
                raster_scale,
            ),
            Err(error) => result == Err::<FilterLayer, ConversionError>(error),
        },
        None => result == Err::<FilterLayer, ConversionError>(ConversionError::UnknownError),
    }
}

/// A blank image for a layer, unless it exceeds the pixel limit.
pub fn blank_layer(layer_bbox: NonZeroRect, raster_scale: Binary32) -> (result: Result<
    FilterLayer,
    ConversionError,
>)
    ensures
        layer_result(Some(layer_bbox), svg::rect_size(layer_bbox), raster_scale, result),
        result matches Ok(layer) ==> layer.layer_bbox == layer_bbox,
{
    let size: Size = svg::read_rect_size(&layer_bbox);
    match layer_pixmap_dimensions(size, raster_scale) {
        Ok((width, height)) => {
            proof {
                lemma_limit_bounds(width as int, height as int);
            }
            match svg::new_pixmap(width, height) {
                Some(pixmap) => Ok(FilterLayer { pixmap, layer_bbox, raster_scale }),
                None => Err(ConversionError::FilterRegionTooLarge),
            }
        },
        Err(error) => Err(error),
    }
}

/// An image within the pixel limit has rows within the limit, too.
proof fn lemma_limit_bounds(width: int, height: int)
    requires
        width >= 1,
        height >= 1,
        width * height <= MAX_FILTER_PIXELS,
    ensures
        width <= MAX_FILTER_PIXELS,
        4 * width * height <= 4 * MAX_FILTER_PIXELS,
{
    assert(width <= width * height) by (nonlinear_arith)
        requires
            width >= 1,
            height >= 1,
    ;
    assert(4 * width * height == 4 * (width * height)) by (nonlinear_arith);
}

/// Render a group with filters as an image: finds the place of the group's
/// layer and makes the blank image to draw on.
pub fn render(group: &Group, options: ConversionOptions) -> (result: Result<
    FilterLayer,
    ConversionError,
>)
    requires
        svg::can_transform(svg::group_layer(*group), svg::group_transform(*group)),
    ensures
        ({
            let bbox: Option<NonZeroRect> = svg::rect_transformed(
                svg::group_layer(*group),
                svg::group_transform(*group),
            );
            layer_result(bbox, svg::rect_size(bbox->0), options.raster_scale, result)
        }),
{
    let layer: NonZeroRect = svg::read_group_layer(group);
    match svg::transform_rect(&layer, svg::read_group_transform(group)) {
        Some(layer_bbox) => blank_layer(layer_bbox, options.raster_scale),
        None => Err(ConversionError::UnknownError),
    }
}

/// Renders a group with filters as an image, unless its layer reaches to the end
/// of the number range and cannot be transformed.
pub fn render_checked(group: &Group, options: ConversionOptions) -> (result: Option<
    Result<FilterLayer, ConversionError>,
>)
    ensures
        result is Some == svg::can_transform(
            svg::group_layer(*group),
            svg::group_transform(*group),
        ),
        result matches Some(result) ==> {
            let bbox: Option<NonZeroRect> = svg::rect_transformed(
                svg::group_layer(*group),
                svg::group_transform(*group),
            );
            layer_result(bbox, svg::rect_size(bbox->0), options.raster_scale, result)
        },
{
    let layer: NonZeroRect = svg::read_group_layer(group);
    let transform: Transform = svg::read_group_transform(group);
    if svg::changes_nothing(&transform) || svg::rebuilds(&layer) {
        Some(render(group, options))
    } else {
        None
    }
}

} // verus!
