//! What holds of the temporary images of filters.

use usvg::{Group, NonZeroRect, Transform};
use vstd::arithmetic::power2::*;
use vstd::prelude::*;

use crate::binary32;
use crate::binary32::Binary32;
use crate::error::ConversionError;
use crate::laws::numbers;
use crate::options::ConversionOptions;
use crate::render::filter;
use crate::render::filter::{FilterImage, FilterLayer};
use crate::size::Size;
use crate::svg;

verus! {

/// A number takes this many pixels: the integer within a half of it, but at
/// least one.
pub open spec fn takes_pixels(n: int, count: int) -> bool {
    if count == 1 {
        2 * numbers::worth(n) < 3 * pow2(149)
    } else {
        count > 1 && numbers::rounds_to(n, count)
    }
}

/// An extent that is scaled up takes this many pixels.
pub open spec fn spans(extent: Binary32, raster_scale: Binary32, count: int) -> bool {
    exists|n: int|
        n > 0 && #[trigger] numbers::is_product(extent, raster_scale, n) && takes_pixels(n, count)
}

/// An extent becomes zero when it is scaled up.
pub open spec fn vanishes(extent: Binary32, raster_scale: Binary32) -> bool {
    numbers::is_product(extent, raster_scale, 0)
}

/// What the dimensions of an image are to be: the width comes from the width of
/// the layer, and the height from its height. Images of more than 16,777,216
/// pixels are too large. No image comes of a raster scale that is not finite and
/// above zero, nor of an extent that vanishes.
pub open spec fn is_image_size(
    width: Binary32,
    height: Binary32,
    raster_scale: Binary32,
    result: Result<(u32, u32), ConversionError>,
) -> bool {
    let drawable: bool = numbers::above_zero(raster_scale) && !vanishes(width, raster_scale)
        && !vanishes(height, raster_scale);
    match result {
        Ok((w, h)) => {
            &&& drawable
            &&& spans(width, raster_scale, w as int)
            &&& spans(height, raster_scale, h as int)
            &&& w * h <= 16_777_216
        },
        Err(ConversionError::FilterRegionTooLarge) => {
            &&& drawable
            &&& forall|w: int, h: int| #[trigger]
                spans(width, raster_scale, w) && #[trigger] spans(height, raster_scale, h) ==> w * h
                    > 16_777_216
        },
        Err(error) => error == ConversionError::UnknownError && !drawable,
    }
}

/// The image for a layer has the dimensions that the extents of the layer take,
/// each scaled up.
pub proof fn law_image_has_the_size_of_its_layer(
    layer: Size,
    raster_scale: Binary32,
    result: Result<(u32, u32), ConversionError>,
)
    requires
        call_ensures(filter::layer_pixmap_dimensions, (layer, raster_scale), result),
        numbers::above_zero(layer.width),
        numbers::above_zero(layer.height),
    ensures
        is_image_size(layer.width, layer.height, raster_scale, result),
{
    lemma_raster_size(layer, raster_scale);
}

/// A region that is not scaled up has the dimensions that its own extents take.
pub proof fn law_image_has_the_size_of_its_region(
    size: Size,
    result: Result<(u32, u32), ConversionError>,
)
    requires
        call_ensures(filter::filter_pixmap_dimensions, (size,), result),
        numbers::above_zero(size.width),
        numbers::above_zero(size.height),
    ensures
        match result {
            Ok((w, h)) => {
                &&& takes_pixels(size.width.bits as int, w as int)
                &&& takes_pixels(size.height.bits as int, h as int)
                &&& w * h <= 16_777_216
            },
            Err(error) => {
                &&& error == ConversionError::FilterRegionTooLarge
                &&& forall|w: int, h: int| #[trigger]
                    takes_pixels(size.width.bits as int, w) && #[trigger] takes_pixels(
                        size.height.bits as int,
                        h,
                    ) ==> w * h > 16_777_216
            },
        },
{
    lemma_dimensions(size);
}

/// An upright layer has an upright image, and a wide layer has a wide one.
pub proof fn law_image_stands_as_its_layer(
    layer: Size,
    raster_scale: Binary32,
    width: u32,
    height: u32,
)
    requires
        call_ensures(
            filter::layer_pixmap_dimensions,
            (layer, raster_scale),
            Ok::<(u32, u32), ConversionError>((width, height)),
        ),
        numbers::above_zero(layer.width),
        numbers::above_zero(layer.height),
    ensures
        layer.width.bits <= layer.height.bits ==> width <= height,
        layer.height.bits <= layer.width.bits ==> height <= width,
{
    let (w, h): (Binary32, Binary32) = (
        layer.width.product(raster_scale),
        layer.height.product(raster_scale),
    );
    if layer.width.bits <= layer.height.bits {
        binary32::lemma_product_keeps_order(layer.width, layer.height, raster_scale);
        binary32::lemma_nearest_integer_keeps_order(w, h);
    }
    if layer.height.bits <= layer.width.bits {
        binary32::lemma_product_keeps_order(layer.height, layer.width, raster_scale);
        binary32::lemma_nearest_integer_keeps_order(h, w);
    }
}

/// Two rectangles have the same corner and the same extents, where zeros of
/// either sign are the same.
pub open spec fn same_spot(a: NonZeroRect, b: NonZeroRect) -> bool {
    &&& svg::rect_size(a) == svg::rect_size(b)
    &&& same_value(svg::rect_origin(a).0, svg::rect_origin(b).0)
    &&& same_value(svg::rect_origin(a).1, svg::rect_origin(b).1)
}

/// The same bits, or those of the two zeros.
pub open spec fn same_value(a: u32, b: u32) -> bool {
    a == b || (a as int % 0x8000_0000 == 0 && b as int % 0x8000_0000 == 0)
}

/// What becomes of a layer at this place: a transparent image, or an error.
pub open spec fn is_image_at(
    place: NonZeroRect,
    raster_scale: Binary32,
    result: Result<FilterLayer, ConversionError>,
) -> bool {
    let size: Size = svg::rect_size(place);
    match result {
        Ok(layer) => {
            let (w, h): (u32, u32) = svg::pixmap_size(layer.pixmap);
            let data: Seq<u8> = svg::pixmap_data(layer.pixmap);
            &&& is_image_size(
                size.width,
                size.height,
                raster_scale,
                Ok::<(u32, u32), ConversionError>((w, h)),
            )
            &&& data.len() == 4 * w * h
            &&& forall|i: int| 0 <= i < data.len() ==> #[trigger] data[i] == 0
            &&& same_spot(layer.layer_bbox, place)
            &&& layer.raster_scale == raster_scale
        },
        Err(error) => is_image_size(
            size.width,
            size.height,
            raster_scale,
            Err::<(u32, u32), ConversionError>(error),
        ),
    }
}

/// A layer gets a transparent image of its size and stays in its place.
pub proof fn law_blank_layer(
    place: NonZeroRect,
    raster_scale: Binary32,
    result: Result<FilterLayer, ConversionError>,
)
    requires
        call_ensures(filter::blank_layer, (place, raster_scale), result),
        numbers::above_zero(svg::rect_size(place).width),
        numbers::above_zero(svg::rect_size(place).height),
    ensures
        is_image_at(place, raster_scale, result),
        result matches Ok(layer) ==> layer.layer_bbox == place,
{
    lemma_raster_size(svg::rect_size(place), raster_scale);
}

/// A group is drawn on an image of the size of its transformed layer, which goes
/// to the place of that layer. A layer without such a place is an error.
pub proof fn law_group_gets_an_image(
    group: &Group,
    options: ConversionOptions,
    result: Result<FilterLayer, ConversionError>,
)
    requires
        call_ensures(filter::render, (group, options), result) || call_ensures(
            filter::render_checked,
            (group, options),
            Some(result),
        ),
    ensures
        match svg::rect_transformed(svg::group_layer(*group), svg::group_transform(*group)) {
            Some(place) => numbers::above_zero(svg::rect_size(place).width) && numbers::above_zero(
                svg::rect_size(place).height,
            ) ==> is_image_at(place, options.raster_scale, result),
            None => result == Err::<FilterLayer, ConversionError>(ConversionError::UnknownError),
        },
{
    if let Some(place) = svg::rect_transformed(
        svg::group_layer(*group),
        svg::group_transform(*group),
    ) {
        if numbers::above_zero(svg::rect_size(place).width) && numbers::above_zero(
            svg::rect_size(place).height,
        ) {
            lemma_raster_size(svg::rect_size(place), options.raster_scale);
        }
    }
}

/// A group is refused only if its layer is to be transformed and cannot be
/// rebuilt from its position and extents.
pub proof fn law_refused_groups(
    group: &Group,
    options: ConversionOptions,
    result: Option<Result<FilterLayer, ConversionError>>,
)
    requires
        call_ensures(filter::render_checked, (group, options), result),
    ensures
        ({
            let (a, b, c, d, e, f): (u32, u32, u32, u32, u32, u32) = svg::transform_parts(
                svg::group_transform(*group),
            );
            result is Some <==> svg::rect_rebuilds(svg::group_layer(*group)) || {
                &&& a == 0x3f80_0000 && d == 0x3f80_0000
                &&& same_value(b, 0) && same_value(c, 0)
                &&& same_value(e, 0) && same_value(f, 0)
            }
        }),
{
}

/// What is embedded is the image as a PNG file, in the place of its layer and
/// with interpolation.
pub proof fn law_embedded_image(layer: &FilterLayer, result: Result<FilterImage, ConversionError>)
    requires
        call_ensures(FilterLayer::encode, (layer,), result),
    ensures
        ({
            let (w, h): (u32, u32) = svg::pixmap_size(layer.pixmap);
            let file: Option<Seq<u8>> = svg::png_file(w, h, svg::pixmap_data(layer.pixmap));
            match result {
                Ok(image) => {
                    &&& file == Some(image.png@)
                    &&& image.layer_bbox == layer.layer_bbox
                    &&& image.interpolate
                },
                Err(error) => file is None && error == ConversionError::UnknownError,
            }
        }),
{
}

/// Every layer and group can be tried, at every raster scale.
pub proof fn law_images_can_be_tried(
    place: NonZeroRect,
    group: &Group,
    options: ConversionOptions,
    layer: &FilterLayer,
    scale: Transform,
    size: Size,
)
    requires
        numbers::above_zero(size.width),
        numbers::above_zero(size.height),
    ensures
        call_requires(filter::filter_pixmap_dimensions, (size,)),
        call_requires(filter::layer_pixmap_dimensions, (size, options.raster_scale)),
        call_requires(filter::blank_layer, (place, options.raster_scale)),
        call_requires(filter::render_checked, (group, options)),
        call_requires(FilterLayer::initial_transform, (layer, group, scale)),
        call_requires(FilterLayer::encode, (layer,)),
{
}

/// What a number with a sign is worth, in units of `2^-149`.
pub open spec fn signed(bits: u32) -> int {
    if bits < 0x8000_0000 {
        numbers::worth(bits as int)
    } else {
        -numbers::worth(bits - 0x8000_0000)
    }
}

/// The number is the one closest to `num / den` units, and has the same sign.
pub open spec fn closest_signed(num: int, den: int, bits: u32) -> bool {
    &&& numbers::closest(numbers::distance(num, 0), den, bits as int % 0x8000_0000)
    &&& num > 0 ==> bits < 0x8000_0000
    &&& num < 0 ==> bits >= 0x8000_0000
}

/// The number is neither infinite nor not-a-number.
pub open spec fn finite(bits: u32) -> bool {
    bits as int % 0x8000_0000 < 0x7f80_0000
}

/// Along one axis, what is moved from `from` to the origin, to `to`, and scaled
/// up is moved by `shift` in all: by the scaled `to` less the scaled `from`.
pub open spec fn is_shift(raster_scale: u32, from: u32, to: u32, shift: u32) -> bool {
    forall|p: u32, q: u32| #[trigger]
        closest_signed(signed(raster_scale) * signed(to), pow2(149) as int, p) && #[trigger]
        closest_signed(signed(raster_scale) * signed(from), pow2(149) as int, q) ==> finite(q) && if finite(
            p,
        ) {
            closest_signed(signed(p) - signed(q), 1, shift)
        } else {
            shift == p
        }
}

/// A group is drawn through the transform that scales both axes by the raster
/// scale. It takes the corner of the layer to the origin, and undoes the shift
/// by the corner of the layer on the canvas, which the renderer makes.
pub proof fn law_group_is_drawn_on_its_layer(
    layer: &FilterLayer,
    group: &Group,
    scale: Transform,
    transform: Transform,
)
    requires
        call_ensures(FilterLayer::initial_transform, (layer, group, scale), Some(transform)),
    ensures
        ({
            let (x, y): (u32, u32) = svg::rect_origin(layer.layer_bbox);
            let (abs_x, abs_y): (u32, u32) = svg::rect_origin(svg::group_abs_layer(*group));
            let s: u32 = layer.raster_scale.bits;
            let (a, b, c, d, e, f): (u32, u32, u32, u32, u32, u32) = svg::transform_parts(
                transform,
            );
            &&& signed(a) == signed(s)
            &&& signed(d) == signed(s)
            &&& signed(b) == 0
            &&& signed(c) == 0
            &&& is_shift(s, x, abs_x, e)
            &&& is_shift(s, y, abs_y, f)
        }),
{
    let (x, y): (u32, u32) = svg::rect_origin(layer.layer_bbox);
    let (abs_x, abs_y): (u32, u32) = svg::rect_origin(svg::group_abs_layer(*group));
    let s: u32 = layer.raster_scale.bits;
    let (a, _b, _c, d, e, f): (u32, u32, u32, u32, u32, u32) = svg::transform_parts(transform);
    let shifted: (u32, u32, u32, u32, u32, u32) = filter::layer_parts(
        layer.layer_bbox,
        layer.raster_scale,
    );
    lemma_finite(s);
    lemma_finite(shifted.0);
    lemma_finite(shifted.3);
    lemma_finite(shifted.4);
    lemma_finite(shifted.5);
    lemma_axis(s, x, abs_x, (shifted.0, shifted.4), (a, e));
    lemma_axis(s, y, abs_y, (shifted.3, shifted.5), (d, f));
}

/// A group whose layer is in the same place on the canvas and in its parent is
/// drawn without a shift, at every raster scale.
pub proof fn law_layer_in_place_is_not_moved(
    layer: &FilterLayer,
    group: &Group,
    scale: Transform,
    transform: Transform,
)
    requires
        call_ensures(FilterLayer::initial_transform, (layer, group, scale), Some(transform)),
        svg::rect_origin(layer.layer_bbox) == svg::rect_origin(svg::group_abs_layer(*group)),
    ensures
        signed(svg::transform_parts(transform).4) == 0,
        signed(svg::transform_parts(transform).5) == 0,
{
    law_group_is_drawn_on_its_layer(layer, group, scale, transform);
    let (x, y): (u32, u32) = svg::rect_origin(layer.layer_bbox);
    let s: u32 = layer.raster_scale.bits;
    lemma_no_shift(s, x, svg::transform_parts(transform).4);
    lemma_no_shift(s, y, svg::transform_parts(transform).5);
}

/// A coordinate stays finite when it is scaled up.
pub open spec fn stays_finite(raster_scale: u32, place: u32) -> bool {
    forall|q: u32| #[trigger]
        closest_signed(signed(raster_scale) * signed(place), pow2(149) as int, q) ==> finite(q)
}

/// There is a transform exactly if `scale` scales both axes by a raster scale
/// that is finite, and the corner of the layer stays finite.
pub proof fn law_drawable_layers(
    layer: &FilterLayer,
    group: &Group,
    scale: Transform,
    result: Option<Transform>,
)
    requires
        call_ensures(FilterLayer::initial_transform, (layer, group, scale), result),
    ensures
        ({
            let (x, y): (u32, u32) = svg::rect_origin(layer.layer_bbox);
            let s: u32 = layer.raster_scale.bits;
            result is Some <==> {
                &&& svg::transform_parts(scale) == (s, 0u32, 0u32, s, 0u32, 0u32)
                &&& finite(s)
                &&& stays_finite(s, x)
                &&& stays_finite(s, y)
            }
        }),
{
    let (x, y): (u32, u32) = svg::rect_origin(layer.layer_bbox);
    let s: u32 = layer.raster_scale.bits;
    lemma_finite(s);
    if svg::transform_parts(scale) == svg::scaling(s) && finite(s) {
        let parts: (u32, u32, u32, u32, u32, u32) = filter::layer_parts(
            layer.layer_bbox,
            layer.raster_scale,
        );
        lemma_finite(parts.0);
        lemma_finite(parts.1);
        lemma_finite(parts.2);
        lemma_finite(parts.3);
        lemma_finite(parts.4);
        lemma_finite(parts.5);
        lemma_moved(s, x, parts.0, parts.4);
        lemma_moved(s, y, parts.3, parts.5);
    }
}

/// A coordinate that stays finite is moved by something finite.
proof fn lemma_moved(s: u32, place: u32, scale: u32, shift: u32)
    requires
        finite(s),
        svg::is_axis(s, 0, 0x3f80_0000, svg::negated(place), scale, shift),
    ensures
        finite(scale),
        finite(shift) <==> stays_finite(s, place),
{
    let unit: int = pow2(149) as int;
    let num: int = signed(s) * signed(place);
    lemma_scale_stays((s, 0), svg::negated(place), (scale, shift));
    lemma_same_magnitude(s, scale);
    if finite(shift) {
        assert forall|q: u32| #[trigger] closest_signed(num, unit, q) implies finite(q) by {
            lemma_first_step(s, place, (scale, shift), q);
        }
    }
    lemma_pow2_pos(149);
    let q: u32 = lemma_some_closest(num, unit);
    if stays_finite(s, place) {
        let turned: u32 = svg::negated(q);
        lemma_turned_product(s, place, q);
        lemma_finite(turned);
        assert(svg::is_signed_sum(turned, 0, shift));
        lemma_signed(turned);
        lemma_signed(0);
        lemma_rounded_signed(signed(turned) + signed(0), 1, shift);
        lemma_exact(turned, 1, shift);
        lemma_same_magnitude(turned, shift);
    }
}

/// What is worth the same has the same bits but for the sign.
proof fn lemma_same_magnitude(a: u32, b: u32)
    requires
        signed(a) == signed(b),
    ensures
        a as int % 0x8000_0000 == b as int % 0x8000_0000,
{
    let (m, n): (int, int) = (a as int % 0x8000_0000, b as int % 0x8000_0000);
    numbers::law_worth(m);
    numbers::law_worth(n);
    if m > 0 {
        numbers::lemma_worth_positive(m);
    }
    if n > 0 {
        numbers::lemma_worth_positive(n);
    }
    if m < n {
        binary32::lemma_units_increase(m, n);
    } else if n < m {
        binary32::lemma_units_increase(n, m);
    }
}

/// Turning the sign of a factor turns the sign of the product.
proof fn lemma_turned_product(s: u32, place: u32, q: u32)
    requires
        closest_signed(signed(s) * signed(place), pow2(149) as int, q),
    ensures
        svg::is_signed_product(s, svg::negated(place), svg::negated(q)),
        signed(svg::negated(q)) == -signed(q),
        svg::negated(q) as int % 0x8000_0000 == q as int % 0x8000_0000,
{
    let unit: int = pow2(149) as int;
    let turned: u32 = svg::negated(q);
    let num: int = signed(s) * signed(place);
    lemma_pow2_pos(149);
    lemma_signed(s);
    lemma_signed(place);
    lemma_signed(svg::negated(place));
    lemma_signed(q);
    lemma_signed(turned);
    assert(signed(s) * signed(svg::negated(place)) == -num) by (nonlinear_arith)
        requires
            num == signed(s) * signed(place),
            signed(svg::negated(place)) == -signed(place),
    ;
    assert(turned as int % 0x8000_0000 == q as int % 0x8000_0000);
    lemma_rounded_signed(-num, unit, turned);
}

/// There is a closest number.
proof fn lemma_some_closest(num: int, den: int) -> (bits: u32)
    requires
        den > 0,
    ensures
        closest_signed(num, den, bits),
{
    let n: int = Binary32::rounded(numbers::distance(num, 0), den);
    binary32::lemma_rounded(numbers::distance(num, 0), den);
    numbers::law_rounding(numbers::distance(num, 0), den, n);
    let bits: u32 = if num < 0 {
        (n + 0x8000_0000) as u32
    } else {
        n as u32
    };
    assert(bits as int % 0x8000_0000 == n);
    bits
}

proof fn lemma_signed(bits: u32)
    ensures
        svg::signed_units(bits) == signed(bits),
        svg::magnitude(bits) == bits as int % 0x8000_0000,
{
    numbers::law_worth(svg::magnitude(bits));
}

proof fn lemma_rounded_signed(num: int, den: int, bits: u32)
    requires
        den > 0,
    ensures
        svg::is_rounded(num, den, bits) == closest_signed(num, den, bits),
{
    lemma_signed(bits);
    numbers::law_rounding(numbers::distance(num, 0), den, bits as int % 0x8000_0000);
}

/// Rounding keeps what is a number of the format.
proof fn lemma_exact(value: u32, den: int, bits: u32)
    requires
        den > 0,
        finite(value),
        closest_signed(signed(value) * den, den, bits),
    ensures
        signed(bits) == signed(value),
{
    let m: int = value as int % 0x8000_0000;
    let n: int = bits as int % 0x8000_0000;
    let w: int = numbers::worth(m);
    numbers::law_worth(m);
    if m > 0 {
        numbers::lemma_worth_positive(m);
    }
    assert(w >= 0);
    assert(numbers::distance(signed(value) * den, 0) == w * den) by {
        assert(w * den >= 0 && (-w) * den == -(w * den)) by (nonlinear_arith)
            requires
                w >= 0,
                den > 0,
        ;
    }
    assert(w > 0 ==> w * den > 0) by (nonlinear_arith)
        requires
            den > 0,
    ;
    binary32::lemma_rounded_exact(m, den);
    assert(w * den >= 0) by (nonlinear_arith)
        requires
            w >= 0,
            den > 0,
    ;
    binary32::lemma_rounded(w * den, den);
    numbers::law_rounding(w * den, den, n);
    assert(n == m);
    assert((-w) * den == -(w * den)) by (nonlinear_arith);
}

proof fn lemma_one_bits()
    ensures
        signed(0x3f80_0000) == pow2(149),
        finite(0x3f80_0000),
{
    lemma2_to64();
    lemma_pow2_adds(23, 126);
    numbers::law_worth(0x3f80_0000);
    assert(0x3f80_0000int / 0x80_0000 == 127);
    assert(0x3f80_0000int % 0x80_0000 == 0);
}

proof fn lemma_finite(bits: u32)
    ensures
        (Binary32 { bits }).is_finite() == finite(bits),
{
    let n: int = bits as int % 0x8000_0000;
    assert(bits as int / 0x80_0000 % 256 == n / 0x80_0000);
}

/// The first step only scales, and moves by what is scaled.
proof fn lemma_first_step(s: u32, from: u32, shifted: (u32, u32), q: u32)
    requires
        finite(s),
        finite(shifted.1),
        svg::is_axis(s, 0, 0x3f80_0000, svg::negated(from), shifted.0, shifted.1),
        closest_signed(signed(s) * signed(from), pow2(149) as int, q),
    ensures
        finite(q),
        signed(shifted.1) == -signed(q),
{
    let turned: u32 = svg::negated(q);
    lemma_turned_product(s, from, q);
    lemma_signed(0);
    lemma_signed(turned);
    lemma_finite(turned);
    assert(svg::is_signed_sum(turned, 0, shifted.1));
    lemma_rounded_signed(signed(turned) + signed(0), 1, shifted.1);
    lemma_exact(turned, 1, shifted.1);
}

/// A step by one scales by what it was scaled by before.
proof fn lemma_scale_stays(first: (u32, u32), movement: u32, result: (u32, u32))
    requires
        finite(first.0),
        svg::is_axis(first.0, first.1, 0x3f80_0000, movement, result.0, result.1),
    ensures
        signed(result.0) == signed(first.0),
{
    let unit: int = pow2(149) as int;
    lemma_pow2_pos(149);
    lemma_one_bits();
    lemma_signed(first.0);
    lemma_signed(0x3f80_0000);
    lemma_rounded_signed(signed(first.0) * unit, unit, result.0);
    lemma_exact(first.0, unit, result.0);
}

proof fn lemma_axis(s: u32, from: u32, to: u32, shifted: (u32, u32), result: (u32, u32))
    requires
        finite(s),
        finite(shifted.0),
        finite(shifted.1),
        svg::is_axis(s, 0, 0x3f80_0000, svg::negated(from), shifted.0, shifted.1),
        svg::is_axis(shifted.0, shifted.1, 0x3f80_0000, to, result.0, result.1),
    ensures
        signed(result.0) == signed(s),
        is_shift(s, from, to, result.1),
{
    let unit: int = pow2(149) as int;
    lemma_scale_stays((s, 0), svg::negated(from), shifted);
    lemma_scale_stays(shifted, to, result);
    assert forall|p: u32, q: u32| #[trigger]
        closest_signed(signed(s) * signed(to), unit, p) && #[trigger] closest_signed(
            signed(s) * signed(from),
            unit,
            q,
        ) implies finite(q) && if finite(p) {
        closest_signed(signed(p) - signed(q), 1, result.1)
    } else {
        result.1 == p
    } by {
        lemma_first_step(s, from, shifted, q);
        lemma_second_step(s, to, shifted, result.1, result.0, p);
    }
}

/// The second step moves by what is scaled, too.
proof fn lemma_second_step(
    s: u32,
    to: u32,
    shifted: (u32, u32),
    shift: u32,
    scale: u32,
    p: u32,
)
    requires
        signed(shifted.0) == signed(s),
        svg::is_axis(shifted.0, shifted.1, 0x3f80_0000, to, scale, shift),
        closest_signed(signed(s) * signed(to), pow2(149) as int, p),
    ensures
        if finite(p) {
            closest_signed(signed(p) + signed(shifted.1), 1, shift)
        } else {
            shift == p
        },
{
    let unit: int = pow2(149) as int;
    lemma_pow2_pos(149);
    lemma_signed(shifted.0);
    lemma_signed(shifted.1);
    lemma_signed(to);
    lemma_signed(p);
    lemma_finite(p);
    lemma_rounded_signed(signed(s) * signed(to), unit, p);
    assert(svg::is_signed_product(shifted.0, to, p));
    assert(svg::is_signed_sum(p, shifted.1, shift));
    if finite(p) {
        lemma_rounded_signed(signed(p) + signed(shifted.1), 1, shift);
    }
}

proof fn lemma_no_shift(s: u32, place: u32, shift: u32)
    requires
        is_shift(s, place, place, shift),
    ensures
        signed(shift) == 0,
{
    let unit: int = pow2(149) as int;
    let num: int = signed(s) * signed(place);
    lemma_pow2_pos(149);
    let p: u32 = lemma_some_closest(num, unit);
    assert(closest_signed(num, unit, p));
    assert(closest_signed(0, 1, shift));
    assert(signed(0) == 0);
    lemma_exact(0, 1, shift);
}

/// The dimensions of a region follow from its extents.
proof fn lemma_dimensions(size: Size)
    requires
        numbers::above_zero(size.width),
        numbers::above_zero(size.height),
    ensures
        match filter::dimensions(size) {
            Ok((w, h)) => {
                &&& takes_pixels(size.width.bits as int, w as int)
                &&& takes_pixels(size.height.bits as int, h as int)
                &&& w * h <= 16_777_216
            },
            Err(error) => {
                &&& error == ConversionError::FilterRegionTooLarge
                &&& forall|w: int, h: int| #[trigger]
                    takes_pixels(size.width.bits as int, w) && #[trigger] takes_pixels(
                        size.height.bits as int,
                        h,
                    ) ==> w * h > 16_777_216
            },
        },
{
    let (w, h): (int, int) = (filter::pixels(size.width), filter::pixels(size.height));
    lemma_pixels(size.width);
    lemma_pixels(size.height);
    if filter::within_limit(size) {
        assert(w <= w * h && h <= w * h) by (nonlinear_arith)
            requires
                w >= 1,
                h >= 1,
        ;
    } else {
        assert forall|x: int, y: int| #[trigger]
            takes_pixels(size.width.bits as int, x) && #[trigger] takes_pixels(
                size.height.bits as int,
                y,
            ) implies x * y > 16_777_216 by {
            assert(w * h <= x * y) by (nonlinear_arith)
                requires
                    1 <= w <= x,
                    1 <= h <= y,
            ;
        }
    }
}

/// The pixels of an extent are those that it takes, up to the largest `u32`.
proof fn lemma_pixels(extent: Binary32)
    ensures
        1 <= filter::pixels(extent) <= u32::MAX,
        filter::pixels(extent) < u32::MAX ==> takes_pixels(
            extent.bits as int,
            filter::pixels(extent),
        ),
        forall|count: int|
            takes_pixels(extent.bits as int, count) ==> filter::pixels(extent) <= count,
{
    let n: int = extent.bits as int;
    let k: int = extent.nearest_integer();
    let unit: int = pow2(149) as int;
    lemma_pow2_pos(149);
    numbers::lemma_nearest_integer(extent);
    assert forall|count: int| takes_pixels(n, count) implies filter::pixels(extent) <= count by {
        if count > 1 {
            numbers::lemma_one_integer(n, count, k);
        } else if k > 1 {
            assert(3 * unit <= (2 * k - 1) * unit) by (nonlinear_arith)
                requires
                    k > 1,
                    unit > 0,
            ;
        }
    }
    if k <= 1 {
        assert((2 * k + 1) * unit <= 3 * unit) by (nonlinear_arith)
            requires
                k <= 1,
                unit > 0,
        ;
    }
}

proof fn lemma_raster_size(layer: Size, raster_scale: Binary32)
    requires
        numbers::above_zero(layer.width),
        numbers::above_zero(layer.height),
    ensures
        is_image_size(
            layer.width,
            layer.height,
            raster_scale,
            filter::raster_size(layer, raster_scale),
        ),
{
    if numbers::above_zero(raster_scale) {
        let p: Binary32 = layer.width.product(raster_scale);
        let q: Binary32 = layer.height.product(raster_scale);
        lemma_one_product(layer.width, raster_scale);
        lemma_one_product(layer.height, raster_scale);
        if p.bits != 0 && q.bits != 0 {
            if p.bits < 0x7f80_0000 && q.bits < 0x7f80_0000 {
                lemma_dimensions(Size { width: p, height: q });
            } else {
                lemma_infinite_pixels();
                assert forall|w: int, h: int| #[trigger]
                    spans(layer.width, raster_scale, w) && #[trigger] spans(
                        layer.height,
                        raster_scale,
                        h,
                    ) implies w * h > 16_777_216 by {
                    assert(takes_pixels(p.bits as int, w));
                    assert(takes_pixels(q.bits as int, h));
                    assert(w * h > 16_777_216) by (nonlinear_arith)
                        requires
                            w >= 1,
                            h >= 1,
                            w > 16_777_216 || h > 16_777_216,
                    ;
                }
            }
        }
    }
}

/// There is one product, and it is the one that is computed.
proof fn lemma_one_product(a: Binary32, b: Binary32)
    requires
        numbers::above_zero(a),
        numbers::above_zero(b),
    ensures
        numbers::is_product(a, b, a.product(b).bits as int),
        forall|n: int| #[trigger] numbers::is_product(a, b, n) ==> n == a.product(b).bits,
{
    let (x, y): (int, int) = (numbers::worth(a.bits as int), numbers::worth(b.bits as int));
    numbers::lemma_product(a, b);
    numbers::lemma_worth_positive(a.bits as int);
    numbers::lemma_worth_positive(b.bits as int);
    lemma_pow2_pos(149);
    assert(x * y >= 0) by (nonlinear_arith)
        requires
            x > 0,
            y > 0,
    ;
    assert forall|n: int| #[trigger] numbers::is_product(a, b, n) implies n == a.product(
        b,
    ).bits by {
        numbers::lemma_one_closest(x * y, pow2(149) as int, n, a.product(b).bits as int);
    }
}

/// Infinity would take more pixels than an image may have.
proof fn lemma_infinite_pixels()
    ensures
        forall|count: int| takes_pixels(0x7f80_0000, count) ==> count > 16_777_216,
{
    let unit: int = pow2(149) as int;
    lemma2_to64();
    lemma_pow2_pos(149);
    lemma_pow2_adds(23, 254);
    lemma_pow2_adds(128, 149);
    lemma_pow2_adds(64, 64);
    numbers::law_worth(0x7f80_0000);
    assert(0x7f80_0000int / 0x80_0000 == 255);
    assert(0x7f80_0000int % 0x80_0000 == 0);
    let w: int = numbers::worth(0x7f80_0000);
    assert(w == pow2(128) * unit);
    assert(w >= 0x1_0000_0000 * unit) by (nonlinear_arith)
        requires
            w == pow2(128) * unit,
            pow2(128) == 0x1_0000_0000_0000_0000 * 0x1_0000_0000_0000_0000,
            unit > 0,
    ;
    assert forall|count: int| takes_pixels(0x7f80_0000, count) implies count > 16_777_216 by {
        if count <= 16_777_216 {
            assert((2 * count + 1) * unit <= 0x4000_0000 * unit) by (nonlinear_arith)
                requires
                    count <= 16_777_216,
                    unit > 0,
            ;
        }
    }
}

} // verus!
