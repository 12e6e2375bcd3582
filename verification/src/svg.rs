//! What a conversion reads of an SVG, and the raster images it draws on.

use tiny_skia::Pixmap;
use usvg::{Group, NonZeroRect, Rect, Transform, Tree};
use vstd::arithmetic::power2::*;
use vstd::prelude::*;

use crate::binary32::Binary32;
use crate::size::Size;

verus! {

/// A parsed SVG.
#[verifier::external_type_specification]
#[verifier::external_body]
pub struct ExTree(usvg::Tree);

/// A group of an SVG.
#[verifier::external_type_specification]
#[verifier::external_body]
pub struct ExGroup(usvg::Group);

/// A rectangle with extents above zero.
#[verifier::external_type_specification]
#[verifier::external_body]
pub struct ExNonZeroRect(usvg::NonZeroRect);

/// An affine transform.
#[verifier::external_type_specification]
#[verifier::external_body]
pub struct ExTransform(usvg::Transform);

/// A raster image.
#[verifier::external_type_specification]
#[verifier::external_body]
pub struct ExPixmap(tiny_skia::Pixmap);

/// The size of an SVG.
pub uninterp spec fn tree_size(tree: Tree) -> Size;

/// The bounding box of the layer on which a group is drawn, in the coordinates
/// of the group.
pub uninterp spec fn group_layer(group: Group) -> NonZeroRect;

/// The bounding box of the layer on which a group is drawn, in the coordinates
/// of the canvas.
pub uninterp spec fn group_abs_layer(group: Group) -> NonZeroRect;

/// The transform of a group.
pub uninterp spec fn group_transform(group: Group) -> Transform;

/// The extents of a rectangle.
pub uninterp spec fn rect_size(rect: NonZeroRect) -> Size;

/// The bits of the coordinates of a rectangle's upper left corner.
pub uninterp spec fn rect_origin(rect: NonZeroRect) -> (u32, u32);

/// The bounding box of a transformed rectangle, if it is a rectangle with
/// finite corners and extents above zero. Where a coordinate of its corner is
/// zero, this is one of the two boxes that differ in the sign of that zero.
pub uninterp spec fn rect_transformed(rect: NonZeroRect, transform: Transform) -> Option<NonZeroRect>;

/// Whether a rectangle can be built from the position and the extents of this
/// one.
pub uninterp spec fn rect_rebuilds(rect: NonZeroRect) -> bool;

/// The bits of the coefficients of a transform, in the order of a PDF matrix:
/// both of the first column, both of the second, and the translation.
pub uninterp spec fn transform_parts(transform: Transform) -> (u32, u32, u32, u32, u32, u32);

/// The coefficients of the transform that applies the second transform, and then
/// the first.
pub uninterp spec fn concatenated(
    first: (u32, u32, u32, u32, u32, u32),
    second: (u32, u32, u32, u32, u32, u32),
) -> (u32, u32, u32, u32, u32, u32);

/// The width and height of a raster image in pixels.
pub uninterp spec fn pixmap_size(pixmap: Pixmap) -> (u32, u32);

/// The pixels of a raster image, row by row, with four bytes for each.
pub uninterp spec fn pixmap_data(pixmap: Pixmap) -> Seq<u8>;

/// A raster image as a PNG file, if it can be encoded.
pub uninterp spec fn png_file(width: u32, height: u32, data: Seq<u8>) -> Option<Seq<u8>>;

/// The bits of the number one.
pub const ONE_BITS: u32 = 0x3f80_0000;

/// The bits of zero with a negative sign.
pub const NEGATIVE_ZERO_BITS: u32 = 0x8000_0000;

/// Whether these are the bits of zero, with either sign.
pub open spec fn is_zero(bits: u32) -> bool {
    bits == 0 || bits == NEGATIVE_ZERO_BITS
}

/// Whether these are the bits of the same number, where zeros of either sign are
/// the same.
pub open spec fn same_number(a: u32, b: u32) -> bool {
    a == b || (is_zero(a) && is_zero(b))
}

/// Two rectangles have the same corner and the same extents.
pub open spec fn same_place(a: NonZeroRect, b: NonZeroRect) -> bool {
    &&& rect_size(a) == rect_size(b)
    &&& same_number(rect_origin(a).0, rect_origin(b).0)
    &&& same_number(rect_origin(a).1, rect_origin(b).1)
}

/// The bits of a number with its sign turned.
pub open spec fn negated(bits: u32) -> u32 {
    if bits < NEGATIVE_ZERO_BITS {
        (bits + NEGATIVE_ZERO_BITS) as u32
    } else {
        (bits - NEGATIVE_ZERO_BITS) as u32
    }
}

/// The coefficients of a transform that scales by the number with these bits.
pub open spec fn scaling(factor: u32) -> (u32, u32, u32, u32, u32, u32) {
    (factor, 0, 0, factor, 0, 0)
}

/// The coefficients of a transform that moves by the numbers with these bits.
pub open spec fn translation(x: u32, y: u32) -> (u32, u32, u32, u32, u32, u32) {
    (ONE_BITS, 0, 0, ONE_BITS, x, y)
}

/// All coefficients of a transform are finite.
pub open spec fn all_finite(parts: (u32, u32, u32, u32, u32, u32)) -> bool {
    &&& (Binary32 { bits: parts.0 }).is_finite()
    &&& (Binary32 { bits: parts.1 }).is_finite()
    &&& (Binary32 { bits: parts.2 }).is_finite()
    &&& (Binary32 { bits: parts.3 }).is_finite()
    &&& (Binary32 { bits: parts.4 }).is_finite()
    &&& (Binary32 { bits: parts.5 }).is_finite()
}

/// The bits of a number without its sign.
pub open spec fn magnitude(bits: u32) -> int {
    if bits < NEGATIVE_ZERO_BITS {
        bits as int
    } else {
        bits - NEGATIVE_ZERO_BITS
    }
}

/// What a number with a sign counts in units of `2^-149`.
pub open spec fn signed_units(bits: u32) -> int {
    if bits < NEGATIVE_ZERO_BITS {
        Binary32::units(magnitude(bits))
    } else {
        -Binary32::units(magnitude(bits))
    }
}

/// The bits are those of `num / den` units, rounded to the nearest number. The
/// sign is kept, but zero may have either.
pub open spec fn is_rounded(num: int, den: int, bits: u32) -> bool {
    &&& Binary32::is_nearest(if num < 0 { -num } else { num }, den, magnitude(bits))
    &&& num > 0 ==> bits < NEGATIVE_ZERO_BITS
    &&& num < 0 ==> bits >= NEGATIVE_ZERO_BITS
}

/// The bits are those of the product of two numbers with signs.
pub open spec fn is_signed_product(a: u32, b: u32, bits: u32) -> bool {
    is_rounded(signed_units(a) * signed_units(b), pow2(149) as int, bits)
}

/// The bits are those of the sum of two numbers with signs. The second is
/// finite.
pub open spec fn is_signed_sum(a: u32, b: u32, bits: u32) -> bool {
    if (Binary32 { bits: a }).is_finite() {
        is_rounded(signed_units(a) + signed_units(b), 1, bits)
    } else {
        bits == a
    }
}

/// Along one axis, a transform scales by `scale` and moves by `shift`, because it
/// scales and moves by the second pair of numbers, and then by the first. All
/// results are rounded one by one.
pub open spec fn is_axis(
    first_scale: u32,
    first_shift: u32,
    second_scale: u32,
    second_shift: u32,
    scale: u32,
    shift: u32,
) -> bool {
    &&& is_signed_product(first_scale, second_scale, scale)
    &&& forall|p: u32| #[trigger]
        is_signed_product(first_scale, second_shift, p) ==> is_signed_sum(p, first_shift, shift)
}

/// A transform neither skews nor rotates.
pub open spec fn is_upright(parts: (u32, u32, u32, u32, u32, u32)) -> bool {
    is_zero(parts.1) && is_zero(parts.2)
}

/// An upright transform applies the second of two upright transforms, and then
/// the first.
pub open spec fn composes(
    first: (u32, u32, u32, u32, u32, u32),
    second: (u32, u32, u32, u32, u32, u32),
    result: (u32, u32, u32, u32, u32, u32),
) -> bool {
    &&& is_upright(result)
    &&& is_axis(first.0, first.4, second.0, second.4, result.0, result.4)
    &&& is_axis(first.3, first.5, second.3, second.5, result.3, result.5)
}

/// A transform with these coefficients changes nothing.
pub open spec fn is_identity(parts: (u32, u32, u32, u32, u32, u32)) -> bool {
    &&& parts.0 == ONE_BITS
    &&& is_zero(parts.1)
    &&& is_zero(parts.2)
    &&& parts.3 == ONE_BITS
    &&& is_zero(parts.4)
    &&& is_zero(parts.5)
}

/// A rectangle can be transformed: nothing is to be done, or it can be rebuilt.
pub open spec fn can_transform(rect: NonZeroRect, transform: Transform) -> bool {
    is_identity(transform_parts(transform)) || rect_rebuilds(rect)
}

/// Pixels of transparent black.
pub open spec fn blank(width: u32, height: u32) -> Seq<u8> {
    Seq::new((4 * width * height) as nat, |i: int| 0u8)
}

/// `Tree::size`, by the bits of its width and height. Both are finite and
/// above zero.
#[verifier::external_body]
pub(crate) fn read_tree_size(tree: &Tree) -> (size: Size)
    ensures
        size == tree_size(*tree),
        size.wf(),
{
    let size = tree.size();
    Size {
        width: Binary32 { bits: size.width().to_bits() },
        height: Binary32 { bits: size.height().to_bits() },
    }
}

/// `Group::layer_bounding_box`.
#[verifier::external_body]
pub(crate) fn read_group_layer(group: &Group) -> (layer: NonZeroRect)
    ensures
        layer == group_layer(*group),
{
    group.layer_bounding_box()
}

/// `Group::abs_layer_bounding_box`.
#[verifier::external_body]
pub(crate) fn read_group_abs_layer(group: &Group) -> (layer: NonZeroRect)
    ensures
        layer == group_abs_layer(*group),
{
    group.abs_layer_bounding_box()
}

/// `Group::transform`.
#[verifier::external_body]
pub(crate) fn read_group_transform(group: &Group) -> (transform: Transform)
    ensures
        transform == group_transform(*group),
{
    group.transform()
}

/// `NonZeroRect::width` and `NonZeroRect::height`, by their bits. Both are
/// finite and above zero.
#[verifier::external_body]
pub(crate) fn read_rect_size(rect: &NonZeroRect) -> (size: Size)
    ensures
        size == rect_size(*rect),
        size.wf(),
{
    Size {
        width: Binary32 { bits: rect.width().to_bits() },
        height: Binary32 { bits: rect.height().to_bits() },
    }
}

/// `Rect::from_xywh`, with the position and the extents of a rectangle: whether
/// there is such a rectangle. Adding an extent to the position can leave the
/// number range.
#[verifier::external_body]
pub(crate) fn rebuilds(rect: &NonZeroRect) -> (result: bool)
    ensures
        result == rect_rebuilds(*rect),
{
    Rect::from_xywh(rect.x(), rect.y(), rect.width(), rect.height()).is_some()
}

/// `Transform::sx` and the other coefficients, by their bits.
#[verifier::external_body]
pub(crate) fn read_transform_parts(transform: &Transform) -> (parts: (
    u32,
    u32,
    u32,
    u32,
    u32,
    u32,
))
    ensures
        parts == transform_parts(*transform),
{
    (
        transform.sx.to_bits(),
        transform.ky.to_bits(),
        transform.kx.to_bits(),
        transform.sy.to_bits(),
        transform.tx.to_bits(),
        transform.ty.to_bits(),
    )
}

/// `Transform::from_translate`, by the coordinates of a rectangle's upper left
/// corner, which are finite.
#[verifier::external_body]
pub(crate) fn move_to(rect: &NonZeroRect) -> (transform: Transform)
    ensures
        transform_parts(transform) == translation(rect_origin(*rect).0, rect_origin(*rect).1),
        all_finite(transform_parts(transform)),
{
    Transform::from_translate(rect.x(), rect.y())
}

/// `Transform::from_translate`, by the same coordinates with their signs turned.
#[verifier::external_body]
pub(crate) fn move_from(rect: &NonZeroRect) -> (transform: Transform)
    ensures
        transform_parts(transform) == translation(
            negated(rect_origin(*rect).0),
            negated(rect_origin(*rect).1),
        ),
        all_finite(transform_parts(transform)),
{
    Transform::from_translate(-rect.x(), -rect.y())
}

/// `Transform::pre_concat`. Upright transforms are composed axis by axis. Of
/// transforms with infinite coefficients nothing is said: what is not a number
/// has no fixed bits.
#[verifier::external_body]
pub(crate) fn pre_concat(first: &Transform, second: Transform) -> (transform: Transform)
    ensures
        all_finite(transform_parts(*first)) && all_finite(transform_parts(second))
            ==> transform_parts(transform) == concatenated(
            transform_parts(*first),
            transform_parts(second),
        ),
        all_finite(transform_parts(*first)) && all_finite(transform_parts(second)) && is_upright(
            transform_parts(*first),
        ) && is_upright(transform_parts(second)) ==> composes(
            transform_parts(*first),
            transform_parts(second),
            transform_parts(transform),
        ),
{
    first.pre_concat(second)
}

/// `NonZeroRect::transform`. Unless the transform changes nothing, it rebuilds
/// the rectangle from its position and its extents first, and panics where there
/// is no such rectangle. The corners are compared by `min` and `max`, which may
/// take either of two zeros, so that the sign of a zero is left open.
#[verifier::external_body]
pub(crate) fn transform_rect(rect: &NonZeroRect, transform: Transform) -> (result: Option<
    NonZeroRect,
>)
    requires
        can_transform(*rect, transform),
    ensures
        result is Some == rect_transformed(*rect, transform) is Some,
        result is Some ==> same_place(result->0, rect_transformed(*rect, transform)->0),
{
    rect.transform(transform)
}

/// `Pixmap::new`: an image of transparent black pixels. There is none without
/// pixels, and none whose rows take more bytes than an `i32` can count. The
/// pixels together take at most as many bytes as one allocation can have.
#[verifier::external_body]
pub(crate) fn new_pixmap(width: u32, height: u32) -> (result: Option<Pixmap>)
    requires
        4 * width * height <= isize::MAX,
    ensures
        result is Some == (width > 0 && height > 0 && 4 * width <= i32::MAX),
        result is Some ==> pixmap_size(result->0) == (width, height),
        result is Some ==> pixmap_data(result->0) == blank(width, height),
{
    Pixmap::new(width, height)
}

/// `Pixmap::encode_png`, without the reason of a failure.
#[verifier::external_body]
pub(crate) fn encode_png(pixmap: &Pixmap) -> (file: Option<Vec<u8>>)
    ensures
        match png_file(pixmap_size(*pixmap).0, pixmap_size(*pixmap).1, pixmap_data(*pixmap)) {
            Some(bytes) => file matches Some(file) && file@ == bytes,
            None => file is None,
        },
{
    pixmap.encode_png().ok()
}

/// Whether a transform scales by the number with these bits.
pub(crate) fn is_scaling(transform: &Transform, factor: u32) -> (result: bool)
    ensures
        result == (transform_parts(*transform) == scaling(factor)),
{
    let (a, b, c, d, e, f): (u32, u32, u32, u32, u32, u32) = read_transform_parts(transform);
    a == factor && b == 0 && c == 0 && d == factor && e == 0 && f == 0
}

/// Whether all coefficients of a transform are finite.
pub(crate) fn has_finite_parts(transform: &Transform) -> (result: bool)
    ensures
        result == all_finite(transform_parts(*transform)),
{
    let (a, b, c, d, e, f): (u32, u32, u32, u32, u32, u32) = read_transform_parts(transform);
    (Binary32 { bits: a }).has_finite_value() && (Binary32 { bits: b }).has_finite_value()
        && (Binary32 { bits: c }).has_finite_value() && (Binary32 { bits: d }).has_finite_value()
        && (Binary32 { bits: e }).has_finite_value() && (Binary32 { bits: f }).has_finite_value()
}

/// Whether a transform changes nothing.
pub(crate) fn changes_nothing(transform: &Transform) -> (result: bool)
    ensures
        result == is_identity(transform_parts(*transform)),
{
    let (a, b, c, d, e, f): (u32, u32, u32, u32, u32, u32) = read_transform_parts(transform);
    a == ONE_BITS && (b == 0 || b == NEGATIVE_ZERO_BITS) && (c == 0 || c == NEGATIVE_ZERO_BITS) && d
        == ONE_BITS && (e == 0 || e == NEGATIVE_ZERO_BITS) && (f == 0 || f == NEGATIVE_ZERO_BITS)
}

} // verus!
