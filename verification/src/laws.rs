//! What holds of a conversion as a whole.

pub mod files;
pub mod images;
pub mod numbers;
pub mod pages;

use pdf_writer::Chunk;
use usvg::NonZeroRect;
use vstd::arithmetic::power::*;
use vstd::arithmetic::power2::*;
use vstd::prelude::*;

use crate::binary32;
use crate::binary32::Binary32;
use crate::conversion;
use crate::conversion::{DrawnPage, WrittenPage};
use crate::error::ConversionError;
use crate::options::{DEFAULT_RASTER_SCALE_BITS, POINTS_PER_INCH_BITS};
use crate::pdf;
use crate::render::filter;
use crate::render::filter::{FilterLayer, MAX_FILTER_PIXELS};
use crate::size::Size;
use crate::svg;

verus! {

/// The default DPI is 72, and the default raster scale is three halves.
pub proof fn law_default_values()
    ensures
        Binary32::units(POINTS_PER_INCH_BITS as int) == 72 * pow2(149),
        2 * Binary32::units(DEFAULT_RASTER_SCALE_BITS as int) == 3 * pow2(149),
{
    lemma2_to64();
    lemma_pow2_adds(20, 132);
    lemma_pow2_adds(3, 149);
    lemma_pow2_adds(22, 126);
    lemma_pow2_adds(1, 148);
    assert(POINTS_PER_INCH_BITS as int / 0x80_0000 == 133);
    assert(POINTS_PER_INCH_BITS as int % 0x80_0000 == 0x10_0000);
    assert(pow2(152) == 0x10_0000 * pow2(132));
    assert(pow2(152) == 8 * pow2(149));
    assert(DEFAULT_RASTER_SCALE_BITS as int / 0x80_0000 == 127);
    assert(DEFAULT_RASTER_SCALE_BITS as int % 0x80_0000 == 0x40_0000);
    assert(pow2(148) == 0x40_0000 * pow2(126));
    assert(pow2(149) == 2 * pow2(148));
}

/// At 72 DPI a user unit is a point: the page has the size of the SVG.
pub proof fn law_default_dpi_keeps_size(size: Size)
    requires
        size.wf(),
    ensures
        conversion::page_size(size, Binary32 { bits: POINTS_PER_INCH_BITS }) == Some(size),
{
    let points: Binary32 = Binary32 { bits: POINTS_PER_INCH_BITS };
    let one: Binary32 = Binary32 { bits: svg::ONE_BITS };
    let unit: int = pow2(149) as int;
    lemma2_to64();
    lemma_pow2_adds(23, 126);
    lemma_pow2_pos(149);
    law_default_values();
    assert(Binary32::units(one.bits as int) == unit);
    let u: int = Binary32::units(points.bits as int);
    assert(u * unit == unit * u && u > 0) by (nonlinear_arith)
        requires
            u == 72 * unit,
            unit > 0,
    ;
    binary32::lemma_rounded_exact(one.bits as int, u);
    assert(conversion::dpi_ratio(points) == one);
    binary32::lemma_rounded_exact(size.width.bits as int, unit);
    binary32::lemma_rounded_exact(size.height.bits as int, unit);
    assert(size.width.product(one) == size.width);
    assert(size.height.product(one) == size.height);
}

/// A higher DPI makes the page smaller, or leaves it as it is.
pub proof fn law_higher_dpi_never_enlarges(size: Size, low: Binary32, high: Binary32)
    requires
        size.wf(),
        low.is_positive_finite(),
        high.is_positive_finite(),
        low.bits <= high.bits,
        conversion::page_size(size, low) is Some,
        conversion::page_size(size, high) is Some,
    ensures
        ({
            let larger: Size = conversion::page_size(size, low)->0;
            let smaller: Size = conversion::page_size(size, high)->0;
            smaller.width.bits <= larger.width.bits && smaller.height.bits <= larger.height.bits
        }),
{
    let points: Binary32 = Binary32 { bits: POINTS_PER_INCH_BITS };
    let less: Binary32 = conversion::dpi_ratio(high);
    let more: Binary32 = conversion::dpi_ratio(low);
    binary32::lemma_quotient_turns_order(points, low, high);
    binary32::lemma_product_keeps_order(less, more, size.width);
    binary32::lemma_product_keeps_order(less, more, size.height);
}

/// A temporary filter image has at least one pixel, and its pixels take at most
/// 64 MiB.
pub proof fn law_filter_image_is_bounded(size: Size)
    requires
        filter::dimensions(size) is Ok,
    ensures
        ({
            let (width, height): (u32, u32) = filter::dimensions(size)->Ok_0;
            1 <= width * height <= MAX_FILTER_PIXELS && svg::blank(width, height).len() <= 64 * 1024
                * 1024
        }),
{
    let (width, height): (u32, u32) = filter::dimensions(size)->Ok_0;
    assert(width >= 1 && height >= 1);
    assert(width * height >= 1) by (nonlinear_arith)
        requires
            width >= 1,
            height >= 1,
    ;
    assert(4 * width * height == 4 * (width * height)) by (nonlinear_arith);
}

/// A higher raster scale gives a larger filter image, or one of the same
/// dimensions. In particular a layer that is within the pixel limit at one
/// scale is not too large at any lower one.
pub proof fn law_raster_scale_keeps_order(layer: Size, low: Binary32, high: Binary32)
    requires
        layer.wf(),
        low.is_positive(),
        high.is_positive(),
        low.bits <= high.bits,
        filter::raster_size(layer, high) is Ok,
    ensures
        match filter::raster_size(layer, low) {
            Ok((width, height)) => {
                let larger: (u32, u32) = filter::raster_size(layer, high)->Ok_0;
                width <= larger.0 && height <= larger.1
            },
            Err(error) => error == ConversionError::UnknownError,
        },
{
    binary32::lemma_product_keeps_order(low, high, layer.width);
    binary32::lemma_product_keeps_order(low, high, layer.height);
    let small: Size = Size { width: layer.width.product(low), height: layer.height.product(low) };
    let large: Size = Size { width: layer.width.product(high), height: layer.height.product(high) };
    binary32::lemma_nearest_integer_keeps_order(small.width, large.width);
    binary32::lemma_nearest_integer_keeps_order(small.height, large.height);
    let (w, h): (int, int) = (filter::pixels(small.width), filter::pixels(small.height));
    let (x, y): (int, int) = (filter::pixels(large.width), filter::pixels(large.height));
    assert(w * h <= x * y) by (nonlinear_arith)
        requires
            0 <= w <= x,
            0 <= h <= y,
    ;
}

/// A filter image that is too large for the number range is too large: at a
/// valid raster scale a layer gives an image within the pixel limit, or the error
/// for images above it, unless an extent vanishes.
pub proof fn law_oversized_images_are_reported(layer: Size, raster_scale: Binary32)
    requires
        layer.wf(),
        raster_scale.is_positive_finite(),
        layer.width.product(raster_scale).bits != 0,
        layer.height.product(raster_scale).bits != 0,
    ensures
        match filter::raster_size(layer, raster_scale) {
            Ok((width, height)) => width * height <= MAX_FILTER_PIXELS,
            Err(error) => error == ConversionError::FilterRegionTooLarge,
        },
{
    binary32::lemma_product_range(layer.width, raster_scale);
    binary32::lemma_product_range(layer.height, raster_scale);
}

/// The place of a filter image does not depend on the raster scale, which
/// changes the number of pixels only.
pub proof fn law_raster_scale_keeps_place(
    bbox: NonZeroRect,
    first_scale: Binary32,
    first: FilterLayer,
    second_scale: Binary32,
    second: FilterLayer,
)
    requires
        filter::layer_result(Some(bbox), svg::rect_size(bbox), first_scale, Ok(first)),
        filter::layer_result(Some(bbox), svg::rect_size(bbox), second_scale, Ok(second)),
    ensures
        svg::same_place(first.layer_bbox, second.layer_bbox),
{
}

/// The dictionary of the content stream goes on with the filter entry right
/// after its length exactly when the content is compressed.
pub proof fn law_compressed_streams_name_their_filter(
    page: DrawnPage,
    after: Chunk,
    content: Seq<u8>,
    entries: pdf::PageEntries,
)
    requires
        page.page_follows(after, content, entries),
    ensures
        ({
            let before: Seq<u8> = pdf::chunk_bytes(page.spec_chunk());
            let head: Seq<u8> = before + pdf::decimal(page.spec_refs().content as int) + pdf::ascii(
                " 0 obj\n"@,
            ) + pdf::ascii("<<\n  /Length "@) + pdf::decimal(content.len() as int);
            let bytes: Seq<u8> = pdf::chunk_bytes(after);
            &&& head.is_prefix_of(bytes)
            &&& (head + pdf::ascii("\n  /Filter /FlateDecode"@)).is_prefix_of(bytes)
                <==> page.spec_layout().compress
            &&& (head + pdf::ascii("\n>>\nstream\n"@) + content).is_prefix_of(bytes)
                <==> !page.spec_layout().compress
        }),
{
    reveal_strlit("\n  /Filter /FlateDecode");
    reveal_strlit("\n>>\nstream\n");
    let before: Seq<u8> = pdf::chunk_bytes(page.spec_chunk());
    let head: Seq<u8> = before + pdf::decimal(page.spec_refs().content as int) + pdf::ascii(
        " 0 obj\n"@,
    ) + pdf::ascii("<<\n  /Length "@) + pdf::decimal(content.len() as int);
    let deflated: Seq<u8> = head + pdf::ascii("\n  /Filter /FlateDecode"@);
    let plain: Seq<u8> = head + pdf::ascii("\n>>\nstream\n"@) + content;
    let bytes: Seq<u8> = pdf::chunk_bytes(after);
    let second: int = head.len() + 1int;
    assert(deflated[second] == ' ' as u8);
    assert(plain[second] == '>' as u8);
    assert(head =~= bytes.subrange(0, head.len() as int));
    if page.spec_layout().compress {
        assert(deflated =~= bytes.subrange(0, deflated.len() as int));
        assert(bytes[second] == bytes.subrange(0, deflated.len() as int)[second]);
        if plain.is_prefix_of(bytes) {
            assert(bytes[second] == bytes.subrange(0, plain.len() as int)[second]);
        }
    } else {
        assert(plain =~= bytes.subrange(0, plain.len() as int));
        assert(bytes[second] == bytes.subrange(0, plain.len() as int)[second]);
        if deflated.is_prefix_of(bytes) {
            assert(bytes[second] == bytes.subrange(0, deflated.len() as int)[second]);
        }
    }
}

/// Two conversions that differ in compression hold the same content: if what is
/// written compressed inflates to what is written as it stands, then the data of
/// the one content stream inflate to the data of the other. Only the compressed
/// one names a filter.
pub proof fn law_compression_keeps_content(
    plain_page: DrawnPage,
    plain_after: Chunk,
    plain_entries: pdf::PageEntries,
    plain: Seq<u8>,
    deflated_page: DrawnPage,
    deflated_after: Chunk,
    deflated_entries: pdf::PageEntries,
    deflated: Seq<u8>,
    inflate: spec_fn(Seq<u8>) -> Seq<u8>,
)
    requires
        !plain_page.spec_layout().compress,
        plain_page.page_follows(plain_after, plain, plain_entries),
        deflated_page.spec_layout().compress,
        deflated_page.page_follows(deflated_after, deflated, deflated_entries),
        inflate(deflated) == plain,
    ensures
        ({
            let plain_head: Seq<u8> = pdf::chunk_bytes(plain_page.spec_chunk()) + pdf::stream_head(
                plain_page.spec_refs().content as int,
                plain.len() as int,
                false,
            );
            let deflated_head: Seq<u8> = pdf::chunk_bytes(deflated_page.spec_chunk())
                + pdf::stream_head(
                deflated_page.spec_refs().content as int,
                deflated.len() as int,
                true,
            );
            let plain_data: Seq<u8> = pdf::chunk_bytes(plain_after).subrange(
                plain_head.len() as int,
                (plain_head.len() + plain.len()) as int,
            );
            let deflated_data: Seq<u8> = pdf::chunk_bytes(deflated_after).subrange(
                deflated_head.len() as int,
                (deflated_head.len() + deflated.len()) as int,
            );
            &&& plain_head.is_prefix_of(pdf::chunk_bytes(plain_after))
            &&& deflated_head.is_prefix_of(pdf::chunk_bytes(deflated_after))
            &&& inflate(deflated_data) == plain_data
        }),
{
    lemma_stream_data(plain_page, plain_after, plain, plain_entries);
    lemma_stream_data(deflated_page, deflated_after, deflated, deflated_entries);
}

/// The content follows the head of its stream.
proof fn lemma_stream_data(
    page: DrawnPage,
    after: Chunk,
    content: Seq<u8>,
    entries: pdf::PageEntries,
)
    requires
        page.page_follows(after, content, entries),
    ensures
        ({
            let head: Seq<u8> = pdf::chunk_bytes(page.spec_chunk()) + pdf::stream_head(
                page.spec_refs().content as int,
                content.len() as int,
                page.spec_layout().compress,
            );
            &&& head.is_prefix_of(pdf::chunk_bytes(after))
            &&& pdf::chunk_bytes(after).subrange(
                head.len() as int,
                (head.len() + content.len()) as int,
            ) == content
        }),
{
    let before: Seq<u8> = pdf::chunk_bytes(page.spec_chunk());
    let id: int = page.spec_refs().content as int;
    let deflated: bool = page.spec_layout().compress;
    let head: Seq<u8> = pdf::stream_head(id, content.len() as int, deflated);
    let rest: Seq<u8> = pdf::ascii("\nendstream"@) + pdf::ascii("\nendobj\n\n"@);
    lemma_stream_object(id, content, deflated);
    lemma_middle(before, head, content, rest, pdf::page_object(page.spec_refs().page as int, entries));
}

/// A stream is its head, its data, and its end.
proof fn lemma_stream_object(id: int, content: Seq<u8>, deflated: bool)
    ensures
        pdf::stream_object(id, content, deflated) == pdf::stream_head(
            id,
            content.len() as int,
            deflated,
        ) + content + (pdf::ascii("\nendstream"@) + pdf::ascii("\nendobj\n\n"@)),
{
    assert(pdf::stream_object(id, content, deflated) =~= pdf::stream_head(
        id,
        content.len() as int,
        deflated,
    ) + content + (pdf::ascii("\nendstream"@) + pdf::ascii("\nendobj\n\n"@)));
}

/// A part of a text is found after what stands before it.
proof fn lemma_middle(
    before: Seq<u8>,
    head: Seq<u8>,
    part: Seq<u8>,
    end: Seq<u8>,
    after: Seq<u8>,
)
    ensures
        ({
            let text: Seq<u8> = before + (head + part + end) + after;
            &&& (before + head).is_prefix_of(text)
            &&& text.subrange(
                (before + head).len() as int,
                ((before + head).len() + part.len()) as int,
            ) == part
        }),
{
    let text: Seq<u8> = before + (head + part + end) + after;
    assert(before + head =~= text.subrange(0, (before + head).len() as int));
    assert(text.subrange(
        (before + head).len() as int,
        ((before + head).len() + part.len()) as int,
    ) =~= part);
}

/// A finished file starts with all objects as they were written. The
/// cross-reference table follows them, at the position that stands before the
/// end-of-file marker.
pub proof fn law_file_keeps_objects(page: WrittenPage, document_info: int)
    ensures
        ({
            let bytes: Seq<u8> = pdf::chunk_bytes(page.spec_chunk()) + pdf::info_object(
                document_info,
                conversion::PRODUCER@,
            );
            let start: int = bytes.len() as int;
            let file: Seq<u8> = page.file(document_info);
            let end: Seq<u8> = pdf::ascii("\nstartxref\n"@) + pdf::decimal(start) + pdf::ascii(
                "\n%%EOF"@,
            );
            &&& file.len() >= start + 4 + end.len()
            &&& file.take(start) == bytes
            &&& file.subrange(start, start + 4) == pdf::ascii("xref"@)
            &&& file.skip(file.len() - end.len()) == end
        }),
{
    reveal_strlit("xref");
    reveal_strlit("xref\n0 ");
    reveal_strlit("\n>>\nstartxref\n");
    reveal_strlit("\nstartxref\n");
    reveal_strlit("\n%%EOF");
    let bytes: Seq<u8> = pdf::chunk_bytes(page.spec_chunk()) + pdf::info_object(
        document_info,
        conversion::PRODUCER@,
    );
    let start: int = bytes.len() as int;
    let file: Seq<u8> = page.file(document_info);
    let end: Seq<u8> = pdf::ascii("\nstartxref\n"@) + pdf::decimal(start) + pdf::ascii(
        "\n%%EOF"@,
    );
    assert(file.take(start) =~= bytes);
    assert(file.subrange(start, start + 4) =~= pdf::ascii("xref"@));
    assert(file.skip(file.len() - end.len()) =~= end);
}

/// The cross-reference table of a finished file finds every object: all entries
/// take twenty bytes, and the entry for the number of an object says where its
/// text starts. Positions take at most ten digits.
pub proof fn law_table_finds_objects(page: WrittenPage, document_info: int, i: int)
    requires
        page.accepts(document_info),
        0 <= i < page.all_objects(document_info).len(),
        forall|j: int|
            0 <= j < page.all_objects(document_info).len() ==> {
                let (id, position): (int, int) = #[trigger] page.all_objects(document_info)[j];
                0 < id && 0 <= position < 10_000_000_000
            },
    ensures
        ({
            let objects: Seq<(int, int)> = page.all_objects(document_info);
            let (id, position): (int, int) = objects[i];
            let bytes: Seq<u8> = pdf::chunk_bytes(page.spec_chunk()) + pdf::info_object(
                document_info,
                conversion::PRODUCER@,
            );
            let table: int = (bytes + pdf::xref_head(1 + pdf::highest_id(objects))).len() as int;
            let file: Seq<u8> = page.file(document_info);
            &&& table + 20 * id + 20 <= file.len()
            &&& file.subrange(table + 20 * id, table + 20 * id + 20) == pdf::padded(position)
                + pdf::ascii(" 00000 n\r\n"@)
        }),
{
    let objects: Seq<(int, int)> = page.all_objects(document_info);
    let (id, position): (int, int) = objects[i];
    let size: int = 1 + pdf::highest_id(objects);
    let bytes: Seq<u8> = pdf::chunk_bytes(page.spec_chunk()) + pdf::info_object(
        document_info,
        conversion::PRODUCER@,
    );
    let head: Seq<u8> = bytes + pdf::xref_head(size);
    let entries: Seq<u8> = pdf::xref_entries(objects, size);
    let file: Seq<u8> = page.file(document_info);
    lemma_highest_id(objects);
    lemma_entries(objects, size, id);
    assert(pdf::is_used(objects, id));
    assert(pdf::position(objects, id) == position);
    assert(file.subrange(head.len() as int, (head + entries).len() as int) =~= entries);
    assert(file.subrange(head.len() + 20 * id, head.len() + 20 * id + 20) =~= entries.subrange(
        20 * id,
        20 * id + 20,
    ));
}

/// A number below a power of ten has no more digits than the power has zeros.
proof fn lemma_decimal_len(n: int, digits: nat)
    requires
        0 <= n < pow(10, digits),
        digits > 0,
    ensures
        1 <= pdf::decimal(n).len() <= digits,
    decreases digits,
{
    reveal(pow);
    if n >= 10 {
        let less: nat = (digits - 1) as nat;
        assert(pow(10, digits) == 10 * pow(10, less));
        if less == 0 {
            assert(pow(10, less) == 1);
        }
        lemma_decimal_len(n / 10, less);
    }
}

pub(crate) proof fn lemma_padded_len(n: int)
    requires
        0 <= n < 10_000_000_000,
    ensures
        pdf::padded(n).len() == 10,
{
    assert(pow(10, 10) == 10_000_000_000) by {
        reveal(pow);
        reveal_with_fuel(pow, 11);
    }
    lemma_decimal_len(n, 10);
}

/// The highest number is that of an object, or zero where there is none.
pub(crate) proof fn lemma_highest_id(objects: Seq<(int, int)>)
    requires
        forall|i: int| 0 <= i < objects.len() ==> 0 < (#[trigger] objects[i]).0 < i32::MAX,
    ensures
        0 <= pdf::highest_id(objects) < i32::MAX,
        forall|i: int|
            0 <= i < objects.len() ==> (#[trigger] objects[i]).0 <= pdf::highest_id(objects),
    decreases objects.len(),
{
    if objects.len() > 0 {
        let before: Seq<(int, int)> = objects.drop_last();
        assert forall|i: int| 0 <= i < before.len() implies 0 < (#[trigger] before[i]).0
            < i32::MAX by {
            assert(before[i] == objects[i]);
        }
        lemma_highest_id(before);
        assert forall|i: int| 0 <= i < objects.len() implies (#[trigger] objects[i]).0
            <= pdf::highest_id(objects) by {
            if i < before.len() {
                assert(before[i] == objects[i]);
            }
        }
    }
}

proof fn lemma_entry_len(objects: Seq<(int, int)>, id: int)
    requires
        0 <= pdf::highest_id(objects) < i32::MAX,
        forall|i: int| 0 <= i < objects.len() ==> 0 <= (#[trigger] objects[i]).1 < 10_000_000_000,
    ensures
        pdf::xref_entry(objects, id).len() == 20,
{
    reveal_strlit(" 00000 n\r\n");
    reveal_strlit(" 65535 f\r\n");
    reveal_strlit(" 00000 f\r\n");
    if pdf::is_used(objects, id) {
        lemma_padded_len(pdf::position(objects, id));
    } else {
        lemma_padded_len(pdf::next_unused(objects, id + 1) % (1 + pdf::highest_id(objects)));
    }
}

/// The entry for a number starts at twenty times the number.
pub(crate) proof fn lemma_entries(objects: Seq<(int, int)>, end: int, id: int)
    requires
        0 <= pdf::highest_id(objects) < i32::MAX,
        forall|i: int| 0 <= i < objects.len() ==> 0 <= (#[trigger] objects[i]).1 < 10_000_000_000,
        0 <= end,
    ensures
        pdf::xref_entries(objects, end).len() == 20 * end,
        0 <= id < end ==> pdf::xref_entries(objects, end).subrange(20 * id, 20 * id + 20)
            == pdf::xref_entry(objects, id),
    decreases end,
{
    if end > 0 {
        lemma_entries(objects, end - 1, id);
        lemma_entry_len(objects, end - 1);
        let before: Seq<u8> = pdf::xref_entries(objects, end - 1);
        let all: Seq<u8> = pdf::xref_entries(objects, end);
        if id == end - 1 {
            assert(all.subrange(20 * id, 20 * id + 20) =~= pdf::xref_entry(objects, id));
        } else if 0 <= id < end {
            assert(all.subrange(20 * id, 20 * id + 20) =~= before.subrange(20 * id, 20 * id + 20));
        }
    }
}

} // verus!
