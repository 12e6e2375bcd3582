//! What holds of the files and chunks that a conversion writes.
//!
//! The laws follow a conversion from its inputs to the bytes that come out of
//! it, through what the stages hand out and take back.

use pdf_writer::writers::Resources;
use pdf_writer::{Chunk, Content, Rect};
use usvg::{Transform, Tree};
use vstd::arithmetic::power2::*;
use vstd::prelude::*;

use crate::binary32::Binary32;
use crate::conversion;
use crate::conversion::{
    ChunkCanvas, ChunkConversion, DrawnChunk, DrawnPage, PageCanvas, PageGeometry, PageLayout,
    PageRefs, PageStart, PdfConversion, WrittenPage,
};
use crate::error::ConversionError;
use crate::laws;
use crate::laws::numbers;
use crate::laws::pages;
use crate::options::{ConversionOptions, PageOptions};
use crate::pdf;
use crate::svg;

verus! {

/// A conversion to a file, with all that passed between the stages and their
/// caller.
pub struct FileRun<'a, F> {
    /// The SVG.
    pub tree: &'a Tree,
    /// The options of the conversion.
    pub conversion_options: ConversionOptions,
    /// The options of the page.
    pub page_options: PageOptions,
    /// The conversion, once the settings were accepted.
    pub conversion: PdfConversion<'a>,
    /// The layout of the page.
    pub layout: PageLayout,
    /// The transform that the caller made for the layout.
    pub dpi_transform: Transform,
    /// The rectangle that the caller made for the layout.
    pub media_box: Rect,
    /// The layout with both.
    pub geometry: PageGeometry,
    /// The numbers of the objects of the page.
    pub refs: PageRefs,
    /// The page with an open content stream.
    pub start: PageStart,
    /// The content stream as it was handed out.
    pub opened_content: Content,
    /// The page after the graphics state was saved.
    pub saved: PageStart,
    /// The content stream after the graphics state was saved.
    pub saved_content: Content,
    /// The page to draw on.
    pub canvas: PageCanvas,
    /// The objects that were handed out to draw on.
    pub opened_chunk: Chunk,
    /// The content stream that was handed out to draw on.
    pub scaled_content: Content,
    /// The page after the drawing.
    pub painted: PageCanvas,
    /// The objects after the drawing.
    pub painted_chunk: Chunk,
    /// The content stream after the drawing.
    pub painted_content: Content,
    /// The page without its content stream.
    pub page: DrawnPage,
    /// The content stream that was handed out to be turned into bytes.
    pub content: Content,
    /// The bytes of the content stream.
    pub stream: &'a [u8],
    /// What writes the resources.
    pub fill: F,
    /// The number of the colour profile.
    pub srgb: i32,
    /// The page that was written.
    pub written: WrittenPage,
    /// The objects with the page.
    pub page_chunk: Chunk,
    /// The page after the shared objects were written.
    pub complete: WrittenPage,
    /// The objects with the shared ones.
    pub complete_chunk: Chunk,
    /// The number of the document information.
    pub document_info: i32,
    /// The file.
    pub file: Vec<u8>,
}

impl<'a, F: FnOnce(&mut Resources<'_>)> FileRun<'a, F> {
    /// The stages were gone through one after another, and all went well. What
    /// was handed out in between is said where it is needed.
    pub open spec fn holds(self) -> bool {
        &&& call_ensures(
            conversion::to_pdf,
            (self.tree, self.conversion_options, self.page_options),
            Ok::<PdfConversion<'a>, ConversionError>(self.conversion),
        )
        &&& call_ensures(
            PdfConversion::lay_out,
            (self.conversion, Ok::<(), ConversionError>(())),
            Ok::<PageLayout, ConversionError>(self.layout),
        )
        &&& call_ensures(
            PageLayout::with_geometry,
            (self.layout, self.dpi_transform, self.media_box),
            Some(self.geometry),
        )
        &&& call_ensures(PageGeometry::begin, (self.geometry, self.refs), self.start)
        &&& call_ensures(
            PageStart::scaled,
            (self.saved, Ok::<(), ConversionError>(())),
            Ok::<PageCanvas, ConversionError>(self.canvas),
        )
        &&& call_ensures(
            PageCanvas::drawn,
            (self.painted, Ok::<(), ConversionError>(())),
            Ok::<(DrawnPage, Content), ConversionError>((self.page, self.content)),
        )
        &&& call_ensures(
            DrawnPage::write::<F>,
            (self.page, self.stream, self.fill, self.srgb),
            self.written,
        )
        &&& call_ensures(
            WrittenPage::finish,
            (self.complete, Ok::<i32, ConversionError>(self.document_info)),
            Ok::<Vec<u8>, ConversionError>(self.file),
        ) || call_ensures(
            WrittenPage::finish_checked,
            (self.complete, Ok::<i32, ConversionError>(self.document_info)),
            Some(Ok::<Vec<u8>, ConversionError>(self.file)),
        )
        &&& numbers::above_zero(svg::tree_size(*self.tree).width)
        &&& numbers::above_zero(svg::tree_size(*self.tree).height)
    }

    /// The objects of the file, with where each starts.
    pub open spec fn objects(self) -> Seq<(int, int)> {
        pdf::chunk_objects(self.complete_chunk).push(
            (self.document_info as int, pdf::chunk_bytes(self.complete_chunk).len() as int),
        )
    }

    /// The text of all objects.
    pub open spec fn body(self) -> Seq<u8> {
        pdf::chunk_bytes(self.complete_chunk) + numbered(
            self.document_info as int,
            pdf::ascii("<<\n  /Producer ("@) + pdf::ascii("svg2pdf"@) + pdf::ascii(")\n>>"@),
        )
    }
}

/// The number that decimal digits denote.
pub open spec fn denoted(digits: Seq<u8>) -> int
    decreases digits.len(),
{
    if digits.len() == 0 {
        0
    } else {
        10 * denoted(digits.drop_last()) + digits.last() - 48
    }
}

/// All bytes are decimal digits.
pub open spec fn are_digits(digits: Seq<u8>) -> bool {
    forall|i: int| 0 <= i < digits.len() ==> 48 <= #[trigger] digits[i] <= 57
}

/// A number is written in decimal digits that denote it, without leading zeros.
pub proof fn law_decimal(n: int)
    requires
        n >= 0,
    ensures
        denoted(pdf::decimal(n)) == n,
        are_digits(pdf::decimal(n)),
        pdf::decimal(n).len() > 0,
        n > 0 ==> pdf::decimal(n)[0] != 48,
    decreases n,
{
    let digits: Seq<u8> = pdf::decimal(n);
    if n < 10 {
        assert(digits.drop_last() =~= Seq::<u8>::empty());
        assert(denoted(digits.drop_last()) == 0);
    } else {
        law_decimal(n / 10);
        assert(digits.drop_last() =~= pdf::decimal(n / 10));
    }
}

/// An indirect object with this number.
pub open spec fn numbered(id: int, body: Seq<u8>) -> Seq<u8> {
    pdf::decimal(id) + pdf::ascii(" 0 obj\n"@) + body + pdf::ascii("\nendobj\n\n"@)
}

/// A reference to the object with this number.
pub open spec fn link(id: int) -> Seq<u8> {
    pdf::decimal(id) + pdf::ascii(" 0 R"@)
}

/// A finite number that is not negative, as it is written: integers that fit in
/// an `i32` in decimal digits, and others as the writer spells them.
pub open spec fn spell(bits: u32) -> Seq<u8> {
    let unit: int = pow2(149) as int;
    let value: int = numbers::worth(bits as int);
    if value % unit == 0 && value / unit <= 0x7fff_ffff {
        pdf::decimal(value / unit)
    } else {
        pdf::number_text(bits)
    }
}

/// A file opens with its header, the catalog, and a page tree with the page as
/// its only child.
pub proof fn law_file_opens_with_catalog_and_page_tree<F: FnOnce(&mut Resources<'_>)>(
    run: FileRun<'_, F>,
)
    requires
        run.holds(),
        exists|start: &mut PageStart, content: &mut Content|
            {
                &&& #[trigger] call_ensures(PageStart::content_mut, (start,), content)
                &&& *start == run.start && *content == run.opened_content
                &&& *final(start) == run.saved && *final(content) == run.saved_content
            },
        exists|canvas: &mut PageCanvas, parts: (&mut Chunk, &mut Content)|
            {
                &&& #[trigger] call_ensures(PageCanvas::canvas, (canvas,), parts)
                &&& *canvas == run.canvas && *parts.0 == run.opened_chunk && *parts.1
                    == run.scaled_content
                &&& *final(canvas) == run.painted
                &&& *final(parts.0) == run.painted_chunk
                &&& *final(parts.1) == run.painted_content
            },
        exists|page: &mut WrittenPage, chunk: &mut Chunk|
            {
                &&& #[trigger] call_ensures(WrittenPage::chunk_mut, (page,), chunk)
                &&& *page == run.written && *chunk == run.page_chunk
                &&& *final(page) == run.complete && *final(chunk) == run.complete_chunk
            },
    ensures
        ({
            let header: Seq<u8> = pdf::ascii("%PDF-1.7\n%"@) + seq![0x80u8, 0x80u8, 0x80u8, 0x80u8]
                + pdf::ascii("\n\n"@);
            let catalog: Seq<u8> = numbered(
                run.refs.catalog as int,
                pdf::ascii("<<\n  /Type /Catalog\n  /Pages "@) + link(run.refs.page_tree as int)
                    + pdf::ascii("\n>>"@),
            );
            let page_tree: Seq<u8> = numbered(
                run.refs.page_tree as int,
                pdf::ascii("<<\n  /Type /Pages\n  /Count "@) + pdf::decimal(1) + pdf::ascii(
                    "\n  /Kids ["@,
                ) + link(run.refs.page as int) + pdf::ascii("]\n>>"@),
            );
            &&& pdf::chunk_bytes(run.opened_chunk) == header + catalog + page_tree
            &&& pdf::chunk_objects(run.opened_chunk) == seq![
                (run.refs.catalog as int, header.len() as int),
                (run.refs.page_tree as int, (header + catalog).len() as int),
            ]
        }),
{
}

/// The content stream starts empty. Once the graphics state was saved, one
/// operator scales the drawing in both directions by the ratio of 72 to the DPI,
/// which is the ratio that the page was scaled by. The graphics state is
/// restored after the drawing.
pub proof fn law_content_is_scaled_like_the_page<F: FnOnce(&mut Resources<'_>)>(
    run: FileRun<'_, F>,
)
    requires
        run.holds(),
        exists|start: &mut PageStart, content: &mut Content|
            {
                &&& #[trigger] call_ensures(PageStart::content_mut, (start,), content)
                &&& *start == run.start && *content == run.opened_content
                &&& *final(start) == run.saved && *final(content) == run.saved_content
            },
        exists|canvas: &mut PageCanvas, parts: (&mut Chunk, &mut Content)|
            {
                &&& #[trigger] call_ensures(PageCanvas::canvas, (canvas,), parts)
                &&& *canvas == run.canvas && *parts.0 == run.opened_chunk && *parts.1
                    == run.scaled_content
                &&& *final(canvas) == run.painted
                &&& *final(parts.0) == run.painted_chunk
                &&& *final(parts.1) == run.painted_content
            },
        exists|page: &mut WrittenPage, chunk: &mut Chunk|
            {
                &&& #[trigger] call_ensures(WrittenPage::chunk_mut, (page,), chunk)
                &&& *page == run.written && *chunk == run.page_chunk
                &&& *final(page) == run.complete && *final(chunk) == run.complete_chunk
            },
    ensures
        pdf::content_bytes(run.opened_content) == Seq::<u8>::empty(),
        exists|ratio: Binary32|
            {
                &&& #[trigger] pages::is_ratio(run.page_options.dpi, ratio.bits as int)
                &&& numbers::above_zero(ratio)
                &&& pdf::content_bytes(run.scaled_content) == pdf::content_bytes(run.saved_content)
                    + (spell(ratio.bits) + pdf::ascii(" 0 0 "@) + spell(ratio.bits) + pdf::ascii(
                    " 0 0 cm\n"@,
                ))
                &&& numbers::is_product(
                    svg::tree_size(*run.tree).width,
                    ratio,
                    run.layout.page_size.width.bits as int,
                )
                &&& numbers::is_product(
                    svg::tree_size(*run.tree).height,
                    ratio,
                    run.layout.page_size.height.bits as int,
                )
            },
        pdf::content_bytes(run.content) == pdf::content_bytes(run.painted_content) + pdf::ascii(
            "Q\n"@,
        ),
{
    pages::law_page_is_scaled_by_the_dpi(
        run.tree,
        run.conversion_options,
        run.page_options,
        run.conversion,
        Ok(()),
        Ok(run.layout),
    );
    lemma_scale_operator(run.layout.dpi_ratio.bits);
}

/// The bytes of the content stream, as a stream object. It names the filter if
/// the content is compressed.
pub open spec fn content_object(id: int, stream: Seq<u8>, compress: bool) -> Seq<u8> {
    let filter: Seq<u8> = if compress {
        pdf::ascii("\n  /Filter /FlateDecode"@)
    } else {
        Seq::empty()
    };
    numbered(
        id,
        pdf::ascii("<<\n  /Length "@) + pdf::decimal(stream.len() as int) + filter + pdf::ascii(
            "\n>>\nstream\n"@,
        ) + stream + pdf::ascii("\nendstream"@),
    )
}

/// The page with these extents and resources. It shows the content stream.
pub open spec fn shown_page(
    refs: PageRefs,
    resources: Seq<u8>,
    width: u32,
    height: u32,
    srgb: int,
) -> Seq<u8> {
    numbered(
        refs.page as int,
        pdf::ascii("<<\n  /Type /Page\n  /Resources "@) + resources + pdf::ascii("\n  /MediaBox "@)
            + (pdf::ascii("[0 0 "@) + spell(width) + pdf::ascii(" "@) + spell(height) + pdf::ascii(
            "]"@,
        )) + pdf::ascii("\n  /Parent "@) + link(refs.page_tree as int) + pdf::ascii(
            "\n  /Group <<\n    /Type /Group\n    /S /Transparency\n    /I "@,
        ) + pdf::ascii("true"@) + pdf::ascii("\n    /K "@) + pdf::ascii("false"@) + pdf::ascii(
            "\n    /CS [/ICCBased "@,
        ) + link(srgb) + pdf::ascii("]\n  >>\n  /Contents "@) + link(refs.content as int)
            + pdf::ascii("\n>>"@),
    )
}

/// After what was drawn come the content stream and the page. The page refers to
/// that content stream, whatever its size is; it belongs to the page tree, and
/// its media box reaches from the origin to the scaled extents of the SVG.
pub proof fn law_page_shows_its_content<F: FnOnce(&mut Resources<'_>)>(run: FileRun<'_, F>)
    requires
        run.holds(),
        exists|start: &mut PageStart, content: &mut Content|
            {
                &&& #[trigger] call_ensures(PageStart::content_mut, (start,), content)
                &&& *start == run.start && *content == run.opened_content
                &&& *final(start) == run.saved && *final(content) == run.saved_content
            },
        exists|canvas: &mut PageCanvas, parts: (&mut Chunk, &mut Content)|
            {
                &&& #[trigger] call_ensures(PageCanvas::canvas, (canvas,), parts)
                &&& *canvas == run.canvas && *parts.0 == run.opened_chunk && *parts.1
                    == run.scaled_content
                &&& *final(canvas) == run.painted
                &&& *final(parts.0) == run.painted_chunk
                &&& *final(parts.1) == run.painted_content
            },
        exists|page: &mut WrittenPage, chunk: &mut Chunk|
            {
                &&& #[trigger] call_ensures(WrittenPage::chunk_mut, (page,), chunk)
                &&& *page == run.written && *chunk == run.page_chunk
                &&& *final(page) == run.complete && *final(chunk) == run.complete_chunk
            },
    ensures
        exists|resources: &mut Resources<'_>, text: Seq<u8>, ratio: Binary32, width: u32, height: u32|
            {
                let before: Seq<u8> = pdf::chunk_bytes(run.painted_chunk);
                let content: Seq<u8> = content_object(
                    run.refs.content as int,
                    run.stream@,
                    run.conversion_options.compress,
                );
                &&& #[trigger] call_ensures(run.fill, (resources,), ())
                &&& pdf::resources_text(*resources) == pdf::ascii("<<>>"@)
                &&& pdf::resources_place(*final(resources)) == pdf::resources_place(*resources)
                    ==> text == pdf::resources_text(*final(resources))
                &&& #[trigger] pages::is_ratio(run.page_options.dpi, ratio.bits as int)
                &&& numbers::is_product(svg::tree_size(*run.tree).width, ratio, width as int)
                &&& numbers::is_product(svg::tree_size(*run.tree).height, ratio, height as int)
                &&& pdf::chunk_bytes(run.page_chunk) == before + content + #[trigger] shown_page(
                    run.refs,
                    text,
                    width,
                    height,
                    run.srgb as int,
                )
                &&& pdf::chunk_objects(run.page_chunk) == pdf::chunk_objects(run.painted_chunk).push(
                    (run.refs.content as int, before.len() as int),
                ).push((run.refs.page as int, (before + content).len() as int))
            },
{
    pages::law_page_is_scaled_by_the_dpi(
        run.tree,
        run.conversion_options,
        run.page_options,
        run.conversion,
        Ok(()),
        Ok(run.layout),
    );
    let (w, h): (u32, u32) = (run.layout.page_size.width.bits, run.layout.page_size.height.bits);
    lemma_rectangle(w, h);
    let (resources, text): (&mut Resources<'_>, Seq<u8>) = choose|
        resources: &mut Resources<'_>,
        text: Seq<u8>,
    |
        {
            &&& #[trigger] call_ensures(run.fill, (resources,), ())
            &&& pdf::resources_text(*resources) == pdf::ascii("<<>>"@)
            &&& pdf::resources_place(*final(resources)) == pdf::resources_place(*resources) ==> text
                == pdf::resources_text(*final(resources))
            &&& run.page.page_follows(
                run.written.spec_chunk(),
                run.stream@,
                #[trigger] run.page.page_entries(text, run.srgb as int),
            )
        };
    assert(pages::is_ratio(run.page_options.dpi, run.layout.dpi_ratio.bits as int));
    assert(shown_page(run.refs, text, w, h, run.srgb as int) == pdf::page_object(
        run.refs.page as int,
        run.page.page_entries(text, run.srgb as int),
    ));
    assert(call_ensures(run.fill, (resources,), ()));
}

/// A file holds all objects, and the document information after them. Then come
/// the cross-reference table and the trailer, which names the catalog and the
/// document information, and says where the table starts.
pub proof fn law_file_is_closed<F: FnOnce(&mut Resources<'_>)>(run: FileRun<'_, F>)
    requires
        run.holds(),
        exists|start: &mut PageStart, content: &mut Content|
            {
                &&& #[trigger] call_ensures(PageStart::content_mut, (start,), content)
                &&& *start == run.start && *content == run.opened_content
                &&& *final(start) == run.saved && *final(content) == run.saved_content
            },
        exists|canvas: &mut PageCanvas, parts: (&mut Chunk, &mut Content)|
            {
                &&& #[trigger] call_ensures(PageCanvas::canvas, (canvas,), parts)
                &&& *canvas == run.canvas && *parts.0 == run.opened_chunk && *parts.1
                    == run.scaled_content
                &&& *final(canvas) == run.painted
                &&& *final(parts.0) == run.painted_chunk
                &&& *final(parts.1) == run.painted_content
            },
        exists|page: &mut WrittenPage, chunk: &mut Chunk|
            {
                &&& #[trigger] call_ensures(WrittenPage::chunk_mut, (page,), chunk)
                &&& *page == run.written && *chunk == run.page_chunk
                &&& *final(page) == run.complete && *final(chunk) == run.complete_chunk
            },
    ensures
        ({
            let size: int = 1 + pdf::highest_id(run.objects());
            run.file@ == run.body() + (pdf::ascii("xref\n0 "@) + pdf::decimal(size) + pdf::ascii(
                "\n"@,
            )) + pdf::xref_entries(run.objects(), size) + pdf::ascii("trailer\n<<\n  /Size "@)
                + pdf::decimal(size) + (pdf::ascii("\n  /Root "@) + link(run.refs.catalog as int)) + (
            pdf::ascii("\n  /Info "@) + link(run.document_info as int)) + pdf::ascii(
                "\n>>\nstartxref\n"@,
            ) + pdf::decimal(run.body().len() as int) + pdf::ascii("\n%%EOF"@)
        }),
{
}

/// A reader finds every object through the cross-reference table: its entry,
/// which starts at twenty times its number, has ten digits that denote where the
/// object starts.
pub proof fn law_reader_finds_objects<F: FnOnce(&mut Resources<'_>)>(run: FileRun<'_, F>, i: int)
    requires
        run.holds(),
        exists|start: &mut PageStart, content: &mut Content|
            {
                &&& #[trigger] call_ensures(PageStart::content_mut, (start,), content)
                &&& *start == run.start && *content == run.opened_content
                &&& *final(start) == run.saved && *final(content) == run.saved_content
            },
        exists|canvas: &mut PageCanvas, parts: (&mut Chunk, &mut Content)|
            {
                &&& #[trigger] call_ensures(PageCanvas::canvas, (canvas,), parts)
                &&& *canvas == run.canvas && *parts.0 == run.opened_chunk && *parts.1
                    == run.scaled_content
                &&& *final(canvas) == run.painted
                &&& *final(parts.0) == run.painted_chunk
                &&& *final(parts.1) == run.painted_content
            },
        exists|page: &mut WrittenPage, chunk: &mut Chunk|
            {
                &&& #[trigger] call_ensures(WrittenPage::chunk_mut, (page,), chunk)
                &&& *page == run.written && *chunk == run.page_chunk
                &&& *final(page) == run.complete && *final(chunk) == run.complete_chunk
            },
        0 <= i < run.objects().len(),
        forall|j: int|
            0 <= j < run.objects().len() ==> 0 < (#[trigger] run.objects()[j]).0 < i32::MAX,
        forall|j: int|
            0 <= j < run.objects().len() ==> 0 <= (#[trigger] run.objects()[j]).1 < 10_000_000_000,
        forall|j: int, k: int|
            0 <= j < k < run.objects().len() ==> (#[trigger] run.objects()[j]).0 != (
            #[trigger] run.objects()[k]).0,
    ensures
        ({
            let (id, position): (int, int) = run.objects()[i];
            let size: int = 1 + pdf::highest_id(run.objects());
            let head: Seq<u8> = pdf::ascii("xref\n0 "@) + pdf::decimal(size) + pdf::ascii("\n"@);
            let entry: int = (run.body() + head).len() + 20 * id;
            let digits: Seq<u8> = run.file@.subrange(entry, entry + 10);
            &&& entry + 20 <= run.file@.len()
            &&& are_digits(digits)
            &&& denoted(digits) == position
            &&& run.file@.subrange(entry + 10, entry + 20) == pdf::ascii(" 00000 n\r\n"@)
        }),
{
    law_file_is_closed(run);
    let objects: Seq<(int, int)> = run.objects();
    let (id, position): (int, int) = objects[i];
    let size: int = 1 + pdf::highest_id(objects);
    let head: Seq<u8> = run.body() + (pdf::ascii("xref\n0 "@) + pdf::decimal(size) + pdf::ascii(
        "\n"@,
    ));
    let entries: Seq<u8> = pdf::xref_entries(objects, size);
    laws::lemma_highest_id(objects);
    laws::lemma_entries(objects, size, id);
    assert(pdf::is_used(objects, id));
    assert(pdf::position(objects, id) == position);
    laws::lemma_padded_len(position);
    lemma_padded(position);
    let rest: Seq<u8> = pdf::ascii("trailer\n<<\n  /Size "@) + pdf::decimal(size) + (pdf::ascii(
        "\n  /Root "@,
    ) + link(run.refs.catalog as int)) + (pdf::ascii("\n  /Info "@) + link(
        run.document_info as int,
    )) + pdf::ascii("\n>>\nstartxref\n"@) + pdf::decimal(run.body().len() as int) + pdf::ascii(
        "\n%%EOF"@,
    );
    assert(run.file@ =~= head + entries + rest);
    let entry: int = head.len() + 20 * id;
    let text: Seq<u8> = pdf::xref_entry(objects, id);
    assert(text == entries.subrange(20 * id, 20 * id + 20));
    reveal_strlit(" 00000 n\r\n");
    assert(run.file@.subrange(entry, entry + 10) =~= text.subrange(0, 10));
    assert(run.file@.subrange(entry + 10, entry + 20) =~= text.subrange(10, 20));
    assert(text.subrange(0, 10) =~= pdf::padded(position));
    assert(text.subrange(10, 20) =~= pdf::ascii(" 00000 n\r\n"@));
}

/// The transform has to scale both axes by the ratio of the layout, and the
/// rectangle has to reach from the origin to the size of the page. All three
/// numbers are finite and above zero.
pub proof fn law_geometry_is_that_of_the_layout(
    layout: PageLayout,
    dpi_transform: Transform,
    media_box: Rect,
    result: Option<PageGeometry>,
)
    requires
        call_ensures(PageLayout::with_geometry, (layout, dpi_transform, media_box), result),
    ensures
        ({
            let ratio: u32 = layout.dpi_ratio.bits;
            let (width, height): (u32, u32) = (
                layout.page_size.width.bits,
                layout.page_size.height.bits,
            );
            result is Some <==> {
                &&& 0 < ratio < 0x7f80_0000
                &&& 0 < width < 0x7f80_0000
                &&& 0 < height < 0x7f80_0000
                &&& svg::transform_parts(dpi_transform) == (ratio, 0u32, 0u32, ratio, 0u32, 0u32)
                &&& pdf::rect_corners(media_box) == (0u32, 0u32, width, height)
            }
        }),
{
}

/// The document information may have a number above zero that no object has, as
/// long as no two objects share a number either. A file is made for such a
/// number, and for no other.
pub proof fn law_numbers_are_not_shared(
    taken: Chunk,
    page: WrittenPage,
    id: i32,
    accepted: bool,
    file: Option<Result<Vec<u8>, ConversionError>>,
)
    requires
        exists|handle: &mut WrittenPage, chunk: &mut Chunk|
            {
                &&& #[trigger] call_ensures(WrittenPage::chunk_mut, (handle,), chunk)
                &&& *final(handle) == page && *final(chunk) == taken
            },
        call_ensures(WrittenPage::accepts_id, (&page, id), accepted),
        call_ensures(WrittenPage::finish_checked, (page, Ok::<i32, ConversionError>(id)), file),
    ensures
        accepted <==> {
            let objects: Seq<(int, int)> = pdf::chunk_objects(taken);
            &&& 0 < id < i32::MAX
            &&& forall|i: int|
                0 <= i < objects.len() ==> (#[trigger] objects[i]).0 != id && objects[i].0
                    < i32::MAX
            &&& forall|i: int, j: int|
                0 <= i < j < objects.len() ==> (#[trigger] objects[i]).0 != (
                #[trigger] objects[j]).0
        },
        file is Some <==> accepted,
        file is Some ==> file->0 is Ok,
{
    let objects: Seq<(int, int)> = pdf::chunk_objects(taken);
    let all: Seq<(int, int)> = objects.push((id as int, pdf::chunk_bytes(taken).len() as int));
    assert(forall|i: int| 0 <= i < objects.len() ==> all[i] == #[trigger] objects[i]);
    assert(all[objects.len() as int].0 == id);
    if accepted {
        assert forall|i: int| 0 <= i < objects.len() implies (#[trigger] objects[i]).0 != id
            && objects[i].0 < i32::MAX by {
            assert(all[i].0 != all[objects.len() as int].0);
        }
        assert forall|i: int, j: int| 0 <= i < j < objects.len() implies (#[trigger] objects[i]).0
            != (#[trigger] objects[j]).0 by {
            assert(all[i].0 != all[j].0);
        }
    }
}

/// An error that the caller met is the result of the stage that is told of it.
pub proof fn law_errors_end_a_conversion(error: ConversionError)
    ensures
        forall|stage: PdfConversion<'_>, result: Result<PageLayout, ConversionError>| #[trigger]
            call_ensures(PdfConversion::lay_out, (stage, Err::<(), ConversionError>(error)), result)
                ==> result == Err::<PageLayout, ConversionError>(error),
        forall|stage: PageStart, result: Result<PageCanvas, ConversionError>| #[trigger]
            call_ensures(PageStart::scaled, (stage, Err::<(), ConversionError>(error)), result)
                ==> result == Err::<PageCanvas, ConversionError>(error),
        forall|stage: PageCanvas, result: Result<(DrawnPage, Content), ConversionError>| #[trigger]
            call_ensures(PageCanvas::drawn, (stage, Err::<(), ConversionError>(error)), result)
                ==> result == Err::<(DrawnPage, Content), ConversionError>(error),
        forall|stage: WrittenPage, result: Result<Vec<u8>, ConversionError>| #[trigger]
            call_ensures(WrittenPage::finish, (stage, Err::<i32, ConversionError>(error)), result)
                ==> result == Err::<Vec<u8>, ConversionError>(error),
        forall|stage: WrittenPage, result: Option<Result<Vec<u8>, ConversionError>>| #[trigger]
            call_ensures(
                WrittenPage::finish_checked,
                (stage, Err::<i32, ConversionError>(error)),
                result,
            ) ==> result == Some(Err::<Vec<u8>, ConversionError>(error)),
        forall|stage: ChunkConversion<'_>, result: Result<ChunkCanvas, ConversionError>| #[trigger]
            call_ensures(ChunkConversion::begin, (stage, Err::<(), ConversionError>(error)), result)
                ==> result == Err::<ChunkCanvas, ConversionError>(error),
        forall|stage: ChunkCanvas, result: Result<DrawnChunk, ConversionError>| #[trigger]
            call_ensures(ChunkCanvas::drawn, (stage, Err::<i32, ConversionError>(error)), result)
                ==> result == Err::<DrawnChunk, ConversionError>(error),
        forall|stage: DrawnChunk, result: Result<(Chunk, i32), ConversionError>| #[trigger]
            call_ensures(DrawnChunk::finish, (stage, Err::<(), ConversionError>(error)), result)
                ==> result == Err::<(Chunk, i32), ConversionError>(error),
{
}

/// What the caller drew goes well, and the stage goes on.
pub proof fn law_stages_go_on()
    ensures
        forall|stage: PageStart, result: Result<PageCanvas, ConversionError>| #[trigger]
            call_ensures(PageStart::scaled, (stage, Ok::<(), ConversionError>(())), result)
                ==> result is Ok,
        forall|stage: PageCanvas, result: Result<(DrawnPage, Content), ConversionError>| #[trigger]
            call_ensures(PageCanvas::drawn, (stage, Ok::<(), ConversionError>(())), result)
                ==> result is Ok,
        forall|stage: WrittenPage, id: i32, result: Result<Vec<u8>, ConversionError>| #[trigger]
            call_ensures(WrittenPage::finish, (stage, Ok::<i32, ConversionError>(id)), result)
                ==> result is Ok,
{
}

/// Every stage can be gone through, whatever the caller met: the settings may be
/// any, and the numbers of objects have to be above zero. The bytes of the
/// content stream have to be as few as a stream can have.
pub proof fn law_stages_can_be_gone_through<F: FnOnce(&mut Resources<'_>)>(
    run: FileRun<'_, F>,
    refs: PageRefs,
    stream: &[u8],
    fill: F,
    srgb: i32,
)
    requires
        run.holds(),
        exists|start: &mut PageStart, content: &mut Content|
            {
                &&& #[trigger] call_ensures(PageStart::content_mut, (start,), content)
                &&& *start == run.start && *content == run.opened_content
                &&& *final(start) == run.saved && *final(content) == run.saved_content
            },
        exists|canvas: &mut PageCanvas, parts: (&mut Chunk, &mut Content)|
            {
                &&& #[trigger] call_ensures(PageCanvas::canvas, (canvas,), parts)
                &&& *canvas == run.canvas && *parts.0 == run.opened_chunk && *parts.1
                    == run.scaled_content
                &&& *final(canvas) == run.painted
                &&& *final(parts.0) == run.painted_chunk
                &&& *final(parts.1) == run.painted_content
            },
        exists|page: &mut WrittenPage, chunk: &mut Chunk|
            {
                &&& #[trigger] call_ensures(WrittenPage::chunk_mut, (page,), chunk)
                &&& *page == run.written && *chunk == run.page_chunk
                &&& *final(page) == run.complete && *final(chunk) == run.complete_chunk
            },
        refs.catalog > 0 && refs.page_tree > 0 && refs.page > 0 && refs.content > 0,
        stream@.len() <= i32::MAX,
        srgb > 0,
        forall|resources: &mut Resources<'_>| call_requires(fill, (resources,)),
    ensures
        forall|tree: &Tree, conversion_options: ConversionOptions, page_options: PageOptions| #[trigger]
            call_requires(conversion::to_pdf, (tree, conversion_options, page_options)),
        forall|tree: &Tree, options: ConversionOptions| #[trigger]
            call_requires(conversion::to_chunk, (tree, options)),
        forall|context: Result<(), ConversionError>| #[trigger]
            call_requires(PdfConversion::lay_out, (run.conversion, context)),
        forall|layout: PageLayout, dpi_transform: Transform, media_box: Rect| #[trigger]
            call_requires(PageLayout::with_geometry, (layout, dpi_transform, media_box)),
        call_requires(PageGeometry::begin, (run.geometry, refs)),
        forall|start: &mut PageStart|
            *start == run.start ==> #[trigger] call_requires(PageStart::content_mut, (start,)),
        forall|saving: Result<(), ConversionError>| #[trigger]
            call_requires(PageStart::scaled, (run.saved, saving)),
        forall|canvas: &mut PageCanvas|
            *canvas == run.canvas ==> #[trigger] call_requires(PageCanvas::canvas, (canvas,)),
        forall|drawing: Result<(), ConversionError>| #[trigger]
            call_requires(PageCanvas::drawn, (run.painted, drawing)),
        call_requires(DrawnPage::write::<F>, (run.page, stream, fill, srgb)),
        forall|page: &mut WrittenPage|
            *page == run.written ==> #[trigger] call_requires(WrittenPage::chunk_mut, (page,)),
        forall|page: &WrittenPage, id: i32| #[trigger]
            call_requires(WrittenPage::accepts_id, (page, id)),
        forall|document_info: Result<i32, ConversionError>| #[trigger]
            call_requires(WrittenPage::finish_checked, (run.complete, document_info)),
{
}

/// A chunk starts empty. What was drawn on it and written to it comes out as it
/// is, with the number that the drawing gave the XObject.
pub proof fn law_chunk_keeps_the_drawing(
    stage: ChunkConversion<'_>,
    canvas: Result<ChunkCanvas, ConversionError>,
    painted: ChunkCanvas,
    x_object: i32,
    drawn: Result<DrawnChunk, ConversionError>,
    complete: DrawnChunk,
    result: Result<(Chunk, i32), ConversionError>,
)
    requires
        call_ensures(ChunkConversion::begin, (stage, Ok::<(), ConversionError>(())), canvas),
        call_ensures(ChunkCanvas::drawn, (painted, Ok::<i32, ConversionError>(x_object)), drawn),
        call_ensures(DrawnChunk::finish, (complete, Ok::<(), ConversionError>(())), result),
    ensures
        canvas matches Ok(canvas) && {
            &&& pdf::chunk_bytes(canvas.chunk).len() == 0
            &&& pdf::chunk_objects(canvas.chunk).len() == 0
        },
        drawn matches Ok(drawn) && drawn.chunk == painted.chunk && drawn.x_ref == x_object,
        result matches Ok((chunk, x_ref)) && chunk == complete.chunk && x_ref == complete.x_ref,
{
}

proof fn lemma_spelled(bits: u32)
    requires
        bits < 0x7f80_0000,
    ensures
        pdf::spelled(bits) == spell(bits),
{
    numbers::law_worth(bits as int);
}

proof fn lemma_spelled_zero()
    ensures
        pdf::spelled(0) == seq![48u8],
{
    lemma_pow2_pos(149);
    assert(Binary32::units(0) == 0);
    vstd::arithmetic::div_mod::lemma_small_mod(0, pow2(149));
    vstd::arithmetic::div_mod::lemma_basic_div(0, pow2(149) as int);
}

proof fn lemma_scale_operator(ratio: u32)
    requires
        ratio < 0x7f80_0000,
    ensures
        pdf::scale_operator(ratio) == spell(ratio) + pdf::ascii(" 0 0 "@) + spell(ratio) + pdf::ascii(
            " 0 0 cm\n"@,
        ),
{
    reveal_strlit(" ");
    reveal_strlit(" cm\n");
    reveal_strlit(" 0 0 ");
    reveal_strlit(" 0 0 cm\n");
    lemma_spelled(ratio);
    lemma_spelled_zero();
    let r: Seq<u8> = spell(ratio);
    let z: Seq<u8> = seq![48u8];
    let gap: Seq<u8> = pdf::ascii(" "@);
    lemma_spaced_two(r, z);
    lemma_spaced_more(seq![r, z], z);
    lemma_spaced_more(seq![r, z].push(z), r);
    lemma_spaced_more(seq![r, z].push(z).push(r), z);
    lemma_spaced_more(seq![r, z].push(z).push(r).push(z), z);
    assert(seq![r, z, z, r, z, z] =~= seq![r, z].push(z).push(r).push(z).push(z));
    assert(pdf::scale_operator(ratio) == r + gap + z + gap + z + gap + r + gap + z + gap + z
        + pdf::ascii(" cm\n"@));
    assert(gap + z + gap + z + gap =~= pdf::ascii(" 0 0 "@));
    assert(gap + z + gap + z + pdf::ascii(" cm\n"@) =~= pdf::ascii(" 0 0 cm\n"@));
    assert(pdf::scale_operator(ratio) =~= r + (gap + z + gap + z + gap) + r + (gap + z + gap + z
        + pdf::ascii(" cm\n"@)));
}

proof fn lemma_spaced_two(a: Seq<u8>, b: Seq<u8>)
    ensures
        pdf::spaced(seq![a, b]) == a + pdf::ascii(" "@) + b,
{
    assert(seq![a, b].drop_last() =~= seq![a]);
    assert(pdf::spaced(seq![a]) == a);
}

proof fn lemma_spaced_more(numbers: Seq<Seq<u8>>, last: Seq<u8>)
    requires
        numbers.len() > 0,
    ensures
        pdf::spaced(numbers.push(last)) == pdf::spaced(numbers) + pdf::ascii(" "@) + last,
{
    assert(numbers.push(last).drop_last() =~= numbers);
}

proof fn lemma_rectangle(width: u32, height: u32)
    requires
        width < 0x7f80_0000,
        height < 0x7f80_0000,
    ensures
        pdf::rectangle((0, 0, width, height)) == pdf::ascii("[0 0 "@) + spell(width) + pdf::ascii(
            " "@,
        ) + spell(height) + pdf::ascii("]"@),
{
    reveal_strlit(" ");
    reveal_strlit("[");
    reveal_strlit("[0 0 ");
    lemma_spelled(width);
    lemma_spelled(height);
    lemma_spelled_zero();
    let (w, h): (Seq<u8>, Seq<u8>) = (spell(width), spell(height));
    let z: Seq<u8> = seq![48u8];
    let gap: Seq<u8> = pdf::ascii(" "@);
    lemma_spaced_two(z, z);
    lemma_spaced_more(seq![z, z], w);
    lemma_spaced_more(seq![z, z].push(w), h);
    assert(seq![z, z, w, h] =~= seq![z, z].push(w).push(h));
    assert(pdf::ascii("["@) + z + gap + z + gap =~= pdf::ascii("[0 0 "@));
    assert(pdf::rectangle((0, 0, width, height)) =~= (pdf::ascii("["@) + z + gap + z + gap) + w + gap
        + h + pdf::ascii("]"@));
}

/// Leading zeros do not change what digits denote.
proof fn lemma_padded(n: int)
    requires
        n >= 0,
    ensures
        denoted(pdf::padded(n)) == n,
        are_digits(pdf::padded(n)),
{
    law_decimal(n);
    let digits: Seq<u8> = pdf::decimal(n);
    let zeros: Seq<u8> = pdf::padded(n).take(pdf::padded(n).len() - digits.len());
    assert(pdf::padded(n) =~= zeros + digits);
    lemma_leading_zeros(zeros, digits);
}

proof fn lemma_leading_zeros(zeros: Seq<u8>, digits: Seq<u8>)
    requires
        forall|i: int| 0 <= i < zeros.len() ==> #[trigger] zeros[i] == 48,
    ensures
        denoted(zeros + digits) == denoted(digits),
    decreases zeros.len() + digits.len(),
{
    if digits.len() > 0 {
        assert((zeros + digits).drop_last() =~= zeros + digits.drop_last());
        lemma_leading_zeros(zeros, digits.drop_last());
    } else if zeros.len() > 0 {
        assert(zeros + digits =~= zeros);
        assert(zeros.drop_last() + digits =~= zeros.drop_last());
        lemma_leading_zeros(zeros.drop_last(), digits);
    } else {
        assert(zeros + digits =~= digits);
    }
}

} // verus!
