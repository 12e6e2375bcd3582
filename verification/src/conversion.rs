//! The conversion of an SVG to a PDF file or to a chunk of one.
//!
//! A conversion goes through stages. Between them the caller draws: it creates
//! a drawing context, fills the content stream, and writes the objects that the
//! drawing needs. Each stage takes what came of that as its argument, and ends
//! the conversion with the first error.

use pdf_writer::writers::Resources;
use pdf_writer::{Chunk, Content, Pdf, Rect};
use std::collections::HashSet;
use usvg::{Transform, Tree};
use vstd::prelude::*;

use crate::binary32::Binary32;
use crate::error::ConversionError;
use crate::options::{ConversionOptions, PageOptions, POINTS_PER_INCH_BITS};
use crate::pdf;
use crate::size::Size;
use crate::svg;

verus! {

/// Who wrote the file.
pub const PRODUCER: &'static str = "svg2pdf";

/// The settings of a conversion that are reported as errors, the raster scale
/// before the DPI.
pub open spec fn settings_error(
    conversion_options: ConversionOptions,
    page_options: PageOptions,
) -> Option<ConversionError> {
    if !conversion_options.is_valid() {
        Some(ConversionError::InvalidRasterScale)
    } else if !page_options.is_valid() {
        Some(ConversionError::InvalidDpi)
    } else {
        None
    }
}

/// The points that a user unit takes at this DPI.
pub open spec fn dpi_ratio(dpi: Binary32) -> Binary32 {
    (Binary32 { bits: POINTS_PER_INCH_BITS }).quotient(dpi)
}

/// The size in points of the page for an SVG of this size.
pub open spec fn page_size(size: Size, dpi: Binary32) -> Option<Size> {
    size.scaled(dpi_ratio(dpi))
}

/// A conversion to a PDF file whose settings were accepted.
pub struct PdfConversion<'a> {
    tree: &'a Tree,
    options: ConversionOptions,
    dpi: Binary32,
    size: Size,
}

/// Convert a [`usvg` tree](Tree) into a standalone PDF: accepts the settings.
///
/// # Errors
///
/// Returns:
///
/// - [`ConversionError::InvalidRasterScale`] when
///   `conversion_options.raster_scale` is not finite and greater than zero.
/// - [`ConversionError::InvalidDpi`] when `page_options.dpi` is not finite and
///   greater than zero.
pub fn to_pdf<'a>(
    tree: &'a Tree,
    conversion_options: ConversionOptions,
    page_options: PageOptions,
) -> (result: Result<PdfConversion<'a>, ConversionError>)
    ensures
        match result {
            Ok(conversion) => {
                &&& settings_error(conversion_options, page_options) is None
                &&& conversion.wf()
                &&& conversion.spec_tree() == *tree
                &&& conversion.spec_options() == conversion_options
                &&& conversion.spec_dpi() == page_options.dpi
                &&& conversion.spec_size() == svg::tree_size(*tree)
            },
            Err(error) => settings_error(conversion_options, page_options) == Some(error),
        },
{
    conversion_options.validate()?;
    page_options.validate()?;
    Ok(
        PdfConversion {
            tree,
            options: conversion_options,
            dpi: page_options.dpi,
            size: svg::read_tree_size(tree),
        },
    )
}

impl<'a> PdfConversion<'a> {
    /// The settings are valid.
    pub closed spec fn wf(self) -> bool {
        self.options.is_valid() && self.dpi.is_positive_finite() && self.size.wf()
    }

    /// The SVG.
    pub closed spec fn spec_tree(self) -> Tree {
        *self.tree
    }

    /// The options.
    pub closed spec fn spec_options(self) -> ConversionOptions {
        self.options
    }

    /// The DPI.
    pub closed spec fn spec_dpi(self) -> Binary32 {
        self.dpi
    }

    /// The size of the SVG.
    pub closed spec fn spec_size(self) -> Size {
        self.size
    }

    /// The SVG, to create a drawing context for.
    pub fn tree(&self) -> (tree: &'a Tree)
        ensures
            *tree == self.spec_tree(),
    {
        self.tree
    }

    /// The options, to create a drawing context with.
    pub fn options(&self) -> (options: ConversionOptions)
        ensures
            options == self.spec_options(),
    {
        self.options
    }

    /// Lays out the page, once the drawing context was created.
    pub fn lay_out(self, context: Result<(), ConversionError>) -> (result: Result<
        PageLayout,
        ConversionError,
    >)
        requires
            self.wf(),
        ensures
            result == match context {
                Err(error) => Err(error),
                Ok(()) => match page_size(self.spec_size(), self.spec_dpi()) {
                    Some(page_size) => Ok(
                        PageLayout {
                            dpi_ratio: dpi_ratio(self.spec_dpi()),
                            page_size,
                            compress: self.spec_options().compress,
                        },
                    ),
                    None => Err(ConversionError::UnknownError),
                },
            },
            result matches Ok(layout) ==> layout.wf(),
    {
        match context {
            Err(error) => Err(error),
            Ok(()) => {
                let points: Binary32 = Binary32 { bits: POINTS_PER_INCH_BITS };
                let dpi_ratio: Binary32 = points.over(self.dpi);
                match self.size.scale(dpi_ratio) {
                    Some(page_size) => Ok(
                        PageLayout { dpi_ratio, page_size, compress: self.options.compress },
                    ),
                    None => Err(ConversionError::UnknownError),
                }
            },
        }
    }
}

/// The layout of the page.
#[derive(Copy, Clone)]
pub struct PageLayout {
    /// The factor by which the content is scaled.
    pub dpi_ratio: Binary32,
    /// The size of the page in points.
    pub page_size: Size,
    /// Whether the content stream is compressed.
    pub compress: bool,
}

/// The numbers of the objects that make up the page.
#[derive(Copy, Clone)]
pub struct PageRefs {
    /// The document catalog.
    pub catalog: i32,
    /// The page tree.
    pub page_tree: i32,
    /// The page.
    pub page: i32,
    /// The content stream of the page.
    pub content: i32,
}

impl PageRefs {
    /// Numbers of objects are above zero.
    pub open spec fn wf(self) -> bool {
        self.catalog > 0 && self.page_tree > 0 && self.page > 0 && self.content > 0
    }

    /// What a file holds before anything is drawn.
    pub open spec fn opening(self) -> Seq<u8> {
        pdf::header() + pdf::catalog_object(self.catalog as int, self.page_tree as int)
            + pdf::page_tree_object(self.page_tree as int, 1, self.page as int)
    }

    /// The objects of a file before anything is drawn.
    pub open spec fn opening_objects(self) -> Seq<(int, int)> {
        let start: int = pdf::header().len() as int;
        let catalog: Seq<u8> = pdf::catalog_object(self.catalog as int, self.page_tree as int);
        seq![
            (self.catalog as int, start),
            (self.page_tree as int, start + catalog.len()),
        ]
    }
}

impl PageLayout {
    /// The factor and the size are finite and above zero.
    pub open spec fn wf(self) -> bool {
        self.dpi_ratio.is_positive_finite() && self.page_size.wf()
    }

    /// The corners of the page, in points.
    pub open spec fn page_corners(self) -> (u32, u32, u32, u32) {
        (0, 0, self.page_size.width.bits, self.page_size.height.bits)
    }

    /// The transform scales by the DPI ratio, and the rectangle is the page.
    pub open spec fn is_geometry(self, dpi_transform: Transform, media_box: Rect) -> bool {
        &&& svg::transform_parts(dpi_transform) == svg::scaling(self.dpi_ratio.bits)
        &&& pdf::rect_corners(media_box) == self.page_corners()
    }

    /// Takes the transform and the rectangle that the layout stands for. There
    /// is no result if they are not those of the layout, or if the layout does
    /// not stand for a page.
    pub fn with_geometry(self, dpi_transform: Transform, media_box: Rect) -> (result: Option<
        PageGeometry,
    >)
        ensures
            result is Some == (self.wf() && self.is_geometry(dpi_transform, media_box)),
            result matches Some(geometry) ==> geometry.wf() && geometry.spec_layout() == self,
    {
        let (x1, y1, x2, y2): (u32, u32, u32, u32) = pdf::read_rect_corners(&media_box);
        let page: Size = self.page_size;
        if self.dpi_ratio.is_finite_above_zero() && page.width.is_finite_above_zero()
            && page.height.is_finite_above_zero() && svg::is_scaling(
            &dpi_transform,
            self.dpi_ratio.bits,
        ) && x1 == 0 && y1 == 0 && x2
            == page.width.bits && y2 == page.height.bits {
            Some(PageGeometry { layout: self, dpi_transform, media_box })
        } else {
            None
        }
    }
}

/// The layout of the page, with the transform and the rectangle that it stands
/// for.
pub struct PageGeometry {
    layout: PageLayout,
    dpi_transform: Transform,
    media_box: Rect,
}

impl PageGeometry {
    /// The transform and the rectangle are those of the layout.
    pub closed spec fn wf(self) -> bool {
        self.layout.wf() && self.layout.is_geometry(self.dpi_transform, self.media_box)
    }

    /// The layout of the page.
    pub closed spec fn spec_layout(self) -> PageLayout {
        self.layout
    }

    /// Starts the file: writes the catalog and the page tree, and opens the
    /// content stream.
    pub fn begin(self, refs: PageRefs) -> (start: PageStart)
        requires
            self.wf(),
            refs.wf(),
        ensures
            start.wf(),
            start.spec_layout() == self.spec_layout(),
            start.spec_refs() == refs,
            pdf::chunk_bytes(start.spec_chunk()) == refs.opening(),
            pdf::chunk_objects(start.spec_chunk()) == refs.opening_objects(),
            pdf::content_bytes(start.spec_content()) == Seq::<u8>::empty(),
    {
        let mut pdf: Pdf = pdf::new_pdf();
        pdf::write_catalog(&mut pdf, refs.catalog, refs.page_tree);
        pdf::write_page_tree(&mut pdf, refs.page_tree, 1, refs.page);
        PageStart { pdf, content: pdf::new_content(), geometry: self, refs }
    }
}

/// A page whose content stream was opened.
pub struct PageStart {
    pdf: Pdf,
    content: Content,
    geometry: PageGeometry,
    refs: PageRefs,
}

impl PageStart {
    /// The file was started with the catalog.
    pub closed spec fn wf(self) -> bool {
        is_open(self.pdf, self.refs) && self.geometry.wf()
    }

    /// The layout of the page.
    pub closed spec fn spec_layout(self) -> PageLayout {
        self.geometry.spec_layout()
    }

    /// The numbers of the objects of the page.
    pub closed spec fn spec_refs(self) -> PageRefs {
        self.refs
    }

    /// The objects that were written.
    pub closed spec fn spec_chunk(self) -> Chunk {
        pdf::pdf_chunk(self.pdf)
    }

    /// The content stream.
    pub closed spec fn spec_content(self) -> Content {
        self.content
    }

    /// The content stream, to save the graphics state.
    pub fn content_mut(&mut self) -> (content: &mut Content)
        requires
            old(self).wf(),
        ensures
            *content == old(self).spec_content(),
            final(self).spec_content() == *final(content),
            final(self).spec_chunk() == old(self).spec_chunk(),
            final(self).spec_layout() == old(self).spec_layout(),
            final(self).spec_refs() == old(self).spec_refs(),
            final(self).wf(),
    {
        &mut self.content
    }

    /// Scales the content by the DPI ratio, once the graphics state was saved.
    pub fn scaled(self, saved: Result<(), ConversionError>) -> (result: Result<
        PageCanvas,
        ConversionError,
    >)
        requires
            self.wf(),
        ensures
            match saved {
                Err(error) => result == Err::<PageCanvas, ConversionError>(error),
                Ok(()) => result matches Ok(canvas) && {
                    &&& canvas.wf()
                    &&& canvas.spec_layout() == self.spec_layout()
                    &&& canvas.spec_refs() == self.spec_refs()
                    &&& canvas.spec_chunk() == self.spec_chunk()
                    &&& pdf::content_bytes(canvas.spec_content()) == pdf::content_bytes(
                        self.spec_content(),
                    ) + pdf::scale_operator(self.spec_layout().dpi_ratio.bits)
                },
            },
    {
        match saved {
            Err(error) => Err(error),
            Ok(()) => {
                let mut content: Content = self.content;
                pdf::write_transform(&mut content, self.geometry.dpi_transform);
                Ok(
                    PageCanvas {
                        pdf: self.pdf,
                        content,
                        layout: self.geometry.layout,
                        media_box: self.geometry.media_box,
                        refs: self.refs,
                    },
                )
            },
        }
    }
}

/// A page that is being drawn.
pub struct PageCanvas {
    pdf: Pdf,
    content: Content,
    layout: PageLayout,
    media_box: Rect,
    refs: PageRefs,
}

/// A file whose trailer will name the catalog, and no document information yet.
spec fn is_open(pdf: Pdf, refs: PageRefs) -> bool {
    &&& refs.wf()
    &&& pdf::pdf_root(pdf) == Some(refs.catalog as int)
    &&& pdf::pdf_info(pdf) is None
    &&& pdf::pdf_file_id(pdf) is None
}

impl PageCanvas {
    /// The file was started with the catalog.
    pub closed spec fn wf(self) -> bool {
        is_open(self.pdf, self.refs) && self.layout.wf() && pdf::rect_corners(self.media_box)
            == self.layout.page_corners()
    }

    /// The layout of the page.
    pub closed spec fn spec_layout(self) -> PageLayout {
        self.layout
    }

    /// The numbers of the objects of the page.
    pub closed spec fn spec_refs(self) -> PageRefs {
        self.refs
    }

    /// The objects that were written.
    pub closed spec fn spec_chunk(self) -> Chunk {
        pdf::pdf_chunk(self.pdf)
    }

    /// The content stream.
    pub closed spec fn spec_content(self) -> Content {
        self.content
    }

    /// The chunk and the content stream, to draw on.
    pub fn canvas(&mut self) -> (canvas: (&mut Chunk, &mut Content))
        requires
            old(self).wf(),
        ensures
            *canvas.0 == old(self).spec_chunk(),
            *canvas.1 == old(self).spec_content(),
            final(self).spec_chunk() == *final(canvas.0),
            final(self).spec_content() == *final(canvas.1),
            final(self).spec_layout() == old(self).spec_layout(),
            final(self).spec_refs() == old(self).spec_refs(),
            final(self).wf(),
    {
        (pdf::pdf_chunk_mut(&mut self.pdf), &mut self.content)
    }

    /// Ends the drawing: hands out the content stream, with the graphics state
    /// restored, to be turned into bytes.
    pub fn drawn(self, drawing: Result<(), ConversionError>) -> (result: Result<
        (DrawnPage, Content),
        ConversionError,
    >)
        requires
            self.wf(),
        ensures
            match drawing {
                Err(error) => result == Err::<(DrawnPage, Content), ConversionError>(error),
                Ok(()) => result matches Ok((page, content)) && {
                    &&& page.wf()
                    &&& page.spec_layout() == self.spec_layout()
                    &&& page.spec_refs() == self.spec_refs()
                    &&& page.spec_chunk() == self.spec_chunk()
                    &&& pdf::content_bytes(content) == pdf::content_bytes(self.spec_content())
                        + pdf::ascii("Q\n"@)
                },
            },
    {
        match drawing {
            Err(error) => Err(error),
            Ok(()) => {
                let mut content: Content = self.content;
                pdf::restore_state(&mut content);
                let page: DrawnPage = DrawnPage {
                    pdf: self.pdf,
                    layout: self.layout,
                    media_box: self.media_box,
                    refs: self.refs,
                };
                Ok((page, content))
            },
        }
    }
}

/// A page whose content was drawn.
pub struct DrawnPage {
    pdf: Pdf,
    layout: PageLayout,
    media_box: Rect,
    refs: PageRefs,
}

impl DrawnPage {
    /// The file was started with the catalog.
    pub closed spec fn wf(self) -> bool {
        is_open(self.pdf, self.refs) && self.layout.wf() && pdf::rect_corners(self.media_box)
            == self.layout.page_corners()
    }

    /// The layout of the page.
    pub closed spec fn spec_layout(self) -> PageLayout {
        self.layout
    }

    /// The numbers of the objects of the page.
    pub closed spec fn spec_refs(self) -> PageRefs {
        self.refs
    }

    /// The objects that were written.
    pub closed spec fn spec_chunk(self) -> Chunk {
        pdf::pdf_chunk(self.pdf)
    }

    /// The page dictionary, around the resource dictionary.
    pub open spec fn page_entries(self, resources: Seq<u8>, srgb: int) -> pdf::PageEntries {
        pdf::PageEntries {
            resources,
            media_box: pdf::rectangle(self.spec_layout().page_corners()),
            parent: self.spec_refs().page_tree as int,
            isolated: true,
            knockout: false,
            profile: srgb,
            contents: self.spec_refs().content as int,
        }
    }

    /// The content stream and the page follow the objects so far.
    pub open spec fn page_follows(
        self,
        after: Chunk,
        content: Seq<u8>,
        page: pdf::PageEntries,
    ) -> bool {
        let refs: PageRefs = self.spec_refs();
        let bytes: Seq<u8> = pdf::chunk_bytes(self.spec_chunk());
        let stream: Seq<u8> = pdf::stream_object(
            refs.content as int,
            content,
            self.spec_layout().compress,
        );
        &&& pdf::chunk_bytes(after) == bytes + stream + pdf::page_object(refs.page as int, page)
        &&& pdf::chunk_objects(after) == pdf::chunk_objects(self.spec_chunk()).push(
            (refs.content as int, bytes.len() as int),
        ).push((refs.page as int, (bytes + stream).len() as int))
    }

    /// Writes the content stream and the page. The bytes of the content stream
    /// are deflated if the layout says that it is compressed. `srgb` is the
    /// number of the colour profile, and `fill` writes the resources to an empty
    /// dictionary. Nothing is said of the dictionary if `fill` puts another
    /// writer in the place of the one it gets.
    pub fn write<F: FnOnce(&mut Resources<'_>)>(
        self,
        content_stream: &[u8],
        fill: F,
        srgb: i32,
    ) -> (page: WrittenPage)
        requires
            self.wf(),
            content_stream@.len() <= i32::MAX,
            srgb > 0,
            forall|resources: &mut Resources<'_>| call_requires(fill, (resources,)),
        ensures
            page.wf(),
            page.spec_refs() == self.spec_refs(),
            exists|resources: &mut Resources<'_>, text: Seq<u8>|
                {
                    &&& #[trigger] call_ensures(fill, (resources,), ())
                    &&& pdf::resources_text(*resources) == pdf::ascii("<<>>"@)
                    &&& pdf::resources_place(*final(resources)) == pdf::resources_place(*resources)
                        ==> text == pdf::resources_text(*final(resources))
                    &&& self.page_follows(
                        page.spec_chunk(),
                        content_stream@,
                        #[trigger] self.page_entries(text, srgb as int),
                    )
                },
    {
        let mut pdf: Pdf = self.pdf;
        let refs: PageRefs = self.refs;
        if self.layout.compress {
            pdf::write_deflated_stream(&mut pdf, refs.content, content_stream);
        } else {
            pdf::write_stream(&mut pdf, refs.content, content_stream);
        }
        let ghost before: Pdf = pdf;
        pdf::write_page(
            &mut pdf,
            refs.page,
            fill,
            self.media_box,
            refs.page_tree,
            true,
            false,
            srgb,
            refs.content,
        );
        let page: WrittenPage = WrittenPage { pdf, refs };
        proof {
            let (resources, text): (&mut Resources<'_>, Seq<u8>) = choose|
                resources: &mut Resources<'_>,
                text: Seq<u8>,
            |
                {
                    &&& #[trigger] pdf::page_added(
                        before,
                        pdf,
                        refs.page as int,
                        fill,
                        resources,
                        pdf::PageEntries {
                            resources: text,
                            media_box: pdf::rectangle(pdf::rect_corners(self.media_box)),
                            parent: refs.page_tree as int,
                            isolated: true,
                            knockout: false,
                            profile: srgb as int,
                            contents: refs.content as int,
                        },
                    )
                    &&& pdf::resources_place(*final(resources)) == pdf::resources_place(*resources)
                        ==> text == pdf::resources_text(*final(resources))
                };
            assert(call_ensures(fill, (resources,), ()));
            assert(self.page_follows(
                page.spec_chunk(),
                content_stream@,
                self.page_entries(text, srgb as int),
            ));
        }
        page
    }
}

/// A page that was written.
pub struct WrittenPage {
    pdf: Pdf,
    refs: PageRefs,
}

impl WrittenPage {
    /// The file was started with the catalog.
    pub closed spec fn wf(self) -> bool {
        is_open(self.pdf, self.refs)
    }

    /// The numbers of the objects of the page.
    pub closed spec fn spec_refs(self) -> PageRefs {
        self.refs
    }

    /// The objects that were written.
    pub closed spec fn spec_chunk(self) -> Chunk {
        pdf::pdf_chunk(self.pdf)
    }

    /// The objects of the file, with the document information as the last.
    pub open spec fn all_objects(self, document_info: int) -> Seq<(int, int)> {
        pdf::chunk_objects(self.spec_chunk()).push(
            (document_info, pdf::chunk_bytes(self.spec_chunk()).len() as int),
        )
    }

    /// The file, with the document information as its last object.
    pub open spec fn file(self, document_info: int) -> Seq<u8> {
        pdf::file_text(
            pdf::chunk_bytes(self.spec_chunk()) + pdf::info_object(document_info, PRODUCER@),
            self.all_objects(document_info),
            Some(self.spec_refs().catalog as int),
            Some(document_info),
        )
    }

    /// A file can be made with this number for the document information: it is
    /// above zero, and no two objects share a number.
    pub open spec fn accepts(self, document_info: int) -> bool {
        document_info > 0 && pdf::ids_usable(self.all_objects(document_info))
    }

    /// The chunk, to write the objects to that the drawing needs.
    pub fn chunk_mut(&mut self) -> (chunk: &mut Chunk)
        requires
            old(self).wf(),
        ensures
            *chunk == old(self).spec_chunk(),
            final(self).spec_chunk() == *final(chunk),
            final(self).spec_refs() == old(self).spec_refs(),
            final(self).wf(),
    {
        pdf::pdf_chunk_mut(&mut self.pdf)
    }

    /// Whether a file can be made with this number for the document
    /// information.
    pub fn accepts_id(&self, document_info: i32) -> (result: bool)
        ensures
            result == self.accepts(document_info as int),
    {
        let mut ids: Vec<i32> = pdf::object_ids(&self.pdf);
        ids.push(document_info);
        let result: bool = document_info > 0 && are_usable(&ids);
        proof {
            let objects: Seq<(int, int)> = self.all_objects(document_info as int);
            assert(objects.len() == ids@.len());
            assert(forall|i: int| 0 <= i < ids@.len() ==> #[trigger] ids@[i] == objects[i].0);
            if ids_are_usable(ids@) {
                assert forall|i: int, j: int| 0 <= i < j < objects.len() implies (
                #[trigger] objects[i]).0 != (#[trigger] objects[j]).0 by {
                    assert(ids@[i] != ids@[j]);
                }
                assert forall|i: int| 0 <= i < objects.len() implies (#[trigger] objects[i]).0
                    < i32::MAX by {
                    assert(ids@[i] < i32::MAX);
                }
            }
            if pdf::ids_usable(objects) {
                assert forall|i: int, j: int| 0 <= i < j < ids@.len() implies #[trigger] ids@[i]
                    != #[trigger] ids@[j] by {
                    assert(objects[i].0 != objects[j].0);
                }
                assert forall|i: int| 0 <= i < ids@.len() implies #[trigger] ids@[i]
                    < i32::MAX by {
                    assert(objects[i].0 < i32::MAX);
                }
            }
        }
        result
    }

    /// Finishes the file, unless two objects share a number.
    pub fn finish_checked(self, document_info: Result<i32, ConversionError>) -> (result: Option<
        Result<Vec<u8>, ConversionError>,
    >)
        requires
            self.wf(),
        ensures
            match document_info {
                Err(error) => result == Some(Err::<Vec<u8>, ConversionError>(error)),
                Ok(id) => {
                    &&& result is Some == self.accepts(id as int)
                    &&& result matches Some(result) ==> result matches Ok(file) && file@
                        == self.file(id as int)
                },
            },
    {
        match document_info {
            Err(error) => Some(Err(error)),
            Ok(id) => if self.accepts_id(id) {
                Some(self.finish(Ok(id)))
            } else {
                None
            },
        }
    }

    /// Finishes the file, once the objects that the drawing needs were written
    /// and the document information was given a number.
    pub fn finish(self, document_info: Result<i32, ConversionError>) -> (result: Result<
        Vec<u8>,
        ConversionError,
    >)
        requires
            self.wf(),
            document_info matches Ok(id) ==> self.accepts(id as int),
        ensures
            match document_info {
                Err(error) => result == Err::<Vec<u8>, ConversionError>(error),
                Ok(id) => result matches Ok(file) && file@ == self.file(id as int),
            },
    {
        match document_info {
            Err(error) => Err(error),
            Ok(id) => {
                proof {
                    reveal_strlit("svg2pdf");
                }
                let mut pdf: Pdf = self.pdf;
                pdf::write_document_info(&mut pdf, id, PRODUCER);
                Ok(pdf::finish_pdf(pdf))
            },
        }
    }
}

/// No number occurs twice, and all leave room for the size of the
/// cross-reference table.
spec fn ids_are_usable(ids: Seq<i32>) -> bool {
    &&& forall|i: int, j: int|
        0 <= i < j < ids.len() ==> #[trigger] ids[i] != #[trigger] ids[j]
    &&& forall|i: int| 0 <= i < ids.len() ==> #[trigger] ids[i] < i32::MAX
}

fn are_usable(ids: &Vec<i32>) -> (result: bool)
    ensures
        result == ids_are_usable(ids@),
{
    broadcast use vstd::std_specs::hash::group_hash_axioms;

    let mut seen: HashSet<i32> = HashSet::new();
    let mut k: usize = 0;
    while k < ids.len()
        invariant
            k <= ids@.len(),
            forall|id: i32|
                seen@.contains(id) <==> exists|i: int| 0 <= i < k && #[trigger] ids@[i] == id,
            ids_are_usable(ids@.take(k as int)),
        decreases ids@.len() - k,
    {
        broadcast use vstd::std_specs::hash::group_hash_axioms;

        let id: i32 = ids[k];
        if id == i32::MAX {
            return false;
        }
        let ghost earlier: Set<i32> = seen@;
        let fresh: bool = seen.insert(id);
        if !fresh {
            proof {
                assert(earlier.contains(id));
                let i: int = choose|i: int| 0 <= i < k && #[trigger] ids@[i] == id;
                assert(ids@[i] == ids@[k as int]);
            }
            return false;
        }
        proof {
            assert(!earlier.contains(id));
            let before: Seq<i32> = ids@.take(k as int);
            let after: Seq<i32> = ids@.take(k + 1);
            assert(after == before.push(id));
            assert forall|i: int, j: int| 0 <= i < j < after.len() implies #[trigger] after[i]
                != #[trigger] after[j] by {
                if j < k {
                    assert(before[i] != before[j]);
                } else {
                    assert(ids@[i] == after[i]);
                }
            }
            assert forall|i: int| 0 <= i < after.len() implies #[trigger] after[i] < i32::MAX by {
                if i < k {
                    assert(before[i] < i32::MAX);
                }
            }
            assert forall|other: i32|
                seen@.contains(other) <==> exists|i: int|
                    0 <= i < k + 1 && #[trigger] ids@[i] == other by {
                if earlier.contains(other) {
                    let i: int = choose|i: int| 0 <= i < k && #[trigger] ids@[i] == other;
                    assert(ids@[i] == other);
                }
                if other == id {
                    assert(ids@[k as int] == other);
                }
            }
        }
        k = k + 1;
    }
    proof {
        assert(ids@.take(k as int) == ids@);
    }
    true
}

/// A conversion to a chunk whose settings were accepted.
pub struct ChunkConversion<'a> {
    tree: &'a Tree,
    options: ConversionOptions,
}

/// Convert a [Tree] into a [`Chunk`]: accepts the settings.
///
/// # Errors
///
/// Returns [`ConversionError::InvalidRasterScale`] when
/// `conversion_options.raster_scale` is not finite and greater than zero.
pub fn to_chunk<'a>(tree: &'a Tree, conversion_options: ConversionOptions) -> (result: Result<
    ChunkConversion<'a>,
    ConversionError,
>)
    ensures
        match result {
            Ok(conversion) => {
                &&& conversion_options.is_valid()
                &&& conversion.spec_tree() == *tree
                &&& conversion.spec_options() == conversion_options
            },
            Err(error) => !conversion_options.is_valid() && error
                == ConversionError::InvalidRasterScale,
        },
{
    conversion_options.validate()?;
    Ok(ChunkConversion { tree, options: conversion_options })
}

impl<'a> ChunkConversion<'a> {
    /// The SVG.
    pub closed spec fn spec_tree(self) -> Tree {
        *self.tree
    }

    /// The options.
    pub closed spec fn spec_options(self) -> ConversionOptions {
        self.options
    }

    /// The SVG, to create a drawing context for.
    pub fn tree(&self) -> (tree: &'a Tree)
        ensures
            *tree == self.spec_tree(),
    {
        self.tree
    }

    /// The options, to create a drawing context with.
    pub fn options(&self) -> (options: ConversionOptions)
        ensures
            options == self.spec_options(),
    {
        self.options
    }

    /// Opens an empty chunk, once the drawing context was created.
    pub fn begin(self, context: Result<(), ConversionError>) -> (result: Result<
        ChunkCanvas,
        ConversionError,
    >)
        ensures
            match context {
                Err(error) => result == Err::<ChunkCanvas, ConversionError>(error),
                Ok(()) => result matches Ok(canvas) && {
                    &&& pdf::chunk_bytes(canvas.chunk) == Seq::<u8>::empty()
                    &&& pdf::chunk_objects(canvas.chunk) == Seq::<(int, int)>::empty()
                },
            },
    {
        match context {
            Err(error) => Err(error),
            Ok(()) => Ok(ChunkCanvas { chunk: pdf::new_chunk() }),
        }
    }
}

/// A chunk that is being drawn.
pub struct ChunkCanvas {
    /// The chunk, to draw on.
    pub chunk: Chunk,
}

impl ChunkCanvas {
    /// Ends the drawing, which gave the XObject its number.
    pub fn drawn(self, x_object: Result<i32, ConversionError>) -> (result: Result<
        DrawnChunk,
        ConversionError,
    >)
        ensures
            result == match x_object {
                Err(error) => Err(error),
                Ok(x_ref) => Ok(DrawnChunk { chunk: self.chunk, x_ref }),
            },
    {
        match x_object {
            Err(error) => Err(error),
            Ok(x_ref) => Ok(DrawnChunk { chunk: self.chunk, x_ref }),
        }
    }
}

/// A chunk whose XObject was drawn.
pub struct DrawnChunk {
    /// The chunk, to write the objects to that the drawing needs.
    pub chunk: Chunk,
    /// The number of the XObject.
    pub x_ref: i32,
}

impl DrawnChunk {
    /// Hands out the chunk and the number of the XObject, once the objects that
    /// the drawing needs were written.
    pub fn finish(self, written: Result<(), ConversionError>) -> (result: Result<
        (Chunk, i32),
        ConversionError,
    >)
        ensures
            result == match written {
                Err(error) => Err(error),
                Ok(()) => Ok((self.chunk, self.x_ref)),
            },
    {
        match written {
            Err(error) => Err(error),
            Ok(()) => Ok((self.chunk, self.x_ref)),
        }
    }
}

} // verus!
