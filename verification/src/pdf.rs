//! The PDF syntax that a conversion writes, and the writer that writes it.
//!
//! A chunk is a run of indirect objects, written one after another. The text of
//! each object is stated here byte by byte.

use pdf_writer::writers::Resources;
use pdf_writer::{Chunk, Content, Filter, Finish, Pdf, Rect, Ref, TextStr};
use usvg::Transform;
use vstd::arithmetic::power2::*;
use vstd::prelude::*;

use crate::binary32::{Binary32, INFINITY_BITS};
use crate::svg;

verus! {

/// A run of indirect objects.
#[verifier::external_type_specification]
#[verifier::external_body]
pub struct ExChunk(pdf_writer::Chunk);

/// A PDF file that is being written.
#[verifier::external_type_specification]
#[verifier::external_body]
pub struct ExPdf(pdf_writer::Pdf);

/// A content stream that is being written.
#[verifier::external_type_specification]
#[verifier::external_body]
pub struct ExContent(pdf_writer::Content);

/// A rectangle of four single precision numbers.
#[verifier::external_type_specification]
#[verifier::external_body]
pub struct ExRect(pdf_writer::Rect);

/// A resource dictionary that is being written.
#[verifier::external_type_specification]
#[verifier::external_body]
pub struct ExResources<'a>(pdf_writer::writers::Resources<'a>);

/// The bytes that were written to a chunk.
pub uninterp spec fn chunk_bytes(chunk: Chunk) -> Seq<u8>;

/// The objects of a chunk in the order in which they were started: the number
/// of each and where its text starts.
pub uninterp spec fn chunk_objects(chunk: Chunk) -> Seq<(int, int)>;

/// The chunk that holds the objects of a file.
pub uninterp spec fn pdf_chunk(pdf: Pdf) -> Chunk;

/// The number of the document catalog, once it was written.
pub uninterp spec fn pdf_root(pdf: Pdf) -> Option<int>;

/// The number of the document information, once it was written.
pub uninterp spec fn pdf_info(pdf: Pdf) -> Option<int>;

/// The identifier of a file, if it was given one.
pub uninterp spec fn pdf_file_id(pdf: Pdf) -> Option<(Seq<u8>, Seq<u8>)>;

/// The bytes that were written to a content stream.
pub uninterp spec fn content_bytes(content: Content) -> Seq<u8>;

/// The bits of the corners of a rectangle: the two coordinates of the first,
/// and the two of the second.
pub uninterp spec fn rect_corners(rect: Rect) -> (u32, u32, u32, u32);

/// The text of a resource dictionary, if it is closed as it stands.
pub uninterp spec fn resources_text(resources: Resources<'_>) -> Seq<u8>;

/// Which dictionary a writer of resources writes: the buffer, and the byte from
/// which the dictionary stands in it.
pub uninterp spec fn resources_place(resources: Resources<'_>) -> (int, int);

/// The single precision number with these bits, as the writer spells it.
pub uninterp spec fn number_text(bits: u32) -> Seq<u8>;

/// The bytes of an ASCII text.
pub open spec fn ascii(text: Seq<char>) -> Seq<u8> {
    Seq::new(text.len(), |i: int| text[i] as u8)
}

/// The decimal digits of a number that is not negative.
pub open spec fn decimal(n: int) -> Seq<u8>
    decreases n,
{
    if n < 10 {
        seq![(48 + n) as u8]
    } else {
        decimal(n / 10).push((48 + n % 10) as u8)
    }
}

/// A reference to the object with this number.
pub open spec fn reference(id: int) -> Seq<u8> {
    decimal(id) + ascii(" 0 R"@)
}

/// A truth value.
pub open spec fn boolean(value: bool) -> Seq<u8> {
    if value {
        ascii("true"@)
    } else {
        ascii("false"@)
    }
}

/// The bits of -2147483648, the least number that fits in an `i32`.
pub const LEAST_INTEGER_BITS: u32 = 0xcf00_0000;

/// Whether these are the bits of an integer that is not negative and fits in an
/// `i32`.
pub open spec fn is_count(bits: u32) -> bool {
    let units: int = Binary32::units(bits as int);
    &&& bits < INFINITY_BITS
    &&& units % pow2(149) as int == 0
    &&& units / pow2(149) as int <= i32::MAX
}

/// The single precision number with these bits. Integers are written as such;
/// `other` is how the writer spells all other numbers.
pub open spec fn number(bits: u32, other: Seq<u8>) -> Seq<u8> {
    if is_count(bits) {
        decimal(Binary32::units(bits as int) / pow2(149) as int)
    } else {
        other
    }
}

/// The single precision number with these bits.
pub open spec fn spelled(bits: u32) -> Seq<u8> {
    number(bits, number_text(bits))
}

/// Numbers, with a space between one and the next.
pub open spec fn spaced(numbers: Seq<Seq<u8>>) -> Seq<u8>
    decreases numbers.len(),
{
    if numbers.len() == 0 {
        Seq::empty()
    } else if numbers.len() == 1 {
        numbers[0]
    } else {
        spaced(numbers.drop_last()) + ascii(" "@) + numbers.last()
    }
}

/// A rectangle with these corners.
pub open spec fn rectangle(corners: (u32, u32, u32, u32)) -> Seq<u8> {
    ascii("["@) + spaced(
        seq![spelled(corners.0), spelled(corners.1), spelled(corners.2), spelled(corners.3)],
    ) + ascii("]"@)
}

/// The operator that scales the coordinates by the number with these bits.
pub open spec fn scale_operator(factor: u32) -> Seq<u8> {
    spaced(
        seq![spelled(factor), spelled(0), spelled(0), spelled(factor), spelled(0), spelled(0)],
    ) + ascii(" cm\n"@)
}

/// An indirect object.
pub open spec fn object(id: int, body: Seq<u8>) -> Seq<u8> {
    decimal(id) + ascii(" 0 obj\n"@) + body + ascii("\nendobj\n\n"@)
}

/// The header of a file.
pub open spec fn header() -> Seq<u8> {
    ascii("%PDF-1.7\n%"@) + seq![0x80u8, 0x80u8, 0x80u8, 0x80u8] + ascii("\n\n"@)
}

/// A document catalog.
pub open spec fn catalog_object(id: int, pages: int) -> Seq<u8> {
    object(id, ascii("<<\n  /Type /Catalog\n  /Pages "@) + reference(pages) + ascii("\n>>"@))
}

/// A page tree with one child.
pub open spec fn page_tree_object(id: int, count: int, kid: int) -> Seq<u8> {
    object(
        id,
        ascii("<<\n  /Type /Pages\n  /Count "@) + decimal(count) + ascii("\n  /Kids ["@)
            + reference(kid) + ascii("]\n>>"@),
    )
}

/// A stream whose data are deflated, or are as they stand.
pub open spec fn stream_object(id: int, data: Seq<u8>, deflated: bool) -> Seq<u8> {
    let filter: Seq<u8> = if deflated {
        ascii("\n  /Filter /FlateDecode"@)
    } else {
        Seq::empty()
    };
    object(
        id,
        ascii("<<\n  /Length "@) + decimal(data.len() as int) + filter + ascii("\n>>\nstream\n"@)
            + data + ascii("\nendstream"@),
    )
}

/// What stands before the data of a stream.
pub open spec fn stream_head(id: int, length: int, deflated: bool) -> Seq<u8> {
    let filter: Seq<u8> = if deflated {
        ascii("\n  /Filter /FlateDecode"@)
    } else {
        Seq::empty()
    };
    decimal(id) + ascii(" 0 obj\n"@) + ascii("<<\n  /Length "@) + decimal(length) + filter + ascii(
        "\n>>\nstream\n"@,
    )
}

/// What a page dictionary holds.
pub struct PageEntries {
    /// The resource dictionary.
    pub resources: Seq<u8>,
    /// The media box.
    pub media_box: Seq<u8>,
    /// The number of the page tree.
    pub parent: int,
    /// Whether the page's group is isolated.
    pub isolated: bool,
    /// Whether the page's group is a knockout group.
    pub knockout: bool,
    /// The number of the colour profile in which the page is composited.
    pub profile: int,
    /// The number of the content stream.
    pub contents: int,
}

/// A page.
pub open spec fn page_object(id: int, page: PageEntries) -> Seq<u8> {
    object(
        id,
        ascii("<<\n  /Type /Page\n  /Resources "@) + page.resources + ascii("\n  /MediaBox "@)
            + page.media_box + ascii("\n  /Parent "@) + reference(page.parent) + ascii(
            "\n  /Group <<\n    /Type /Group\n    /S /Transparency\n    /I "@,
        ) + boolean(page.isolated) + ascii("\n    /K "@) + boolean(page.knockout) + ascii(
            "\n    /CS [/ICCBased "@,
        ) + reference(page.profile) + ascii("]\n  >>\n  /Contents "@) + reference(page.contents)
            + ascii("\n>>"@),
    )
}

/// Document information that names the producer.
pub open spec fn info_object(id: int, producer: Seq<char>) -> Seq<u8> {
    object(id, ascii("<<\n  /Producer ("@) + ascii(producer) + ascii(")\n>>"@))
}

/// A text of visible ASCII characters, none of which needs an escape in a
/// string.
pub open spec fn is_plain(text: Seq<char>) -> bool {
    forall|i: int|
        0 <= i < text.len() ==> ' ' <= #[trigger] text[i] <= '~' && text[i] != '(' && text[i]
            != ')' && text[i] != '\\'
}

/// The highest number of an object.
pub open spec fn highest_id(objects: Seq<(int, int)>) -> int
    decreases objects.len(),
{
    if objects.len() == 0 {
        0
    } else {
        let before: int = highest_id(objects.drop_last());
        if before < objects.last().0 {
            objects.last().0
        } else {
            before
        }
    }
}

/// Some object has this number.
pub open spec fn is_used(objects: Seq<(int, int)>, id: int) -> bool {
    exists|i: int| 0 <= i < objects.len() && (#[trigger] objects[i]).0 == id
}

/// Where the text of the object with this number starts.
pub open spec fn position(objects: Seq<(int, int)>, id: int) -> int {
    objects[choose|i: int| 0 <= i < objects.len() && (#[trigger] objects[i]).0 == id].1
}

/// The first number from this one on that no object has.
pub open spec fn next_unused(objects: Seq<(int, int)>, id: int) -> int
    decreases highest_id(objects) + 1 - id,
{
    if id <= highest_id(objects) && is_used(objects, id) {
        next_unused(objects, id + 1)
    } else {
        id
    }
}

/// A number with ten decimal digits, or more where it needs them.
pub open spec fn padded(n: int) -> Seq<u8> {
    let digits: Seq<u8> = decimal(n);
    let missing: int = 10 - digits.len();
    Seq::new((if missing < 0 { 0 } else { missing }) as nat, |i: int| 48u8) + digits
}

/// The entry of the cross-reference table for a number: where the object starts
/// if there is one, or else the next unused number, where zero follows the
/// highest.
pub open spec fn xref_entry(objects: Seq<(int, int)>, id: int) -> Seq<u8> {
    if is_used(objects, id) {
        padded(position(objects, id)) + ascii(" 00000 n\r\n"@)
    } else {
        let next: int = next_unused(objects, id + 1) % (1 + highest_id(objects));
        padded(next) + (if id == 0 {
            ascii(" 65535 f\r\n"@)
        } else {
            ascii(" 00000 f\r\n"@)
        })
    }
}

/// The entries of the cross-reference table for the numbers below this one.
pub open spec fn xref_entries(objects: Seq<(int, int)>, end: int) -> Seq<u8>
    decreases end,
{
    if end <= 0 {
        Seq::empty()
    } else {
        xref_entries(objects, end - 1) + xref_entry(objects, end - 1)
    }
}

/// The head of the cross-reference table.
pub open spec fn xref_head(size: int) -> Seq<u8> {
    ascii("xref\n0 "@) + decimal(size) + ascii("\n"@)
}

/// An entry of the trailer that refers to an object.
pub open spec fn trailer_entry(key: Seq<char>, id: Option<int>) -> Seq<u8> {
    match id {
        Some(id) => ascii(key) + reference(id),
        None => Seq::empty(),
    }
}

/// A whole file: the objects, the cross-reference table, and the trailer.
pub open spec fn file_text(
    bytes: Seq<u8>,
    objects: Seq<(int, int)>,
    root: Option<int>,
    info: Option<int>,
) -> Seq<u8> {
    let size: int = 1 + highest_id(objects);
    bytes + xref_head(size) + xref_entries(objects, size) + ascii("trailer\n<<\n  /Size "@)
        + decimal(size) + trailer_entry("\n  /Root "@, root) + trailer_entry("\n  /Info "@, info)
        + ascii("\n>>\nstartxref\n"@) + decimal(bytes.len() as int) + ascii("\n%%EOF"@)
}

/// No two objects share a number, and all numbers leave room for the size of
/// the cross-reference table.
pub open spec fn ids_usable(objects: Seq<(int, int)>) -> bool {
    &&& forall|i: int, j: int|
        0 <= i < j < objects.len() ==> (#[trigger] objects[i]).0 != (#[trigger] objects[j]).0
    &&& forall|i: int| 0 <= i < objects.len() ==> (#[trigger] objects[i]).0 < i32::MAX
}

/// One object was added to a file, with this text.
pub open spec fn object_added(before: Pdf, after: Pdf, id: int, text: Seq<u8>) -> bool {
    let bytes: Seq<u8> = chunk_bytes(pdf_chunk(before));
    &&& chunk_bytes(pdf_chunk(after)) == bytes + text
    &&& chunk_objects(pdf_chunk(after)) == chunk_objects(pdf_chunk(before)).push(
        (id, bytes.len() as int),
    )
    &&& pdf_file_id(after) == pdf_file_id(before)
}

/// `Pdf::new`: a file that holds its header only.
#[verifier::external_body]
pub(crate) fn new_pdf() -> (pdf: Pdf)
    ensures
        chunk_bytes(pdf_chunk(pdf)) == header(),
        chunk_objects(pdf_chunk(pdf)) == Seq::<(int, int)>::empty(),
        pdf_root(pdf) is None,
        pdf_info(pdf) is None,
        pdf_file_id(pdf) is None,
{
    Pdf::new()
}

/// `Chunk::new`: a chunk that holds nothing.
#[verifier::external_body]
pub(crate) fn new_chunk() -> (chunk: Chunk)
    ensures
        chunk_bytes(chunk) == Seq::<u8>::empty(),
        chunk_objects(chunk) == Seq::<(int, int)>::empty(),
{
    Chunk::new()
}

/// `Pdf::deref_mut`: the chunk inside a file, to write to. What is known of the
/// catalog, the information and the identifier stays.
#[verifier::external_body]
pub(crate) fn pdf_chunk_mut(pdf: &mut Pdf) -> (chunk: &mut Chunk)
    ensures
        *chunk == pdf_chunk(*old(pdf)),
        pdf_chunk(*final(pdf)) == *final(chunk),
        pdf_root(*final(pdf)) == pdf_root(*old(pdf)),
        pdf_info(*final(pdf)) == pdf_info(*old(pdf)),
        pdf_file_id(*final(pdf)) == pdf_file_id(*old(pdf)),
{
    &mut *pdf
}

/// `Chunk::refs`: the numbers of the objects, in order. Each fits in an `i32`.
#[verifier::external_body]
pub(crate) fn object_ids(pdf: &Pdf) -> (ids: Vec<i32>)
    ensures
        ids@.len() == chunk_objects(pdf_chunk(*pdf)).len(),
        forall|i: int|
            0 <= i < ids@.len() ==> #[trigger] ids@[i] == chunk_objects(pdf_chunk(*pdf))[i].0,
{
    pdf.refs().map(|id| id.get()).collect()
}

/// `Pdf::catalog` and `Catalog::pages`: writes the catalog and registers it for
/// the trailer. `Ref::new` takes numbers above zero only.
#[verifier::external_body]
pub(crate) fn write_catalog(pdf: &mut Pdf, id: i32, pages: i32)
    requires
        id > 0,
        pages > 0,
    ensures
        object_added(*old(pdf), *final(pdf), id as int, catalog_object(id as int, pages as int)),
        pdf_root(*final(pdf)) == Some(id as int),
        pdf_info(*final(pdf)) == pdf_info(*old(pdf)),
{
    pdf.catalog(Ref::new(id)).pages(Ref::new(pages));
}

/// `Chunk::pages`, `Pages::count` and `Pages::kids`: writes a page tree with
/// one child.
#[verifier::external_body]
pub(crate) fn write_page_tree(pdf: &mut Pdf, id: i32, count: i32, kid: i32)
    requires
        id > 0,
        count >= 0,
        kid > 0,
    ensures
        object_added(
            *old(pdf),
            *final(pdf),
            id as int,
            page_tree_object(id as int, count as int, kid as int),
        ),
        pdf_root(*final(pdf)) == pdf_root(*old(pdf)),
        pdf_info(*final(pdf)) == pdf_info(*old(pdf)),
{
    pdf.pages(Ref::new(id)).count(count).kids([Ref::new(kid)]);
}

/// `Chunk::stream`: writes a stream. It takes at most `i32::MAX` bytes.
#[verifier::external_body]
pub(crate) fn write_stream(pdf: &mut Pdf, id: i32, data: &[u8])
    requires
        id > 0,
        data@.len() <= i32::MAX,
    ensures
        object_added(*old(pdf), *final(pdf), id as int, stream_object(id as int, data@, false)),
        pdf_root(*final(pdf)) == pdf_root(*old(pdf)),
        pdf_info(*final(pdf)) == pdf_info(*old(pdf)),
{
    pdf.stream(Ref::new(id), data).finish();
}

/// `Chunk::stream` and `Stream::filter` with `Filter::FlateDecode`: writes a
/// stream whose data the caller has deflated.
#[verifier::external_body]
pub(crate) fn write_deflated_stream(pdf: &mut Pdf, id: i32, data: &[u8])
    requires
        id > 0,
        data@.len() <= i32::MAX,
    ensures
        object_added(*old(pdf), *final(pdf), id as int, stream_object(id as int, data@, true)),
        pdf_root(*final(pdf)) == pdf_root(*old(pdf)),
        pdf_info(*final(pdf)) == pdf_info(*old(pdf)),
{
    pdf.stream(Ref::new(id), data).filter(Filter::FlateDecode);
}

/// `Rect::x1` and the other coordinates, by their bits.
#[verifier::external_body]
pub(crate) fn read_rect_corners(rect: &Rect) -> (corners: (u32, u32, u32, u32))
    ensures
        corners == rect_corners(*rect),
{
    (rect.x1.to_bits(), rect.y1.to_bits(), rect.x2.to_bits(), rect.y2.to_bits())
}

/// A page was added to a file, and `fill` was handed an empty resource
/// dictionary.
pub open spec fn page_added<F: FnOnce(&mut Resources<'_>)>(
    before: Pdf,
    after: Pdf,
    id: int,
    fill: F,
    resources: &mut Resources<'_>,
    page: PageEntries,
) -> bool {
    &&& resources_text(*resources) == ascii("<<>>"@)
    &&& call_ensures(fill, (resources,), ())
    &&& object_added(before, after, id, page_object(id, page))
}

/// `Chunk::page` and the methods of `Page` and of its group: writes a page
/// whose resource dictionary `fill` writes. If `fill` leaves the writer in its
/// place, the page has the dictionary as `fill` left it. Nothing is said of it
/// where `fill` puts another writer in the place of the one it gets. The writer
/// keeps the absolute value of the integers it writes, which the least `i32` has
/// not.
#[verifier::external_body]
pub(crate) fn write_page<F: FnOnce(&mut Resources<'_>)>(
    pdf: &mut Pdf,
    id: i32,
    fill: F,
    media_box: Rect,
    parent: i32,
    isolated: bool,
    knockout: bool,
    profile: i32,
    contents: i32,
)
    requires
        id > 0,
        parent > 0,
        profile > 0,
        contents > 0,
        rect_corners(media_box).0 != LEAST_INTEGER_BITS,
        rect_corners(media_box).1 != LEAST_INTEGER_BITS,
        rect_corners(media_box).2 != LEAST_INTEGER_BITS,
        rect_corners(media_box).3 != LEAST_INTEGER_BITS,
        forall|resources: &mut Resources<'_>| call_requires(fill, (resources,)),
    ensures
        exists|resources: &mut Resources<'_>, text: Seq<u8>|
            {
                &&& #[trigger] page_added(
                    *old(pdf),
                    *final(pdf),
                    id as int,
                    fill,
                    resources,
                    (PageEntries {
                        resources: text,
                        media_box: rectangle(rect_corners(media_box)),
                        parent: parent as int,
                        isolated,
                        knockout,
                        profile: profile as int,
                        contents: contents as int,
                    }),
                )
                &&& resources_place(*final(resources)) == resources_place(*resources) ==> text
                    == resources_text(*final(resources))
            },
        pdf_root(*final(pdf)) == pdf_root(*old(pdf)),
        pdf_info(*final(pdf)) == pdf_info(*old(pdf)),
{
    let mut page = pdf.page(Ref::new(id));
    let mut resources = page.resources();
    fill(&mut resources);
    resources.finish();
    page.media_box(media_box);
    page.parent(Ref::new(parent));
    let mut group = page.group();
    group.transparency().isolated(isolated).knockout(knockout);
    group.color_space().icc_based(Ref::new(profile));
    group.finish();
    page.contents(Ref::new(contents));
}

/// `Pdf::document_info` and `DocumentInfo::producer`: writes the document
/// information and registers it for the trailer. Texts that need escapes or
/// another encoding are left out.
#[verifier::external_body]
pub(crate) fn write_document_info(pdf: &mut Pdf, id: i32, producer: &str)
    requires
        id > 0,
        is_plain(producer@),
    ensures
        object_added(*old(pdf), *final(pdf), id as int, info_object(id as int, producer@)),
        pdf_root(*final(pdf)) == pdf_root(*old(pdf)),
        pdf_info(*final(pdf)) == Some(id as int),
{
    pdf.document_info(Ref::new(id)).producer(TextStr(producer));
}

/// `Pdf::finish`: closes a file that has no identifier with the
/// cross-reference table and the trailer. The table has an entry for every
/// number up to the highest, and the unused ones form a list. It does not take
/// two objects with the same number.
#[verifier::external_body]
pub(crate) fn finish_pdf(pdf: Pdf) -> (file: Vec<u8>)
    requires
        ids_usable(chunk_objects(pdf_chunk(pdf))),
        pdf_file_id(pdf) is None,
    ensures
        file@ == file_text(
            chunk_bytes(pdf_chunk(pdf)),
            chunk_objects(pdf_chunk(pdf)),
            pdf_root(pdf),
            pdf_info(pdf),
        ),
{
    pdf.finish()
}

/// `Content::new`: a content stream that holds nothing.
#[verifier::external_body]
pub(crate) fn new_content() -> (content: Content)
    ensures
        content_bytes(content) == Seq::<u8>::empty(),
{
    Content::new()
}

/// `Content::transform`: writes the operator `cm`, after its six numbers. The
/// writer keeps the absolute value of the integers it writes, which the least
/// `i32` has not.
#[verifier::external_body]
pub(crate) fn write_transform(content: &mut Content, transform: Transform)
    requires
        svg::transform_parts(transform).0 != LEAST_INTEGER_BITS,
        svg::transform_parts(transform).1 != LEAST_INTEGER_BITS,
        svg::transform_parts(transform).2 != LEAST_INTEGER_BITS,
        svg::transform_parts(transform).3 != LEAST_INTEGER_BITS,
        svg::transform_parts(transform).4 != LEAST_INTEGER_BITS,
        svg::transform_parts(transform).5 != LEAST_INTEGER_BITS,
    ensures
        ({
            let (a, b, c, d, e, f): (u32, u32, u32, u32, u32, u32) = svg::transform_parts(
                transform,
            );
            content_bytes(*final(content)) == content_bytes(*old(content)) + spaced(
                seq![
                    number(a, number_text(a)),
                    number(b, number_text(b)),
                    number(c, number_text(c)),
                    number(d, number_text(d)),
                    number(e, number_text(e)),
                    number(f, number_text(f)),
                ],
            ) + ascii(" cm\n"@)
        }),
{
    content.transform([
        transform.sx,
        transform.ky,
        transform.kx,
        transform.sy,
        transform.tx,
        transform.ty,
    ]);
}

/// `Content::restore_state`: writes the operator `Q`.
#[verifier::external_body]
pub(crate) fn restore_state(content: &mut Content)
    ensures
        content_bytes(*final(content)) == content_bytes(*old(content)) + ascii("Q\n"@),
{
    content.restore_state();
}

} // verus!
