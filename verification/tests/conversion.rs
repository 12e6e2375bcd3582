use pdf_writer::writers::Resources;
use pdf_writer::{Chunk, Content, Finish, Name, Rect, Ref};
use svg2pdf::conversion::{PageCanvas, PageLayout, PageRefs, WrittenPage};
use svg2pdf::usvg::{self, Transform, Tree};
use svg2pdf::{to_chunk, to_pdf, Binary32, ConversionError, ConversionOptions, PageOptions};

fn single(value: f32) -> Binary32 {
    Binary32 { bits: value.to_bits() }
}

fn tree(width: &str, height: &str) -> Tree {
    let svg = format!(
        r#"<svg xmlns="http://www.w3.org/2000/svg" width="{}" height="{}"/>"#,
        width, height,
    );
    Tree::from_str(&svg, &usvg::Options::default()).unwrap()
}

fn lay_out(tree: &Tree, dpi: f32) -> Result<PageLayout, ConversionError> {
    let conversion =
        to_pdf(tree, ConversionOptions::default(), PageOptions { dpi: single(dpi) })?;
    conversion.lay_out(Ok(()))
}

fn transform(layout: PageLayout) -> Transform {
    let ratio = f32::from_bits(layout.dpi_ratio.bits);
    Transform::from_scale(ratio, ratio)
}

fn media_box(layout: PageLayout) -> Rect {
    let width = f32::from_bits(layout.page_size.width.bits);
    let height = f32::from_bits(layout.page_size.height.bits);
    Rect::new(0.0, 0.0, width, height)
}

const REFS: PageRefs = PageRefs { catalog: 1, page_tree: 2, page: 3, content: 4 };

fn start(layout: PageLayout) -> PageCanvas {
    let geometry = layout.with_geometry(transform(layout), media_box(layout)).unwrap();
    let mut start = geometry.begin(REFS);
    start.content_mut().save_state();
    start.scaled(Ok(())).ok().unwrap()
}

#[test]
fn pages_have_the_size_of_the_svg_at_the_default_dpi() {
    let layout = lay_out(&tree("120.5", "80"), 72.0).ok().unwrap();
    assert_eq!(layout.dpi_ratio, single(1.0));
    assert_eq!(layout.page_size.width, single(120.5));
    assert_eq!(layout.page_size.height, single(80.0));
    assert!(layout.compress);
}

#[test]
fn pages_shrink_with_the_dpi() {
    let tree = tree("120.5", "80");
    let mut last = f32::INFINITY;
    for dpi in [1.0f32, 36.0, 72.0, 96.0, 100.0, 300.0, 1e6] {
        let layout = lay_out(&tree, dpi).ok().unwrap();
        assert_eq!(layout.page_size.width, single(120.5 * (72.0 / dpi)));
        assert_eq!(layout.page_size.height, single(80.0 * (72.0 / dpi)));
        let width = f32::from_bits(layout.page_size.width.bits);
        assert!(width < last);
        last = width;
    }
}

#[test]
fn pages_that_leave_the_number_range_are_errors() {
    let tree = tree("10", "10");
    for dpi in [1e-45, 1e-38, 1e-37 * 2.0] {
        assert!(matches!(lay_out(&tree, dpi), Err(ConversionError::UnknownError)));
    }
    assert!(lay_out(&tree, 1e-35).is_ok());
    assert!(lay_out(&tree, f32::MAX).is_ok());
}

#[test]
fn the_context_is_asked_before_the_layout() {
    let tree = tree("10", "10");
    let conversion =
        to_pdf(&tree, ConversionOptions::default(), PageOptions { dpi: single(1e-45) }).ok().unwrap();
    let result = conversion.lay_out(Err(ConversionError::MissingGlyphs));
    assert!(matches!(result, Err(ConversionError::MissingGlyphs)));
}

#[test]
fn conversions_keep_tree_and_options() {
    let tree = tree("10", "10");
    let options = ConversionOptions { pdfa: true, compress: false, ..ConversionOptions::default() };
    let pdf = to_pdf(&tree, options, PageOptions::default()).ok().unwrap();
    assert!(std::ptr::eq(pdf.tree(), &tree));
    assert!(pdf.options().pdfa && !pdf.options().compress);
    assert!(!pdf.lay_out(Ok(())).ok().unwrap().compress);
    let chunk = to_chunk(&tree, options).ok().unwrap();
    assert!(std::ptr::eq(chunk.tree(), &tree));
    assert!(chunk.options().pdfa && !chunk.options().compress);
}

#[test]
fn geometry_has_to_be_that_of_the_layout() {
    let layout = lay_out(&tree("100", "50"), 36.0).ok().unwrap();
    let (scale, page) = (Transform::from_scale(2.0, 2.0), Rect::new(0.0, 0.0, 200.0, 100.0));
    assert!(layout.with_geometry(scale, page).is_some());
    for other in [
        Transform::identity(),
        Transform::from_scale(2.0, 3.0),
        Transform::from_row(2.0, 1.0, 0.0, 2.0, 0.0, 0.0),
        Transform::from_row(2.0, 0.0, 1.0, 2.0, 0.0, 0.0),
        Transform::from_row(2.0, 0.0, 0.0, 2.0, 1.0, 0.0),
        Transform::from_row(2.0, 0.0, 0.0, 2.0, 0.0, 1.0),
    ] {
        assert!(layout.with_geometry(other, page).is_none());
    }
    for other in [
        Rect::new(0.0, 0.0, 100.0, 50.0),
        Rect::new(0.0, 0.0, 200.0, 50.0),
        Rect::new(1.0, 0.0, 200.0, 100.0),
        Rect::new(0.0, 1.0, 200.0, 100.0),
    ] {
        assert!(layout.with_geometry(scale, other).is_none());
    }
}

#[test]
fn content_is_scaled_between_saving_and_restoring() {
    let layout = lay_out(&tree("100", "50"), 36.0).ok().unwrap();
    let mut canvas = start(layout);
    canvas.canvas().1.close_path();
    let (_, content) = canvas.drawn(Ok(())).ok().unwrap();
    assert_eq!(content.finish().as_slice(), b"q\n2 0 0 2 0 0 cm\nh\nQ");

    let layout = lay_out(&tree("100", "50"), 48.0).ok().unwrap();
    let (_, content) = start(layout).drawn(Ok(())).ok().unwrap();
    assert_eq!(content.finish().as_slice(), b"q\n1.5 0 0 1.5 0 0 cm\nQ");
}

fn expected_file(objects: &[(usize, String)], size: usize, free: &[(usize, usize)]) -> Vec<u8> {
    let mut file = b"%PDF-1.7\n%\x80\x80\x80\x80\n\n".to_vec();
    let mut entries = vec![String::new(); size];
    for (id, text) in objects {
        entries[*id] = format!("{:010} 00000 n\r\n", file.len());
        file.extend(text.as_bytes());
    }
    for (id, next) in free {
        let generation = if *id == 0 { 65535 } else { 0 };
        entries[*id] = format!("{:010} {:05} f\r\n", next, generation);
    }
    let start = file.len();
    file.extend(format!("xref\n0 {}\n", size).as_bytes());
    for entry in entries {
        file.extend(entry.as_bytes());
    }
    let trailer = format!(
        "trailer\n<<\n  /Size {}\n  /Root 1 0 R\n  /Info {} 0 R\n>>\nstartxref\n{}\n%%EOF",
        size,
        size - 1,
        start,
    );
    file.extend(trailer.as_bytes());
    file
}

fn opening() -> Vec<(usize, String)> {
    vec![
        (1, "1 0 obj\n<<\n  /Type /Catalog\n  /Pages 2 0 R\n>>\nendobj\n\n".to_string()),
        (
            2,
            "2 0 obj\n<<\n  /Type /Pages\n  /Count 1\n  /Kids [3 0 R]\n>>\nendobj\n\n".to_string(),
        ),
    ]
}

fn page(resources: &str, media_box: &str) -> (usize, String) {
    let text = format!(
        "3 0 obj\n<<\n  /Type /Page\n  /Resources {}\n  /MediaBox [{}]\n  /Parent 2 0 R\n  \
         /Group <<\n    /Type /Group\n    /S /Transparency\n    /I true\n    /K false\n    \
         /CS [/ICCBased 5 0 R]\n  >>\n  /Contents 4 0 R\n>>\nendobj\n\n",
        resources, media_box,
    );
    (3, text)
}

fn info(id: usize) -> (usize, String) {
    (id, format!("{} 0 obj\n<<\n  /Producer (svg2pdf)\n>>\nendobj\n\n", id))
}

fn written(compress: bool, stream: &[u8]) -> WrittenPage {
    let options = ConversionOptions { compress, ..ConversionOptions::default() };
    let tree = tree("100", "50.5");
    let conversion = to_pdf(&tree, options, PageOptions::default()).ok().unwrap();
    let layout = conversion.lay_out(Ok(())).ok().unwrap();
    let (page, _): (_, Content) = start(layout).drawn(Ok(())).ok().unwrap();
    page.write(stream, |_: &mut Resources<'_>| {}, 5)
}

#[test]
fn files_hold_the_page_and_nothing_else() {
    let file = written(false, b"q Q").finish(Ok(6)).ok().unwrap();
    let mut objects = opening();
    objects.push((
        4,
        "4 0 obj\n<<\n  /Length 3\n>>\nstream\nq Q\nendstream\nendobj\n\n".to_string(),
    ));
    objects.push(page("<<>>", "0 0 100 50.5"));
    objects.push(info(6));
    assert_eq!(file, expected_file(&objects, 7, &[(0, 5), (5, 0)]));
}

#[test]
fn compressed_streams_name_their_filter() {
    let file = written(true, b"abcd").finish_checked(Ok(6)).unwrap().ok().unwrap();
    let mut objects = opening();
    objects.push((
        4,
        "4 0 obj\n<<\n  /Length 4\n  /Filter /FlateDecode\n>>\nstream\nabcd\nendstream\nendobj\n\n"
            .to_string(),
    ));
    objects.push(page("<<>>", "0 0 100 50.5"));
    objects.push(info(6));
    assert_eq!(file, expected_file(&objects, 7, &[(0, 5), (5, 0)]));
}

#[test]
fn drawn_objects_and_resources_are_kept() {
    let tree = tree("10", "20");
    let conversion =
        to_pdf(&tree, ConversionOptions::default(), PageOptions::default()).ok().unwrap();
    let layout = conversion.lay_out(Ok(())).ok().unwrap();
    let mut canvas = start(layout);
    canvas.canvas().0.indirect(Ref::new(7)).primitive(true);
    let (drawn, _) = canvas.drawn(Ok(())).ok().unwrap();
    let fill = |resources: &mut Resources<'_>| {
        resources.x_objects().pair(Name(b"xo0"), Ref::new(7)).finish();
    };
    let mut written = drawn.write(b"", fill, 5);
    written.chunk_mut().indirect(Ref::new(5)).primitive(9);
    assert!(!written.accepts_id(7));
    assert!(!written.accepts_id(0));
    assert!(!written.accepts_id(i32::MAX));
    assert!(written.accepts_id(8));
    let file = written.finish_checked(Ok(8)).unwrap().ok().unwrap();

    let mut objects = opening();
    objects.push((7, "7 0 obj\ntrue\nendobj\n\n".to_string()));
    objects.push((
        4,
        "4 0 obj\n<<\n  /Length 0\n  /Filter /FlateDecode\n>>\nstream\n\nendstream\nendobj\n\n"
            .to_string(),
    ));
    objects.push(page("<<\n    /XObject <<\n      /xo0 7 0 R\n    >>\n  >>", "0 0 10 20"));
    objects.push((5, "5 0 obj\n9\nendobj\n\n".to_string()));
    objects.push(info(8));
    assert_eq!(file, expected_file(&objects, 9, &[(0, 6), (6, 0)]));
}

#[test]
fn shared_numbers_are_not_finished() {
    let mut page = written(false, b"");
    page.chunk_mut().indirect(Ref::new(2)).primitive(1);
    assert!(!page.accepts_id(6));
    assert!(page.finish_checked(Ok(6)).is_none());
    assert!(written(false, b"").finish_checked(Ok(4)).is_none());
}

#[test]
fn the_first_error_ends_a_conversion() {
    let layout = lay_out(&tree("10", "10"), 72.0).ok().unwrap();
    let geometry = layout.with_geometry(transform(layout), media_box(layout)).unwrap();
    let error = geometry.begin(REFS).scaled(Err(ConversionError::TooMuchNesting));
    assert!(matches!(error, Err(ConversionError::TooMuchNesting)));

    let error = start(layout).drawn(Err(ConversionError::FilterRegionTooLarge));
    assert!(matches!(error, Err(ConversionError::FilterRegionTooLarge)));

    let error = ConversionError::InvalidFont(fontdb::ID::dummy());
    let result = written(false, b"").finish(Err(error));
    assert!(matches!(result, Err(ConversionError::InvalidFont(_))));
    let result = written(false, b"").finish_checked(Err(error));
    assert!(matches!(result, Some(Err(ConversionError::InvalidFont(_)))));
}

#[test]
fn chunks_hold_what_was_drawn() {
    let tree = tree("10", "10");
    let options = ConversionOptions::default();
    let mut canvas = to_chunk(&tree, options).ok().unwrap().begin(Ok(())).ok().unwrap();
    assert_eq!(canvas.chunk.len(), 0);
    assert_eq!(canvas.chunk.refs().count(), 0);
    canvas.chunk.indirect(Ref::new(3)).primitive(1);
    let mut drawn = canvas.drawn(Ok(3)).ok().unwrap();
    drawn.chunk.indirect(Ref::new(4)).primitive(2);
    let (chunk, x_ref) = drawn.finish(Ok(())).ok().unwrap();
    assert_eq!(x_ref, 3);
    assert_eq!(chunk.as_bytes(), b"3 0 obj\n1\nendobj\n\n4 0 obj\n2\nendobj\n\n");
}

#[test]
fn the_first_error_ends_a_chunk() {
    let tree = tree("10", "10");
    let options = ConversionOptions::default();
    let error = to_chunk(&tree, options).ok().unwrap().begin(Err(ConversionError::UnknownError));
    assert!(matches!(error, Err(ConversionError::UnknownError)));
    let canvas = to_chunk(&tree, options).ok().unwrap().begin(Ok(())).ok().unwrap();
    let error = canvas.drawn(Err(ConversionError::InvalidImage));
    assert!(matches!(error, Err(ConversionError::InvalidImage)));
    let canvas = to_chunk(&tree, options).ok().unwrap().begin(Ok(())).ok().unwrap();
    let error = canvas.drawn(Ok(1)).ok().unwrap().finish(Err(ConversionError::MissingGlyphs));
    assert!(matches!(error, Err(ConversionError::MissingGlyphs)));
}

#[test]
fn the_table_finds_every_object() {
    let mut page = written(false, b"q Q");
    page.chunk_mut().indirect(Ref::new(12)).primitive(1);
    page.chunk_mut().indirect(Ref::new(8)).primitive(2);
    let file = page.finish_checked(Ok(9)).unwrap().ok().unwrap();

    let head = b"xref\n0 13\n";
    let start = file.windows(head.len()).position(|bytes| bytes == head).unwrap();
    let table = start + head.len();
    for id in [1, 2, 3, 4, 8, 9, 12] {
        let entry = std::str::from_utf8(&file[table + 20 * id..table + 20 * id + 20]).unwrap();
        assert!(entry.ends_with(" 00000 n\r\n"));
        let position: usize = entry[..10].parse().unwrap();
        assert!(file[position..].starts_with(format!("{} 0 obj\n", id).as_bytes()));
    }
    for (id, entry) in [
        (0, "0000000005 65535 f\r\n"),
        (5, "0000000006 00000 f\r\n"),
        (6, "0000000007 00000 f\r\n"),
        (7, "0000000010 00000 f\r\n"),
        (10, "0000000011 00000 f\r\n"),
        (11, "0000000000 00000 f\r\n"),
    ] {
        assert_eq!(&file[table + 20 * id..table + 20 * id + 20], entry.as_bytes());
    }
    let end = format!("\nstartxref\n{}\n%%EOF", start);
    assert!(file.ends_with(end.as_bytes()));
}

#[test]
fn layouts_that_no_page_has_are_refused() {
    let valid = lay_out(&tree("100", "50"), 36.0).ok().unwrap();
    assert!(valid.with_geometry(transform(valid), media_box(valid)).is_some());
    for bad in [-2147483648.0, -1.0, -0.0, 0.0, f32::INFINITY, f32::NEG_INFINITY] {
        let mut layout = valid;
        layout.dpi_ratio = single(bad);
        assert!(layout.with_geometry(transform(layout), media_box(layout)).is_none());
        let mut layout = valid;
        layout.page_size.width = single(bad);
        assert!(layout.with_geometry(transform(layout), media_box(layout)).is_none());
        let mut layout = valid;
        layout.page_size.height = single(bad);
        assert!(layout.with_geometry(transform(layout), media_box(layout)).is_none());
    }
}

#[test]
fn a_writer_that_was_put_aside_closes_its_dictionary() {
    let layout = lay_out(&tree("100", "50.5"), 72.0).ok().unwrap();
    let (drawn, _) = start(layout).drawn(Ok(())).ok().unwrap();
    let elsewhere: &'static mut Chunk = Box::leak(Box::new(Chunk::new()));
    let mut other = elsewhere.indirect(Ref::new(1)).start::<Resources<'static>>();
    other.x_objects().pair(Name(b"xo0"), Ref::new(7)).finish();
    let fill = |resources: &mut Resources<'_>| *resources = other;
    let file = drawn.write(b"q Q", fill, 5).finish(Ok(6)).ok().unwrap();
    let (_, expected) = page("<<>>", "0 0 100 50.5");
    assert!(file.windows(expected.len()).any(|bytes| bytes == expected.as_bytes()));
}
