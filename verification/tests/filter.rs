use svg2pdf::render::filter::{
    blank_layer, filter_pixmap_dimensions, layer_pixmap_dimensions, render, render_checked,
    MAX_FILTER_PIXELS,
};
use svg2pdf::usvg::{self, Node, NonZeroRect, Transform, Tree};
use svg2pdf::ConversionError::{FilterRegionTooLarge, UnknownError};
use svg2pdf::{Binary32, ConversionOptions, Size};

fn single(value: f32) -> Binary32 {
    Binary32 { bits: value.to_bits() }
}

fn size(width: f32, height: f32) -> Option<Size> {
    Size::from_wh(single(width), single(height))
}

#[test]
fn rejects_filter_pixmap_above_pixel_budget() {
    let size = size(4097.0, 4097.0);
    assert!(matches!(
        size.map(filter_pixmap_dimensions),
        Some(Err(FilterRegionTooLarge))
    ));
}

#[test]
fn accepts_filter_pixmap_at_pixel_budget() {
    let size = size(4096.0, 4096.0);
    assert_eq!(
        size.and_then(|size| filter_pixmap_dimensions(size).ok()),
        Some((4096, 4096))
    );
}

#[test]
fn dimensions_round_halves_up_and_keep_a_pixel() {
    let cases = [
        (0.001, 0.4999, (1, 1)),
        (0.5, 1.4999, (1, 1)),
        (1.5, 2.5, (2, 3)),
        (100.25, 7.75, (100, 8)),
        (16777216.0, f32::from_bits(1), (16777216, 1)),
    ];
    for (width, height, expected) in cases {
        let size = size(width, height).unwrap();
        assert_eq!(filter_pixmap_dimensions(size).ok(), Some(expected));
    }
}

#[test]
fn dimensions_saturate() {
    for (width, height) in [(16777218.0, 1.0), (1e30, 0.1), (f32::MAX, f32::MAX), (1e-30, 5e9)] {
        let size = size(width, height).unwrap();
        assert!(matches!(filter_pixmap_dimensions(size), Err(FilterRegionTooLarge)));
    }
}

#[test]
fn sizes_are_finite_and_above_zero() {
    for bad in [0.0, -0.0, -3.0, f32::NAN, f32::INFINITY, f32::NEG_INFINITY] {
        assert!(size(bad, 1.0).is_none());
        assert!(size(1.0, bad).is_none());
    }
    assert!(size(f32::from_bits(1), f32::MAX).is_some());
}

#[test]
fn layers_are_scaled_before_they_are_counted() {
    let layer = size(10.0, 20.5).unwrap();
    assert_eq!(layer_pixmap_dimensions(layer, single(1.5)).ok(), Some((15, 31)));
    assert_eq!(layer_pixmap_dimensions(layer, single(1e-3)).ok(), Some((1, 1)));
    assert!(matches!(
        layer_pixmap_dimensions(layer, single(1e6)),
        Err(FilterRegionTooLarge)
    ));
    for bad in [0.0, -1.5, f32::NAN, f32::INFINITY, 1e-45] {
        let tiny = size(0.1, 20.5).unwrap();
        assert!(matches!(layer_pixmap_dimensions(tiny, single(bad)), Err(UnknownError)));
    }
}

#[test]
fn images_beyond_the_number_range_are_too_large() {
    for (width, height) in [(10.0, 20.5), (0.1, 20.5), (20.5, 0.1), (f32::MAX, f32::MAX)] {
        let layer = size(width, height).unwrap();
        let result = layer_pixmap_dimensions(layer, single(f32::MAX));
        assert!(matches!(result, Err(FilterRegionTooLarge)));
    }
    let thin = size(f32::from_bits(1), f32::MAX).unwrap();
    assert!(matches!(layer_pixmap_dimensions(thin, single(2.0)), Err(FilterRegionTooLarge)));
    assert!(matches!(layer_pixmap_dimensions(thin, single(0.25)), Err(UnknownError)));
    let infinite = layer_pixmap_dimensions(thin, single(f32::INFINITY));
    assert!(matches!(infinite, Err(UnknownError)));
}

#[test]
fn higher_raster_scales_give_larger_images() {
    let layer = size(33.3, 0.7).unwrap();
    let mut last = (0, 0);
    for scale in [0.25, 0.5, 1.0, 1.5, 2.0, 10.0, 300.0] {
        let next = layer_pixmap_dimensions(layer, single(scale)).unwrap();
        assert!(last.0 <= next.0 && last.1 <= next.1);
        last = next;
    }
    assert_eq!(last, (9990, 210));
}

#[test]
fn blank_images_stay_within_the_limit() {
    let bbox = NonZeroRect::from_xywh(3.0, 4.0, 4096.0, 1024.0).unwrap();
    let layer = blank_layer(bbox, single(2.0)).ok().unwrap();
    assert_eq!((layer.pixmap.width(), layer.pixmap.height()), (8192, 2048));
    assert_eq!(8192 * 2048, MAX_FILTER_PIXELS);
    assert_eq!(layer.pixmap.data().len(), 64 * 1024 * 1024);
    assert!(layer.pixmap.data().iter().all(|&byte| byte == 0));
    assert_eq!(layer.layer_bbox, bbox);
    assert!(matches!(blank_layer(bbox, single(2.001)), Err(FilterRegionTooLarge)));
}

fn filtered_tree(transform: &str) -> Tree {
    let svg = format!(
        r##"<svg xmlns="http://www.w3.org/2000/svg" width="100" height="100">
            <filter id="f" x="0" y="0" width="1" height="1"><feOffset dx="1"/></filter>
            <g filter="url(#f)" transform="{}"><rect x="10" y="20" width="30" height="15"/></g>
        </svg>"##,
        transform,
    );
    Tree::from_str(&svg, &usvg::Options::default()).unwrap()
}

fn filtered_group(group: &usvg::Group) -> Option<&usvg::Group> {
    if !group.filters().is_empty() {
        return Some(group);
    }
    group.children().iter().find_map(|node| match node {
        Node::Group(group) => filtered_group(group),
        _ => None,
    })
}

#[test]
fn groups_are_rendered_on_their_transformed_layer() {
    let tree = filtered_tree("scale(2)");
    let group = filtered_group(tree.root()).unwrap();
    let bbox = group.layer_bounding_box().transform(group.transform()).unwrap();
    let options = ConversionOptions::default();

    let layer = render(group, options).ok().unwrap();
    assert_eq!(layer.layer_bbox, bbox);
    let width = (bbox.width() * 1.5).round().max(1.0) as u32;
    let height = (bbox.height() * 1.5).round().max(1.0) as u32;
    assert_eq!((layer.pixmap.width(), layer.pixmap.height()), (width, height));

    let checked = render_checked(group, options).unwrap().ok().unwrap();
    assert_eq!(checked.layer_bbox, bbox);
    assert_eq!((checked.pixmap.width(), checked.pixmap.height()), (width, height));

    let vast = ConversionOptions { raster_scale: single(1e5), ..options };
    assert!(matches!(render(group, vast), Err(FilterRegionTooLarge)));
    let beyond = ConversionOptions { raster_scale: single(f32::MAX), ..options };
    assert!(matches!(render(group, beyond), Err(FilterRegionTooLarge)));
}

#[test]
fn images_are_encoded_as_png() {
    let bbox = NonZeroRect::from_xywh(0.0, 0.0, 3.0, 2.0).unwrap();
    let mut layer = blank_layer(bbox, single(1.0)).ok().unwrap();
    let blank = layer.encode().ok().unwrap();
    layer.pixmap.fill(tiny_skia::Color::from_rgba8(10, 200, 30, 255));
    let image = layer.encode().ok().unwrap();
    assert!(image.interpolate && blank.interpolate);
    assert_eq!((image.layer_bbox, blank.layer_bbox), (bbox, bbox));
    let (file, blank) = (image.png, blank.png);
    assert_eq!(&file[1..4], b"PNG");
    assert_ne!(file, blank);
    let decoded = tiny_skia::Pixmap::decode_png(&file).unwrap();
    assert_eq!((decoded.width(), decoded.height()), (3, 2));
    assert_eq!(decoded.data(), layer.pixmap.data());
}

fn group_of(node: &Node) -> &usvg::Group {
    match node {
        Node::Group(group) => group,
        _ => panic!("not a group"),
    }
}

#[test]
fn layers_at_the_end_of_the_number_range_stay_where_they_are() {
    let svg = r#"<svg xmlns="http://www.w3.org/2000/svg" width="10" height="10">
        <g opacity="0.5">
            <path d="M -3.4028235e38 0 L -5.0706024e30 0 L -5.0706024e30 10 Z"/>
        </g>
    </svg>"#;
    let tree = Tree::from_str(svg, &usvg::Options::default()).unwrap();
    let group = group_of(&tree.root().children()[0]);
    let bbox = group.layer_bounding_box();
    assert_eq!(bbox.width(), f32::MAX);
    assert!(usvg::Rect::from_xywh(bbox.x(), bbox.y(), bbox.width(), bbox.height()).is_none());

    let options = ConversionOptions::default();
    assert!(matches!(render_checked(group, options), Some(Err(FilterRegionTooLarge))));
    let tiny = ConversionOptions { raster_scale: single(1e-36), ..options };
    let layer = render_checked(group, tiny).unwrap().ok().unwrap();
    assert_eq!(layer.layer_bbox, bbox);
    assert_eq!((layer.pixmap.width(), layer.pixmap.height()), (340, 1));
}

#[test]
fn groups_are_drawn_through_their_initial_transform() {
    let tree = filtered_tree("translate(5 7) scale(2)");
    let group = filtered_group(tree.root()).unwrap();
    let options = ConversionOptions::default();
    let layer = render(group, options).ok().unwrap();
    let (bbox, abs) = (layer.layer_bbox, group.abs_layer_bounding_box());
    assert_eq!((bbox.x(), bbox.y(), abs.x(), abs.y()), (25.0, 47.0, 25.0, 47.0));

    let scale = Transform::from_scale(1.5, 1.5);
    let transform = layer.initial_transform(group, scale).unwrap();
    let expected = scale
        .pre_concat(Transform::from_translate(-bbox.x(), -bbox.y()))
        .pre_concat(Transform::from_translate(abs.x(), abs.y()));
    assert_eq!(transform, expected);
    assert_eq!(transform, scale);
    assert!(layer.initial_transform(group, Transform::from_scale(1.5, 2.0)).is_none());
    assert!(layer.initial_transform(group, Transform::identity()).is_none());

    let nested = Tree::from_str(
        r##"<svg xmlns="http://www.w3.org/2000/svg" width="100" height="100">
            <filter id="f" x="0" y="0" width="1" height="1"><feOffset dx="1"/></filter>
            <g transform="translate(3 4)">
                <g filter="url(#f)"><rect x="10" y="20" width="30" height="15"/></g>
            </g>
        </svg>"##,
        &usvg::Options::default(),
    )
    .unwrap();
    let group = filtered_group(nested.root()).unwrap();
    let layer = render(group, options).ok().unwrap();
    let (bbox, abs) = (layer.layer_bbox, group.abs_layer_bounding_box());
    assert_eq!((bbox.x(), bbox.y(), abs.x(), abs.y()), (10.0, 20.0, 13.0, 24.0));
    let transform = layer.initial_transform(group, scale).unwrap();
    assert_eq!(transform, Transform::from_row(1.5, 0.0, 0.0, 1.5, 4.5, 6.0));
}

#[test]
fn the_raster_scale_does_not_move_an_image() {
    let tree = filtered_tree("translate(5 7) rotate(30) scale(2)");
    let group = filtered_group(tree.root()).unwrap();
    let bbox = group.layer_bounding_box().transform(group.transform()).unwrap();
    let mut last = 0;
    for scale in [0.5, 1.0, 1.5, 4.0] {
        let options = ConversionOptions {
            raster_scale: single(scale),
            ..ConversionOptions::default()
        };
        let layer = render(group, options).ok().unwrap();
        assert_eq!(layer.layer_bbox, bbox);
        assert!(layer.pixmap.width() > last);
        last = layer.pixmap.width();
    }
}

#[test]
fn layers_are_not_moved_beyond_the_number_range() {
    let tree = filtered_tree("scale(2)");
    let group = filtered_group(tree.root()).unwrap();
    let mut layer = render(group, ConversionOptions::default()).ok().unwrap();
    layer.raster_scale = single(1e30);
    let scale = Transform::from_scale(1e30, 1e30);
    assert!(layer.initial_transform(group, scale).is_some());
    layer.layer_bbox = NonZeroRect::from_xywh(1e30, 0.0, 1e30, 1.0).unwrap();
    assert!(layer.initial_transform(group, scale).is_none());
    layer.raster_scale = single(f32::INFINITY);
    let scale = Transform::from_scale(f32::INFINITY, f32::INFINITY);
    assert!(layer.initial_transform(group, scale).is_none());
}
