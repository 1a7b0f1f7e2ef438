use layers::geometry::Size2D;
use layers::image::{
    bytes_per_pixel, BasicImageData, Format, Image, ImageData,
};
use layers::tree::{ContainerLayer, ImageLayer, Layer, LayerTree};

#[test]
fn bytes_per_pixel_matches_the_formats() {
    assert_eq!(bytes_per_pixel(Format::ARGB32Format), 4);
    assert_eq!(bytes_per_pixel(Format::RGB24Format), 3);
}

#[test]
fn basic_image_data_stores_its_arguments_verbatim() {
    let bytes: Vec<u8> = (0u8..24).collect();
    let data = BasicImageData::new(Size2D::new(2, 4), 2, Format::RGB24Format, bytes.clone());
    assert_eq!(data.size(), Size2D::new(2, 4));
    assert_eq!(data.stride(), 2);
    assert_eq!(data.format(), Format::RGB24Format);
    assert_eq!(data.data, bytes);
}

#[test]
fn with_data_delivers_the_exact_bytes_once() {
    let bytes: Vec<u8> = vec![9, 8, 7, 6, 5, 4, 3, 2, 1, 0, 11, 12];
    let data = BasicImageData::new(Size2D::new(1, 1), 1, Format::ARGB32Format, bytes.clone());
    let mut calls = 0usize;
    let seen = data.with_data(|view: &Vec<u8>| {
        calls += 1;
        view.clone()
    });
    assert_eq!(calls, 1);
    assert_eq!(seen, bytes);

    // The callback observes metadata consistent with construction.
    let observed = data.with_data(|view: &Vec<u8>| {
        (view.len(), data.size(), data.stride(), data.format())
    });
    assert_eq!(observed, (12, Size2D::new(1, 1), 1, Format::ARGB32Format));
}

#[test]
fn image_without_texture_releases_nothing() {
    let data = BasicImageData::new(Size2D::new(1, 1), 1, Format::RGB24Format, vec![0, 0, 0]);
    let image = Image::new(data);
    assert_eq!(image.texture, None);
    assert_eq!(image.destroy(), None);
}

#[test]
fn image_with_texture_releases_it_exactly_once() {
    let data = BasicImageData::new(Size2D::new(1, 1), 1, Format::RGB24Format, vec![0, 0, 0]);
    let mut image = Image::new(data);
    image.set_texture(77);
    assert_eq!(image.texture, Some(77));

    // Destruction reports the one handle to release; the image is
    // consumed, so no second report can follow on any path.
    let mut released = Vec::new();
    if let Some(handle) = image.destroy() {
        released.push(handle);
    }
    assert_eq!(released, vec![77]);
}

#[test]
fn taking_the_texture_twice_yields_it_only_once() {
    let mut image: Image<u8> = Image::new(0);
    image.set_texture(5);
    assert_eq!(image.take_texture(), Some(5));
    assert_eq!(image.take_texture(), None);
    assert_eq!(image.destroy(), None);
}

#[test]
fn scene_scenario_visits_newest_image_layer_first() {
    // Two 2x2 ARGB32 images, stride 2, 16 bytes each.
    let bytes: Vec<u8> = (1u8..=16).collect();
    let first_data = BasicImageData::new(
        Size2D::new(2, 2),
        2,
        Format::ARGB32Format,
        bytes.clone(),
    );
    let second_data = BasicImageData::new(
        Size2D::new(2, 2),
        2,
        Format::ARGB32Format,
        bytes.clone(),
    );
    let images = vec![Image::new(first_data), Image::new(second_data)];
    images[0].data.with_data(|view: &Vec<u8>| assert_eq!(view, &bytes));

    let mut tree = LayerTree::new();
    let root = tree.insert(Layer::ContainerLayerKind(ContainerLayer()));
    let first_layer = tree.insert(Layer::ImageLayerKind(ImageLayer(0)));
    let second_layer = tree.insert(Layer::ImageLayerKind(ImageLayer(1)));
    tree.add_child(root, first_layer);
    tree.add_child(root, second_layer);

    let seen = tree.each_child(root, |_i| true);
    assert_eq!(seen, vec![second_layer, first_layer]);
    for (slot, image) in images.into_iter().enumerate() {
        assert_eq!(image.destroy(), None, "image {slot} never got a texture");
    }
}
