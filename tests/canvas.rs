use rasterizer::image::{Color, Image};

fn pixel_index(image: &Image, x: usize, y: usize) -> usize {
    ((image.height - y - 1) * image.width + x) * 3
}

#[test]
fn new_image_is_black() {
    let image = Image::new(3, 2);
    assert_eq!(image.width, 3);
    assert_eq!(image.height, 2);
    assert_eq!(image.data, vec![0u8; 18]);
}

#[test]
fn empty_image_has_no_pixels() {
    let image = Image::new(0, 0);
    assert!(image.data.is_empty());
}

#[test]
fn set_pixel_then_get_pixel() {
    let mut image = Image::new(4, 3);
    image.set_pixel(2, 1, &Color(1, 2, 3));
    assert_eq!(image.get_pixel(2, 1), Color(1, 2, 3));
    assert_eq!(image.get_pixel(1, 2), Color(0, 0, 0));
}

#[test]
fn row_zero_is_stored_last() {
    let mut image = Image::new(2, 3);
    image.set_pixel(0, 0, &Color(9, 8, 7));
    assert_eq!(&image.data[12..15], &[9, 8, 7]);
    image.set_pixel(1, 2, &Color(4, 5, 6));
    assert_eq!(&image.data[3..6], &[4, 5, 6]);
    assert_eq!(pixel_index(&image, 1, 2), 3);
}

#[test]
fn out_of_bounds_writes_are_ignored() {
    let mut image = Image::new(4, 4);
    let before = image.data.clone();
    image.set_pixel(4, 0, &Color::white());
    image.set_pixel(0, 4, &Color::white());
    image.set_pixel(100, 100, &Color::white());
    image.set_pixel_with_depth(4, 4, &Color::white(), 100);
    image.set_pixel_with_depth(usize::MAX, 0, &Color::white(), 100);
    assert_eq!(image.data, before);
}

#[test]
fn depth_test_keeps_nearer_fragments() {
    let mut image = Image::new(2, 2);
    image.set_pixel_with_depth(1, 1, &Color::red(), 10);
    assert_eq!(image.get_pixel(1, 1), Color::red());

    image.set_pixel_with_depth(1, 1, &Color::green(), 10);
    assert_eq!(image.get_pixel(1, 1), Color::red());

    image.set_pixel_with_depth(1, 1, &Color::green(), 5);
    assert_eq!(image.get_pixel(1, 1), Color::red());

    image.set_pixel_with_depth(1, 1, &Color::blue(), 11);
    assert_eq!(image.get_pixel(1, 1), Color::blue());

    image.set_pixel_with_depth(1, 1, &Color::red(), 10);
    assert_eq!(image.get_pixel(1, 1), Color::blue());
}

#[test]
fn any_finite_depth_beats_an_empty_pixel() {
    let mut image = Image::new(1, 1);
    image.set_pixel_with_depth(0, 0, &Color::white(), isize::MIN + 1);
    assert_eq!(image.get_pixel(0, 0), Color::white());
}

#[test]
fn least_depth_never_wins() {
    let mut image = Image::new(1, 1);
    image.set_pixel_with_depth(0, 0, &Color::white(), isize::MIN);
    assert_eq!(image.get_pixel(0, 0), Color(0, 0, 0));
}

#[test]
fn set_pixel_ignores_depth() {
    let mut image = Image::new(1, 1);
    image.set_pixel_with_depth(0, 0, &Color::red(), 50);
    image.set_pixel(0, 0, &Color::green());
    assert_eq!(image.get_pixel(0, 0), Color::green());
    image.set_pixel_with_depth(0, 0, &Color::blue(), 40);
    assert_eq!(image.get_pixel(0, 0), Color::green());
}

#[test]
fn from_rgb_checks_the_size() {
    assert!(Image::from_rgb(2, 2, vec![0u8; 11]).is_none());
    assert!(Image::from_rgb(2, 2, vec![0u8; 13]).is_none());
    assert!(Image::from_rgb(usize::MAX, 2, vec![0u8; 12]).is_none());
    let image = Image::from_rgb(2, 2, (0u8..12).collect()).unwrap();
    assert_eq!(image.get_pixel(0, 1), Color(0, 1, 2));
    assert_eq!(image.get_pixel(1, 0), Color(9, 10, 11));
}

fn sample(texture: &Image, u: f32, v: f32) -> Color {
    let x = (texture.width as f32 * u) as usize;
    let y = (texture.height as f32 * v) as usize;
    texture.get_pixel(x, y)
}

#[test]
fn texture_round_trip() {
    let mut texture = Image::new(5, 3);
    texture.set_pixel(0, 0, &Color(10, 20, 30));
    texture.set_pixel(4, 2, &Color(40, 50, 60));
    assert_eq!(sample(&texture, 0.0, 0.0), Color(10, 20, 30));
    assert_eq!(sample(&texture, 0.999, 0.999), Color(40, 50, 60));
}

#[test]
fn multiply_tints_each_channel() {
    assert_eq!(Color(255, 128, 0).multiply(&Color(128, 255, 255)), Color(128, 128, 0));
    assert_eq!(Color(100, 200, 50).multiply(&Color(50, 50, 50)), Color(19, 39, 9));
    assert_eq!(Color(255, 255, 255).multiply(&Color(255, 255, 255)), Color(255, 255, 255));
    assert_eq!(Color(7, 8, 9).multiply(&Color(0, 0, 0)), Color(0, 0, 0));
}

#[test]
fn named_colors() {
    assert_eq!(Color::white(), Color(255, 255, 255));
    assert_eq!(Color::red(), Color(255, 0, 0));
    assert_eq!(Color::green(), Color(0, 255, 0));
    assert_eq!(Color::blue(), Color(0, 0, 255));
}
