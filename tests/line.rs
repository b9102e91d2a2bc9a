use rasterizer::image::{Color, Image};
use rasterizer::line::draw_line;

fn drawn(image: &Image) -> Vec<(usize, usize)> {
    let mut out = Vec::new();
    for x in 0..image.width {
        for y in 0..image.height {
            if image.get_pixel(x, y) != Color(0, 0, 0) {
                out.push((x, y));
            }
        }
    }
    out
}

fn line(x0: i32, y0: i32, x1: i32, y1: i32) -> Vec<(usize, usize)> {
    let mut image = Image::new(8, 8);
    draw_line(x0, y0, x1, y1, &Color::white(), &mut image);
    drawn(&image)
}

#[test]
fn shallow_line() {
    assert_eq!(line(0, 0, 5, 3), vec![(0, 0), (1, 1), (2, 1), (3, 2), (4, 2), (5, 3)]);
}

#[test]
fn line_is_symmetric() {
    assert_eq!(line(0, 0, 5, 3), line(5, 3, 0, 0));
    assert_eq!(line(1, 6, 4, 0), line(4, 0, 1, 6));
    assert_eq!(line(0, 2, 7, 5), line(7, 5, 0, 2));
}

#[test]
fn steep_line_walks_along_y() {
    assert_eq!(line(0, 0, 1, 4), vec![(0, 0), (0, 1), (0, 2), (1, 3), (1, 4)]);
}

#[test]
fn descending_diagonal() {
    assert_eq!(line(0, 3, 3, 0), vec![(0, 3), (1, 2), (2, 1), (3, 0)]);
}

#[test]
fn single_point() {
    assert_eq!(line(2, 5, 2, 5), vec![(2, 5)]);
}

#[test]
fn horizontal_and_vertical() {
    assert_eq!(line(1, 2, 4, 2), vec![(1, 2), (2, 2), (3, 2), (4, 2)]);
    assert_eq!(line(3, 4, 3, 1), vec![(3, 1), (3, 2), (3, 3), (3, 4)]);
}

#[test]
fn parts_off_the_canvas_are_dropped() {
    assert_eq!(line(-2, -2, 2, 2), vec![(0, 0), (1, 1), (2, 2)]);
    assert_eq!(line(6, 6, 12, 12), vec![(6, 6), (7, 7)]);
}
