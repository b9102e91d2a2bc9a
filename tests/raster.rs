use rasterizer::image::{Color, Image};
use rasterizer::shader::{barycentric, bounding_box, draw_triangle, Barycentric, FlatShader, NoVary, ScreenVertex, Shader};
use rasterizer::vec::Vec2;

fn vertex(x: i32, y: i32, depth: i32) -> ScreenVertex<NoVary> {
    ScreenVertex { pos: Vec2 { x, y }, depth, attrs: NoVary }
}

fn covered(image: &Image, background: Color) -> Vec<(usize, usize)> {
    let mut out = Vec::new();
    for y in 0..image.height {
        for x in 0..image.width {
            if image.get_pixel(x, y) != background {
                out.push((x, y));
            }
        }
    }
    out
}

/// Discards every fragment in the leftmost column.
struct SkipFirstColumn {
    color: Color,
}

impl Shader<NoVary> for SkipFirstColumn {
    fn shade(&self, pt: Vec2<isize>, _attrs: NoVary) -> Option<Color> {
        if pt.x == 0 {
            None
        } else {
            Some(self.color)
        }
    }

    fn fragment(&self, pt: Vec2<isize>, attrs: NoVary) -> Option<Color> {
        self.shade(pt, attrs)
    }
}

#[test]
fn rasterizes_small_right_triangle() {
    let mut image = Image::new(4, 4);
    let verts = vec![vertex(0, 0, 0), vertex(2, 0, 0), vertex(0, 2, 0)];
    draw_triangle(&verts, &FlatShader { color: Color::red() }, &mut image);
    assert_eq!(covered(&image, Color(0, 0, 0)), vec![(0, 0), (1, 0), (0, 1), (1, 1)]);
}

#[test]
fn winding_order_does_not_matter() {
    let mut image = Image::new(4, 4);
    let verts = vec![vertex(0, 0, 0), vertex(0, 2, 0), vertex(2, 0, 0)];
    draw_triangle(&verts, &FlatShader { color: Color::green() }, &mut image);
    assert_eq!(covered(&image, Color(0, 0, 0)), vec![(0, 0), (1, 0), (0, 1), (1, 1)]);
}

#[test]
fn degenerate_triangle_draws_nothing() {
    let mut image = Image::new(4, 4);
    let verts = vec![vertex(0, 0, 0), vertex(1, 1, 0), vertex(3, 3, 0)];
    draw_triangle(&verts, &FlatShader { color: Color::white() }, &mut image);
    assert!(covered(&image, Color(0, 0, 0)).is_empty());
}

#[test]
fn discarded_fragments_leave_pixels_untouched() {
    let mut image = Image::new(4, 4);
    let verts = vec![vertex(0, 0, 0), vertex(2, 0, 0), vertex(0, 2, 0)];
    draw_triangle(&verts, &SkipFirstColumn { color: Color::blue() }, &mut image);
    assert_eq!(covered(&image, Color(0, 0, 0)), vec![(1, 0), (1, 1)]);
}

#[test]
fn nearer_triangle_wins_whatever_the_order() {
    let near = vec![vertex(0, 0, 10), vertex(4, 0, 10), vertex(0, 4, 10)];
    let far = vec![vertex(0, 0, 5), vertex(4, 0, 5), vertex(0, 4, 5)];

    let mut a = Image::new(4, 4);
    draw_triangle(&far, &FlatShader { color: Color::red() }, &mut a);
    draw_triangle(&near, &FlatShader { color: Color::green() }, &mut a);
    assert_eq!(a.get_pixel(1, 1), Color::green());

    let mut b = Image::new(4, 4);
    draw_triangle(&near, &FlatShader { color: Color::green() }, &mut b);
    draw_triangle(&far, &FlatShader { color: Color::red() }, &mut b);
    assert_eq!(b.get_pixel(1, 1), Color::green());
}

#[test]
fn triangle_partly_off_canvas_is_clipped() {
    let mut image = Image::new(3, 3);
    let verts = vec![vertex(-5, -5, 0), vertex(20, -5, 0), vertex(-5, 20, 0)];
    draw_triangle(&verts, &FlatShader { color: Color::white() }, &mut image);
    assert_eq!(covered(&image, Color(0, 0, 0)).len(), 9);
}

#[test]
fn barycentric_weights_sum_to_denominator() {
    let pts = vec![Vec2 { x: 0, y: 0 }, Vec2 { x: 4, y: 0 }, Vec2 { x: 0, y: 4 }];
    let b: Barycentric = barycentric(Vec2 { x: 1, y: 1 }, &pts).unwrap();
    assert_eq!(b.u + b.v + b.w, b.den);
    assert!(b.den > 0);
    assert_eq!((b.u, b.v, b.w, b.den), (8, 4, 4, 16));
}

#[test]
fn point_outside_has_a_negative_weight() {
    let pts = vec![Vec2 { x: 0, y: 0 }, Vec2 { x: 4, y: 0 }, Vec2 { x: 0, y: 4 }];
    let b = barycentric(Vec2 { x: 3, y: 3 }, &pts).unwrap();
    assert_eq!(b.u + b.v + b.w, b.den);
    assert!(b.u < 0 || b.v < 0 || b.w < 0);
}

#[test]
fn weights_reconstruct_the_point() {
    let pts = vec![Vec2 { x: -3, y: 1 }, Vec2 { x: 7, y: -2 }, Vec2 { x: 2, y: 9 }];
    let p = Vec2 { x: 1, y: 2 };
    let b = barycentric(p, &pts).unwrap();
    assert!(b.den > 0 && b.u >= 0 && b.v >= 0 && b.w >= 0);
    assert_eq!(b.u * -3 + b.v * 7 + b.w * 2, b.den * 1);
    assert_eq!(b.u * 1 + b.v * -2 + b.w * 9, b.den * 2);
}

#[test]
fn degenerate_triangle_has_no_weights() {
    let pts = vec![Vec2 { x: 0, y: 0 }, Vec2 { x: 2, y: 2 }, Vec2 { x: 5, y: 5 }];
    assert!(barycentric(Vec2 { x: 1, y: 1 }, &pts).is_none());
}

#[test]
fn bounding_box_of_points() {
    let pts = vec![Vec2 { x: 3, y: -1 }, Vec2 { x: -2, y: 4 }, Vec2 { x: 1, y: 0 }];
    let (lo, hi) = bounding_box(&pts);
    assert_eq!((lo.x, lo.y, hi.x, hi.y), (-2, -1, 3, 4));
}

#[test]
fn depth_is_interpolated_across_the_triangle() {
    let mut image = Image::new(8, 8);
    let verts = vec![vertex(0, 0, 0), vertex(8, 0, 80), vertex(0, 8, 0)];
    draw_triangle(&verts, &FlatShader { color: Color::red() }, &mut image);
    // A fragment at depth 30 wins only where the triangle lies nearer than 30.
    let near = vec![vertex(0, 0, 30), vertex(8, 0, 30), vertex(0, 8, 30)];
    draw_triangle(&near, &FlatShader { color: Color::green() }, &mut image);
    assert_eq!(image.get_pixel(1, 1), Color::green());
    assert_eq!(image.get_pixel(5, 1), Color::red());
}
