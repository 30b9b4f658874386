use rasterizer::color::Color;
use rasterizer::raster::{rasterize, ImageWrapper};
use rasterizer::triangle::{Point, Triangle};

fn red() -> Color {
    Color::new(255, 0, 0)
}

fn green() -> Color {
    Color::new(0, 255, 0)
}

fn blue() -> Color {
    Color::new(0, 0, 255)
}

fn corner_triangle() -> Triangle {
    Triangle::new(Point::new(0, 0), Point::new(4, 0), Point::new(0, 4), red(), green(), blue())
}

#[test]
fn end_to_end_corner_triangle() {
    let img = rasterize(&corner_triangle(), 5, 5);
    assert_eq!(img.pixel(0, 0), red());
    assert_eq!(img.pixel(4, 0), green());
    assert_eq!(img.pixel(0, 4), blue());
    assert_eq!(img.pixel(4, 4), Color::default());
    let b = corner_triangle().barycentric(&Point::new(1, 1));
    assert!(0 < b.u && b.u < b.denom);
    assert!(0 < b.v && b.v < b.denom);
    assert!(0 < b.w && b.w < b.denom);
    assert_eq!(img.pixel(1, 1), Color::new(127, 63, 63));
    let raw = img.to_raw();
    let at = |x: usize, y: usize| raw[3 * (y * 5 + x)..3 * (y * 5 + x) + 3].to_vec();
    assert_eq!(at(0, 0), vec![255, 0, 0]);
    assert_eq!(at(4, 0), vec![0, 255, 0]);
    assert_eq!(at(0, 4), vec![0, 0, 255]);
    assert_eq!(at(4, 4), vec![0, 0, 0]);
    assert_eq!(at(1, 1), vec![127, 63, 63]);
}

#[test]
fn interior_blend_is_truncated() {
    let t = corner_triangle();
    let b = t.barycentric(&Point::new(1, 1));
    assert_eq!((b.u, b.v, b.w, b.denom), (8, 4, 4, 16));
    assert_eq!(t.get_color(&Point::new(1, 1)), Color::new(127, 63, 63));
    assert_eq!(t.get_color(&Point::new(1, 2)), Color::new(63, 63, 127));
}

#[test]
fn edge_midpoint_is_blended() {
    let t = corner_triangle();
    let b = t.barycentric(&Point::new(2, 0));
    assert!(b.denom > 0);
    assert_eq!(b.w, 0);
    assert_eq!(b.u, b.v);
    assert_eq!(t.get_color(&Point::new(2, 0)), Color::new(127, 127, 0));
}

#[test]
fn vertices_keep_their_colors() {
    let c1 = Color::new(10, 20, 30);
    let c2 = Color::new(200, 100, 50);
    let c3 = Color::new(7, 255, 1);
    let t = Triangle::new(Point::new(3, 9), Point::new(17, 2), Point::new(11, 20), c1, c2, c3);
    assert_eq!(t.get_color(&Point::new(3, 9)), c1);
    assert_eq!(t.get_color(&Point::new(17, 2)), c2);
    assert_eq!(t.get_color(&Point::new(11, 20)), c3);
}

#[test]
fn clockwise_vertices_are_handled() {
    let t = Triangle::new(Point::new(0, 0), Point::new(0, 4), Point::new(4, 0), red(), blue(), green());
    let b = t.barycentric(&Point::new(1, 1));
    assert!(b.denom > 0);
    assert_eq!(t.get_color(&Point::new(1, 1)), Color::new(127, 63, 63));
    assert_eq!(t.get_color(&Point::new(4, 4)), Color::default());
}

#[test]
fn weights_sum_to_denominator() {
    let t = Triangle::new(Point::new(2, 1), Point::new(9, 4), Point::new(5, 12), red(), green(), blue());
    for x in 0..15u32 {
        for y in 0..15u32 {
            let b = t.barycentric(&Point::new(x, y));
            assert_eq!(b.u + b.v + b.w, b.denom);
        }
    }
}

#[test]
fn degenerate_triangle_is_background() {
    let t = Triangle::new(Point::new(0, 0), Point::new(2, 2), Point::new(4, 4), red(), green(), blue());
    assert_eq!(t.barycentric(&Point::new(1, 1)).denom, 0);
    for x in 0..6u32 {
        for y in 0..6u32 {
            assert_eq!(t.get_color(&Point::new(x, y)), Color::default());
        }
    }
    let img = rasterize(&t, 6, 6);
    for x in 0..6u32 {
        for y in 0..6u32 {
            assert_eq!(img.pixel(x, y), Color::default());
        }
    }
}

#[test]
fn coincident_vertices_are_background() {
    let t = Triangle::new(Point::new(3, 3), Point::new(3, 3), Point::new(3, 3), red(), green(), blue());
    assert_eq!(t.get_color(&Point::new(3, 3)), Color::default());
}

#[test]
fn pixels_outside_box_stay_background() {
    let t = Triangle::new(Point::new(2, 2), Point::new(5, 2), Point::new(2, 5), red(), green(), blue());
    let img = rasterize(&t, 8, 8);
    for x in 0..8u32 {
        for y in 0..8u32 {
            if x < 2 || x > 5 || y < 2 || y > 5 {
                assert_eq!(img.pixel(x, y), Color::default());
            }
        }
    }
    assert_eq!(img.pixel(2, 2), red());
}

#[test]
fn write_keeps_pixels_outside_box() {
    let mut img = ImageWrapper::new(6, 6);
    let first = Triangle::new(Point::new(0, 0), Point::new(5, 0), Point::new(0, 5), red(), red(), red());
    img.write(&first);
    let second = Triangle::new(Point::new(4, 4), Point::new(5, 4), Point::new(4, 5), blue(), blue(), blue());
    img.write(&second);
    assert_eq!(img.pixel(0, 0), red());
    assert_eq!(img.pixel(4, 4), blue());
    assert_eq!(img.pixel(5, 5), Color::default());
}

#[test]
fn rasterize_is_reproducible() {
    let t = Triangle::new(Point::new(1, 0), Point::new(9, 3), Point::new(4, 9), red(), green(), blue());
    let a = rasterize(&t, 10, 10);
    let b = rasterize(&t, 10, 10);
    assert_eq!(a.to_raw(), b.to_raw());
    let mut c = rasterize(&t, 10, 10);
    c.write(&t);
    assert_eq!(a.to_raw(), c.to_raw());
}

#[test]
fn raw_layout_is_row_major_red_green_blue() {
    let t = Triangle::new(Point::new(1, 0), Point::new(1, 0), Point::new(1, 0), red(), green(), blue());
    let mut img = ImageWrapper::new(3, 2);
    img.write(&t);
    let raw = img.to_raw();
    assert_eq!(raw.len(), 18);
    assert!(raw.iter().all(|&b| b == 0));
    let tri = Triangle::new(Point::new(0, 0), Point::new(2, 0), Point::new(0, 1), Color::new(9, 8, 7), Color::new(9, 8, 7), Color::new(9, 8, 7));
    img.write(&tri);
    let raw = img.to_raw();
    assert_eq!(&raw[0..3], &[9, 8, 7]);
    assert_eq!(&raw[9..12], &[9, 8, 7]);
    assert_eq!(&raw[15..18], &[0, 0, 0]);
}

#[test]
fn channels_are_red_green_blue() {
    let c = Color::new(1, 2, 3);
    assert_eq!(c.channels(), [1, 2, 3]);
    assert_eq!(Color::from_channels([1, 2, 3]), c);
}

#[test]
fn bounding_box_spans_vertices() {
    let t = Triangle::new(Point::new(7, 1), Point::new(2, 9), Point::new(5, 4), red(), green(), blue());
    let b = t.get_bounding_box();
    assert_eq!((b.x0, b.x1, b.y0, b.y1), (2, 7, 1, 9));
    assert_eq!(b.x(), 2..=7);
    assert_eq!(b.y(), 1..=9);
}

#[test]
fn vertex_detection_is_exact() {
    let t = corner_triangle();
    assert!(t.is_vertex(Point::new(4, 0)));
    assert!(t.is_vertex(Point::new(0, 0)));
    assert!(!t.is_vertex(Point::new(1, 0)));
}

#[test]
fn large_coordinates_do_not_overflow() {
    let m = u32::MAX;
    let t = Triangle::new(Point::new(0, 0), Point::new(m, 0), Point::new(0, m), red(), green(), blue());
    assert_eq!(t.get_color(&Point::new(0, 0)), red());
    assert_eq!(t.get_color(&Point::new(m, 0)), green());
    assert_eq!(t.get_color(&Point::new(0, m)), blue());
    assert_eq!(t.get_color(&Point::new(m, m)), Color::default());
}
