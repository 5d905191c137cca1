use librender::postprocess::ssaa;
use librender::render::barycentric_coordinates;
use librender::math::vector::Vector;
use librender::texture::{Texture, TextureColor};

fn point(x: i64, y: i64) -> Vector<2> {
    Vector::new_from_array([x, y])
}

#[test]
fn barycentric_of_vertices_is_standard_basis() {
    let tri = [point(0, 0), point(10, 0), point(0, 10)];
    let (n_a, den_a) = barycentric_coordinates(&tri, &point(0, 0));
    assert_eq!(den_a, 100);
    assert_eq!((n_a.get(0), n_a.get(1), n_a.get(2)), (100, 0, 0));
    let tri = [point(0, 0), point(10, 0), point(0, 10)];
    let (n_b, _) = barycentric_coordinates(&tri, &point(10, 0));
    assert_eq!((n_b.get(0), n_b.get(1), n_b.get(2)), (0, 100, 0));
    let tri = [point(0, 0), point(10, 0), point(0, 10)];
    let (n_c, _) = barycentric_coordinates(&tri, &point(0, 10));
    assert_eq!((n_c.get(0), n_c.get(1), n_c.get(2)), (0, 0, 100));
}

#[test]
fn barycentric_of_centroid_is_one_third_each() {
    let tri = [point(0, 0), point(3, 0), point(0, 3)];
    let (n, den) = barycentric_coordinates(&tri, &point(1, 1));
    assert_eq!(den, 9);
    assert_eq!((n.get(0), n.get(1), n.get(2)), (3, 3, 3));
}

#[test]
fn barycentric_numerators_sum_to_denominator() {
    let tri = [point(-5, 2), point(9, -3), point(4, 11)];
    let (n, den) = barycentric_coordinates(&tri, &point(2, 2));
    assert_eq!(n.get(0) + n.get(1) + n.get(2), den);
}

#[test]
fn barycentric_outside_point_has_negative_coordinate() {
    let tri = [point(0, 0), point(10, 0), point(0, 10)];
    let (n, den) = barycentric_coordinates(&tri, &point(-1, -1));
    assert!(den > 0);
    assert!(n.get(1) < 0 || n.get(2) < 0 || n.get(0) < 0);
}

#[test]
fn ssaa_uniform_buffer_keeps_color() {
    let mut t = Texture::new(4, 4);
    let c = TextureColor { r: 120, g: 30, b: 200, a: 17 };
    for y in 0..4 {
        for x in 0..4 {
            t.set_color(x, y, c).unwrap();
        }
    }
    let small = ssaa(&t);
    assert_eq!(small.get_width(), 2);
    assert_eq!(small.get_height(), 2);
    for y in 0..2 {
        for x in 0..2 {
            let got = small.get_color(x, y).unwrap();
            assert_eq!((got.r, got.g, got.b, got.a), (c.r, c.g, c.b, 255));
        }
    }
}

#[test]
fn ssaa_bright_corner_bleeds_only_into_neighborhood() {
    let mut t = Texture::new(4, 4);
    t.set_color(0, 0, TextureColor { r: 255, g: 255, b: 255, a: 255 }).unwrap();
    let small = ssaa(&t);
    // output (0, 0) averages the corner's 2x2 in-bounds neighborhood of 4
    let lit = small.get_color(0, 0).unwrap();
    assert_eq!(lit.r, 255 / 4);
    // the bright pixel lies outside every other output pixel's neighborhood
    for &(x, y) in [(1u32, 0u32), (0, 1), (1, 1)].iter() {
        let dark = small.get_color(x, y).unwrap();
        assert_eq!((dark.r, dark.g, dark.b), (0, 0, 0));
    }
}

#[test]
fn ssaa_averages_mixed_neighborhood() {
    let mut t = Texture::new(2, 2);
    t.set_color(0, 0, TextureColor { r: 10, g: 0, b: 0, a: 255 }).unwrap();
    t.set_color(1, 0, TextureColor { r: 20, g: 0, b: 0, a: 255 }).unwrap();
    t.set_color(0, 1, TextureColor { r: 30, g: 0, b: 0, a: 255 }).unwrap();
    t.set_color(1, 1, TextureColor { r: 60, g: 0, b: 0, a: 255 }).unwrap();
    let small = ssaa(&t);
    assert_eq!(small.get_width(), 1);
    assert_eq!(small.get_height(), 1);
    // all four pixels are in the 3x3 neighborhood of (0, 0)
    assert_eq!(small.get_color(0, 0).unwrap().r, (10 + 20 + 30 + 60) / 4);
}
