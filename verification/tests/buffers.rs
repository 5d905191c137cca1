use librender::image::{Color, Image};
use librender::texture::{Texture, TextureColor};
use librender::utils::RenderError;

#[test]
fn texture_new_dimensions() {
    let t = Texture::new(4, 3);
    assert_eq!(t.get_width(), 4);
    assert_eq!(t.get_height(), 3);
    assert_eq!(t.data.len(), 12);
}

#[test]
fn texture_set_then_get_color() {
    let mut t = Texture::new(3, 2);
    let c = TextureColor { r: 10, g: 20, b: 30, a: 40 };
    t.set_color(2, 1, c).unwrap();
    assert_eq!(t.get_color(2, 1).unwrap(), c);
    assert_eq!(t.get_color(0, 0).unwrap(), TextureColor { r: 0, g: 0, b: 0, a: 0 });
}

#[test]
fn texture_out_of_bounds_is_illegal_arguments() {
    let mut t = Texture::new(3, 2);
    let c = TextureColor { r: 1, g: 2, b: 3, a: 4 };
    assert_eq!(t.set_color(3, 0, c), Err(RenderError::IllegalArguments));
    assert_eq!(t.set_color(0, 2, c), Err(RenderError::IllegalArguments));
    assert_eq!(t.get_color(5, 5).unwrap_err(), RenderError::IllegalArguments);
}

#[test]
fn texture_flip_horizontally_swaps_columns() {
    let mut t = Texture::new(3, 1);
    let a = TextureColor { r: 1, g: 0, b: 0, a: 255 };
    let b = TextureColor { r: 2, g: 0, b: 0, a: 255 };
    let c = TextureColor { r: 3, g: 0, b: 0, a: 255 };
    t.set_color(0, 0, a).unwrap();
    t.set_color(1, 0, b).unwrap();
    t.set_color(2, 0, c).unwrap();
    t.flip_horizontally();
    assert_eq!(t.get_color(0, 0).unwrap(), c);
    assert_eq!(t.get_color(1, 0).unwrap(), b);
    assert_eq!(t.get_color(2, 0).unwrap(), a);
}

#[test]
fn texture_flip_vertically_swaps_rows() {
    let mut t = Texture::new(1, 2);
    let top = TextureColor { r: 9, g: 9, b: 9, a: 9 };
    let bottom = TextureColor { r: 7, g: 7, b: 7, a: 7 };
    t.set_color(0, 0, top).unwrap();
    t.set_color(0, 1, bottom).unwrap();
    t.flip_vertically();
    assert_eq!(t.get_color(0, 0).unwrap(), bottom);
    assert_eq!(t.get_color(0, 1).unwrap(), top);
}

#[test]
fn image_new_dimensions() {
    let i = Image::new(5, 2);
    assert_eq!(i.get_width(), 5);
    assert_eq!(i.get_height(), 2);
    assert_eq!(i.data.len(), 10);
}

#[test]
fn image_set_then_get_color() {
    let mut i = Image::new(2, 2);
    let c = Color { r: 200, g: 100, b: 50, a: 255 };
    i.set_color(1, 1, c).unwrap();
    assert_eq!(i.get_color(1, 1).unwrap(), c);
}

#[test]
fn image_out_of_bounds_is_illegal_arguments() {
    let i = Image::new(2, 2);
    assert_eq!(i.get_color(2, 0).unwrap_err(), RenderError::IllegalArguments);
}

#[test]
fn image_flips_compose_to_rotation() {
    let mut i = Image::new(2, 2);
    let c00 = Color { r: 1, g: 0, b: 0, a: 0 };
    let c10 = Color { r: 2, g: 0, b: 0, a: 0 };
    let c01 = Color { r: 3, g: 0, b: 0, a: 0 };
    let c11 = Color { r: 4, g: 0, b: 0, a: 0 };
    i.set_color(0, 0, c00).unwrap();
    i.set_color(1, 0, c10).unwrap();
    i.set_color(0, 1, c01).unwrap();
    i.set_color(1, 1, c11).unwrap();
    i.flip_horizontally();
    i.flip_vertically();
    assert_eq!(i.get_color(0, 0).unwrap(), c11);
    assert_eq!(i.get_color(1, 0).unwrap(), c01);
    assert_eq!(i.get_color(0, 1).unwrap(), c10);
    assert_eq!(i.get_color(1, 1).unwrap(), c00);
}
