use image_evol::{Color, Pixel};

fn color(r: u8, g: u8, b: u8, a: u8) -> Color {
    Color { r, g, b, a }
}

#[test]
fn opaque_top_replaces_base() {
    let top = color(10, 20, 30, 255);
    for base in [color(0, 0, 0, 0), color(255, 255, 255, 255), color(1, 200, 37, 99)] {
        assert_eq!(base.blend(&top), top);
    }
}

#[test]
fn transparent_top_keeps_base() {
    let top = color(78, 90, 12, 0);
    for base in [
        color(255, 255, 255, 255),
        color(1, 200, 37, 99),
        color(9, 8, 7, 1),
        color(10, 20, 30, 0),
    ] {
        assert_eq!(base.blend(&top), base);
    }
}

#[test]
fn nothing_over_nothing_keeps_base() {
    assert_eq!(color(12, 34, 56, 0).blend(&color(78, 90, 12, 0)), color(12, 34, 56, 0));
    assert_eq!(color(10, 20, 30, 0).blend(&color(0, 0, 0, 0)), color(10, 20, 30, 0));
}

#[test]
fn half_black_over_white_truncates() {
    assert_eq!(color(255, 255, 255, 255).blend(&color(0, 0, 0, 128)), color(127, 127, 127, 255));
}

#[test]
fn translucent_over_translucent() {
    assert_eq!(color(200, 100, 50, 100).blend(&color(10, 20, 30, 50)), color(127, 69, 42, 130));
    assert_eq!(color(12, 34, 56, 0).blend(&color(78, 90, 12, 40)), color(78, 90, 12, 40));
}

#[test]
fn white_constructors() {
    assert_eq!(Color::white(), color(255, 255, 255, 255));
    let p = Pixel::new();
    assert_eq!((p.r, p.g, p.b, p.a), (255, 255, 255, 255));
    assert_eq!(Color::from(&p), Color::white());
}

#[test]
fn add_color_opaque_black_paints_black() {
    let mut p = Pixel::new();
    p.add_color(&color(0, 0, 0, 255));
    assert_eq!(p, Pixel { r: 0, g: 0, b: 0, a: 255 });
}

#[test]
fn set_color_overwrites() {
    let mut p = Pixel::of_color(&color(1, 2, 3, 4));
    assert_eq!(p, Pixel { r: 1, g: 2, b: 3, a: 4 });
    p.set_color(&color(9, 9, 9, 0));
    assert_eq!(p, Pixel { r: 9, g: 9, b: 9, a: 0 });
}
