use term_image::color::{luma, premultiply, rgb_to_ansi, Ansi, Rgb, Rgba};
use term_image::raster::closest_mult;

fn px(r: u8, g: u8, b: u8, a: u8) -> Rgba {
    Rgba { r, g, b, a }
}

#[test]
fn premultiply_opaque_keeps_color() {
    for bg in [Rgb((0, 0, 0)), Rgb((255, 255, 255)), Rgb((12, 200, 99))] {
        assert_eq!(premultiply(px(10, 20, 30, 255), bg), Rgb((10, 20, 30)));
    }
}

#[test]
fn premultiply_transparent_gives_background() {
    for bg in [Rgb((0, 0, 0)), Rgb((255, 255, 255)), Rgb((12, 200, 99))] {
        assert_eq!(premultiply(px(10, 20, 30, 0), bg), bg);
    }
}

#[test]
fn premultiply_half_alpha_truncates() {
    // (0 * 127 + 200 * 128) / 255 = 100, (100 * 128) / 255 = 50
    assert_eq!(premultiply(px(200, 100, 0, 128), Rgb((0, 0, 0))), Rgb((100, 50, 0)));
    // (255 * 127 + 0 * 128) / 255 = 127
    assert_eq!(premultiply(px(0, 0, 0, 128), Rgb((255, 255, 255))), Rgb((127, 127, 127)));
}

#[test]
fn ansi_cube_boundaries() {
    assert_eq!(Rgb((0, 0, 0)).as_256(), Ansi(16));
    assert_eq!(Rgb((255, 255, 255)).as_256(), Ansi(16 + 36 * 5 + 6 * 5 + 5));
    assert_eq!(Rgb((255, 0, 0)).as_256(), Ansi(16 + 36 * 5));
    assert_eq!(Rgb((0, 255, 0)).as_256(), Ansi(16 + 6 * 5));
    assert_eq!(Rgb((0, 0, 255)).as_256(), Ansi(16 + 5));
}

#[test]
fn ansi_cube_truncates() {
    // 254 * 5 / 255 = 4, 51 * 5 / 255 = 1, 50 * 5 / 255 = 0
    assert_eq!(Rgb((254, 51, 50)).as_256(), Ansi(16 + 36 * 4 + 6));
    assert_eq!(rgb_to_ansi(Rgb((254, 51, 50))), Ansi(16 + 36 * 4 + 6));
}

#[test]
fn luma_weights() {
    assert_eq!(luma(px(100, 100, 100, 0)), 100);
    assert_eq!(luma(px(255, 0, 0, 255)), 54);
    assert_eq!(luma(px(0, 255, 0, 255)), 182);
    assert_eq!(luma(px(0, 0, 255, 255)), 18);
}

#[test]
fn closest_mult_rounds_half_up() {
    assert_eq!(closest_mult(5, 4), 4);
    assert_eq!(closest_mult(6, 4), 8);
    assert_eq!(closest_mult(7, 4), 8);
    assert_eq!(closest_mult(1, 4), 0);
    assert_eq!(closest_mult(12, 4), 12);
    assert_eq!(closest_mult(10, 0), 0);
    assert_eq!(closest_mult(37, 1), 37);
}
