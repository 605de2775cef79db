use term_image::ascii::{best_char, font_table_vec, Ascii, AsciiOptions, Cell};
use term_image::color::{Rgb, Rgba};
use term_image::raster::Image;

#[test]
fn brightness_extremes() {
    let font = font_table_vec();
    assert_eq!(font.len(), 94);
    assert_eq!(best_char(0, &font), '`');
    assert_eq!(best_char(255, &font), 'B');
}

#[test]
fn ties_favor_earlier_glyph() {
    let font = font_table_vec();
    assert_eq!(best_char(100, &font), '?');
    assert_eq!(best_char(76, &font), '(');
    // 77 is one away from both 76 and 78: the earlier glyph wins
    assert_eq!(best_char(77, &font), '(');
}

#[test]
fn far_glyphs_fall_back_to_first() {
    let font = vec![('a', 0u8), ('b', 250u8)];
    assert_eq!(best_char(125, &font), 'a');
    assert_eq!(best_char(200, &font), 'b');
}

#[test]
fn one_cell_per_pixel() {
    let img = Image {
        width: 2,
        height: 1,
        pixels: vec![
            Rgba { r: 0, g: 0, b: 0, a: 255 },
            Rgba { r: 255, g: 255, b: 255, a: 0 },
        ],
    };
    let opts = AsciiOptions { size: (80, 25), background_color: Rgb((9, 9, 9)) };
    let rows = Ascii::img_exact(&opts, &img);
    assert_eq!(
        rows,
        vec![vec![Cell { ch: '`', fg: Rgb((0, 0, 0)) }, Cell { ch: 'B', fg: Rgb((9, 9, 9)) }]]
    );
}

#[test]
fn resized_ascii_is_stretched() {
    let p = Rgba { r: 255, g: 255, b: 255, a: 255 };
    let img = Image { width: 10, height: 10, pixels: vec![p; 100] };
    let opts = AsciiOptions { size: (8, 20), background_color: Rgb((0, 0, 0)) };
    // fits within 4x20 as 4x4, then stretched to 8x4
    let rows = Ascii::img(&opts, &img);
    assert_eq!(rows.len(), 4);
    assert_eq!(rows[0].len(), 8);
    let out = Ascii::animated(&opts, &vec![(img, 70)]);
    assert_eq!(out[0].0, 70);
    assert_eq!(out[0].1, rows);
}
