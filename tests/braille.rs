use term_image::braille::{process_cell, slice_to_braille, Braille, BrailleOptions, Cell};
use term_image::color::{Rgb, Rgba};
use term_image::raster::Image;

#[test]
fn all_dots_raised() {
    assert_eq!(slice_to_braille(&vec![1; 8]), '\u{28FF}');
}

#[test]
fn no_dots_raised() {
    assert_eq!(slice_to_braille(&vec![0; 8]), '\u{2800}');
}

#[test]
fn any_nonzero_value_raises_a_dot() {
    assert_eq!(slice_to_braille(&vec![255, 0, 7, 0, 0, 0, 0, 0, 9, 9]), '\u{2803}');
    assert_eq!(slice_to_braille(&vec![200; 12]), '\u{28FF}');
}

#[test]
fn dot_order() {
    let mut d = vec![0u8; 8];
    // top-left: dot 1
    d[0] = 1;
    assert_eq!(slice_to_braille(&d), '\u{2801}');
    let mut d = vec![0u8; 8];
    // top-right: dot 4
    d[1] = 1;
    assert_eq!(slice_to_braille(&d), '\u{2808}');
    let mut d = vec![0u8; 8];
    // third row, left: dot 3
    d[4] = 1;
    assert_eq!(slice_to_braille(&d), '\u{2804}');
    let mut d = vec![0u8; 8];
    // bottom-left: dot 7
    d[6] = 1;
    assert_eq!(slice_to_braille(&d), '\u{2840}');
    let mut d = vec![0u8; 8];
    // bottom-right: dot 8
    d[7] = 1;
    assert_eq!(slice_to_braille(&d), '\u{2880}');
}

#[test]
fn cell_color_is_foreground_average() {
    let white = Rgba { r: 255, g: 255, b: 255, a: 255 };
    let black = Rgba { r: 0, g: 0, b: 0, a: 255 };
    let px = vec![white, black, white, black, white, black, white, black];
    let cell = process_cell(&px, &vec![255, 0, 255, 0, 255, 0, 255, 0], Rgb((0, 0, 0)));
    // the left column raised: dots 1, 2, 3 and 7
    assert_eq!(cell, Cell { ch: '\u{2847}', fg: Rgb((255, 255, 255)) });
}

fn gray(width: u32, height: u32, level: u8) -> Image {
    let p = Rgba { r: level, g: level, b: level, a: 255 };
    Image { width, height, pixels: vec![p; (width * height) as usize] }
}

#[test]
fn white_image_raises_every_dot() {
    let opts = BrailleOptions { size: (10, 10), background_color: Rgb((0, 0, 0)) };
    let rows = Braille::img_exact(&opts, &gray(4, 8, 255));
    assert_eq!(rows.len(), 2);
    for row in &rows {
        assert_eq!(row.len(), 2);
        for cell in row {
            assert_eq!(cell.ch, '\u{28FF}');
        }
    }
}

#[test]
fn black_image_raises_no_dot() {
    let opts = BrailleOptions { size: (10, 10), background_color: Rgb((0, 0, 0)) };
    let rows = Braille::img_exact(&opts, &gray(2, 4, 0));
    assert_eq!(rows, vec![vec![Cell { ch: '\u{2800}', fg: Rgb((0, 0, 0)) }]]);
}

#[test]
fn mid_gray_is_dithered() {
    // Undithered, every gray level above 0 would raise every dot.
    let opts = BrailleOptions { size: (10, 10), background_color: Rgb((0, 0, 0)) };
    let rows = Braille::img_exact(&opts, &gray(2, 4, 100));
    let c = rows[0][0].ch as u32;
    assert!(c >= 0x2800 && c < 0x28FF);
    assert_ne!(c, 0x2800);
}

#[test]
fn narrow_image_has_no_cells() {
    let opts = BrailleOptions { size: (10, 10), background_color: Rgb((0, 0, 0)) };
    let rows = Braille::img_exact(&opts, &gray(1, 8, 100));
    assert_eq!(rows.len(), 2);
    assert!(rows.iter().all(|r| r.is_empty()));
}

#[test]
fn resized_braille_grid() {
    let opts = BrailleOptions { size: (3, 1), background_color: Rgb((0, 0, 0)) };
    let rows = Braille::img(&opts, &gray(12, 8, 255));
    // fits within 6x4 pixels as 6x4: three cells in one row
    assert_eq!(rows.len(), 1);
    assert_eq!(rows[0].len(), 3);
    let frames = vec![(gray(12, 8, 255), 40)];
    let out = Braille::animated(&opts, &frames);
    assert_eq!(out[0].0, 40);
    assert_eq!(out[0].1, rows);
}
