use term_image::block::{
    get_bitmap, hamming_distance, match_glyph, process_block, Block, BlockOptions, Cell, CharSet,
    Charset,
};
use term_image::color::{Rgb, Rgba};
use term_image::raster::Image;

const BLACK: Rgba = Rgba { r: 0, g: 0, b: 0, a: 255 };
const WHITE: Rgba = Rgba { r: 255, g: 255, b: 255, a: 255 };

fn options(char_set: Charset, blend: bool, size: (u16, u16)) -> BlockOptions {
    BlockOptions { char_set, blend, background_color: Rgb((0, 0, 0)), size }
}

#[test]
fn charset_tables() {
    assert_eq!(Charset::All.bitmap().len(), 55);
    assert_eq!(Charset::NoSlopes.bitmap().len(), 51);
    assert_eq!(Charset::Blocks.bitmap().len(), 8);
    assert_eq!(Charset::Halfs.bitmap().len(), 2);
    assert_eq!(Charset::default(), Charset::All);
    let c: CharSet = Charset::Halfs;
    assert_eq!(get_bitmap(c), vec![(0x0000_0000, ' '), (0x0000_ffff, '\u{2584}')]);
}

#[test]
fn hamming_distances() {
    assert_eq!(hamming_distance(0, 0), 0);
    assert_eq!(hamming_distance(0, u32::MAX), 32);
    assert_eq!(hamming_distance(0x0000_ffff, 0x0000_fff0), 4);
}

#[test]
fn exact_match_has_no_inversion() {
    let table = Charset::All.bitmap();
    let m = match_glyph(&table, 0x0000_ffff);
    assert_eq!((m.index, m.invert, m.distance), (4, false, 0));
    assert_eq!(table[m.index].1, '\u{2584}');
}

#[test]
fn duplicate_pattern_matches_first_entry() {
    let table = Charset::NoSlopes.bitmap();
    let m = match_glyph(&table, 0x0006_6000);
    assert_eq!(table[m.index].1, '\u{2579}');
    assert!(!m.invert);
}

#[test]
fn complement_match_is_inverted() {
    let table = Charset::All.bitmap();
    let m = match_glyph(&table, !0x0000_ffffu32);
    assert_eq!((m.index, m.invert, m.distance), (4, true, 0));
}

#[test]
fn matching_is_deterministic() {
    let table = Charset::NoSlopes.bitmap();
    for bits in [0u32, 0x1234_5678, 0xdead_beef, u32::MAX] {
        assert_eq!(match_glyph(&table, bits), match_glyph(&table, bits));
    }
}

fn halves(top: Rgba, bottom: Rgba) -> Vec<Rgba> {
    let mut v = vec![top; 16];
    v.extend(vec![bottom; 16]);
    v
}

#[test]
fn uniform_block_is_blank_with_background() {
    let color = Rgba { r: 10, g: 20, b: 30, a: 255 };
    let cell = process_block(&vec![color; 32], &Charset::All.bitmap(), true, Rgb((0, 0, 0)));
    assert_eq!(cell, Cell { ch: ' ', fg: Rgb((0, 0, 0)), bg: Rgb((10, 20, 30)) });
}

#[test]
fn lower_half_block() {
    let cell = process_block(&halves(BLACK, WHITE), &Charset::All.bitmap(), true, Rgb((0, 0, 0)));
    assert_eq!(cell, Cell { ch: '\u{2584}', fg: Rgb((255, 255, 255)), bg: Rgb((0, 0, 0)) });
}

#[test]
fn inverted_match_swaps_colors() {
    let cell = process_block(&halves(WHITE, BLACK), &Charset::All.bitmap(), true, Rgb((0, 0, 0)));
    assert_eq!(cell, Cell { ch: '\u{2584}', fg: Rgb((0, 0, 0)), bg: Rgb((255, 255, 255)) });
}

fn checkerboard() -> Vec<Rgba> {
    (0..32).map(|k| if k % 2 == 0 { WHITE } else { BLACK }).collect()
}

#[test]
fn poor_match_blends_to_shade() {
    let cell = process_block(&checkerboard(), &Charset::Halfs.bitmap(), true, Rgb((0, 0, 0)));
    // 16 of 32 pixels in the foreground: 16 * 5 / 32 = 2, the medium shade
    assert_eq!(cell, Cell { ch: '\u{2592}', fg: Rgb((255, 255, 255)), bg: Rgb((0, 0, 0)) });
}

#[test]
fn poor_match_without_blending_keeps_pattern() {
    let cell = process_block(&checkerboard(), &Charset::Halfs.bitmap(), false, Rgb((0, 0, 0)));
    assert_eq!(cell.ch, ' ');
}

#[test]
fn transparent_block_uses_background_color() {
    let clear = Rgba { r: 200, g: 0, b: 0, a: 0 };
    let cell = process_block(&vec![clear; 32], &Charset::All.bitmap(), true, Rgb((1, 2, 3)));
    assert_eq!(cell, Cell { ch: ' ', fg: Rgb((0, 0, 0)), bg: Rgb((1, 2, 3)) });
}

fn image(width: u32, height: u32, f: impl Fn(u32, u32) -> Rgba) -> Image {
    let mut pixels = Vec::new();
    for y in 0..height {
        for x in 0..width {
            pixels.push(f(x, y));
        }
    }
    Image { width, height, pixels }
}

#[test]
fn exact_grid_drops_partial_cells() {
    let img = image(9, 17, |_, y| if y % 8 < 4 { WHITE } else { BLACK });
    let rows = Block::img_exact(&options(Charset::All, true, (10, 10)), &img);
    assert_eq!(rows.len(), 2);
    for row in &rows {
        assert_eq!(row.len(), 2);
        for cell in row {
            assert_eq!(*cell, Cell { ch: '\u{2584}', fg: Rgb((0, 0, 0)), bg: Rgb((255, 255, 255)) });
        }
    }
}

#[test]
fn resize_fits_grid_to_size() {
    let img = image(8, 16, |_, _| WHITE);
    let rows = Block::img(&options(Charset::All, true, (2, 2)), &img);
    assert_eq!(rows.len(), 2);
    assert_eq!(rows[0].len(), 2);
    let rows = Block::img(&options(Charset::All, true, (1, 1)), &img);
    assert_eq!(rows.len(), 1);
    assert_eq!(rows[0].len(), 1);
    assert_eq!(rows[0][0], Cell { ch: ' ', fg: Rgb((0, 0, 0)), bg: Rgb((255, 255, 255)) });
}

#[test]
fn resize_aligns_to_whole_cells() {
    let img = image(30, 10, |_, _| WHITE);
    // fits within 40x16 pixels as 40x13, snapped to 40x16
    let rows = Block::img(&options(Charset::All, true, (10, 2)), &img);
    assert_eq!(rows.len(), 2);
    assert_eq!(rows[0].len(), 10);
}

#[test]
fn animated_keeps_delays_in_order() {
    let frames = vec![
        (image(4, 8, |_, _| WHITE), 100),
        (image(4, 8, |_, _| BLACK), 200),
        (image(4, 8, |_, y| if y < 4 { BLACK } else { WHITE }), 300),
    ];
    let out = Block::animated_exact(&options(Charset::All, true, (1, 1)), &frames);
    let delays: Vec<u64> = out.iter().map(|f| f.0).collect();
    assert_eq!(delays, vec![100, 200, 300]);
    assert_eq!(out[2].1[0][0].ch, '\u{2584}');
    let out = Block::animated(&options(Charset::All, true, (1, 1)), &frames);
    assert_eq!(out.len(), 3);
    assert_eq!(out[1].0, 200);
}
