//! The Braille renderer: each 2x4 block of a dithered image becomes the
//! Braille pattern whose raised dots are the block's light pixels.
use vstd::prelude::*;
use crate::analysis::{analyze, class_color, premultiplied_all};
use crate::color::{Rgb, Rgba};
use crate::raster::{
    Image,
    RasterView,
    bilevel_plane,
    block_at,
    grid_block,
    grid_block_at,
    resize_fits,
    resize_image,
    resized,
    sub_block,
    to_bilevel,
};

verus! {

/// One character cell of the Braille renderer; the terminal's background
/// shows behind it.
#[derive(Debug, Clone, Copy, PartialEq, Eq)]
pub struct Cell {
    pub ch: char,
    pub fg: Rgb,
}

/// The dots of a block of bi-level values: 1 where the value is not 0.
pub open spec fn dots(mono: Seq<u8>) -> Seq<u8> {
    mono.map_values(|m: u8| if m == 0 { 0u8 } else { 1u8 })
}

/// The offset of a Braille pattern from U+2800 for eight dots in raster
/// order (two per row), in the Unicode dot numbering: the dots taken in the
/// order 0, 2, 4, 1, 3, 5, 6, 7 are Unicode dots 1 to 8, dot `k + 1` in bit `k`.
/// So the left column is dots 1, 2, 3, 7 and the right column dots 4, 5, 6, 8.
pub open spec fn braille_mask(d: Seq<u8>) -> int {
    d[0] + 2 * d[2] + 4 * d[4] + 8 * d[1] + 16 * d[3] + 32 * d[5] + 64 * d[6] + 128 * d[7]
}

/// Relies on `char::from_u32`: it returns the character of a Unicode scalar
/// value, and `None` for any other number.
#[verifier::external_body]
fn char_from_u32(v: u32) -> (r: Option<char>)
    ensures
        (v < 0xD800 || (0xE000 <= v && v <= 0x10FFFF)) <==> r is Some,
        r matches Some(c) ==> c as u32 == v,
{
    char::from_u32(v)
}

fn dot(v: u8) -> (r: u32)
    ensures
        r == (if v == 0 { 0u8 } else { 1u8 }),
{
    if v == 0 {
        0
    } else {
        1
    }
}

/// The Braille pattern for the first eight values of `data`, in raster order
/// (two per row): a dot is raised wherever the value is not 0; later values
/// are ignored.
pub fn slice_to_braille(data: &Vec<u8>) -> (r: char)
    requires
        data.len() >= 8,
    ensures
        r as u32 == 0x2800 + braille_mask(dots(data@.take(8))),
{
    let ghost d = dots(data@.take(8));
    let v: u32 = dot(data[0]) + 2 * dot(data[2]) + 4 * dot(data[4]) + 8 * dot(data[1]) + 16 * dot(data[3])
        + 32 * dot(data[5]) + 64 * dot(data[6]) + 128 * dot(data[7]);
    assert(v == braille_mask(d));
    match char_from_u32(0x2800 + v) {
        Some(c) => c,
        None => ' ',
    }
}

/// The Braille cell for a 2x4 block: its pattern from the block's bi-level
/// values, its color the average foreground color of its pixels composited
/// over `bg`.
pub fn process_cell(px: &Vec<Rgba>, mono: &Vec<u8>, bg: Rgb) -> (r: Cell)
    requires
        px.len() == 8,
        mono.len() == 8,
    ensures
        r.ch as u32 == 0x2800 + braille_mask(dots(mono@)),
        r.fg == class_color(premultiplied_all(px@, bg), true),
{
    assert(mono@.take(8) == mono@);
    let a = analyze(px, bg);
    Cell { ch: slice_to_braille(mono), fg: a.fg }
}

/// How the Braille renderer draws an image.
#[derive(Debug, Clone, Copy, PartialEq, Eq)]
pub struct BrailleOptions {
    /// The largest grid, in columns and rows, that a resized image may take.
    pub size: (u16, u16),
    /// The color that transparent pixels are composited over.
    pub background_color: Rgb,
}

/// Renders images with Braille patterns, one cell per 2x4 pixels.
#[derive(Debug, Clone, Copy)]
pub struct Braille;

/// The cell footprint of the Braille renderer.
pub const BRAILLE_CELL: (u32, u32) = (2, 4);

/// The code of the glyph in column `x` and row `y` of the Braille grid of image `v`.
pub open spec fn braille_grid_code(v: RasterView, x: int, y: int) -> int {
    0x2800 + braille_mask(dots(grid_block(bilevel_plane(v), v.0 as int, 2 * x, 4 * y, 2, 4)))
}

/// The color in column `x` and row `y` of the Braille grid of image `v`.
pub open spec fn braille_grid_color(v: RasterView, x: int, y: int, bg: Rgb) -> Rgb {
    class_color(premultiplied_all(sub_block(v, 2 * x, 4 * y, 2, 4), bg), true)
}

/// Whether `rows` is the Braille grid of image `v`: one row per whole 4 pixel
/// rows, one cell per whole 2 pixel columns.
pub open spec fn is_braille_grid(v: RasterView, options: BrailleOptions, rows: Seq<Vec<Cell>>) -> bool {
    &&& rows.len() == v.1 / 4
    &&& forall|y: int| 0 <= y < rows.len() ==> #[trigger] rows[y].len() == v.0 / 2
    &&& forall|y: int, x: int|
        0 <= y < rows.len() && 0 <= x < v.0 / 2 ==> {
            &&& (#[trigger] rows[y]@[x]).ch as u32 == braille_grid_code(v, x, y)
            &&& rows[y]@[x].fg == braille_grid_color(v, x, y, options.background_color)
        }
}

impl Braille {
    /// Renders an image without resizing it; pixels past the last whole cell
    /// are left out.
    pub fn img_exact(options: &BrailleOptions, img: &Image) -> (r: Vec<Vec<Cell>>)
        requires
            img.wf(),
        ensures
            is_braille_grid(img@, *options, r@),
    {
        let mono = to_bilevel(img);
        let cols = img.width / 2;
        let n_rows = img.height / 4;
        let mut rows: Vec<Vec<Cell>> = Vec::new();
        for by in 0..n_rows
            invariant
                img.wf(),
                cols == img.width / 2,
                n_rows == img.height / 4,
                mono@ == bilevel_plane(img@),
                mono.len() == img.pixels.len(),
                rows.len() == by,
                forall|y: int| 0 <= y < rows.len() ==> #[trigger] rows@[y].len() == cols,
                forall|y: int, x: int|
                    0 <= y < rows.len() && 0 <= x < cols ==> {
                        &&& (#[trigger] rows@[y]@[x]).ch as u32 == braille_grid_code(img@, x, y)
                        &&& rows@[y]@[x].fg == braille_grid_color(img@, x, y, options.background_color)
                    },
        {
            let mut row: Vec<Cell> = Vec::new();
            for bx in 0..cols
                invariant
                    img.wf(),
                    cols == img.width / 2,
                    by < n_rows,
                    n_rows == img.height / 4,
                    mono@ == bilevel_plane(img@),
                    mono.len() == img.pixels.len(),
                    row.len() == bx,
                    forall|x: int|
                        0 <= x < row.len() ==> {
                            &&& (#[trigger] row@[x]).ch as u32 == braille_grid_code(img@, x, by as int)
                            &&& row@[x].fg == braille_grid_color(img@, x, by as int, options.background_color)
                        },
            {
                let px = block_at(img, bx * 2, by * 4, 2, 4);
                let m = grid_block_at(&mono, img.width, img.height, bx * 2, by * 4, 2, 4);
                row.push(process_cell(&px, &m, options.background_color));
            }
            rows.push(row);
        }
        rows
    }

    /// Renders an image resized to fit `options.size` cells, aligned to whole cells.
    pub fn img(options: &BrailleOptions, img: &Image) -> (r: Vec<Vec<Cell>>)
        requires
            img.wf(),
            img.width >= 1,
            img.height >= 1,
            resize_fits(*img, BRAILLE_CELL, options.size),
        ensures
            is_braille_grid(resized(img@, BRAILLE_CELL, options.size), *options, r@),
            options.size.1 >= 1 ==> r.len() <= options.size.1,
            options.size.0 >= 1 ==> forall|y: int| 0 <= y < r.len() ==> #[trigger] r@[y].len() <= options.size.0,
    {
        let resized_img = resize_image(img, BRAILLE_CELL, options.size);
        assert(resized_img.height / 4 <= options.size.1 || options.size.1 == 0);
        assert(resized_img.width / 2 <= options.size.0 || options.size.0 == 0);
        Self::img_exact(options, &resized_img)
    }

    /// Renders every frame of an animation without resizing, keeping each delay.
    pub fn animated_exact(options: &BrailleOptions, frames: &Vec<(Image, u64)>) -> (r: Vec<(u64, Vec<Vec<Cell>>)>)
        requires
            forall|i: int| 0 <= i < frames.len() ==> (#[trigger] frames@[i]).0.wf(),
        ensures
            r.len() == frames.len(),
            forall|i: int|
                0 <= i < frames.len() ==> (#[trigger] r@[i]).0 == frames@[i].1 && is_braille_grid(
                    frames@[i].0@,
                    *options,
                    r@[i].1@,
                ),
    {
        let mut out: Vec<(u64, Vec<Vec<Cell>>)> = Vec::new();
        for i in 0..frames.len()
            invariant
                forall|j: int| 0 <= j < frames.len() ==> (#[trigger] frames@[j]).0.wf(),
                out.len() == i,
                forall|j: int|
                    0 <= j < i ==> (#[trigger] out@[j]).0 == frames@[j].1 && is_braille_grid(
                        frames@[j].0@,
                        *options,
                        out@[j].1@,
                    ),
        {
            let (img, delay) = &frames[i];
            out.push((*delay, Self::img_exact(options, img)));
        }
        out
    }

    /// Renders every frame of an animation resized to fit `options.size`
    /// cells, keeping each delay; all frames are rendered before returning.
    pub fn animated(options: &BrailleOptions, frames: &Vec<(Image, u64)>) -> (r: Vec<(u64, Vec<Vec<Cell>>)>)
        requires
            forall|i: int|
                0 <= i < frames.len() ==> {
                    let img = (#[trigger] frames@[i]).0;
                    &&& img.wf()
                    &&& img.width >= 1
                    &&& img.height >= 1
                    &&& resize_fits(img, BRAILLE_CELL, options.size)
                },
        ensures
            r.len() == frames.len(),
            forall|i: int|
                0 <= i < frames.len() ==> (#[trigger] r@[i]).0 == frames@[i].1 && is_braille_grid(
                    resized(frames@[i].0@, BRAILLE_CELL, options.size),
                    *options,
                    r@[i].1@,
                ),
    {
        let mut out: Vec<(u64, Vec<Vec<Cell>>)> = Vec::new();
        for i in 0..frames.len()
            invariant
                forall|j: int|
                    0 <= j < frames.len() ==> {
                        let img = (#[trigger] frames@[j]).0;
                        &&& img.wf()
                        &&& img.width >= 1
                        &&& img.height >= 1
                        &&& resize_fits(img, BRAILLE_CELL, options.size)
                    },
                out.len() == i,
                forall|j: int|
                    0 <= j < i ==> (#[trigger] out@[j]).0 == frames@[j].1 && is_braille_grid(
                        resized(frames@[j].0@, BRAILLE_CELL, options.size),
                        *options,
                        out@[j].1@,
                    ),
        {
            let (img, delay) = &frames[i];
            out.push((*delay, Self::img(options, img)));
        }
        out
    }
}

} // verus!
