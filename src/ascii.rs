//! The ASCII renderer: every pixel becomes the printable ASCII glyph whose
//! brightness is nearest to the pixel's luma, drawn in the pixel's color.
use vstd::prelude::*;
use crate::color::{Rgb, Rgba, luma, luma_of, premultiplied, premultiply};
use crate::raster::{
    Image,
    RasterView,
    buffer_fits,
    exact_resize,
    exact_resized,
    fit_resize,
    fit_resized,
    pixel_at,
    wide_mul,
};

verus! {

/// One character cell of the ASCII renderer; the terminal's background shows
/// behind it.
#[derive(Debug, Clone, Copy, PartialEq, Eq)]
pub struct Cell {
    pub ch: char,
    pub fg: Rgb,
}

/// The ASCII glyphs with the brightness each gives, in a fixed order that is
/// not sorted by brightness (ties go to the earlier glyph).
pub open spec fn font_table() -> Seq<(char, u8)> {
    seq![
        ('`', 16u8),
        ('.', 22u8),
        ('\'', 26u8),
        ('_', 32u8),
        ('-', 36u8),
        (',', 40u8),
        (':', 46u8),
        ('"', 52u8),
        ('^', 56u8),
        ('~', 68u8),
        (';', 70u8),
        ('|', 72u8),
        ('(', 76u8),
        (')', 76u8),
        ('/', 78u8),
        ('\\', 78u8),
        ('j', 80u8),
        ('*', 82u8),
        ('!', 84u8),
        ('r', 84u8),
        ('+', 88u8),
        ('[', 88u8),
        (']', 88u8),
        ('i', 88u8),
        ('<', 92u8),
        ('>', 92u8),
        ('=', 96u8),
        ('?', 100u8),
        ('l', 100u8),
        ('{', 100u8),
        ('}', 100u8),
        ('c', 102u8),
        ('v', 108u8),
        ('t', 112u8),
        ('z', 112u8),
        ('7', 114u8),
        ('L', 114u8),
        ('f', 114u8),
        ('x', 116u8),
        ('s', 118u8),
        ('Y', 122u8),
        ('J', 124u8),
        ('T', 124u8),
        ('1', 128u8),
        ('n', 128u8),
        ('u', 128u8),
        ('C', 130u8),
        ('y', 136u8),
        ('I', 138u8),
        ('F', 140u8),
        ('o', 140u8),
        ('2', 144u8),
        ('V', 148u8),
        ('e', 148u8),
        ('w', 148u8),
        ('%', 150u8),
        ('3', 150u8),
        ('h', 150u8),
        ('k', 150u8),
        ('a', 152u8),
        ('4', 156u8),
        ('Z', 156u8),
        ('5', 158u8),
        ('S', 158u8),
        ('X', 158u8),
        ('P', 166u8),
        ('$', 168u8),
        ('b', 170u8),
        ('d', 170u8),
        ('m', 170u8),
        ('p', 170u8),
        ('q', 170u8),
        ('A', 172u8),
        ('G', 172u8),
        ('E', 174u8),
        ('U', 174u8),
        ('&', 182u8),
        ('6', 182u8),
        ('K', 182u8),
        ('9', 184u8),
        ('g', 184u8),
        ('O', 186u8),
        ('H', 188u8),
        ('#', 190u8),
        ('Q', 190u8),
        ('D', 192u8),
        ('@', 194u8),
        ('8', 198u8),
        ('R', 198u8),
        ('0', 210u8),
        ('W', 212u8),
        ('N', 216u8),
        ('B', 218u8),
        ('M', 218u8),
    ]
}

/// The ASCII glyph table.
pub fn font_table_vec() -> (r: Vec<(char, u8)>)
    ensures
        r@ == font_table(),
{
    let r = vec![
        ('`', 16u8),
        ('.', 22u8),
        ('\'', 26u8),
        ('_', 32u8),
        ('-', 36u8),
        (',', 40u8),
        (':', 46u8),
        ('"', 52u8),
        ('^', 56u8),
        ('~', 68u8),
        (';', 70u8),
        ('|', 72u8),
        ('(', 76u8),
        (')', 76u8),
        ('/', 78u8),
        ('\\', 78u8),
        ('j', 80u8),
        ('*', 82u8),
        ('!', 84u8),
        ('r', 84u8),
        ('+', 88u8),
        ('[', 88u8),
        (']', 88u8),
        ('i', 88u8),
        ('<', 92u8),
        ('>', 92u8),
        ('=', 96u8),
        ('?', 100u8),
        ('l', 100u8),
        ('{', 100u8),
        ('}', 100u8),
        ('c', 102u8),
        ('v', 108u8),
        ('t', 112u8),
        ('z', 112u8),
        ('7', 114u8),
        ('L', 114u8),
        ('f', 114u8),
        ('x', 116u8),
        ('s', 118u8),
        ('Y', 122u8),
        ('J', 124u8),
        ('T', 124u8),
        ('1', 128u8),
        ('n', 128u8),
        ('u', 128u8),
        ('C', 130u8),
        ('y', 136u8),
        ('I', 138u8),
        ('F', 140u8),
        ('o', 140u8),
        ('2', 144u8),
        ('V', 148u8),
        ('e', 148u8),
        ('w', 148u8),
        ('%', 150u8),
        ('3', 150u8),
        ('h', 150u8),
        ('k', 150u8),
        ('a', 152u8),
        ('4', 156u8),
        ('Z', 156u8),
        ('5', 158u8),
        ('S', 158u8),
        ('X', 158u8),
        ('P', 166u8),
        ('$', 168u8),
        ('b', 170u8),
        ('d', 170u8),
        ('m', 170u8),
        ('p', 170u8),
        ('q', 170u8),
        ('A', 172u8),
        ('G', 172u8),
        ('E', 174u8),
        ('U', 174u8),
        ('&', 182u8),
        ('6', 182u8),
        ('K', 182u8),
        ('9', 184u8),
        ('g', 184u8),
        ('O', 186u8),
        ('H', 188u8),
        ('#', 190u8),
        ('Q', 190u8),
        ('D', 192u8),
        ('@', 194u8),
        ('8', 198u8),
        ('R', 198u8),
        ('0', 210u8),
        ('W', 212u8),
        ('N', 216u8),
        ('B', 218u8),
        ('M', 218u8),
    ];
    assert(r@ =~= font_table());
    r
}

/// How far a glyph's brightness `t` is from a luma `b`.
pub open spec fn gap(t: u8, b: u8) -> int {
    if t >= b {
        t - b
    } else {
        b - t
    }
}

/// The largest gap that a glyph may have and still be picked over the first glyph.
pub const MAX_GAP: i16 = 100;

/// The scan of the first `n` glyphs of `font` for luma `b`: the index of the
/// nearest glyph so far (-1 when none is nearer than the limit) and its gap;
/// a later glyph replaces it only when strictly nearer.
pub open spec fn char_scan(font: Seq<(char, u8)>, b: u8, n: int) -> (int, int)
    decreases n,
{
    if n <= 0 {
        (-1, MAX_GAP as int)
    } else {
        let (i, d) = char_scan(font, b, n - 1);
        let e = gap(font[n - 1].1, b);
        if e < d {
            (n - 1, e)
        } else {
            (i, d)
        }
    }
}

/// The glyph for luma `b`: the first glyph of `font` at the least gap, or
/// the first glyph of `font` when no gap is below the limit.
pub open spec fn best_char_of(font: Seq<(char, u8)>, b: u8) -> char {
    let (i, _) = char_scan(font, b, font.len() as int);
    if i < 0 {
        font[0].0
    } else {
        font[i].0
    }
}

proof fn lemma_char_scan(font: Seq<(char, u8)>, b: u8, n: int)
    requires
        0 <= n <= font.len(),
    ensures
        ({
            let (i, d) = char_scan(font, b, n);
            &&& -1 <= i < n
            &&& i >= 0 ==> d == gap(font[i].1, b)
            &&& i < 0 ==> d == MAX_GAP
            &&& forall|j: int| 0 <= j < n ==> d <= #[trigger] gap(font[j].1, b)
            &&& forall|j: int| 0 <= j < i ==> d < #[trigger] gap(font[j].1, b)
            &&& i < 0 ==> forall|j: int| 0 <= j < n ==> d <= #[trigger] gap(font[j].1, b)
        }),
    decreases n,
{
    if n > 0 {
        lemma_char_scan(font, b, n - 1);
    }
}

/// The glyph law: when some glyph's brightness is within the limit of the
/// luma, the glyph chosen is the first one at the least gap.
pub proof fn lemma_best_char_is_first_nearest(font: Seq<(char, u8)>, b: u8, k: int)
    requires
        0 <= k < font.len(),
        gap(font[k].1, b) < MAX_GAP,
    ensures
        ({
            let (i, d) = char_scan(font, b, font.len() as int);
            &&& 0 <= i < font.len()
            &&& best_char_of(font, b) == font[i].0
            &&& d == gap(font[i].1, b)
            &&& forall|j: int| 0 <= j < font.len() ==> d <= #[trigger] gap(font[j].1, b)
            &&& forall|j: int| 0 <= j < i ==> d < #[trigger] gap(font[j].1, b)
        }),
{
    lemma_char_scan(font, b, font.len() as int);
    let (i, d) = char_scan(font, b, font.len() as int);
    assert(d <= gap(font[k].1, b));
}

/// The glyph of `font` whose brightness is nearest to `brightness`, the
/// earliest on ties.
pub fn best_char(brightness: u8, font: &Vec<(char, u8)>) -> (r: char)
    requires
        font.len() >= 1,
    ensures
        r == best_char_of(font@, brightness),
{
    let mut diff: i16 = MAX_GAP;
    let mut cand: Option<usize> = None;
    for k in 0..font.len()
        invariant
            font.len() >= 1,
            ({
                let (i, d) = char_scan(font@, brightness, k as int);
                &&& diff as int == d
                &&& (i < 0 <==> cand is None)
                &&& cand matches Some(c) ==> c as int == i
            }),
    {
        let g: i16 = (font[k].1 as i16) - (brightness as i16);
        let g: i16 = if g < 0 { -g } else { g };
        if g < diff {
            diff = g;
            cand = Some(k);
        }
    }
    proof {
        lemma_char_scan(font@, brightness, font.len() as int);
    }
    match cand {
        Some(c) => font[c].0,
        None => font[0].0,
    }
}

/// How the ASCII renderer draws an image.
#[derive(Debug, Clone, Copy, PartialEq, Eq)]
pub struct AsciiOptions {
    /// The largest grid, in columns and rows, that a resized image may take.
    pub size: (u16, u16),
    /// The color that transparent pixels are composited over.
    pub background_color: Rgb,
}

/// Renders images with ASCII glyphs, one cell per pixel.
#[derive(Debug, Clone, Copy)]
pub struct Ascii;

/// The cell for one pixel: the glyph nearest its luma, in its color
/// composited over `bg`.
pub open spec fn ascii_cell(p: Rgba, bg: Rgb) -> Cell {
    Cell { ch: best_char_of(font_table(), luma_of(p.r, p.g, p.b)), fg: premultiplied(p, bg) }
}

/// Whether `rows` is the ASCII grid of image `v`: one cell per pixel.
pub open spec fn is_ascii_grid(v: RasterView, options: AsciiOptions, rows: Seq<Vec<Cell>>) -> bool {
    &&& rows.len() == v.1
    &&& forall|y: int| 0 <= y < rows.len() ==> #[trigger] rows[y].len() == v.0
    &&& forall|y: int, x: int|
        0 <= y < rows.len() && 0 <= x < v.0 ==> #[trigger] rows[y]@[x] == ascii_cell(
            pixel_at(v, x, y),
            options.background_color,
        )
}

/// The image that [`Ascii::img`] renders: image `v` fitted within half the
/// columns and all the rows of `size`, then stretched to twice its width,
/// since a cell is about twice as tall as it is wide.
pub open spec fn ascii_resized(v: RasterView, size: (u16, u16)) -> RasterView {
    let fit = fit_resized(v.2, v.0, v.1, (size.0 / 2) as u32, size.1 as u32);
    let w = (2 * fit.0) as u32;
    (w, fit.1, exact_resized(fit.2, fit.0, fit.1, w, fit.1))
}

/// The bounds under which the ASCII resize stays in memory.
pub open spec fn ascii_fits(img: Image, size: (u16, u16)) -> bool {
    &&& buffer_fits(img.width as int, size.1 + 1)
    &&& buffer_fits(size.0 + 2, size.1 + 1)
}

/// Whether [`Ascii::img`] accepts this image and bound: a well formed,
/// non-empty image, with sizes that stay in memory.
pub fn can_fit_ascii(img: &Image, size: (u16, u16)) -> (r: bool)
    ensures
        r == (img.wf() && img.width >= 1 && img.height >= 1 && ascii_fits(*img, size)),
{
    if img.pixels.len() as u64 != wide_mul(img.width, img.height) || img.width == 0 || img.height == 0 {
        return false;
    }
    let w: u128 = img.width as u128;
    let h: u128 = size.1 as u128 + 1;
    let c: u128 = size.0 as u128 + 2;
    assert(w * h * 16 <= 0x1_0000_0000_0000_0000_0000 && c * h * 16 <= 0x1_0000_0000_0000_0000_0000) by (nonlinear_arith)
        requires
            w <= u32::MAX,
            h <= 0x10000,
            c <= 0x10001,
    ;
    w * h * 16 <= usize::MAX as u128 && c * h * 16 <= usize::MAX as u128
}

impl Ascii {
    /// Renders an image without resizing it, one cell per pixel.
    pub fn img_exact(options: &AsciiOptions, img: &Image) -> (r: Vec<Vec<Cell>>)
        requires
            img.wf(),
        ensures
            is_ascii_grid(img@, *options, r@),
    {
        let font = font_table_vec();
        let w = img.width;
        let h = img.height;
        let mut rows: Vec<Vec<Cell>> = Vec::new();
        for y in 0..h
            invariant
                img.wf(),
                w == img.width,
                h == img.height,
                font@ == font_table(),
                rows.len() == y,
                forall|j: int| 0 <= j < rows.len() ==> #[trigger] rows@[j].len() == w,
                forall|j: int, x: int|
                    0 <= j < rows.len() && 0 <= x < w ==> #[trigger] rows@[j]@[x] == ascii_cell(
                        pixel_at(img@, x, j),
                        options.background_color,
                    ),
        {
            assert(y * w + w == (y + 1) * w <= w * h) by (nonlinear_arith)
                requires
                    y + 1 <= h,
            ;
            let base: usize = (y as usize) * (w as usize);
            let mut row: Vec<Cell> = Vec::new();
            for x in 0..w
                invariant
                    img.wf(),
                    w == img.width,
                    base == y * w,
                    base + w <= img.pixels.len(),
                    font@ == font_table(),
                    row.len() == x,
                    forall|i: int|
                        0 <= i < row.len() ==> #[trigger] row@[i] == ascii_cell(
                            pixel_at(img@, i, y as int),
                            options.background_color,
                        ),
            {
                let p = img.pixels[base + x as usize];
                row.push(Cell { ch: best_char(luma(p), &font), fg: premultiply(p, options.background_color) });
            }
            rows.push(row);
        }
        rows
    }

    /// Renders an image fitted within half the columns and all the rows of
    /// `options.size`, then stretched to twice its width.
    pub fn img(options: &AsciiOptions, img: &Image) -> (r: Vec<Vec<Cell>>)
        requires
            img.wf(),
            img.width >= 1,
            img.height >= 1,
            ascii_fits(*img, options.size),
        ensures
            is_ascii_grid(ascii_resized(img@, options.size), *options, r@),
            options.size.1 >= 1 ==> r.len() <= options.size.1,
            options.size.0 >= 2 ==> forall|y: int| 0 <= y < r.len() ==> #[trigger] r@[y].len() <= options.size.0,
    {
        let (cols, n_rows) = options.size;
        assert(buffer_fits(img.width as int, n_rows + 1) && buffer_fits(cols / 2 + 1, n_rows + 1)) by (nonlinear_arith)
            requires
                ascii_fits(*img, options.size),
                cols == options.size.0,
                n_rows == options.size.1,
        ;
        let fit = fit_resize(img, (cols / 2) as u32, n_rows as u32);
        assert(fit.width <= cols / 2 + 1 && fit.height <= n_rows + 1);
        assert(buffer_fits(fit.width as int, fit.height as int) && buffer_fits(2 * fit.width, fit.height as int)) by (nonlinear_arith)
            requires
                fit.width <= cols / 2 + 1,
                fit.height <= n_rows + 1,
                buffer_fits(cols + 2, n_rows + 1),
        ;
        let stretched = exact_resize(&fit, 2 * fit.width, fit.height);
        Self::img_exact(options, &stretched)
    }

    /// Renders every frame of an animation without resizing, keeping each delay.
    pub fn animated_exact(options: &AsciiOptions, frames: &Vec<(Image, u64)>) -> (r: Vec<(u64, Vec<Vec<Cell>>)>)
        requires
            forall|i: int| 0 <= i < frames.len() ==> (#[trigger] frames@[i]).0.wf(),
        ensures
            r.len() == frames.len(),
            forall|i: int|
                0 <= i < frames.len() ==> (#[trigger] r@[i]).0 == frames@[i].1 && is_ascii_grid(
                    frames@[i].0@,
                    *options,
                    r@[i].1@,
                ),
    {
        let mut out: Vec<(u64, Vec<Vec<Cell>>)> = Vec::new();
        for i in 0..frames.len()
            invariant
                forall|j: int| 0 <= j < frames.len() ==> (#[trigger] frames@[j]).0.wf(),
                out.len() == i,
                forall|j: int|
                    0 <= j < i ==> (#[trigger] out@[j]).0 == frames@[j].1 && is_ascii_grid(
                        frames@[j].0@,
                        *options,
                        out@[j].1@,
                    ),
        {
            let (img, delay) = &frames[i];
            out.push((*delay, Self::img_exact(options, img)));
        }
        out
    }

    /// Renders every frame of an animation resized as [`Ascii::img`] does,
    /// keeping each delay; all frames are rendered before returning.
    pub fn animated(options: &AsciiOptions, frames: &Vec<(Image, u64)>) -> (r: Vec<(u64, Vec<Vec<Cell>>)>)
        requires
            forall|i: int|
                0 <= i < frames.len() ==> {
                    let img = (#[trigger] frames@[i]).0;
                    &&& img.wf()
                    &&& img.width >= 1
                    &&& img.height >= 1
                    &&& ascii_fits(img, options.size)
                },
        ensures
            r.len() == frames.len(),
            forall|i: int|
                0 <= i < frames.len() ==> (#[trigger] r@[i]).0 == frames@[i].1 && is_ascii_grid(
                    ascii_resized(frames@[i].0@, options.size),
                    *options,
                    r@[i].1@,
                ),
    {
        let mut out: Vec<(u64, Vec<Vec<Cell>>)> = Vec::new();
        for i in 0..frames.len()
            invariant
                forall|j: int|
                    0 <= j < frames.len() ==> {
                        let img = (#[trigger] frames@[j]).0;
                        &&& img.wf()
                        &&& img.width >= 1
                        &&& img.height >= 1
                        &&& ascii_fits(img, options.size)
                    },
                out.len() == i,
                forall|j: int|
                    0 <= j < i ==> (#[trigger] out@[j]).0 == frames@[j].1 && is_ascii_grid(
                        ascii_resized(frames@[j].0@, options.size),
                        *options,
                        out@[j].1@,
                    ),
        {
            let (img, delay) = &frames[i];
            out.push((*delay, Self::img(options, img)));
        }
        out
    }
}

} // verus!
