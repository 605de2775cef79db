//! Raster images as the renderers read them, and the resize that fits an image
//! to a whole number of character cells.
use vstd::prelude::*;
use crate::color::{Rgba, luma, luma_of};

verus! {

/// A decoded image: RGBA pixels in row-major order.
#[derive(Debug, Clone)]
pub struct Image {
    pub width: u32,
    pub height: u32,
    pub pixels: Vec<Rgba>,
}

/// An image as width, height and pixels in row-major order.
pub type RasterView = (u32, u32, Seq<Rgba>);

impl View for Image {
    type V = RasterView;

    open spec fn view(&self) -> RasterView {
        (self.width, self.height, self.pixels@)
    }
}

/// The pixel of image `v` in column `x` and row `y`.
pub open spec fn pixel_at(v: RasterView, x: int, y: int) -> Rgba {
    v.2[y * v.0 + x]
}

impl Image {
    /// The pixel buffer holds exactly `width * height` pixels.
    pub open spec fn wf(&self) -> bool {
        self.pixels.len() == self.width * self.height
    }

    /// Builds an image from interleaved RGBA bytes; `None` unless there are
    /// exactly four bytes per pixel.
    pub fn from_rgba_bytes(width: u32, height: u32, bytes: &Vec<u8>) -> (r: Option<Image>)
        ensures
            r is Some <==> bytes.len() == 4 * (width * height),
            r matches Some(img) ==> {
                &&& img.wf()
                &&& img.width == width
                &&& img.height == height
                &&& forall|i: int|
                    0 <= i < img.pixels.len() ==> #[trigger] img.pixels@[i] == (Rgba {
                        r: bytes@[4 * i],
                        g: bytes@[4 * i + 1],
                        b: bytes@[4 * i + 2],
                        a: bytes@[4 * i + 3],
                    })
            },
    {
        assert(width * height <= u32::MAX * u32::MAX) by (nonlinear_arith)
            requires
                width <= u32::MAX,
                height <= u32::MAX,
        ;
        let count: u64 = (width as u64) * (height as u64);
        if bytes.len() % 4 != 0 || (bytes.len() / 4) as u64 != count {
            return None;
        }
        let n = bytes.len() / 4;
        let mut pixels: Vec<Rgba> = Vec::new();
        for i in 0..n
            invariant
                n * 4 == bytes.len(),
                pixels.len() == i,
                forall|j: int|
                    0 <= j < i ==> #[trigger] pixels@[j] == (Rgba {
                        r: bytes@[4 * j],
                        g: bytes@[4 * j + 1],
                        b: bytes@[4 * j + 2],
                        a: bytes@[4 * j + 3],
                    }),
        {
            pixels.push(
                Rgba { r: bytes[4 * i], g: bytes[4 * i + 1], b: bytes[4 * i + 2], a: bytes[4 * i + 3] },
            );
        }
        Some(Image { width, height, pixels })
    }
}

/// The `w` by `h` block, in raster order, whose top-left value is `(x0, y0)`,
/// of a grid of values stored row by row, `width` values per row.
pub open spec fn grid_block<T>(s: Seq<T>, width: int, x0: int, y0: int, w: int, h: int) -> Seq<T> {
    Seq::new((w * h) as nat, |k: int| s[(y0 + k / w) * width + x0 + k % w])
}

/// The `w` by `h` block of image `v` whose top-left pixel is `(x0, y0)`, in raster order.
pub open spec fn sub_block(v: RasterView, x0: int, y0: int, w: int, h: int) -> Seq<Rgba> {
    grid_block(v.2, v.0 as int, x0, y0, w, h)
}

/// Copies the `w` by `h` block whose top-left value is `(x0, y0)` out of a
/// `width` by `height` grid of values stored row by row.
pub fn grid_block_at<T: Copy>(values: &Vec<T>, width: u32, height: u32, x0: u32, y0: u32, w: u32, h: u32) -> (r: Vec<T>)
    requires
        values.len() == width * height,
        w >= 1,
        x0 + w <= width,
        y0 + h <= height,
    ensures
        r@ == grid_block(values@, width as int, x0 as int, y0 as int, w as int, h as int),
{
    let mut r: Vec<T> = Vec::new();
    assert(0 * w == 0);
    for dy in 0..h
        invariant
            values.len() == width * height,
            w >= 1,
            x0 + w <= width,
            y0 + h <= height,
            r.len() == dy * w,
            forall|k: int|
                0 <= k < r.len() ==> #[trigger] r@[k] == values@[(y0 + k / (w as int)) * width + x0 + k % (w as int)],
    {
        let row: u32 = y0 + dy;
        assert(row * width + width == (row + 1) * width <= width * height) by (nonlinear_arith)
            requires
                row + 1 <= height,
        ;
        let base: usize = (row as usize) * (width as usize);
        for dx in 0..w
            invariant
                values.len() == width * height,
                w >= 1,
                x0 + w <= width,
                row == y0 + dy,
                base == row * width,
                base + width <= values.len(),
                r.len() == dy * w + dx,
                forall|k: int|
                    0 <= k < r.len() ==> #[trigger] r@[k] == values@[(y0 + k / (w as int)) * width + x0 + k % (w as int)],
        {
            let ghost k = r.len() as int;
            proof {
                vstd::arithmetic::div_mod::lemma_fundamental_div_mod_converse(
                    k,
                    w as int,
                    dy as int,
                    dx as int,
                );
            }
            r.push(values[base + (x0 + dx) as usize]);
        }
        assert(r.len() == (dy + 1) * w) by (nonlinear_arith)
            requires
                r.len() == dy * w + w,
        ;
    }
    assert(h * w == w * h) by (nonlinear_arith);
    assert(r@ =~= grid_block(values@, width as int, x0 as int, y0 as int, w as int, h as int));
    r
}

/// Copies the `w` by `h` block of `img` whose top-left pixel is `(x0, y0)`.
pub fn block_at(img: &Image, x0: u32, y0: u32, w: u32, h: u32) -> (r: Vec<Rgba>)
    requires
        img.wf(),
        w >= 1,
        x0 + w <= img.width,
        y0 + h <= img.height,
    ensures
        r@ == sub_block(img@, x0 as int, y0 as int, w as int, h as int),
{
    grid_block_at(&img.pixels, img.width, img.height, x0, y0, w, h)
}

/// The luma of every pixel of an image.
pub open spec fn luma_plane(v: RasterView) -> Seq<u8> {
    v.2.map_values(|p: Rgba| luma_of(p.r, p.g, p.b))
}

/// Computes the luma of every pixel of an image.
pub fn to_luma(img: &Image) -> (r: Vec<u8>)
    ensures
        r@ == luma_plane(img@),
{
    let mut r: Vec<u8> = Vec::new();
    for k in 0..img.pixels.len()
        invariant
            r@ == img.pixels@.subrange(0, k as int).map_values(|p: Rgba| luma_of(p.r, p.g, p.b)),
    {
        r.push(luma(img.pixels[k]));
        assert(img.pixels@.subrange(0, k + 1) == img.pixels@.subrange(0, k as int).push(img.pixels@[k as int]));
    }
    assert(img.pixels@.subrange(0, img.pixels.len() as int) == img.pixels@);
    r
}

/// The bi-level plane that Floyd-Steinberg error diffusion in the `image`
/// crate makes of a `width` by `height` luma plane.
pub uninterp spec fn dithered(luma: Seq<u8>, width: u32, height: u32) -> Seq<u8>;

/// Relies on `image::imageops::colorops::dither` with the `BiLevel` map: every
/// value becomes 0 or 255, the size is kept. It indexes past the edge of an
/// image narrower than two pixels or without rows, which are left out.
#[verifier::external_body]
fn dither_bilevel(luma: &Vec<u8>, width: u32, height: u32) -> (r: Vec<u8>)
    requires
        luma.len() == width * height,
        width >= 2,
        height >= 1,
    ensures
        r.len() == luma.len(),
        r@ == dithered(luma@, width, height),
        forall|i: int| 0 <= i < r.len() ==> #[trigger] r@[i] == 0 || r@[i] == 255,
{
    let mut buf = image::GrayImage::from_raw(width, height, luma.clone()).expect("pixel count matches");
    image::imageops::colorops::dither(&mut buf, &image::imageops::colorops::BiLevel);
    buf.into_raw()
}

/// The bi-level plane of an image: its luma plane dithered to 0 and 255.
/// An image narrower than two pixels or without rows keeps its luma plane.
pub open spec fn bilevel_plane(v: RasterView) -> Seq<u8> {
    if v.0 >= 2 && v.1 >= 1 {
        dithered(luma_plane(v), v.0, v.1)
    } else {
        luma_plane(v)
    }
}

/// Converts an image to gray levels and dithers it to pure black and white.
pub fn to_bilevel(img: &Image) -> (r: Vec<u8>)
    requires
        img.wf(),
    ensures
        r@ == bilevel_plane(img@),
        r.len() == img.pixels.len(),
{
    let mono = to_luma(img);
    if img.width >= 2 && img.height >= 1 {
        dither_bilevel(&mono, img.width, img.height)
    } else {
        mono
    }
}

/// Whether a `w` by `h` image fits in memory with four 32-bit channels per pixel.
pub open spec fn buffer_fits(w: int, h: int) -> bool {
    w * h * 16 <= usize::MAX
}

/// The image that the nearest-neighbour resize of the `image` crate makes
/// when it scales `pixels` (`width` by `height`) to fit within the bounds,
/// keeping the aspect ratio: its width, height and pixels.
pub uninterp spec fn fit_resized(
    pixels: Seq<Rgba>,
    width: u32,
    height: u32,
    max_width: u32,
    max_height: u32,
) -> (u32, u32, Seq<Rgba>);

/// The pixels that the nearest-neighbour resize of the `image` crate makes
/// when it scales `pixels` (`width` by `height`) to exactly the new size.
pub uninterp spec fn exact_resized(
    pixels: Seq<Rgba>,
    width: u32,
    height: u32,
    new_width: u32,
    new_height: u32,
) -> Seq<Rgba>;

/// Whether a `w` by `h` image has the aspect ratio of a `sw` by `sh` one up
/// to the rounding of one side: the cross products differ by at most the
/// larger source side.
pub open spec fn aspect_close(w: int, h: int, sw: int, sh: int) -> bool {
    let bound = if sw >= sh {
        sw
    } else {
        sh
    };
    -bound <= w * sh - h * sw <= bound
}

/// Relies on `image::DynamicImage::resize` with the nearest filter: the result
/// is at least one pixel each way, fits within each bound that is at least
/// one, and is a single pixel when a bound is zero. With both bounds at least
/// one it fills one of them, and keeps the aspect ratio up to the rounding of
/// the other side (`resize_dimensions` scales both sides by the smaller ratio
/// and rounds; the side that sets the ratio lands on its bound).
#[verifier::external_body]
pub(crate) fn fit_resize(img: &Image, max_width: u32, max_height: u32) -> (r: Image)
    requires
        img.wf(),
        img.width >= 1,
        img.height >= 1,
        buffer_fits(img.width as int, max_height + 1),
        buffer_fits(max_width + 1, max_height + 1),
    ensures
        r.wf(),
        1 <= r.width,
        1 <= r.height,
        max_width >= 1 ==> r.width <= max_width,
        max_height >= 1 ==> r.height <= max_height,
        max_width == 0 || max_height == 0 ==> r.width == 1 && r.height == 1,
        max_width >= 1 && max_height >= 1 ==> r.width == max_width || r.height == max_height,
        max_width >= 1 && max_height >= 1 ==> aspect_close(r.width as int, r.height as int, img.width as int, img.height as int),
        (r.width, r.height, r.pixels@) == fit_resized(img.pixels@, img.width, img.height, max_width, max_height),
{
    let raw: Vec<u8> = img.pixels.iter().flat_map(|p| [p.r, p.g, p.b, p.a]).collect();
    let buf = image::RgbaImage::from_raw(img.width, img.height, raw).expect("pixel count matches");
    let out = image::DynamicImage::ImageRgba8(buf)
        .resize(max_width, max_height, image::imageops::FilterType::Nearest)
        .into_rgba8();
    let pixels = out.pixels().map(|p| Rgba { r: p[0], g: p[1], b: p[2], a: p[3] }).collect();
    Image { width: out.width(), height: out.height(), pixels }
}

/// Relies on `image::imageops::resize` with the nearest filter: the result has
/// exactly the requested size.
#[verifier::external_body]
pub(crate) fn exact_resize(img: &Image, new_width: u32, new_height: u32) -> (r: Image)
    requires
        img.wf(),
        img.width >= 1,
        img.height >= 1,
        buffer_fits(img.width as int, new_height as int),
        buffer_fits(new_width as int, new_height as int),
    ensures
        r.wf(),
        r.width == new_width,
        r.height == new_height,
        r.pixels@ == exact_resized(img.pixels@, img.width, img.height, new_width, new_height),
{
    let raw: Vec<u8> = img.pixels.iter().flat_map(|p| [p.r, p.g, p.b, p.a]).collect();
    let buf = image::RgbaImage::from_raw(img.width, img.height, raw).expect("pixel count matches");
    let out = image::imageops::resize(&buf, new_width, new_height, image::imageops::FilterType::Nearest);
    let pixels = out.pixels().map(|p| Rgba { r: p[0], g: p[1], b: p[2], a: p[3] }).collect();
    Image { width: new_width, height: new_height, pixels }
}

/// The multiple of `base` nearest to `x`, halves rounding up; 0 for base 0.
pub open spec fn closest_multiple(x: int, base: int) -> int {
    if base <= 0 {
        0
    } else {
        base * ((2 * x + base) / (2 * base))
    }
}

/// The nearest multiple is a multiple, at most half a base away.
pub proof fn lemma_closest_multiple(x: int, base: int)
    requires
        x >= 0,
        base >= 1,
    ensures
        closest_multiple(x, base) % base == 0,
        0 <= closest_multiple(x, base),
        2 * (closest_multiple(x, base) - x) <= base,
        2 * (x - closest_multiple(x, base)) < base,
{
    let q = (2 * x + base) / (2 * base);
    let rem = (2 * x + base) % (2 * base);
    vstd::arithmetic::div_mod::lemma_fundamental_div_mod(2 * x + base, 2 * base);
    vstd::arithmetic::div_mod::lemma_mod_multiples_basic(q, base);
    assert(0 <= rem < 2 * base);
    assert(2 * x + base == 2 * base * q + rem);
    assert(q >= 0) by (nonlinear_arith)
        requires
            2 * x + base == 2 * base * q + rem,
            rem < 2 * base,
            x >= 0,
            base >= 1,
    ;
    assert(base * q * 2 == 2 * base * q) by (nonlinear_arith);
    assert(q * base == base * q) by (nonlinear_arith);
}

/// The nearest multiple of a value at most a multiple of the base is at most
/// that multiple.
pub proof fn lemma_closest_multiple_le(x: int, base: int, k: int)
    requires
        0 <= x <= k * base,
        base >= 1,
    ensures
        closest_multiple(x, base) <= k * base,
{
    let q = (2 * x + base) / (2 * base);
    vstd::arithmetic::div_mod::lemma_fundamental_div_mod(2 * x + base, 2 * base);
    let rem = (2 * x + base) % (2 * base);
    assert(q <= k) by (nonlinear_arith)
        requires
            2 * x + base == 2 * base * q + rem,
            0 <= rem,
            x <= k * base,
            base >= 1,
    ;
    assert(base * q <= k * base) by (nonlinear_arith)
        requires
            q <= k,
            base >= 1,
    ;
}

/// Returns the closest multiple of a base (halves round up).
pub fn closest_mult(x: u32, base: u32) -> (r: u32)
    requires
        closest_multiple(x as int, base as int) <= u32::MAX,
    ensures
        r == closest_multiple(x as int, base as int),
{
    if base == 0 {
        return 0;
    }
    let q: u64 = (2 * (x as u64) + base as u64) / (2 * base as u64);
    assert(q <= u32::MAX) by (nonlinear_arith)
        requires
            q == (2 * x + base) / (2 * base),
            base >= 1,
            x <= u32::MAX,
    ;
    assert(base * q <= u32::MAX);
    ((base as u64) * q) as u32
}

/// The pixel footprint `(cw, ch)` and bounds under which the resize stays in
/// memory and in range: `max_size` cells of `cell_size` pixels each.
pub open spec fn resize_fits(img: Image, cell_size: (u32, u32), max_size: (u16, u16)) -> bool {
    let bw = max_size.0 * cell_size.0;
    let bh = max_size.1 * cell_size.1;
    &&& bw + cell_size.0 <= u32::MAX
    &&& bh + cell_size.1 <= u32::MAX
    &&& buffer_fits(img.width as int, bh + cell_size.1)
    &&& buffer_fits(bw + cell_size.0, bh + cell_size.1)
}

/// The product of two 32-bit numbers.
pub fn wide_mul(a: u32, b: u32) -> (r: u64)
    ensures
        r == a * b,
{
    assert(a * b <= u32::MAX * u32::MAX) by (nonlinear_arith)
        requires
            a <= u32::MAX,
            b <= u32::MAX,
    ;
    (a as u64) * (b as u64)
}

/// Whether `w * h` pixels fit in memory, computed without overflow.
fn buffer_fits_check(w: u64, h: u64) -> (r: bool)
    requires
        w <= u32::MAX + u32::MAX,
        h <= u32::MAX + u32::MAX,
    ensures
        r == buffer_fits(w as int, h as int),
{
    assert(w * h * 16 <= 0x1_0000_0000_0000_0000_0000_0000_0000) by (nonlinear_arith)
        requires
            w <= u32::MAX + u32::MAX,
            h <= u32::MAX + u32::MAX,
    ;
    (w as u128) * (h as u128) * 16 <= usize::MAX as u128
}

/// Whether [`resize_image`] accepts this image, footprint and bound: a well
/// formed, non-empty image and a footprint of at least one pixel, with sizes
/// that stay in range and in memory.
pub fn can_resize(img: &Image, cell_size: (u32, u32), max_size: (u16, u16)) -> (r: bool)
    ensures
        r == (img.wf() && img.width >= 1 && img.height >= 1 && cell_size.0 >= 1 && cell_size.1 >= 1
            && resize_fits(*img, cell_size, max_size)),
{
    if img.pixels.len() as u64 != wide_mul(img.width, img.height) || img.width == 0 || img.height == 0
        || cell_size.0 == 0 || cell_size.1 == 0 {
        return false;
    }
    let bw: u64 = wide_mul(max_size.0 as u32, cell_size.0);
    let bh: u64 = wide_mul(max_size.1 as u32, cell_size.1);
    assert(bw <= 0xffff * u32::MAX && bh <= 0xffff * u32::MAX) by (nonlinear_arith)
        requires
            bw == max_size.0 * cell_size.0,
            bh == max_size.1 * cell_size.1,
    ;
    if bw + cell_size.0 as u64 > u32::MAX as u64 || bh + cell_size.1 as u64 > u32::MAX as u64 {
        return false;
    }
    buffer_fits_check(img.width as u64, bh + cell_size.1 as u64) && buffer_fits_check(
        bw + cell_size.0 as u64,
        bh + cell_size.1 as u64,
    )
}

/// The image that [`resize_image`] makes of image `v`.
pub open spec fn resized(v: RasterView, cell_size: (u32, u32), max_size: (u16, u16)) -> RasterView {
    let fit = fit_resized(v.2, v.0, v.1, (max_size.0 * cell_size.0) as u32, (max_size.1 * cell_size.1) as u32);
    let w = closest_multiple(fit.0 as int, cell_size.0 as int) as u32;
    let h = closest_multiple(fit.1 as int, cell_size.1 as int) as u32;
    (w, h, exact_resized(fit.2, fit.0, fit.1, w, h))
}

/// Resizes an image to fit within `max_size` cells of `cell_size` pixels each,
/// keeping its aspect ratio, then stretches it to the nearest whole number of
/// cells each way.
pub fn resize_image(img: &Image, cell_size: (u32, u32), max_size: (u16, u16)) -> (r: Image)
    requires
        img.wf(),
        img.width >= 1,
        img.height >= 1,
        cell_size.0 >= 1,
        cell_size.1 >= 1,
        resize_fits(*img, cell_size, max_size),
    ensures
        ({
            let fit = fit_resized(
                img.pixels@,
                img.width,
                img.height,
                (max_size.0 * cell_size.0) as u32,
                (max_size.1 * cell_size.1) as u32,
            );
            &&& r.wf()
            &&& r.width == closest_multiple(fit.0 as int, cell_size.0 as int)
            &&& r.height == closest_multiple(fit.1 as int, cell_size.1 as int)
            &&& r.pixels@ == exact_resized(fit.2, fit.0, fit.1, r.width, r.height)
        }),
        r@ == resized(img@, cell_size, max_size),
        r.width % cell_size.0 == 0,
        r.height % cell_size.1 == 0,
        ({
            let fit = fit_resized(
                img.pixels@,
                img.width,
                img.height,
                (max_size.0 * cell_size.0) as u32,
                (max_size.1 * cell_size.1) as u32,
            );
            &&& 2 * (r.width - fit.0) <= cell_size.0 && 2 * (fit.0 - r.width) < cell_size.0
            &&& 2 * (r.height - fit.1) <= cell_size.1 && 2 * (fit.1 - r.height) < cell_size.1
        }),
        max_size.0 >= 1 ==> r.width <= max_size.0 * cell_size.0,
        max_size.1 >= 1 ==> r.height <= max_size.1 * cell_size.1,
{
    let (cw, ch) = cell_size;
    let bw: u32 = (max_size.0 as u32) * cw;
    let bh: u32 = (max_size.1 as u32) * ch;
    assert(buffer_fits(img.width as int, bh + 1) && buffer_fits(bw + 1, bh + 1)) by (nonlinear_arith)
        requires
            buffer_fits(img.width as int, bh + ch),
            buffer_fits(bw + cw, bh + ch),
            cw >= 1,
            ch >= 1,
    ;
    let fit = fit_resize(img, bw, bh);
    assert(fit.width <= bw + cw && fit.height <= bh + ch);
    proof {
        lemma_closest_multiple(fit.width as int, cw as int);
        lemma_closest_multiple(fit.height as int, ch as int);
    }
    let w = closest_mult(fit.width, cw);
    let h = closest_mult(fit.height, ch);
    proof {
        if max_size.0 >= 1 {
            assert(bw >= 1 && bw == max_size.0 * cw) by (nonlinear_arith)
                requires
                    bw == max_size.0 * cw,
                    max_size.0 >= 1,
                    cw >= 1,
            ;
            lemma_closest_multiple_le(fit.width as int, cw as int, max_size.0 as int);
        }
        if max_size.1 >= 1 {
            assert(bh >= 1 && bh == max_size.1 * ch) by (nonlinear_arith)
                requires
                    bh == max_size.1 * ch,
                    max_size.1 >= 1,
                    ch >= 1,
            ;
            lemma_closest_multiple_le(fit.height as int, ch as int, max_size.1 as int);
        }
    }
    assert(buffer_fits(fit.width as int, h as int)) by (nonlinear_arith)
        requires
            fit.width <= bw + cw,
            h <= bh + ch,
            buffer_fits(bw + cw, bh + ch),
    ;
    assert(buffer_fits(w as int, h as int)) by (nonlinear_arith)
        requires
            w <= bw + cw,
            h <= bh + ch,
            buffer_fits(bw + cw, bh + ch),
    ;
    exact_resize(&fit, w, h)
}

} // verus!
