use vstd::prelude::*;

verus! {

/// A 24-bit RGB color.
#[derive(Debug, Clone, Copy, PartialEq, Eq, Hash)]
pub struct Rgb(pub (u8, u8, u8));

/// An 8-bit (256-color palette) ANSI color.
#[derive(Debug, Clone, Copy, PartialEq, Eq, Hash, Structural)]
pub struct Ansi(pub u8);

/// An RGBA pixel with 8 bits per channel.
#[derive(Debug, Clone, Copy, PartialEq, Eq, Hash, Structural)]
pub struct Rgba {
    pub r: u8,
    pub g: u8,
    pub b: u8,
    pub a: u8,
}

/// One color channel composited over a background channel with opacity `a`.
pub open spec fn blend_channel(c: u8, bg: u8, a: u8) -> u8 {
    ((bg * (255 - a) + c * a) / 255) as u8
}

/// A pixel composited over `bg`; an opaque pixel keeps its color.
pub open spec fn premultiplied(p: Rgba, bg: Rgb) -> Rgb {
    if p.a == 255 {
        Rgb((p.r, p.g, p.b))
    } else {
        Rgb((blend_channel(p.r, bg.0.0, p.a), blend_channel(p.g, bg.0.1, p.a), blend_channel(p.b, bg.0.2, p.a)))
    }
}

/// Index of a channel value on the six steps of the color cube.
pub open spec fn cube_step(c: u8) -> u8 {
    (c * 5 / 255) as u8
}

/// Index of a color in the 6x6x6 cube of the 256-color palette.
pub open spec fn cube_index(c: Rgb) -> u8 {
    (16 + 36 * cube_step(c.0.0) + 6 * cube_step(c.0.1) + cube_step(c.0.2)) as u8
}

/// The standard luma of a color, as integer weights of the sRGB primaries.
pub open spec fn luma_of(r: u8, g: u8, b: u8) -> u8 {
    ((2126 * r + 7152 * g + 722 * b) / 10000) as u8
}

fn blend(c: u8, bg: u8, a: u8) -> (r: u8)
    ensures
        r == blend_channel(c, bg, a),
        a == 0 ==> r == bg,
{
    let inv: u32 = 255 - a as u32;
    assert(bg * inv <= 255 * 255 && c * a <= 255 * 255) by (nonlinear_arith)
        requires
            bg <= 255,
            c <= 255,
            a <= 255,
            inv == 255 - a,
    ;
    let x: u32 = (bg as u32) * inv;
    let y: u32 = (c as u32) * (a as u32);
    assert(x + y <= 255 * 255) by (nonlinear_arith)
        requires
            x == bg * (255 - a),
            y == c * a,
            bg <= 255,
            c <= 255,
            a <= 255,
    ;
    assert(a == 0 ==> (x + y) / 255 == bg) by (nonlinear_arith)
        requires
            x == bg * (255 - a),
            y == c * a,
    ;
    ((x + y) / 255) as u8
}

/// Composites a pixel over the background color `bg`, removing its alpha.
///
/// Each channel becomes `bg * (1 - a/255) + c * a/255`, truncated; an opaque
/// pixel keeps its color and a fully transparent one takes `bg`.
pub fn premultiply(p: Rgba, bg: Rgb) -> (r: Rgb)
    ensures
        r == premultiplied(p, bg),
        p.a == 255 ==> r == Rgb((p.r, p.g, p.b)),
        p.a == 0 ==> r == bg,
{
    if p.a == 255 {
        return Rgb((p.r, p.g, p.b));
    }
    Rgb((blend(p.r, bg.0.0, p.a), blend(p.g, bg.0.1, p.a), blend(p.b, bg.0.2, p.a)))
}

fn cube(c: u8) -> (r: u8)
    ensures
        r == cube_step(c),
        r <= 5,
{
    ((c as u16) * 5 / 255) as u8
}

impl Rgb {
    /// Converts the 24-bit color to the nearest-below entry of the 256-color cube.
    pub fn as_256(&self) -> (r: Ansi)
        ensures
            r.0 == cube_index(*self),
    {
        let (r, g, b) = self.0;
        Ansi(16 + 36 * cube(r) + 6 * cube(g) + cube(b))
    }
}

/// Converts a 24-bit color to the 256-color palette.
pub fn rgb_to_ansi(color: Rgb) -> (r: Ansi)
    ensures
        r.0 == cube_index(color),
{
    color.as_256()
}

/// The luma of a pixel's color channels; alpha is ignored.
pub fn luma(p: Rgba) -> (r: u8)
    ensures
        r == luma_of(p.r, p.g, p.b),
{
    let l: u32 = 2126 * (p.r as u32) + 7152 * (p.g as u32) + 722 * (p.b as u32);
    (l / 10000) as u8
}

} // verus!
