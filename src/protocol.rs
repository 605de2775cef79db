//! The terminals' own image protocols, which take the whole image: options of
//! both, and the escape sequences of the kitty graphics protocol.
use vstd::prelude::*;
use crate::color::Rgba;
use crate::raster::{Image, RasterView, resize_fits, resize_image, resized};

verus! {

/// How an image is shown through the iTerm2 protocol.
#[derive(Debug, Clone, Copy, PartialEq, Eq)]
pub struct ItermOptions {
    /// The width and height, in cells, to show the image at; the terminal
    /// picks a side that is not given.
    pub size: (Option<u16>, Option<u16>),
}

/// Shows images at full resolution in terminals that speak the iTerm2 protocol.
#[derive(Debug, Clone, Copy)]
pub struct Iterm;

/// How an image is shown through the kitty graphics protocol.
#[derive(Debug, Clone, Copy, PartialEq, Eq)]
pub struct KittyOptions {
    /// The largest size, in pixels, to send the image at.
    pub size: (u16, u16),
}

/// Shows images at full resolution in terminals that speak the kitty graphics protocol.
#[derive(Debug, Clone, Copy)]
pub struct Kitty;

/// The most payload bytes that one escape sequence carries.
pub const MAX_BUFFER: usize = 2048;

/// The bytes that open a graphics command: ESC `_` `G`.
pub open spec fn protocol_start() -> Seq<u8> {
    seq![0x1bu8, 0x5fu8, 0x47u8]
}

/// The bytes that close a graphics command: ESC `\`.
pub open spec fn protocol_end() -> Seq<u8> {
    seq![0x1bu8, 0x5cu8]
}

/// The control data `key=value,key=value,...` of a command.
pub open spec fn cmd_list(cmds: Seq<(Seq<u8>, Seq<u8>)>) -> Seq<u8>
    decreases cmds.len(),
{
    if cmds.len() == 0 {
        Seq::empty()
    } else {
        let last = cmds.last();
        let pair = last.0 + seq![0x3du8] + last.1;
        if cmds.len() == 1 {
            pair
        } else {
            cmd_list(cmds.drop_last()) + seq![0x2cu8] + pair
        }
    }
}

/// One escape sequence: the control data, then `,m=1;` when more chunks
/// follow or `,m=0;` for the last, then the chunk of payload.
pub open spec fn chunk(cmds: Seq<u8>, more: bool, data: Seq<u8>) -> Seq<u8> {
    protocol_start() + cmds + seq![0x2cu8, 0x6du8, 0x3du8, if more { 0x31u8 } else { 0x30u8 }, 0x3bu8]
        + data + protocol_end()
}

/// A payload split into chunks of [`MAX_BUFFER`] bytes, each in its own
/// escape sequence with the same control data.
pub open spec fn framed(cmds: Seq<u8>, payload: Seq<u8>) -> Seq<u8>
    decreases payload.len(),
{
    if payload.len() > MAX_BUFFER {
        chunk(cmds, true, payload.take(MAX_BUFFER as int)) + framed(cmds, payload.skip(MAX_BUFFER as int))
    } else {
        chunk(cmds, false, payload)
    }
}

/// The standard base64 encoding (with padding) of some bytes, as ASCII bytes.
pub uninterp spec fn base64_standard(data: Seq<u8>) -> Seq<u8>;

/// Relies on `base64::encode_config` with the `STANDARD` configuration: the
/// standard alphabet with padding, returned as the bytes of the string, four
/// bytes for each started group of three (its `encoded_size`).
#[verifier::external_body]
fn base64_encode(data: &Vec<u8>) -> (r: Vec<u8>)
    ensures
        r@ == base64_standard(data@),
        r.len() == 4 * ((data.len() + 2) / 3),
{
    base64::encode_config(data, base64::STANDARD).into_bytes()
}

/// Appends `data[from..to]` to `out`.
fn append_range(out: &mut Vec<u8>, data: &Vec<u8>, from: usize, to: usize)
    requires
        from <= to <= data.len(),
    ensures
        final(out)@ == old(out)@ + data@.subrange(from as int, to as int),
{
    let ghost start = out@;
    for k in from..to
        invariant
            from <= to <= data.len(),
            out@ == start + data@.subrange(from as int, k as int),
    {
        out.push(data[k]);
        assert(data@.subrange(from as int, k + 1) == data@.subrange(from as int, k as int).push(data@[k as int]));
    }
}

/// Appends all of `data` to `out`.
fn append_all(out: &mut Vec<u8>, data: &Vec<u8>)
    ensures
        final(out)@ == old(out)@ + data@,
{
    append_range(out, data, 0, data.len());
    assert(data@.subrange(0, data.len() as int) == data@);
}

fn push_chunk(out: &mut Vec<u8>, cmds: &Vec<u8>, more: bool, payload: &Vec<u8>, from: usize, to: usize)
    requires
        from <= to <= payload.len(),
    ensures
        final(out)@ == old(out)@ + chunk(cmds@, more, payload@.subrange(from as int, to as int)),
{
    let ghost start = out@;
    out.push(0x1b);
    out.push(0x5f);
    out.push(0x47);
    append_all(out, cmds);
    out.push(0x2c);
    out.push(0x6d);
    out.push(0x3d);
    out.push(if more { 0x31 } else { 0x30 });
    out.push(0x3b);
    append_range(out, payload, from, to);
    out.push(0x1b);
    out.push(0x5c);
    assert(out@ =~= start + chunk(cmds@, more, payload@.subrange(from as int, to as int)));
}

/// The control data `key=value,...` of a list of commands.
pub fn cmd_text(cmds: &Vec<(Vec<u8>, Vec<u8>)>) -> (r: Vec<u8>)
    ensures
        r@ == cmd_list(cmds@.map_values(|c: (Vec<u8>, Vec<u8>)| (c.0@, c.1@))),
{
    let ghost view = cmds@.map_values(|c: (Vec<u8>, Vec<u8>)| (c.0@, c.1@));
    let mut r: Vec<u8> = Vec::new();
    for k in 0..cmds.len()
        invariant
            view == cmds@.map_values(|c: (Vec<u8>, Vec<u8>)| (c.0@, c.1@)),
            r@ == cmd_list(view.take(k as int)),
    {
        let ghost before = r@;
        if k > 0 {
            r.push(0x2c);
        }
        append_all(&mut r, &cmds[k].0);
        r.push(0x3d);
        append_all(&mut r, &cmds[k].1);
        assert(view.take(k + 1).drop_last() == view.take(k as int));
        assert(r@ =~= cmd_list(view.take(k + 1)));
    }
    assert(view.take(cmds.len() as int) == view);
    r
}

/// The escape sequences of the kitty graphics protocol that carry `payload`
/// under the commands `cmds`: chunks of at most [`MAX_BUFFER`] bytes, each
/// marked with whether more follow.
pub fn print_cmd_payload(cmds: &Vec<(Vec<u8>, Vec<u8>)>, payload: &Vec<u8>) -> (r: Vec<u8>)
    ensures
        r@ == framed(cmd_list(cmds@.map_values(|c: (Vec<u8>, Vec<u8>)| (c.0@, c.1@))), payload@),
{
    let text = cmd_text(cmds);
    let mut out: Vec<u8> = Vec::new();
    let mut pos: usize = 0;
    assert(payload@.skip(0) == payload@);
    assert(out@ + framed(text@, payload@) == framed(text@, payload@));
    while payload.len() - pos > MAX_BUFFER
        invariant
            pos <= payload.len(),
            out@ + framed(text@, payload@.skip(pos as int)) == framed(text@, payload@),
        decreases payload.len() - pos,
    {
        let ghost rest = payload@.skip(pos as int);
        push_chunk(&mut out, &text, true, payload, pos, pos + MAX_BUFFER);
        assert(rest.take(MAX_BUFFER as int) == payload@.subrange(pos as int, pos + MAX_BUFFER));
        assert(rest.skip(MAX_BUFFER as int) == payload@.skip(pos + MAX_BUFFER));
        assert(framed(text@, rest) == chunk(text@, true, rest.take(MAX_BUFFER as int)) + framed(
            text@,
            rest.skip(MAX_BUFFER as int),
        ));
        pos = pos + MAX_BUFFER;
    }
    let ghost rest = payload@.skip(pos as int);
    push_chunk(&mut out, &text, false, payload, pos, payload.len());
    assert(rest == payload@.subrange(pos as int, payload.len() as int));
    out
}

/// The decimal digits of a number, as ASCII bytes.
pub open spec fn decimal(n: nat) -> Seq<u8>
    decreases n,
{
    if n < 10 {
        seq![(0x30 + n) as u8]
    } else {
        decimal(n / 10).push((0x30 + n % 10) as u8)
    }
}

/// Writes a number in decimal, as ASCII bytes.
pub fn decimal_bytes(n: u32) -> (r: Vec<u8>)
    ensures
        r@ == decimal(n as nat),
    decreases n,
{
    if n < 10 {
        vec![0x30 + n as u8]
    } else {
        let mut r = decimal_bytes(n / 10);
        r.push(0x30 + (n % 10) as u8);
        r
    }
}

/// The interleaved RGBA bytes of some pixels.
pub open spec fn rgba_bytes(px: Seq<Rgba>) -> Seq<u8>
    decreases px.len(),
{
    if px.len() == 0 {
        Seq::empty()
    } else {
        let p = px.last();
        rgba_bytes(px.drop_last()) + seq![p.r, p.g, p.b, p.a]
    }
}

impl Image {
    /// The image's pixels as interleaved RGBA bytes.
    pub fn to_rgba_bytes(&self) -> (r: Vec<u8>)
        ensures
            r@ == rgba_bytes(self.pixels@),
    {
        let mut r: Vec<u8> = Vec::new();
        for k in 0..self.pixels.len()
            invariant
                r@ == rgba_bytes(self.pixels@.take(k as int)),
        {
            let p = self.pixels[k];
            r.push(p.r);
            r.push(p.g);
            r.push(p.b);
            r.push(p.a);
            assert(self.pixels@.take(k + 1).drop_last() == self.pixels@.take(k as int));
            assert(r@ =~= rgba_bytes(self.pixels@.take(k + 1)));
        }
        assert(self.pixels@.take(self.pixels.len() as int) == self.pixels@);
        r
    }
}

/// A command `key=value` with a one-byte key.
fn command(key: u8, value: Vec<u8>) -> (r: (Vec<u8>, Vec<u8>))
    ensures
        r.0@ == seq![key],
        r.1@ == value@,
{
    let k = vec![key];
    assert(k@ =~= seq![key]);
    (k, value)
}

/// The bytes of a value of one to three ASCII characters (0 for none).
fn value_bytes(a: u8, b: u8, c: u8) -> (r: Vec<u8>)
    requires
        a != 0,
    ensures
        b == 0 ==> r@ == seq![a],
        b != 0 && c == 0 ==> r@ == seq![a, b],
        b != 0 && c != 0 ==> r@ == seq![a, b, c],
{
    let mut r: Vec<u8> = Vec::new();
    r.push(a);
    if b != 0 {
        r.push(b);
        if c != 0 {
            r.push(c);
        }
    }
    assert(b == 0 ==> r@ =~= seq![a]);
    assert(b != 0 && c == 0 ==> r@ =~= seq![a, b]);
    assert(b != 0 && c != 0 ==> r@ =~= seq![a, b, c]);
    r
}

/// The commands that send a file by its path: PNG format (`f=100`),
/// transmit and show (`a=T`), from a file (`t=f`).
pub open spec fn path_cmds() -> Seq<(Seq<u8>, Seq<u8>)> {
    seq![
        (seq![0x66u8], seq![0x31u8, 0x30u8, 0x30u8]),
        (seq![0x61u8], seq![0x54u8]),
        (seq![0x74u8], seq![0x66u8]),
    ]
}

/// The commands that send raw pixels: 32-bit RGBA (`f=32`), transmit and
/// show (`a=T`), image id 0 (`i=0`), direct data (`t=d`), width and height.
pub open spec fn image_cmds(width: u32, height: u32) -> Seq<(Seq<u8>, Seq<u8>)> {
    seq![
        (seq![0x66u8], seq![0x33u8, 0x32u8]),
        (seq![0x61u8], seq![0x54u8]),
        (seq![0x69u8], seq![0x30u8]),
        (seq![0x74u8], seq![0x64u8]),
        (seq![0x73u8], decimal(width as nat)),
        (seq![0x76u8], decimal(height as nat)),
    ]
}

/// The image that [`Kitty::img`] sends of image `v`.
pub open spec fn kitty_resized(v: RasterView, size: (u16, u16)) -> RasterView {
    resized(v, (1, 1), size)
}

impl Kitty {
    /// The escape sequences that show the file at `canonical_path` (the bytes
    /// of an absolute path with no links) in the terminal.
    pub fn path(canonical_path: &Vec<u8>) -> (r: Vec<u8>)
        ensures
            r@ == framed(cmd_list(path_cmds()), base64_standard(canonical_path@)),
    {
        let mut cmds: Vec<(Vec<u8>, Vec<u8>)> = Vec::new();
        cmds.push(command(0x66, value_bytes(0x31, 0x30, 0x30)));
        cmds.push(command(0x61, value_bytes(0x54, 0, 0)));
        cmds.push(command(0x74, value_bytes(0x66, 0, 0)));
        let payload = base64_encode(canonical_path);
        let r = print_cmd_payload(&cmds, &payload);
        assert(cmds@.map_values(|c: (Vec<u8>, Vec<u8>)| (c.0@, c.1@)) =~= path_cmds());
        r
    }

    /// The escape sequences that show an image, resized to fit within
    /// `options.size` pixels, as raw RGBA pixels.
    pub fn img(options: &KittyOptions, img: &Image) -> (r: Vec<u8>)
        requires
            img.wf(),
            img.width >= 1,
            img.height >= 1,
            resize_fits(*img, (1, 1), options.size),
        ensures
            ({
                let v = kitty_resized(img@, options.size);
                r@ == framed(cmd_list(image_cmds(v.0, v.1)), base64_standard(rgba_bytes(v.2)))
            }),
    {
        let small = resize_image(img, (1, 1), options.size);
        let data = small.to_rgba_bytes();
        let mut cmds: Vec<(Vec<u8>, Vec<u8>)> = Vec::new();
        cmds.push(command(0x66, value_bytes(0x33, 0x32, 0)));
        cmds.push(command(0x61, value_bytes(0x54, 0, 0)));
        cmds.push(command(0x69, value_bytes(0x30, 0, 0)));
        cmds.push(command(0x74, value_bytes(0x64, 0, 0)));
        cmds.push(command(0x73, decimal_bytes(small.width)));
        cmds.push(command(0x76, decimal_bytes(small.height)));
        let payload = base64_encode(&data);
        let r = print_cmd_payload(&cmds, &payload);
        assert(cmds@.map_values(|c: (Vec<u8>, Vec<u8>)| (c.0@, c.1@)) =~= image_cmds(small.width, small.height));
        r
    }
}

} // verus!
