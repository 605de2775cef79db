//! Where an image comes from, and the choices of how to show it.
use vstd::prelude::*;
use vstd::string::StrSliceExecFns;
use crate::ascii::AsciiOptions;
use crate::block::{BlockOptions, Charset};
use crate::braille::BrailleOptions;
use crate::protocol::{ItermOptions, KittyOptions};

verus! {

/// The name of an image file, or `-` for standard input.
#[derive(Debug, Clone)]
pub struct ImageSource {
    name: String,
}

/// Whether a name ends with the extension of animated GIF files.
pub open spec fn names_gif(s: Seq<char>) -> bool {
    s.len() >= 4 && s.subrange(s.len() - 4, s.len() as int) == seq!['.', 'g', 'i', 'f']
}

/// Relies on `std::path::Path::exists`: whether the file system has an entry
/// at that path at the time of the call; nothing is promised of the answer.
#[verifier::external_body]
fn path_exists(path: &str) -> bool {
    std::path::Path::new(path).exists()
}

impl View for ImageSource {
    type V = Seq<char>;

    closed spec fn view(&self) -> Seq<char> {
        self.name@
    }
}

impl ImageSource {
    /// A source reading the named file, or standard input for `-`.
    pub fn new(filename: String) -> (r: ImageSource)
        ensures
            r@ == filename@,
    {
        ImageSource { name: filename }
    }

    /// The file name as given.
    pub fn path(&self) -> (r: &str)
        ensures
            r@ == self@,
    {
        self.name.as_str()
    }

    /// Whether the source names a GIF file, which may hold several frames.
    pub fn has_frames(&self) -> (r: bool)
        ensures
            r == names_gif(self@),
    {
        let s = self.name.as_str();
        let n = s.unicode_len();
        if n < 4 {
            return false;
        }
        let r = s.get_char(n - 4) == '.' && s.get_char(n - 3) == 'g' && s.get_char(n - 2) == 'i'
            && s.get_char(n - 1) == 'f';
        assert(r == (s@.subrange(n - 4, n as int) =~= seq!['.', 'g', 'i', 'f']));
        r
    }

    /// Whether the source is a file that exists, rather than standard input.
    pub fn has_path(&self) -> (r: bool)
        ensures
            self@ == seq!['-'] ==> !r,
    {
        let s = self.name.as_str();
        if s.unicode_len() == 1 && s.get_char(0) == '-' {
            assert(s@ =~= seq!['-']);
            return false;
        }
        path_exists(s)
    }
}

/// The terminals with an image protocol of their own.
#[derive(Debug, Clone, Copy, PartialEq, Eq, Structural)]
pub enum MagicType {
    Kitty,
    Iterm,
}

/// The ways of drawing an image.
#[derive(Debug, Clone, Copy, PartialEq, Eq, Structural)]
pub enum DrawStyle {
    UnicodeBlock,
    Braille,
    Ascii,
    /// The terminal's own image protocol.
    Magic,
}

/// A renderer with its options.
#[derive(Debug, Clone, Copy)]
pub enum RendererOption {
    Block(BlockOptions),
    Ascii(AsciiOptions),
    Braille(BrailleOptions),
    Kitty(KittyOptions),
    Iterm(ItermOptions),
}

/// What the viewer was asked to do.
#[derive(Debug, Clone)]
pub struct Options {
    /// The image file, or `-` for standard input.
    pub path: String,
    /// Whether to emit 24-bit colors rather than the 256-color palette.
    pub truecolor: bool,
    pub renderer_options: RendererOption,
    /// Whether to show only the first frame of an animation.
    pub still: bool,
}

} // verus!
