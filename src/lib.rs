//! Turns decoded raster images into grids of terminal character cells.
//!
//! The library covers the per-cell analysis and glyph selection of the block,
//! Braille and ASCII renderers, alpha premultiplication, the reduction of
//! 24-bit colors to the 256-color cube, the resize that aligns an image to a
//! renderer's cell footprint, and the decisions of the animation player.
use vstd::prelude::*;

pub mod analysis;
pub mod animation;
pub mod args;
pub mod ascii;
pub mod block;
pub mod braille;
pub mod color;
pub mod protocol;
pub mod raster;
pub mod source;
