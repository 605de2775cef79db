//! The analysis shared by the block and Braille renderers: a block of pixels
//! is split in two classes along the channel with the widest range, giving a
//! bitmask and the average color of each class.
use vstd::prelude::*;
use vstd::arithmetic::power2::{pow2, lemma2_to64};
use crate::color::{Rgb, Rgba, premultiply, premultiplied};

verus! {

/// Channel `i` (0 red, 1 green, 2 blue) of a color.
pub open spec fn channel(c: Rgb, i: int) -> u8 {
    if i == 0 {
        c.0.0
    } else if i == 1 {
        c.0.1
    } else {
        c.0.2
    }
}

/// The largest value of channel `i` over the first `n` colors (0 when `n` is 0).
pub open spec fn max_upto(s: Seq<Rgb>, i: int, n: int) -> u8
    decreases n,
{
    if n <= 0 {
        0
    } else {
        let m = max_upto(s, i, n - 1);
        let v = channel(s[n - 1], i);
        if v > m {
            v
        } else {
            m
        }
    }
}

/// The smallest value of channel `i` over the first `n` colors (255 when `n` is 0).
pub open spec fn min_upto(s: Seq<Rgb>, i: int, n: int) -> u8
    decreases n,
{
    if n <= 0 {
        255
    } else {
        let m = min_upto(s, i, n - 1);
        let v = channel(s[n - 1], i);
        if v < m {
            v
        } else {
            m
        }
    }
}

/// The range (largest minus smallest) of channel `i` over a block.
pub open spec fn spread(s: Seq<Rgb>, i: int) -> int {
    max_upto(s, i, s.len() as int) - min_upto(s, i, s.len() as int)
}

/// The split channel: the first channel, in the order red, green, blue, whose
/// range is the largest.
pub open spec fn split_channel(s: Seq<Rgb>) -> int {
    if spread(s, 2) > spread(s, 0) && spread(s, 2) > spread(s, 1) {
        2
    } else if spread(s, 1) > spread(s, 0) {
        1
    } else {
        0
    }
}

/// The threshold on the split channel: its minimum plus half its range.
pub open spec fn split_value(s: Seq<Rgb>) -> int {
    min_upto(s, split_channel(s), s.len() as int) + spread(s, split_channel(s)) / 2
}

/// Whether color `c` falls in the foreground class of block `s`.
pub open spec fn is_fg(s: Seq<Rgb>, c: Rgb) -> bool {
    channel(c, split_channel(s)) > split_value(s)
}

/// The bitmask of the first `n` pixels of block `s`, the first pixel in the
/// highest bit: one bit per pixel, set for the foreground class.
pub open spec fn mask_upto(s: Seq<Rgb>, n: int) -> int
    decreases n,
{
    if n <= 0 {
        0
    } else {
        2 * mask_upto(s, n - 1) + if is_fg(s, s[n - 1]) {
            1int
        } else {
            0int
        }
    }
}

/// How many of the first `n` pixels of `s` are in class `fg`.
pub open spec fn count_upto(s: Seq<Rgb>, n: int, fg: bool) -> int
    decreases n,
{
    if n <= 0 {
        0
    } else {
        count_upto(s, n - 1, fg) + if is_fg(s, s[n - 1]) == fg {
            1int
        } else {
            0int
        }
    }
}

/// The sum of channel `i` over those of the first `n` pixels of `s` in class `fg`.
pub open spec fn sum_upto(s: Seq<Rgb>, n: int, i: int, fg: bool) -> int
    decreases n,
{
    if n <= 0 {
        0
    } else {
        sum_upto(s, n - 1, i, fg) + if is_fg(s, s[n - 1]) == fg {
            channel(s[n - 1], i) as int
        } else {
            0int
        }
    }
}

/// The average of channel `i` over class `fg` of block `s`; 0 for an empty class.
pub open spec fn class_average(s: Seq<Rgb>, i: int, fg: bool) -> u8 {
    let c = count_upto(s, s.len() as int, fg);
    if c == 0 {
        0
    } else {
        (sum_upto(s, s.len() as int, i, fg) / c) as u8
    }
}

/// The average color of class `fg` of block `s`; black for an empty class.
pub open spec fn class_color(s: Seq<Rgb>, fg: bool) -> Rgb {
    Rgb((class_average(s, 0, fg), class_average(s, 1, fg), class_average(s, 2, fg)))
}

/// What the analysis of a block yields.
#[derive(Debug, Clone, Copy, PartialEq, Eq)]
pub struct CellAnalysis {
    /// One bit per pixel in raster order, the first pixel in the highest bit.
    pub bits: u32,
    /// Average color of the foreground class.
    pub fg: Rgb,
    /// Average color of the background class.
    pub bg: Rgb,
    /// Number of pixels in the foreground class.
    pub fg_count: u32,
}

/// The analysis of a block of premultiplied colors.
pub open spec fn analysis_of(s: Seq<Rgb>) -> CellAnalysis {
    CellAnalysis {
        bits: mask_upto(s, s.len() as int) as u32,
        fg: class_color(s, true),
        bg: class_color(s, false),
        fg_count: count_upto(s, s.len() as int, true) as u32,
    }
}

/// The colors of a block of pixels composited over `bg`.
pub open spec fn premultiplied_all(px: Seq<Rgba>, bg: Rgb) -> Seq<Rgb> {
    px.map_values(|p: Rgba| premultiplied(p, bg))
}

proof fn lemma_min_le_max(s: Seq<Rgb>, i: int, n: int)
    requires
        1 <= n,
    ensures
        min_upto(s, i, n) <= channel(s[0], i) <= max_upto(s, i, n),
    decreases n,
{
    if n > 1 {
        lemma_min_le_max(s, i, n - 1);
    }
}

pub(crate) proof fn lemma_mask_bound(s: Seq<Rgb>, n: int)
    requires
        0 <= n,
    ensures
        0 <= mask_upto(s, n) < pow2(n as nat),
    decreases n,
{
    vstd::arithmetic::power2::lemma_pow2_pos(n as nat);
    if n > 0 {
        lemma_mask_bound(s, n - 1);
        vstd::arithmetic::power2::lemma_pow2_unfold(n as nat);
    }
}

proof fn lemma_sum_bound(s: Seq<Rgb>, n: int, i: int, fg: bool)
    requires
        0 <= n,
    ensures
        0 <= sum_upto(s, n, i, fg) <= 255 * count_upto(s, n, fg),
        0 <= count_upto(s, n, fg) <= n,
    decreases n,
{
    if n > 0 {
        lemma_sum_bound(s, n - 1, i, fg);
    }
}

fn chan(c: Rgb, i: usize) -> (r: u8)
    requires
        i < 3,
    ensures
        r == channel(c, i as int),
{
    if i == 0 {
        c.0.0
    } else if i == 1 {
        c.0.1
    } else {
        c.0.2
    }
}

fn average(sum: u32, count: u32) -> (r: u8)
    requires
        sum <= 255 * count,
    ensures
        count == 0 ==> r == 0,
        count != 0 ==> r == sum / count,
{
    if count == 0 {
        0
    } else {
        assert(sum / count <= 255) by (nonlinear_arith)
            requires
                sum <= 255 * count,
                count > 0,
        ;
        (sum / count) as u8
    }
}

/// Composites every pixel of a block over the background color `bg`.
pub fn premultiply_all(px: &Vec<Rgba>, bg: Rgb) -> (r: Vec<Rgb>)
    ensures
        r@ == premultiplied_all(px@, bg),
{
    let mut r: Vec<Rgb> = Vec::new();
    for k in 0..px.len()
        invariant
            r@ == premultiplied_all(px@.subrange(0, k as int), bg),
    {
        r.push(premultiply(px[k], bg));
        assert(px@.subrange(0, k + 1) == px@.subrange(0, k as int).push(px@[k as int]));
    }
    assert(px@.subrange(0, px.len() as int) == px@);
    r
}

/// Splits a block of premultiplied colors in a foreground and a background
/// class along its split channel, and averages each class.
pub fn analyze_colors(s: &Vec<Rgb>) -> (r: CellAnalysis)
    requires
        1 <= s.len() <= 32,
    ensures
        r == analysis_of(s@),
{
    let n = s.len();
    let ghost g = s@;
    let mut max0: u8 = 0;
    let mut max1: u8 = 0;
    let mut max2: u8 = 0;
    let mut min0: u8 = 255;
    let mut min1: u8 = 255;
    let mut min2: u8 = 255;
    for k in 0..n
        invariant
            n == g.len(),
            g == s@,
            max0 == max_upto(g, 0, k as int),
            max1 == max_upto(g, 1, k as int),
            max2 == max_upto(g, 2, k as int),
            min0 == min_upto(g, 0, k as int),
            min1 == min_upto(g, 1, k as int),
            min2 == min_upto(g, 2, k as int),
    {
        let c = s[k];
        if c.0.0 > max0 {
            max0 = c.0.0;
        }
        if c.0.1 > max1 {
            max1 = c.0.1;
        }
        if c.0.2 > max2 {
            max2 = c.0.2;
        }
        if c.0.0 < min0 {
            min0 = c.0.0;
        }
        if c.0.1 < min1 {
            min1 = c.0.1;
        }
        if c.0.2 < min2 {
            min2 = c.0.2;
        }
    }
    proof {
        lemma_min_le_max(g, 0, n as int);
        lemma_min_le_max(g, 1, n as int);
        lemma_min_le_max(g, 2, n as int);
    }
    let d0 = max0 - min0;
    let d1 = max1 - min1;
    let d2 = max2 - min2;
    let mut split_index: usize = 0;
    let mut best: u8 = d0;
    let mut low: u8 = min0;
    if d1 > best {
        split_index = 1;
        best = d1;
        low = min1;
    }
    if d2 > best {
        split_index = 2;
        best = d2;
        low = min2;
    }
    assert(split_index as int == split_channel(g));
    let split: u8 = low + best / 2;
    assert(split as int == split_value(g));

    let mut bits: u32 = 0;
    let mut fg_count: u32 = 0;
    let mut bg_count: u32 = 0;
    let mut fg0: u32 = 0;
    let mut fg1: u32 = 0;
    let mut fg2: u32 = 0;
    let mut bg0: u32 = 0;
    let mut bg1: u32 = 0;
    let mut bg2: u32 = 0;
    for k in 0..n
        invariant
            n == g.len(),
            n <= 32,
            g == s@,
            split_index < 3,
            split_index as int == split_channel(g),
            split as int == split_value(g),
            bits == mask_upto(g, k as int),
            fg_count == count_upto(g, k as int, true),
            bg_count == count_upto(g, k as int, false),
            fg0 == sum_upto(g, k as int, 0, true),
            fg1 == sum_upto(g, k as int, 1, true),
            fg2 == sum_upto(g, k as int, 2, true),
            bg0 == sum_upto(g, k as int, 0, false),
            bg1 == sum_upto(g, k as int, 1, false),
            bg2 == sum_upto(g, k as int, 2, false),
    {
        proof {
            lemma_mask_bound(g, k as int);
            lemma_mask_bound(g, k + 1);
            lemma_sum_bound(g, k as int, 0, true);
            lemma_sum_bound(g, k as int, 1, true);
            lemma_sum_bound(g, k as int, 2, true);
            lemma_sum_bound(g, k as int, 0, false);
            lemma_sum_bound(g, k as int, 1, false);
            lemma_sum_bound(g, k as int, 2, false);
            lemma2_to64();
            if k + 1 < 32 {
                vstd::arithmetic::power2::lemma_pow2_strictly_increases((k + 1) as nat, 32);
            }
        }
        let c = s[k];
        if chan(c, split_index) > split {
            bits = bits * 2 + 1;
            fg_count = fg_count + 1;
            fg0 = fg0 + c.0.0 as u32;
            fg1 = fg1 + c.0.1 as u32;
            fg2 = fg2 + c.0.2 as u32;
        } else {
            bits = bits * 2;
            bg_count = bg_count + 1;
            bg0 = bg0 + c.0.0 as u32;
            bg1 = bg1 + c.0.1 as u32;
            bg2 = bg2 + c.0.2 as u32;
        }
    }
    proof {
        lemma_sum_bound(g, n as int, 0, true);
        lemma_sum_bound(g, n as int, 1, true);
        lemma_sum_bound(g, n as int, 2, true);
        lemma_sum_bound(g, n as int, 0, false);
        lemma_sum_bound(g, n as int, 1, false);
        lemma_sum_bound(g, n as int, 2, false);
    }
    CellAnalysis {
        bits,
        fg: Rgb((average(fg0, fg_count), average(fg1, fg_count), average(fg2, fg_count))),
        bg: Rgb((average(bg0, bg_count), average(bg1, bg_count), average(bg2, bg_count))),
        fg_count,
    }
}

/// The analysis of a block of pixels composited over `bg` (see [`analyze_colors`]).
pub fn analyze(px: &Vec<Rgba>, bg: Rgb) -> (r: CellAnalysis)
    requires
        1 <= px.len() <= 32,
    ensures
        r == analysis_of(premultiplied_all(px@, bg)),
{
    let s = premultiply_all(px, bg);
    analyze_colors(&s)
}

} // verus!
