//! The block renderer: each 4x8 block of pixels becomes the block-drawing
//! glyph whose dark pattern best matches the block's bitmask.
use vstd::prelude::*;
use crate::analysis::{
    CellAnalysis,
    analysis_of,
    analyze,
    count_upto,
    is_fg,
    lemma_mask_bound,
    mask_upto,
    premultiplied_all,
};
use crate::color::{Rgb, Rgba};
use crate::raster::{Image, RasterView, block_at, resize_image, resize_fits, resized, sub_block};

verus! {

/// The set of glyphs a block renderer may use.
#[derive(Debug, Clone, Copy, PartialEq, Eq, Structural)]
pub enum Charset {
    /// All block-drawing, box-drawing and slope glyphs.
    All,
    /// Like `All`, without the slopes, which some fonts draw wide.
    NoSlopes,
    /// Only the fractional lower blocks.
    Blocks,
    /// Only the lower half block (the upper half comes from the background).
    Halfs,
}

/// Another name for [`Charset`].
pub type CharSet = Charset;

impl Default for Charset {
    fn default() -> (r: Charset)
        ensures
            r == Charset::All,
    {
        Charset::All
    }
}

/// The patterns of the `halfs` charset.
pub open spec fn halfs_table() -> Seq<(u32, char)> {
    seq![
        (0x00000000u32, ' '),
        (0x0000ffffu32, '▄'),
    ]
}

fn halfs_vec() -> (r: Vec<(u32, char)>)
    ensures
        r@ == halfs_table(),
{
    let r = vec![
        (0x00000000u32, ' '),
        (0x0000ffffu32, '▄'),
    ];
    assert(r@ =~= halfs_table());
    r
}

/// The patterns of the `blocks` charset.
pub open spec fn blocks_table() -> Seq<(u32, char)> {
    seq![
        (0x00000000u32, ' '),
        (0x0000000fu32, '▁'),
        (0x000000ffu32, '▂'),
        (0x00000fffu32, '▃'),
        (0x0000ffffu32, '▄'),
        (0x000fffffu32, '▅'),
        (0x00ffffffu32, '▆'),
        (0x0fffffffu32, '▇'),
    ]
}

fn blocks_vec() -> (r: Vec<(u32, char)>)
    ensures
        r@ == blocks_table(),
{
    let r = vec![
        (0x00000000u32, ' '),
        (0x0000000fu32, '▁'),
        (0x000000ffu32, '▂'),
        (0x00000fffu32, '▃'),
        (0x0000ffffu32, '▄'),
        (0x000fffffu32, '▅'),
        (0x00ffffffu32, '▆'),
        (0x0fffffffu32, '▇'),
    ];
    assert(r@ =~= blocks_table());
    r
}

/// The patterns of the `no_slopes` charset.
pub open spec fn no_slopes_table() -> Seq<(u32, char)> {
    seq![
        (0x00000000u32, ' '),
        (0x0000000fu32, '▁'),
        (0x000000ffu32, '▂'),
        (0x00000fffu32, '▃'),
        (0x0000ffffu32, '▄'),
        (0x000fffffu32, '▅'),
        (0x00ffffffu32, '▆'),
        (0x0fffffffu32, '▇'),
        (0xeeeeeeeeu32, '▊'),
        (0xccccccccu32, '▌'),
        (0x88888888u32, '▎'),
        (0x0000ccccu32, '▖'),
        (0x00003333u32, '▗'),
        (0xcccc0000u32, '▘'),
        (0xcccc3333u32, '▚'),
        (0x33330000u32, '▝'),
        (0x000ff000u32, '━'),
        (0x66666666u32, '┃'),
        (0x00077666u32, '┏'),
        (0x000ee666u32, '┓'),
        (0x66677000u32, '┗'),
        (0x666ee000u32, '┛'),
        (0x66677666u32, '┣'),
        (0x666ee666u32, '┫'),
        (0x000ff666u32, '┳'),
        (0x666ff000u32, '┻'),
        (0x666ff666u32, '╋'),
        (0x000cc000u32, '╸'),
        (0x00066000u32, '╹'),
        (0x00033000u32, '╺'),
        (0x00066000u32, '╻'),
        (0x06600660u32, '╏'),
        (0x000f0000u32, '─'),
        (0x0000f000u32, '─'),
        (0x44444444u32, '│'),
        (0x22222222u32, '│'),
        (0x000e0000u32, '╴'),
        (0x0000e000u32, '╴'),
        (0x44440000u32, '╵'),
        (0x22220000u32, '╵'),
        (0x00030000u32, '╶'),
        (0x00003000u32, '╶'),
        (0x00004444u32, '╵'),
        (0x00002222u32, '╵'),
        (0x44444444u32, '⎢'),
        (0x22222222u32, '⎥'),
        (0x0f000000u32, '⎺'),
        (0x00f00000u32, '⎻'),
        (0x00000f00u32, '⎼'),
        (0x000000f0u32, '⎽'),
        (0x00066000u32, '▪'),
    ]
}

fn no_slopes_vec() -> (r: Vec<(u32, char)>)
    ensures
        r@ == no_slopes_table(),
{
    let r = vec![
        (0x00000000u32, ' '),
        (0x0000000fu32, '▁'),
        (0x000000ffu32, '▂'),
        (0x00000fffu32, '▃'),
        (0x0000ffffu32, '▄'),
        (0x000fffffu32, '▅'),
        (0x00ffffffu32, '▆'),
        (0x0fffffffu32, '▇'),
        (0xeeeeeeeeu32, '▊'),
        (0xccccccccu32, '▌'),
        (0x88888888u32, '▎'),
        (0x0000ccccu32, '▖'),
        (0x00003333u32, '▗'),
        (0xcccc0000u32, '▘'),
        (0xcccc3333u32, '▚'),
        (0x33330000u32, '▝'),
        (0x000ff000u32, '━'),
        (0x66666666u32, '┃'),
        (0x00077666u32, '┏'),
        (0x000ee666u32, '┓'),
        (0x66677000u32, '┗'),
        (0x666ee000u32, '┛'),
        (0x66677666u32, '┣'),
        (0x666ee666u32, '┫'),
        (0x000ff666u32, '┳'),
        (0x666ff000u32, '┻'),
        (0x666ff666u32, '╋'),
        (0x000cc000u32, '╸'),
        (0x00066000u32, '╹'),
        (0x00033000u32, '╺'),
        (0x00066000u32, '╻'),
        (0x06600660u32, '╏'),
        (0x000f0000u32, '─'),
        (0x0000f000u32, '─'),
        (0x44444444u32, '│'),
        (0x22222222u32, '│'),
        (0x000e0000u32, '╴'),
        (0x0000e000u32, '╴'),
        (0x44440000u32, '╵'),
        (0x22220000u32, '╵'),
        (0x00030000u32, '╶'),
        (0x00003000u32, '╶'),
        (0x00004444u32, '╵'),
        (0x00002222u32, '╵'),
        (0x44444444u32, '⎢'),
        (0x22222222u32, '⎥'),
        (0x0f000000u32, '⎺'),
        (0x00f00000u32, '⎻'),
        (0x00000f00u32, '⎼'),
        (0x000000f0u32, '⎽'),
        (0x00066000u32, '▪'),
    ];
    assert(r@ =~= no_slopes_table());
    r
}

/// The patterns of the `all` charset.
pub open spec fn all_table() -> Seq<(u32, char)> {
    seq![
        (0x00000000u32, ' '),
        (0x0000000fu32, '▁'),
        (0x000000ffu32, '▂'),
        (0x00000fffu32, '▃'),
        (0x0000ffffu32, '▄'),
        (0x000fffffu32, '▅'),
        (0x00ffffffu32, '▆'),
        (0x0fffffffu32, '▇'),
        (0xeeeeeeeeu32, '▊'),
        (0xccccccccu32, '▌'),
        (0x88888888u32, '▎'),
        (0x0000ccccu32, '▖'),
        (0x00003333u32, '▗'),
        (0xcccc0000u32, '▘'),
        (0xcccc3333u32, '▚'),
        (0x33330000u32, '▝'),
        (0x000ff000u32, '━'),
        (0x66666666u32, '┃'),
        (0x00077666u32, '┏'),
        (0x000ee666u32, '┓'),
        (0x66677000u32, '┗'),
        (0x666ee000u32, '┛'),
        (0x66677666u32, '┣'),
        (0x666ee666u32, '┫'),
        (0x000ff666u32, '┳'),
        (0x666ff000u32, '┻'),
        (0x666ff666u32, '╋'),
        (0x000cc000u32, '╸'),
        (0x00066000u32, '╹'),
        (0x00033000u32, '╺'),
        (0x00066000u32, '╻'),
        (0x06600660u32, '╏'),
        (0x000f0000u32, '─'),
        (0x0000f000u32, '─'),
        (0x44444444u32, '│'),
        (0x22222222u32, '│'),
        (0x000e0000u32, '╴'),
        (0x0000e000u32, '╴'),
        (0x44440000u32, '╵'),
        (0x22220000u32, '╵'),
        (0x00030000u32, '╶'),
        (0x00003000u32, '╶'),
        (0x00004444u32, '╵'),
        (0x00002222u32, '╵'),
        (0x44444444u32, '⎢'),
        (0x22222222u32, '⎥'),
        (0x0f000000u32, '⎺'),
        (0x00f00000u32, '⎻'),
        (0x00000f00u32, '⎼'),
        (0x000000f0u32, '⎽'),
        (0x00066000u32, '▪'),
        (0x000137f0u32, '\u{25e2}'),
        (0x0008cef0u32, '\u{25e3}'),
        (0x000fec80u32, '\u{25e4}'),
        (0x000f7310u32, '\u{25e5}'),
    ]
}

fn all_vec() -> (r: Vec<(u32, char)>)
    ensures
        r@ == all_table(),
{
    let r = vec![
        (0x00000000u32, ' '),
        (0x0000000fu32, '▁'),
        (0x000000ffu32, '▂'),
        (0x00000fffu32, '▃'),
        (0x0000ffffu32, '▄'),
        (0x000fffffu32, '▅'),
        (0x00ffffffu32, '▆'),
        (0x0fffffffu32, '▇'),
        (0xeeeeeeeeu32, '▊'),
        (0xccccccccu32, '▌'),
        (0x88888888u32, '▎'),
        (0x0000ccccu32, '▖'),
        (0x00003333u32, '▗'),
        (0xcccc0000u32, '▘'),
        (0xcccc3333u32, '▚'),
        (0x33330000u32, '▝'),
        (0x000ff000u32, '━'),
        (0x66666666u32, '┃'),
        (0x00077666u32, '┏'),
        (0x000ee666u32, '┓'),
        (0x66677000u32, '┗'),
        (0x666ee000u32, '┛'),
        (0x66677666u32, '┣'),
        (0x666ee666u32, '┫'),
        (0x000ff666u32, '┳'),
        (0x666ff000u32, '┻'),
        (0x666ff666u32, '╋'),
        (0x000cc000u32, '╸'),
        (0x00066000u32, '╹'),
        (0x00033000u32, '╺'),
        (0x00066000u32, '╻'),
        (0x06600660u32, '╏'),
        (0x000f0000u32, '─'),
        (0x0000f000u32, '─'),
        (0x44444444u32, '│'),
        (0x22222222u32, '│'),
        (0x000e0000u32, '╴'),
        (0x0000e000u32, '╴'),
        (0x44440000u32, '╵'),
        (0x22220000u32, '╵'),
        (0x00030000u32, '╶'),
        (0x00003000u32, '╶'),
        (0x00004444u32, '╵'),
        (0x00002222u32, '╵'),
        (0x44444444u32, '⎢'),
        (0x22222222u32, '⎥'),
        (0x0f000000u32, '⎺'),
        (0x00f00000u32, '⎻'),
        (0x00000f00u32, '⎼'),
        (0x000000f0u32, '⎽'),
        (0x00066000u32, '▪'),
        (0x000137f0u32, '\u{25e2}'),
        (0x0008cef0u32, '\u{25e3}'),
        (0x000fec80u32, '\u{25e4}'),
        (0x000f7310u32, '\u{25e5}'),
    ];
    assert(r@ =~= all_table());
    r
}

/// The glyph table of a charset: pairs of a 32-bit dark pattern (4 pixels per
/// row, top row in the highest bits) and its glyph.
pub open spec fn charset_table(c: Charset) -> Seq<(u32, char)> {
    match c {
        Charset::All => all_table(),
        Charset::NoSlopes => no_slopes_table(),
        Charset::Blocks => blocks_table(),
        Charset::Halfs => halfs_table(),
    }
}

impl Charset {
    /// The glyph table of this charset.
    pub fn bitmap(&self) -> (r: Vec<(u32, char)>)
        ensures
            r@ == charset_table(*self),
    {
        match self {
            Charset::All => all_vec(),
            Charset::NoSlopes => no_slopes_vec(),
            Charset::Blocks => blocks_vec(),
            Charset::Halfs => halfs_vec(),
        }
    }
}

/// The glyph table of a charset.
pub fn get_bitmap(char_set: CharSet) -> (r: Vec<(u32, char)>)
    ensures
        r@ == charset_table(char_set),
{
    char_set.bitmap()
}

/// The number of differing bits among the lowest `n` bits of `a` and `b`.
pub open spec fn hamming_upto(a: int, b: int, n: nat) -> nat
    decreases n,
{
    if n == 0 {
        0
    } else {
        (if a % 2 != b % 2 {
            1nat
        } else {
            0nat
        }) + hamming_upto(a / 2, b / 2, (n - 1) as nat)
    }
}

/// The Hamming distance of two 32-bit patterns.
pub open spec fn hamming(a: u32, b: u32) -> nat {
    hamming_upto(a as int, b as int, 32)
}

/// The bitwise complement of a 32-bit pattern.
pub open spec fn complement(x: u32) -> u32 {
    (0xffff_ffff - x) as u32
}

/// The complement is the bitwise negation.
pub proof fn lemma_complement_is_not(x: u32)
    ensures
        complement(x) == !x,
{
    assert(0xffff_ffff - x == !x) by (bit_vector);
}

/// The Hamming distance of two 32-bit patterns.
pub fn hamming_distance(a: u32, b: u32) -> (r: u32)
    ensures
        r as nat == hamming(a, b),
{
    let mut x: u32 = a;
    let mut y: u32 = b;
    let mut count: u32 = 0;
    let mut i: u32 = 0;
    while i < 32
        invariant
            i <= 32,
            count <= i,
            count + hamming_upto(x as int, y as int, (32 - i) as nat) == hamming(a, b),
        decreases 32 - i,
    {
        if x % 2 != y % 2 {
            count = count + 1;
        }
        x = x / 2;
        y = y / 2;
        i = i + 1;
    }
    count
}

/// The outcome of matching a bitmask against a glyph table: the entry, whether
/// the entry's complement matched, and the distance.
#[derive(Debug, Clone, Copy, PartialEq, Eq, Structural)]
pub struct GlyphMatch {
    pub index: usize,
    pub invert: bool,
    pub distance: u32,
}

/// The distance of `bits` to entry `j` of `table`, or to its complement.
pub open spec fn entry_distance(table: Seq<(u32, char)>, bits: u32, j: int, invert: bool) -> nat {
    if invert {
        hamming(complement(table[j].0), bits)
    } else {
        hamming(table[j].0, bits)
    }
}

/// The scan of the first `n` entries of a table: each entry, then its
/// complement, replaces the best match seen so far only when strictly closer.
pub open spec fn best_match(table: Seq<(u32, char)>, bits: u32, n: int) -> GlyphMatch
    decreases n,
{
    if n <= 0 {
        GlyphMatch { index: 0, invert: false, distance: 0xffff_ffff }
    } else {
        let m = best_match(table, bits, n - 1);
        let d = entry_distance(table, bits, n - 1, false);
        let m1 = if d < m.distance {
            GlyphMatch { index: (n - 1) as usize, invert: false, distance: d as u32 }
        } else {
            m
        };
        let di = entry_distance(table, bits, n - 1, true);
        if di < m1.distance {
            GlyphMatch { index: (n - 1) as usize, invert: true, distance: di as u32 }
        } else {
            m1
        }
    }
}

/// The best match of `bits` in the whole table.
pub open spec fn glyph_match(table: Seq<(u32, char)>, bits: u32) -> GlyphMatch {
    best_match(table, bits, table.len() as int)
}

/// Whether candidate `(j, ij)` comes before candidate `(k, ik)` in scan order.
pub open spec fn scanned_before(j: int, ij: bool, k: int, ik: bool) -> bool {
    j < k || (j == k && !ij && ik)
}

proof fn lemma_hamming_bound(a: int, b: int, n: nat)
    ensures
        hamming_upto(a, b, n) <= n,
    decreases n,
{
    if n > 0 {
        lemma_hamming_bound(a / 2, b / 2, (n - 1) as nat);
    }
}

proof fn lemma_hamming_self(a: int, n: nat)
    ensures
        hamming_upto(a, a, n) == 0,
    decreases n,
{
    if n > 0 {
        lemma_hamming_self(a / 2, (n - 1) as nat);
    }
}

proof fn lemma_hamming_complement(a: int, b: int, n: nat)
    requires
        a >= 0,
        b >= 0,
        a + b == vstd::arithmetic::power2::pow2(n) - 1,
    ensures
        hamming_upto(a, b, n) == n,
    decreases n,
{
    if n > 0 {
        vstd::arithmetic::power2::lemma_pow2_unfold(n);
        vstd::arithmetic::div_mod::lemma_fundamental_div_mod(a, 2);
        vstd::arithmetic::div_mod::lemma_fundamental_div_mod(b, 2);
        lemma_hamming_complement(a / 2, b / 2, (n - 1) as nat);
    }
}

/// A pattern and its complement differ in all 32 bits.
pub proof fn lemma_complement_distance(x: u32)
    ensures
        hamming(x, complement(x)) == 32,
{
    vstd::arithmetic::power2::lemma2_to64();
    lemma_hamming_complement(x as int, complement(x) as int, 32);
}

proof fn lemma_best_match_scan(table: Seq<(u32, char)>, bits: u32, n: int)
    requires
        1 <= n <= table.len(),
        table.len() <= usize::MAX,
    ensures
        ({
            let m = best_match(table, bits, n);
            &&& 0 <= m.index < n
            &&& m.distance == entry_distance(table, bits, m.index as int, m.invert)
            &&& forall|j: int, inv: bool|
                0 <= j < n ==> m.distance <= #[trigger] entry_distance(table, bits, j, inv)
            &&& forall|j: int, inv: bool|
                0 <= j && scanned_before(j, inv, m.index as int, m.invert)
                    ==> m.distance < #[trigger] entry_distance(table, bits, j, inv)
        }),
    decreases n,
{
    lemma_hamming_bound(table[n - 1].0 as int, bits as int, 32);
    lemma_hamming_bound(complement(table[n - 1].0) as int, bits as int, 32);
    let m0 = best_match(table, bits, n - 1);
    let m = best_match(table, bits, n);
    let d = entry_distance(table, bits, n - 1, false);
    let di = entry_distance(table, bits, n - 1, true);
    if n > 1 {
        lemma_best_match_scan(table, bits, n - 1);
    }
    assert forall|j: int, inv: bool| 0 <= j < n implies m.distance <= #[trigger] entry_distance(
        table,
        bits,
        j,
        inv,
    ) by {
        if j < n - 1 {
            assert(m0.distance <= entry_distance(table, bits, j, inv));
        }
    }
    assert forall|j: int, inv: bool|
        0 <= j && scanned_before(j, inv, m.index as int, m.invert) implies m.distance
        < #[trigger] entry_distance(table, bits, j, inv) by {
        if n > 1 && j < n - 1 {
            assert(m0.distance <= entry_distance(table, bits, j, inv));
            if scanned_before(j, inv, m0.index as int, m0.invert) {
                assert(m0.distance < entry_distance(table, bits, j, inv));
            }
        }
    }
}

/// The matching law: over a non-empty table, the match is the first candidate,
/// in scan order (each entry, then its complement), at the least distance.
pub proof fn lemma_glyph_match_is_first_nearest(table: Seq<(u32, char)>, bits: u32)
    requires
        1 <= table.len() <= usize::MAX,
    ensures
        ({
            let m = glyph_match(table, bits);
            &&& 0 <= m.index < table.len()
            &&& m.distance == entry_distance(table, bits, m.index as int, m.invert)
            &&& forall|j: int, inv: bool|
                0 <= j < table.len() ==> m.distance <= #[trigger] entry_distance(table, bits, j, inv)
            &&& forall|j: int, inv: bool|
                0 <= j && scanned_before(j, inv, m.index as int, m.invert)
                    ==> m.distance < #[trigger] entry_distance(table, bits, j, inv)
        }),
{
    lemma_best_match_scan(table, bits, table.len() as int);
}

/// Matching is a function of the bitmask and the table alone: two matches of
/// the same bitmask against the same table agree on the glyph and inversion.
pub proof fn lemma_glyph_match_pure(
    table1: Seq<(u32, char)>,
    bits1: u32,
    table2: Seq<(u32, char)>,
    bits2: u32,
)
    requires
        table1 == table2,
        bits1 == bits2,
    ensures
        glyph_match(table1, bits1) == glyph_match(table2, bits2),
{
}

/// A bitmask equal to entry `k`'s pattern, with no earlier entry at distance
/// 0 either way, matches entry `k` exactly and without inversion.
pub proof fn lemma_exact_match(table: Seq<(u32, char)>, bits: u32, k: int)
    requires
        0 <= k < table.len() <= usize::MAX,
        table[k].0 == bits,
        forall|j: int, inv: bool| 0 <= j < k ==> #[trigger] entry_distance(table, bits, j, inv) > 0,
    ensures
        glyph_match(table, bits) == (GlyphMatch { index: k as usize, invert: false, distance: 0 }),
{
    lemma_hamming_self(bits as int, 32);
    lemma_glyph_match_is_first_nearest(table, bits);
    let m = glyph_match(table, bits);
    assert(entry_distance(table, bits, k, false) == 0);
    if scanned_before(k, false, m.index as int, m.invert) {
        assert(m.distance < entry_distance(table, bits, k, false));
    }
    if scanned_before(m.index as int, m.invert, k, false) {
        assert(entry_distance(table, bits, m.index as int, m.invert) > 0);
    }
}

/// A bitmask equal to the complement of entry `k`'s pattern, with no earlier
/// entry at distance 0 either way, matches entry `k` inverted.
pub proof fn lemma_inverted_match(table: Seq<(u32, char)>, bits: u32, k: int)
    requires
        0 <= k < table.len() <= usize::MAX,
        !table[k].0 == bits,
        forall|j: int, inv: bool| 0 <= j < k ==> #[trigger] entry_distance(table, bits, j, inv) > 0,
    ensures
        glyph_match(table, bits) == (GlyphMatch { index: k as usize, invert: true, distance: 0 }),
{
    lemma_complement_is_not(table[k].0);
    lemma_complement_distance(table[k].0);
    assert(entry_distance(table, bits, k, false) == 32);
    lemma_hamming_self(bits as int, 32);
    lemma_glyph_match_is_first_nearest(table, bits);
    let m = glyph_match(table, bits);
    assert(entry_distance(table, bits, k, true) == 0);
    if scanned_before(k, true, m.index as int, m.invert) {
        assert(m.distance < entry_distance(table, bits, k, true));
    }
    if scanned_before(m.index as int, m.invert, k, true) {
        assert(entry_distance(table, bits, m.index as int, m.invert) > 0);
    }
}

/// The inversion law at the level of cells: a block whose bitmask is the
/// complement of entry `k`'s pattern, with no earlier entry at distance 0
/// either way, gets entry `k`'s glyph with the foreground and background
/// colors swapped.
pub proof fn lemma_inverted_cell(a: CellAnalysis, table: Seq<(u32, char)>, blend: bool, k: int)
    requires
        0 <= k < table.len() <= usize::MAX,
        !table[k].0 == a.bits,
        forall|j: int, inv: bool| 0 <= j < k ==> #[trigger] entry_distance(table, a.bits, j, inv) > 0,
    ensures
        block_cell(a, table, blend) == (Cell { ch: table[k].1, fg: a.bg, bg: a.fg }),
{
    lemma_inverted_match(table, a.bits, k);
}

/// The exact-match law at the level of cells: a block whose bitmask is entry
/// `k`'s pattern, with no earlier entry at distance 0 either way, gets entry
/// `k`'s glyph with its own colors.
pub proof fn lemma_exact_cell(a: CellAnalysis, table: Seq<(u32, char)>, blend: bool, k: int)
    requires
        0 <= k < table.len() <= usize::MAX,
        table[k].0 == a.bits,
        forall|j: int, inv: bool| 0 <= j < k ==> #[trigger] entry_distance(table, a.bits, j, inv) > 0,
    ensures
        block_cell(a, table, blend) == (Cell { ch: table[k].1, fg: a.fg, bg: a.bg }),
{
    lemma_exact_match(table, a.bits, k);
}

/// Matches a bitmask against a non-empty glyph table.
pub fn match_glyph(table: &Vec<(u32, char)>, bits: u32) -> (r: GlyphMatch)
    requires
        table.len() >= 1,
    ensures
        r == glyph_match(table@, bits),
{
    let mut best = GlyphMatch { index: 0, invert: false, distance: 0xffff_ffff };
    for k in 0..table.len()
        invariant
            best == best_match(table@, bits, k as int),
    {
        let (pattern, _) = table[k];
        let d = hamming_distance(pattern, bits);
        if d < best.distance {
            best = GlyphMatch { index: k, invert: false, distance: d };
        }
        let di = hamming_distance(u32::MAX - pattern, bits);
        if di < best.distance {
            best = GlyphMatch { index: k, invert: true, distance: di };
        }
    }
    best
}

/// One character cell of the block renderer.
#[derive(Debug, Clone, Copy, PartialEq, Eq)]
pub struct Cell {
    pub ch: char,
    pub fg: Rgb,
    pub bg: Rgb,
}

/// The shading glyphs, from empty to full, used when no pattern fits well.
pub open spec fn gradient(i: int) -> char {
    if i == 0 {
        ' '
    } else if i == 1 {
        '\u{2591}'
    } else if i == 2 {
        '\u{2592}'
    } else if i == 3 {
        '\u{2593}'
    } else {
        '\u{2588}'
    }
}

/// The shading step for a block with `fg_count` foreground pixels out of 32.
pub open spec fn gradient_step(fg_count: u32) -> int {
    let i = fg_count * 5 / 32;
    if i < 4 {
        i as int
    } else {
        4
    }
}

/// The distance beyond which, when blending, a shade replaces the best pattern.
pub const BLEND_THRESHOLD: u32 = 10;

/// The cell for an analysed block: the best glyph of the table, its colors
/// swapped when the complement matched; when blending and the best distance
/// exceeds the threshold, a shade glyph chosen by the foreground share instead.
pub open spec fn block_cell(a: CellAnalysis, table: Seq<(u32, char)>, blend: bool) -> Cell {
    let m = glyph_match(table, a.bits);
    if blend && m.distance > BLEND_THRESHOLD {
        Cell { ch: gradient(gradient_step(a.fg_count)), fg: a.fg, bg: a.bg }
    } else if m.invert {
        Cell { ch: table[m.index as int].1, fg: a.bg, bg: a.fg }
    } else {
        Cell { ch: table[m.index as int].1, fg: a.fg, bg: a.bg }
    }
}

/// The cell for a 4x8 block of pixels (in raster order) composited over `bg`.
pub open spec fn block_pixels_cell(px: Seq<Rgba>, table: Seq<(u32, char)>, blend: bool, bg: Rgb) -> Cell {
    block_cell(analysis_of(premultiplied_all(px, bg)), table, blend)
}

fn gradient_glyph(fg_count: u32) -> (r: char)
    ensures
        r == gradient(gradient_step(fg_count)),
{
    let step: u32 = if (fg_count as u64) * 5 / 32 < 4 { ((fg_count as u64) * 5 / 32) as u32 } else { 4 };
    if step == 0 {
        ' '
    } else if step == 1 {
        '\u{2591}'
    } else if step == 2 {
        '\u{2592}'
    } else if step == 3 {
        '\u{2593}'
    } else {
        '\u{2588}'
    }
}

/// Renders one 4x8 block of pixels, given in raster order, as a cell.
pub fn process_block(px: &Vec<Rgba>, bitmaps: &Vec<(u32, char)>, blend: bool, bg: Rgb) -> (r: Cell)
    requires
        px.len() == 32,
        bitmaps.len() >= 1,
    ensures
        r == block_pixels_cell(px@, bitmaps@, blend, bg),
{
    let a = analyze(px, bg);
    let m = match_glyph(bitmaps, a.bits);
    proof {
        lemma_glyph_match_is_first_nearest(bitmaps@, a.bits);
    }
    if blend && m.distance > BLEND_THRESHOLD {
        Cell { ch: gradient_glyph(a.fg_count), fg: a.fg, bg: a.bg }
    } else if m.invert {
        Cell { ch: bitmaps[m.index].1, fg: a.bg, bg: a.fg }
    } else {
        Cell { ch: bitmaps[m.index].1, fg: a.fg, bg: a.bg }
    }
}

/// How the block renderer draws an image.
#[derive(Debug, Clone, Copy, PartialEq, Eq)]
pub struct BlockOptions {
    pub char_set: Charset,
    /// Whether shade glyphs may replace a poorly matching pattern.
    pub blend: bool,
    /// The color that transparent pixels are composited over; that of the
    /// background the text is shown on.
    pub background_color: Rgb,
    /// The largest grid, in columns and rows, that a resized image may take.
    pub size: (u16, u16),
}

/// Renders images with block-drawing glyphs, one cell per 4x8 pixels.
#[derive(Debug, Clone, Copy)]
pub struct Block;

/// The cell in column `bx` and row `by` of the block grid of image `v`.
pub open spec fn block_grid_cell(v: RasterView, bx: int, by: int, options: BlockOptions) -> Cell {
    block_pixels_cell(
        sub_block(v, 4 * bx, 8 * by, 4, 8),
        charset_table(options.char_set),
        options.blend,
        options.background_color,
    )
}

/// Whether `rows` is the block grid of image `v`: one row per whole 8 pixel
/// rows, one cell per whole 4 pixel columns.
pub open spec fn is_block_grid(v: RasterView, options: BlockOptions, rows: Seq<Vec<Cell>>) -> bool {
    &&& rows.len() == v.1 / 8
    &&& forall|y: int| 0 <= y < rows.len() ==> #[trigger] rows[y].len() == v.0 / 4
    &&& forall|y: int, x: int|
        0 <= y < rows.len() && 0 <= x < v.0 / 4 ==> #[trigger] rows[y]@[x] == block_grid_cell(v, x, y, options)
}

/// The cell footprint of the block renderer.
pub const BLOCK_CELL: (u32, u32) = (4, 8);

impl Block {
    /// Renders an image without resizing it; pixels past the last whole cell
    /// are left out.
    pub fn img_exact(options: &BlockOptions, img: &Image) -> (r: Vec<Vec<Cell>>)
        requires
            img.wf(),
        ensures
            is_block_grid(img@, *options, r@),
    {
        let table = options.char_set.bitmap();
        let cols = img.width / 4;
        let n_rows = img.height / 8;
        let mut rows: Vec<Vec<Cell>> = Vec::new();
        for by in 0..n_rows
            invariant
                img.wf(),
                cols == img.width / 4,
                n_rows == img.height / 8,
                table@ == charset_table(options.char_set),
                rows.len() == by,
                forall|y: int| 0 <= y < rows.len() ==> #[trigger] rows@[y].len() == cols,
                forall|y: int, x: int|
                    0 <= y < rows.len() && 0 <= x < cols ==> #[trigger] rows@[y]@[x] == block_grid_cell(
                        img@,
                        x,
                        y,
                        *options,
                    ),
        {
            let mut row: Vec<Cell> = Vec::new();
            for bx in 0..cols
                invariant
                    img.wf(),
                    cols == img.width / 4,
                    by < n_rows,
                    n_rows == img.height / 8,
                    table@ == charset_table(options.char_set),
                    row.len() == bx,
                    forall|x: int| 0 <= x < row.len() ==> #[trigger] row@[x] == block_grid_cell(img@, x, by as int, *options),
            {
                let px = block_at(img, bx * 4, by * 8, 4, 8);
                row.push(process_block(&px, &table, options.blend, options.background_color));
            }
            rows.push(row);
        }
        rows
    }

    /// Renders an image resized to fit `options.size` cells, aligned to whole cells.
    pub fn img(options: &BlockOptions, img: &Image) -> (r: Vec<Vec<Cell>>)
        requires
            img.wf(),
            img.width >= 1,
            img.height >= 1,
            resize_fits(*img, BLOCK_CELL, options.size),
        ensures
            is_block_grid(resized(img@, BLOCK_CELL, options.size), *options, r@),
            options.size.1 >= 1 ==> r.len() <= options.size.1,
            options.size.0 >= 1 ==> forall|y: int| 0 <= y < r.len() ==> #[trigger] r@[y].len() <= options.size.0,
    {
        let resized_img = resize_image(img, BLOCK_CELL, options.size);
        assert(resized_img.height / 8 <= options.size.1 || options.size.1 == 0);
        assert(resized_img.width / 4 <= options.size.0 || options.size.0 == 0);
        Self::img_exact(options, &resized_img)
    }

    /// Renders every frame of an animation without resizing, keeping each delay.
    pub fn animated_exact(options: &BlockOptions, frames: &Vec<(Image, u64)>) -> (r: Vec<(u64, Vec<Vec<Cell>>)>)
        requires
            forall|i: int| 0 <= i < frames.len() ==> (#[trigger] frames@[i]).0.wf(),
        ensures
            r.len() == frames.len(),
            forall|i: int|
                0 <= i < frames.len() ==> (#[trigger] r@[i]).0 == frames@[i].1 && is_block_grid(
                    frames@[i].0@,
                    *options,
                    r@[i].1@,
                ),
    {
        let mut out: Vec<(u64, Vec<Vec<Cell>>)> = Vec::new();
        for i in 0..frames.len()
            invariant
                forall|j: int| 0 <= j < frames.len() ==> (#[trigger] frames@[j]).0.wf(),
                out.len() == i,
                forall|j: int|
                    0 <= j < i ==> (#[trigger] out@[j]).0 == frames@[j].1 && is_block_grid(
                        frames@[j].0@,
                        *options,
                        out@[j].1@,
                    ),
        {
            let (img, delay) = &frames[i];
            out.push((*delay, Self::img_exact(options, img)));
        }
        out
    }

    /// Renders every frame of an animation resized to fit `options.size`
    /// cells, keeping each delay; all frames are rendered before returning.
    pub fn animated(options: &BlockOptions, frames: &Vec<(Image, u64)>) -> (r: Vec<(u64, Vec<Vec<Cell>>)>)
        requires
            forall|i: int|
                0 <= i < frames.len() ==> {
                    let img = (#[trigger] frames@[i]).0;
                    &&& img.wf()
                    &&& img.width >= 1
                    &&& img.height >= 1
                    &&& resize_fits(img, BLOCK_CELL, options.size)
                },
        ensures
            r.len() == frames.len(),
            forall|i: int|
                0 <= i < frames.len() ==> (#[trigger] r@[i]).0 == frames@[i].1 && is_block_grid(
                    resized(frames@[i].0@, BLOCK_CELL, options.size),
                    *options,
                    r@[i].1@,
                ),
    {
        let mut out: Vec<(u64, Vec<Vec<Cell>>)> = Vec::new();
        for i in 0..frames.len()
            invariant
                forall|j: int|
                    0 <= j < frames.len() ==> {
                        let img = (#[trigger] frames@[j]).0;
                        &&& img.wf()
                        &&& img.width >= 1
                        &&& img.height >= 1
                        &&& resize_fits(img, BLOCK_CELL, options.size)
                    },
                out.len() == i,
                forall|j: int|
                    0 <= j < i ==> (#[trigger] out@[j]).0 == frames@[j].1 && is_block_grid(
                        resized(frames@[j].0@, BLOCK_CELL, options.size),
                        *options,
                        out@[j].1@,
                    ),
        {
            let (img, delay) = &frames[i];
            out.push((*delay, Self::img(options, img)));
        }
        out
    }
}

proof fn lemma_count_is_popcount(s: Seq<Rgb>, n: int)
    requires
        0 <= n,
    ensures
        count_upto(s, n, true) == hamming_upto(mask_upto(s, n), 0, n as nat),
    decreases n,
{
    if n > 0 {
        lemma_count_is_popcount(s, n - 1);
        let m = mask_upto(s, n - 1);
        let b = if is_fg(s, s[n - 1]) {
            1int
        } else {
            0int
        };
        vstd::arithmetic::div_mod::lemma_fundamental_div_mod_converse(2 * m + b, 2, m, b);
    }
}

/// The foreground count of a 4x8 block is the number of set bits of its bitmask.
pub proof fn lemma_fg_count_is_popcount(s: Seq<Rgb>)
    requires
        s.len() == 32,
    ensures
        analysis_of(s).fg_count == hamming(analysis_of(s).bits, 0),
{
    lemma_count_is_popcount(s, 32);
    lemma_mask_bound(s, 32);
    vstd::arithmetic::power2::lemma2_to64();
    lemma_hamming_bound(mask_upto(s, 32), 0, 32);
}

/// Whether the cell for an analysed block swaps its class colors: the
/// complement of its pattern matched and no shade replaced it.
pub open spec fn cell_swapped(a: CellAnalysis, table: Seq<(u32, char)>, blend: bool) -> bool {
    let m = glyph_match(table, a.bits);
    m.invert && !(blend && m.distance > BLEND_THRESHOLD)
}

/// Glyph choice depends on the bitmask alone: two 4x8 blocks whose bitmasks
/// are equal get the same glyph and the same decision to swap their class
/// colors, whatever their colors are.
pub proof fn lemma_same_bitmask_same_glyph(
    px1: Seq<Rgba>,
    px2: Seq<Rgba>,
    table: Seq<(u32, char)>,
    blend: bool,
    bg: Rgb,
)
    requires
        px1.len() == 32,
        px2.len() == 32,
        analysis_of(premultiplied_all(px1, bg)).bits == analysis_of(premultiplied_all(px2, bg)).bits,
    ensures
        ({
            let a1 = analysis_of(premultiplied_all(px1, bg));
            let a2 = analysis_of(premultiplied_all(px2, bg));
            let c1 = block_pixels_cell(px1, table, blend, bg);
            let c2 = block_pixels_cell(px2, table, blend, bg);
            &&& c1.ch == c2.ch
            &&& cell_swapped(a1, table, blend) == cell_swapped(a2, table, blend)
            &&& c1 == (if cell_swapped(a1, table, blend) {
                Cell { ch: c1.ch, fg: a1.bg, bg: a1.fg }
            } else {
                Cell { ch: c1.ch, fg: a1.fg, bg: a1.bg }
            })
            &&& c2 == (if cell_swapped(a2, table, blend) {
                Cell { ch: c2.ch, fg: a2.bg, bg: a2.fg }
            } else {
                Cell { ch: c2.ch, fg: a2.fg, bg: a2.bg }
            })
        }),
{
    lemma_fg_count_is_popcount(premultiplied_all(px1, bg));
    lemma_fg_count_is_popcount(premultiplied_all(px2, bg));
}

} // verus!
