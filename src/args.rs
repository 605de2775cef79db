//! Parsing of option values.
use vstd::prelude::*;
use vstd::string::StrSliceExecFns;
use crate::color::Rgb;

verus! {

/// Whether a character is an ASCII decimal digit.
pub open spec fn is_digit(c: char) -> bool {
    '0' <= c && c <= '9'
}

/// Whether every character of a string is a decimal digit.
pub open spec fn all_digits(d: Seq<char>) -> bool
    decreases d.len(),
{
    d.len() == 0 || (all_digits(d.drop_last()) && is_digit(d.last()))
}

proof fn lemma_all_digits_prefix(d: Seq<char>, n: int)
    requires
        0 <= n <= d.len(),
        all_digits(d),
    ensures
        all_digits(d.take(n)),
    decreases d.len(),
{
    if n < d.len() {
        assert(d.drop_last().take(n) == d.take(n));
        lemma_all_digits_prefix(d.drop_last(), n);
    } else {
        assert(d.take(n) == d);
    }
}

/// The number that a string of decimal digits denotes.
pub open spec fn digits_value(d: Seq<char>) -> int
    decreases d.len(),
{
    if d.len() == 0 {
        0
    } else {
        10 * digits_value(d.drop_last()) + (d.last() as u32 - 0x30)
    }
}

/// A byte written in decimal, as `u8::from_str` reads it: an optional `+`,
/// then at least one digit, with a value of at most 255.
pub open spec fn parse_u8(s: Seq<char>) -> Option<u8> {
    let d = if s.len() > 0 && s[0] == '+' {
        s.drop_first()
    } else {
        s
    };
    if d.len() > 0 && all_digits(d) && digits_value(d) <= 255 {
        Some(digits_value(d) as u8)
    } else {
        None
    }
}

/// The fields of a string between commas, as `str::split(',')` gives them.
pub open spec fn split_commas(s: Seq<char>) -> Seq<Seq<char>>
    decreases s.len(),
{
    if s.len() == 0 {
        seq![Seq::empty()]
    } else {
        let rest = split_commas(s.drop_last());
        if s.last() == ',' {
            rest.push(Seq::empty())
        } else {
            rest.update(rest.len() - 1, rest.last().push(s.last()))
        }
    }
}

/// The values of the fields that read as bytes, in order; the others are skipped.
pub open spec fn parsed_values(fields: Seq<Seq<char>>) -> Seq<u8>
    decreases fields.len(),
{
    if fields.len() == 0 {
        Seq::empty()
    } else {
        let r = parsed_values(fields.drop_last());
        match parse_u8(fields.last()) {
            Some(v) => r.push(v),
            None => r,
        }
    }
}

/// The color that a comma-separated `R,G,B` value gives: the first three
/// fields that read as bytes; `None` when there are fewer than three.
pub open spec fn rgb_triplet(s: Seq<char>) -> Option<Rgb> {
    let v = parsed_values(split_commas(s));
    if v.len() >= 3 {
        Some(Rgb((v[0], v[1], v[2])))
    } else {
        None
    }
}

/// The value capped just past the byte range.
pub open spec fn capped(x: int) -> int {
    if x > 255 {
        256
    } else {
        x
    }
}

proof fn lemma_split_nonempty(s: Seq<char>)
    ensures
        split_commas(s).len() >= 1,
    decreases s.len(),
{
    if s.len() > 0 {
        lemma_split_nonempty(s.drop_last());
    }
}

proof fn lemma_digits_nonneg(d: Seq<char>)
    requires
        all_digits(d),
    ensures
        digits_value(d) >= 0,
    decreases d.len(),
{
    if d.len() > 0 {
        lemma_digits_nonneg(d.drop_last());
    }
}

/// Reads the characters `s[from..to]` as a byte (see [`parse_u8`]).
fn parse_field(s: &str, from: usize, to: usize) -> (r: Option<u8>)
    requires
        from <= to <= s@.len(),
    ensures
        r == parse_u8(s@.subrange(from as int, to as int)),
{
    let ghost f = s@.subrange(from as int, to as int);
    let mut start = from;
    if from < to && s.get_char(from) == '+' {
        start = from + 1;
    }
    let ghost d = s@.subrange(start as int, to as int);
    assert(d == (if f.len() > 0 && f[0] == '+' { f.drop_first() } else { f }));
    if start == to {
        return None;
    }
    let mut value: u32 = 0;
    let mut k = start;
    while k < to
        invariant
            start <= k <= to <= s@.len(),
            d == s@.subrange(start as int, to as int),
            f == s@.subrange(from as int, to as int),
            d == (if f.len() > 0 && f[0] == '+' { f.drop_first() } else { f }),
            from <= start,
            all_digits(d.take(k - start)),
            value == capped(digits_value(d.take(k - start))),
        decreases to - k,
    {
        let c = s.get_char(k);
        if c < '0' || c > '9' {
            let ghost next = d.take(k - start + 1);
            assert(next.drop_last() == d.take(k - start));
            assert(next.last() == c);
            proof {
                if all_digits(d) {
                    lemma_all_digits_prefix(d, k - start + 1);
                }
            }
            return None;
        }
        let ghost prefix = d.take(k - start);
        let ghost next = d.take(k - start + 1);
        assert(next.drop_last() == prefix);
        assert(next.last() == c);
        proof {
            lemma_digits_nonneg(prefix);
        }
        let digit = (c as u32) - 0x30;
        value = if value > 255 { 256 } else if value * 10 + digit > 255 { 256 } else { value * 10 + digit };
        k = k + 1;
    }
    assert(d.take(to - start) == d);
    if value > 255 {
        None
    } else {
        Some(value as u8)
    }
}

/// Reads a comma-separated `R,G,B` color: the first three fields that read
/// as bytes, skipping the others; `None` when fewer than three do.
pub fn parse_rgb_triplet(v: &str) -> (r: Option<Rgb>)
    ensures
        r == rgb_triplet(v@),
{
    let n = v.unicode_len();
    let mut values: Vec<u8> = Vec::new();
    let mut start: usize = 0;
    for i in 0..n
        invariant
            n == v@.len(),
            start <= i,
            split_commas(v@.take(i as int)).len() >= 1,
            values@ == parsed_values(split_commas(v@.take(i as int)).drop_last()),
            split_commas(v@.take(i as int)).last() == v@.subrange(start as int, i as int),
    {
        let ghost before = split_commas(v@.take(i as int));
        let ghost after = split_commas(v@.take(i + 1));
        assert(v@.take(i + 1).drop_last() == v@.take(i as int));
        if v.get_char(i) == ',' {
            let field = parse_field(v, start, i);
            assert(after == before.push(Seq::empty()));
            assert(after.drop_last() == before);
            assert(before == before.drop_last().push(before.last()));
            if let Some(x) = field {
                values.push(x);
            }
            start = i + 1;
            assert(after.last() =~= v@.subrange(start as int, i + 1));
        } else {
            assert(after == before.update(before.len() - 1, before.last().push(v@[i as int])));
            assert(after.drop_last() =~= before.drop_last());
            assert(after.last() =~= v@.subrange(start as int, i + 1));
        }
    }
    assert(v@.take(n as int) == v@);
    let ghost fields = split_commas(v@);
    let last = parse_field(v, start, n);
    assert(fields == fields.drop_last().push(fields.last()));
    if let Some(x) = last {
        values.push(x);
    }
    if values.len() >= 3 {
        Some(Rgb((values[0], values[1], values[2])))
    } else {
        None
    }
}

} // verus!
