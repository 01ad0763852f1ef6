use vstd::prelude::*;
use crate::color::Color;
use crate::palette::{dedup_palette, dedup_spec};

verus! {

/// Whether byte `i` of `s` ends a token: a space, a line feed, or the
/// carriage return of a `\r\n` line ending.
pub open spec fn is_separator(s: Seq<u8>, i: int) -> bool {
    s[i] == 0x20u8 || s[i] == 0x0au8 || (s[i] == 0x0du8 && i + 1 < s.len() && s[i + 1] == 0x0au8)
}

/// The tokens completed within the first `n` bytes, and where the open token starts.
pub open spec fn scan(s: Seq<u8>, n: int) -> (Seq<Seq<u8>>, int)
    decreases n,
{
    if n <= 0 {
        (Seq::empty(), 0)
    } else {
        let (toks, start) = scan(s, n - 1);
        if is_separator(s, n - 1) {
            (toks.push(s.subrange(start, n - 1)), n)
        } else {
            (toks, start)
        }
    }
}

/// The text split into tokens at every separator.
pub open spec fn tokens(s: Seq<u8>) -> Seq<Seq<u8>> {
    let (toks, start) = scan(s, s.len() as int);
    toks.push(s.subrange(start, s.len() as int))
}

/// Index of the last `#` among the first `n` bytes of `t`, or -1.
pub open spec fn last_hash(t: Seq<u8>, n: int) -> int
    decreases n,
{
    if n <= 0 {
        -1
    } else if t[n - 1] == 0x23u8 {
        n - 1
    } else {
        last_hash(t, n - 1)
    }
}

/// The text after the last `#` of a token, when there is a `#` and text after it.
pub open spec fn hex_field(t: Seq<u8>) -> Option<Seq<u8>> {
    let k = last_hash(t, t.len() as int);
    if k >= 0 && k + 1 < t.len() {
        Some(t.subrange(k + 1, t.len() as int))
    } else {
        None
    }
}

pub open spec fn is_hex_digit(b: u8) -> bool {
    (0x30 <= b <= 0x39) || (0x41 <= b <= 0x46) || (0x61 <= b <= 0x66)
}

pub open spec fn digit_value(b: u8) -> int {
    if 0x30 <= b <= 0x39 {
        b - 0x30
    } else if 0x41 <= b <= 0x46 {
        b - 0x41 + 10
    } else if 0x61 <= b <= 0x66 {
        b - 0x61 + 10
    } else {
        0
    }
}

/// The number that a string of hexadecimal digits denotes.
pub open spec fn hex_value(d: Seq<u8>) -> int
    decreases d.len(),
{
    if d.len() == 0 {
        0
    } else {
        16 * hex_value(d.drop_last()) + digit_value(d.last())
    }
}

/// The digits of a number field: the field without a leading `+`.
pub open spec fn hex_digits(f: Seq<u8>) -> Seq<u8> {
    if f.len() > 0 && f[0] == 0x2bu8 {
        f.drop_first()
    } else {
        f
    }
}

pub open spec fn all_hex(d: Seq<u8>) -> bool {
    forall|i: int| 0 <= i < d.len() ==> is_hex_digit(#[trigger] d[i])
}

/// Base-16 reading of an unsigned 32-bit number: an optional `+`, then one or
/// more hexadecimal digits of either case, with a value that fits in 32 bits.
pub open spec fn parse_hex_spec(f: Seq<u8>) -> Option<u32> {
    let d = hex_digits(f);
    if d.len() > 0 && all_hex(d) && hex_value(d) <= u32::MAX {
        Some(hex_value(d) as u32)
    } else {
        None
    }
}

/// The color packed as `0xRRGGBB` in the low 24 bits of `v`.
pub open spec fn color_of_value(v: u32) -> Color {
    Color { r: ((v / 0x10000) % 0x100) as u8, g: ((v / 0x100) % 0x100) as u8, b: (v % 0x100) as u8 }
}

/// The colors named by the first `n` tokens in order, or `None` if one of
/// their hex fields does not read as a number.
pub open spec fn colors_of_tokens(toks: Seq<Seq<u8>>, n: int) -> Option<Seq<Color>>
    decreases n,
{
    if n <= 0 {
        Some(Seq::empty())
    } else {
        match colors_of_tokens(toks, n - 1) {
            None => None,
            Some(cs) => match hex_field(toks[n - 1]) {
                None => Some(cs),
                Some(f) => match parse_hex_spec(f) {
                    None => None,
                    Some(v) => Some(cs.push(color_of_value(v))),
                },
            },
        }
    }
}

/// The palette that Xresources-style text names.
pub open spec fn decode_spec(s: Seq<u8>) -> Option<Seq<Color>> {
    match colors_of_tokens(tokens(s), tokens(s).len() as int) {
        None => None,
        Some(cs) => Some(dedup_spec(cs)),
    }
}

/// Extending the token list leaves the colors of its first `n` tokens as they were.
proof fn lemma_colors_prefix(toks: Seq<Seq<u8>>, t: Seq<u8>, n: int)
    requires
        0 <= n <= toks.len(),
    ensures
        colors_of_tokens(toks.push(t), n) == colors_of_tokens(toks, n),
    decreases n,
{
    if n > 0 {
        lemma_colors_prefix(toks, t, n - 1);
        assert(toks.push(t)[n - 1] == toks[n - 1]);
    }
}

proof fn lemma_hex_monotone(d: Seq<u8>, j: int)
    requires
        0 <= j <= d.len(),
    ensures
        hex_value(d.take(j)) <= hex_value(d),
    decreases d.len(),
{
    if j == d.len() {
        assert(d.take(j) =~= d);
    } else {
        lemma_hex_value_nonneg(d.drop_last());
        lemma_hex_monotone(d.drop_last(), j);
        assert(d.drop_last().take(j) =~= d.take(j));
    }
}

proof fn lemma_hex_value_nonneg(d: Seq<u8>)
    ensures
        hex_value(d) >= 0,
    decreases d.len(),
{
    if d.len() > 0 {
        lemma_hex_value_nonneg(d.drop_last());
    }
}

proof fn lemma_last_hash_range(t: Seq<u8>, n: int)
    ensures
        -1 <= last_hash(t, n) < if n > 0 { n } else { 0 },
    decreases n,
{
    if n > 0 {
        lemma_last_hash_range(t, n - 1);
    }
}

fn hex_digit(b: u8) -> (r: Option<u8>)
    ensures
        r is Some <==> is_hex_digit(b),
        r is Some ==> r->0 == digit_value(b),
{
    if 0x30 <= b && b <= 0x39 {
        Some(b - 0x30)
    } else if 0x41 <= b && b <= 0x46 {
        Some(b - 0x41 + 10)
    } else if 0x61 <= b && b <= 0x66 {
        Some(b - 0x61 + 10)
    } else {
        None
    }
}

/// Reads `s[start..end]` as an unsigned 32-bit number in base 16.
pub fn parse_hex(s: &[u8], start: usize, end: usize) -> (r: Option<u32>)
    requires
        start <= end <= s@.len(),
    ensures
        r == parse_hex_spec(s@.subrange(start as int, end as int)),
{
    let ghost f = s@.subrange(start as int, end as int);
    let mut i = start;
    if i < end && s[i] == 0x2b {
        assert(f[0] == s@[start as int]);
        i = i + 1;
        assert(f.drop_first() =~= s@.subrange(i as int, end as int));
    } else {
        proof {
            if f.len() > 0 {
                assert(f[0] == s@[start as int]);
            }
        }
        assert(f =~= s@.subrange(i as int, end as int));
    }
    let ghost d = s@.subrange(i as int, end as int);
    assert(d == hex_digits(f));
    if i == end {
        return None;
    }
    let mut acc: u64 = 0;
    let mut k = i;
    while k < end
        invariant
            i <= k <= end <= s@.len(),
            d == s@.subrange(i as int, end as int),
            f == s@.subrange(start as int, end as int),
            d == hex_digits(f),
            acc == hex_value(d.take(k - i)),
            acc <= u32::MAX,
            forall|m: int| 0 <= m < k - i ==> is_hex_digit(#[trigger] d[m]),
        decreases end - k,
    {
        proof {
            assert(d.take(k - i + 1).drop_last() =~= d.take(k - i));
            assert(d[k - i] == s@[k as int]);
        }
        match hex_digit(s[k]) {
            None => {
                assert(!is_hex_digit(d[k - i]));
                assert(!all_hex(d));
                return None;
            },
            Some(v) => {
                acc = acc * 16 + v as u64;
                assert(acc == hex_value(d.take(k - i + 1)));
                if acc > 0xffff_ffff {
                    proof {
                        lemma_hex_monotone(d, k - i + 1);
                    }
                    return None;
                }
            },
        }
        k = k + 1;
    }
    assert(d.take(k - i) =~= d);
    Some(acc as u32)
}

/// Index of the last `#` in `s[start..end]`, if any.
fn find_last_hash(s: &[u8], start: usize, end: usize) -> (r: Option<usize>)
    requires
        start <= end <= s@.len(),
    ensures
        ({
            let t = s@.subrange(start as int, end as int);
            let k = last_hash(t, t.len() as int);
            &&& r is None <==> k < 0
            &&& r is Some ==> r->0 - start == k && start <= r->0 < end
        }),
{
    let ghost t = s@.subrange(start as int, end as int);
    proof {
        lemma_last_hash_range(t, t.len() as int);
    }
    let mut j = end;
    while j > start
        invariant
            start <= j <= end <= s@.len(),
            t == s@.subrange(start as int, end as int),
            last_hash(t, t.len() as int) == last_hash(t, j - start),
        decreases j - start,
    {
        assert(t[j - 1 - start] == s@[j - 1]);
        if s[j - 1] == 0x23 {
            return Some(j - 1);
        }
        j = j - 1;
    }
    None
}

/// The color that the token `s[start..end]` names: `Ok(None)` for a token
/// without a hex field, `Err` for a field that does not read as a number.
fn token_color(s: &[u8], start: usize, end: usize) -> (r: Result<Option<Color>, ()>)
    requires
        start <= end <= s@.len(),
    ensures
        ({
            let t = s@.subrange(start as int, end as int);
            match hex_field(t) {
                None => r == Ok::<Option<Color>, ()>(None),
                Some(f) => match parse_hex_spec(f) {
                    None => r is Err,
                    Some(v) => r == Ok::<Option<Color>, ()>(Some(color_of_value(v))),
                },
            }
        }),
{
    let ghost t = s@.subrange(start as int, end as int);
    match find_last_hash(s, start, end) {
        None => Ok(None),
        Some(k) => {
            if k + 1 >= end {
                return Ok(None);
            }
            assert(t.subrange(k - start + 1, t.len() as int) =~= s@.subrange(k + 1, end as int));
            match parse_hex(s, k + 1, end) {
                None => Err(()),
                Some(v) => Ok(Some(Color {
                    r: ((v / 0x10000) % 0x100) as u8,
                    g: ((v / 0x100) % 0x100) as u8,
                    b: (v % 0x100) as u8,
                })),
            }
        },
    }
}

/// Reads a palette from Xresources-style text (`*.color0: #1d2b53` lines, as
/// `xrdb -query` prints them or pywal writes them): every token that holds a
/// `#` followed by text names the color `0xRRGGBB` that the text after its last
/// `#` denotes in base 16. Repeated colors are dropped, first occurrences kept
/// in order. `None` when such a text is not a base-16 number that fits in 32 bits.
pub fn decode_xresources(contents: &[u8]) -> (r: Option<Vec<Color>>)
    ensures
        r is None <==> decode_spec(contents@) is None,
        r is Some ==> decode_spec(contents@) == Some(r->0@),
{
    let len = contents.len();
    let ghost s = contents@;
    let ghost mut toks: Seq<Seq<u8>> = Seq::empty();
    let mut colors: Vec<Color> = Vec::new();
    let mut failed = false;
    let mut start: usize = 0;
    let mut i: usize = 0;
    while i < len
        invariant
            s == contents@,
            len == s.len(),
            start <= i <= len,
            scan(s, i as int) == (toks, start as int),
            failed ==> colors_of_tokens(toks, toks.len() as int) is None,
            !failed ==> colors_of_tokens(toks, toks.len() as int) == Some(colors@),
        decreases len - i,
    {
        let sep = contents[i] == 0x20 || contents[i] == 0x0a || (contents[i] == 0x0d && i + 1 < len
            && contents[i + 1] == 0x0a);
        if sep {
            let t = token_color(contents, start, i);
            proof {
                let tok = s.subrange(start as int, i as int);
                lemma_colors_prefix(toks, tok, toks.len() as int);
                toks = toks.push(tok);
            }
            match t {
                Err(_) => {
                    failed = true;
                },
                Ok(None) => {},
                Ok(Some(c)) => {
                    colors.push(c);
                },
            }
            start = i + 1;
        }
        i = i + 1;
    }
    let t = token_color(contents, start, len);
    proof {
        let tok = s.subrange(start as int, len as int);
        lemma_colors_prefix(toks, tok, toks.len() as int);
        toks = toks.push(tok);
        assert(toks == tokens(s));
    }
    match t {
        Err(_) => {
            failed = true;
        },
        Ok(None) => {},
        Ok(Some(c)) => {
            colors.push(c);
        },
    }
    if failed {
        None
    } else {
        Some(dedup_palette(&colors))
    }
}

} // verus!
