use vstd::prelude::*;
use vstd::seq_lib::{to_multiset_contains, to_multiset_len, to_multiset_remove};
use vstd::arithmetic::div_mod::{lemma_div_by_multiple, lemma_div_is_ordered};
use vstd::arithmetic::div_mod::lemma_fundamental_div_mod_converse;
use crate::color::Color;
use crate::grid::PixelGrid;

verus! {

/// Sum of channel `ch` over a sequence of colors.
pub open spec fn channel_sum(s: Seq<Color>, ch: int) -> int
    decreases s.len(),
{
    if s.len() == 0 {
        0
    } else {
        channel_sum(s.drop_last(), ch) + s.last().channel(ch)
    }
}

/// Channel-wise mean of a non-empty sequence of colors, by truncating division.
pub open spec fn mean_color(s: Seq<Color>) -> Color {
    Color {
        r: (channel_sum(s, 0) / s.len() as int) as u8,
        g: (channel_sum(s, 1) / s.len() as int) as u8,
        b: (channel_sum(s, 2) / s.len() as int) as u8,
    }
}

pub proof fn lemma_channel_sum_bounds(s: Seq<Color>, ch: int)
    ensures
        0 <= channel_sum(s, ch) <= 255 * s.len(),
    decreases s.len(),
{
    if s.len() > 0 {
        lemma_channel_sum_bounds(s.drop_last(), ch);
    }
}

/// The mean of a channel sum stays within a channel's range.
pub proof fn lemma_mean_fits(s: Seq<Color>, ch: int)
    requires
        s.len() > 0,
    ensures
        0 <= channel_sum(s, ch) / s.len() as int <= 255,
{
    lemma_channel_sum_bounds(s, ch);
    lemma_div_is_ordered(channel_sum(s, ch), 255 * s.len() as int, s.len() as int);
    lemma_div_by_multiple(255, s.len() as int);
    lemma_div_is_ordered(0, channel_sum(s, ch), s.len() as int);
}

/// Taking out the entry at `k` takes its channel value off the sum.
proof fn lemma_channel_sum_remove(s: Seq<Color>, k: int, ch: int)
    requires
        0 <= k < s.len(),
    ensures
        channel_sum(s, ch) == channel_sum(s.remove(k), ch) + s[k].channel(ch),
    decreases s.len(),
{
    if k == s.len() - 1 {
        assert(s.remove(k) =~= s.drop_last());
    } else {
        lemma_channel_sum_remove(s.drop_last(), k, ch);
        assert(s.remove(k).drop_last() =~= s.drop_last().remove(k));
        assert(s.remove(k).last() == s.last());
    }
}

/// A channel sum depends only on the multiset of colors, not on their order.
pub proof fn lemma_channel_sum_multiset(s1: Seq<Color>, s2: Seq<Color>, ch: int)
    requires
        s1.to_multiset() == s2.to_multiset(),
    ensures
        channel_sum(s1, ch) == channel_sum(s2, ch),
    decreases s1.len(),
{
    to_multiset_len(s1);
    to_multiset_len(s2);
    if s1.len() > 0 {
        let x = s1.last();
        let t1 = s1.drop_last();
        assert(s1.remove(s1.len() - 1) =~= t1);
        to_multiset_remove(s1, s1.len() - 1);
        to_multiset_contains(s1, x);
        assert(s1[s1.len() - 1] == x);
        to_multiset_contains(s2, x);
        let k = choose|k: int| 0 <= k < s2.len() && s2[k] == x;
        to_multiset_remove(s2, k);
        lemma_channel_sum_multiset(t1, s2.remove(k), ch);
        lemma_channel_sum_remove(s2, k, ch);
    }
}

/// The average of a non-empty collection of colors does not depend on the
/// order in which they were gathered: two sequences holding the same multiset
/// of colors have the same mean.
pub proof fn lemma_mean_order_independent(s1: Seq<Color>, s2: Seq<Color>)
    requires
        s1.to_multiset() == s2.to_multiset(),
        s1.len() > 0,
    ensures
        mean_color(s1) == mean_color(s2),
{
    to_multiset_len(s1);
    to_multiset_len(s2);
    lemma_channel_sum_multiset(s1, s2, 0);
    lemma_channel_sum_multiset(s1, s2, 1);
    lemma_channel_sum_multiset(s1, s2, 2);
}

/// Turns a channel sum over `n` samples into the mean channel value.
fn mean_channel(sum: u128, n: u128, Ghost(s): Ghost<Seq<Color>>, Ghost(ch): Ghost<int>) -> (v: u8)
    requires
        n > 0,
        n == s.len(),
        sum == channel_sum(s, ch),
    ensures
        v == channel_sum(s, ch) / s.len() as int,
{
    proof {
        lemma_mean_fits(s, ch);
    }
    (sum / n) as u8
}

/// Channel-wise average of a non-empty list of colors, using truncating division.
pub fn average_color(pixels: &Vec<Color>) -> (c: Color)
    requires
        pixels@.len() > 0,
    ensures
        c == mean_color(pixels@),
{
    let mut r: u128 = 0;
    let mut g: u128 = 0;
    let mut b: u128 = 0;
    let mut i: usize = 0;
    while i < pixels.len()
        invariant
            i <= pixels@.len(),
            r == channel_sum(pixels@.take(i as int), 0),
            g == channel_sum(pixels@.take(i as int), 1),
            b == channel_sum(pixels@.take(i as int), 2),
        decreases pixels@.len() - i,
    {
        let ghost prev = pixels@.take(i as int);
        proof {
            lemma_channel_sum_bounds(prev, 0);
            lemma_channel_sum_bounds(prev, 1);
            lemma_channel_sum_bounds(prev, 2);
            assert(pixels@.take(i + 1).drop_last() =~= prev);
        }
        let p = pixels[i];
        r = r + p.r as u128;
        g = g + p.g as u128;
        b = b + p.b as u128;
        i = i + 1;
    }
    assert(pixels@.take(i as int) =~= pixels@);
    let n = pixels.len() as u128;
    Color {
        r: mean_channel(r, n, Ghost(pixels@), Ghost(0)),
        g: mean_channel(g, n, Ghost(pixels@), Ghost(1)),
        b: mean_channel(b, n, Ghost(pixels@), Ghost(2)),
    }
}

/// `v` clamped into `0..dim`.
pub open spec fn clamp_coord(v: int, dim: int) -> int {
    if v < 0 {
        0
    } else if v >= dim {
        dim - 1
    } else {
        v
    }
}

/// The colors sampled around `(x, y)`: offsets `-radius <= d < radius` on each
/// axis, rows outer and columns inner, each coordinate clamped into the grid.
pub open spec fn window_samples(g: PixelGrid, x: int, y: int, radius: int) -> Seq<Color> {
    let side = 2 * radius;
    Seq::new(
        (side * side) as nat,
        |k: int|
            g.pixel_spec(
                clamp_coord(x - radius + k % side, g.width as int),
                clamp_coord(y - radius + k / side, g.height as int),
            ),
    )
}

/// For a positive radius the sample window of any coordinate of a non-empty
/// grid is non-empty, and every clamped sample coordinate lies in the grid.
pub proof fn lemma_window_nonempty(g: PixelGrid, x: int, y: int, radius: int)
    requires
        g.width >= 1,
        g.height >= 1,
        0 <= x < g.width,
        0 <= y < g.height,
        radius > 0,
    ensures
        window_samples(g, x, y, radius).len() > 0,
        forall|k: int|
            #![trigger window_samples(g, x, y, radius)[k]]
            0 <= k < window_samples(g, x, y, radius).len() ==> {
                let side = 2 * radius;
                &&& 0 <= clamp_coord(x - radius + k % side, g.width as int) < g.width
                &&& 0 <= clamp_coord(y - radius + k / side, g.height as int) < g.height
            },
{
    assert((2 * radius) * (2 * radius) > 0) by (nonlinear_arith)
        requires
            radius > 0,
    ;
}

/// Clamps a signed coordinate into `0..dim`.
fn clamp_index(v: i64, dim: u32) -> (r: u32)
    requires
        dim > 0,
    ensures
        r == clamp_coord(v as int, dim as int),
{
    if v < 0 {
        0
    } else if v >= dim as i64 {
        dim - 1
    } else {
        v as u32
    }
}

/// Box average of the colors around `(x, y)`, see `window_samples`.
pub fn box_average(grid: &PixelGrid, x: u32, y: u32, radius: u32) -> (c: Color)
    requires
        grid.wf(),
        x < grid.width,
        y < grid.height,
        radius > 0,
    ensures
        c == mean_color(window_samples(*grid, x as int, y as int, radius as int)),
{
    let ghost samples = window_samples(*grid, x as int, y as int, radius as int);
    let side: u64 = 2 * (radius as u64);
    let mut sr: u128 = 0;
    let mut sg: u128 = 0;
    let mut sb: u128 = 0;
    let mut i: u64 = 0;
    assert(samples.take(0) =~= Seq::<Color>::empty());
    while i < side
        invariant
            grid.wf(),
            x < grid.width,
            y < grid.height,
            side == 2 * radius,
            radius > 0,
            samples == window_samples(*grid, x as int, y as int, radius as int),
            i <= side,
            sr == channel_sum(samples.take(i * side), 0),
            sg == channel_sum(samples.take(i * side), 1),
            sb == channel_sum(samples.take(i * side), 2),
        decreases side - i,
    {
        let yy = clamp_index(y as i64 - radius as i64 + i as i64, grid.height);
        let mut j: u64 = 0;
        while j < side
            invariant
                grid.wf(),
                x < grid.width,
                y < grid.height,
                side == 2 * radius,
                radius > 0,
                samples == window_samples(*grid, x as int, y as int, radius as int),
                i < side,
                j <= side,
                yy == clamp_coord(y - radius + i, grid.height as int),
                sr == channel_sum(samples.take(i * side + j), 0),
                sg == channel_sum(samples.take(i * side + j), 1),
                sb == channel_sum(samples.take(i * side + j), 2),
            decreases side - j,
        {
            let xx = clamp_index(x as i64 - radius as i64 + j as i64, grid.width);
            let p = grid.get(xx, yy);
            let ghost k = i * side + j;
            proof {
                assert(k < side * side && side * side <= 0x4_0000_0000int * 0x4_0000_0000int)
                    by (nonlinear_arith)
                    requires
                        k == i * side + j,
                        i < side,
                        j < side,
                        side <= 0x2_0000_0000int,
                ;
                lemma_fundamental_div_mod_converse(k, side as int, i as int, j as int);
                assert(samples[k] == p);
                assert(samples.take(k + 1).drop_last() =~= samples.take(k));
                lemma_channel_sum_bounds(samples.take(k), 0);
                lemma_channel_sum_bounds(samples.take(k), 1);
                lemma_channel_sum_bounds(samples.take(k), 2);
            }
            sr = sr + p.r as u128;
            sg = sg + p.g as u128;
            sb = sb + p.b as u128;
            j = j + 1;
        }
        assert(i * side + side == (i + 1) * side) by (nonlinear_arith);
        i = i + 1;
    }
    assert(samples.take(side * side) =~= samples);
    assert(0 < side * side <= 0x4_0000_0000int * 0x4_0000_0000int) by (nonlinear_arith)
        requires
            0 < side <= 0x2_0000_0000int,
    ;
    let n = (side as u128) * (side as u128);
    Color {
        r: mean_channel(sr, n, Ghost(samples), Ghost(0)),
        g: mean_channel(sg, n, Ghost(samples), Ghost(1)),
        b: mean_channel(sb, n, Ghost(samples), Ghost(2)),
    }
}

} // verus!
