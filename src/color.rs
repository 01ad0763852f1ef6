use vstd::prelude::*;

verus! {

/// An RGB color with 8-bit channels.
#[derive(Clone, Copy, Debug, PartialEq, Eq, Structural, Hash)]
pub struct Color {
    pub r: u8,
    pub g: u8,
    pub b: u8,
}

/// Absolute difference of two channel values.
pub open spec fn abs_diff(x: u8, y: u8) -> int {
    if x >= y {
        x - y
    } else {
        y - x
    }
}

/// L1 (Manhattan) distance between two colors in raw channel space.
pub open spec fn distance_spec(a: Color, b: Color) -> int {
    abs_diff(a.r, b.r) + abs_diff(a.g, b.g) + abs_diff(a.b, b.b)
}

impl Color {
    pub fn new(r: u8, g: u8, b: u8) -> (c: Color)
        ensures
            c == (Color { r, g, b }),
    {
        Color { r, g, b }
    }

    /// The value of channel `ch` (0 red, 1 green, 2 blue).
    pub open spec fn channel(self, ch: int) -> int {
        if ch == 0 {
            self.r as int
        } else if ch == 1 {
            self.g as int
        } else {
            self.b as int
        }
    }
}

fn channel_difference(x: u8, y: u8) -> (d: u32)
    ensures
        d == abs_diff(x, y),
{
    if x >= y {
        (x - y) as u32
    } else {
        (y - x) as u32
    }
}

/// Sum over the three channels of the absolute channel difference.
pub fn color_difference(a: Color, b: Color) -> (d: u32)
    ensures
        d == distance_spec(a, b),
        d <= 765,
{
    channel_difference(a.r, b.r) + channel_difference(a.g, b.g) + channel_difference(a.b, b.b)
}

/// The metric is symmetric: `distance(a, b) == distance(b, a)`.
pub proof fn lemma_distance_symmetric(a: Color, b: Color)
    ensures
        distance_spec(a, b) == distance_spec(b, a),
{
}

/// A color is at distance zero from itself.
pub proof fn lemma_distance_zero_identity(a: Color)
    ensures
        distance_spec(a, a) == 0,
{
}

/// Every distance lies in `0..=765`.
pub proof fn lemma_distance_range(a: Color, b: Color)
    ensures
        0 <= distance_spec(a, b) <= 765,
{
}

} // verus!
