use vstd::prelude::*;
use crate::color::{color_difference, distance_spec, Color};

verus! {

/// Index of the first entry among the first `n` of `p` closest to `c`: a later
/// entry replaces the running best only when strictly closer.
pub open spec fn best_index(c: Color, p: Seq<Color>, n: int) -> int
    decreases n,
{
    if n <= 1 {
        0
    } else {
        let b = best_index(c, p, n - 1);
        if distance_spec(c, p[n - 1]) < distance_spec(c, p[b]) {
            n - 1
        } else {
            b
        }
    }
}

/// The palette entry that nearest-color matching picks for `c`.
pub open spec fn nearest_spec(c: Color, p: Seq<Color>) -> Color {
    p[best_index(c, p, p.len() as int)]
}

/// Among the first `n` entries, `best_index` is the earliest one of minimum distance.
pub proof fn lemma_best_index(c: Color, p: Seq<Color>, n: int)
    requires
        1 <= n <= p.len(),
    ensures
        0 <= best_index(c, p, n) < n,
        forall|j: int|
            0 <= j < n ==> distance_spec(c, p[best_index(c, p, n)]) <= #[trigger] distance_spec(
                c,
                p[j],
            ),
        forall|j: int|
            0 <= j < best_index(c, p, n) ==> distance_spec(c, p[best_index(c, p, n)])
                < #[trigger] distance_spec(c, p[j]),
    decreases n,
{
    if n > 1 {
        lemma_best_index(c, p, n - 1);
    }
}

/// The matched color is a palette entry of minimum distance to `c`, and no
/// earlier entry is as close: ties go to the first entry in palette order.
pub proof fn lemma_match_correct(c: Color, p: Seq<Color>)
    requires
        p.len() > 0,
    ensures
        exists|k: int|
            0 <= k < p.len() && nearest_spec(c, p) == p[k] && (forall|j: int|
                0 <= j < k ==> distance_spec(c, p[k]) < #[trigger] distance_spec(c, p[j])),
        forall|j: int|
            0 <= j < p.len() ==> distance_spec(c, nearest_spec(c, p)) <= #[trigger] distance_spec(
                c,
                p[j],
            ),
{
    lemma_best_index(c, p, p.len() as int);
    let k = best_index(c, p, p.len() as int);
    assert(0 <= k < p.len() && nearest_spec(c, p) == p[k]);
}

/// The palette entry closest to `color`; the first such entry wins ties.
pub fn nearest_color(color: Color, palette: &Vec<Color>) -> (m: Color)
    requires
        palette@.len() > 0,
    ensures
        m == nearest_spec(color, palette@),
{
    let mut best: Color = palette[0];
    let mut best_dist: u32 = color_difference(color, best);
    let mut i: usize = 1;
    while i < palette.len()
        invariant
            1 <= i <= palette@.len(),
            best == palette@[best_index(color, palette@, i as int)],
            best_dist == distance_spec(color, best),
        decreases palette@.len() - i,
    {
        let d = color_difference(color, palette[i]);
        if d < best_dist {
            best = palette[i];
            best_dist = d;
        }
        i = i + 1;
    }
    best
}

} // verus!
