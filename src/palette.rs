use vstd::prelude::*;
use crate::color::Color;

verus! {

/// `s` with every repeated color dropped, first occurrences kept in order.
pub open spec fn dedup_spec(s: Seq<Color>) -> Seq<Color>
    decreases s.len(),
{
    if s.len() == 0 {
        Seq::empty()
    } else {
        let d = dedup_spec(s.drop_last());
        if d.contains(s.last()) {
            d
        } else {
            d.push(s.last())
        }
    }
}

/// The deduplicated sequence holds the same colors, each exactly once.
pub proof fn lemma_dedup_props(s: Seq<Color>)
    ensures
        dedup_spec(s).no_duplicates(),
        forall|c: Color| dedup_spec(s).contains(c) <==> s.contains(c),
    decreases s.len(),
{
    if s.len() > 0 {
        let t = s.drop_last();
        lemma_dedup_props(t);
        assert forall|c: Color| s.contains(c) <==> (t.contains(c) || c == s.last()) by {
            if s.contains(c) {
                let k = choose|k: int| 0 <= k < s.len() && s[k] == c;
                if k < s.len() - 1 {
                    assert(t[k] == c);
                }
            }
            if t.contains(c) {
                let k = choose|k: int| 0 <= k < t.len() && t[k] == c;
                assert(s[k] == c);
            }
            if c == s.last() {
                assert(s[s.len() - 1] == c);
            }
        }
        let d = dedup_spec(t);
        if !d.contains(s.last()) {
            assert forall|c: Color| d.push(s.last()).contains(c) <==> (d.contains(c) || c == s.last()) by {
                if d.push(s.last()).contains(c) {
                    let k = choose|k: int| 0 <= k < d.len() + 1 && d.push(s.last())[k] == c;
                    if k < d.len() {
                        assert(d[k] == c);
                    }
                }
                if d.contains(c) {
                    let k = choose|k: int| 0 <= k < d.len() && d[k] == c;
                    assert(d.push(s.last())[k] == c);
                }
                if c == s.last() {
                    assert(d.push(s.last())[d.len() as int] == c);
                }
            }
        }
    }
}

/// Drops repeated colors, keeping each first occurrence in its place, so that
/// tie-breaking in matching follows the order the colors were given in.
pub fn dedup_palette(colors: &Vec<Color>) -> (p: Vec<Color>)
    ensures
        p@ == dedup_spec(colors@),
        p@.no_duplicates(),
        forall|c: Color| p@.contains(c) <==> colors@.contains(c),
{
    let mut out: Vec<Color> = Vec::new();
    let mut i: usize = 0;
    while i < colors.len()
        invariant
            i <= colors@.len(),
            out@ == dedup_spec(colors@.take(i as int)),
        decreases colors@.len() - i,
    {
        let c = colors[i];
        let mut seen = false;
        let mut j: usize = 0;
        while j < out.len()
            invariant
                j <= out@.len(),
                seen <==> out@.take(j as int).contains(c),
            decreases out@.len() - j,
        {
            proof {
                let t1 = out@.take(j + 1);
                assert(t1 =~= out@.take(j as int).push(out@[j as int]));
                if out@[j as int] == c {
                    assert(t1[j as int] == c);
                }
                if out@.take(j as int).contains(c) {
                    let k = choose|k: int| 0 <= k < j && out@.take(j as int)[k] == c;
                    assert(t1[k] == c);
                }
                if t1.contains(c) {
                    let k = choose|k: int| 0 <= k < t1.len() && t1[k] == c;
                    if k < j {
                        assert(out@.take(j as int)[k] == c);
                    }
                }
            }
            if out[j] == c {
                seen = true;
            }
            j = j + 1;
        }
        proof {
            assert(out@.take(j as int) =~= out@);
            assert(colors@.take(i + 1).drop_last() =~= colors@.take(i as int));
        }
        if !seen {
            out.push(c);
        }
        i = i + 1;
    }
    proof {
        assert(colors@.take(i as int) =~= colors@);
        lemma_dedup_props(colors@);
    }
    out
}

} // verus!
