use vstd::prelude::*;

use crate::color::Color;

verus! {

/// How many dominant colors are reported at most.
pub const TOP_COLORS: usize = 5;

/// How many times `c` occurs in `s`.
pub open spec fn occurrences(s: Seq<Color>, c: Color) -> nat
    decreases s.len(),
{
    if s.len() == 0 {
        0
    } else {
        occurrences(s.drop_last(), c) + if s.last() == c {
            1nat
        } else {
            0nat
        }
    }
}

/// `top` lists distinct colors of `s` by non-increasing frequency, at most five of
/// them, and no color left out occurs more often than one listed; a color is left
/// out only when five are listed.
#[verifier::opaque]
pub open spec fn is_dominant_ranking(s: Seq<Color>, top: Seq<Color>) -> bool {
    &&& top.len() <= TOP_COLORS
    &&& forall|i: int| 0 <= i < top.len() ==> occurrences(s, #[trigger] top[i]) > 0
    &&& forall|i: int, j: int| 0 <= i < j < top.len() ==> top[i] != top[j]
    &&& forall|i: int, j: int|
        0 <= i < j < top.len() ==> occurrences(s, #[trigger] top[i]) >= occurrences(
            s,
            #[trigger] top[j],
        )
    &&& forall|c: Color|
        #![trigger occurrences(s, c)]
        occurrences(s, c) > 0 && !top.contains(c) ==> top.len() == TOP_COLORS && forall|i: int|
            0 <= i < top.len() ==> occurrences(s, c) <= occurrences(s, #[trigger] top[i])
}

/// A color occurs in `s` exactly when `s` contains it.
pub proof fn lemma_occurrences_contains(s: Seq<Color>, c: Color)
    ensures
        occurrences(s, c) > 0 <==> s.contains(c),
    decreases s.len(),
{
    if s.len() > 0 {
        lemma_occurrences_contains(s.drop_last(), c);
        if s.drop_last().contains(c) {
            let k = choose|k: int| 0 <= k < s.drop_last().len() && s.drop_last()[k] == c;
            assert(s[k] == c);
        }
        if s.contains(c) && s.last() != c {
            let k = choose|k: int| 0 <= k < s.len() && s[k] == c;
            assert(s.drop_last()[k] == c);
        }
    }
}

/// On colors that are all the same, the ranking is that one color alone.
pub proof fn lemma_single_color_dominant(s: Seq<Color>, c: Color, top: Seq<Color>)
    requires
        s.len() > 0,
        forall|i: int| 0 <= i < s.len() ==> s[i] == c,
        is_dominant_ranking(s, top),
    ensures
        top == seq![c],
{
    reveal(is_dominant_ranking);
    lemma_occurrences_contains(s, c);
    assert(s[0] == c);
    assert forall|i: int| 0 <= i < top.len() implies top[i] == c by {
        lemma_occurrences_contains(s, top[i]);
        assert(occurrences(s, top[i]) > 0);
    }
    if top.len() == 0 {
        assert(occurrences(s, c) > 0);
    } else if top.len() > 1 {
        assert(top[0] == c && top[1] == c);
    }
    assert(top =~= seq![c]);
}

/// The index of a largest entry.
fn index_of_max(v: &Vec<usize>) -> (r: usize)
    requires
        v.len() > 0,
    ensures
        r < v.len(),
        forall|m: int| 0 <= m < v.len() ==> #[trigger] v[m] <= v[r as int],
{
    let mut best: usize = 0;
    let mut i: usize = 1;
    while i < v.len()
        invariant
            1 <= i <= v.len(),
            best < i,
            forall|m: int| 0 <= m < i ==> #[trigger] v[m] <= v[best as int],
        decreases v.len() - i,
    {
        if v[i] > v[best] {
            best = i;
        }
        i = i + 1;
    }
    best
}

/// The distinct colors of `colors` in order of first appearance, with their counts.
fn tally(colors: &[Color]) -> (r: (Vec<Color>, Vec<usize>))
    ensures
        r.0.len() == r.1.len(),
        forall|a: int, b: int| 0 <= a < b < r.0.len() ==> r.0[a] != r.0[b],
        forall|m: int| 0 <= m < r.0.len() ==> #[trigger] r.1[m] == occurrences(colors@, r.0[m]),
        forall|m: int| 0 <= m < r.0.len() ==> #[trigger] r.1[m] > 0,
        forall|c: Color| #[trigger] occurrences(colors@, c) > 0 ==> r.0@.contains(c),
{
    let mut distinct: Vec<Color> = Vec::new();
    let mut counts: Vec<usize> = Vec::new();
    let mut i: usize = 0;
    assert(colors@.take(0) =~= Seq::<Color>::empty());
    while i < colors.len()
        invariant
            i <= colors.len(),
            distinct.len() == counts.len(),
            forall|a: int, b: int| 0 <= a < b < distinct.len() ==> distinct[a] != distinct[b],
            forall|m: int|
                0 <= m < distinct.len() ==> #[trigger] counts[m] == occurrences(
                    colors@.take(i as int),
                    distinct[m],
                ),
            forall|m: int| 0 <= m < distinct.len() ==> #[trigger] counts[m] > 0,
            forall|m: int| 0 <= m < distinct.len() ==> #[trigger] counts[m] <= i,
            forall|c: Color|
                #[trigger] occurrences(colors@.take(i as int), c) > 0 ==> distinct@.contains(c),
        decreases colors.len() - i,
    {
        let c = colors[i];
        let ghost prev = colors@.take(i as int);
        let ghost next = colors@.take(i + 1);
        assert(next.drop_last() =~= prev);
        assert(next.last() == c);
        let mut q: usize = 0;
        while q < distinct.len()
            invariant
                q <= distinct.len(),
                forall|m: int| 0 <= m < q ==> distinct[m] != c,
            ensures
                q <= distinct.len(),
                q < distinct.len() ==> distinct[q as int] == c,
                forall|m: int| 0 <= m < q ==> distinct[m] != c,
            decreases distinct.len() - q,
        {
            if distinct[q] == c {
                break;
            }
            q = q + 1;
        }
        let ghost old_distinct = distinct@;
        if q < distinct.len() {
            counts.set(q, counts[q] + 1);
        } else {
            distinct.push(c);
            counts.push(1);
            assert(occurrences(prev, c) == 0) by {
                if occurrences(prev, c) > 0 {
                    assert(old_distinct.contains(c));
                }
            }
        }
        assert forall|m: int| 0 <= m < distinct.len() implies #[trigger] counts[m]
            == occurrences(next, distinct[m]) by {
            assert(occurrences(next, distinct[m]) == occurrences(prev, distinct[m]) + if c
                == distinct[m] {
                1nat
            } else {
                0nat
            });
        }
        assert forall|x: Color| #[trigger] occurrences(next, x) > 0 implies distinct@.contains(
            x,
        ) by {
            assert(occurrences(next, x) == occurrences(prev, x) + if c == x {
                1nat
            } else {
                0nat
            });
            if x == c {
                assert(distinct[q as int] == c);
            } else {
                let k = choose|k: int| 0 <= k < old_distinct.len() && old_distinct[k] == x;
                assert(distinct[k] == x);
            }
        }
        i = i + 1;
    }
    assert(colors@.take(colors.len() as int) =~= colors@);
    (distinct, counts)
}

/// The most frequent exact colors, at most five, most frequent first.
pub fn dominant_colors(colors: &[Color]) -> (r: Vec<Color>)
    ensures
        is_dominant_ranking(colors@, r@),
{
    reveal(is_dominant_ranking);
    let (distinct, counts) = tally(colors);
    let ghost s = colors@;
    let mut top: Vec<Color> = Vec::new();
    if distinct.len() == 0 {
        assert forall|c: Color| #![trigger occurrences(s, c)] occurrences(s, c) > 0 implies false by {
            assert(distinct@.contains(c));
        }
        return top;
    }
    let mut rem: Vec<usize> = counts.clone();
    let ghost mut chosen: Seq<int> = Seq::empty();
    assert(rem@ == counts@);
    while top.len() < TOP_COLORS
        invariant_except_break
            top.len() <= TOP_COLORS,
        invariant
            top.len() <= TOP_COLORS,
            distinct.len() > 0,
            rem.len() == distinct.len(),
            counts.len() == distinct.len(),
            chosen.len() == top.len(),
            forall|a: int, b: int| 0 <= a < b < distinct.len() ==> distinct[a] != distinct[b],
            forall|m: int| 0 <= m < distinct.len() ==> #[trigger] counts[m] == occurrences(s, distinct[m]),
            forall|m: int| 0 <= m < distinct.len() ==> #[trigger] counts[m] > 0,
            forall|m: int| 0 <= m < rem.len() ==> #[trigger] rem[m] == 0 || rem[m] == counts[m],
            forall|t: int|
                0 <= t < top.len() ==> 0 <= #[trigger] chosen[t] < distinct.len() && top[t]
                    == distinct[chosen[t]] && rem[chosen[t]] == 0,
            forall|m: int|
                0 <= m < rem.len() && #[trigger] rem[m] == 0 ==> exists|t: int|
                    0 <= t < chosen.len() && #[trigger] chosen[t] == m,
            forall|t: int, m: int|
                0 <= t < top.len() && 0 <= m < rem.len() ==> #[trigger] rem[m] <= counts[#[trigger] chosen[t]],
            forall|a: int, b: int|
                0 <= a < b < top.len() ==> counts[chosen[a]] >= counts[chosen[b]],
            forall|a: int, b: int| 0 <= a < b < top.len() ==> chosen[a] != chosen[b],
        ensures
            forall|m: int| 0 <= m < rem.len() ==> #[trigger] rem[m] == 0 || rem[m] == counts[m],
            top.len() == TOP_COLORS || forall|m: int| 0 <= m < rem.len() ==> #[trigger] rem[m] == 0,
        decreases TOP_COLORS - top.len(),
    {
        let best: usize = index_of_max(&rem);
        if rem[best] == 0 {
            break;
        }
        let ghost old_rem = rem@;
        let ghost old_chosen = chosen;
        top.push(distinct[best]);
        rem.set(best, 0);
        proof {
            chosen = chosen.push(best as int);
            assert forall|m: int| 0 <= m < rem.len() && #[trigger] rem[m] == 0 implies exists|t: int|
                0 <= t < chosen.len() && #[trigger] chosen[t] == m by {
                if m == best {
                    assert(chosen[chosen.len() - 1] == m);
                } else {
                    assert(old_rem[m] == 0);
                    let t = choose|t: int| 0 <= t < old_chosen.len() && old_chosen[t] == m;
                    assert(chosen[t] == m);
                }
            }
            assert forall|t: int, m: int|
                0 <= t < top.len() && 0 <= m < rem.len() implies #[trigger] rem[m] <= counts[#[trigger] chosen[t]] by {
                if t < top.len() - 1 {
                    assert(old_rem[m] <= counts[old_chosen[t]]);
                } else {
                    assert(old_rem[m] <= old_rem[best as int]);
                }
            }
            assert forall|a: int, b: int| 0 <= a < b < top.len() implies chosen[a] != chosen[b] by {
                if b == top.len() - 1 {
                    assert(old_rem[old_chosen[a]] == 0);
                }
            }
            assert forall|a: int, b: int|
                0 <= a < b < top.len() implies counts[chosen[a]] >= counts[chosen[b]] by {
                if b == top.len() - 1 {
                    assert(old_rem[best as int] <= counts[old_chosen[a]]);
                }
            }
        }
    }
    proof {
        assert forall|i: int| 0 <= i < top.len() implies occurrences(s, #[trigger] top[i]) > 0 by {
            assert(top[i] == distinct[chosen[i]]);
        }
        assert forall|a: int, b: int| 0 <= a < b < top.len() implies top[a] != top[b] by {
            assert(top[a] == distinct[chosen[a]]);
            assert(top[b] == distinct[chosen[b]]);
            assert(chosen[a] != chosen[b]);
        }
        assert forall|a: int, b: int| 0 <= a < b < top.len() implies occurrences(
            s,
            #[trigger] top[a],
        ) >= occurrences(s, #[trigger] top[b]) by {
            assert(top[a] == distinct[chosen[a]]);
            assert(top[b] == distinct[chosen[b]]);
            assert(counts[chosen[a]] >= counts[chosen[b]]);
        }
        assert forall|c: Color|
            #![trigger occurrences(s, c)]
            occurrences(s, c) > 0 && !top@.contains(c) implies top.len() == TOP_COLORS && forall|i: int|
                0 <= i < top.len() ==> occurrences(s, c) <= occurrences(s, #[trigger] top[i]) by {
            assert(distinct@.contains(c));
            let m = choose|m: int| 0 <= m < distinct.len() && distinct[m] == c;
            if rem[m] == 0 {
                let t = choose|t: int| 0 <= t < chosen.len() && chosen[t] == m;
                assert(top[t] == c);
            }
            assert forall|i: int| 0 <= i < top.len() implies occurrences(s, c) <= occurrences(s, #[trigger] top[i]) by {
                assert(rem[m] <= counts[chosen[i]]);
                assert(top[i] == distinct[chosen[i]]);
            }
        }
    }
    top
}

} // verus!
