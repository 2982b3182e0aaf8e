use vstd::prelude::*;

use crate::color::{dist, Color};
use crate::PaletteError;

verus! {

/// `i` is the first index of `cents` at the least distance from `c`.
pub open spec fn is_first_nearest(c: Color, cents: Seq<Color>, i: int) -> bool {
    &&& 0 <= i < cents.len()
    &&& forall|j: int| 0 <= j < cents.len() ==> dist(c, cents[i]) <= #[trigger] dist(c, cents[j])
    &&& forall|j: int| 0 <= j < i ==> dist(c, cents[i]) < #[trigger] dist(c, cents[j])
}

/// The centroid that `c` is assigned to: the nearest, ties going to the lowest index.
pub open spec fn nearest(c: Color, cents: Seq<Color>) -> int {
    choose|i: int| is_first_nearest(c, cents, i)
}

/// There is one first nearest index at most.
pub proof fn lemma_first_nearest_unique(c: Color, cents: Seq<Color>, i: int, k: int)
    requires
        is_first_nearest(c, cents, i),
        is_first_nearest(c, cents, k),
    ensures
        i == k,
{
    if i < k {
        assert(dist(c, cents[k]) < dist(c, cents[i]));
        assert(dist(c, cents[i]) <= dist(c, cents[k]));
    } else if k < i {
        assert(dist(c, cents[i]) < dist(c, cents[k]));
        assert(dist(c, cents[k]) <= dist(c, cents[i]));
    }
}

/// Channel `ch` (0 red, 1 green, 2 blue) of a color.
pub open spec fn channel(c: Color, ch: int) -> u8 {
    if ch == 0 {
        c.r
    } else if ch == 1 {
        c.g
    } else {
        c.b
    }
}

/// How many colors of `s` are assigned to centroid `j`.
pub open spec fn cluster_size(s: Seq<Color>, cents: Seq<Color>, j: int) -> nat
    decreases s.len(),
{
    if s.len() == 0 {
        0
    } else {
        cluster_size(s.drop_last(), cents, j) + if nearest(s.last(), cents) == j {
            1nat
        } else {
            0nat
        }
    }
}

/// The sum of channel `ch` over the colors of `s` assigned to centroid `j`.
pub open spec fn cluster_total(s: Seq<Color>, cents: Seq<Color>, j: int, ch: int) -> nat
    decreases s.len(),
{
    if s.len() == 0 {
        0
    } else {
        cluster_total(s.drop_last(), cents, j, ch) + if nearest(s.last(), cents) == j {
            channel(s.last(), ch) as nat
        } else {
            0nat
        }
    }
}

/// The channel mean of cluster `j`, truncated toward zero.
pub open spec fn cluster_mean(s: Seq<Color>, cents: Seq<Color>, j: int, ch: int) -> u8 {
    (cluster_total(s, cents, j, ch) / cluster_size(s, cents, j)) as u8
}

/// Centroid `j` after one round: the mean of its cluster, or unchanged when the
/// cluster is empty.
pub open spec fn refined_centroid(s: Seq<Color>, cents: Seq<Color>, j: int) -> Color {
    if cluster_size(s, cents, j) == 0 {
        cents[j]
    } else {
        Color {
            r: cluster_mean(s, cents, j, 0),
            g: cluster_mean(s, cents, j, 1),
            b: cluster_mean(s, cents, j, 2),
        }
    }
}

/// One round of Lloyd's algorithm: assign, then move each centroid to its mean.
pub open spec fn lloyd_round(s: Seq<Color>, cents: Seq<Color>) -> Seq<Color> {
    Seq::new(cents.len(), |j: int| refined_centroid(s, cents, j))
}

/// `n` rounds of Lloyd's algorithm from the centroids `cents`.
pub open spec fn lloyd(s: Seq<Color>, cents: Seq<Color>, n: nat) -> Seq<Color>
    decreases n,
{
    if n == 0 {
        cents
    } else {
        lloyd_round(s, lloyd(s, cents, (n - 1) as nat))
    }
}

/// Index of the centroid nearest to `color`; the first one on a tie.
pub fn nearest_centroid(color: &Color, centroids: &Vec<Color>) -> (r: usize)
    requires
        centroids.len() > 0,
    ensures
        is_first_nearest(*color, centroids@, r as int),
        r == nearest(*color, centroids@),
{
    let mut best: usize = 0;
    let mut best_d: u32 = color.distance(&centroids[0]);
    let mut i: usize = 1;
    while i < centroids.len()
        invariant
            1 <= i <= centroids.len(),
            best < i,
            best_d == dist(*color, centroids@[best as int]),
            forall|j: int| 0 <= j < i ==> best_d <= #[trigger] dist(*color, centroids@[j]),
            forall|j: int| 0 <= j < best ==> best_d < #[trigger] dist(*color, centroids@[j]),
        decreases centroids.len() - i,
    {
        let d: u32 = color.distance(&centroids[i]);
        if d < best_d {
            best = i;
            best_d = d;
        }
        i = i + 1;
    }
    proof {
        let k = nearest(*color, centroids@);
        assert(is_first_nearest(*color, centroids@, best as int));
        lemma_first_nearest_unique(*color, centroids@, best as int, k);
    }
    best
}

/// For each color, its distance key to the nearest centroid.
pub fn nearest_distances(colors: &[Color], centroids: &Vec<Color>) -> (r: Vec<u32>)
    requires
        centroids.len() > 0,
    ensures
        r.len() == colors.len(),
        forall|i: int|
            0 <= i < r.len() ==> #[trigger] r[i] == dist(
                colors@[i],
                centroids@[nearest(colors@[i], centroids@)],
            ),
{
    let mut out: Vec<u32> = Vec::new();
    let mut i: usize = 0;
    while i < colors.len()
        invariant
            centroids.len() > 0,
            i <= colors.len(),
            out.len() == i,
            forall|j: int|
                0 <= j < i ==> #[trigger] out[j] == dist(
                    colors@[j],
                    centroids@[nearest(colors@[j], centroids@)],
                ),
        decreases colors.len() - i,
    {
        let k: usize = nearest_centroid(&colors[i], centroids);
        out.push(colors[i].distance(&centroids[k]));
        i = i + 1;
    }
    out
}

proof fn lemma_mean_fits(total: int, size: int)
    requires
        0 < size,
        0 <= total <= 255 * size,
    ensures
        total / size <= 255,
{
    assert(total / size <= 255) by (nonlinear_arith)
        requires
            0 < size,
            0 <= total <= 255 * size,
    ;
}

/// The truncated mean of cluster `j` in channel `ch`, from its running total.
fn mean_channel(total: u128, size: usize) -> (r: u8)
    requires
        0 < size,
        total <= 255 * size,
    ensures
        r == total as int / size as int,
{
    proof {
        lemma_mean_fits(total as int, size as int);
    }
    (total / (size as u128)) as u8
}

/// A vector of `k` copies of `v`.
fn filled<T: Copy>(k: usize, v: T) -> (r: Vec<T>)
    ensures
        r.len() == k,
        forall|m: int| 0 <= m < k ==> #[trigger] r[m] == v,
{
    let mut row: Vec<T> = Vec::new();
    let mut m: usize = 0;
    while m < k
        invariant
            m <= k,
            row.len() == m,
            forall|x: int| 0 <= x < m ==> #[trigger] row[x] == v,
        decreases k - m,
    {
        row.push(v);
        m = m + 1;
    }
    row
}

/// The running totals of one channel over a prefix of the colors.
pub open spec fn totals_match(
    t: Seq<u128>,
    sizes: Seq<usize>,
    s: Seq<Color>,
    cents: Seq<Color>,
    ch: int,
) -> bool {
    &&& t.len() == cents.len()
    &&& forall|m: int| 0 <= m < t.len() ==> #[trigger] t[m] == cluster_total(s, cents, m, ch)
    &&& forall|m: int| 0 <= m < t.len() ==> #[trigger] t[m] <= 255 * sizes[m]
}

proof fn lemma_extend_totals(
    t: Seq<u128>,
    t2: Seq<u128>,
    sizes: Seq<usize>,
    sizes2: Seq<usize>,
    prev: Seq<Color>,
    next: Seq<Color>,
    cents: Seq<Color>,
    ch: int,
    n: int,
)
    requires
        totals_match(t, sizes, prev, cents, ch),
        sizes.len() == cents.len(),
        next.len() == prev.len() + 1,
        next.drop_last() == prev,
        n == nearest(next.last(), cents),
        0 <= n < cents.len(),
        t[n] + 255 <= u128::MAX,
        sizes[n] + 1 <= usize::MAX,
        t2 == t.update(n, (t[n] + channel(next.last(), ch)) as u128),
        sizes2 == sizes.update(n, (sizes[n] + 1) as usize),
    ensures
        totals_match(t2, sizes2, next, cents, ch),
{
    assert forall|m: int| 0 <= m < t2.len() implies #[trigger] t2[m] == cluster_total(
        next,
        cents,
        m,
        ch,
    ) by {
        assert(cluster_total(next, cents, m, ch) == cluster_total(prev, cents, m, ch) + if n
            == m {
            channel(next.last(), ch) as nat
        } else {
            0nat
        });
    }
}

/// One round of Lloyd's algorithm: every color goes to its nearest centroid, and
/// each centroid that received colors moves to their truncated channel means.
pub fn refine_round(colors: &[Color], centroids: &Vec<Color>) -> (r: Vec<Color>)
    requires
        centroids.len() > 0,
    ensures
        r@ == lloyd_round(colors@, centroids@),
{
    let k: usize = centroids.len();
    let ghost cents = centroids@;
    let mut sizes: Vec<usize> = filled(k, 0);
    let mut tr: Vec<u128> = filled(k, 0);
    let mut tg: Vec<u128> = filled(k, 0);
    let mut tb: Vec<u128> = filled(k, 0);
    assert(colors@.take(0) =~= Seq::<Color>::empty());
    let mut i: usize = 0;
    while i < colors.len()
        invariant
            k == centroids.len(),
            k > 0,
            cents == centroids@,
            i <= colors.len(),
            sizes.len() == k,
            forall|m: int|
                0 <= m < k ==> #[trigger] sizes[m] == cluster_size(colors@.take(i as int), cents, m),
            forall|m: int| 0 <= m < k ==> #[trigger] sizes[m] <= i,
            totals_match(tr@, sizes@, colors@.take(i as int), cents, 0),
            totals_match(tg@, sizes@, colors@.take(i as int), cents, 1),
            totals_match(tb@, sizes@, colors@.take(i as int), cents, 2),
        decreases colors.len() - i,
    {
        let color = colors[i];
        let n: usize = nearest_centroid(&color, centroids);
        let ghost prev = colors@.take(i as int);
        let ghost next = colors@.take(i + 1);
        assert(next.drop_last() =~= prev);
        assert(next.last() == color);
        let ghost old_sizes = sizes@;
        let ghost (otr, otg, otb) = (tr@, tg@, tb@);
        assert(tr[n as int] <= 255 * sizes[n as int]);
        assert(tg[n as int] <= 255 * sizes[n as int]);
        assert(tb[n as int] <= 255 * sizes[n as int]);
        sizes.set(n, sizes[n] + 1);
        tr.set(n, tr[n] + color.r as u128);
        tg.set(n, tg[n] + color.g as u128);
        tb.set(n, tb[n] + color.b as u128);
        proof {
            lemma_extend_totals(otr, tr@, old_sizes, sizes@, prev, next, cents, 0, n as int);
            lemma_extend_totals(otg, tg@, old_sizes, sizes@, prev, next, cents, 1, n as int);
            lemma_extend_totals(otb, tb@, old_sizes, sizes@, prev, next, cents, 2, n as int);
            assert forall|m: int| 0 <= m < k implies #[trigger] sizes[m] == cluster_size(
                next,
                cents,
                m,
            ) by {
                assert(cluster_size(next, cents, m) == cluster_size(prev, cents, m) + if n == m {
                    1nat
                } else {
                    0nat
                });
            }
        }
        i = i + 1;
    }
    assert(colors@.take(colors.len() as int) =~= colors@);
    let mut out: Vec<Color> = Vec::new();
    let mut j: usize = 0;
    while j < k
        invariant
            k == centroids.len(),
            cents == centroids@,
            j <= k,
            out.len() == j,
            sizes.len() == k,
            forall|m: int| 0 <= m < k ==> #[trigger] sizes[m] == cluster_size(colors@, cents, m),
            totals_match(tr@, sizes@, colors@, cents, 0),
            totals_match(tg@, sizes@, colors@, cents, 1),
            totals_match(tb@, sizes@, colors@, cents, 2),
            forall|m: int| 0 <= m < j ==> #[trigger] out[m] == refined_centroid(colors@, cents, m),
        decreases k - j,
    {
        if sizes[j] == 0 {
            out.push(centroids[j]);
        } else {
            let r: u8 = mean_channel(tr[j], sizes[j]);
            let g: u8 = mean_channel(tg[j], sizes[j]);
            let b: u8 = mean_channel(tb[j], sizes[j]);
            out.push(Color { r, g, b });
        }
        j = j + 1;
    }
    assert(out@ =~= lloyd_round(colors@, cents));
    out
}

/// Exactly `iterations` rounds of Lloyd's algorithm from the given centroids; no
/// early stop on convergence.
pub fn refine(colors: &[Color], centroids: Vec<Color>, iterations: usize) -> (r: Vec<Color>)
    requires
        centroids.len() > 0,
    ensures
        r@ == lloyd(colors@, centroids@, iterations as nat),
        r.len() == centroids.len(),
{
    let mut cur: Vec<Color> = centroids;
    let mut it: usize = 0;
    while it < iterations
        invariant
            it <= iterations,
            cur.len() == centroids.len(),
            cur@ == lloyd(colors@, centroids@, it as nat),
            centroids.len() > 0,
        decreases iterations - it,
    {
        cur = refine_round(colors, &cur);
        it = it + 1;
    }
    cur
}

/// Whether every key is zero: every color already sits on a centroid.
pub fn all_zero(keys: &Vec<u32>) -> (r: bool)
    ensures
        r <==> forall|i: int| 0 <= i < keys.len() ==> #[trigger] keys[i] == 0,
{
    let mut i: usize = 0;
    while i < keys.len()
        invariant
            i <= keys.len(),
            forall|m: int| 0 <= m < i ==> #[trigger] keys[m] == 0,
        decreases keys.len() - i,
    {
        if keys[i] != 0 {
            return false;
        }
        i = i + 1;
    }
    true
}

/// Iteration count used when the caller gives none.
pub const DEFAULT_PRECISION: usize = 12;

/// A palette of `n_colors` needs at least one color and no more than there are
/// sampled colors.
pub fn check_palette_size(colors: &[Color], n_colors: usize) -> (r: Result<(), PaletteError>)
    ensures
        r is Ok <==> 1 <= n_colors <= colors.len(),
        r matches Err(e) ==> e == PaletteError::InvalidArgument,
{
    if n_colors == 0 || n_colors > colors.len() {
        Err(PaletteError::InvalidArgument)
    } else {
        Ok(())
    }
}

/// Refines the seed centroids over `precision` rounds and returns the first
/// `n_colors` of them. The seeds must be `n_colors` colors.
pub fn palette_from_seeds(
    colors: &[Color],
    seeds: Vec<Color>,
    n_colors: usize,
    precision: usize,
) -> (r: Result<Vec<Color>, PaletteError>)
    ensures
        r is Ok <==> 1 <= n_colors <= colors.len() && seeds.len() == n_colors,
        r matches Err(e) ==> e == PaletteError::InvalidArgument,
        r matches Ok(p) ==> p.len() == n_colors && p@ == lloyd(colors@, seeds@, precision as nat),
{
    if check_palette_size(colors, n_colors).is_err() || seeds.len() != n_colors {
        return Err(PaletteError::InvalidArgument);
    }
    let refined: Vec<Color> = refine(colors, seeds, precision);
    let mut out: Vec<Color> = Vec::new();
    let mut i: usize = 0;
    while i < n_colors
        invariant
            i <= n_colors,
            refined.len() == n_colors,
            out@ == refined@.take(i as int),
        decreases n_colors - i,
    {
        out.push(refined[i]);
        i = i + 1;
        assert(out@ =~= refined@.take(i as int));
    }
    assert(refined@.take(n_colors as int) =~= refined@);
    Ok(out)
}

} // verus!
