//! K-means extraction: k-means++ seeding from the pixel sample, then
//! assign → recompute rounds until the centroids settle or the rounds run out.
use vstd::prelude::*;
use rand::distributions::{Distribution, WeightedIndex};
use rand::seq::SliceRandom;
use rayon::iter::{IntoParallelRefIterator, ParallelIterator};
use crate::backends::median_cut::{channel, pixel_count_ok};
use crate::colors::types::Rgb;
use crate::error::RwalError;

verus! {

// ─── outside items ──────────────────────────────────────────────────────────

/// A `rand::distributions::WeightedIndex<u64>` (rand 0.8): the running sums of
/// a weight list, from which indices are drawn in proportion to their weights.
/// Verus refuses to declare the type itself (its bound is an outside trait),
/// so it is held here, out of Verus's sight.
#[verifier::external_body]
pub struct WeightTable {
    inner: WeightedIndex<u64>,
}

/// The weights a table was built from.
pub uninterp spec fn index_weights(w: WeightTable) -> Seq<u64>;

pub open spec fn weight_total(w: Seq<u64>) -> nat
    decreases w.len(),
{
    if w.len() == 0 {
        0
    } else {
        weight_total(w.drop_last()) + w.last() as nat
    }
}

pub open spec fn has_positive_weight(w: Seq<u64>) -> bool {
    exists|i: int| 0 <= i < w.len() && w[i] > 0
}

/// `rand::distributions::WeightedIndex::new` (rand 0.8) over `u64` weights. Its
/// source fails with `NoItem` on no weights and `AllWeightsZero` when every
/// weight is zero (both become `None` here) (no `u64` weight is invalid), and otherwise keeps the
/// running sums of the given weights; it panics when that sum overflows.
#[verifier::external_body]
fn weighted_index_new(weights: &Vec<u64>) -> (r: Option<WeightTable>)
    requires
        weight_total(weights@) <= u64::MAX,
    ensures
        (r is Some) == has_positive_weight(weights@),
        r is Some ==> index_weights(r->Some_0) == weights@,
{
    WeightedIndex::new(weights).ok().map(|inner| WeightTable { inner })
}

/// `Distribution::<usize>::sample` of a `WeightedIndex<u64>` on the thread-local
/// generator. The source draws a value below the total and returns the first
/// index whose running sum exceeds it, so the index is in range and carries a
/// positive weight; which one it is rests on chance and is not stated.
#[verifier::external_body]
fn weighted_index_sample(w: &WeightTable) -> (i: usize)
    ensures
        i < index_weights(*w).len(),
        index_weights(*w)[i as int] > 0,
{
    w.inner.sample(&mut rand::thread_rng())
}

/// `SliceRandom::choose` (rand 0.8) on the thread-local generator: `None` for
/// an empty slice, otherwise one of its elements, picked at random.
#[verifier::external_body]
fn choose_pixel(pixels: &[Rgb]) -> (r: Option<Rgb>)
    ensures
        r is None <==> pixels@.len() == 0,
        r is Some ==> pixels@.contains(r->Some_0),
{
    pixels.choose(&mut rand::thread_rng()).copied()
}

/// rayon's `par_iter().map(..).collect()`: the nearest centroid of every pixel,
/// in pixel order (rayon collects an indexed parallel iterator in order).
#[verifier::external_body]
fn assign_clusters(pixels: &[Rgb], centroids: &Vec<Rgb>) -> (r: Vec<usize>)
    ensures
        r@.len() == pixels@.len(),
        forall|i: int| 0 <= i < pixels@.len() ==> r@[i] == nearest(#[trigger] pixels@[i], centroids@),
{
    pixels.par_iter().map(|px| nearest_centroid(px, centroids)).collect()
}

// ─── distances ──────────────────────────────────────────────────────────────

/// Squared Euclidean distance between two colors.
pub open spec fn sq_dist(a: Rgb, b: Rgb) -> nat {
    let dr = a.r - b.r;
    let dg = a.g - b.g;
    let db = a.b - b.b;
    (dr * dr + dg * dg + db * db) as nat
}

proof fn lemma_sq_dist_zero(a: Rgb, b: Rgb)
    ensures
        sq_dist(a, b) == 0 <==> a == b,
        sq_dist(a, b) <= 195075,
{
    let dr = a.r - b.r;
    let dg = a.g - b.g;
    let db = a.b - b.b;
    assert(dr * dr >= 0 && dg * dg >= 0 && db * db >= 0) by (nonlinear_arith);
    assert(dr * dr == 0 ==> dr == 0) by (nonlinear_arith);
    assert(dg * dg == 0 ==> dg == 0) by (nonlinear_arith);
    assert(db * db == 0 ==> db == 0) by (nonlinear_arith);
    assert(dr * dr <= 65025) by (nonlinear_arith) requires -255 <= dr <= 255;
    assert(dg * dg <= 65025) by (nonlinear_arith) requires -255 <= dg <= 255;
    assert(db * db <= 65025) by (nonlinear_arith) requires -255 <= db <= 255;
    if sq_dist(a, b) == 0 {
        assert(dr * dr + dg * dg + db * db == 0);
        assert(dr == 0 && dg == 0 && db == 0);
        assert(a.r == b.r && a.g == b.g && a.b == b.b);
        assert(a == b);
    }
    if a == b {
        assert(dr * dr + dg * dg + db * db == 0) by (nonlinear_arith)
            requires dr == 0 && dg == 0 && db == 0;
    }
}

/// Squared Euclidean distance between two colors (no sqrt needed for comparisons).
pub fn squared_distance(a: &Rgb, b: &Rgb) -> (d: u32)
    ensures
        d == sq_dist(*a, *b),
{
    let dr = a.r as i32 - b.r as i32;
    let dg = a.g as i32 - b.g as i32;
    let db = a.b as i32 - b.b as i32;
    proof {
        lemma_sq_dist_zero(*a, *b);
    }
    assert(dr * dr >= 0 && dg * dg >= 0 && db * db >= 0) by (nonlinear_arith);
    assert(dr * dr <= 65025) by (nonlinear_arith) requires -255 <= dr <= 255;
    assert(dg * dg <= 65025) by (nonlinear_arith) requires -255 <= dg <= 255;
    assert(db * db <= 65025) by (nonlinear_arith) requires -255 <= db <= 255;
    (dr * dr + dg * dg + db * db) as u32
}

/// Index of the centroid closest to `p`, the first one on ties; 0 when there are none.
pub open spec fn nearest(p: Rgb, cs: Seq<Rgb>) -> nat
    decreases cs.len(),
{
    if cs.len() <= 1 {
        0
    } else {
        let m = nearest(p, cs.drop_last());
        if sq_dist(p, cs.last()) < sq_dist(p, cs[m as int]) {
            (cs.len() - 1) as nat
        } else {
            m
        }
    }
}

proof fn lemma_nearest_bound(p: Rgb, cs: Seq<Rgb>)
    ensures
        cs.len() > 0 ==> nearest(p, cs) < cs.len(),
    decreases cs.len(),
{
    if cs.len() > 1 {
        lemma_nearest_bound(p, cs.drop_last());
    }
}

/// Find the index of the centroid closest to `pixel` using squared Euclidean distance.
pub fn nearest_centroid(pixel: &Rgb, centroids: &Vec<Rgb>) -> (i: usize)
    ensures
        i == nearest(*pixel, centroids@),
        centroids@.len() > 0 ==> i < centroids@.len(),
{
    proof { lemma_nearest_bound(*pixel, centroids@); }
    if centroids.len() == 0 {
        return 0;
    }
    let mut best: usize = 0;
    let mut best_d = squared_distance(pixel, &centroids[0]);
    let mut j: usize = 1;
    while j < centroids.len()
        invariant
            1 <= j <= centroids@.len(),
            best == nearest(*pixel, centroids@.take(j as int)),
            best < j,
            best_d == sq_dist(*pixel, centroids@[best as int]),
        decreases centroids@.len() - j,
    {
        proof {
            let t = centroids@.take(j + 1);
            assert(t.drop_last() =~= centroids@.take(j as int));
            lemma_nearest_bound(*pixel, centroids@.take(j as int));
        }
        let d = squared_distance(pixel, &centroids[j]);
        if d < best_d {
            best = j;
            best_d = d;
        }
        j = j + 1;
    }
    assert(centroids@.take(centroids@.len() as int) =~= centroids@);
    best
}

// ─── recomputing centroids ──────────────────────────────────────────────────

/// Sum of channel `ch` over the first `n` pixels assigned to cluster `j`.
pub open spec fn cluster_sum(pixels: Seq<Rgb>, assign: Seq<usize>, j: int, n: int, ch: u8) -> nat
    decreases n,
{
    if n <= 0 {
        0
    } else {
        cluster_sum(pixels, assign, j, n - 1, ch) + if assign[n - 1] == j { channel(pixels[n - 1], ch) as nat } else { 0 }
    }
}

/// Number of the first `n` pixels assigned to cluster `j`.
pub open spec fn cluster_size(assign: Seq<usize>, j: int, n: int) -> nat
    decreases n,
{
    if n <= 0 {
        0
    } else {
        cluster_size(assign, j, n - 1) + if assign[n - 1] == j { 1nat } else { 0nat }
    }
}

proof fn lemma_cluster_bounds(pixels: Seq<Rgb>, assign: Seq<usize>, j: int, n: int)
    requires
        0 <= n,
    ensures
        cluster_sum(pixels, assign, j, n, 0) <= 255 * cluster_size(assign, j, n),
        cluster_sum(pixels, assign, j, n, 1) <= 255 * cluster_size(assign, j, n),
        cluster_sum(pixels, assign, j, n, 2) <= 255 * cluster_size(assign, j, n),
        cluster_size(assign, j, n) <= n,
    decreases n,
{
    if n > 0 {
        lemma_cluster_bounds(pixels, assign, j, n - 1);
    }
}

/// Mean color of cluster `j` over the first `n` pixels; black for an empty cluster.
pub open spec fn cluster_mean(pixels: Seq<Rgb>, assign: Seq<usize>, j: int, n: int) -> Rgb {
    let c = cluster_size(assign, j, n);
    if c == 0 {
        Rgb { r: 0, g: 0, b: 0 }
    } else {
        Rgb {
            r: (cluster_sum(pixels, assign, j, n, 0) / c) as u8,
            g: (cluster_sum(pixels, assign, j, n, 1) / c) as u8,
            b: (cluster_sum(pixels, assign, j, n, 2) / c) as u8,
        }
    }
}

pub open spec fn paired_len(pixels: Seq<Rgb>, assign: Seq<usize>) -> int {
    if pixels.len() <= assign.len() { pixels.len() as int } else { assign.len() as int }
}

/// The `k` new centroids: each cluster's mean over the pixels paired with an assignment.
pub open spec fn recomputed(pixels: Seq<Rgb>, assign: Seq<usize>, k: nat) -> Seq<Rgb> {
    Seq::new(k, |j: int| cluster_mean(pixels, assign, j, paired_len(pixels, assign)))
}

/// Recompute each centroid as the mean of all pixels assigned to it.
pub fn recompute_centroids(pixels: &[Rgb], assignments: &[usize], k: usize) -> (r: Vec<Rgb>)
    requires
        pixel_count_ok(pixels@.len()),
        forall|i: int| 0 <= i < paired_len(pixels@, assignments@) ==> #[trigger] assignments@[i] < k,
    ensures
        r@ == recomputed(pixels@, assignments@, k as nat),
{
    let n: usize = if pixels.len() <= assignments.len() { pixels.len() } else { assignments.len() };
    let mut sums: Vec<(u64, u64, u64, u64)> = Vec::new();
    while sums.len() < k
        invariant
            sums@.len() <= k,
            forall|j: int| 0 <= j < sums@.len() ==> #[trigger] sums@[j] == (0u64, 0u64, 0u64, 0u64),
        decreases k - sums.len(),
    {
        sums.push((0u64, 0u64, 0u64, 0u64));
    }
    let mut i: usize = 0;
    while i < n
        invariant
            i <= n,
            n == paired_len(pixels@, assignments@),
            pixel_count_ok(pixels@.len()),
            n <= pixels@.len(),
            sums@.len() == k,
            forall|q: int| 0 <= q < n ==> #[trigger] assignments@[q] < k,
            forall|j: int| 0 <= j < k ==> #[trigger] sums@[j] == (
                cluster_sum(pixels@, assignments@, j, i as int, 0) as u64,
                cluster_sum(pixels@, assignments@, j, i as int, 1) as u64,
                cluster_sum(pixels@, assignments@, j, i as int, 2) as u64,
                cluster_size(assignments@, j, i as int) as u64,
            ),
            forall|j: int| 0 <= j < k ==> #[trigger] cluster_size(assignments@, j, i as int) <= i,
        decreases n - i,
    {
        let px = pixels[i];
        let cluster = assignments[i];
        proof {
            lemma_cluster_bounds(pixels@, assignments@, cluster as int, i as int);
        }
        let s = sums[cluster];
        sums.set(cluster, (s.0 + px.r as u64, s.1 + px.g as u64, s.2 + px.b as u64, s.3 + 1));
        proof {
            assert forall|j: int| 0 <= j < k implies #[trigger] cluster_size(assignments@, j, i + 1) <= i + 1 by {
                lemma_cluster_bounds(pixels@, assignments@, j, i as int);
            }
        }
        i = i + 1;
    }
    let mut out: Vec<Rgb> = Vec::new();
    let mut j: usize = 0;
    while j < k
        invariant
            j <= k,
            sums@.len() == k,
            n == paired_len(pixels@, assignments@),
            0 <= n,
            pixel_count_ok(pixels@.len()),
            n <= pixels@.len(),
            forall|q: int| 0 <= q < k ==> #[trigger] sums@[q] == (
                cluster_sum(pixels@, assignments@, q, n as int, 0) as u64,
                cluster_sum(pixels@, assignments@, q, n as int, 1) as u64,
                cluster_sum(pixels@, assignments@, q, n as int, 2) as u64,
                cluster_size(assignments@, q, n as int) as u64,
            ),
            out@ =~= recomputed(pixels@, assignments@, k as nat).take(j as int),
        decreases k - j,
    {
        let (r, g, b, count) = sums[j];
        proof {
            lemma_cluster_bounds(pixels@, assignments@, j as int, n as int);
            let c = cluster_size(assignments@, j as int, n as int);
            assert(c <= n);
            assert(cluster_sum(pixels@, assignments@, j as int, n as int, 0) <= 255 * c);
            assert(count == c);
            assert(r == cluster_sum(pixels@, assignments@, j as int, n as int, 0));
            assert(g == cluster_sum(pixels@, assignments@, j as int, n as int, 1));
            assert(b == cluster_sum(pixels@, assignments@, j as int, n as int, 2));
        }
        if count == 0 {
            out.push(Rgb::new(0, 0, 0));
        } else {
            assert(r / count <= 255) by (nonlinear_arith) requires r <= 255 * count, count > 0;
            assert(g / count <= 255) by (nonlinear_arith) requires g <= 255 * count, count > 0;
            assert(b / count <= 255) by (nonlinear_arith) requires b <= 255 * count, count > 0;
            out.push(Rgb::new((r / count) as u8, (g / count) as u8, (b / count) as u8));
        }
        assert(out@.last() == cluster_mean(pixels@, assignments@, j as int, n as int));
        j = j + 1;
    }
    out
}

/// Whether every paired centroid moved by less than 2 units.
pub open spec fn settled(old: Seq<Rgb>, new: Seq<Rgb>) -> bool {
    forall|i: int| 0 <= i < old.len() && i < new.len() ==> sq_dist(old[i], new[i]) < 4
}

/// Returns true if all centroids moved less than 2 units — good enough to stop.
pub fn centroids_converged(old: &[Rgb], new: &[Rgb]) -> (r: bool)
    ensures
        r == settled(old@, new@),
{
    let mut i: usize = 0;
    while i < old.len() && i < new.len()
        invariant
            i <= old@.len(),
            forall|q: int| 0 <= q < i && q < new@.len() ==> sq_dist(old@[q], new@[q]) < 4,
        decreases old@.len() - i,
    {
        if squared_distance(&old[i], &new[i]) >= 4 {
            return false;
        }
        i = i + 1;
    }
    true
}

// ─── k-means++ seeding ──────────────────────────────────────────────────────

/// The seeds k-means++ can draw: `max(k, 1)` pixels; a first run `seeds[..m]`
/// of pairwise distinct pixels (each new one at positive distance from all
/// before it), and, when every pixel was already among them, the rest filled
/// with `pixels[0]`.
pub open spec fn seed_split(pixels: Seq<Rgb>, seeds: Seq<Rgb>, m: int) -> bool {
    &&& 0 < m <= seeds.len()
    &&& forall|i: int, j: int| 0 <= i < j < m ==> seeds[i] != seeds[j]
    &&& forall|i: int| m <= i < seeds.len() ==> seeds[i] == pixels[0]
    &&& m < seeds.len() ==> forall|q: int| 0 <= q < pixels.len() ==> seeds.take(m).contains(#[trigger] pixels[q])
}

pub open spec fn seeded_from(pixels: Seq<Rgb>, k: nat, seeds: Seq<Rgb>) -> bool {
    &&& seeds.len() == (if k == 0 { 1nat } else { k })
    &&& forall|i: int| 0 <= i < seeds.len() ==> pixels.contains(#[trigger] seeds[i])
    &&& exists|m: int| #[trigger] seed_split(pixels, seeds, m)
}

proof fn lemma_weight_total_bound(w: Seq<u64>)
    requires
        forall|i: int| 0 <= i < w.len() ==> w[i] <= 195075,
    ensures
        weight_total(w) <= 195075 * w.len(),
    decreases w.len(),
{
    if w.len() > 0 {
        lemma_weight_total_bound(w.drop_last());
    }
}

proof fn lemma_zero_total(w: Seq<u64>)
    requires
        !has_positive_weight(w),
    ensures
        forall|i: int| 0 <= i < w.len() ==> w[i] == 0,
{
}

/// K-means++ initialization: pick the first centroid at random, then each next
/// one with probability proportional to its squared distance from the nearest
/// centroid so far; once every pixel coincides with a centroid, pad with the
/// first pixel. The distances are summed as `u64`, so their total cannot
/// overflow for any admissible number of pixels.
pub fn init_centroids(pixels: &[Rgb], k: usize) -> (chosen: Vec<Rgb>)
    requires
        pixel_count_ok(pixels@.len()),
    ensures
        pixels@.len() == 0 ==> chosen@.len() == 0,
        pixels@.len() > 0 ==> seeded_from(pixels@, k as nat, chosen@),
{
    let mut chosen: Vec<Rgb> = Vec::new();
    if pixels.len() == 0 {
        return chosen;
    }
    let first = match choose_pixel(pixels) {
        Some(c) => c,
        None => {
            return chosen;
        },
    };
    chosen.push(first);
    let n = pixels.len();
    let mut min_d: Vec<u64> = Vec::new();
    let mut i: usize = 0;
    while i < n
        invariant
            n == pixels@.len(),
            i <= n,
            chosen@ == seq![first],
            min_d@.len() == i,
            forall|q: int| 0 <= q < i ==> #[trigger] min_d@[q] == sq_dist(pixels@[q], first),
        decreases n - i,
    {
        let d = squared_distance(&pixels[i], &first);
        min_d.push(d as u64);
        i = i + 1;
    }
    let ghost mut m: int = 1;
    proof {
        assert forall|q: int| 0 <= q < n implies (#[trigger] min_d@[q] == 0) == chosen@.contains(pixels@[q]) && min_d@[q] <= 195075 by {
            assert(min_d@[q] == sq_dist(pixels@[q], first));
            lemma_sq_dist_zero(pixels@[q], first);
            assert(chosen@.len() == 1 && chosen@[0] == first);
        }
    }
    loop
        invariant_except_break
            m == chosen@.len(),
            forall|a: int, b: int| 0 <= a < b < chosen@.len() ==> chosen@[a] != chosen@[b],
        invariant
            n == pixels@.len(),
            n > 0,
            pixel_count_ok(n as nat),
            min_d@.len() == n,
            1 <= chosen@.len(),
            k >= 1 ==> chosen@.len() <= k,
            k == 0 ==> chosen@.len() == 1,
            forall|q: int| 0 <= q < chosen@.len() ==> pixels@.contains(#[trigger] chosen@[q]),
            forall|q: int| 0 <= q < n ==> (#[trigger] min_d@[q] == 0) == chosen@.contains(pixels@[q]) && min_d@[q] <= 195075,
        ensures
            seeded_from(pixels@, k as nat, chosen@),
        decreases k - chosen.len(),
    {
        if chosen.len() >= k {
            proof {
                assert(seed_split(pixels@, chosen@, m));
            }
            break;
        }
        proof {
            lemma_weight_total_bound(min_d@);
        }
        match weighted_index_new(&min_d) {
            None => {
                proof {
                    lemma_zero_total(min_d@);
                    assert forall|q: int| 0 <= q < n implies chosen@.take(m).contains(#[trigger] pixels@[q]) by {
                        assert(min_d@[q] == 0);
                        assert(chosen@.take(m) =~= chosen@);
                    }
                }
                let ghost prefix = chosen@;
                let p0 = pixels[0];
                while chosen.len() < k
                    invariant
                        prefix.len() == m,
                        chosen@.len() <= k,
                        k >= 1,
                        m <= chosen@.len(),
                        chosen@.take(m) == prefix,
                        p0 == pixels@[0],
                        forall|q: int| m <= q < chosen@.len() ==> #[trigger] chosen@[q] == p0,
                    decreases k - chosen.len(),
                {
                    chosen.push(p0);
                    assert(chosen@.take(m) =~= prefix);
                }
                proof {
                    assert(pixels@.contains(p0)) by { assert(pixels@[0] == p0); }
                    assert forall|q: int| 0 <= q < chosen@.len() implies pixels@.contains(#[trigger] chosen@[q]) by {
                        if q < m {
                            assert(chosen@[q] == prefix[q]);
                        }
                    }
                    assert forall|a: int, b: int| 0 <= a < b < m implies chosen@[a] != chosen@[b] by {
                        assert(chosen@[a] == prefix[a]);
                        assert(chosen@[b] == prefix[b]);
                    }
                    assert(seed_split(pixels@, chosen@, m));
                }
                break;
            },
            Some(table) => {
                let next_idx = weighted_index_sample(&table);
                let next = pixels[next_idx];
                proof {
                    assert(min_d@[next_idx as int] > 0);
                    assert(!chosen@.contains(next));
                    assert forall|a: int| 0 <= a < chosen@.len() implies chosen@[a] != next by {
                        if chosen@[a] == next {
                            assert(chosen@.contains(next));
                        }
                    }
                }
                let ghost old_chosen = chosen@;
                let ghost old_d = min_d@;
                chosen.push(next);
                proof {
                    m = m + 1;
                }
                let mut q: usize = 0;
                while q < n
                    invariant
                        n == pixels@.len(),
                        q <= n,
                        min_d@.len() == n,
                        old_d.len() == n,
                        chosen@ == old_chosen.push(next),
                        forall|t: int| 0 <= t < n ==> (#[trigger] old_d[t] == 0) == old_chosen.contains(pixels@[t]) && old_d[t] <= 195075,
                        forall|t: int| q <= t < n ==> #[trigger] min_d@[t] == old_d[t],
                        forall|t: int| 0 <= t < q ==> (#[trigger] min_d@[t] == 0) == chosen@.contains(pixels@[t]) && min_d@[t] <= 195075,
                    decreases n - q,
                {
                    let d = squared_distance(&pixels[q], &next);
                    proof {
                        lemma_sq_dist_zero(pixels@[q as int], next);
                        assert(chosen@.contains(pixels@[q as int]) == (old_chosen.contains(pixels@[q as int]) || pixels@[q as int] == next)) by {
                            if chosen@.contains(pixels@[q as int]) {
                                let w = choose|w: int| 0 <= w < chosen@.len() && chosen@[w] == pixels@[q as int];
                                if w < old_chosen.len() {
                                    assert(old_chosen[w] == chosen@[w]);
                                }
                            }
                            if old_chosen.contains(pixels@[q as int]) {
                                let w = choose|w: int| 0 <= w < old_chosen.len() && old_chosen[w] == pixels@[q as int];
                                assert(chosen@[w] == old_chosen[w]);
                            }
                            if pixels@[q as int] == next {
                                assert(chosen@[old_chosen.len() as int] == next);
                            }
                        }
                    }
                    if (d as u64) < min_d[q] {
                        min_d.set(q, d as u64);
                    }
                    q = q + 1;
                }
                proof {
                    assert(pixels@.contains(next)) by { assert(pixels@[next_idx as int] == next); }
                    assert forall|t: int| 0 <= t < chosen@.len() implies pixels@.contains(#[trigger] chosen@[t]) by {
                        if t < old_chosen.len() {
                            assert(chosen@[t] == old_chosen[t]);
                        }
                    }
                    assert forall|a: int, b: int| 0 <= a < b < chosen@.len() implies chosen@[a] != chosen@[b] by {
                        if b < old_chosen.len() {
                            assert(chosen@[a] == old_chosen[a]);
                            assert(chosen@[b] == old_chosen[b]);
                        } else {
                            assert(chosen@[a] == old_chosen[a]);
                        }
                    }
                }
            },
        }
    }
    chosen
}

// ─── Lloyd rounds and the backend ───────────────────────────────────────────

/// Nearest-centroid index of every pixel.
pub open spec fn assignment(pixels: Seq<Rgb>, cents: Seq<Rgb>) -> Seq<usize> {
    Seq::new(pixels.len(), |i: int| nearest(pixels[i], cents) as usize)
}

/// Up to `rounds` assign → recompute rounds, stopping after the first round in
/// which no centroid moved by 2 units or more.
pub open spec fn lloyd(pixels: Seq<Rgb>, cents: Seq<Rgb>, k: nat, rounds: nat) -> Seq<Rgb>
    decreases rounds,
{
    if rounds == 0 {
        cents
    } else {
        let next = recomputed(pixels, assignment(pixels, cents), k);
        if settled(cents, next) {
            next
        } else {
            lloyd(pixels, next, k, (rounds - 1) as nat)
        }
    }
}

/// `cents` without black entries, unless black occurs among the pixels: a black
/// centroid of a black-free image can only come from an empty cluster.
pub open spec fn without_stray_black(cents: Seq<Rgb>, pixels: Seq<Rgb>) -> Seq<Rgb>
    decreases cents.len(),
{
    if cents.len() == 0 {
        cents
    } else {
        let rest = without_stray_black(cents.drop_last(), pixels);
        if cents.last() != (Rgb { r: 0, g: 0, b: 0 }) || pixels.contains(Rgb { r: 0, g: 0, b: 0 }) {
            rest.push(cents.last())
        } else {
            rest
        }
    }
}

/// What k-means returns from the seeds `seeds`: the settled centroids without
/// stray black, or `NoColorsExtracted` if none is left.
pub open spec fn kmeans_outcome(pixels: Seq<Rgb>, seeds: Seq<Rgb>, k: nat, rounds: nat, r: Result<Vec<Rgb>, RwalError>) -> bool {
    let kept = without_stray_black(lloyd(pixels, seeds, k, rounds), pixels);
    if kept.len() > 0 {
        r is Ok && r->Ok_0@ == kept
    } else {
        r == Err::<Vec<Rgb>, RwalError>(RwalError::NoColorsExtracted)
    }
}

/// Number of clusters asked of k-means: the requested count, capped by the pixel count.
pub open spec fn cluster_count(pixels: Seq<Rgb>, count: nat) -> nat {
    if count <= pixels.len() { count } else { pixels.len() }
}

/// A k-means run from some k-means++ seeds `seeds` that ends in `r`.
pub open spec fn kmeans_run(pixels: Seq<Rgb>, count: nat, rounds: nat, seeds: Seq<Rgb>, r: Result<Vec<Rgb>, RwalError>) -> bool {
    &&& seeded_from(pixels, cluster_count(pixels, count), seeds)
    &&& kmeans_outcome(pixels, seeds, cluster_count(pixels, count), rounds, r)
}

/// The k-means backend.
pub struct KMeans;

fn has_black(pixels: &[Rgb]) -> (b: bool)
    ensures
        b == pixels@.contains(Rgb { r: 0, g: 0, b: 0 }),
{
    let mut i: usize = 0;
    while i < pixels.len()
        invariant
            i <= pixels@.len(),
            forall|q: int| 0 <= q < i ==> pixels@[q] != (Rgb { r: 0, g: 0, b: 0 }),
        decreases pixels@.len() - i,
    {
        if pixels[i].r == 0 && pixels[i].g == 0 && pixels[i].b == 0 {
            assert(pixels@[i as int] == (Rgb { r: 0, g: 0, b: 0 }));
            return true;
        }
        i = i + 1;
    }
    false
}

impl KMeans {
    pub fn name(&self) -> (n: &str)
        ensures
            n@ == "accurate"@,
    {
        "accurate"
    }

    pub fn generate(&self, pixels: &[Rgb], count: usize, iterations: u8) -> (r: Result<Vec<Rgb>, RwalError>)
        requires
            pixel_count_ok(pixels@.len()),
            count > 0 || iterations == 0,
        ensures
            pixels@.len() == 0 ==> r == Err::<Vec<Rgb>, RwalError>(RwalError::NoColorsExtracted),
            pixels@.len() > 0 ==> exists|seeds: Seq<Rgb>|
                #[trigger] kmeans_run(pixels@, count as nat, iterations as nat, seeds, r),
    {
        if pixels.len() == 0 {
            return Err(RwalError::NoColorsExtracted);
        }
        let k = if count <= pixels.len() { count } else { pixels.len() };
        let mut centroids = init_centroids(pixels, k);
        let ghost seeds = centroids@;
        let mut round: u8 = 0;
        assert(lloyd(pixels@, seeds, k as nat, iterations as nat) == lloyd(pixels@, centroids@, k as nat, (iterations - round) as nat));
        while round < iterations
            invariant_except_break
                lloyd(pixels@, seeds, k as nat, iterations as nat) == lloyd(pixels@, centroids@, k as nat, (iterations - round) as nat),
            invariant
                round <= iterations,
                k >= 1 || iterations == 0,
                centroids@.len() == k || iterations == 0,
                pixel_count_ok(pixels@.len()),
            ensures
                lloyd(pixels@, seeds, k as nat, iterations as nat) == centroids@,
            decreases iterations - round,
        {
            let assignments = assign_clusters(pixels, &centroids);
            proof {
                assert forall|i: int| 0 <= i < pixels@.len() implies #[trigger] assignments@[i] < k by {
                    lemma_nearest_bound(pixels@[i], centroids@);
                }
                assert(assignments@ =~= assignment(pixels@, centroids@));
            }
            let new_centroids = recompute_centroids(pixels, assignments.as_slice(), k);
            if centroids_converged(centroids.as_slice(), new_centroids.as_slice()) {
                centroids = new_centroids;
                break;
            }
            centroids = new_centroids;
            round = round + 1;
        }

        let black = has_black(pixels);
        let mut result: Vec<Rgb> = Vec::new();
        let mut j: usize = 0;
        while j < centroids.len()
            invariant
                j <= centroids@.len(),
                black == pixels@.contains(Rgb { r: 0, g: 0, b: 0 }),
                result@ == without_stray_black(centroids@.take(j as int), pixels@),
            decreases centroids@.len() - j,
        {
            let c = centroids[j];
            proof {
                let t = centroids@.take(j + 1);
                assert(t.drop_last() =~= centroids@.take(j as int));
            }
            if !(c.r == 0 && c.g == 0 && c.b == 0) || black {
                result.push(c);
            }
            j = j + 1;
        }
        assert(centroids@.take(centroids@.len() as int) =~= centroids@);
        let r = if result.len() == 0 {
            Err(RwalError::NoColorsExtracted)
        } else {
            Ok(result)
        };
        assert(seeded_from(pixels@, k as nat, seeds));
        assert(kmeans_outcome(pixels@, seeds, k as nat, iterations as nat, r));
        assert(kmeans_run(pixels@, count as nat, iterations as nat, seeds, r));
        r
    }
}

} // verus!

verus! {

proof fn lemma_lloyd_len(pixels: Seq<Rgb>, cents: Seq<Rgb>, k: nat, rounds: nat)
    requires
        cents.len() == k,
    ensures
        lloyd(pixels, cents, k, rounds).len() == k,
    decreases rounds,
{
    if rounds > 0 {
        let next = recomputed(pixels, assignment(pixels, cents), k);
        lemma_lloyd_len(pixels, next, k, (rounds - 1) as nat);
    }
}

proof fn lemma_without_stray_black_len(cents: Seq<Rgb>, pixels: Seq<Rgb>)
    ensures
        without_stray_black(cents, pixels).len() <= cents.len(),
    decreases cents.len(),
{
    if cents.len() > 0 {
        lemma_without_stray_black_len(cents.drop_last(), pixels);
    }
}

/// K-means never returns more colors than were asked for, nor more than
/// there are pixels (for a request of at least one color).
pub proof fn lemma_kmeans_count(pixels: Seq<Rgb>, count: nat, rounds: nat, seeds: Seq<Rgb>, r: Result<Vec<Rgb>, RwalError>)
    requires
        kmeans_run(pixels, count, rounds, seeds, r),
        count >= 1,
        pixels.len() >= 1,
        r is Ok,
    ensures
        r->Ok_0@.len() <= count,
        r->Ok_0@.len() <= pixels.len(),
{
    let k = cluster_count(pixels, count);
    lemma_lloyd_len(pixels, seeds, k, rounds);
    lemma_without_stray_black_len(lloyd(pixels, seeds, k, rounds), pixels);
}

} // verus!

verus! {

proof fn lemma_stray_black_kept(cents: Seq<Rgb>, pixels: Seq<Rgb>)
    ensures
        pixels.contains(Rgb { r: 0, g: 0, b: 0 }) ==> without_stray_black(cents, pixels) == cents,
        forall|c: Rgb| #[trigger] without_stray_black(cents, pixels).contains(c)
            <==> cents.contains(c) && (c != (Rgb { r: 0, g: 0, b: 0 }) || pixels.contains(Rgb { r: 0, g: 0, b: 0 })),
    decreases cents.len(),
{
    if cents.len() > 0 {
        let d = cents.drop_last();
        lemma_stray_black_kept(d, pixels);
        assert(cents =~= d.push(cents.last()));
        let rest = without_stray_black(d, pixels);
        assert forall|c: Rgb| #[trigger] without_stray_black(cents, pixels).contains(c)
            <==> cents.contains(c) && (c != (Rgb { r: 0, g: 0, b: 0 }) || pixels.contains(Rgb { r: 0, g: 0, b: 0 })) by {
            if cents.contains(c) {
                let q = choose|q: int| 0 <= q < cents.len() && cents[q] == c;
                if q < d.len() {
                    assert(d[q] == c);
                }
            }
            if rest.push(cents.last()).contains(c) {
                let q = choose|q: int| 0 <= q < rest.push(cents.last()).len() && rest.push(cents.last())[q] == c;
                if q < rest.len() {
                    assert(rest[q] == c);
                }
            }
            if rest.contains(c) {
                let q = choose|q: int| 0 <= q < rest.len() && rest[q] == c;
                assert(rest.push(cents.last())[q] == c);
            }
            if d.contains(c) {
                let q = choose|q: int| 0 <= q < d.len() && d[q] == c;
                assert(cents[q] == c);
            }
            assert(rest.push(cents.last())[rest.len() as int] == cents.last());
            assert(cents[cents.len() - 1] == cents.last());
        }
    } else {
        assert(cents =~= Seq::<Rgb>::empty());
    }
}

/// What k-means hands back of its final centroids (`lloyd` from the seeds it
/// drew): every returned color is a final centroid; when the image contains
/// black, all final centroids are returned, black among them; otherwise every
/// final centroid but black is returned, and black, which then can only come
/// from a cluster no pixel joined, never is.
pub proof fn lemma_kmeans_keeps_centroids(pixels: Seq<Rgb>, count: nat, rounds: nat, seeds: Seq<Rgb>, r: Result<Vec<Rgb>, RwalError>)
    requires
        kmeans_run(pixels, count, rounds, seeds, r),
    ensures
        r is Ok ==> forall|c: Rgb| #[trigger] r->Ok_0@.contains(c)
            ==> lloyd(pixels, seeds, cluster_count(pixels, count), rounds).contains(c),
        pixels.contains(Rgb { r: 0, g: 0, b: 0 }) && lloyd(pixels, seeds, cluster_count(pixels, count), rounds).len() > 0
            ==> r is Ok && r->Ok_0@ == lloyd(pixels, seeds, cluster_count(pixels, count), rounds),
        forall|c: Rgb| #[trigger] lloyd(pixels, seeds, cluster_count(pixels, count), rounds).contains(c)
            && c != (Rgb { r: 0, g: 0, b: 0 }) ==> r is Ok && r->Ok_0@.contains(c),
        !pixels.contains(Rgb { r: 0, g: 0, b: 0 }) && r is Ok ==> !r->Ok_0@.contains(Rgb { r: 0, g: 0, b: 0 }),
{
    let fin = lloyd(pixels, seeds, cluster_count(pixels, count), rounds);
    lemma_stray_black_kept(fin, pixels);
    let kept = without_stray_black(fin, pixels);
    let black = Rgb { r: 0, g: 0, b: 0 };
    assert(r is Ok ==> r->Ok_0@ == kept);
    if pixels.contains(black) && fin.len() > 0 {
        assert(kept == fin);
    }
    if !pixels.contains(black) {
        assert(!kept.contains(black));
    }
    assert forall|c: Rgb| #[trigger] kept.contains(c) implies fin.contains(c) by {}
    assert forall|c: Rgb| #[trigger] fin.contains(c) && c != (Rgb { r: 0, g: 0, b: 0 }) implies r is Ok && r->Ok_0@.contains(c) by {
        assert(kept.contains(c));
        assert(kept.len() > 0);
    }
}

} // verus!
