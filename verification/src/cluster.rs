//! The quantizer: iterative k-means clustering of the perceptual points
//! into a fixed number of centroid colors. Every step is pinned to a
//! spec-level mirror, so the result is a function of the inputs alone:
//! the same points, cluster count, iteration cap, threshold and seed give
//! the same centroids on every run.
//!
//! Policy for degenerate inputs: an empty input and an input with fewer
//! distinct colors than requested clusters are typed errors; a cluster
//! that loses all its points during an iteration keeps its previous
//! centroid.

use vstd::prelude::*;
use crate::fixmath::{sq, lemma_div_le_bound, lemma_mul_le};
use crate::color::{PerceptualColor, PaletteError, wf_color, wf_palette};

verus! {

/// Squared Euclidean distance between two perceptual colors.
pub open spec fn spec_sq_dist(p: PerceptualColor, q: PerceptualColor) -> int {
    sq(p.l - q.l) + sq(p.a - q.a) + sq(p.b - q.b)
}

/// Index of the centroid among `cs[0 .. n]` nearest to `p`, ties to the
/// lowest index.
pub open spec fn spec_nearest_upto(cs: Seq<PerceptualColor>, n: int, p: PerceptualColor) -> int
    decreases n,
{
    if n <= 1 {
        0
    } else {
        let b = spec_nearest_upto(cs, n - 1, p);
        if spec_sq_dist(p, cs[n - 1]) < spec_sq_dist(p, cs[b]) {
            n - 1
        } else {
            b
        }
    }
}

/// Index of the nearest centroid to `p`, ties to the lowest index.
pub open spec fn spec_nearest(cs: Seq<PerceptualColor>, p: PerceptualColor) -> int {
    spec_nearest_upto(cs, cs.len() as int, p)
}

fn sq_dist(p: &PerceptualColor, q: &PerceptualColor) -> (r: u64)
    requires
        wf_color(*p),
        wf_color(*q),
    ensures
        r as int == spec_sq_dist(*p, *q),
        r <= 81_000_000_000_000_000,
{
    let dl = p.l - q.l;
    let da = p.a - q.a;
    let db = p.b - q.b;
    proof {
        assert(0 <= dl as int * dl as int <= 100_000_000_000_000 && 0 <= da as int * da as int
            <= 40_000_000_000_000_000 && 0 <= db as int * db as int
            <= 40_000_000_000_000_000) by (nonlinear_arith)
            requires
                -10_000_000 <= dl as int <= 10_000_000,
                -200_000_000 <= da as int <= 200_000_000,
                -200_000_000 <= db as int <= 200_000_000,
        ;
    }
    (dl * dl + da * da + db * db) as u64
}

fn nearest(cs: &Vec<PerceptualColor>, p: &PerceptualColor) -> (r: usize)
    requires
        cs@.len() >= 1,
        wf_palette(cs@),
        wf_color(*p),
    ensures
        r as int == spec_nearest(cs@, *p),
        r < cs@.len(),
{
    let mut best: usize = 0;
    let mut bd = sq_dist(p, &cs[0]);
    let mut i: usize = 1;
    while i < cs.len()
        invariant
            1 <= i <= cs@.len(),
            best < i,
            wf_palette(cs@),
            wf_color(*p),
            best as int == spec_nearest_upto(cs@, i as int, *p),
            bd as int == spec_sq_dist(*p, cs@[best as int]),
        decreases cs@.len() - i,
    {
        let d = sq_dist(p, &cs[i]);
        if d < bd {
            best = i;
            bd = d;
        }
        i += 1;
    }
    best
}

/// Per-cluster statistics over the first `n` points: how many points are
/// assigned to centroid `j` and the component sums of those points.
pub open spec fn spec_stats_upto(
    points: Seq<PerceptualColor>,
    cs: Seq<PerceptualColor>,
    j: int,
    n: int,
) -> (int, int, int, int)
    decreases n,
{
    if n <= 0 {
        (0, 0, 0, 0)
    } else {
        let prev = spec_stats_upto(points, cs, j, n - 1);
        if spec_nearest(cs, points[n - 1]) == j {
            (prev.0 + 1, prev.1 + points[n - 1].l, prev.2 + points[n - 1].a, prev.3 + points[n
                - 1].b)
        } else {
            prev
        }
    }
}

proof fn lemma_stats_bounds(
    points: Seq<PerceptualColor>,
    cs: Seq<PerceptualColor>,
    j: int,
    n: int,
)
    requires
        wf_palette(points),
        n <= points.len(),
    ensures
        0 <= spec_stats_upto(points, cs, j, n).0 <= if n >= 0 {
            n
        } else {
            0
        },
        0 <= spec_stats_upto(points, cs, j, n).1 <= spec_stats_upto(points, cs, j, n).0
            * 10_000_000,
        -(spec_stats_upto(points, cs, j, n).0 * 100_000_000) <= spec_stats_upto(points, cs, j, n).2
            <= spec_stats_upto(points, cs, j, n).0 * 100_000_000,
        -(spec_stats_upto(points, cs, j, n).0 * 100_000_000) <= spec_stats_upto(points, cs, j, n).3
            <= spec_stats_upto(points, cs, j, n).0 * 100_000_000,
    decreases n,
{
    if n > 0 {
        lemma_stats_bounds(points, cs, j, n - 1);
        assert(wf_color(points[n - 1]));
    }
}

/// The centroid of cluster `j` after one reassignment pass: the truncated
/// component-wise mean of its points, or the old centroid if the cluster
/// is empty. The chroma means are computed on values shifted by the chroma
/// bound so every intermediate is non-negative.
pub open spec fn spec_new_centroid(
    points: Seq<PerceptualColor>,
    cs: Seq<PerceptualColor>,
    j: int,
) -> PerceptualColor {
    let st = spec_stats_upto(points, cs, j, points.len() as int);
    if st.0 == 0 {
        cs[j]
    } else {
        PerceptualColor {
            l: (st.1 / st.0) as i64,
            a: ((st.2 + st.0 * 100_000_000) / st.0 - 100_000_000) as i64,
            b: ((st.3 + st.0 * 100_000_000) / st.0 - 100_000_000) as i64,
        }
    }
}

/// One full k-means iteration: every centroid replaced by its cluster
/// mean.
pub open spec fn spec_step(points: Seq<PerceptualColor>, cs: Seq<PerceptualColor>) -> Seq<
    PerceptualColor,
> {
    Seq::new(cs.len(), |j: int| spec_new_centroid(points, cs, j))
}

/// Total movement between two centroid sequences: the sum of squared
/// distances over the first `n` positions.
pub open spec fn spec_movement_upto(a: Seq<PerceptualColor>, b: Seq<PerceptualColor>, n: int) -> int
    decreases n,
{
    if n <= 0 {
        0
    } else {
        spec_movement_upto(a, b, n - 1) + spec_sq_dist(a[n - 1], b[n - 1])
    }
}

/// The iteration: step until the total centroid movement is at most the
/// threshold or the fuel (iteration cap) runs out.
pub open spec fn spec_iterate(
    points: Seq<PerceptualColor>,
    cs: Seq<PerceptualColor>,
    fuel: int,
    threshold: int,
) -> Seq<PerceptualColor>
    decreases fuel,
{
    if fuel <= 0 {
        cs
    } else {
        let next = spec_step(points, cs);
        if spec_movement_upto(cs, next, cs.len() as int) <= threshold {
            next
        } else {
            spec_iterate(points, next, fuel - 1, threshold)
        }
    }
}

/// The deterministic seeded initialization: scan the points cyclically
/// from `start`, collecting the first `k` distinct colors in scan order.
pub open spec fn spec_initial_upto(
    points: Seq<PerceptualColor>,
    start: int,
    i: int,
    k: int,
) -> Seq<PerceptualColor>
    decreases i,
{
    if i <= 0 || points.len() == 0 {
        Seq::<PerceptualColor>::empty()
    } else {
        let prev = spec_initial_upto(points, start, i - 1, k);
        let idx = (start + i - 1) % (points.len() as int);
        if prev.len() < k && !prev.contains(points[idx]) {
            prev.push(points[idx])
        } else {
            prev
        }
    }
}

/// What the quantizer returns: the clustering result as a function of the
/// inputs alone.
pub open spec fn spec_cluster(
    points: Seq<PerceptualColor>,
    k: int,
    max_iterations: int,
    threshold: int,
    seed: int,
) -> Result<Seq<PerceptualColor>, PaletteError> {
    if points.len() == 0 {
        Err(PaletteError::EmptyInput)
    } else {
        let init = spec_initial_upto(points, seed % (points.len() as int), points.len() as int, k);
        if init.len() < k {
            Err(PaletteError::TooFewDistinctColors)
        } else {
            Ok(spec_iterate(points, init, max_iterations, threshold))
        }
    }
}

proof fn lemma_initial_saturates(points: Seq<PerceptualColor>, start: int, i: int, i2: int, k: int)
    requires
        0 <= i <= i2,
        spec_initial_upto(points, start, i, k).len() == k,
    ensures
        spec_initial_upto(points, start, i2, k) == spec_initial_upto(points, start, i, k),
    decreases i2 - i,
{
    if i2 > i {
        lemma_initial_saturates(points, start, i, i2 - 1, k);
    }
}

fn contains_color(v: &Vec<PerceptualColor>, c: &PerceptualColor) -> (r: bool)
    ensures
        r == v@.contains(*c),
{
    let mut i: usize = 0;
    while i < v.len()
        invariant
            i <= v@.len(),
            forall|t: int| 0 <= t < i ==> v@[t] != *c,
        decreases v@.len() - i,
    {
        if v[i] == *c {
            proof {
                assert(v@[i as int] == *c);
            }
            return true;
        }
        i += 1;
    }
    false
}

fn initial_centroids(points: &Vec<PerceptualColor>, k: usize, seed: u64) -> (r: Vec<
    PerceptualColor,
>)
    requires
        points@.len() >= 1,
        wf_palette(points@),
    ensures
        r@ == spec_initial_upto(
            points@,
            (seed as int) % (points@.len() as int),
            points@.len() as int,
            k as int,
        ),
        r@.len() <= k,
        wf_palette(r@),
{
    let n = points.len();
    let start: usize = (seed % (n as u64)) as usize;
    let mut r: Vec<PerceptualColor> = Vec::new();
    let mut i: usize = 0;
    while i < n
        invariant
            i <= n,
            n == points@.len(),
            start as int == (seed as int) % (points@.len() as int),
            wf_palette(points@),
            r@ == spec_initial_upto(points@, start as int, i as int, k as int),
            r@.len() <= k,
            wf_palette(r@),
        decreases n - i,
    {
        if r.len() == k {
            proof {
                lemma_initial_saturates(points@, start as int, i as int, points@.len() as int,
                    k as int);
            }
            return r;
        }
        let idx: usize = (((start as u128) + (i as u128)) % (n as u128)) as usize;
        let p = points[idx];
        if !contains_color(&r, &p) {
            r.push(p);
        }
        i += 1;
    }
    r
}

fn step_centroids(points: &Vec<PerceptualColor>, cs: &Vec<PerceptualColor>) -> (r: Vec<
    PerceptualColor,
>)
    requires
        points@.len() >= 1,
        cs@.len() >= 1,
        wf_palette(points@),
        wf_palette(cs@),
    ensures
        r@ == spec_step(points@, cs@),
        r@.len() == cs@.len(),
        wf_palette(r@),
{
    let k = cs.len();
    let mut counts: Vec<u64> = Vec::new();
    let mut sl: Vec<u128> = Vec::new();
    let mut sa: Vec<u128> = Vec::new();
    let mut sb: Vec<u128> = Vec::new();
    let mut j0: usize = 0;
    while j0 < k
        invariant
            j0 <= k,
            counts@.len() == j0,
            sl@.len() == j0,
            sa@.len() == j0,
            sb@.len() == j0,
            forall|j: int|
                0 <= j < j0 ==> #[trigger] counts@[j] == 0 && sl@[j] == 0 && sa@[j] == 0
                    && sb@[j] == 0,
        decreases k - j0,
    {
        counts.push(0);
        sl.push(0);
        sa.push(0);
        sb.push(0);
        j0 += 1;
    }
    let mut n: usize = 0;
    while n < points.len()
        invariant
            n <= points@.len(),
            k == cs@.len(),
            counts@.len() == k,
            sl@.len() == k,
            sa@.len() == k,
            sb@.len() == k,
            wf_palette(points@),
            wf_palette(cs@),
            cs@.len() >= 1,
            forall|j: int|
                0 <= j < k ==> {
                    let st = spec_stats_upto(points@, cs@, j, n as int);
                    #[trigger] counts@[j] as int == st.0 && sl@[j] as int == st.1 && sa@[j] as int
                        == st.2 + st.0 * 100_000_000 && sb@[j] as int == st.3 + st.0
                        * 100_000_000
                },
        decreases points@.len() - n,
    {
        let p = points[n];
        let ji = nearest(cs, &p);
        proof {
            lemma_stats_bounds(points@, cs@, ji as int, n as int);
            lemma_mul_le(
                spec_stats_upto(points@, cs@, ji as int, n as int).0,
                200_000_000,
                points@.len() as int,
                200_000_000,
            );
            assert(points@.len() <= 0xffff_ffff_ffff_ffff);
        }
        let c0 = counts[ji];
        counts.set(ji, c0 + 1);
        let l0 = sl[ji];
        sl.set(ji, l0 + (p.l as u128));
        let a0 = sa[ji];
        sa.set(ji, a0 + ((p.a + 100_000_000) as u128));
        let b0 = sb[ji];
        sb.set(ji, b0 + ((p.b + 100_000_000) as u128));
        proof {
            assert forall|j: int| 0 <= j < k implies {
                let st = spec_stats_upto(points@, cs@, j, n + 1);
                #[trigger] counts@[j] as int == st.0 && sl@[j] as int == st.1 && sa@[j] as int
                    == st.2 + st.0 * 100_000_000 && sb@[j] as int == st.3 + st.0 * 100_000_000
            } by {
                let stp = spec_stats_upto(points@, cs@, j, n as int);
                let st = spec_stats_upto(points@, cs@, j, n + 1);
                if j == ji as int {
                    assert(st.0 == stp.0 + 1);
                } else {
                    assert(st == stp);
                }
            }
        }
        n += 1;
    }
    let mut r: Vec<PerceptualColor> = Vec::new();
    let mut j: usize = 0;
    while j < k
        invariant
            j <= k,
            k == cs@.len(),
            counts@.len() == k,
            sl@.len() == k,
            sa@.len() == k,
            sb@.len() == k,
            wf_palette(points@),
            wf_palette(cs@),
            r@.len() == j,
            forall|t: int|
                0 <= t < j ==> #[trigger] r@[t] == spec_new_centroid(points@, cs@, t),
            wf_palette(r@),
            forall|t: int|
                0 <= t < k ==> {
                    let st = spec_stats_upto(points@, cs@, t, points@.len() as int);
                    #[trigger] counts@[t] as int == st.0 && sl@[t] as int == st.1 && sa@[t] as int
                        == st.2 + st.0 * 100_000_000 && sb@[t] as int == st.3 + st.0
                        * 100_000_000
                },
        decreases k - j,
    {
        let cnt = counts[j];
        let ghost st = spec_stats_upto(points@, cs@, j as int, points@.len() as int);
        proof {
            lemma_stats_bounds(points@, cs@, j as int, points@.len() as int);
        }
        if cnt == 0 {
            r.push(cs[j]);
        } else {
            proof {
                lemma_div_le_bound(st.1, st.0, 10_000_000);
                assert(st.2 + st.0 * 100_000_000 <= st.0 * 200_000_000);
                lemma_div_le_bound(st.2 + st.0 * 100_000_000, st.0, 200_000_000);
                lemma_div_le_bound(st.3 + st.0 * 100_000_000, st.0, 200_000_000);
            }
            let ml = (sl[j] / (cnt as u128)) as i64;
            let ma = ((sa[j] / (cnt as u128)) as i64) - 100_000_000;
            let mb = ((sb[j] / (cnt as u128)) as i64) - 100_000_000;
            r.push(PerceptualColor { l: ml, a: ma, b: mb });
        }
        j += 1;
    }
    proof {
        assert(r@ =~= spec_step(points@, cs@));
    }
    r
}

fn movement(a: &Vec<PerceptualColor>, b: &Vec<PerceptualColor>) -> (r: u128)
    requires
        a@.len() == b@.len(),
        wf_palette(a@),
        wf_palette(b@),
    ensures
        r as int == spec_movement_upto(a@, b@, a@.len() as int),
{
    let mut acc: u128 = 0;
    let mut i: usize = 0;
    while i < a.len()
        invariant
            i <= a@.len(),
            a@.len() == b@.len(),
            wf_palette(a@),
            wf_palette(b@),
            acc as int == spec_movement_upto(a@, b@, i as int),
            acc <= (i as int) * 81_000_000_000_000_000,
        decreases a@.len() - i,
    {
        let d = sq_dist(&a[i], &b[i]);
        proof {
            lemma_mul_le(i as int + 1, 81_000_000_000_000_000, a@.len() as int,
                81_000_000_000_000_000);
            assert(a@.len() <= 0xffff_ffff_ffff_ffff);
        }
        acc = acc + (d as u128);
        i += 1;
    }
    acc
}

/// Clusters the perceptual points into `k` centroids. Deterministic: the
/// result is exactly `spec_cluster` of the inputs. Succeeds if and only if
/// the input is non-empty and the seeded scan finds `k` distinct colors —
/// that is, the input holds at least `k` distinct colors; an empty input
/// and too few distinct colors are the two error cases, and on success the
/// result holds exactly `k` well-formed centroids.
pub fn cluster(
    points: &Vec<PerceptualColor>,
    k: usize,
    max_iterations: u32,
    threshold: u64,
    seed: u64,
) -> (r: Result<Vec<PerceptualColor>, PaletteError>)
    requires
        wf_palette(points@),
    ensures
        ({
            let sc = spec_cluster(
                points@,
                k as int,
                max_iterations as int,
                threshold as int,
                seed as int,
            );
            match r {
                Ok(v) => sc == Ok::<Seq<PerceptualColor>, PaletteError>(v@) && v@.len() == k
                    && wf_palette(v@),
                Err(e) => sc == Err::<Seq<PerceptualColor>, PaletteError>(e),
            }
        }),
        points@.len() == 0 ==> r == Err::<Vec<PerceptualColor>, PaletteError>(
            PaletteError::EmptyInput,
        ),
        r is Ok <==> points@.len() > 0 && points@.to_set().len() >= k as int,
{
    proof {
        lemma_cluster_success_condition(
            points@,
            k as int,
            max_iterations as int,
            threshold as int,
            seed as int,
        );
    }
    if points.len() == 0 {
        return Err(PaletteError::EmptyInput);
    }
    let init = initial_centroids(points, k, seed);
    if init.len() < k {
        return Err(PaletteError::TooFewDistinctColors);
    }
    if k == 0 {
        proof {
            let e = Seq::<PerceptualColor>::empty();
            assert(spec_step(points@, e) =~= e);
            assert(spec_iterate(points@, e, max_iterations as int, threshold as int) =~= e);
            assert(init@ =~= e);
        }
        return Ok(Vec::new());
    }
    let mut cs = init;
    let ghost init_s = cs@;
    let ghost target = spec_iterate(points@, init_s, max_iterations as int, threshold as int);
    let mut it: u32 = 0;
    let mut done: bool = false;
    while it < max_iterations && !done
        invariant
            it <= max_iterations,
            points@.len() >= 1,
            wf_palette(points@),
            cs@.len() == k,
            k >= 1,
            wf_palette(cs@),
            done ==> cs@ == target,
            !done ==> spec_iterate(points@, cs@, (max_iterations - it) as int, threshold as int)
                == target,
        decreases max_iterations - it,
    {
        let next = step_centroids(points, &cs);
        let moved = movement(&cs, &next);
        let converged = moved <= (threshold as u128);
        proof {
            assert(spec_iterate(points@, cs@, (max_iterations - it) as int, threshold as int) == (
            if spec_movement_upto(cs@, next@, cs@.len() as int) <= threshold as int {
                next@
            } else {
                spec_iterate(points@, next@, (max_iterations - it - 1) as int, threshold as int)
            }));
        }
        cs = next;
        it += 1;
        if converged {
            done = true;
        }
    }
    Ok(cs)
}

/// Law: clustering is deterministic — any two results obtained from the
/// same points, cluster count, iteration cap, threshold and seed are
/// identical, since `cluster` pins its result to `spec_cluster` of those
/// inputs alone.
pub proof fn lemma_cluster_deterministic(
    points: Seq<PerceptualColor>,
    k: int,
    max_iterations: int,
    threshold: int,
    seed: int,
    r1: Result<Seq<PerceptualColor>, PaletteError>,
    r2: Result<Seq<PerceptualColor>, PaletteError>,
)
    requires
        r1 == spec_cluster(points, k, max_iterations, threshold, seed),
        r2 == spec_cluster(points, k, max_iterations, threshold, seed),
    ensures
        r1 == r2,
{
}

proof fn lemma_initial_len_le(points: Seq<PerceptualColor>, start: int, i: int, k: int)
    ensures
        spec_initial_upto(points, start, i, k).len() <= if k >= 0 {
            k
        } else {
            0
        },
    decreases i,
{
    if i > 0 && points.len() > 0 {
        lemma_initial_len_le(points, start, i - 1, k);
    }
}

proof fn lemma_iterate_len(
    points: Seq<PerceptualColor>,
    cs: Seq<PerceptualColor>,
    fuel: int,
    threshold: int,
)
    ensures
        spec_iterate(points, cs, fuel, threshold).len() == cs.len(),
    decreases fuel,
{
    if fuel > 0 {
        let next = spec_step(points, cs);
        if !(spec_movement_upto(cs, next, cs.len() as int) <= threshold) {
            lemma_iterate_len(points, next, fuel - 1, threshold);
        }
    }
}

proof fn lemma_initial_prefix(points: Seq<PerceptualColor>, start: int, i: int, k: int)
    requires
        points.len() > 0,
        i >= 1,
    ensures
        spec_initial_upto(points, start, i - 1, k).len() <= spec_initial_upto(
            points,
            start,
            i,
            k,
        ).len() <= spec_initial_upto(points, start, i - 1, k).len() + 1,
        forall|e: PerceptualColor|
            spec_initial_upto(points, start, i - 1, k).contains(e) ==> spec_initial_upto(
                points,
                start,
                i,
                k,
            ).contains(e),
{
    let prev = spec_initial_upto(points, start, i - 1, k);
    let cur = spec_initial_upto(points, start, i, k);
    assert forall|e: PerceptualColor| prev.contains(e) implies cur.contains(e) by {
        let j = choose|j: int| 0 <= j < prev.len() && prev[j] == e;
        assert(cur[j] == e);
        assert(cur.contains(e));
    }
}

/// If the scan stopped short of `k`, it has seen every point value among
/// the first `i` scan positions.
proof fn lemma_initial_covers(points: Seq<PerceptualColor>, start: int, i: int, t: int, k: int)
    requires
        points.len() > 0,
        0 <= t < i,
        spec_initial_upto(points, start, i, k).len() < k,
    ensures
        spec_initial_upto(points, start, i, k).contains(
            points[(start + t) % (points.len() as int)],
        ),
    decreases i,
{
    let prev = spec_initial_upto(points, start, i - 1, k);
    let cur = spec_initial_upto(points, start, i, k);
    lemma_initial_prefix(points, start, i, k);
    if t == i - 1 {
        let idx = (start + i - 1) % (points.len() as int);
        if prev.contains(points[idx]) {
        } else {
            assert(prev.len() < k);
            assert(cur == prev.push(points[idx]));
            assert(cur[cur.len() - 1] == points[idx]);
            assert(cur.contains(points[idx]));
        }
    } else {
        lemma_initial_covers(points, start, i - 1, t, k);
    }
}

/// The scan's output has no duplicates and only holds point values.
proof fn lemma_initial_distinct(points: Seq<PerceptualColor>, start: int, i: int, k: int)
    ensures
        spec_initial_upto(points, start, i, k).no_duplicates(),
        forall|e: PerceptualColor|
            spec_initial_upto(points, start, i, k).contains(e) ==> points.contains(e),
    decreases i,
{
    if i > 0 && points.len() > 0 {
        lemma_initial_distinct(points, start, i - 1, k);
        let prev = spec_initial_upto(points, start, i - 1, k);
        let cur = spec_initial_upto(points, start, i, k);
        let idx = (start + i - 1) % (points.len() as int);
        vstd::arithmetic::div_mod::lemma_mod_division_less_than_divisor(
            start + i - 1,
            points.len() as int,
        );
        if prev.len() < k && !prev.contains(points[idx]) {
            assert(points.contains(points[idx]));
            assert forall|e: PerceptualColor| cur.contains(e) implies points.contains(e) by {
                let j = choose|j: int| 0 <= j < cur.len() && cur[j] == e;
                if j < prev.len() {
                    assert(prev.contains(prev[j]));
                }
            }
        }
    }
}

/// Law: the quantizer succeeds if and only if the input is non-empty and
/// holds at least `k` distinct colors.
pub proof fn lemma_cluster_success_condition(
    points: Seq<PerceptualColor>,
    k: int,
    max_iterations: int,
    threshold: int,
    seed: int,
)
    requires
        k >= 0,
    ensures
        spec_cluster(points, k, max_iterations, threshold, seed) is Ok <==> (points.len() > 0
            && points.to_set().len() >= k),
{
    broadcast use vstd::seq_lib::seq_to_set_is_finite;

    if points.len() > 0 {
        let n = points.len() as int;
        let start = seed % n;
        vstd::arithmetic::div_mod::lemma_mod_division_less_than_divisor(seed, n);
        let init = spec_initial_upto(points, start, n, k);
        lemma_initial_distinct(points, start, n, k);
        lemma_initial_len_le(points, start, n, k);
        if init.len() >= k {
            init.unique_seq_to_set();
            assert forall|e: PerceptualColor|
                init.to_set().contains(e) implies points.to_set().contains(e) by {}
            vstd::set_lib::lemma_len_subset(init.to_set(), points.to_set());
        } else {
            assert forall|e: PerceptualColor|
                points.to_set().contains(e) implies init.to_set().contains(e) by {
                let j = choose|j: int| 0 <= j < points.len() && points[j] == e;
                let t = if j >= start {
                    j - start
                } else {
                    j + n - start
                };
                if start + t == j {
                    vstd::arithmetic::div_mod::lemma_small_mod(j as nat, n as nat);
                } else {
                    assert(start + t == j + n);
                    vstd::arithmetic::div_mod::lemma_mod_add_multiples_vanish(j, n);
                    vstd::arithmetic::div_mod::lemma_small_mod(j as nat, n as nat);
                }
                assert((start + t) % n == j);
                lemma_initial_covers(points, start, n, t, k);
            }
            vstd::set_lib::lemma_len_subset(points.to_set(), init.to_set());
            init.lemma_cardinality_of_set();
        }
    }
}

/// Law: whenever clustering succeeds it returns exactly `k` centroids.
pub proof fn lemma_cluster_count(
    points: Seq<PerceptualColor>,
    k: int,
    max_iterations: int,
    threshold: int,
    seed: int,
)
    requires
        k >= 0,
        spec_cluster(points, k, max_iterations, threshold, seed) is Ok,
    ensures
        spec_cluster(points, k, max_iterations, threshold, seed)->Ok_0.len() == k,
{
    let start = seed % (points.len() as int);
    let init = spec_initial_upto(points, start, points.len() as int, k);
    lemma_initial_len_le(points, start, points.len() as int, k);
    lemma_iterate_len(points, init, max_iterations, threshold);
}

} // verus!
