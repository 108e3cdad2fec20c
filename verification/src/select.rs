//! Population selection: fitness-proportionate resampling over squared
//! scores, the elite pick, liveness accounting and the generation-boundary
//! trigger.

use vstd::prelude::*;

verus! {

/// Sum of the squared scores of the first `n` entries: the cumulative
/// weight of fitness-proportionate selection.
pub open spec fn prefix_w(s: Seq<u128>, n: int) -> int
    decreases n,
{
    if n <= 0 {
        0
    } else {
        prefix_w(s, n - 1) + s[n - 1] * s[n - 1]
    }
}

/// The index the linear scan settles on for the draw `d`, starting from
/// `i`: the first index whose cumulative weight exceeds `d`, or the last
/// index when the scan runs out.
pub open spec fn sel_index(s: Seq<u128>, d: int, i: int) -> int
    decreases s.len() - i,
{
    if i >= s.len() - 1 {
        s.len() - 1
    } else if prefix_w(s, i + 1) > d {
        i
    } else {
        sel_index(s, d, i + 1)
    }
}

/// The slot a draw selects under fitness-proportionate sampling.
pub open spec fn selected(s: Seq<u128>, d: int) -> int {
    sel_index(s, d, 0)
}

proof fn lemma_weight_nonneg(x: int)
    ensures
        x * x >= 0,
{
    assert(x * x >= 0) by (nonlinear_arith);
}

/// Cumulative weights grow with the index.
pub proof fn lemma_prefix_mono(s: Seq<u128>, a: int, b: int)
    requires
        0 <= a <= b,
    ensures
        prefix_w(s, a) <= prefix_w(s, b),
    decreases b - a,
{
    if a < b {
        lemma_prefix_mono(s, a, b - 1);
        lemma_weight_nonneg(s[b - 1] as int);
    }
}

proof fn lemma_weight_bounded(x: int)
    requires
        0 <= x <= 1_000_000_000,
    ensures
        0 <= x * x <= 1_000_000_000_000_000_000,
{
    assert(0 <= x * x <= 1_000_000_000_000_000_000) by (nonlinear_arith)
        requires
            0 <= x <= 1_000_000_000,
    ;
}

/// Every score is small enough that cumulative squared weights cannot
/// overflow the accumulator.
pub open spec fn scores_bounded(s: Seq<u128>) -> bool {
    forall|i: int| 0 <= i < s.len() ==> #[trigger] s[i] <= 1_000_000_000
}

/// The total selection weight: the sum of every entry's squared score.
pub fn total_sq_weight(scores: &Vec<u128>) -> (t: u128)
    requires
        scores@.len() <= 1_000_000,
        scores_bounded(scores@),
    ensures
        t == prefix_w(scores@, scores@.len() as int),
{
    let n: usize = scores.len();
    let mut acc: u128 = 0;
    for i in 0..n
        invariant
            n == scores@.len(),
            n <= 1_000_000,
            scores_bounded(scores@),
            acc == prefix_w(scores@, i as int),
            acc <= (i as int) * 1_000_000_000_000_000_000,
    {
        proof {
            lemma_weight_bounded(scores@[i as int] as int);
            assert((i as int) * 1_000_000_000_000_000_000 + 1_000_000_000_000_000_000 == (i + 1)
                * 1_000_000_000_000_000_000) by (nonlinear_arith);
        }
        acc = acc + scores[i] * scores[i];
    }
    acc
}

/// The linear scan of fitness-proportionate selection: walk the cumulative
/// weights and take the first index whose cumulative weight exceeds the
/// draw; a scan that completes without a match (possible only when the
/// draw reaches the total) falls back to the last index.
pub fn select_source(scores: &Vec<u128>, draw: u128) -> (r: usize)
    requires
        1 <= scores@.len() <= 1_000_000,
        scores_bounded(scores@),
    ensures
        r < scores@.len(),
        r as int == selected(scores@, draw as int),
{
    let n: usize = scores.len();
    let mut cum: u128 = 0;
    for i in 0..(n - 1)
        invariant
            n == scores@.len(),
            1 <= n <= 1_000_000,
            scores_bounded(scores@),
            cum == prefix_w(scores@, i as int),
            cum <= (i as int) * 1_000_000_000_000_000_000,
            selected(scores@, draw as int) == sel_index(scores@, draw as int, i as int),
            prefix_w(scores@, i as int) <= draw,
    {
        proof {
            lemma_weight_bounded(scores@[i as int] as int);
            assert((i as int) * 1_000_000_000_000_000_000 + 1_000_000_000_000_000_000 == (i + 1)
                * 1_000_000_000_000_000_000) by (nonlinear_arith);
        }
        cum = cum + scores[i] * scores[i];
        if cum > draw {
            return i;
        }
    }
    n - 1
}

/// The bucket reading of fitness-proportionate selection: a draw lands on
/// index `i` exactly when it falls in `i`'s cumulative-weight bucket, whose
/// width is `i`'s squared score — so under uniform draws each index is
/// selected with probability proportional to its squared score.
pub proof fn lemma_selection_bucket(s: Seq<u128>, d: int, i: int)
    requires
        s.len() >= 1,
        0 <= d < prefix_w(s, s.len() as int),
        0 <= i < s.len(),
    ensures
        selected(s, d) == i <==> (prefix_w(s, i) <= d < prefix_w(s, i + 1)),
{
    lemma_sel_lands_in_bucket(s, d, 0);
    let r = selected(s, d);
    if r < i {
        lemma_prefix_mono(s, r + 1, i);
    }
    if r > i {
        lemma_prefix_mono(s, i + 1, r);
    }
}

proof fn lemma_sel_lands_in_bucket(s: Seq<u128>, d: int, i: int)
    requires
        s.len() >= 1,
        0 <= i < s.len(),
        prefix_w(s, i) <= d,
        d < prefix_w(s, s.len() as int),
    ensures
        i <= sel_index(s, d, i) < s.len(),
        prefix_w(s, sel_index(s, d, i)) <= d < prefix_w(s, sel_index(s, d, i) + 1),
    decreases s.len() - i,
{
    if i >= s.len() - 1 {
    } else if prefix_w(s, i + 1) > d {
    } else {
        lemma_sel_lands_in_bucket(s, d, i + 1);
    }
}

/// Pick a source slot for reproduction: weight each slot by its squared
/// score and draw; when every weight is zero, fall back to a uniform
/// random slot instead of dividing by zero.
pub fn pick_source(scores: &Vec<u128>, rng: &mut rand_chacha::ChaCha8Rng) -> (r: usize)
    requires
        1 <= scores@.len() <= 1_000_000,
        scores_bounded(scores@),
    ensures
        r < scores@.len(),
        prefix_w(scores@, scores@.len() as int) > 0 ==> exists|d: int|
            0 <= d < prefix_w(scores@, scores@.len() as int) && r as int == selected(scores@, d),
{
    let total: u128 = total_sq_weight(scores);
    if total == 0 {
        crate::rng::sample_index(rng, scores.len())
    } else {
        let draw: u128 = crate::rng::sample_u128(rng, total);
        let r: usize = select_source(scores, draw);
        proof {
            assert(0 <= (draw as int) && (draw as int) < prefix_w(scores@, scores@.len() as int)
                && r as int == selected(scores@, draw as int));
        }
        r
    }
}

/// The first index holding the highest score: the elite slot preserved
/// unmutated across a generation boundary.
pub fn best_index(scores: &Vec<u128>) -> (r: usize)
    requires
        scores@.len() >= 1,
    ensures
        r < scores@.len(),
        forall|j: int| 0 <= j < scores@.len() ==> scores@[r as int] >= #[trigger] scores@[j],
        forall|j: int| 0 <= j < r ==> #[trigger] scores@[j] < scores@[r as int],
{
    let n: usize = scores.len();
    let mut best: usize = 0;
    for i in 1..n
        invariant
            n == scores@.len(),
            best < i,
            forall|j: int| 0 <= j < i ==> scores@[best as int] >= #[trigger] scores@[j],
            forall|j: int| 0 <= j < best ==> #[trigger] scores@[j] < scores@[best as int],
    {
        if scores[i] > scores[best] {
            best = i;
        }
    }
    best
}

/// Number of `true` entries among the first `n`.
pub open spec fn count_true(s: Seq<bool>, n: int) -> int
    decreases n,
{
    if n <= 0 {
        0
    } else {
        count_true(s, n - 1) + if s[n - 1] {
            1int
        } else {
            0int
        }
    }
}

/// The population's running liveness count.
pub fn alive_count(flags: &Vec<bool>) -> (r: usize)
    ensures
        r == count_true(flags@, flags@.len() as int),
        r <= flags@.len(),
{
    let n: usize = flags.len();
    let mut count: usize = 0;
    for i in 0..n
        invariant
            n == flags@.len(),
            count == count_true(flags@, i as int),
            count <= i,
    {
        if flags[i] {
            count += 1;
        }
    }
    count
}

/// Whether a generation boundary fires: the elapsed wall time exceeds the
/// schedule (a base duration plus a per-generation increment), or no
/// vehicle is left alive.
pub fn boundary_due(elapsed: u64, base: u64, increment: u64, generation: u64, alive: usize) -> (r:
    bool)
    requires
        generation <= 1_000_000_000,
        increment <= 1_000_000_000,
    ensures
        r == (elapsed > base + generation * increment || alive == 0),
{
    proof {
        crate::geom::lemma_mul_bound(generation as int, increment as int, 1_000_000_000);
    }
    let budget: u128 = (base as u128) + (generation as u128) * (increment as u128);
    (elapsed as u128) > budget || alive == 0
}

} // verus!
