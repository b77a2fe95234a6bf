//! Picking high-novelty nodes: keep those above a threshold, then draw a
//! seeded random sample of them.
use vstd::prelude::*;
use rand::rngs::StdRng;
use rand::seq::SliceRandom;
use rand::SeedableRng;
use crate::algo::{path_costs_of, strong_components_of};
use crate::novelty::{hop_ends, novelty_ppm, novelty_scores, relation_ends};
use crate::taxonomy::RelationshipGraph;

verus! {

/// Positions of `scores` whose score exceeds `threshold`, in increasing order.
pub open spec fn above_threshold(scores: Seq<u64>, threshold: u64) -> Seq<usize>
    decreases scores.len(),
{
    if scores.len() == 0 {
        Seq::empty()
    } else if scores.last() > threshold {
        above_threshold(scores.drop_last(), threshold).push((scores.len() - 1) as usize)
    } else {
        above_threshold(scores.drop_last(), threshold)
    }
}

proof fn lemma_above_threshold_facts(scores: Seq<u64>, threshold: u64)
    requires
        scores.len() <= usize::MAX,
    ensures
        above_threshold(scores, threshold).no_duplicates(),
        forall|i: int|
            0 <= i < above_threshold(scores, threshold).len() ==> #[trigger] above_threshold(scores, threshold)[i]
                < scores.len() && scores[above_threshold(scores, threshold)[i] as int] > threshold,
        forall|v: int| 0 <= v < scores.len() && scores[v] > threshold ==> above_threshold(scores, threshold).contains(v as usize),
    decreases scores.len(),
{
    if scores.len() > 0 {
        let p = scores.drop_last();
        lemma_above_threshold_facts(p, threshold);
        let a = above_threshold(scores, threshold);
        let pa = above_threshold(p, threshold);
        assert forall|i: int| 0 <= i < a.len() implies #[trigger] a[i] < scores.len() && scores[a[i] as int] > threshold by {
            if i < pa.len() {
                assert(a[i] == pa[i]);
                assert(p[pa[i] as int] == scores[pa[i] as int]);
            }
        }
        if scores.last() > threshold {
            assert forall|i: int, j: int| 0 <= i < j < a.len() implies a[i] != a[j] by {
                if j == a.len() - 1 {
                    assert(pa[i] < p.len());
                } else {
                    assert(a[i] == pa[i] && a[j] == pa[j]);
                }
            }
        }
        assert forall|v: int| 0 <= v < scores.len() && scores[v] > threshold implies a.contains(v as usize) by {
            if v < scores.len() - 1 {
                assert(p[v] == scores[v]);
                let i = choose|i: int| 0 <= i < above_threshold(p, threshold).len() && above_threshold(p, threshold)[i] == v as usize;
                assert(a[i] == v as usize);
            } else {
                assert(a.last() == v as usize);
            }
        }
    }
}

/// The nodes whose score in `scores` exceeds `threshold`, in node order.
pub fn novel_candidates(scores: &Vec<u64>, threshold: u64) -> (r: Vec<usize>)
    ensures
        r@ == above_threshold(scores@, threshold),
{
    let mut r: Vec<usize> = Vec::new();
    let mut k: usize = 0;
    while k < scores.len()
        invariant
            k <= scores@.len(),
            r@ == above_threshold(scores@.subrange(0, k as int), threshold),
        decreases scores@.len() - k,
    {
        assert(scores@.subrange(0, k + 1).drop_last() =~= scores@.subrange(0, k as int));
        if scores[k] > threshold {
            r.push(k);
        }
        k = k + 1;
    }
    assert(scores@.subrange(0, k as int) =~= scores@);
    r
}

/// Relies on rand's `SliceRandom::choose_multiple`, drawing from a `StdRng`
/// made by `SeedableRng::seed_from_u64(seed)`: it returns `amount` elements,
/// or all of them if there are fewer, taken at distinct positions.
#[verifier::external_body]
fn choose_sample(candidates: &Vec<usize>, amount: usize, seed: u64) -> (r: Vec<usize>)
    ensures
        r@.len() == if amount <= candidates@.len() { amount as int } else { candidates@.len() as int },
        forall|i: int| 0 <= i < r@.len() ==> candidates@.contains(#[trigger] r@[i]),
        candidates@.no_duplicates() ==> r@.no_duplicates(),
{
    let mut rng = StdRng::seed_from_u64(seed);
    candidates.choose_multiple(&mut rng, amount).cloned().collect()
}

/// Novelty score of node `v`, in millionths (see `novelty_ppm`).
pub open spec fn score_of(g: RelationshipGraph, v: int) -> nat {
    novelty_ppm(
        g,
        v,
        strong_components_of(g.nodes@.len() as nat, relation_ends(g)),
        path_costs_of(g.nodes@.len() as nat, hop_ends(g), v as nat, None),
    )
}

/// Draws, with the random source seeded by `seed`, up to `sample_size`
/// distinct nodes among those whose novelty score (in millionths) exceeds
/// `threshold`: all of them when there are no more than `sample_size`.
pub fn subsample_novel_techniques(graph: &RelationshipGraph, threshold: u64, sample_size: usize, seed: u64) -> (r: Vec<usize>)
    requires
        graph.wf(),
    ensures
        r@.no_duplicates(),
        forall|i: int| 0 <= i < r@.len() ==> #[trigger] r@[i] < graph.nodes@.len() && score_of(*graph, r@[i] as int) > threshold,
        exists|scores: Seq<u64>|
            #![trigger above_threshold(scores, threshold)]
            scores.len() == graph.nodes@.len() && (forall|v: int| 0 <= v < scores.len() ==> #[trigger] scores[v] == score_of(*graph, v))
                && r@.len() == if sample_size <= above_threshold(scores, threshold).len() {
                sample_size as int
            } else {
                above_threshold(scores, threshold).len() as int
            },
{
    let scores = novelty_scores(graph);
    let candidates = novel_candidates(&scores, threshold);
    proof {
        lemma_above_threshold_facts(scores@, threshold);
    }
    let r = choose_sample(&candidates, sample_size, seed);
    assert forall|i: int| 0 <= i < r@.len() implies #[trigger] r@[i] < graph.nodes@.len() && score_of(*graph, r@[i] as int) > threshold by {
        assert(candidates@.contains(r@[i]));
        let j = choose|j: int| 0 <= j < candidates@.len() && candidates@[j] == r@[i];
        assert(candidates@[j] < scores@.len());
    }
    assert(forall|v: int| 0 <= v < scores@.len() ==> #[trigger] scores@[v] == score_of(*graph, v));
    r
}

} // verus!
