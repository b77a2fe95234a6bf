//! Novelty score of a node of the relationship graph, in millionths: the
//! average of label uniqueness, isolation and path diversity, each in [0, 1].
use vstd::prelude::*;
use crate::algo::{
    are_strong_components, mutually_reach, pairs_of, path_costs, path_costs_of, reaches, strong_components,
    strong_components_of,
};
use crate::distribution::{first_seen, strings_view, tally};
use crate::model::MAX_ELEMENTS;
use crate::taxonomy::{RelationEdge, RelationshipGraph};

verus! {

/// One, in millionths.
pub const SCORE_ONE: u64 = 1_000_000;

/// `num / den` in millionths, rounded down; 0 when `den` is 0.
pub open spec fn ratio_ppm(num: nat, den: nat) -> nat {
    if den == 0 {
        0
    } else {
        (SCORE_ONE as int * num as int / den as int) as nat
    }
}

/// Labels of the edges that leave node `v`, in edge order.
pub open spec fn out_labels(edges: Seq<RelationEdge>, v: int) -> Seq<Seq<char>>
    decreases edges.len(),
{
    if edges.len() == 0 {
        Seq::empty()
    } else if edges.last().source == v {
        out_labels(edges.drop_last(), v).push(edges.last().label@)
    } else {
        out_labels(edges.drop_last(), v)
    }
}

/// Size of the first component of `comps` that holds `v`, or 0 if none does.
pub open spec fn component_size(comps: Seq<Seq<usize>>, v: int) -> nat
    decreases comps.len(),
{
    if comps.len() == 0 {
        0
    } else if comps[0].contains(v as usize) {
        comps[0].len()
    } else {
        component_size(comps.drop_first(), v)
    }
}

/// Number of nodes other than `v` that a search result `costs` from `v` reached.
pub open spec fn reached_count(costs: Seq<Option<u64>>, v: int) -> nat
    decreases costs.len(),
{
    if costs.len() == 0 {
        0
    } else {
        reached_count(costs.drop_last(), v) + if costs.last() is Some && costs.len() - 1 != v {
            1nat
        } else {
            0nat
        }
    }
}

/// Sum of the costs that a search result `costs` from `v` found for the
/// nodes other than `v`.
pub open spec fn cost_sum(costs: Seq<Option<u64>>, v: int) -> nat
    decreases costs.len(),
{
    if costs.len() == 0 {
        0
    } else {
        cost_sum(costs.drop_last(), v) + if costs.len() - 1 == v {
            0nat
        } else {
            match costs.last() {
                Some(c) => c as nat,
                None => 0nat,
            }
        }
    }
}

/// Distinct outgoing labels over outgoing edges; 0 for a node without outgoing edges.
pub open spec fn uniqueness_ppm(g: RelationshipGraph, v: int) -> nat {
    ratio_ppm(first_seen(out_labels(g.edges@, v)).len(), out_labels(g.edges@, v).len())
}

/// One less the share of all nodes that stand in the node's strongly connected component.
pub open spec fn isolation_ppm(n: nat, size: nat) -> nat {
    ratio_ppm((n - (if size <= n { size } else { n })) as nat, n)
}

/// `1 / (1 + average hop distance)` from `v` to the other nodes that the
/// search from `v` reached, which is `reached / (reached + sum)`; 1 when it
/// reached no other node.
pub open spec fn diversity_ppm(costs: Seq<Option<u64>>, v: int) -> nat {
    if reached_count(costs, v) == 0 {
        SCORE_ONE as nat
    } else {
        ratio_ppm(reached_count(costs, v), reached_count(costs, v) + cost_sum(costs, v))
    }
}

/// Novelty score of node `v` in millionths, given the strongly connected
/// components `comps` of the graph and the hop distances `hops` from `v`.
pub open spec fn novelty_ppm(g: RelationshipGraph, v: int, comps: Seq<Seq<usize>>, hops: Seq<Option<u64>>) -> nat {
    ((uniqueness_ppm(g, v) + isolation_ppm(g.nodes@.len() as nat, component_size(comps, v)) + diversity_ppm(hops, v))
        / 3) as nat
}

/// Each edge's endpoints, by edge index.
pub open spec fn relation_ends(g: RelationshipGraph) -> Seq<(usize, usize)> {
    g.edges@.map_values(|e: RelationEdge| (e.source, e.target))
}

/// Each edge's endpoints with a cost of one hop, by edge index.
pub open spec fn hop_ends(g: RelationshipGraph) -> Seq<(usize, usize, u64)> {
    g.edges@.map_values(|e: RelationEdge| (e.source, e.target, 1u64))
}

proof fn lemma_ratio_at_most_one(num: nat, den: nat)
    requires
        num <= den,
    ensures
        ratio_ppm(num, den) <= SCORE_ONE,
{
    if den > 0 {
        assert(SCORE_ONE as int * num as int / den as int <= SCORE_ONE as int * den as int / den as int) by {
            vstd::arithmetic::mul::lemma_mul_inequality(num as int, den as int, SCORE_ONE as int);
            vstd::arithmetic::div_mod::lemma_div_is_ordered(SCORE_ONE as int * num as int, SCORE_ONE as int * den as int, den as int);
            vstd::arithmetic::mul::lemma_mul_inequality(num as int, den as int, SCORE_ONE as int);
        }
        vstd::arithmetic::div_mod::lemma_div_by_multiple(SCORE_ONE as int, den as int);
    }
}

proof fn lemma_first_seen_len(labels: Seq<Seq<char>>)
    ensures
        first_seen(labels).len() <= labels.len(),
    decreases labels.len(),
{
    if labels.len() > 0 {
        lemma_first_seen_len(labels.drop_last());
    }
}

/// Every novelty score lies between 0 and 1.
pub proof fn lemma_novelty_in_unit_range(g: RelationshipGraph, v: int, comps: Seq<Seq<usize>>, hops: Seq<Option<u64>>)
    ensures
        novelty_ppm(g, v, comps, hops) <= SCORE_ONE,
{
    lemma_first_seen_len(out_labels(g.edges@, v));
    lemma_ratio_at_most_one(first_seen(out_labels(g.edges@, v)).len(), out_labels(g.edges@, v).len());
    let n = g.nodes@.len() as nat;
    let s = component_size(comps, v);
    lemma_ratio_at_most_one((n - (if s <= n { s } else { n })) as nat, n);
    if reached_count(hops, v) > 0 {
        lemma_ratio_at_most_one(reached_count(hops, v), reached_count(hops, v) + cost_sum(hops, v));
    }
}

fn ratio_exec(num: u128, den: u128) -> (r: u64)
    requires
        num <= den,
        den <= 0x1_0000_0000_0000_0000_0000_0000u128,
    ensures
        r == ratio_ppm(num as nat, den as nat),
{
    if den == 0 {
        0
    } else {
        proof {
            lemma_ratio_at_most_one(num as nat, den as nat);
            assert(1_000_000 * num <= 1_000_000 * 0x1_0000_0000_0000_0000_0000_0000u128) by (nonlinear_arith)
                requires
                    num <= 0x1_0000_0000_0000_0000_0000_0000u128,
            ;
        }
        (1_000_000 * num / den) as u64
    }
}

/// Labels of the edges that leave node `v`.
fn outgoing_labels(graph: &RelationshipGraph, v: usize) -> (r: Vec<String>)
    ensures
        strings_view(r@) == out_labels(graph.edges@, v as int),
        r@.len() <= graph.edges@.len(),
{
    let mut r: Vec<String> = Vec::new();
    let mut k: usize = 0;
    while k < graph.edges.len()
        invariant
            k <= graph.edges@.len(),
            strings_view(r@) == out_labels(graph.edges@.subrange(0, k as int), v as int),
            r@.len() <= k,
        decreases graph.edges@.len() - k,
    {
        let ghost pre = graph.edges@.subrange(0, k as int);
        assert(graph.edges@.subrange(0, k + 1).drop_last() =~= pre);
        if graph.edges[k].source == v {
            let ghost before = r@;
            r.push(graph.edges[k].label.clone());
            assert(strings_view(r@) =~= strings_view(before).push(graph.edges@[k as int].label@));
        }
        k = k + 1;
    }
    assert(graph.edges@.subrange(0, k as int) =~= graph.edges@);
    r
}

/// Size of the first component of `comps` that holds `v` (see `component_size`).
pub fn size_of_component(comps: &Vec<Vec<usize>>, v: usize) -> (r: usize)
    ensures
        r == component_size(comps.deep_view(), v as int),
{
    let ghost cs = comps.deep_view();
    let mut c: usize = 0;
    assert(cs.skip(0) =~= cs);
    while c < comps.len()
        invariant
            cs == comps.deep_view(),
            c <= comps@.len(),
            component_size(cs, v as int) == component_size(cs.skip(c as int), v as int),
        decreases comps@.len() - c,
    {
        assert(cs.skip(c as int).drop_first() =~= cs.skip(c + 1));
        assert(cs.skip(c as int)[0] == comps@[c as int]@);
        let comp = &comps[c];
        let ghost head = cs.skip(c as int)[0];
        assert(head =~= comp@);
        let mut i: usize = 0;
        while i < comp.len()
            invariant
                i <= comp@.len(),
                head == comp@,
                cs == comps.deep_view(),
                cs.skip(c as int).len() > 0,
                head == cs.skip(c as int)[0],
                component_size(cs, v as int) == component_size(cs.skip(c as int), v as int),
                forall|j: int| 0 <= j < i ==> comp@[j] != v,
            decreases comp@.len() - i,
        {
            if comp[i] == v {
                assert(head.contains(v));
                return comp.len();
            }
            i = i + 1;
        }
        assert(!comp@.contains(v));
        c = c + 1;
    }
    assert(cs.skip(c as int) =~= Seq::<Seq<usize>>::empty());
    0
}

/// Number of nodes other than `v` that a search result from `v` reached, and
/// the sum of their costs.
pub fn reach_totals(costs: &Vec<Option<u64>>, v: usize) -> (r: (u128, u128))
    requires
        costs@.len() <= MAX_ELEMENTS,
    ensures
        r.0 == reached_count(costs@, v as int),
        r.1 == cost_sum(costs@, v as int),
        r.0 <= costs@.len(),
        r.1 <= costs@.len() * 0xffff_ffff_ffff_ffff,
{
    let mut reached: u128 = 0;
    let mut sum: u128 = 0;
    let mut k: usize = 0;
    while k < costs.len()
        invariant
            costs@.len() <= MAX_ELEMENTS,
            k <= costs@.len(),
            reached == reached_count(costs@.subrange(0, k as int), v as int),
            sum == cost_sum(costs@.subrange(0, k as int), v as int),
            reached <= k,
            sum <= k * 0xffff_ffff_ffff_ffff,
        decreases costs@.len() - k,
    {
        assert(costs@.subrange(0, k + 1).drop_last() =~= costs@.subrange(0, k as int));
        if k != v {
            match costs[k] {
                Some(c) => {
                    reached = reached + 1;
                    sum = sum + c as u128;
                },
                None => {},
            }
        }
        k = k + 1;
    }
    assert(costs@.subrange(0, k as int) =~= costs@);
    (reached, sum)
}

/// Novelty score of node `v` in millionths, given the strongly connected
/// components `comps` of `graph` and the search result `hops` from `v`.
pub fn novelty_from_results(graph: &RelationshipGraph, v: usize, comps: &Vec<Vec<usize>>, hops: &Vec<Option<u64>>) -> (r: u64)
    requires
        graph.wf(),
        v < graph.nodes@.len(),
        hops@.len() <= MAX_ELEMENTS,
    ensures
        r == novelty_ppm(*graph, v as int, comps.deep_view(), hops@),
        r <= SCORE_ONE,
{
    let labels = outgoing_labels(graph, v);
    let distinct = tally(&labels);
    proof {
        lemma_first_seen_len(strings_view(labels@));
    }
    let uniqueness = ratio_exec(distinct.len() as u128, labels.len() as u128);
    let n = graph.nodes.len();
    let size = size_of_component(comps, v);
    let inside = if size <= n { size } else { n };
    let isolation = ratio_exec((n - inside) as u128, n as u128);
    let (reached, sum) = reach_totals(hops, v);
    let diversity = if reached == 0 {
        SCORE_ONE
    } else {
        proof {
            assert(sum <= 0xffff_ffffusize * 0xffff_ffff_ffff_ffff);
        }
        ratio_exec(reached, reached + sum)
    };
    proof {
        lemma_novelty_in_unit_range(*graph, v as int, comps.deep_view(), hops@);
    }
    (uniqueness + isolation + diversity) / 3
}

fn relation_end_list(graph: &RelationshipGraph) -> (r: (Vec<(usize, usize)>, Vec<(usize, usize, u64)>))
    ensures
        r.0@ == relation_ends(*graph),
        r.1@ == hop_ends(*graph),
{
    let mut plain: Vec<(usize, usize)> = Vec::new();
    let mut hops: Vec<(usize, usize, u64)> = Vec::new();
    let mut k: usize = 0;
    while k < graph.edges.len()
        invariant
            k <= graph.edges@.len(),
            plain@ == relation_ends(*graph).subrange(0, k as int),
            hops@ == hop_ends(*graph).subrange(0, k as int),
        decreases graph.edges@.len() - k,
    {
        plain.push((graph.edges[k].source, graph.edges[k].target));
        hops.push((graph.edges[k].source, graph.edges[k].target, 1));
        k = k + 1;
        assert(plain@ =~= relation_ends(*graph).subrange(0, k as int));
        assert(hops@ =~= hop_ends(*graph).subrange(0, k as int));
    }
    assert(relation_ends(*graph).subrange(0, k as int) =~= relation_ends(*graph));
    assert(hop_ends(*graph).subrange(0, k as int) =~= hop_ends(*graph));
    (plain, hops)
}

/// The novelty score of every node, in millionths, by node index.
pub fn novelty_scores(graph: &RelationshipGraph) -> (r: Vec<u64>)
    requires
        graph.wf(),
    ensures
        r@.len() == graph.nodes@.len(),
        forall|v: int|
            0 <= v < r@.len() ==> #[trigger] r@[v] == novelty_ppm(
                *graph,
                v,
                strong_components_of(graph.nodes@.len() as nat, relation_ends(*graph)),
                path_costs_of(graph.nodes@.len() as nat, hop_ends(*graph), v as nat, None),
            ) && r@[v] <= SCORE_ONE,
        forall|v: int|
            0 <= v < r@.len() && reaches_no_other(*graph, v) ==> #[trigger] r@[v] == (uniqueness_ppm(*graph, v)
                + isolation_ppm(graph.nodes@.len() as nat, 1) + SCORE_ONE) / 3,
{
    let n = graph.nodes.len();
    let (plain, hops) = relation_end_list(graph);
    assert forall|k: int| 0 <= k < plain@.len() implies (#[trigger] plain@[k]).0 < n && plain@[k].1 < n by {
        assert(graph.edges@[k].source < n);
    }
    assert forall|k: int| 0 <= k < hops@.len() implies (#[trigger] hops@[k]).0 < n && hops@[k].1 < n && hops@[k].2
        <= crate::algo::MAX_EDGE_COST by {
        assert(graph.edges@[k].source < n);
    }
    let comps = strong_components(n, &plain);
    assert(pairs_of(hop_ends(*graph)) =~= relation_ends(*graph));
    let mut r: Vec<u64> = Vec::new();
    let mut v: usize = 0;
    while v < n
        invariant
            graph.wf(),
            n == graph.nodes@.len(),
            plain@ == relation_ends(*graph),
            hops@ == hop_ends(*graph),
            crate::algo::costed_ends_within(n as nat, hops@),
            comps.deep_view() == strong_components_of(n as nat, relation_ends(*graph)),
            are_strong_components(comps.deep_view(), n as nat, relation_ends(*graph)),
            pairs_of(hop_ends(*graph)) == relation_ends(*graph),
            v <= n,
            r@.len() == v,
            forall|w: int|
                0 <= w < v ==> #[trigger] r@[w] == novelty_ppm(
                    *graph,
                    w,
                    strong_components_of(n as nat, relation_ends(*graph)),
                    path_costs_of(n as nat, hop_ends(*graph), w as nat, None),
                ) && r@[w] <= SCORE_ONE,
            forall|w: int|
                0 <= w < v && reaches_no_other(*graph, w) ==> #[trigger] r@[w] == (uniqueness_ppm(*graph, w)
                    + isolation_ppm(n as nat, 1) + SCORE_ONE) / 3,
        decreases n - v,
    {
        let costs = path_costs(n, &hops, v, None);
        let s = novelty_from_results(graph, v, &comps, &costs);
        proof {
            if reaches_no_other(*graph, v as int) {
                lemma_lone_component(comps.deep_view(), n as nat, relation_ends(*graph), v as int);
                lemma_nothing_reached(costs@, v as int);
            }
        }
        r.push(s);
        v = v + 1;
    }
    r
}

/// Novelty score of node `node` in millionths (see `novelty_ppm`).
pub fn calculate_novelty_score(graph: &RelationshipGraph, node: usize) -> (r: u64)
    requires
        graph.wf(),
        node < graph.nodes@.len(),
    ensures
        r == novelty_ppm(
            *graph,
            node as int,
            strong_components_of(graph.nodes@.len() as nat, relation_ends(*graph)),
            path_costs_of(graph.nodes@.len() as nat, hop_ends(*graph), node as nat, None),
        ),
        r <= SCORE_ONE,
        reaches_no_other(*graph, node as int) ==> r == (uniqueness_ppm(*graph, node as int) + isolation_ppm(
            graph.nodes@.len() as nat,
            1,
        ) + SCORE_ONE) / 3,
{
    let n = graph.nodes.len();
    let (plain, hops) = relation_end_list(graph);
    assert forall|k: int| 0 <= k < plain@.len() implies (#[trigger] plain@[k]).0 < n && plain@[k].1 < n by {
        assert(graph.edges@[k].source < n);
    }
    assert forall|k: int| 0 <= k < hops@.len() implies (#[trigger] hops@[k]).0 < n && hops@[k].1 < n && hops@[k].2
        <= crate::algo::MAX_EDGE_COST by {
        assert(graph.edges@[k].source < n);
    }
    let comps = strong_components(n, &plain);
    let costs = path_costs(n, &hops, node, None);
    let r = novelty_from_results(graph, node, &comps, &costs);
    proof {
        if reaches_no_other(*graph, node as int) {
            assert(pairs_of(hop_ends(*graph)) =~= relation_ends(*graph));
            lemma_lone_component(comps.deep_view(), n as nat, relation_ends(*graph), node as int);
            lemma_nothing_reached(costs@, node as int);
        }
    }
    r
}

/// Node `v` of `g` reaches no node but itself.
pub open spec fn reaches_no_other(g: RelationshipGraph, v: int) -> bool {
    forall|w: int| 0 <= w < g.nodes@.len() && w != v ==> !#[trigger] reaches(relation_ends(g), v, w)
}

proof fn lemma_nothing_reached(costs: Seq<Option<u64>>, v: int)
    requires
        forall|w: int| 0 <= w < costs.len() && w != v ==> #[trigger] costs[w] is None,
    ensures
        reached_count(costs, v) == 0,
    decreases costs.len(),
{
    if costs.len() > 0 {
        let p = costs.drop_last();
        assert forall|w: int| 0 <= w < p.len() && w != v implies #[trigger] p[w] is None by {
            assert(p[w] == costs[w]);
        }
        lemma_nothing_reached(p, v);
    }
}

/// Component size found by `component_size` is that of a component holding `v`.
proof fn lemma_component_size_some(comps: Seq<Seq<usize>>, v: int, c: int)
    requires
        0 <= c < comps.len(),
        comps[c].contains(v as usize),
    ensures
        exists|d: int| 0 <= d < comps.len() && #[trigger] comps[d].contains(v as usize) && component_size(comps, v) == comps[d].len(),
    decreases comps.len(),
{
    if comps[0].contains(v as usize) {
        assert(comps[0].contains(v as usize) && component_size(comps, v) == comps[0].len());
    } else {
        let rest = comps.drop_first();
        assert(rest[c - 1] == comps[c]);
        lemma_component_size_some(rest, v, c - 1);
        let d = choose|d: int| 0 <= d < rest.len() && #[trigger] rest[d].contains(v as usize) && component_size(rest, v) == rest[d].len();
        assert(comps[d + 1] == rest[d]);
    }
}

/// A node that reaches no other node is a component of its own.
proof fn lemma_lone_component(comps: Seq<Seq<usize>>, n: nat, ends: Seq<(usize, usize)>, v: int)
    requires
        are_strong_components(comps, n, ends),
        0 <= v < n,
        n <= MAX_ELEMENTS,
        forall|w: int| 0 <= w < n && w != v ==> !#[trigger] reaches(ends, v, w),
    ensures
        component_size(comps, v) == 1,
{
    assert(crate::algo::in_some_component(comps, v));
    let c = choose|c: int| 0 <= c < comps.len() && #[trigger] comps[c].contains(v as usize);
    lemma_component_size_some(comps, v, c);
    let d = choose|d: int| 0 <= d < comps.len() && #[trigger] comps[d].contains(v as usize) && component_size(comps, v) == comps[d].len();
    let comp = comps[d];
    let i = choose|i: int| 0 <= i < comp.len() && comp[i] == v as usize;
    assert forall|j: int| 0 <= j < comp.len() implies #[trigger] comp[j] == v as usize by {
        assert(mutually_reach(ends, comps[d][i] as int, comps[d][j] as int));
        assert(comps[d][j] < n);
        assert(comps[d][i] as int == v);
        if comp[j] as int != v {
            assert(reaches(ends, v, comp[j] as int));
        }
    }
    assert(comp.no_duplicates());
    if comp.len() > 1 {
        assert(comp[0] == comp[1]);
    }
}

} // verus!
