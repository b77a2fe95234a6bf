//! Graph algorithms of the petgraph crate, run on the library's arenas.
//! Each function here builds a petgraph graph with one node per arena index
//! and one edge per listed edge, then calls one petgraph algorithm.
use vstd::prelude::*;
use petgraph::algo::{connected_components, dijkstra, kosaraju_scc};
use petgraph::graph::{DiGraph, NodeIndex, UnGraph};
use petgraph::visit::EdgeRef;
use crate::model::MAX_ELEMENTS;

verus! {

/// Largest edge cost that a shortest-path query may carry.
pub const MAX_EDGE_COST: u64 = 2520;

/// The edges of `ends` together with their reversals: the graph taken as undirected.
pub open spec fn both_ways(ends: Seq<(usize, usize)>) -> Seq<(usize, usize)> {
    ends + ends.map_values(|e: (usize, usize)| (e.1, e.0))
}

/// The least node of each connected component of the undirected graph on
/// nodes `0 .. n` with edges `ends`: the nodes that no smaller node reaches.
pub open spec fn component_leaders(n: nat, ends: Seq<(usize, usize)>) -> Set<int> {
    Set::new(|v: int| 0 <= v < n && forall|u: int| 0 <= u < v ==> !#[trigger] reaches(both_ways(ends), u, v))
}

/// Number of connected components of the undirected graph on nodes `0 .. n`
/// with edges `ends`, one per leader.
pub open spec fn component_count(n: nat, ends: Seq<(usize, usize)>) -> nat {
    component_leaders(n, ends).len()
}

/// A graph without nodes has no component; one with `n` nodes has from 1 to `n`.
pub proof fn lemma_component_count_range(n: nat, ends: Seq<(usize, usize)>)
    ensures
        n == 0 ==> component_count(n, ends) == 0,
        n > 0 ==> 1 <= component_count(n, ends) <= n,
{
    let leaders = component_leaders(n, ends);
    vstd::set_lib::lemma_int_range(0, n as int);
    assert(leaders.subset_of(vstd::set_lib::set_int_range(0, n as int)));
    vstd::set_lib::lemma_len_subset(leaders, vstd::set_lib::set_int_range(0, n as int));
    if n > 0 {
        assert(leaders.contains(0));
        if leaders.len() == 0 {
            leaders.lemma_len0_is_empty();
            assert(Set::<int>::empty().contains(0));
        }
    }
}

/// Least path costs found by Dijkstra's search from `start`, stopping at
/// `goal` when one is given, by node index.
pub uninterp spec fn path_costs_of(
    n: nat,
    ends: Seq<(usize, usize, u64)>,
    start: nat,
    goal: Option<usize>,
) -> Seq<Option<u64>>;

/// Strongly connected components of the directed graph on nodes `0 .. n`
/// with edges `ends`, as found by Kosaraju's algorithm.
pub uninterp spec fn strong_components_of(n: nat, ends: Seq<(usize, usize)>) -> Seq<Seq<usize>>;

pub open spec fn ends_within(n: nat, ends: Seq<(usize, usize)>) -> bool {
    forall|k: int| 0 <= k < ends.len() ==> (#[trigger] ends[k]).0 < n && ends[k].1 < n
}

pub open spec fn costed_ends_within(n: nat, ends: Seq<(usize, usize, u64)>) -> bool {
    forall|k: int| 0 <= k < ends.len() ==> (#[trigger] ends[k]).0 < n && ends[k].1 < n && ends[k].2 <= MAX_EDGE_COST
}

/// `p` lists indices of edges of `ends` that form a walk from `s` to `v`;
/// the empty walk goes from a node to itself.
pub open spec fn is_walk(ends: Seq<(usize, usize)>, s: int, v: int, p: Seq<int>) -> bool {
    &&& forall|i: int| 0 <= i < p.len() ==> 0 <= #[trigger] p[i] < ends.len()
    &&& if p.len() == 0 {
        s == v
    } else {
        &&& ends[p[0]].0 == s
        &&& ends[p[p.len() - 1]].1 == v
        &&& forall|i: int| 0 <= i < p.len() - 1 ==> ends[#[trigger] p[i]].1 == ends[p[i + 1]].0
    }
}

/// Some walk along `ends` leads from `s` to `v`.
pub open spec fn reaches(ends: Seq<(usize, usize)>, s: int, v: int) -> bool {
    exists|p: Seq<int>| #[trigger] is_walk(ends, s, v, p)
}

/// The endpoints of each costed edge.
pub open spec fn pairs_of(ends: Seq<(usize, usize, u64)>) -> Seq<(usize, usize)> {
    ends.map_values(|e: (usize, usize, u64)| (e.0, e.1))
}

/// Total cost of the edges that `p` lists.
pub open spec fn walk_cost(ends: Seq<(usize, usize, u64)>, p: Seq<int>) -> nat
    decreases p.len(),
{
    if p.len() == 0 {
        0
    } else {
        walk_cost(ends, p.drop_last()) + ends[p.last()].2 as nat
    }
}

/// Some walk from `s` to `v` costs `c`.
pub open spec fn walk_of_cost(ends: Seq<(usize, usize, u64)>, s: int, v: int, c: nat) -> bool {
    exists|p: Seq<int>| #[trigger] is_walk(pairs_of(ends), s, v, p) && walk_cost(ends, p) == c
}

/// `c` is the least cost of a walk from `s` to `v`.
pub open spec fn is_least_cost(ends: Seq<(usize, usize, u64)>, s: int, v: int, c: nat) -> bool {
    &&& walk_of_cost(ends, s, v, c)
    &&& forall|p: Seq<int>| #[trigger] is_walk(pairs_of(ends), s, v, p) ==> walk_cost(ends, p) >= c
}

/// Nodes `a` and `b` reach each other.
pub open spec fn mutually_reach(ends: Seq<(usize, usize)>, a: int, b: int) -> bool {
    reaches(ends, a, b) && reaches(ends, b, a)
}

/// Node `v` stands in some component of `comps`.
pub open spec fn in_some_component(comps: Seq<Seq<usize>>, v: int) -> bool {
    exists|c: int| 0 <= c < comps.len() && #[trigger] comps[c].contains(v as usize)
}

/// `comps` are the strongly connected components of the graph on nodes
/// `0 .. n` with edges `ends`: each node stands in one, a component holds
/// each of its nodes once, and a component holds exactly the nodes that
/// reach each other with its members.
pub open spec fn are_strong_components(comps: Seq<Seq<usize>>, n: nat, ends: Seq<(usize, usize)>) -> bool {
    &&& forall|c: int| 0 <= c < comps.len() ==> (#[trigger] comps[c]).no_duplicates()
    &&& forall|c: int, i: int| 0 <= c < comps.len() && 0 <= i < comps[c].len() ==> #[trigger] comps[c][i] < n
    &&& forall|v: int| 0 <= v < n ==> #[trigger] in_some_component(comps, v)
    &&& forall|c: int, i: int, j: int|
        0 <= c < comps.len() && 0 <= i < comps[c].len() && 0 <= j < comps[c].len() ==> mutually_reach(
            ends,
            #[trigger] comps[c][i] as int,
            #[trigger] comps[c][j] as int,
        )
    &&& forall|c: int, i: int, u: int|
        0 <= c < comps.len() && 0 <= i < comps[c].len() && 0 <= u < n && #[trigger] mutually_reach(
            ends,
            #[trigger] comps[c][i] as int,
            u,
        ) ==> comps[c].contains(u as usize)
}

/// Relies on petgraph's `connected_components`, which labels the `n` nodes
/// with a union-find over the edges, so that two nodes share a label exactly
/// when they are connected, and counts the distinct labels.
#[verifier::external_body]
pub(crate) fn count_components(n: usize, ends: &Vec<(usize, usize)>) -> (r: usize)
    requires
        n <= MAX_ELEMENTS,
        ends@.len() <= MAX_ELEMENTS,
        ends_within(n as nat, ends@),
    ensures
        r == component_count(n as nat, ends@),
{
    let mut g = UnGraph::<(), ()>::with_capacity(n, ends.len());
    for _ in 0..n {
        g.add_node(());
    }
    for &(a, b) in ends.iter() {
        g.add_edge(NodeIndex::new(a), NodeIndex::new(b), ());
    }
    connected_components(&g)
}

/// Relies on petgraph's `dijkstra`: the map it returns, of each node that
/// the search reached to its least known cost, laid out by node index. The
/// start is scored 0; every score is the cost of a walk the search followed;
/// the search ends when it settles the goal or runs out of reachable nodes, so
/// the goal's score, or every score when there is no goal, is the least cost,
/// and a node it leaves unscored there is unreachable.
#[verifier::external_body]
pub(crate) fn path_costs(
    n: usize,
    ends: &Vec<(usize, usize, u64)>,
    start: usize,
    goal: Option<usize>,
) -> (r: Vec<Option<u64>>)
    requires
        n <= MAX_ELEMENTS,
        ends@.len() <= MAX_ELEMENTS,
        costed_ends_within(n as nat, ends@),
        start < n,
        goal matches Some(t) ==> t < n,
    ensures
        r@ == path_costs_of(n as nat, ends@, start as nat, goal),
        r@.len() == n,
        r@[start as int] == Some(0u64),
        forall|v: int| 0 <= v < n && #[trigger] r@[v] is Some ==> walk_of_cost(ends@, start as int, v, r@[v]->0 as nat),
        goal is None ==> forall|v: int|
            0 <= v < n ==> (#[trigger] r@[v] is None <==> !reaches(pairs_of(ends@), start as int, v)) && (r@[v] is Some
                ==> is_least_cost(ends@, start as int, v, r@[v]->0 as nat)),
        goal matches Some(t) ==> (r@[t as int] is None <==> !reaches(pairs_of(ends@), start as int, t as int)) && (
        r@[t as int] is Some ==> is_least_cost(ends@, start as int, t as int, r@[t as int]->0 as nat)),
{
    let mut g = DiGraph::<(), u64>::with_capacity(n, ends.len());
    for _ in 0..n {
        g.add_node(());
    }
    for &(a, b, c) in ends.iter() {
        g.add_edge(NodeIndex::new(a), NodeIndex::new(b), c);
    }
    let found = dijkstra(&g, NodeIndex::new(start), goal.map(NodeIndex::new), |e| *e.weight());
    let mut r = vec![None; n];
    for (v, c) in found {
        r[v.index()] = Some(c);
    }
    r
}

/// Relies on petgraph's `kosaraju_scc`: its components, as node indices.
/// Its second pass visits every node once and gathers, from each leader, the
/// nodes that reach each other with it.
#[verifier::external_body]
pub(crate) fn strong_components(n: usize, ends: &Vec<(usize, usize)>) -> (r: Vec<Vec<usize>>)
    requires
        n <= MAX_ELEMENTS,
        ends@.len() <= MAX_ELEMENTS,
        ends_within(n as nat, ends@),
    ensures
        r.deep_view() == strong_components_of(n as nat, ends@),
        are_strong_components(r.deep_view(), n as nat, ends@),
{
    let mut g = DiGraph::<(), ()>::with_capacity(n, ends.len());
    for _ in 0..n {
        g.add_node(());
    }
    for &(a, b) in ends.iter() {
        g.add_edge(NodeIndex::new(a), NodeIndex::new(b), ());
    }
    kosaraju_scc(&g).into_iter().map(|c| c.into_iter().map(|v| v.index()).collect()).collect()
}

} // verus!
