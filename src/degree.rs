//! Node degrees of the mapping graph and their ranking.
use vstd::prelude::*;
use vstd::relations::{sorted_by, total_ordering};
use vstd::seq_lib::{lemma_sorted_unique, to_multiset_build, to_multiset_contains, to_multiset_insert, to_multiset_len, to_multiset_remove};
use crate::model::MappingGraph;
use crate::order::{id_less, id_lt, lemma_id_lt_asymmetric, lemma_id_lt_total, lemma_id_lt_transitive};

verus! {

/// How many edge ends of `ends` are at node `v` (a loop counts twice).
pub open spec fn endpoint_count(ends: Seq<(int, int)>, v: int) -> nat
    decreases ends.len(),
{
    if ends.len() == 0 {
        0
    } else {
        endpoint_count(ends.drop_last(), v) + (if ends.last().0 == v { 1nat } else { 0nat }) + (
        if ends.last().1 == v {
            1nat
        } else {
            0nat
        })
    }
}

/// Sum of the degrees of nodes `0 .. n`.
pub open spec fn degree_total(ends: Seq<(int, int)>, n: nat) -> nat
    decreases n,
{
    if n == 0 {
        0
    } else {
        degree_total(ends, (n - 1) as nat) + endpoint_count(ends, n - 1)
    }
}

/// Number of incident edges of node `v` of `g`, parallel edges counted one by one.
pub open spec fn degree_of(g: MappingGraph, v: int) -> nat {
    endpoint_count(g.edge_ends(), v)
}

/// One line of the degree ranking: a node id and its degree.
pub struct DegreeRow {
    pub id: String,
    pub degree: u64,
}

impl View for DegreeRow {
    type V = (Seq<char>, nat);

    open spec fn view(&self) -> (Seq<char>, nat) {
        (self.id@, self.degree as nat)
    }
}

pub open spec fn rows_view(rows: Seq<DegreeRow>) -> Seq<(Seq<char>, nat)> {
    rows.map_values(|r: DegreeRow| r@)
}

/// Each node of `g` with its degree, in node order.
pub open spec fn degree_rows(g: MappingGraph) -> Seq<(Seq<char>, nat)> {
    Seq::new(g.nodes@.len(), |v: int| (g.ids()[v], degree_of(g, v)))
}

/// Ranking order: higher degree first, and between equal degrees the smaller id first.
pub open spec fn row_before(a: (Seq<char>, nat), b: (Seq<char>, nat)) -> bool {
    a.1 > b.1 || (a.1 == b.1 && id_lt(a.0, b.0))
}

pub open spec fn in_ranking_order(rows: Seq<(Seq<char>, nat)>) -> bool {
    forall|i: int, j: int| 0 <= i < j < rows.len() ==> row_before(#[trigger] rows[i], #[trigger] rows[j])
}

pub open spec fn row_leq(a: (Seq<char>, nat), b: (Seq<char>, nat)) -> bool {
    a == b || row_before(a, b)
}

proof fn lemma_endpoint_count_bound(ends: Seq<(int, int)>, v: int)
    ensures
        endpoint_count(ends, v) <= 2 * ends.len(),
    decreases ends.len(),
{
    if ends.len() > 0 {
        lemma_endpoint_count_bound(ends.drop_last(), v);
    }
}

proof fn lemma_degree_total_push(ends: Seq<(int, int)>, e: (int, int), n: nat)
    requires
        0 <= e.0,
        0 <= e.1,
    ensures
        degree_total(ends.push(e), n) == degree_total(ends, n) + (if e.0 < n { 1nat } else { 0nat }) + (
        if e.1 < n {
            1nat
        } else {
            0nat
        }),
    decreases n,
{
    assert(ends.push(e).drop_last() =~= ends);
    if n > 0 {
        lemma_degree_total_push(ends, e, (n - 1) as nat);
    }
}

/// The degrees of all nodes add up to twice the number of edges.
pub proof fn lemma_degree_sum(g: MappingGraph)
    requires
        g.wf(),
    ensures
        degree_total(g.edge_ends(), g.nodes@.len() as nat) == 2 * g.edges@.len(),
{
    let ends = g.edge_ends();
    let n = g.nodes@.len() as nat;
    assert forall|k: int| 0 <= k < ends.len() implies 0 <= (#[trigger] ends[k]).0 < n && 0 <= ends[k].1 < n by {
        assert(g.edges@[k].source < g.nodes@.len());
    }
    lemma_degree_sum_of(ends, n);
}

proof fn lemma_degree_sum_of(ends: Seq<(int, int)>, n: nat)
    requires
        forall|k: int| 0 <= k < ends.len() ==> 0 <= (#[trigger] ends[k]).0 < n && 0 <= ends[k].1 < n,
    ensures
        degree_total(ends, n) == 2 * ends.len(),
    decreases ends.len(),
{
    if ends.len() == 0 {
        lemma_degree_total_zero(ends, n);
    } else {
        let p = ends.drop_last();
        assert forall|k: int| 0 <= k < p.len() implies 0 <= (#[trigger] p[k]).0 < n && 0 <= p[k].1 < n by {
            assert(p[k] == ends[k]);
        }
        lemma_degree_sum_of(p, n);
        assert(p.push(ends.last()) =~= ends);
        lemma_degree_total_push(p, ends.last(), n);
    }
}

proof fn lemma_degree_total_zero(ends: Seq<(int, int)>, n: nat)
    requires
        ends.len() == 0,
    ensures
        degree_total(ends, n) == 0,
    decreases n,
{
    if n > 0 {
        lemma_degree_total_zero(ends, (n - 1) as nat);
    }
}

/// Sum of the degrees that `rows` list.
pub open spec fn rows_degree_sum(rows: Seq<(Seq<char>, nat)>) -> nat
    decreases rows.len(),
{
    if rows.len() == 0 {
        0
    } else {
        rows_degree_sum(rows.drop_last()) + rows.last().1
    }
}

proof fn lemma_rows_sum_remove(rows: Seq<(Seq<char>, nat)>, i: int)
    requires
        0 <= i < rows.len(),
    ensures
        rows_degree_sum(rows) == rows_degree_sum(rows.remove(i)) + rows[i].1,
    decreases rows.len(),
{
    if i == rows.len() - 1 {
        assert(rows.remove(i) =~= rows.drop_last());
    } else {
        let p = rows.drop_last();
        lemma_rows_sum_remove(p, i);
        assert(rows.remove(i).drop_last() =~= p.remove(i));
        assert(rows.remove(i).last() == rows.last());
    }
}

proof fn lemma_rows_sum_permutation(x: Seq<(Seq<char>, nat)>, y: Seq<(Seq<char>, nat)>)
    requires
        x.to_multiset() == y.to_multiset(),
    ensures
        rows_degree_sum(x) == rows_degree_sum(y),
    decreases x.len(),
{
    to_multiset_len(x);
    to_multiset_len(y);
    if x.len() > 0 {
        let a = x.last();
        to_multiset_contains(x, a);
        to_multiset_contains(y, a);
        assert(x.contains(a)) by {
            assert(x[x.len() - 1] == a);
        }
        let i = choose|i: int| 0 <= i < y.len() && y[i] == a;
        to_multiset_remove(x, x.len() - 1);
        to_multiset_remove(y, i);
        assert(x.remove(x.len() - 1) =~= x.drop_last());
        lemma_rows_sum_permutation(x.drop_last(), y.remove(i));
        lemma_rows_sum_remove(y, i);
    }
}

proof fn lemma_rows_sum_prefix(g: MappingGraph, k: nat)
    requires
        k <= g.nodes@.len(),
    ensures
        rows_degree_sum(degree_rows(g).take(k as int)) == degree_total(g.edge_ends(), k),
    decreases k,
{
    if k > 0 {
        lemma_rows_sum_prefix(g, (k - 1) as nat);
        assert(degree_rows(g).take(k as int).drop_last() =~= degree_rows(g).take(k - 1));
    }
}

/// The degrees of a degree ranking add up to twice the number of edges.
pub proof fn lemma_ranking_degree_sum(g: MappingGraph, ranking: Seq<(Seq<char>, nat)>)
    requires
        g.wf(),
        ranking.to_multiset() == degree_rows(g).to_multiset(),
    ensures
        rows_degree_sum(ranking) == 2 * g.edges@.len(),
{
    lemma_rows_sum_permutation(ranking, degree_rows(g));
    lemma_rows_sum_prefix(g, g.nodes@.len() as nat);
    assert(degree_rows(g).take(g.nodes@.len() as int) =~= degree_rows(g));
    lemma_degree_sum(g);
}

proof fn lemma_row_before_transitive(a: (Seq<char>, nat), b: (Seq<char>, nat), c: (Seq<char>, nat))
    requires
        row_before(a, b),
        row_before(b, c),
    ensures
        row_before(a, c),
{
    if a.1 == b.1 && b.1 == c.1 {
        lemma_id_lt_transitive(a.0, b.0, c.0);
    }
}

proof fn lemma_row_before_total(a: (Seq<char>, nat), b: (Seq<char>, nat))
    ensures
        a.0 == b.0 || row_before(a, b) || row_before(b, a),
{
    lemma_id_lt_total(a.0, b.0);
}

proof fn lemma_row_before_asymmetric(a: (Seq<char>, nat), b: (Seq<char>, nat))
    ensures
        !(row_before(a, b) && row_before(b, a)),
        !row_before(a, a),
{
    lemma_id_lt_asymmetric(a.0, b.0);
}

proof fn lemma_row_leq_total_ordering()
    ensures
        total_ordering(|a: (Seq<char>, nat), b: (Seq<char>, nat)| row_leq(a, b)),
{
    let leq = |a: (Seq<char>, nat), b: (Seq<char>, nat)| row_leq(a, b);
    assert forall|a: (Seq<char>, nat), b: (Seq<char>, nat)| #[trigger] leq(a, b) && #[trigger] leq(b, a) implies a == b by {
        lemma_row_before_asymmetric(a, b);
    }
    assert forall|a: (Seq<char>, nat), b: (Seq<char>, nat), c: (Seq<char>, nat)| #[trigger] leq(a, b) && #[trigger] leq(b, c) implies leq(a, c) by {
        if a != b && b != c {
            lemma_row_before_transitive(a, b, c);
        }
    }
    assert forall|a: (Seq<char>, nat), b: (Seq<char>, nat)| #[trigger] leq(a, b) || #[trigger] leq(b, a) by {
        lemma_row_before_total(a, b);
        if a.0 == b.0 && a != b {
            assert(a.1 != b.1);
        }
    }
}

/// The ranking is determined by its rows: two sequences in ranking order
/// that hold the same rows are equal, so the degree ranking of a graph comes
/// out the same on every run.
pub proof fn lemma_ranking_unique(x: Seq<(Seq<char>, nat)>, y: Seq<(Seq<char>, nat)>)
    requires
        in_ranking_order(x),
        in_ranking_order(y),
        x.to_multiset() == y.to_multiset(),
    ensures
        x == y,
{
    let leq = |a: (Seq<char>, nat), b: (Seq<char>, nat)| row_leq(a, b);
    lemma_row_leq_total_ordering();
    assert(sorted_by(x, leq));
    assert(sorted_by(y, leq));
    lemma_sorted_unique(x, y, leq);
}

/// Rebuilding a graph from the same records gives the same node and edge
/// counts and the same degree ranking.
pub proof fn lemma_rebuild_same_ranking(
    g1: MappingGraph,
    g2: MappingGraph,
    recs: Seq<crate::model::Mapping>,
    table: crate::strength::StrengthTable,
    r1: Seq<(Seq<char>, nat)>,
    r2: Seq<(Seq<char>, nat)>,
)
    requires
        g1.wf(),
        g2.wf(),
        crate::builder::is_built_from(g1, recs, table),
        crate::builder::is_built_from(g2, recs, table),
        in_ranking_order(r1),
        r1.to_multiset() == degree_rows(g1).to_multiset(),
        in_ranking_order(r2),
        r2.to_multiset() == degree_rows(g2).to_multiset(),
    ensures
        g1.nodes@.len() == g2.nodes@.len(),
        g1.edges@.len() == g2.edges@.len(),
        r1 == r2,
{
    crate::builder::lemma_build_deterministic(g1, g2, recs, table);
    assert(g1.nodes@.len() == g1.keys().len());
    assert(g2.nodes@.len() == g2.keys().len());
    assert(degree_rows(g1) =~= degree_rows(g2));
    lemma_ranking_unique(r1, r2);
}

proof fn lemma_insert_in_order(s: Seq<(Seq<char>, nat)>, pos: int, x: (Seq<char>, nat))
    requires
        in_ranking_order(s),
        0 <= pos <= s.len(),
        forall|k: int| 0 <= k < pos ==> row_before(#[trigger] s[k], x),
        pos < s.len() ==> row_before(x, s[pos]),
    ensures
        in_ranking_order(s.insert(pos, x)),
{
    let t = s.insert(pos, x);
    assert forall|i: int, j: int| 0 <= i < j < t.len() implies row_before(#[trigger] t[i], #[trigger] t[j]) by {
        if j < pos {
        } else if j == pos {
        } else if i < pos {
            // t[j] == s[j - 1], with j - 1 >= pos
            assert(t[j] == s[j - 1]);
        } else if i == pos {
            assert(t[j] == s[j - 1]);
            if j - 1 > pos {
                lemma_row_before_transitive(x, s[pos], s[j - 1]);
            }
        } else {
            assert(t[i] == s[i - 1]);
            assert(t[j] == s[j - 1]);
        }
    }
}

/// Whether row `a` comes before row `b` in ranking order.
fn row_precedes(a: &DegreeRow, b: &DegreeRow) -> (r: bool)
    ensures
        r == row_before(a@, b@),
{
    a.degree > b.degree || (a.degree == b.degree && id_less(&a.id, &b.id))
}

/// The degree of every node of `graph`, by node index.
pub fn node_degrees(graph: &MappingGraph) -> (d: Vec<u64>)
    requires
        graph.wf(),
    ensures
        d@.len() == graph.nodes@.len(),
        forall|v: int| 0 <= v < d@.len() ==> d@[v] == degree_of(*graph, v),
{
    let n = graph.nodes.len();
    let mut d: Vec<u64> = Vec::new();
    let mut v: usize = 0;
    while v < n
        invariant
            n == graph.nodes@.len(),
            v <= n,
            d@.len() == v,
            forall|w: int| 0 <= w < v ==> d@[w] == 0,
        decreases n - v,
    {
        d.push(0);
        v = v + 1;
    }
    let ghost ends = graph.edge_ends();
    let mut k: usize = 0;
    while k < graph.edges.len()
        invariant
            graph.wf(),
            ends == graph.edge_ends(),
            n == graph.nodes@.len(),
            k <= graph.edges@.len(),
            d@.len() == n,
            forall|w: int| 0 <= w < n ==> d@[w] == endpoint_count(#[trigger] ends.subrange(0, k as int), w),
        decreases graph.edges@.len() - k,
    {
        let s = graph.edges[k].source;
        let t = graph.edges[k].target;
        proof {
            assert(ends.subrange(0, k + 1).drop_last() =~= ends.subrange(0, k as int));
            assert(ends.subrange(0, k + 1).last() == (s as int, t as int));
            lemma_endpoint_count_bound(ends.subrange(0, k as int), s as int);
            lemma_endpoint_count_bound(ends.subrange(0, k as int), t as int);
        }
        d.set(s, d[s] + 1);
        d.set(t, d[t] + 1);
        proof {
            assert forall|w: int| 0 <= w < n implies d@[w] == endpoint_count(#[trigger] ends.subrange(0, k + 1), w) by {
                assert(ends.subrange(0, k + 1).drop_last() =~= ends.subrange(0, k as int));
            }
        }
        k = k + 1;
    }
    assert(ends.subrange(0, k as int) =~= ends);
    d
}

/// Every node with its number of incident edges, highest degree first and,
/// between equal degrees, in ascending id order.
pub fn perform_node_degree_analysis(graph: &MappingGraph) -> (r: Vec<DegreeRow>)
    requires
        graph.wf(),
    ensures
        in_ranking_order(rows_view(r@)),
        rows_view(r@).to_multiset() == degree_rows(*graph).to_multiset(),
        rows_degree_sum(rows_view(r@)) == 2 * graph.edges@.len(),
{
    let d = node_degrees(graph);
    let n = graph.nodes.len();
    let ghost all = degree_rows(*graph);
    let mut ranked: Vec<DegreeRow> = Vec::new();
    let mut v: usize = 0;
    assert(rows_view(ranked@) =~= all.subrange(0, 0));
    while v < n
        invariant
            graph.wf(),
            all == degree_rows(*graph),
            n == graph.nodes@.len(),
            d@.len() == n,
            forall|w: int| 0 <= w < d@.len() ==> d@[w] == degree_of(*graph, w),
            v <= n,
            in_ranking_order(rows_view(ranked@)),
            rows_view(ranked@).to_multiset() == all.subrange(0, v as int).to_multiset(),
            forall|k: int| 0 <= k < ranked@.len() ==> exists|w: int| 0 <= w < v && (#[trigger] ranked@[k]).id@ == graph.ids()[w],
        decreases n - v,
    {
        let row = DegreeRow { id: graph.nodes[v].id.clone(), degree: d[v] };
        assert(row@ == all[v as int]);
        let mut pos: usize = 0;
        while pos < ranked.len() && !row_precedes(&row, &ranked[pos])
            invariant
                pos <= ranked@.len(),
                forall|k: int| 0 <= k < pos ==> !row_before(row@, #[trigger] ranked@[k]@),
            decreases ranked@.len() - pos,
        {
            pos = pos + 1;
        }
        let ghost old_ranked = ranked@;
        let ghost rv = rows_view(old_ranked);
        proof {
            assert forall|k: int| 0 <= k < pos implies row_before(#[trigger] rv[k], row@) by {
                let w = choose|w: int| 0 <= w < v && old_ranked[k].id@ == graph.ids()[w];
                assert(graph.ids()[w] != graph.ids()[v as int]);
                assert(rv[k] == old_ranked[k]@);
                lemma_row_before_total(rv[k], row@);
            }
            lemma_insert_in_order(rv, pos as int, row@);
        }
        ranked.insert(pos, row);
        proof {
            assert(rows_view(ranked@) =~= rv.insert(pos as int, all[v as int]));
            to_multiset_insert(rv, pos as int, all[v as int]);
            assert(all.subrange(0, v + 1) =~= all.subrange(0, v as int).push(all[v as int]));
            to_multiset_build(all.subrange(0, v as int), all[v as int]);
            assert forall|k: int| 0 <= k < ranked@.len() implies exists|w: int| 0 <= w < v + 1 && (#[trigger] ranked@[k]).id@ == graph.ids()[w] by {
                if k < pos {
                    assert(ranked@[k] == old_ranked[k]);
                } else if k == pos {
                    assert(ranked@[k].id@ == graph.ids()[v as int]);
                } else {
                    assert(ranked@[k] == old_ranked[k - 1]);
                }
            }
        }
        v = v + 1;
    }
    assert(all.subrange(0, n as int) =~= all);
    proof {
        lemma_ranking_degree_sum(*graph, rows_view(ranked@));
    }
    ranked
}

} // verus!
