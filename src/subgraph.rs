//! Bounded-depth extraction: the part of the relationship graph within a
//! number of hops of a set of seed nodes, following edges forward.
use vstd::prelude::*;
use crate::model::MAX_ELEMENTS;
use crate::taxonomy::{MitreObject, ObjectView, RelationEdge, RelationshipGraph};

verus! {

/// Node `v` can be reached from node `s` in at most `k` hops of `g`.
pub open spec fn within(g: RelationshipGraph, s: int, v: int, k: nat) -> bool
    decreases k,
{
    if k == 0 {
        v == s
    } else {
        within(g, s, v, (k - 1) as nat) || exists|j: int|
            0 <= j < g.edges@.len() && #[trigger] g.edges@[j].target == v && within(
                g,
                s,
                g.edges@[j].source as int,
                (k - 1) as nat,
            )
    }
}

/// Node `v` is within `depth` hops of one of the seeds.
pub open spec fn selected(g: RelationshipGraph, seeds: Seq<usize>, depth: nat, v: int) -> bool {
    exists|i: int| 0 <= i < seeds.len() && #[trigger] within(g, seeds[i] as int, v, depth)
}

/// Edge `j` is taken by a traversal of `depth` hops from the seeds: its
/// source is within `depth - 1` hops of a seed.
pub open spec fn traversed(g: RelationshipGraph, seeds: Seq<usize>, depth: nat, j: int) -> bool {
    depth > 0 && selected(g, seeds, (depth - 1) as nat, g.edges@[j].source as int)
}

/// Source id, target id and label of edge `e` of `g`.
pub open spec fn edge_triple(g: RelationshipGraph, e: RelationEdge) -> (Seq<char>, Seq<char>, Seq<char>) {
    (g.ids()[e.source as int], g.ids()[e.target as int], e.label@)
}

/// `o` is a node of `g` within `depth` hops of a seed.
pub open spec fn node_from(g: RelationshipGraph, seeds: Seq<usize>, depth: nat, o: ObjectView) -> bool {
    exists|v: int| 0 <= v < g.nodes@.len() && selected(g, seeds, depth, v) && o == #[trigger] g.objects()[v]
}

/// `t` is the triple of an edge of `g` that a traversal of `depth` hops from the seeds takes.
pub open spec fn edge_from(g: RelationshipGraph, seeds: Seq<usize>, depth: nat, t: (Seq<char>, Seq<char>, Seq<char>)) -> bool {
    exists|j: int| 0 <= j < g.edges@.len() && traversed(g, seeds, depth, j) && t == edge_triple(g, #[trigger] g.edges@[j])
}

/// Some edge of `out` has the triple `t`.
pub open spec fn has_triple(out: RelationshipGraph, t: (Seq<char>, Seq<char>, Seq<char>)) -> bool {
    exists|a: int| 0 <= a < out.edges@.len() && edge_triple(out, #[trigger] out.edges@[a]) == t
}

/// `out` is the subgraph of `g` within `depth` hops of `seeds`: its nodes
/// are the nodes within reach, each once; its edges are the traversed edges,
/// one per distinct (source id, target id, label).
pub open spec fn is_extraction(g: RelationshipGraph, seeds: Seq<usize>, depth: nat, out: RelationshipGraph) -> bool {
    &&& out.wf()
    &&& forall|i: int| 0 <= i < out.nodes@.len() ==> node_from(g, seeds, depth, #[trigger] out.objects()[i])
    &&& forall|v: int|
        0 <= v < g.nodes@.len() && #[trigger] selected(g, seeds, depth, v) ==> out.ids().contains(g.ids()[v])
    &&& forall|a: int| 0 <= a < out.edges@.len() ==> edge_from(g, seeds, depth, edge_triple(out, #[trigger] out.edges@[a]))
    &&& forall|j: int|
        0 <= j < g.edges@.len() && #[trigger] traversed(g, seeds, depth, j) ==> has_triple(out, edge_triple(g, g.edges@[j]))
    &&& forall|a: int, b: int|
        0 <= a < b < out.edges@.len() ==> edge_triple(out, #[trigger] out.edges@[a]) != edge_triple(
            out,
            #[trigger] out.edges@[b],
        )
}

/// The nodes within `depth` hops of `seed`, marked by node index.
pub fn reach_marks(graph: &RelationshipGraph, seed: usize, depth: usize) -> (r: Vec<bool>)
    requires
        graph.wf(),
        seed < graph.nodes@.len(),
    ensures
        r@.len() == graph.nodes@.len(),
        forall|v: int| 0 <= v < r@.len() ==> #[trigger] r@[v] == within(*graph, seed as int, v, depth as nat),
{
    let n = graph.nodes.len();
    let mut marks: Vec<bool> = Vec::new();
    let mut v: usize = 0;
    while v < n
        invariant
            n == graph.nodes@.len(),
            v <= n,
            marks@.len() == v,
            forall|w: int| 0 <= w < v ==> #[trigger] marks@[w] == (w == seed),
        decreases n - v,
    {
        marks.push(v == seed);
        v = v + 1;
    }
    let mut level: usize = 0;
    while level < depth
        invariant
            graph.wf(),
            n == graph.nodes@.len(),
            level <= depth,
            marks@.len() == n,
            forall|w: int| 0 <= w < n ==> #[trigger] marks@[w] == within(*graph, seed as int, w, level as nat),
        decreases depth - level,
    {
        let mut next: Vec<bool> = Vec::new();
        let mut w: usize = 0;
        while w < n
            invariant
                n == graph.nodes@.len(),
                marks@.len() == n,
                w <= n,
                next@.len() == w,
                forall|x: int| 0 <= x < w ==> #[trigger] next@[x] == marks@[x],
            decreases n - w,
        {
            next.push(marks[w]);
            w = w + 1;
        }
        let mut j: usize = 0;
        while j < graph.edges.len()
            invariant
                graph.wf(),
                n == graph.nodes@.len(),
                marks@.len() == n,
                next@.len() == n,
                j <= graph.edges@.len(),
                forall|x: int| 0 <= x < n ==> #[trigger] marks@[x] == within(*graph, seed as int, x, level as nat),
                forall|x: int|
                    0 <= x < n ==> #[trigger] next@[x] == (marks@[x] || exists|i: int|
                        0 <= i < j && #[trigger] graph.edges@[i].target == x && marks@[graph.edges@[i].source as int]),
            decreases graph.edges@.len() - j,
        {
            let e = &graph.edges[j];
            assert(e.source < n && e.target < n);
            if marks[e.source] {
                next.set(e.target, true);
            }
            proof {
                assert forall|x: int| 0 <= x < n implies #[trigger] next@[x] == (marks@[x] || exists|i: int|
                    0 <= i < j + 1 && #[trigger] graph.edges@[i].target == x && marks@[graph.edges@[i].source as int]) by {
                    if x == e.target && marks@[e.source as int] {
                        assert(graph.edges@[j as int].target == x);
                    }
                }
            }
            j = j + 1;
        }
        proof {
            assert forall|x: int| 0 <= x < n implies #[trigger] next@[x] == within(*graph, seed as int, x, (level + 1) as nat) by {
                if exists|i: int| 0 <= i < graph.edges@.len() && #[trigger] graph.edges@[i].target == x && within(*graph, seed as int, graph.edges@[i].source as int, level as nat) {
                    let i = choose|i: int| 0 <= i < graph.edges@.len() && #[trigger] graph.edges@[i].target == x && within(*graph, seed as int, graph.edges@[i].source as int, level as nat);
                    assert(graph.edges@[i].source < n);
                }
                if exists|i: int| 0 <= i < graph.edges@.len() && #[trigger] graph.edges@[i].target == x && marks@[graph.edges@[i].source as int] {
                    let i = choose|i: int| 0 <= i < graph.edges@.len() && #[trigger] graph.edges@[i].target == x && marks@[graph.edges@[i].source as int];
                    assert(graph.edges@[i].source < n);
                }
            }
        }
        marks = next;
        level = level + 1;
    }
    marks
}

proof fn lemma_traversed_ends_selected(g: RelationshipGraph, seeds: Seq<usize>, depth: nat, j: int)
    requires
        0 <= j < g.edges@.len(),
        traversed(g, seeds, depth, j),
    ensures
        selected(g, seeds, depth, g.edges@[j].source as int),
        selected(g, seeds, depth, g.edges@[j].target as int),
{
    let i = choose|i: int| 0 <= i < seeds.len() && #[trigger] within(g, seeds[i] as int, g.edges@[j].source as int, (depth - 1) as nat);
    assert(within(g, seeds[i] as int, g.edges@[j].source as int, depth));
    assert(within(g, seeds[i] as int, g.edges@[j].target as int, depth));
}

proof fn lemma_selected_extend(g: RelationshipGraph, seeds: Seq<usize>, depth: nat, i: int, v: int)
    requires
        0 <= i < seeds.len(),
    ensures
        selected(g, seeds.subrange(0, i + 1), depth, v) == (selected(g, seeds.subrange(0, i), depth, v) || within(
            g,
            seeds[i] as int,
            v,
            depth,
        )),
{
    let a = seeds.subrange(0, i);
    let b = seeds.subrange(0, i + 1);
    if selected(g, a, depth, v) {
        let k = choose|k: int| 0 <= k < a.len() && #[trigger] within(g, a[k] as int, v, depth);
        assert(b[k] == a[k]);
    }
    if within(g, seeds[i] as int, v, depth) {
        assert(b[i] == seeds[i]);
    }
    if selected(g, b, depth, v) {
        let k = choose|k: int| 0 <= k < b.len() && #[trigger] within(g, b[k] as int, v, depth);
        if k < i {
            assert(a[k] == b[k]);
        }
    }
}

/// Marks the nodes within `depth` hops of a seed, and the edges that a
/// traversal of `depth` hops from a seed takes.
fn mark_extraction(graph: &RelationshipGraph, seeds: &Vec<usize>, depth: usize) -> (r: (Vec<bool>, Vec<bool>))
    requires
        graph.wf(),
        forall|i: int| 0 <= i < seeds@.len() ==> #[trigger] seeds@[i] < graph.nodes@.len(),
    ensures
        r.0@.len() == graph.nodes@.len(),
        r.1@.len() == graph.edges@.len(),
        forall|v: int| 0 <= v < r.0@.len() ==> #[trigger] r.0@[v] == selected(*graph, seeds@, depth as nat, v),
        forall|j: int| 0 <= j < r.1@.len() ==> #[trigger] r.1@[j] == traversed(*graph, seeds@, depth as nat, j),
{
    let n = graph.nodes.len();
    let m = graph.edges.len();
    let mut sel: Vec<bool> = Vec::new();
    let mut taken: Vec<bool> = Vec::new();
    let mut v: usize = 0;
    while v < n
        invariant
            v <= n,
            sel@.len() == v,
            forall|w: int| 0 <= w < v ==> !#[trigger] sel@[w],
        decreases n - v,
    {
        sel.push(false);
        v = v + 1;
    }
    let mut j: usize = 0;
    while j < m
        invariant
            j <= m,
            taken@.len() == j,
            forall|w: int| 0 <= w < j ==> !#[trigger] taken@[w],
        decreases m - j,
    {
        taken.push(false);
        j = j + 1;
    }
    let mut i: usize = 0;
    while i < seeds.len()
        invariant
            graph.wf(),
            n == graph.nodes@.len(),
            m == graph.edges@.len(),
            forall|k: int| 0 <= k < seeds@.len() ==> #[trigger] seeds@[k] < graph.nodes@.len(),
            i <= seeds@.len(),
            sel@.len() == n,
            taken@.len() == m,
            forall|w: int| 0 <= w < n ==> #[trigger] sel@[w] == selected(*graph, seeds@.subrange(0, i as int), depth as nat, w),
            forall|k: int| 0 <= k < m ==> #[trigger] taken@[k] == traversed(*graph, seeds@.subrange(0, i as int), depth as nat, k),
        decreases seeds@.len() - i,
    {
        let seed = seeds[i];
        let marks = reach_marks(graph, seed, depth);
        let mut w: usize = 0;
        while w < n
            invariant
                n == graph.nodes@.len(),
                marks@.len() == n,
                sel@.len() == n,
                w <= n,
                i < seeds@.len(),
                seed == seeds@[i as int],
                forall|x: int| 0 <= x < n ==> #[trigger] marks@[x] == within(*graph, seed as int, x, depth as nat),
                forall|x: int| 0 <= x < n ==> #[trigger] sel@[x] == (selected(*graph, seeds@.subrange(0, i as int), depth as nat, x)
                    || (x < w && within(*graph, seed as int, x, depth as nat))),
            decreases n - w,
        {
            if marks[w] {
                sel.set(w, true);
            }
            w = w + 1;
        }
        if depth > 0 {
            let prev = reach_marks(graph, seed, depth - 1);
            let mut k: usize = 0;
            while k < m
                invariant
                    graph.wf(),
                    n == graph.nodes@.len(),
                    m == graph.edges@.len(),
                    prev@.len() == n,
                    taken@.len() == m,
                    k <= m,
                    depth > 0,
                    i < seeds@.len(),
                    seed == seeds@[i as int],
                    forall|x: int| 0 <= x < n ==> #[trigger] prev@[x] == within(*graph, seed as int, x, (depth - 1) as nat),
                    forall|x: int| 0 <= x < m ==> #[trigger] taken@[x] == (traversed(*graph, seeds@.subrange(0, i as int), depth as nat, x)
                        || (x < k && within(*graph, seed as int, graph.edges@[x].source as int, (depth - 1) as nat))),
                decreases m - k,
            {
                let src = graph.edges[k].source;
                if prev[src] {
                    taken.set(k, true);
                }
                k = k + 1;
            }
        }
        proof {
            assert forall|x: int| 0 <= x < n implies #[trigger] sel@[x] == selected(*graph, seeds@.subrange(0, i + 1), depth as nat, x) by {
                lemma_selected_extend(*graph, seeds@, depth as nat, i as int, x);
            }
            assert forall|x: int| 0 <= x < m implies #[trigger] taken@[x] == traversed(*graph, seeds@.subrange(0, i + 1), depth as nat, x) by {
                if depth > 0 {
                    lemma_selected_extend(*graph, seeds@, (depth - 1) as nat, i as int, graph.edges@[x].source as int);
                }
            }
        }
        i = i + 1;
    }
    assert(seeds@.subrange(0, i as int) =~= seeds@);
    (sel, taken)
}


/// Source index, target index and label of an edge.
pub open spec fn edge_key(e: RelationEdge) -> (usize, usize, Seq<char>) {
    (e.source, e.target, e.label@)
}

/// The key that edge `e` of the whole graph takes in the subgraph, whose
/// node indices `index` gives.
pub open spec fn mapped_key(index: Seq<Option<usize>>, e: RelationEdge) -> (usize, usize, Seq<char>) {
    (index[e.source as int]->0, index[e.target as int]->0, e.label@)
}

/// `key` is the key of an edge `k < j` that `taken` marks.
pub open spec fn taken_key(keys: Seq<(usize, usize, Seq<char>)>, taken: Seq<bool>, j: int, key: (usize, usize, Seq<char>)) -> bool {
    exists|k: int| 0 <= k < j && taken[k] && key == #[trigger] keys[k]
}

/// Some edge of `edges` has the key `key`.
pub open spec fn key_present(edges: Seq<RelationEdge>, key: (usize, usize, Seq<char>)) -> bool {
    exists|a: int| 0 <= a < edges.len() && edge_key(#[trigger] edges[a]) == key
}

/// Each edge of `edges` has the key of an edge `k < j` that `taken` marks.
pub open spec fn from_taken(edges: Seq<RelationEdge>, keys: Seq<(usize, usize, Seq<char>)>, taken: Seq<bool>, j: int) -> bool {
    forall|a: int| 0 <= a < edges.len() ==> taken_key(keys, taken, j, edge_key(#[trigger] edges[a]))
}

/// Each edge `k < j` that `taken` marks has its key among `edges`.
pub open spec fn covers_taken(edges: Seq<RelationEdge>, keys: Seq<(usize, usize, Seq<char>)>, taken: Seq<bool>, j: int) -> bool {
    forall|k: int| 0 <= k < j && #[trigger] taken[k] ==> key_present(edges, keys[k])
}

proof fn lemma_edge_step(
    before: Seq<RelationEdge>,
    after: Seq<RelationEdge>,
    keys: Seq<(usize, usize, Seq<char>)>,
    taken: Seq<bool>,
    j: int,
)
    requires
        0 <= j < keys.len(),
        j < taken.len(),
        from_taken(before, keys, taken, j),
        covers_taken(before, keys, taken, j),
        taken[j],
        key_present(after, keys[j]),
        forall|b: int| 0 <= b < before.len() ==> #[trigger] after[b] == before[b],
        forall|a: int| 0 <= a < after.len() ==> edge_key(#[trigger] after[a]) == keys[j] || key_present(before, edge_key(after[a])),
        before.len() <= after.len(),
    ensures
        from_taken(after, keys, taken, j + 1),
        covers_taken(after, keys, taken, j + 1),
{
    assert forall|a: int| 0 <= a < after.len() implies taken_key(keys, taken, j + 1, edge_key(#[trigger] after[a])) by {
        if edge_key(after[a]) != keys[j] {
            let b = choose|b: int| 0 <= b < before.len() && edge_key(#[trigger] before[b]) == edge_key(after[a]);
            assert(taken_key(keys, taken, j, edge_key(before[b])));
            let k = choose|k: int| 0 <= k < j && taken[k] && edge_key(before[b]) == #[trigger] keys[k];
            assert(0 <= k < j + 1 && taken[k] && edge_key(after[a]) == keys[k]);
        } else {
            assert(0 <= j < j + 1 && taken[j] && edge_key(after[a]) == keys[j]);
        }
    }
    assert forall|k: int| 0 <= k < j + 1 && #[trigger] taken[k] implies key_present(after, keys[k]) by {
        if k < j {
            assert(key_present(before, keys[k]));
            let b = choose|b: int| 0 <= b < before.len() && edge_key(#[trigger] before[b]) == keys[k];
            assert(after[b] == before[b]);
        }
    }
}

proof fn lemma_edge_skip(edges: Seq<RelationEdge>, keys: Seq<(usize, usize, Seq<char>)>, taken: Seq<bool>, j: int)
    requires
        0 <= j < taken.len(),
        keys.len() == taken.len(),
        !taken[j],
        from_taken(edges, keys, taken, j),
        covers_taken(edges, keys, taken, j),
    ensures
        from_taken(edges, keys, taken, j + 1),
        covers_taken(edges, keys, taken, j + 1),
{
    assert forall|a: int| 0 <= a < edges.len() implies taken_key(keys, taken, j + 1, edge_key(#[trigger] edges[a])) by {
        assert(taken_key(keys, taken, j, edge_key(edges[a])));
        let k = choose|k: int| 0 <= k < j && taken[k] && edge_key(edges[a]) == #[trigger] keys[k];
        assert(0 <= k < j + 1 && taken[k] && edge_key(edges[a]) == keys[k]);
    }
}

pub open spec fn keys_distinct(edges: Seq<RelationEdge>) -> bool {
    forall|a: int, b: int| 0 <= a < b < edges.len() ==> edge_key(#[trigger] edges[a]) != edge_key(#[trigger] edges[b])
}

pub open spec fn edges_within(g: RelationshipGraph) -> bool {
    forall|a: int| 0 <= a < g.edges@.len() ==> (#[trigger] g.edges@[a]).source < g.nodes@.len() && g.edges@[a].target < g.nodes@.len()
}

/// Adds the edge `(s, t, label)` to `out` unless an edge with the same
/// endpoints and label is there.
fn add_edge_if_absent(out: &mut RelationshipGraph, s: usize, t: usize, label: String)
    requires
        s < old(out).nodes@.len(),
        t < old(out).nodes@.len(),
        edges_within(*old(out)),
        keys_distinct(old(out).edges@),
        old(out).edges@.len() < usize::MAX,
    ensures
        final(out).nodes@ == old(out).nodes@,
        edges_within(*final(out)),
        keys_distinct(final(out).edges@),
        old(out).edges@.len() <= final(out).edges@.len() <= old(out).edges@.len() + 1,
        key_present(final(out).edges@, (s, t, label@)),
        forall|b: int| 0 <= b < old(out).edges@.len() ==> #[trigger] final(out).edges@[b] == old(out).edges@[b],
        forall|a: int| 0 <= a < final(out).edges@.len() ==> edge_key(#[trigger] final(out).edges@[a]) == (s, t, label@)
            || key_present(old(out).edges@, edge_key(final(out).edges@[a])),
{
    let mut a: usize = 0;
    while a < out.edges.len()
        invariant
            *out == *old(out),
            edges_within(*out),
            keys_distinct(out.edges@),
            a <= out.edges@.len(),
            forall|b: int| 0 <= b < a ==> edge_key(#[trigger] out.edges@[b]) != (s, t, label@),
        decreases out.edges@.len() - a,
    {
        let oe = &out.edges[a];
        if oe.source == s && oe.target == t && oe.label == label {
            assert(edge_key(out.edges@[a as int]) == (s, t, label@));
            return;
        }
        a = a + 1;
    }
    let ghost before = out.edges@;
    out.edges.push(RelationEdge { source: s, target: t, label });
    assert(edge_key(out.edges@[before.len() as int]) == (s, t, label@));
    assert forall|a: int| 0 <= a < out.edges@.len() implies edge_key(#[trigger] out.edges@[a]) == (s, t, label@)
        || key_present(before, edge_key(out.edges@[a])) by {
        if a < before.len() {
            assert(edge_key(before[a]) == edge_key(out.edges@[a]));
        }
    }
}

/// The nodes of `out` are the marked nodes of `g`, in the order `origin`,
/// and `index` gives each marked node's place in `out`.
pub open spec fn node_map_ok(g: RelationshipGraph, out: RelationshipGraph, index: Seq<Option<usize>>, origin: Seq<int>, sel: Seq<bool>) -> bool {
    &&& sel.len() == g.nodes@.len()
    &&& index.len() == g.nodes@.len()
    &&& out.nodes@.len() == origin.len()
    &&& forall|i: int| 0 <= i < origin.len() ==> 0 <= #[trigger] origin[i] < g.nodes@.len() && sel[origin[i]]
        && out.objects()[i] == g.objects()[origin[i]]
    &&& forall|w: int| 0 <= w < g.nodes@.len() ==> (#[trigger] index[w] is Some) == sel[w]
    &&& forall|w: int| 0 <= w < g.nodes@.len() && #[trigger] index[w] is Some ==> index[w]->0 < origin.len() && origin[index[w]->0 as int] == w
}

proof fn lemma_index_ids(g: RelationshipGraph, out: RelationshipGraph, index: Seq<Option<usize>>, origin: Seq<int>, sel: Seq<bool>)
    requires
        node_map_ok(g, out, index, origin, sel),
    ensures
        forall|w: int| 0 <= w < g.nodes@.len() && sel[w] ==> #[trigger] index[w]->0 < out.nodes@.len()
            && out.ids()[index[w]->0 as int] == g.ids()[w],
{
    assert forall|w: int| 0 <= w < g.nodes@.len() && sel[w] implies #[trigger] index[w]->0 < out.nodes@.len()
        && out.ids()[index[w]->0 as int] == g.ids()[w] by {
        let i = index[w]->0 as int;
        assert(out.ids()[i] == out.objects()[i].0);
        assert(g.ids()[w] == g.objects()[w].0);
    }
}

proof fn lemma_extraction_nodes(
    g: RelationshipGraph,
    seeds: Seq<usize>,
    d: nat,
    out: RelationshipGraph,
    index: Seq<Option<usize>>,
    origin: Seq<int>,
    sel: Seq<bool>,
)
    requires
        node_map_ok(g, out, index, origin, sel),
        forall|w: int| 0 <= w < g.nodes@.len() ==> #[trigger] sel[w] == selected(g, seeds, d, w),
    ensures
        forall|i: int| 0 <= i < out.nodes@.len() ==> node_from(g, seeds, d, #[trigger] out.objects()[i]),
        forall|v: int|
            0 <= v < g.nodes@.len() && #[trigger] selected(g, seeds, d, v) ==> out.ids().contains(g.ids()[v]),
{
    lemma_index_ids(g, out, index, origin, sel);
    assert forall|i: int| 0 <= i < out.nodes@.len() implies node_from(g, seeds, d, #[trigger] out.objects()[i]) by {
        let w = origin[i];
        assert(0 <= w < g.nodes@.len() && sel[w]);
        assert(selected(g, seeds, d, w));
        assert(out.objects()[i] == g.objects()[w]);
    }
    assert forall|w: int| 0 <= w < g.nodes@.len() && #[trigger] selected(g, seeds, d, w) implies out.ids().contains(g.ids()[w]) by {
        assert(sel[w]);
        let i = index[w]->0 as int;
        assert(0 <= i < out.ids().len());
        assert(out.ids()[i] == g.ids()[w]);
    }
}

proof fn lemma_extraction_edges(
    g: RelationshipGraph,
    seeds: Seq<usize>,
    d: nat,
    out: RelationshipGraph,
    index: Seq<Option<usize>>,
    sel: Seq<bool>,
    taken: Seq<bool>,
    keys: Seq<(usize, usize, Seq<char>)>,
)
    requires
        g.wf(),
        sel.len() == g.nodes@.len(),
        taken.len() == g.edges@.len(),
        forall|w: int| 0 <= w < g.nodes@.len() ==> #[trigger] sel[w] == selected(g, seeds, d, w),
        forall|k: int| 0 <= k < g.edges@.len() ==> #[trigger] taken[k] == traversed(g, seeds, d, k),
        forall|w: int| 0 <= w < g.nodes@.len() && sel[w] ==> #[trigger] index[w]->0 < out.nodes@.len()
            && out.ids()[index[w]->0 as int] == g.ids()[w],
        edges_within(out),
        keys_distinct(out.edges@),
        keys == g.edges@.map_values(|e: RelationEdge| mapped_key(index, e)),
        from_taken(out.edges@, keys, taken, g.edges@.len() as int),
        covers_taken(out.edges@, keys, taken, g.edges@.len() as int),
    ensures
        forall|a: int| 0 <= a < out.edges@.len() ==> edge_from(g, seeds, d, edge_triple(out, #[trigger] out.edges@[a])),
        forall|j: int|
            0 <= j < g.edges@.len() && #[trigger] traversed(g, seeds, d, j) ==> has_triple(out, edge_triple(g, g.edges@[j])),
{
    assert forall|k: int| 0 <= k < g.edges@.len() && taken[k] implies #[trigger] keys[k].0 < out.nodes@.len()
        && keys[k].1 < out.nodes@.len()
        && out.ids()[keys[k].0 as int] == g.ids()[g.edges@[k].source as int]
        && out.ids()[keys[k].1 as int] == g.ids()[g.edges@[k].target as int] by {
        lemma_traversed_ends_selected(g, seeds, d, k);
        assert(g.edges@[k].source < g.nodes@.len());
        assert(sel[g.edges@[k].source as int]);
        assert(sel[g.edges@[k].target as int]);
    }
    assert forall|a: int| 0 <= a < out.edges@.len() implies edge_from(g, seeds, d, edge_triple(out, #[trigger] out.edges@[a])) by {
        let k = choose|k: int| 0 <= k < g.edges@.len() && taken[k] && edge_key(out.edges@[a]) == #[trigger] keys[k];
        assert(keys[k].0 < out.nodes@.len());
        assert(edge_triple(out, out.edges@[a]) == edge_triple(g, g.edges@[k]));
    }
    assert forall|k: int| 0 <= k < g.edges@.len() && #[trigger] traversed(g, seeds, d, k) implies has_triple(out, edge_triple(g, g.edges@[k])) by {
        assert(taken[k]);
        assert(key_present(out.edges@, keys[k]));
        let a = choose|a: int| 0 <= a < out.edges@.len() && edge_key(#[trigger] out.edges@[a]) == keys[k];
        assert(keys[k].0 < out.nodes@.len());
        assert(edge_triple(out, out.edges@[a]) == edge_triple(g, g.edges@[k]));
    }
}

proof fn lemma_triples_distinct(out: RelationshipGraph)
    requires
        out.ids().no_duplicates(),
        edges_within(out),
        keys_distinct(out.edges@),
    ensures
        forall|a: int, b: int|
            0 <= a < b < out.edges@.len() ==> edge_triple(out, #[trigger] out.edges@[a]) != edge_triple(out, #[trigger] out.edges@[b]),
{
    assert forall|a: int, b: int| 0 <= a < b < out.edges@.len() implies edge_triple(out, #[trigger] out.edges@[a]) != edge_triple(out, #[trigger] out.edges@[b]) by {
        if edge_triple(out, out.edges@[a]) == edge_triple(out, out.edges@[b]) {
            assert(out.edges@[a].source == out.edges@[b].source);
            assert(out.edges@[a].target == out.edges@[b].target);
            assert(edge_key(out.edges@[a]) == edge_key(out.edges@[b]));
        }
    }
}

/// The subgraph of `graph` within `depth` hops of the nodes `nodes` (see
/// `is_extraction`): depth 0 keeps the seeds alone, without edges.
pub fn extract_subgraph(graph: &RelationshipGraph, nodes: &Vec<usize>, depth: usize) -> (out: RelationshipGraph)
    requires
        graph.wf(),
        forall|i: int| 0 <= i < nodes@.len() ==> #[trigger] nodes@[i] < graph.nodes@.len(),
    ensures
        is_extraction(*graph, nodes@, depth as nat, out),
{
    let ghost seeds = nodes@;
    let ghost d = depth as nat;
    let n = graph.nodes.len();
    let m = graph.edges.len();
    let (sel, taken) = mark_extraction(graph, nodes, depth);
    let mut out = RelationshipGraph::new();
    let mut index: Vec<Option<usize>> = Vec::new();
    let ghost mut origin: Seq<int> = Seq::empty();
    let mut v: usize = 0;
    while v < n
        invariant
            graph.wf(),
            n == graph.nodes@.len(),
            sel@.len() == n,
            forall|w: int| 0 <= w < n ==> #[trigger] sel@[w] == selected(*graph, seeds, d, w),
            v <= n,
            index@.len() == v,
            out.edges@.len() == 0,
            out.nodes@.len() == origin.len(),
            out.nodes@.len() <= v,
            forall|i: int| 0 <= i < origin.len() ==> 0 <= #[trigger] origin[i] < v && sel@[origin[i]]
                && out.objects()[i] == graph.objects()[origin[i]],
            forall|i: int, k: int| 0 <= i < k < origin.len() ==> #[trigger] origin[i] < #[trigger] origin[k],
            forall|w: int| 0 <= w < v ==> (#[trigger] index@[w] is Some) == sel@[w],
            forall|w: int| 0 <= w < v && #[trigger] index@[w] is Some ==> index@[w]->0 < origin.len() && origin[index@[w]->0 as int] == w,
        decreases n - v,
    {
        if sel[v] {
            let o = &graph.nodes[v];
            let obj = MitreObject { id: o.id.clone(), name: o.name.clone(), object_type: o.object_type.clone() };
            index.push(Some(out.nodes.len()));
            let ghost before = out.objects();
            out.nodes.push(obj);
            proof {
                origin = origin.push(v as int);
                assert(out.objects() =~= before.push(graph.objects()[v as int]));
            }
        } else {
            index.push(None);
        }
        v = v + 1;
    }
    proof {
        assert forall|i: int, k: int| 0 <= i < k < out.nodes@.len() implies out.ids()[i] != out.ids()[k] by {
            assert(origin[i] < origin[k]);
            assert(out.ids()[i] == out.objects()[i].0);
            assert(graph.ids()[origin[i]] == graph.objects()[origin[i]].0);
            assert(graph.ids()[origin[k]] == graph.objects()[origin[k]].0);
        }
        assert(out.ids().no_duplicates());
    }
    let ghost keys = graph.edges@.map_values(|e: RelationEdge| mapped_key(index@, e));
    let ghost keys = graph.edges@.map_values(|e: RelationEdge| mapped_key(index@, e));
    let mut j: usize = 0;
    while j < m
        invariant
            graph.wf(),
            n == graph.nodes@.len(),
            m == graph.edges@.len(),
            sel@.len() == n,
            taken@.len() == m,
            forall|w: int| 0 <= w < n ==> #[trigger] sel@[w] == selected(*graph, seeds, d, w),
            forall|k: int| 0 <= k < m ==> #[trigger] taken@[k] == traversed(*graph, seeds, d, k),
            index@.len() == n,
            out.nodes@.len() == origin.len(),
            out.nodes@.len() <= n,
            out.ids().no_duplicates(),
            forall|i: int| 0 <= i < origin.len() ==> 0 <= #[trigger] origin[i] < n && sel@[origin[i]]
                && out.objects()[i] == graph.objects()[origin[i]],
            forall|w: int| 0 <= w < n ==> (#[trigger] index@[w] is Some) == sel@[w],
            forall|w: int| 0 <= w < n && #[trigger] index@[w] is Some ==> index@[w]->0 < origin.len() && origin[index@[w]->0 as int] == w,
            j <= m,
            out.edges@.len() <= j,
            edges_within(out),
            keys_distinct(out.edges@),
            keys == graph.edges@.map_values(|e: RelationEdge| mapped_key(index@, e)),
            from_taken(out.edges@, keys, taken@, j as int),
            covers_taken(out.edges@, keys, taken@, j as int),
        decreases m - j,
    {
        if taken[j] {
            let e = &graph.edges[j];
            proof {
                lemma_traversed_ends_selected(*graph, seeds, d, j as int);
            }
            let s = index[e.source].unwrap();
            let t = index[e.target].unwrap();
            let ghost before = out.edges@;
            add_edge_if_absent(&mut out, s, t, e.label.clone());
            proof {
                assert(keys[j as int] == (s, t, e.label@));
                lemma_edge_step(before, out.edges@, keys, taken@, j as int);
            }
        } else {
            proof {
                lemma_edge_skip(out.edges@, keys, taken@, j as int);
            }
        }
        j = j + 1;
    }
    proof {
        assert(node_map_ok(*graph, out, index@, origin, sel@));
        lemma_index_ids(*graph, out, index@, origin, sel@);
        lemma_extraction_nodes(*graph, seeds, d, out, index@, origin, sel@);
        lemma_extraction_edges(*graph, seeds, d, out, index@, sel@, taken@, keys);
        lemma_triples_distinct(out);
    }
    out
}

/// A traversal of depth 0 from a single seed keeps that seed alone: one
/// node, no edge.
pub proof fn lemma_depth_zero_keeps_seed(g: RelationshipGraph, s: usize, out: RelationshipGraph)
    requires
        g.wf(),
        s < g.nodes@.len(),
        is_extraction(g, seq![s], 0, out),
    ensures
        out.nodes@.len() == 1,
        out.objects()[0] == g.objects()[s as int],
        out.edges@.len() == 0,
{
    let seeds = seq![s];
    assert forall|v: int| selected(g, seeds, 0, v) implies v == s by {
        let i = choose|i: int| 0 <= i < seeds.len() && #[trigger] within(g, seeds[i] as int, v, 0);
    }
    assert(within(g, seeds[0] as int, s as int, 0));
    assert(selected(g, seeds, 0, s as int));
    assert(out.ids().contains(g.ids()[s as int]));
    assert forall|i: int| 0 <= i < out.nodes@.len() implies #[trigger] out.objects()[i] == g.objects()[s as int] by {
        assert(node_from(g, seeds, 0, out.objects()[i]));
    }
    if out.nodes@.len() > 1 {
        assert(out.objects()[0] == out.objects()[1]);
        assert(out.ids()[0] == out.objects()[0].0);
        assert(out.ids()[1] == out.objects()[1].0);
    }
    let k = choose|k: int| 0 <= k < out.ids().len() && out.ids()[k] == g.ids()[s as int];
    assert(out.objects()[k] == g.objects()[s as int]);
    if out.edges@.len() > 0 {
        assert(edge_from(g, seeds, 0, edge_triple(out, out.edges@[0])));
    }
}

/// Every node within reach of the seeds stands in the subgraph exactly
/// once, and every edge that the traversal takes is there exactly once, even
/// when the traversals from several seeds meet.
pub proof fn lemma_extraction_without_repeats(g: RelationshipGraph, seeds: Seq<usize>, depth: nat, out: RelationshipGraph)
    requires
        g.wf(),
        is_extraction(g, seeds, depth, out),
    ensures
        forall|v: int|
            0 <= v < g.nodes@.len() && #[trigger] selected(g, seeds, depth, v) ==> exists|i: int|
                0 <= i < out.nodes@.len() && out.ids()[i] == g.ids()[v] && forall|i2: int|
                    0 <= i2 < out.nodes@.len() && #[trigger] out.ids()[i2] == g.ids()[v] ==> i2 == i,
        forall|j: int|
            0 <= j < g.edges@.len() && #[trigger] traversed(g, seeds, depth, j) ==> exists|a: int|
                0 <= a < out.edges@.len() && edge_triple(out, out.edges@[a]) == edge_triple(g, g.edges@[j]) && forall|a2: int|
                    0 <= a2 < out.edges@.len() && edge_triple(out, #[trigger] out.edges@[a2]) == edge_triple(g, g.edges@[j]) ==> a2 == a,
{
    assert forall|v: int| 0 <= v < g.nodes@.len() && #[trigger] selected(g, seeds, depth, v) implies exists|i: int|
        0 <= i < out.nodes@.len() && out.ids()[i] == g.ids()[v] && forall|i2: int|
            0 <= i2 < out.nodes@.len() && #[trigger] out.ids()[i2] == g.ids()[v] ==> i2 == i by {
        assert(out.ids().contains(g.ids()[v]));
        let i = choose|i: int| 0 <= i < out.ids().len() && out.ids()[i] == g.ids()[v];
        assert forall|i2: int| 0 <= i2 < out.nodes@.len() && #[trigger] out.ids()[i2] == g.ids()[v] implies i2 == i by {
            if i2 != i {
                assert(out.ids()[i2] == out.ids()[i]);
            }
        }
    }
    assert forall|j: int| 0 <= j < g.edges@.len() && #[trigger] traversed(g, seeds, depth, j) implies exists|a: int|
        0 <= a < out.edges@.len() && edge_triple(out, out.edges@[a]) == edge_triple(g, g.edges@[j]) && forall|a2: int|
            0 <= a2 < out.edges@.len() && edge_triple(out, #[trigger] out.edges@[a2]) == edge_triple(g, g.edges@[j]) ==> a2 == a by {
        assert(has_triple(out, edge_triple(g, g.edges@[j])));
        let a = choose|a: int| 0 <= a < out.edges@.len() && edge_triple(out, #[trigger] out.edges@[a]) == edge_triple(g, g.edges@[j]);
        assert forall|a2: int| 0 <= a2 < out.edges@.len() && edge_triple(out, #[trigger] out.edges@[a2]) == edge_triple(g, g.edges@[j]) implies a2 == a by {
            if a2 < a {
                assert(edge_triple(out, out.edges@[a2]) != edge_triple(out, out.edges@[a]));
            } else if a2 > a {
                assert(edge_triple(out, out.edges@[a]) != edge_triple(out, out.edges@[a2]));
            }
        }
    }
}

} // verus!
