//! Building the mapping graph from a record batch, one upsert per endpoint.
use vstd::prelude::*;
use crate::model::{key_ids, Mapping, MappingEdge, MappingGraph, EdgeData, NodeData, NodeType, MAX_ELEMENTS};
use crate::strength::StrengthTable;

verus! {

/// The node list after looking up `id`: unchanged if a node has that id,
/// else extended by a node of kind `t`.
pub open spec fn upsert(keys: Seq<(Seq<char>, NodeType)>, id: Seq<char>, t: NodeType) -> Seq<(Seq<char>, NodeType)> {
    if key_ids(keys).contains(id) {
        keys
    } else {
        keys.push((id, t))
    }
}

/// Nodes, in order of first appearance, of the graph built from `recs`: each
/// record brings its capability id as a `Veris` node, then its attack object
/// id as a `Mitre` node.
pub open spec fn built_nodes(recs: Seq<Mapping>) -> Seq<(Seq<char>, NodeType)>
    decreases recs.len(),
{
    if recs.len() == 0 {
        Seq::empty()
    } else {
        let r = recs.last();
        upsert(
            upsert(built_nodes(recs.drop_last()), r.capability_id@, NodeType::Veris),
            r.attack_object_id@,
            NodeType::Mitre,
        )
    }
}

/// Edge `k` of `g` is the edge that record `r` brings under strength table `table`.
pub open spec fn edge_matches(g: MappingGraph, k: int, r: Mapping, table: StrengthTable) -> bool {
    let e = g.edges@[k];
    &&& g.nodes@[e.source as int].id@ == r.capability_id@
    &&& g.nodes@[e.target as int].id@ == r.attack_object_id@
    &&& e.data.mapping_type@ == r.mapping_type@
    &&& e.data.strength == table.spec_strength(r.mapping_type@)
}

/// The graph `g` is the one built from `recs`.
pub open spec fn is_built_from(g: MappingGraph, recs: Seq<Mapping>, table: StrengthTable) -> bool {
    &&& g.keys() == built_nodes(recs)
    &&& g.edges@.len() == recs.len()
    &&& forall|k: int| 0 <= k < recs.len() ==> edge_matches(g, k, #[trigger] recs[k], table)
    &&& forall|i: int| 0 <= i < g.nodes@.len() ==> (#[trigger] g.nodes@[i]).metadata@.len() == 0
}

proof fn lemma_upsert_len(keys: Seq<(Seq<char>, NodeType)>, id: Seq<char>, t: NodeType)
    ensures
        upsert(keys, id, t).len() <= keys.len() + 1,
        upsert(keys, id, t).len() >= keys.len(),
{
}

/// A batch of `n` records builds at most `2 * n` nodes.
pub proof fn lemma_built_node_bound(recs: Seq<Mapping>)
    ensures
        built_nodes(recs).len() <= 2 * recs.len(),
    decreases recs.len(),
{
    if recs.len() > 0 {
        let r = recs.last();
        lemma_built_node_bound(recs.drop_last());
        let p = built_nodes(recs.drop_last());
        lemma_upsert_len(p, r.capability_id@, NodeType::Veris);
        lemma_upsert_len(upsert(p, r.capability_id@, NodeType::Veris), r.attack_object_id@, NodeType::Mitre);
    }
}

/// A graph built from `n` records has exactly `n` edges and at most `2 * n` nodes.
pub proof fn lemma_build_counts(g: MappingGraph, recs: Seq<Mapping>, table: StrengthTable)
    requires
        is_built_from(g, recs, table),
    ensures
        g.nodes@.len() <= 2 * recs.len(),
        g.edges@.len() == recs.len(),
{
    lemma_built_node_bound(recs);
    assert(g.nodes@.len() == g.keys().len());
}

/// Two graphs built from the same records are the same graph: the same
/// nodes in the same order, and edges between the same node indices.
pub proof fn lemma_build_deterministic(g1: MappingGraph, g2: MappingGraph, recs: Seq<Mapping>, table: StrengthTable)
    requires
        g1.wf(),
        g2.wf(),
        is_built_from(g1, recs, table),
        is_built_from(g2, recs, table),
    ensures
        g1.keys() == g2.keys(),
        g1.ids() == g2.ids(),
        g1.edge_ends() == g2.edge_ends(),
{
    assert(g1.ids() =~= key_ids(g1.keys()));
    assert(g2.ids() =~= key_ids(g2.keys()));
    assert forall|k: int| 0 <= k < recs.len() implies #[trigger] g1.edge_ends()[k] == g2.edge_ends()[k] by {
        assert(edge_matches(g1, k, recs[k], table));
        assert(edge_matches(g2, k, recs[k], table));
        let (a1, b1) = (g1.edges@[k].source as int, g1.edges@[k].target as int);
        let (a2, b2) = (g2.edges@[k].source as int, g2.edges@[k].target as int);
        assert(g1.ids()[a1] == g2.ids()[a2]);
        assert(g1.ids()[b1] == g2.ids()[b2]);
    }
    assert(g1.edge_ends() =~= g2.edge_ends());
}

/// The strength, in tenths, that `table` gives to record `mapping`: that of
/// its mapping type.
pub fn calculate_strength(mapping: &Mapping, table: &StrengthTable) -> (s: u64)
    requires
        table.wf(),
    ensures
        s == table.spec_strength(mapping.mapping_type@),
        crate::strength::valid_strength(s),
{
    table.strength_of(&mapping.mapping_type)
}

/// The index of the node whose id is `id`, if there is one.
pub fn find_node(graph: &MappingGraph, id: &String) -> (r: Option<usize>)
    requires
        graph.wf(),
    ensures
        r is None <==> !graph.ids().contains(id@),
        r matches Some(i) ==> i < graph.nodes@.len() && graph.ids()[i as int] == id@,
{
    let mut i: usize = 0;
    while i < graph.nodes.len()
        invariant
            i <= graph.nodes@.len(),
            forall|j: int| 0 <= j < i ==> graph.ids()[j] != id@,
        decreases graph.nodes@.len() - i,
    {
        if graph.nodes[i].id == *id {
            assert(graph.ids()[i as int] == id@);
            return Some(i);
        }
        i = i + 1;
    }
    None
}

/// Looks `node_id` up and, if no node has it, adds a node of kind `node_type`
/// with empty metadata. Returns the node's index either way.
pub fn add_node_if_not_exists(graph: &mut MappingGraph, node_id: &String, node_type: NodeType) -> (r: usize)
    requires
        old(graph).wf(),
        old(graph).nodes@.len() < MAX_ELEMENTS,
    ensures
        final(graph).wf(),
        final(graph).keys() == upsert(old(graph).keys(), node_id@, node_type),
        final(graph).edges@ == old(graph).edges@,
        r < final(graph).nodes@.len(),
        final(graph).ids()[r as int] == node_id@,
        forall|i: int| 0 <= i < old(graph).nodes@.len() ==> final(graph).nodes@[i] == old(graph).nodes@[i],
        final(graph).nodes@.len() > old(graph).nodes@.len() ==> final(graph).nodes@.last().metadata@.len() == 0,
{
    proof {
        assert(key_ids(graph.keys()) =~= graph.ids());
    }
    match find_node(graph, node_id) {
        Some(i) => i,
        None => {
            let node = NodeData { id: node_id.clone(), node_type, metadata: Vec::new() };
            let ghost before = *graph;
            graph.nodes.push(node);
            proof {
                assert(graph.ids() =~= before.ids().push(node_id@));
                assert(graph.keys() =~= before.keys().push((node_id@, node_type)));
                assert(graph.ids().no_duplicates());
            }
            graph.nodes.len() - 1
        }
    }
}

/// Builds the graph of a record batch: for each record, upserts its primary
/// node, then its secondary node, then adds one edge between them that carries
/// the record's mapping type and its strength under `table`.
pub fn create_graph(mappings: &Vec<Mapping>, table: &StrengthTable) -> (g: MappingGraph)
    requires
        table.wf(),
        mappings@.len() <= MAX_ELEMENTS / 2,
    ensures
        g.wf(),
        is_built_from(g, mappings@, *table),
{
    let mut graph = MappingGraph { nodes: Vec::new(), edges: Vec::new() };
    let mut k: usize = 0;
    while k < mappings.len()
        invariant
            table.wf(),
            mappings@.len() <= MAX_ELEMENTS / 2,
            k <= mappings@.len(),
            graph.wf(),
            graph.keys() == built_nodes(mappings@.subrange(0, k as int)),
            graph.nodes@.len() <= 2 * k,
            graph.edges@.len() == k,
            forall|j: int| 0 <= j < k ==> edge_matches(graph, j, #[trigger] mappings@[j], *table),
            forall|i: int| 0 <= i < graph.nodes@.len() ==> (#[trigger] graph.nodes@[i]).metadata@.len() == 0,
        decreases mappings@.len() - k,
    {
        let m = &mappings[k];
        let ghost prefix = mappings@.subrange(0, k as int);
        let ghost g0 = graph;
        proof {
            assert(mappings@.subrange(0, k + 1).drop_last() =~= prefix);
            lemma_upsert_len(g0.keys(), m.capability_id@, NodeType::Veris);
        }
        let veris_index = add_node_if_not_exists(&mut graph, &m.capability_id, NodeType::Veris);
        let ghost g1 = graph;
        proof {
            lemma_upsert_len(g1.keys(), m.attack_object_id@, NodeType::Mitre);
        }
        let mitre_index = add_node_if_not_exists(&mut graph, &m.attack_object_id, NodeType::Mitre);
        let strength = table.strength_of(&m.mapping_type);
        let edge = MappingEdge {
            source: veris_index,
            target: mitre_index,
            data: EdgeData { mapping_type: m.mapping_type.clone(), strength },
        };
        let ghost g2 = graph;
        graph.edges.push(edge);
        proof {
            assert(graph.keys() == g2.keys());
            assert(graph.ids() == g2.ids());
            assert forall|j: int| 0 <= j < k + 1 implies edge_matches(graph, j, #[trigger] mappings@[j], *table) by {
                if j < k {
                    assert(edge_matches(g0, j, mappings@[j], *table));
                    assert(graph.edges@[j] == g0.edges@[j]);
                    assert(g0.nodes@[g0.edges@[j].source as int] == graph.nodes@[g0.edges@[j].source as int]);
                    assert(g0.nodes@[g0.edges@[j].target as int] == graph.nodes@[g0.edges@[j].target as int]);
                } else {
                    assert(graph.nodes@[veris_index as int] == g1.nodes@[veris_index as int]);
                }
            }
        }
        k = k + 1;
    }
    assert(mappings@.subrange(0, k as int) =~= mappings@);
    graph
}

} // verus!
