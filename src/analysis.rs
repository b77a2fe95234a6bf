//! The structural and statistical analyses of a built mapping graph.
use vstd::prelude::*;
use crate::algo::{
    component_count, count_components, lemma_component_count_range, is_least_cost, pairs_of, path_costs, path_costs_of, reaches, MAX_EDGE_COST,
};
use crate::dates::{is_range_of, perform_temporal_analysis, read_dates, DateParseError, DateRange};
use crate::degree::{degree_rows, in_ranking_order, perform_node_degree_analysis, rows_degree_sum, rows_view, DegreeRow};
use crate::distribution::{is_tally_of, strings_view, tally, LabelCount};
use crate::model::{Mapping, MappingGraph, NodeType};
use crate::ranking::{is_stable_desc_order, stable_desc_order};
use crate::strength::valid_strength;

verus! {

/// Record, node and edge counts.
pub struct BasicStats {
    pub total_mappings: usize,
    pub total_nodes: usize,
    pub total_edges: usize,
}

pub fn perform_basic_stats(graph: &MappingGraph, mappings: &Vec<Mapping>) -> (r: BasicStats)
    ensures
        r.total_mappings == mappings@.len(),
        r.total_nodes == graph.nodes@.len(),
        r.total_edges == graph.edges@.len(),
{
    BasicStats { total_mappings: mappings.len(), total_nodes: graph.nodes.len(), total_edges: graph.edges.len() }
}

/// Mapping type of each edge, by edge index.
pub open spec fn edge_labels(g: MappingGraph) -> Seq<Seq<char>> {
    g.edges@.map_values(|e: crate::model::MappingEdge| e.data.mapping_type@)
}

/// Number of edges of each mapping type, types in order of first appearance.
pub fn perform_mapping_type_analysis(graph: &MappingGraph) -> (r: Vec<LabelCount>)
    ensures
        is_tally_of(r@, edge_labels(*graph)),
{
    let mut labels: Vec<String> = Vec::new();
    let mut k: usize = 0;
    while k < graph.edges.len()
        invariant
            k <= graph.edges@.len(),
            strings_view(labels@) == edge_labels(*graph).subrange(0, k as int),
        decreases graph.edges@.len() - k,
    {
        let ghost before = labels@;
        labels.push(graph.edges[k].data.mapping_type.clone());
        assert(strings_view(labels@) =~= strings_view(before).push(edge_labels(*graph)[k as int]));
        k = k + 1;
        assert(strings_view(labels@) =~= edge_labels(*graph).subrange(0, k as int));
    }
    assert(edge_labels(*graph).subrange(0, k as int) =~= edge_labels(*graph));
    tally(&labels)
}

/// Technology domain of each record, by record index.
pub open spec fn domain_labels(mappings: Seq<Mapping>) -> Seq<Seq<char>> {
    mappings.map_values(|m: Mapping| m.technology_domain@)
}

/// Number of records of each technology domain, domains in order of first appearance.
pub fn perform_tech_domain_analysis(mappings: &Vec<Mapping>) -> (r: Vec<LabelCount>)
    ensures
        is_tally_of(r@, domain_labels(mappings@)),
{
    let mut labels: Vec<String> = Vec::new();
    let mut k: usize = 0;
    while k < mappings.len()
        invariant
            k <= mappings@.len(),
            strings_view(labels@) == domain_labels(mappings@).subrange(0, k as int),
        decreases mappings@.len() - k,
    {
        let ghost before = labels@;
        labels.push(mappings[k].technology_domain.clone());
        assert(strings_view(labels@) =~= strings_view(before).push(domain_labels(mappings@)[k as int]));
        k = k + 1;
        assert(strings_view(labels@) =~= domain_labels(mappings@).subrange(0, k as int));
    }
    assert(domain_labels(mappings@).subrange(0, k as int) =~= domain_labels(mappings@));
    tally(&labels)
}

/// Number of nodes of kind `t` among `keys`.
pub open spec fn kind_count(keys: Seq<(Seq<char>, NodeType)>, t: NodeType) -> nat
    decreases keys.len(),
{
    if keys.len() == 0 {
        0
    } else {
        kind_count(keys.drop_last(), t) + if keys.last().1 == t {
            1nat
        } else {
            0nat
        }
    }
}

/// How many nodes are of each kind.
pub struct NodeTypeCounts {
    pub veris: u64,
    pub mitre: u64,
}

proof fn lemma_kind_count_bound(keys: Seq<(Seq<char>, NodeType)>, t: NodeType)
    ensures
        kind_count(keys, t) <= keys.len(),
    decreases keys.len(),
{
    if keys.len() > 0 {
        lemma_kind_count_bound(keys.drop_last(), t);
    }
}

pub fn perform_node_type_distribution(graph: &MappingGraph) -> (r: NodeTypeCounts)
    ensures
        r.veris == kind_count(graph.keys(), NodeType::Veris),
        r.mitre == kind_count(graph.keys(), NodeType::Mitre),
{
    let ghost keys = graph.keys();
    let mut veris: u64 = 0;
    let mut mitre: u64 = 0;
    let mut k: usize = 0;
    while k < graph.nodes.len()
        invariant
            keys == graph.keys(),
            k <= graph.nodes@.len(),
            veris == kind_count(keys.subrange(0, k as int), NodeType::Veris),
            mitre == kind_count(keys.subrange(0, k as int), NodeType::Mitre),
        decreases graph.nodes@.len() - k,
    {
        proof {
            assert(keys.subrange(0, k + 1).drop_last() =~= keys.subrange(0, k as int));
            lemma_kind_count_bound(keys.subrange(0, k as int), NodeType::Veris);
            lemma_kind_count_bound(keys.subrange(0, k as int), NodeType::Mitre);
        }
        match graph.nodes[k].node_type {
            NodeType::Veris => veris = veris + 1,
            NodeType::Mitre => mitre = mitre + 1,
        }
        k = k + 1;
    }
    assert(keys.subrange(0, k as int) =~= keys);
    NodeTypeCounts { veris, mitre }
}

/// Endpoints of each edge, by edge index.
pub open spec fn plain_ends(g: MappingGraph) -> Seq<(usize, usize)> {
    g.edges@.map_values(|e: crate::model::MappingEdge| (e.source, e.target))
}

fn edge_endpoints(graph: &MappingGraph) -> (r: Vec<(usize, usize)>)
    ensures
        r@ == plain_ends(*graph),
{
    let mut r: Vec<(usize, usize)> = Vec::new();
    let mut k: usize = 0;
    while k < graph.edges.len()
        invariant
            k <= graph.edges@.len(),
            r@ == plain_ends(*graph).subrange(0, k as int),
        decreases graph.edges@.len() - k,
    {
        r.push((graph.edges[k].source, graph.edges[k].target));
        k = k + 1;
        assert(r@ =~= plain_ends(*graph).subrange(0, k as int));
    }
    assert(plain_ends(*graph).subrange(0, k as int) =~= plain_ends(*graph));
    r
}

/// Number of connected components, the graph taken as undirected: none for
/// an empty graph, and between one and the node count otherwise.
pub fn perform_connected_components_analysis(graph: &MappingGraph) -> (r: usize)
    requires
        graph.wf(),
    ensures
        r == component_count(graph.nodes@.len() as nat, plain_ends(*graph)),
        graph.nodes@.len() == 0 ==> r == 0,
        graph.nodes@.len() > 0 ==> 1 <= r <= graph.nodes@.len(),
{
    let ends = edge_endpoints(graph);
    assert forall|k: int| 0 <= k < ends@.len() implies (#[trigger] ends@[k]).0 < graph.nodes@.len() && ends@[k].1 < graph.nodes@.len() by {
        assert(graph.edges@[k].source < graph.nodes@.len());
    }
    proof {
        lemma_component_count_range(graph.nodes@.len() as nat, plain_ends(*graph));
    }
    count_components(graph.nodes.len(), &ends)
}

/// Cost of crossing an edge of strength `s` tenths: `1 / strength`, in units
/// of 1/252, which is `2520 / s` and exact for every strength from 1 to 10.
pub open spec fn edge_cost(s: u64) -> u64 {
    (MAX_EDGE_COST / s) as u64
}

/// Each edge with its cost, by edge index.
pub open spec fn weighted_ends(g: MappingGraph) -> Seq<(usize, usize, u64)> {
    g.edges@.map_values(|e: crate::model::MappingEdge| (e.source, e.target, edge_cost(e.data.strength)))
}

fn weighted_edge_list(graph: &MappingGraph) -> (r: Vec<(usize, usize, u64)>)
    requires
        graph.wf(),
    ensures
        r@ == weighted_ends(*graph),
{
    let mut r: Vec<(usize, usize, u64)> = Vec::new();
    let mut k: usize = 0;
    while k < graph.edges.len()
        invariant
            graph.wf(),
            k <= graph.edges@.len(),
            r@ == weighted_ends(*graph).subrange(0, k as int),
        decreases graph.edges@.len() - k,
    {
        let e = &graph.edges[k];
        assert(valid_strength(e.data.strength));
        r.push((e.source, e.target, MAX_EDGE_COST / e.data.strength));
        k = k + 1;
        assert(r@ =~= weighted_ends(*graph).subrange(0, k as int));
    }
    assert(weighted_ends(*graph).subrange(0, k as int) =~= weighted_ends(*graph));
    r
}

/// Why a shortest-path query has no length to report.
pub enum PathError {
    /// The graph has fewer than two nodes.
    InsufficientNodes,
    /// No node has one of the requested ids.
    UnknownEndpoint,
    /// The target cannot be reached; `reached` holds, by node index, the
    /// costs that the search found before it ran out of nodes.
    NoPath { reached: Vec<Option<u64>> },
}

/// What a search result `costs` says of the path to `target`.
pub open spec fn outcome_holds(costs: Seq<Option<u64>>, target: int, r: Result<u64, PathError>) -> bool {
    match costs[target] {
        Some(c) => r == Ok::<u64, PathError>(c),
        None => r matches Err(PathError::NoPath { reached }) && reached@ == costs,
    }
}

/// The length of the path to `target` found by a search with result `costs`,
/// or the search result itself when the target was not reached.
pub fn path_outcome(costs: Vec<Option<u64>>, target: usize) -> (r: Result<u64, PathError>)
    requires
        target < costs@.len(),
    ensures
        outcome_holds(costs@, target as int, r),
{
    match costs[target] {
        Some(c) => Ok(c),
        None => Err(PathError::NoPath { reached: costs }),
    }
}

/// Weighted shortest path from the node with id `start` to the node with id
/// `target`, an edge of strength `s` costing `1 / s` (see `edge_cost`).
pub fn perform_shortest_path_analysis(graph: &MappingGraph, start: &String, target: &String) -> (r: Result<u64, PathError>)
    requires
        graph.wf(),
    ensures
        graph.nodes@.len() < 2 <==> r matches Err(PathError::InsufficientNodes),
        graph.nodes@.len() >= 2 && !(graph.ids().contains(start@) && graph.ids().contains(target@))
            <==> r matches Err(PathError::UnknownEndpoint),
        graph.nodes@.len() >= 2 && graph.ids().contains(start@) && graph.ids().contains(target@) ==> exists|s: int, t: int|
            0 <= s < graph.nodes@.len() && 0 <= t < graph.nodes@.len() && graph.ids()[s] == start@ && graph.ids()[t] == target@
                && outcome_holds(
                path_costs_of(graph.nodes@.len() as nat, weighted_ends(*graph), s as nat, Some(t as usize)),
                t,
                r,
            ) && (r matches Ok(c) ==> is_least_cost(weighted_ends(*graph), s, t, c as nat)) && (r matches Err(
                PathError::NoPath { .. },
            ) <==> !reaches(pairs_of(weighted_ends(*graph)), s, t)),
{
    if graph.nodes.len() < 2 {
        return Err(PathError::InsufficientNodes);
    }
    let s = match crate::builder::find_node(graph, start) {
        Some(s) => s,
        None => return Err(PathError::UnknownEndpoint),
    };
    let t = match crate::builder::find_node(graph, target) {
        Some(t) => t,
        None => return Err(PathError::UnknownEndpoint),
    };
    let ends = weighted_edge_list(graph);
    assert forall|k: int| 0 <= k < ends@.len() implies (#[trigger] ends@[k]).0 < graph.nodes@.len() && ends@[k].1
        < graph.nodes@.len() && ends@[k].2 <= MAX_EDGE_COST by {
        assert(graph.edges@[k].source < graph.nodes@.len());
        assert(valid_strength(graph.edges@[k].data.strength));
    }
    let costs = path_costs(graph.nodes.len(), &ends, s, Some(t));
    let r = path_outcome(costs, t);
    assert(graph.ids()[s as int] == start@ && graph.ids()[t as int] == target@);
    r
}

/// Strength of each edge, by edge index, as a ranking key.
pub open spec fn strength_keys(g: MappingGraph) -> Seq<u128> {
    g.edges@.map_values(|e: crate::model::MappingEdge| e.data.strength as u128)
}

/// One line of the edge-strength ranking.
pub struct StrengthRow {
    pub mapping_type: String,
    pub strength: u64,
}

/// Every edge's mapping type and strength, strongest first; edges of equal
/// strength keep the order of the records they came from.
pub fn perform_edge_strength_analysis(graph: &MappingGraph) -> (r: Vec<StrengthRow>)
    ensures
        exists|order: Seq<usize>|
            is_stable_desc_order(strength_keys(*graph), order) && r@.len() == order.len() && forall|k: int|
                0 <= k < order.len() ==> {
                    &&& (#[trigger] r@[k]).mapping_type@ == graph.edges@[order[k] as int].data.mapping_type@
                    &&& r@[k].strength == graph.edges@[order[k] as int].data.strength
                },
{
    let mut keys: Vec<u128> = Vec::new();
    let mut k: usize = 0;
    while k < graph.edges.len()
        invariant
            k <= graph.edges@.len(),
            keys@ == strength_keys(*graph).subrange(0, k as int),
        decreases graph.edges@.len() - k,
    {
        keys.push(graph.edges[k].data.strength as u128);
        k = k + 1;
        assert(keys@ =~= strength_keys(*graph).subrange(0, k as int));
    }
    assert(strength_keys(*graph).subrange(0, k as int) =~= strength_keys(*graph));
    let order = stable_desc_order(&keys);
    let mut r: Vec<StrengthRow> = Vec::new();
    let mut i: usize = 0;
    while i < order.len()
        invariant
            is_stable_desc_order(strength_keys(*graph), order@),
            strength_keys(*graph).len() == graph.edges@.len(),
            i <= order@.len(),
            r@.len() == i,
            forall|j: int|
                0 <= j < i ==> {
                    &&& (#[trigger] r@[j]).mapping_type@ == graph.edges@[order@[j] as int].data.mapping_type@
                    &&& r@[j].strength == graph.edges@[order@[j] as int].data.strength
                },
        decreases order@.len() - i,
    {
        let e = &graph.edges[order[i]];
        r.push(StrengthRow { mapping_type: e.data.mapping_type.clone(), strength: e.data.strength });
        i = i + 1;
    }
    r
}

/// The results of every analysis of one graph and its record batch.
pub struct AnalysisResults {
    pub basic_stats: BasicStats,
    pub mapping_type_analysis: Vec<LabelCount>,
    pub node_degree_analysis: Vec<DegreeRow>,
    pub connected_components_analysis: usize,
    pub shortest_path_analysis: Result<u64, PathError>,
    pub edge_strength_analysis: Vec<StrengthRow>,
    pub node_type_distribution: NodeTypeCounts,
    pub temporal_analysis: Result<Option<DateRange>, DateParseError>,
    pub tech_domain_analysis: Vec<LabelCount>,
}

/// Runs every analysis on `graph` and the records `mappings` it was built
/// from, the shortest path going from the node with id `start` to the node
/// with id `target`. A date that cannot be read affects the temporal result
/// alone.
pub fn perform_analyses(graph: &MappingGraph, mappings: &Vec<Mapping>, start: &String, target: &String) -> (r: AnalysisResults)
    requires
        graph.wf(),
    ensures
        r.basic_stats.total_mappings == mappings@.len(),
        r.basic_stats.total_nodes == graph.nodes@.len(),
        r.basic_stats.total_edges == graph.edges@.len(),
        is_tally_of(r.mapping_type_analysis@, edge_labels(*graph)),
        in_ranking_order(rows_view(r.node_degree_analysis@)),
        rows_view(r.node_degree_analysis@).to_multiset() == degree_rows(*graph).to_multiset(),
        rows_degree_sum(rows_view(r.node_degree_analysis@)) == 2 * graph.edges@.len(),
        r.connected_components_analysis == component_count(graph.nodes@.len() as nat, plain_ends(*graph)),
        graph.nodes@.len() == 0 ==> r.connected_components_analysis == 0,
        graph.nodes@.len() > 0 ==> 1 <= r.connected_components_analysis <= graph.nodes@.len(),
        graph.nodes@.len() < 2 <==> r.shortest_path_analysis matches Err(PathError::InsufficientNodes),
        graph.nodes@.len() >= 2 && !(graph.ids().contains(start@) && graph.ids().contains(target@))
            <==> r.shortest_path_analysis matches Err(PathError::UnknownEndpoint),
        graph.nodes@.len() >= 2 && graph.ids().contains(start@) && graph.ids().contains(target@) ==> exists|s: int, t: int|
            0 <= s < graph.nodes@.len() && 0 <= t < graph.nodes@.len() && graph.ids()[s] == start@ && graph.ids()[t] == target@
                && outcome_holds(
                path_costs_of(graph.nodes@.len() as nat, weighted_ends(*graph), s as nat, Some(t as usize)),
                t,
                r.shortest_path_analysis,
            ) && (r.shortest_path_analysis matches Ok(c) ==> is_least_cost(weighted_ends(*graph), s, t, c as nat)) && (
            r.shortest_path_analysis matches Err(PathError::NoPath { .. }) <==> !reaches(
                pairs_of(weighted_ends(*graph)),
                s,
                t,
            )),
        exists|order: Seq<usize>|
            is_stable_desc_order(strength_keys(*graph), order) && r.edge_strength_analysis@.len() == order.len()
                && forall|k: int|
                0 <= k < order.len() ==> {
                    &&& (#[trigger] r.edge_strength_analysis@[k]).mapping_type@ == graph.edges@[order[k] as int].data.mapping_type@
                    &&& r.edge_strength_analysis@[k].strength == graph.edges@[order[k] as int].data.strength
                },
        r.node_type_distribution.veris == kind_count(graph.keys(), NodeType::Veris),
        r.node_type_distribution.mitre == kind_count(graph.keys(), NodeType::Mitre),
        is_range_of(read_dates(mappings@), r.temporal_analysis),
        is_tally_of(r.tech_domain_analysis@, domain_labels(mappings@)),
{
    AnalysisResults {
        basic_stats: perform_basic_stats(graph, mappings),
        mapping_type_analysis: perform_mapping_type_analysis(graph),
        node_degree_analysis: perform_node_degree_analysis(graph),
        connected_components_analysis: perform_connected_components_analysis(graph),
        shortest_path_analysis: perform_shortest_path_analysis(graph, start, target),
        edge_strength_analysis: perform_edge_strength_analysis(graph),
        node_type_distribution: perform_node_type_distribution(graph),
        temporal_analysis: perform_temporal_analysis(mappings),
        tech_domain_analysis: perform_tech_domain_analysis(mappings),
    }
}

} // verus!
