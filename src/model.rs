//! The mapping graph: an arena of taxonomy nodes addressed by index, and the
//! relationship records it is built from.
use vstd::prelude::*;
use crate::strength::valid_strength;

verus! {

/// One relationship record between a capability (primary side) and an
/// attack-technique object (secondary side). Only `capability_id`,
/// `attack_object_id`, `mapping_type`, `technology_domain` and `creation_date`
/// take part in the analyses; the rest is descriptive metadata.
pub struct Mapping {
    pub mapping_framework: String,
    pub mapping_framework_version: String,
    pub capability_group: String,
    pub capability_id: String,
    pub capability_description: String,
    pub mapping_type: String,
    pub attack_object_id: String,
    pub attack_object_name: String,
    pub attack_version: String,
    pub technology_domain: String,
    pub references: String,
    pub comments: String,
    pub organization: String,
    pub creation_date: String,
    pub last_update: String,
}

/// Which side of a mapping a node stands on: `Veris` is the primary
/// (capability) side, `Mitre` the secondary (attack-technique) side.
#[derive(Clone, Copy, Debug, PartialEq, Eq, Structural)]
pub enum NodeType {
    Veris,
    Mitre,
}

/// A taxonomy node: its external id, its side, and descriptive key/value
/// pairs (none for the nodes that the builder creates).
pub struct NodeData {
    pub id: String,
    pub node_type: NodeType,
    pub metadata: Vec<(String, String)>,
}

/// What an edge carries: the record's mapping type and its strength in tenths.
pub struct EdgeData {
    pub mapping_type: String,
    pub strength: u64,
}

/// An edge of the arena, from the primary node `source` to the secondary node `target`.
pub struct MappingEdge {
    pub source: usize,
    pub target: usize,
    pub data: EdgeData,
}

/// Nodes and edges built from a batch of records. Node ids are unique and
/// every edge's endpoints are nodes of the arena; parallel edges are kept.
pub struct MappingGraph {
    pub nodes: Vec<NodeData>,
    pub edges: Vec<MappingEdge>,
}

/// Largest number of nodes, and of edges, that a graph may hold.
pub const MAX_ELEMENTS: usize = 0xffff_ffff;

pub open spec fn key_ids(keys: Seq<(Seq<char>, NodeType)>) -> Seq<Seq<char>> {
    keys.map_values(|k: (Seq<char>, NodeType)| k.0)
}

impl MappingGraph {
    pub open spec fn ids(&self) -> Seq<Seq<char>> {
        self.nodes@.map_values(|n: NodeData| n.id@)
    }

    /// Id and kind of each node, by index.
    pub open spec fn keys(&self) -> Seq<(Seq<char>, NodeType)> {
        self.nodes@.map_values(|n: NodeData| (n.id@, n.node_type))
    }

    pub open spec fn edge_ends(&self) -> Seq<(int, int)> {
        self.edges@.map_values(|e: MappingEdge| (e.source as int, e.target as int))
    }

    pub open spec fn wf(&self) -> bool {
        &&& self.ids().no_duplicates()
        &&& self.nodes@.len() <= MAX_ELEMENTS
        &&& self.edges@.len() <= MAX_ELEMENTS
        &&& forall|k: int|
            0 <= k < self.edges@.len() ==> {
                &&& (#[trigger] self.edges@[k]).source < self.nodes@.len()
                &&& self.edges@[k].target < self.nodes@.len()
                &&& valid_strength(self.edges@[k].data.strength)
            }
    }

    pub fn node_count(&self) -> (n: usize)
        ensures
            n == self.nodes@.len(),
    {
        self.nodes.len()
    }

    pub fn edge_count(&self) -> (n: usize)
        ensures
            n == self.edges@.len(),
    {
        self.edges.len()
    }
}

} // verus!
