//! The taxonomy-relationship graph: taxonomy objects as nodes, directed edges
//! labelled by relationship type.
use vstd::prelude::*;
use crate::model::MAX_ELEMENTS;

verus! {

/// A taxonomy object.
pub struct MitreObject {
    pub id: String,
    pub name: String,
    pub object_type: String,
}

/// A directed relationship between two taxonomy objects, named by id.
pub struct Relationship {
    pub source_ref: String,
    pub target_ref: String,
    pub relationship_type: String,
}

/// The objects and relationships that a relationship graph is built from.
pub struct MitreData {
    pub objects: Vec<MitreObject>,
    pub relationships: Vec<Relationship>,
}

/// An edge of the arena, from node `source` to node `target`.
pub struct RelationEdge {
    pub source: usize,
    pub target: usize,
    pub label: String,
}

/// Nodes addressed by index, with unique ids, and labelled directed edges
/// between them.
pub struct RelationshipGraph {
    pub nodes: Vec<MitreObject>,
    pub edges: Vec<RelationEdge>,
}

pub type ObjectView = (Seq<char>, Seq<char>, Seq<char>);

impl View for MitreObject {
    type V = ObjectView;

    open spec fn view(&self) -> ObjectView {
        (self.id@, self.name@, self.object_type@)
    }
}

pub open spec fn object_ids(objs: Seq<ObjectView>) -> Seq<Seq<char>> {
    objs.map_values(|o: ObjectView| o.0)
}

impl RelationshipGraph {
    pub open spec fn objects(&self) -> Seq<ObjectView> {
        self.nodes@.map_values(|o: MitreObject| o@)
    }

    pub open spec fn ids(&self) -> Seq<Seq<char>> {
        object_ids(self.objects())
    }

    pub open spec fn wf(&self) -> bool {
        &&& self.ids().no_duplicates()
        &&& self.nodes@.len() <= MAX_ELEMENTS
        &&& self.edges@.len() <= MAX_ELEMENTS
        &&& forall|k: int|
            0 <= k < self.edges@.len() ==> (#[trigger] self.edges@[k]).source < self.nodes@.len()
                && self.edges@[k].target < self.nodes@.len()
    }

    pub fn new() -> (g: RelationshipGraph)
        ensures
            g.wf(),
            g.nodes@.len() == 0,
            g.edges@.len() == 0,
    {
        RelationshipGraph { nodes: Vec::new(), edges: Vec::new() }
    }

    /// The index of the node whose id is `id`, if there is one.
    pub fn find(&self, id: &String) -> (r: Option<usize>)
        ensures
            r is None <==> !self.ids().contains(id@),
            r matches Some(i) ==> i < self.nodes@.len() && self.ids()[i as int] == id@,
    {
        let mut i: usize = 0;
        while i < self.nodes.len()
            invariant
                i <= self.nodes@.len(),
                forall|j: int| 0 <= j < i ==> self.ids()[j] != id@,
            decreases self.nodes@.len() - i,
        {
            if self.nodes[i].id == *id {
                assert(self.ids()[i as int] == id@);
                return Some(i);
            }
            i = i + 1;
        }
        None
    }

    /// Adds `obj` as a node unless a node already has its id. Returns the
    /// index of the node with that id.
    pub fn add_object_if_absent(&mut self, obj: MitreObject) -> (r: usize)
        requires
            old(self).wf(),
            old(self).nodes@.len() < MAX_ELEMENTS,
        ensures
            final(self).wf(),
            final(self).objects() == upsert_object(old(self).objects(), obj@),
            final(self).edges@ == old(self).edges@,
            r < final(self).nodes@.len(),
            final(self).ids()[r as int] == obj.id@,
            forall|i: int| 0 <= i < old(self).nodes@.len() ==> final(self).nodes@[i] == old(self).nodes@[i],
    {
        match self.find(&obj.id) {
            Some(i) => i,
            None => {
                let ghost before = *self;
                let ghost ov = obj@;
                self.nodes.push(obj);
                proof {
                    assert(self.objects() =~= before.objects().push(ov));
                    assert(self.ids() =~= before.ids().push(ov.0));
                }
                self.nodes.len() - 1
            },
        }
    }
}

/// The node list after adding `o` unless a node already has its id.
pub open spec fn upsert_object(objs: Seq<ObjectView>, o: ObjectView) -> Seq<ObjectView> {
    if object_ids(objs).contains(o.0) {
        objs
    } else {
        objs.push(o)
    }
}

/// Node list after upserting each object of `objs` in turn onto `start`.
pub open spec fn upsert_all(start: Seq<ObjectView>, objs: Seq<ObjectView>) -> Seq<ObjectView>
    decreases objs.len(),
{
    if objs.len() == 0 {
        start
    } else {
        upsert_object(upsert_all(start, objs.drop_last()), objs.last())
    }
}

/// The node that a relationship end brings when no object has its id: the id
/// alone, with empty name and type.
pub open spec fn bare_object(id: Seq<char>) -> ObjectView {
    (id, Seq::empty(), Seq::empty())
}

pub open spec fn relation_view(r: Relationship) -> (Seq<char>, Seq<char>, Seq<char>) {
    (r.source_ref@, r.target_ref@, r.relationship_type@)
}

/// Nodes of the graph built from `objs` and `rels`: the objects, then each
/// relationship's source and target, each added unless its id is there.
pub open spec fn built_objects(objs: Seq<ObjectView>, rels: Seq<(Seq<char>, Seq<char>, Seq<char>)>) -> Seq<ObjectView>
    decreases rels.len(),
{
    if rels.len() == 0 {
        upsert_all(Seq::empty(), objs)
    } else {
        let r = rels.last();
        upsert_object(upsert_object(built_objects(objs, rels.drop_last()), bare_object(r.0)), bare_object(r.1))
    }
}

/// Builds the relationship graph of `data`. A relationship whose end names no
/// object adds a node with that id and an empty name and type, as the mapping
/// graph does for the ids of its records.
pub fn build_graph(data: &MitreData) -> (g: RelationshipGraph)
    requires
        data.objects@.len() + 2 * data.relationships@.len() <= MAX_ELEMENTS,
    ensures
        g.wf(),
        g.objects() == built_objects(
            data.objects@.map_values(|o: MitreObject| o@),
            data.relationships@.map_values(|r: Relationship| relation_view(r)),
        ),
        g.edges@.len() == data.relationships@.len(),
        forall|k: int|
            0 <= k < g.edges@.len() ==> {
                &&& g.ids()[(#[trigger] g.edges@[k]).source as int] == data.relationships@[k].source_ref@
                &&& g.ids()[g.edges@[k].target as int] == data.relationships@[k].target_ref@
                &&& g.edges@[k].label@ == data.relationships@[k].relationship_type@
            },
{
    let ghost objs = data.objects@.map_values(|o: MitreObject| o@);
    let ghost rels = data.relationships@.map_values(|r: Relationship| relation_view(r));
    let mut g = RelationshipGraph::new();
    let mut i: usize = 0;
    while i < data.objects.len()
        invariant
            objs == data.objects@.map_values(|o: MitreObject| o@),
            data.objects@.len() + 2 * data.relationships@.len() <= MAX_ELEMENTS,
            i <= data.objects@.len(),
            g.wf(),
            g.edges@.len() == 0,
            g.objects() == upsert_all(Seq::empty(), objs.subrange(0, i as int)),
            g.nodes@.len() <= i,
        decreases data.objects@.len() - i,
    {
        let o = &data.objects[i];
        let obj = MitreObject { id: o.id.clone(), name: o.name.clone(), object_type: o.object_type.clone() };
        assert(objs.subrange(0, i + 1).drop_last() =~= objs.subrange(0, i as int));
        g.add_object_if_absent(obj);
        i = i + 1;
    }
    assert(objs.subrange(0, i as int) =~= objs);
    let mut k: usize = 0;
    while k < data.relationships.len()
        invariant
            objs == data.objects@.map_values(|o: MitreObject| o@),
            rels == data.relationships@.map_values(|r: Relationship| relation_view(r)),
            data.objects@.len() + 2 * data.relationships@.len() <= MAX_ELEMENTS,
            k <= data.relationships@.len(),
            g.wf(),
            g.objects() == built_objects(objs, rels.subrange(0, k as int)),
            g.nodes@.len() <= data.objects@.len() + 2 * k,
            g.edges@.len() == k,
            forall|j: int|
                0 <= j < k ==> {
                    &&& g.ids()[(#[trigger] g.edges@[j]).source as int] == data.relationships@[j].source_ref@
                    &&& g.ids()[g.edges@[j].target as int] == data.relationships@[j].target_ref@
                    &&& g.edges@[j].label@ == data.relationships@[j].relationship_type@
                },
        decreases data.relationships@.len() - k,
    {
        let rel = &data.relationships[k];
        proof {
            assert(rels.subrange(0, k + 1).drop_last() =~= rels.subrange(0, k as int));
            assert(g.ids() =~= object_ids(g.objects()));
        }
        let ghost g0 = g;
        let source = g.add_object_if_absent(
            MitreObject { id: rel.source_ref.clone(), name: String::new(), object_type: String::new() },
        );
        let ghost g1 = g;
        let target = g.add_object_if_absent(
            MitreObject { id: rel.target_ref.clone(), name: String::new(), object_type: String::new() },
        );
        let ghost g2 = g;
        g.edges.push(RelationEdge { source, target, label: rel.relationship_type.clone() });
        proof {
            assert(g.objects() == g2.objects());
            assert(g.ids() == g2.ids());
            assert forall|j: int| 0 <= j < k + 1 implies {
                &&& g.ids()[(#[trigger] g.edges@[j]).source as int] == data.relationships@[j].source_ref@
                &&& g.ids()[g.edges@[j].target as int] == data.relationships@[j].target_ref@
                &&& g.edges@[j].label@ == data.relationships@[j].relationship_type@
            } by {
                if j < k {
                    assert(g.edges@[j] == g0.edges@[j]);
                    assert(g0.edges@[j].source < g0.nodes@.len());
                    assert(g.nodes@[g0.edges@[j].source as int] == g0.nodes@[g0.edges@[j].source as int]);
                    assert(g.nodes@[g0.edges@[j].target as int] == g0.nodes@[g0.edges@[j].target as int]);
                } else {
                    assert(g2.nodes@[source as int] == g1.nodes@[source as int]);
                }
            }
        }
        k = k + 1;
    }
    assert(rels.subrange(0, k as int) =~= rels);
    g
}

} // verus!
