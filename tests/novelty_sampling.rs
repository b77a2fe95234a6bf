use mightygraph::novelty::{calculate_novelty_score, novelty_scores, SCORE_ONE};
use mightygraph::sampler::{novel_candidates, subsample_novel_techniques};
use mightygraph::subgraph::{extract_subgraph, reach_marks};
use mightygraph::taxonomy::{build_graph, MitreData, MitreObject, Relationship, RelationshipGraph};

fn object(id: &str) -> MitreObject {
    MitreObject { id: id.to_string(), name: format!("name of {}", id), object_type: "attack-pattern".to_string() }
}

fn rel(s: &str, t: &str, label: &str) -> Relationship {
    Relationship { source_ref: s.to_string(), target_ref: t.to_string(), relationship_type: label.to_string() }
}

fn graph_of(objects: &[&str], rels: Vec<Relationship>) -> RelationshipGraph {
    let data = MitreData { objects: objects.iter().map(|o| object(o)).collect(), relationships: rels };
    build_graph(&data)
}

fn ids(g: &RelationshipGraph) -> Vec<String> {
    let mut v: Vec<String> = g.nodes.iter().map(|n| n.id.clone()).collect();
    v.sort();
    v
}

fn triples(g: &RelationshipGraph) -> Vec<(String, String, String)> {
    let mut v: Vec<(String, String, String)> = g
        .edges
        .iter()
        .map(|e| (g.nodes[e.source].id.clone(), g.nodes[e.target].id.clone(), e.label.clone()))
        .collect();
    v.sort();
    v
}

#[test]
fn build_graph_creates_missing_endpoints() {
    let g = graph_of(&["a", "b", "a"], vec![rel("a", "b", "uses"), rel("b", "z", "uses")]);
    assert_eq!(g.nodes.len(), 3);
    assert_eq!(g.nodes[0].name, "name of a");
    assert_eq!(g.nodes[2].id, "z");
    assert_eq!(g.nodes[2].name, "");
    assert_eq!(g.edges.len(), 2);
    assert_eq!((g.edges[1].source, g.edges[1].target), (1, 2));
}

#[test]
fn novelty_of_isolated_node() {
    let g = graph_of(&["solo"], vec![]);
    // no outgoing edge: 0; its component is the whole graph: 0; reaches nothing: 1
    assert_eq!(calculate_novelty_score(&g, 0), 333_333);
}

#[test]
fn novelty_of_a_two_node_chain() {
    let g = graph_of(&["a", "b"], vec![rel("a", "b", "uses")]);
    // a: 1, 1 - 1/2, 1 / (1 + 1): b is the one other node it reaches, at one hop
    assert_eq!(calculate_novelty_score(&g, 0), (1_000_000 + 500_000 + 500_000) / 3);
    // b: 0, 1 - 1/2, 1
    assert_eq!(calculate_novelty_score(&g, 1), 500_000);
}

#[test]
fn novelty_counts_distinct_labels() {
    let g = graph_of(&["a", "b", "c"], vec![rel("a", "b", "uses"), rel("a", "c", "uses"), rel("b", "a", "mitigates")]);
    // a: 1 distinct label over 2 edges; a and b form one component of 2 out of 3;
    // a reaches b and c at one hop each: 1 / (1 + 1)
    assert_eq!(calculate_novelty_score(&g, 0), (500_000 + 333_333 + 500_000) / 3);
}

#[test]
fn novelty_of_a_node_that_reaches_nothing() {
    // c reaches no node; its component is itself, one of four nodes
    let g = graph_of(&["a", "b", "c", "d"], vec![rel("a", "b", "uses"), rel("b", "c", "uses")]);
    assert_eq!(calculate_novelty_score(&g, 2), (0 + 750_000 + 1_000_000) / 3);
    // b reaches c at one hop; a reaches b and c at one and two hops
    assert_eq!(calculate_novelty_score(&g, 1), (1_000_000 + 750_000 + 500_000) / 3);
    assert_eq!(calculate_novelty_score(&g, 0), (1_000_000 + 750_000 + 400_000) / 3);
}

#[test]
fn novelty_scores_stay_in_unit_range() {
    let g = graph_of(
        &["a", "b", "c", "d", "e"],
        vec![rel("a", "b", "x"), rel("b", "c", "y"), rel("c", "a", "x"), rel("c", "d", "z"), rel("d", "d", "x")],
    );
    let scores = novelty_scores(&g);
    assert_eq!(scores.len(), 5);
    for (v, s) in scores.iter().enumerate() {
        assert!(*s <= SCORE_ONE);
        assert_eq!(*s, calculate_novelty_score(&g, v));
    }
}

#[test]
fn candidates_above_threshold() {
    assert_eq!(novel_candidates(&vec![10, 700_001, 700_000, 900_000], 700_000), vec![1, 3]);
    assert!(novel_candidates(&vec![], 0).is_empty());
}

#[test]
fn sample_is_bounded_distinct_and_seeded() {
    let g = graph_of(&["a", "b", "c", "d"], vec![rel("a", "b", "uses")]);
    let all = subsample_novel_techniques(&g, 0, 10, 7);
    let mut sorted = all.clone();
    sorted.sort();
    assert_eq!(sorted, vec![0, 1, 2, 3]);
    let some = subsample_novel_techniques(&g, 0, 2, 42);
    assert_eq!(some.len(), 2);
    assert_ne!(some[0], some[1]);
    assert_eq!(some, subsample_novel_techniques(&g, 0, 2, 42));
    // a scores 750000, the other three 583333
    assert_eq!(subsample_novel_techniques(&g, 600_000, 3, 1), vec![0]);
    assert!(subsample_novel_techniques(&g, 1_000_000, 3, 1).is_empty());
}

#[test]
fn reach_marks_by_depth() {
    let g = graph_of(&["a", "b", "c"], vec![rel("a", "b", "x"), rel("b", "c", "x")]);
    assert_eq!(reach_marks(&g, 0, 0), vec![true, false, false]);
    assert_eq!(reach_marks(&g, 0, 1), vec![true, true, false]);
    assert_eq!(reach_marks(&g, 0, 5), vec![true, true, true]);
    assert_eq!(reach_marks(&g, 2, 5), vec![false, false, true]);
}

#[test]
fn depth_zero_keeps_only_the_seed() {
    let g = graph_of(&["a", "b", "c"], vec![rel("a", "b", "x"), rel("b", "c", "x")]);
    let sub = extract_subgraph(&g, &vec![1], 0);
    assert_eq!(ids(&sub), vec!["b".to_string()]);
    assert!(sub.edges.is_empty());
}

#[test]
fn overlapping_seeds_share_nodes_and_edges() {
    // s1 -> m -> shared and s2 -> m -> shared: both depth-2 neighbourhoods hold m and shared
    let g = graph_of(
        &["s1", "s2", "m", "shared", "far"],
        vec![rel("s1", "m", "uses"), rel("s2", "m", "uses"), rel("m", "shared", "uses"), rel("shared", "far", "uses")],
    );
    let sub = extract_subgraph(&g, &vec![0, 1], 2);
    assert_eq!(ids(&sub), vec!["m", "s1", "s2", "shared"].into_iter().map(String::from).collect::<Vec<_>>());
    let t = triples(&sub);
    let want: Vec<(String, String, String)> = vec![("m", "shared", "uses"), ("s1", "m", "uses"), ("s2", "m", "uses")]
        .into_iter()
        .map(|(a, b, c)| (a.to_string(), b.to_string(), c.to_string()))
        .collect();
    assert_eq!(t, want);
}

#[test]
fn parallel_edges_with_one_label_are_merged() {
    let g = graph_of(&["a", "b"], vec![rel("a", "b", "uses"), rel("a", "b", "uses"), rel("a", "b", "targets")]);
    let sub = extract_subgraph(&g, &vec![0, 0], 1);
    assert_eq!(sub.nodes.len(), 2);
    assert_eq!(sub.edges.len(), 2);
}
