use mightygraph::analysis::{
    perform_analyses, perform_basic_stats, perform_connected_components_analysis,
    perform_edge_strength_analysis, perform_mapping_type_analysis, perform_node_type_distribution,
    perform_shortest_path_analysis, perform_tech_domain_analysis, PathError,
};
use mightygraph::builder::{add_node_if_not_exists, calculate_strength, create_graph, find_node};
use mightygraph::dates::{date_span, perform_temporal_analysis};
use mightygraph::degree::{node_degrees, perform_node_degree_analysis};
use mightygraph::impact::{lookup_frequency, prepare_combined_data};
use mightygraph::degree::DegreeRow;
use mightygraph::model::{Mapping, MappingGraph, NodeType};
use mightygraph::strength::StrengthTable;

fn record(cap: &str, att: &str, mapping_type: &str, domain: &str, date: &str) -> Mapping {
    Mapping {
        mapping_framework: "veris".to_string(),
        mapping_framework_version: "1.3.7".to_string(),
        capability_group: "group".to_string(),
        capability_id: cap.to_string(),
        capability_description: String::new(),
        mapping_type: mapping_type.to_string(),
        attack_object_id: att.to_string(),
        attack_object_name: String::new(),
        attack_version: "12.1".to_string(),
        technology_domain: domain.to_string(),
        references: String::new(),
        comments: String::new(),
        organization: String::new(),
        creation_date: date.to_string(),
        last_update: String::new(),
    }
}

fn sample_batch() -> Vec<Mapping> {
    vec![
        record("cap1", "att1", "Strong", "enterprise", "01/02/2023"),
        record("cap2", "att1", "Weak", "mobile", "15/01/2023"),
        record("cap1", "att2", "Moderate", "enterprise", "03/03/2023"),
        record("cap3", "att3", "related-to", "ics", "28/02/2022"),
    ]
}

fn ids(graph: &MappingGraph) -> Vec<String> {
    graph.nodes.iter().map(|n| n.id.clone()).collect()
}

#[test]
fn test_export_analysis_results_to_json() {
    let mappings = sample_batch();
    let table = StrengthTable::standard();
    let graph = create_graph(&mappings, &table);
    let results = perform_analyses(&graph, &mappings, &"cap1".to_string(), &"att2".to_string());
    assert_eq!(results.basic_stats.total_mappings, 4);
    assert_eq!(results.basic_stats.total_nodes, 6);
    assert_eq!(results.basic_stats.total_edges, 4);
    assert_eq!(results.connected_components_analysis, 2);
    assert!(matches!(results.shortest_path_analysis, Ok(360)));
    assert_eq!(results.node_degree_analysis.len(), 6);
    assert_eq!(results.edge_strength_analysis.len(), 4);
    assert_eq!(results.node_type_distribution.veris, 3);
    assert_eq!(results.node_type_distribution.mitre, 3);
    assert!(results.temporal_analysis.is_ok());
    assert_eq!(results.tech_domain_analysis.len(), 3);
}

#[test]
fn test_perform_various_analyses() {
    let mappings = vec![
        record("cap1", "att1", "type1", "domain1", "2023-01-01"),
        record("cap2", "att2", "type2", "domain2", "2023-02-02"),
    ];
    let table = StrengthTable::standard();
    let graph = create_graph(&mappings, &table);
    let results = perform_analyses(&graph, &mappings, &"cap1".to_string(), &"att1".to_string());
    assert_eq!(results.basic_stats.total_mappings, 2);
    assert_eq!(results.basic_stats.total_nodes, 4);
    assert_eq!(results.basic_stats.total_edges, 2);
    assert_eq!(results.connected_components_analysis, 2);
    // "type1" is no strength class, so the edge costs 1 / 0.1
    assert!(matches!(results.shortest_path_analysis, Ok(2520)));
    // these dates are not in day/month/year form: both records are reported
    match results.temporal_analysis {
        Err(e) => assert_eq!(e.records, vec![0, 1]),
        Ok(_) => panic!("dates in year-month-day form must be reported"),
    }
    assert_eq!(results.tech_domain_analysis.len(), 2);
}

#[test]
fn test_combine_and_export_to_parquet_and_csv() {
    let mappings = vec![
        record("cap1", "att1", "type1", "domain1", "2023-01-01"),
        record("cap2", "att2", "type2", "domain2", "2023-02-02"),
    ];
    let table = StrengthTable::standard();
    let graph = create_graph(&mappings, &table);
    let degrees = perform_node_degree_analysis(&graph);
    let rows = prepare_combined_data(&mappings, &degrees, &table);
    assert_eq!(rows.len(), 2);
    assert_eq!(rows[0].veris_id, "cap1");
    assert_eq!(rows[0].frequency, 1);
    assert_eq!(rows[0].strength, 1);
    assert_eq!(rows[0].impact_score, 1);
    assert_eq!(rows[1].veris_id, "cap2");
    assert_eq!(rows[1].technology_domain, "domain2");
    assert_eq!(rows[1].creation_date, "2023-02-02");
}

#[test]
fn build_counts_nodes_once_and_every_record_as_an_edge() {
    let mappings = sample_batch();
    let graph = create_graph(&mappings, &StrengthTable::standard());
    assert_eq!(graph.edge_count(), mappings.len());
    assert!(graph.node_count() <= 2 * mappings.len());
    assert_eq!(ids(&graph), vec!["cap1", "att1", "cap2", "att2", "cap3", "att3"].into_iter().map(String::from).collect::<Vec<_>>());
    assert_eq!(graph.nodes[1].node_type, NodeType::Mitre);
    assert!(graph.nodes.iter().all(|n| n.metadata.is_empty()));
    let e = &graph.edges[2];
    assert_eq!((e.source, e.target, e.data.strength), (0, 3, 7));
}

#[test]
fn parallel_edges_are_kept() {
    let mappings = vec![
        record("cap1", "att1", "Strong", "d", "01/01/2020"),
        record("cap1", "att1", "Strong", "d", "01/01/2020"),
    ];
    let graph = create_graph(&mappings, &StrengthTable::standard());
    assert_eq!(graph.node_count(), 2);
    assert_eq!(graph.edge_count(), 2);
    assert_eq!(node_degrees(&graph), vec![2, 2]);
}

#[test]
fn upsert_returns_existing_index() {
    let mut graph = MappingGraph { nodes: Vec::new(), edges: Vec::new() };
    let a = add_node_if_not_exists(&mut graph, &"x".to_string(), NodeType::Veris);
    let b = add_node_if_not_exists(&mut graph, &"y".to_string(), NodeType::Mitre);
    let c = add_node_if_not_exists(&mut graph, &"x".to_string(), NodeType::Mitre);
    assert_eq!((a, b, c), (0, 1, 0));
    assert_eq!(graph.node_count(), 2);
    assert_eq!(graph.nodes[0].node_type, NodeType::Veris);
    assert_eq!(find_node(&graph, &"y".to_string()), Some(1));
    assert_eq!(find_node(&graph, &"z".to_string()), None);
}

#[test]
fn strength_table_classes() {
    let table = StrengthTable::standard();
    let s = |t: &str| calculate_strength(&record("c", "a", t, "d", "01/01/2020"), &table);
    assert_eq!(s("Strong"), 10);
    assert_eq!(s("Moderate"), 7);
    assert_eq!(s("Weak"), 4);
    assert_eq!(s("strong"), 1);
    assert_eq!(s(""), 1);
}

#[test]
fn strength_table_is_configurable() {
    let table = StrengthTable { levels: vec![("primary".to_string(), 9), ("Strong".to_string(), 2)], fallback: 3 };
    assert_eq!(table.strength_of(&"primary".to_string()), 9);
    assert_eq!(table.strength_of(&"Strong".to_string()), 2);
    assert_eq!(table.strength_of(&"Weak".to_string()), 3);
}

#[test]
fn degree_sum_is_twice_the_edge_count() {
    let mappings = sample_batch();
    let graph = create_graph(&mappings, &StrengthTable::standard());
    let degrees = node_degrees(&graph);
    assert_eq!(degrees, vec![2, 2, 1, 1, 1, 1]);
    let ranked: u64 = perform_node_degree_analysis(&graph).iter().map(|r| r.degree).sum();
    assert_eq!(ranked, 2 * graph.edge_count() as u64);
    assert_eq!(degrees.iter().sum::<u64>(), 2 * graph.edge_count() as u64);
}

#[test]
fn degree_ranking_breaks_ties_by_ascending_id() {
    let mappings = sample_batch();
    let graph = create_graph(&mappings, &StrengthTable::standard());
    let ranking = perform_node_degree_analysis(&graph);
    let got: Vec<(String, u64)> = ranking.iter().map(|r| (r.id.clone(), r.degree)).collect();
    let want: Vec<(String, u64)> = vec![("att1", 2), ("cap1", 2), ("att2", 1), ("att3", 1), ("cap2", 1), ("cap3", 1)]
        .into_iter()
        .map(|(i, d)| (i.to_string(), d))
        .collect();
    assert_eq!(got, want);
}

#[test]
fn rebuilding_gives_the_same_ranking() {
    let mappings = sample_batch();
    let table = StrengthTable::standard();
    let g1 = create_graph(&mappings, &table);
    let g2 = create_graph(&mappings, &table);
    assert_eq!(g1.node_count(), g2.node_count());
    assert_eq!(g1.edge_count(), g2.edge_count());
    let r1: Vec<(String, u64)> = perform_node_degree_analysis(&g1).iter().map(|r| (r.id.clone(), r.degree)).collect();
    let r2: Vec<(String, u64)> = perform_node_degree_analysis(&g2).iter().map(|r| (r.id.clone(), r.degree)).collect();
    assert_eq!(r1, r2);
}

#[test]
fn connected_components_counts() {
    let table = StrengthTable::standard();
    let empty = create_graph(&Vec::new(), &table);
    assert_eq!(perform_connected_components_analysis(&empty), 0);
    let graph = create_graph(&sample_batch(), &table);
    assert_eq!(perform_connected_components_analysis(&graph), 2);
    let chain = create_graph(
        &vec![record("a", "b", "Strong", "d", "01/01/2020"), record("c", "b", "Strong", "d", "01/01/2020")],
        &table,
    );
    assert_eq!(perform_connected_components_analysis(&chain), 1);
}

#[test]
fn shortest_path_costs_and_errors() {
    let table = StrengthTable::standard();
    let graph = create_graph(&sample_batch(), &table);
    let s = |a: &str, b: &str| perform_shortest_path_analysis(&graph, &a.to_string(), &b.to_string());
    assert!(matches!(s("cap1", "att1"), Ok(252)));
    assert!(matches!(s("cap2", "att1"), Ok(630)));
    assert!(matches!(s("cap1", "cap1"), Ok(0)));
    assert!(matches!(s("cap1", "nowhere"), Err(PathError::UnknownEndpoint)));
    match s("cap1", "att3") {
        Err(PathError::NoPath { reached }) => {
            assert_eq!(reached.len(), 6);
            assert_eq!(reached[0], Some(0));
            assert_eq!(reached[5], None);
        },
        _ => panic!("att3 cannot be reached from cap1"),
    }
    let single = create_graph(&vec![record("a", "a", "Strong", "d", "01/01/2020")], &table);
    assert!(matches!(
        perform_shortest_path_analysis(&single, &"a".to_string(), &"a".to_string()),
        Err(PathError::InsufficientNodes)
    ));
}

#[test]
fn shortest_path_takes_the_strongest_parallel_edge() {
    let mappings = vec![
        record("cap1", "att1", "Weak", "d", "01/01/2020"),
        record("cap1", "att1", "Strong", "d", "01/01/2020"),
        record("cap1", "att1", "Moderate", "d", "01/01/2020"),
    ];
    let graph = create_graph(&mappings, &StrengthTable::standard());
    assert!(matches!(perform_shortest_path_analysis(&graph, &"cap1".to_string(), &"att1".to_string()), Ok(252)));
    match perform_shortest_path_analysis(&graph, &"att1".to_string(), &"cap1".to_string()) {
        Err(PathError::NoPath { reached }) => assert_eq!(reached, vec![None, Some(0)]),
        _ => panic!("edges lead from the primary side only"),
    }
}

#[test]
fn edge_strength_ranking_is_stable() {
    let mappings = vec![
        record("c1", "a1", "Weak", "d", "01/01/2020"),
        record("c2", "a2", "Strong", "d", "01/01/2020"),
        record("c3", "a3", "other", "d", "01/01/2020"),
        record("c4", "a4", "Strong", "d", "01/01/2020"),
    ];
    let graph = create_graph(&mappings, &StrengthTable::standard());
    let rows = perform_edge_strength_analysis(&graph);
    let got: Vec<u64> = rows.iter().map(|r| r.strength).collect();
    assert_eq!(got, vec![10, 10, 4, 1]);
    assert_eq!(rows[0].mapping_type, "Strong");
    assert_eq!(rows[3].mapping_type, "other");
}

#[test]
fn distributions_by_type_kind_and_domain() {
    let mappings = sample_batch();
    let graph = create_graph(&mappings, &StrengthTable::standard());
    let types = perform_mapping_type_analysis(&graph);
    let t: Vec<(String, u64)> = types.iter().map(|c| (c.label.clone(), c.count)).collect();
    assert_eq!(t.len(), 4);
    assert!(t.iter().all(|(_, c)| *c == 1));
    let domains = perform_tech_domain_analysis(&mappings);
    let d: Vec<(String, u64)> = domains.iter().map(|c| (c.label.clone(), c.count)).collect();
    assert_eq!(d, vec![("enterprise".to_string(), 2), ("mobile".to_string(), 1), ("ics".to_string(), 1)]);
    let kinds = perform_node_type_distribution(&graph);
    assert_eq!((kinds.veris, kinds.mitre), (3, 3));
}

#[test]
fn temporal_range_reads_day_month_year() {
    let mappings = sample_batch();
    match perform_temporal_analysis(&mappings) {
        Ok(Some(range)) => {
            assert_eq!((range.min_date.year, range.min_date.month, range.min_date.day), (2022, 2, 28));
            assert_eq!((range.max_date.year, range.max_date.month, range.max_date.day), (2023, 3, 3));
        },
        _ => panic!("all dates are readable"),
    }
    let mut bad = sample_batch();
    bad[2].creation_date = "2023-03-03".to_string();
    bad[3].creation_date = "31/02/2023".to_string();
    match perform_temporal_analysis(&bad) {
        Err(e) => assert_eq!(e.records, vec![2, 3]),
        Ok(_) => panic!("unreadable dates must be reported"),
    }
}

#[test]
fn date_span_of_given_dates() {
    assert!(matches!(date_span(&vec![]), Ok(None)));
    let r = date_span(&vec![Some((2020, 5, 1)), Some((2019, 12, 31)), Some((2020, 5, 2))]);
    match r {
        Ok(Some(range)) => {
            assert_eq!((range.min_date.year, range.min_date.month, range.min_date.day), (2019, 12, 31));
            assert_eq!((range.max_date.year, range.max_date.month, range.max_date.day), (2020, 5, 2));
        },
        _ => panic!("a span was expected"),
    }
    match date_span(&vec![Some((2020, 5, 1)), None]) {
        Err(e) => assert_eq!(e.records, vec![1]),
        Ok(_) => panic!("an error was expected"),
    }
}

#[test]
fn impact_score_is_frequency_times_strength() {
    let ranking = vec![DegreeRow { id: "att1".to_string(), degree: 4 }];
    let mappings = vec![record("cap1", "att1", "Moderate", "d", "01/01/2020")];
    let rows = prepare_combined_data(&mappings, &ranking, &StrengthTable::standard());
    assert_eq!(rows.len(), 1);
    assert_eq!(rows[0].strength, 7);
    assert_eq!(rows[0].frequency, 4);
    // 4 * 0.7 / 10 = 0.28, in hundredths
    assert_eq!(rows[0].impact_score, 28);
}

#[test]
fn combined_rows_sorted_by_impact_ties_in_record_order() {
    let mappings = sample_batch();
    let table = StrengthTable::standard();
    let graph = create_graph(&mappings, &table);
    let ranking = perform_node_degree_analysis(&graph);
    let rows = prepare_combined_data(&mappings, &ranking, &table);
    let got: Vec<(String, u128)> = rows.iter().map(|r| (r.veris_id.clone(), r.impact_score)).collect();
    let want: Vec<(String, u128)> =
        vec![("cap1", 20), ("cap2", 8), ("cap1", 7), ("cap3", 1)].into_iter().map(|(a, b)| (a.to_string(), b)).collect();
    assert_eq!(got, want);
    assert_eq!(lookup_frequency(&ranking, &"att9".to_string()), 0);
}

#[test]
fn empty_batch_gives_neutral_results() {
    let mappings: Vec<Mapping> = Vec::new();
    let table = StrengthTable::standard();
    let graph = create_graph(&mappings, &table);
    assert_eq!(graph.node_count(), 0);
    assert_eq!(graph.edge_count(), 0);
    let stats = perform_basic_stats(&graph, &mappings);
    assert_eq!((stats.total_mappings, stats.total_nodes, stats.total_edges), (0, 0, 0));
    let results = perform_analyses(&graph, &mappings, &"a".to_string(), &"b".to_string());
    assert!(results.mapping_type_analysis.is_empty());
    assert!(results.node_degree_analysis.is_empty());
    assert_eq!(results.connected_components_analysis, 0);
    assert!(matches!(results.shortest_path_analysis, Err(PathError::InsufficientNodes)));
    assert!(results.edge_strength_analysis.is_empty());
    assert_eq!((results.node_type_distribution.veris, results.node_type_distribution.mitre), (0, 0));
    assert!(matches!(results.temporal_analysis, Ok(None)));
    assert!(results.tech_domain_analysis.is_empty());
    assert!(prepare_combined_data(&mappings, &results.node_degree_analysis, &table).is_empty());
}
