use aweb::filter::{filter_edges, filter_nodes};
use aweb::graph::{Edge, EdgeVal, Graph, NodeVal};

fn latin_graph() -> Graph {
    let mut g = Graph::new();
    g.add_node("amor", NodeVal::Empty).unwrap();
    g.add_node("amoris", NodeVal::Empty).unwrap();
    g.add_node("genitive singular", NodeVal::Empty).unwrap();
    g.sort();
    g.add_edge(Edge::new("amor", EdgeVal::Node("genitive singular".to_string()), "amoris"));
    g.add_edge(Edge::new("genitive singular", EdgeVal::Empty, "amor"));
    g
}

#[test]
fn empty_query_returns_all_nodes_in_store_order() {
    let g = latin_graph();
    let nodes = filter_nodes(&g, "");
    assert_eq!(nodes, vec!["amor", "amoris", "genitive singular"]);
}

#[test]
fn empty_query_returns_all_edges_in_insertion_order() {
    let g = latin_graph();
    let edges = filter_edges(&g, "");
    assert_eq!(edges.len(), 2);
    assert_eq!(
        edges[0],
        ("amor".to_string(), "genitive singular".to_string(), "amoris".to_string())
    );
    assert_eq!(edges[1], ("genitive singular".to_string(), "".to_string(), "amor".to_string()));
}

#[test]
fn exact_name_query_includes_that_node() {
    let g = latin_graph();
    let nodes = filter_nodes(&g, "amor");
    assert!(nodes.contains(&"amor".to_string()));
}

#[test]
fn prefix_of_name_still_matches() {
    let g = latin_graph();
    let nodes = filter_nodes(&g, "amo");
    assert!(nodes.contains(&"amor".to_string()));
    assert!(nodes.contains(&"amoris".to_string()));
}

#[test]
fn gapped_subsequence_matches() {
    let g = latin_graph();
    let nodes = filter_nodes(&g, "amr");
    assert!(nodes.contains(&"amor".to_string()));
}

#[test]
fn non_subsequence_query_matches_nothing() {
    let g = latin_graph();
    assert!(filter_nodes(&g, "xyz").is_empty());
    assert!(filter_edges(&g, "xyz").is_empty());
}

#[test]
fn lower_case_query_matches_capitalized_name() {
    let mut g = Graph::new();
    g.add_node("Amor", NodeVal::Empty).unwrap();
    g.sort();
    let nodes = filter_nodes(&g, "amor");
    assert_eq!(nodes, vec!["Amor"]);
}

#[test]
fn capitalized_query_needs_exact_case() {
    let mut g = Graph::new();
    g.add_node("amor", NodeVal::Empty).unwrap();
    g.sort();
    assert!(filter_nodes(&g, "Amor").is_empty());
}

#[test]
fn edge_matches_on_from_facet() {
    let g = latin_graph();
    let edges = filter_edges(&g, "amor");
    assert!(edges.contains(&(
        "amor".to_string(),
        "genitive singular".to_string(),
        "amoris".to_string()
    )));
}

#[test]
fn edge_matches_on_label_facet_alone() {
    let mut g = Graph::new();
    g.add_node("a", NodeVal::Empty).unwrap();
    g.add_node("b", NodeVal::Empty).unwrap();
    g.add_node("rel", NodeVal::Empty).unwrap();
    g.sort();
    g.add_edge(Edge::new("a", EdgeVal::Node("rel".to_string()), "b"));
    let edges = filter_edges(&g, "rel");
    assert_eq!(edges.len(), 1);
    assert_eq!(edges[0], ("a".to_string(), "rel".to_string(), "b".to_string()));
}

#[test]
fn unlabeled_edge_with_unmatched_endpoints_is_excluded() {
    let g = latin_graph();
    let edges = filter_edges(&g, "xyz");
    assert!(edges.is_empty());
}
