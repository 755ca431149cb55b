use aweb::graph::{Edge, EdgeVal, Graph, GraphError, Node, NodeVal};

#[test]
fn node_new_keeps_fields() {
    let n = Node::new("amor", NodeVal::Empty);
    assert_eq!(n.name, "amor");
    assert!(matches!(n.val, NodeVal::Empty));
}

#[test]
fn edge_new_keeps_fields() {
    let e = Edge::new("amor", EdgeVal::Node("genitive singular".to_string()), "amoris");
    assert_eq!(e.from, "amor");
    assert_eq!(e.to, "amoris");
    match &e.val {
        EdgeVal::Node(s) => assert_eq!(s, "genitive singular"),
        EdgeVal::Empty => panic!("label lost"),
    }
}

#[test]
fn sort_orders_names_ascending() {
    let mut g = Graph::new();
    g.add_node("banana", NodeVal::Empty).unwrap();
    g.add_node("apple", NodeVal::Empty).unwrap();
    g.add_node("cherry", NodeVal::Empty).unwrap();
    g.add_node("Apple", NodeVal::Empty).unwrap();
    g.sort();
    let names: Vec<&str> = g.nodes.iter().map(|n| n.name.as_str()).collect();
    assert_eq!(names, vec!["Apple", "apple", "banana", "cherry"]);
}

#[test]
fn add_node_overwrite_keeps_one_entry() {
    let mut g = Graph::new();
    g.add_node("foo", NodeVal::Empty).unwrap();
    g.add_node("foo", NodeVal::Empty).unwrap();
    g.sort();
    assert_eq!(g.nodes.len(), 1);
    assert_eq!(g.nodes[0].name, "foo");
    assert!(matches!(g.nodes[0].val, NodeVal::Empty));
}

#[test]
fn add_node_rejects_empty_name() {
    let mut g = Graph::new();
    assert_eq!(g.add_node("", NodeVal::Empty), Err(GraphError::InvalidArgument));
    assert_eq!(g.nodes.len(), 0);
}

#[test]
fn add_edge_keeps_insertion_order_and_duplicates() {
    let mut g = Graph::new();
    g.add_node("a", NodeVal::Empty).unwrap();
    g.add_node("b", NodeVal::Empty).unwrap();
    g.add_edge(Edge::new("a", EdgeVal::Empty, "b"));
    g.add_edge(Edge::new("b", EdgeVal::Empty, "a"));
    g.add_edge(Edge::new("a", EdgeVal::Empty, "b"));
    assert_eq!(g.edges.len(), 3);
    assert_eq!(g.edges[0].from, "a");
    assert_eq!(g.edges[1].from, "b");
    assert_eq!(g.edges[2].from, "a");
}

#[test]
fn resolve_finds_existing_node() {
    let mut g = Graph::new();
    g.add_node("amor", NodeVal::Empty).unwrap();
    let n = g.resolve("amor").unwrap();
    assert_eq!(n.name, "amor");
}

#[test]
fn resolve_absent_is_not_found() {
    let g = Graph::new();
    assert!(matches!(g.resolve("missing"), Err(GraphError::NotFound)));
}
