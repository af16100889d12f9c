use mql::graph::Graph;
use std::collections::HashMap;

fn graph_of(nodes: usize, edges: &[(usize, usize)]) -> Graph {
    let mut graph = Graph::new();
    for _ in 0..nodes {
        graph.add_node(vec![], HashMap::new());
    }
    for (from, to) in edges {
        assert_eq!(graph.add_edge(*from, *to, "to".to_string()), Ok(()));
    }
    graph
}

#[test]
fn a_new_graph_has_no_nodes() {
    let graph = Graph::new();
    assert!(graph.get_node(0).is_none());
    assert_eq!(graph.get_neighbors(0), None);
    assert_eq!(graph.dfs(0, 1), None);
}

#[test]
fn nodes_are_numbered_from_zero() {
    let mut graph = Graph::new();
    let mut properties = HashMap::new();
    properties.insert("name".to_string(), "J.K. Rowling".to_string());
    assert_eq!(graph.add_node(vec!["author".to_string()], properties.clone()), 0);
    assert_eq!(graph.add_node(vec!["book".to_string()], HashMap::new()), 1);
    assert_eq!(graph.add_node(vec![], HashMap::new()), 2);
    let author = graph.get_node(0).unwrap();
    assert_eq!(author.id, 0);
    assert_eq!(author.labels, vec!["author".to_string()]);
    assert_eq!(author.properties, properties);
    let book = graph.get_node(1).unwrap();
    assert_eq!(book.id, 1);
    assert_eq!(book.labels, vec!["book".to_string()]);
    assert!(book.properties.is_empty());
    assert!(graph.get_node(3).is_none());
}

#[test]
fn an_edge_needs_both_its_nodes() {
    let mut graph = graph_of(2, &[]);
    assert_eq!(graph.add_edge(0, 2, "x".to_string()), Err(()));
    assert_eq!(graph.add_edge(2, 0, "x".to_string()), Err(()));
    assert_eq!(graph.add_edge(5, 6, "x".to_string()), Err(()));
    assert_eq!(graph.get_neighbors(0), None);
    assert_eq!(graph.get_neighbors(2), None);
    assert_eq!(graph.add_edge(0, 1, "x".to_string()), Ok(()));
    assert_eq!(graph.add_edge(1, 1, "x".to_string()), Ok(()));
    assert_eq!(graph.get_neighbors(0), Some(vec![1]));
    assert_eq!(graph.get_neighbors(1), Some(vec![1]));
}

#[test]
fn neighbors_come_in_the_order_of_the_edges() {
    let graph = graph_of(4, &[(0, 3), (0, 1), (0, 2), (0, 1), (2, 0)]);
    assert_eq!(graph.get_neighbors(0), Some(vec![3, 1, 2, 1]));
    assert_eq!(graph.get_neighbors(2), Some(vec![0]));
    assert_eq!(graph.get_neighbors(1), None);
    assert_eq!(graph.get_neighbors(9), None);
}

#[test]
fn a_node_reaches_itself() {
    let graph = graph_of(2, &[(0, 1)]);
    assert_eq!(graph.dfs(0, 0), Some(vec![0]));
    assert_eq!(graph.dfs(1, 1), Some(vec![1]));
    assert_eq!(graph.dfs(7, 7), Some(vec![7]));
}

#[test]
fn a_path_follows_the_edges() {
    let graph = graph_of(4, &[(0, 1), (1, 2), (2, 3)]);
    assert_eq!(graph.dfs(0, 3), Some(vec![0, 1, 2, 3]));
    assert_eq!(graph.dfs(1, 3), Some(vec![1, 2, 3]));
    assert_eq!(graph.dfs(0, 1), Some(vec![0, 1]));
}

#[test]
fn edges_lead_one_way() {
    let graph = graph_of(3, &[(0, 1), (1, 2)]);
    assert_eq!(graph.dfs(2, 0), None);
    assert_eq!(graph.dfs(1, 0), None);
    assert_eq!(graph.dfs(0, 9), None);
    assert_eq!(graph.dfs(9, 0), None);
}

#[test]
fn the_first_path_found_need_not_be_the_shortest() {
    let graph = graph_of(4, &[(0, 1), (0, 3), (1, 2), (2, 3)]);
    assert_eq!(graph.dfs(0, 3), Some(vec![0, 1, 2, 3]));
    let other = graph_of(4, &[(0, 3), (0, 1), (1, 2), (2, 3)]);
    assert_eq!(other.dfs(0, 3), Some(vec![0, 3]));
}

#[test]
fn dead_ends_are_left_again() {
    let graph = graph_of(5, &[(0, 1), (1, 2), (0, 3), (3, 4)]);
    assert_eq!(graph.dfs(0, 4), Some(vec![0, 3, 4]));
}

#[test]
fn cycles_do_not_trap_the_search() {
    let graph = graph_of(4, &[(0, 1), (1, 0), (1, 2), (2, 1), (2, 3)]);
    assert_eq!(graph.dfs(0, 3), Some(vec![0, 1, 2, 3]));
    assert_eq!(graph.dfs(3, 0), None);
    let ring = graph_of(3, &[(0, 1), (1, 2), (2, 0)]);
    assert_eq!(ring.dfs(1, 0), Some(vec![1, 2, 0]));
    let closed = graph_of(4, &[(0, 1), (1, 0), (0, 0)]);
    assert_eq!(closed.dfs(0, 3), None);
}

#[test]
fn a_node_visited_in_vain_is_not_tried_again() {
    let graph = graph_of(5, &[(0, 1), (1, 2), (0, 2), (2, 3), (0, 4)]);
    assert_eq!(graph.dfs(0, 4), Some(vec![0, 4]));
}

#[test]
fn paths_hold_no_node_twice() {
    let graph = graph_of(6, &[(0, 1), (1, 2), (2, 0), (2, 3), (3, 1), (3, 4), (4, 5)]);
    let path = graph.dfs(0, 5).unwrap();
    assert_eq!(path, vec![0, 1, 2, 3, 4, 5]);
    for (i, node) in path.iter().enumerate() {
        assert!(!path[..i].contains(node));
    }
    for pair in path.windows(2) {
        assert!(graph.get_neighbors(pair[0]).unwrap().contains(&pair[1]));
    }
}
