use lost_oppai::dialogue_flow::{
    check_dialogue_flow, construct_graph, count_whitespaces, index_from_whitespaces,
};
use lost_oppai::graph_output::{
    dot_content_valid, leaf_node_count, metadata_header, relabel_dot_content,
};
use petgraph::dot::Dot;
use petgraph::graph::NodeIndex;

const FLOW: &str = "title: Start
---
Hello
-> Option A
    You: A
    -> Deeper
        <<jump Other>>
-> Option B
    <<trigger_ending Jotem>>
===
title: Other
---
<<jump Start>>
===
";

#[test]
fn graph_of_a_small_dialogue() {
    let graph = construct_graph(FLOW.to_string());
    let labels: Vec<String> = (0..graph.node_count())
        .map(|i| graph.node_weight(NodeIndex::new(i)).unwrap().clone())
        .collect();
    assert_eq!(
        labels,
        vec![
            "title: Start|BREAK|style=bold|BREAK|shape=diamond",
            "title: Other|BREAK|style=bold|BREAK|shape=diamond",
            "-> Option A",
            "-> Deeper",
            "-> Option B",
            "Fin|BREAK|color=red",
        ]
    );
    let edges: Vec<(usize, usize, usize)> = graph
        .raw_edges()
        .iter()
        .map(|e| (e.source().index(), e.target().index(), e.weight))
        .collect();
    assert_eq!(edges, vec![(0, 2, 0), (2, 3, 1), (3, 1, 2), (0, 4, 0), (4, 5, 1), (1, 0, 0)]);
    assert_eq!(leaf_node_count(&graph), 1);
}

#[test]
fn repeated_jumps_update_one_edge() {
    let text = "title: A\n<<jump A>>\n    <<jump A>>\n";
    let graph = construct_graph(text.to_string());
    assert_eq!(graph.edge_count(), 1);
    assert_eq!(graph.raw_edges()[0].weight, 1);
    assert_eq!(leaf_node_count(&graph), 0);
}

#[test]
fn indentation_levels() {
    let line: Vec<char> = "        -> x".chars().collect();
    assert_eq!(count_whitespaces(&line), 8);
    assert_eq!(index_from_whitespaces(&line), 2);
    let none: Vec<char> = "x   ".chars().collect();
    assert_eq!(count_whitespaces(&none), 0);
}

#[test]
fn dot_labels_become_attributes() {
    let dot = "digraph {\n    0 [ label = \"title: Start|BREAK|style=bold|BREAK|shape=diamond\" ]\n    1 [ label = \"x\" ]\n}";
    let out = relabel_dot_content(dot);
    assert_eq!(
        out,
        "digraph {\n    0 [ label = \"title: Start\" ] [ style=bold ] [ shape=diamond ]\n    1 [ label = \"x\" ]\n}\n"
    );
}

#[test]
fn metadata_header_counts_leaves() {
    assert_eq!(
        metadata_header(1),
        "/*\n--- START METADATA ---\nLeaf Nodes: 1\n--- END   METADATA ---\n*/\n\n"
    );
    assert!(metadata_header(1024).contains("Leaf Nodes: 1024\n"));
}

#[test]
fn which_dialogues_can_be_drawn() {
    assert!(check_dialogue_flow(FLOW));
    assert!(!check_dialogue_flow("title: A\n  x\n"));
    assert!(!check_dialogue_flow("title: A\ntitle: A\n"));
    assert!(!check_dialogue_flow("title: A\n<<jump B>>\n"));
    assert!(!check_dialogue_flow("title: A\n<<jump A\n"));
    assert!(!check_dialogue_flow("title: A\n    <<trigger_ending X>>\n"));
    assert!(!check_dialogue_flow(" title: A\n"));
    assert!(check_dialogue_flow("title: A\n<<trigger_ending X>>\n"));
}

#[test]
fn dot_text_checks() {
    assert!(dot_content_valid("a\n0 [ label = \"x|BREAK|color=red\" ]\n"));
    assert!(!dot_content_valid("0 [ label = x|BREAK|color=red ]"));
    assert!(!dot_content_valid("|BREAK| \"x\" "));
}

#[test]
fn graph_construction() {
    let graph = construct_graph(FLOW.to_string());
    let dot = Dot::new(&graph).to_string();
    let expected = "digraph {
    0 [ label = \"title: Start|BREAK|style=bold|BREAK|shape=diamond\" ]
    1 [ label = \"title: Other|BREAK|style=bold|BREAK|shape=diamond\" ]
    2 [ label = \"-> Option A\" ]
    3 [ label = \"-> Deeper\" ]
    4 [ label = \"-> Option B\" ]
    5 [ label = \"Fin|BREAK|color=red\" ]
    0 -> 2 [ label = \"0\" ]
    2 -> 3 [ label = \"1\" ]
    3 -> 1 [ label = \"2\" ]
    0 -> 4 [ label = \"0\" ]
    4 -> 5 [ label = \"1\" ]
    1 -> 0 [ label = \"0\" ]
}
";
    assert_eq!(dot, expected);
    assert!(dot_content_valid(&dot));
    let relabeled = relabel_dot_content(&dot);
    assert!(relabeled.starts_with("digraph {\n    0 [ label = \"title: Start\" ] [ style=bold ] [ shape=diamond ]\n"));
    assert!(relabeled.contains("    5 [ label = \"Fin\" ] [ color=red ]\n"));
    assert!(relabeled.ends_with("    1 -> 0 [ label = \"0\" ]\n}\n\n"));
}

#[test]
fn validate_no_hanging_nodes() {
    let graph = construct_graph(FLOW.to_string());
    for index in graph.node_indices().skip(1) {
        assert!(
            graph.edges_directed(index, petgraph::Direction::Incoming).count() != 0,
            "node '{}' has no incoming edge",
            graph.node_weight(index).expect("Node should exist")
        );
    }
}
