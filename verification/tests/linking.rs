use houndlens::edge::{CallEdge, UsirEdge};
use houndlens::graph::SemanticGraph;
use houndlens::ir::{ContentHash, NodeId, QualifiedName, SourceSpan, Visibility};
use houndlens::linker::link;
use houndlens::node::{FunctionNode, UsirNode};

fn span(file: &str) -> SourceSpan {
    SourceSpan { file: file.to_string(), start_byte: 0, end_byte: 0, start_line: 1, start_col: 0, end_line: 1, end_col: 0 }
}

fn function(id: u64, name: &str, file: &str, vis: Visibility, complexity: Option<u32>) -> UsirNode {
    UsirNode::Function(FunctionNode {
        id: NodeId(id),
        name: QualifiedName { segments: vec![name.to_string()] },
        params: Vec::new(),
        return_type: None,
        visibility: vis,
        is_async: false,
        is_unsafe: false,
        span: span(file),
        complexity,
    })
}

fn call(from: u64, to: u64) -> UsirEdge {
    UsirEdge::Calls(CallEdge {
        caller: NodeId(from),
        callee: NodeId(to),
        call_site: span("a.rs"),
        condition: None,
        is_dynamic: false,
    })
}

fn callee_of(g: &SemanticGraph, caller: u64) -> Vec<u64> {
    let r = g.impact_forward(NodeId(caller), 1);
    r.direct.iter().map(|n| n.node_id.0).collect()
}

#[test]
fn every_edge_of_a_placeholder_is_counted_and_moved() {
    let mut g = SemanticGraph::new();
    g.add_node(function(1, "c1", "a.rs", Visibility::Public, Some(1)));
    g.add_node(function(2, "c2", "a.rs", Visibility::Public, Some(1)));
    g.add_node(function(3, "foo", "a.rs", Visibility::Private, None));
    g.add_node(function(4, "foo", "b.rs", Visibility::Public, Some(1)));
    g.add_edge(call(1, 3));
    g.add_edge(call(2, 3));
    let r = link(&mut g);
    assert_eq!(r.resolved, 1);
    assert_eq!(r.unresolved, 0);
    assert_eq!(r.edges_retargeted, 2);
    assert_eq!(r.duplicates_merged, 0);
    assert!(g.get_node(NodeId(3)).is_none());
    assert_eq!(g.edge_count(), 2);
    assert_eq!(callee_of(&g, 1), vec![4]);
    assert_eq!(callee_of(&g, 2), vec![4]);
}

#[test]
fn placeholders_of_one_name_are_merged() {
    let mut g = SemanticGraph::new();
    g.add_node(function(1, "main", "a.rs", Visibility::Public, Some(1)));
    g.add_node(function(2, "ext", "a.rs", Visibility::Private, None));
    g.add_node(function(3, "ext", "b.rs", Visibility::Private, None));
    g.add_edge(call(1, 2));
    g.add_edge(call(1, 3));
    let r = link(&mut g);
    assert_eq!(r.resolved, 0);
    assert_eq!(r.unresolved, 2);
    assert_eq!(r.duplicates_merged, 1);
    assert_eq!(r.edges_retargeted, 0);
    let kept: Vec<u64> = [2u64, 3].iter().copied().filter(|k| g.get_node(NodeId(*k)).is_some()).collect();
    assert_eq!(kept.len(), 1);
    assert_eq!(g.edge_count(), 2);
    assert_eq!(callee_of(&g, 1), vec![kept[0]]);
}

#[test]
fn the_public_definition_in_the_same_directory_wins() {
    let mut g = SemanticGraph::new();
    g.add_node(function(1, "main", "src/a.rs", Visibility::Public, Some(1)));
    g.add_node(function(2, "foo", "src/a.rs", Visibility::Private, None));
    g.add_node(function(3, "foo", "lib/c.rs", Visibility::Private, Some(1)));
    g.add_node(function(4, "foo", "src/b.rs", Visibility::Public, Some(1)));
    g.add_edge(call(1, 2));
    let r = link(&mut g);
    assert_eq!(r.resolved, 1);
    assert!(g.get_node(NodeId(2)).is_none());
    assert_eq!(callee_of(&g, 1), vec![4]);
}

#[test]
fn a_salt_feeds_the_hash() {
    let plain = ContentHash::from_bytes(b"abc", None);
    let salted = ContentHash::from_bytes(b"abc", Some(b"pepper"));
    assert_ne!(plain, salted);
    assert_eq!(salted, ContentHash::from_bytes(b"abcpepper", None));
    assert_eq!(plain.0[0], 0xba);
}
