use a_sabr_verified::contact_manager::legacy::EVLManager;
use a_sabr_verified::contact_plan::from_asabr_lexer::parse_asabr;
use a_sabr_verified::multigraph::{INodeRef, Multigraph, NodeRef, RealNodeRef};
use a_sabr_verified::node_manager::NoManagement;
use a_sabr_verified::pathfinding::try_make_hop;
use a_sabr_verified::paths::PathFragment;
use a_sabr_verified::types::{Bundle, Date, NodeID};

type Graph = Multigraph<NoManagement, EVLManager>;

fn make_bundle(priority: i8, size: i64, expiration: Date) -> Bundle {
    Bundle { source: NodeID(0), priority, size, expiration }
}

fn build_graph(text: &str) -> Graph {
    let plan = parse_asabr::<NoManagement, EVLManager>(text).unwrap();
    Multigraph::new(plan).unwrap()
}

fn inode(graph: &Graph, id: usize) -> INodeRef {
    match graph.node_id_ref(NodeID(id)) {
        Ok(NodeRef::I(r)) => r,
        _ => panic!("Node {} missing", id),
    }
}

/// The contacts from `from` to `to`, in the order the graph keeps them.
fn contacts_between(graph: &Graph, from: INodeRef, to: INodeRef) -> Vec<(RealNodeRef, usize)> {
    let mut out = Vec::new();
    for rn in graph.neighbours[from.index].reals.iter() {
        if rn.node == to {
            for c in rn.contacts.iter() {
                out.push((RealNodeRef::I(to), *c));
            }
        }
    }
    out
}

fn run_hop(
    graph: &Graph,
    bundle: &Bundle,
    current: INodeRef,
    next: INodeRef,
    send_time: Date,
) -> Option<PathFragment> {
    let prev_frag = PathFragment::new_start(send_time, RealNodeRef::I(current));
    let cands = contacts_between(graph, current, next);
    try_make_hop(graph, &prev_frag, 0, bundle, current.index, &cands, None, NodeID(next.index))
}

fn run_hop_on_graph(graph_str: &str, bundle: &Bundle) -> Option<PathFragment> {
    let graph = build_graph(graph_str);
    let a = inode(&graph, 0);
    let b = inode(&graph, 1);
    run_hop(&graph, bundle, a, b, 0)
}

#[test]
fn test_empty_contacts() {
    let bundle = make_bundle(1, 100, 1000);
    let result = run_hop_on_graph("node 0 A node 1 B", &bundle);
    assert!(result.is_none(), "TEST FAILED: Expected None when contacts iterator is empty.");
}

#[test]
fn test_bundle_too_large() {
    let bundle = make_bundle(1, 999_999, 1000);
    let result = run_hop_on_graph(
        "node 0 A node 1 B
                            contact 0 1 0 200 100 1",
        &bundle,
    );
    assert!(result.is_none(), "TEST FAILED: Expected None when the bundle size exceeds contact capacity.");
}

#[test]
fn test_single_contact_valid() {
    let bundle = make_bundle(1, 50, 1000);
    let result = run_hop_on_graph(
        "node 0 A node 1 B
                            contact 0 1 0 200 100 1",
        &bundle,
    );
    assert!(result.is_some());
    let f = result.unwrap();
    assert_eq!(f.recv.end, 1);
    assert_eq!(f.hop_count, 1);
    assert_eq!(f.expiration, 200);
}

#[test]
fn test_best_contact_selected_1_hop() {
    let graph_str = "node 0 A node 1 B
                            contact 0 1 0 50 100 5
                            contact 0 1 0 200 100 2
                            contact 0 1 10 100 50 1
                            contact 0 1 20 30 100 1";
    let bundle = make_bundle(1, 100, 2000);
    let graph = build_graph(graph_str);
    let refs = [inode(&graph, 0), inode(&graph, 1)];
    let result = run_hop(&graph, &bundle, refs[0], refs[1], 5);
    assert!(result.is_some(), "TEST FAILED: Expected Some, at least one contact should be valid.");
    let route = result.unwrap();
    assert_eq!(
        route.recv.end, 8,
        "TEST FAILED: Expected arrival 8 from the optimal contact (got {}).",
        route.recv.end
    );
    assert_eq!(route.hop_count, 1, "TEST FAILED: Expected hop_count = 1 (got {}).", route.hop_count);
    assert!(route.via.is_some(), "TEST FAILED: Expected a ViaHop to be set.");
}

#[test]
fn test_best_contact_selected_2_hops() {
    let graph_str = "node 0 A node 1 B node 2 C
                            contact 0 1 0 200 100 1
                            contact 0 1 0 200 100 5
                            contact 1 2 0 1000 100 1
                            contact 1 2 0 1000 100 2";
    let bundle = make_bundle(1, 100, 2000);
    let graph = build_graph(graph_str);
    let refs = [inode(&graph, 0), inode(&graph, 1), inode(&graph, 2)];
    let hop1 = run_hop(&graph, &bundle, refs[0], refs[1], 0).expect("TEST FAILED: Hop 1 should succeed.");
    assert_eq!(hop1.recv.end, 2, "Hop 1 FAILED: Expected arrival 2 (got {}).", hop1.recv.end);
    assert_eq!(hop1.hop_count, 1, "Hop 1 FAILED: Expected hop_count = 1 (got {}).", hop1.hop_count);
    let cands = contacts_between(&graph, refs[1], refs[2]);
    let hop2 = try_make_hop(&graph, &hop1, 0, &bundle, refs[1].index, &cands, Some(refs[0].index), NodeID(2))
        .expect("TEST FAILED: Hop 2 should succeed.");
    assert_eq!(hop2.recv.end, 4, "Hop 2 FAILED: Expected arrival 4 (got {}).", hop2.recv.end);
    assert_eq!(hop2.hop_count, 2, "Hop 2 FAILED: Expected hop_count = 2 (got {}).", hop2.hop_count);
    assert!(hop2.via.is_some(), "Hop 2 FAILED: Expected a ViaHop to be set.");
    assert_eq!(hop2.via.unwrap().parent_frag, 0);
    assert_eq!(hop2.expiration, 200);
}

#[test]
fn test_to_node_equals_receiver_vertex_id() {
    let graph_str = "node 0 A node 1 B
                            contact 0 1 0 200 100 1";
    let bundle = make_bundle(1, 50, 1000);
    let graph = build_graph(graph_str);
    let refs = [inode(&graph, 0), inode(&graph, 1)];
    let route = run_hop(&graph, &bundle, refs[0], refs[1], 0).expect("Expected a valid hop");
    assert_eq!(route.rx_node, RealNodeRef::I(refs[1]), "rx_node should exactly match the receiver RNodeRef");
    let rx_id: usize = route.rx_node.internal().unwrap().index;
    assert_eq!(rx_id, 1, "rx_node ID should be 1, got {}", rx_id);
}

#[test]
fn hop_skips_contacts_that_ended() {
    let graph_str = "node 0 A node 1 B
                            contact 0 1 0 10 100 1
                            contact 0 1 20 40 100 3";
    let bundle = make_bundle(0, 100, 2000);
    let graph = build_graph(graph_str);
    let route = run_hop(&graph, &bundle, inode(&graph, 0), inode(&graph, 1), 15).unwrap();
    assert_eq!(route.recv.start, 23);
    assert_eq!(route.recv.end, 24);
    assert_eq!(route.via.unwrap().send.start, 20);
    assert_eq!(route.via.unwrap().send.end, 21);
    assert_eq!(route.expiration, 40);
}

#[test]
fn test_all_contacts_suppressed() {
    let graph_str = "node 0 A node 1 B
                            contact 0 1 0 200 100 1
                            contact 0 1 20 100 50 1
                            contact 0 1 10 300 100 1";
    let mut graph = build_graph(graph_str);
    let refs = [inode(&graph, 0), inode(&graph, 1)];
    for (_, c) in contacts_between(&graph, refs[0], refs[1]) {
        graph.contacts[c].suppressed = true;
    }
    let bundle = make_bundle(1, 100, 1000);
    let result = run_hop(&graph, &bundle, refs[0], refs[1], 0);
    assert!(result.is_none(), "TEST FAILED: Expected None when all contacts are suppressed.");
}

#[test]
fn test_partial_suppression_uses_valid_contact() {
    let graph_str = "node 0 A node 1 B
                            contact 0 1 0 200 100 1
                            contact 0 1 0 200 100 2";
    let mut graph = build_graph(graph_str);
    let refs = [inode(&graph, 0), inode(&graph, 1)];
    let first = contacts_between(&graph, refs[0], refs[1])[0].1;
    graph.contacts[first].suppressed = true;
    let bundle = make_bundle(1, 100, 1000);
    let result = run_hop(&graph, &bundle, refs[0], refs[1], 0);
    assert!(result.is_some(), "TEST FAILED: Expected Some from non-suppressed contact.");
    let route = result.unwrap();
    assert_eq!(
        route.recv.end, 3,
        "TEST FAILED: Expected arrival 3 from non-suppressed contact (got {}).",
        route.recv.end
    );
}

#[test]
fn hop_takes_the_earliest_delivery_among_contacts() {
    // Both contacts start together; the second delivers 9 time units sooner.
    let bundle = make_bundle(1, 100, 1000);
    let result = run_hop_on_graph(
        "node 0 A node 1 B
                            contact 0 1 0 200 100 10
                            contact 0 1 0 200 100 1",
        &bundle,
    )
    .expect("a hop exists");
    assert_eq!(result.recv.end, 2);
}
