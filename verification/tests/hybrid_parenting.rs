use a_sabr_verified::contact_manager::legacy::EVLManager;
use a_sabr_verified::contact_plan::from_asabr_lexer::parse_asabr;
use a_sabr_verified::distance::{Hop, SABR};
use a_sabr_verified::multigraph::{ContactRef, INodeRef, Multigraph, NodeRef, RealNodeRef, RoutableNodeRef};
use a_sabr_verified::node_manager::NoManagement;
use a_sabr_verified::pathfinding::hybrid_parenting::{HybridParentingOrd, HybridParentingWorkArea};
use a_sabr_verified::paths::{PathFragment, ViaHop};
use a_sabr_verified::types::{Bundle, NodeID, TimeInterval};

type Graph = Multigraph<NoManagement, EVLManager>;

fn build_graph() -> Graph {
    let plan = parse_asabr::<NoManagement, EVLManager>(
        "node 0 A node 1 B node 2 C
         contact 0 1 0 2000 100 1
         contact 1 2 0 2000 100 1
         contact 0 2 0 2000 100 10",
    )
    .unwrap();
    Multigraph::new(plan).unwrap()
}

fn inode(graph: &Graph, id: usize) -> INodeRef {
    match graph.node_id_ref(NodeID(id)).unwrap() {
        NodeRef::I(r) => r,
        _ => panic!(),
    }
}

fn hop_to(node: INodeRef, hops: u16, arrival: i64, parent: usize) -> PathFragment {
    PathFragment {
        via: Some(ViaHop {
            contact: ContactRef { index: 0 },
            parent_frag: parent,
            send: TimeInterval { start: 0, end: 1 },
        }),
        hop_count: hops,
        recv: TimeInterval { start: arrival, end: arrival },
        rx_node: RealNodeRef::I(node),
        expiration: 2000,
    }
}

fn bundle() -> Bundle {
    Bundle { source: NodeID(0), priority: 0, size: 10, expiration: 2000 }
}

#[test]
fn keep_both_only_for_paths_apart_in_hops_and_arrival() {
    let graph = build_graph();
    let c = inode(&graph, 2);
    let b = bundle();
    let fewer_later = hop_to(c, 1, 20, 0);
    let more_earlier = hop_to(c, 2, 10, 0);
    let more_later = hop_to(c, 3, 30, 0);
    assert!(<Hop as HybridParentingOrd<NoManagement, EVLManager>>::keep_both(&fewer_later, &more_earlier, &graph, &b));
    assert!(<SABR as HybridParentingOrd<NoManagement, EVLManager>>::keep_both(&more_earlier, &fewer_later, &graph, &b));
    assert!(!<Hop as HybridParentingOrd<NoManagement, EVLManager>>::keep_both(&more_later, &fewer_later, &graph, &b));
    assert!(!<SABR as HybridParentingOrd<NoManagement, EVLManager>>::keep_both(&fewer_later, &fewer_later, &graph, &b));
}

#[test]
fn hybrid_keeps_paths_that_trade_hops_for_arrival() {
    let graph = build_graph();
    let a = inode(&graph, 0);
    let c = inode(&graph, 2);
    let b = bundle();
    let mut work = HybridParentingWorkArea::<Hop>::new(&graph);
    let start = PathFragment::new_start(0, RealNodeRef::I(a));
    assert_eq!(work.try_insert(start, RoutableNodeRef::I(a), &graph, &b), Some(0));
    // the first path to C is kept
    assert_eq!(work.try_insert(hop_to(c, 2, 10, 0), RoutableNodeRef::I(c), &graph, &b), Some(1));
    // fewer hops but a later arrival: better under Hop and worth keeping beside it
    assert_eq!(work.try_insert(hop_to(c, 1, 20, 0), RoutableNodeRef::I(c), &graph, &b), Some(2));
    // worse in both hops and arrival than the best: refused
    assert_eq!(work.try_insert(hop_to(c, 3, 30, 0), RoutableNodeRef::I(c), &graph, &b), None);
    // the best path is the one with fewer hops; the other stays relevant but is not the best
    let (rel, best, prev) = work.poped_relevant_new(hop_to(c, 1, 20, 0), RoutableNodeRef::I(c), 2);
    assert!(rel && best);
    assert_eq!(prev, Some(a));
    let (rel, best, _) = work.poped_relevant_new(hop_to(c, 2, 10, 0), RoutableNodeRef::I(c), 1);
    assert!(rel && !best);
    let out = work.into_pathfinding_output();
    assert_eq!(out.path_tree[2].unwrap().hop_count, 1);
    assert_eq!(out.path_tree[0].unwrap().hop_count, 0);
    assert!(out.path_tree[1].is_none());
}

#[test]
fn hybrid_replaces_a_path_it_beats_without_keeping_it() {
    let graph = build_graph();
    let a = inode(&graph, 0);
    let c = inode(&graph, 2);
    let b = bundle();
    let mut work = HybridParentingWorkArea::<SABR>::new(&graph);
    let start = PathFragment::new_start(0, RealNodeRef::I(a));
    assert_eq!(work.try_insert(start, RoutableNodeRef::I(a), &graph, &b), Some(0));
    assert_eq!(work.try_insert(hop_to(c, 2, 10, 0), RoutableNodeRef::I(c), &graph, &b), Some(1));
    // earlier and with fewer hops: takes the place of the kept path
    assert_eq!(work.try_insert(hop_to(c, 1, 5, 0), RoutableNodeRef::I(c), &graph, &b), Some(1));
    let out = work.into_pathfinding_output();
    assert_eq!(out.path_tree[2].unwrap().recv.end, 5);
}
