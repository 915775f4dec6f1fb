use a_sabr_verified::contact_manager::legacy::EVLManager;
use a_sabr_verified::contact_plan::from_asabr_lexer::parse_asabr;
use a_sabr_verified::distance::SABR;
use a_sabr_verified::multigraph::{INodeRef, Multigraph, NodeRef, RealNodeRef, RoutableNodeRef};
use a_sabr_verified::node_manager::NoManagement;
use a_sabr_verified::pathfinding::destination::All;
use a_sabr_verified::pathfinding::dijkstra::Pathfinding;
use a_sabr_verified::pathfinding::node_parenting::NodeParenting;
use a_sabr_verified::pathfinding::path_iterator::PathIterator;
use a_sabr_verified::types::{Bundle, NodeID, TimeInterval};

type Graph = Multigraph<NoManagement, EVLManager>;

fn build_graph(text: &str) -> Graph {
    Multigraph::new(parse_asabr::<NoManagement, EVLManager>(text).unwrap()).unwrap()
}

fn inode(graph: &Graph, id: usize) -> INodeRef {
    match graph.node_id_ref(NodeID(id)).unwrap() {
        NodeRef::I(r) => r,
        _ => panic!(),
    }
}

const PLAN: &str = "node 0 A node 1 B node 2 C
contact 0 1 0 300 100 1
contact 1 2 0 1000 100 1";

#[test]
fn committing_a_path_books_every_hop() {
    let mut graph = build_graph(PLAN);
    let src = inode(&graph, 0);
    let bundle = Bundle { source: NodeID(0), priority: 0, size: 16000, expiration: 1000 };
    let mut algo = NodeParenting::<SABR>::new();
    let mut dest = All;
    let out = algo.find_path(&mut graph, 0, src, &bundle, &mut dest, None).unwrap().unwrap();
    let path = out.full_path_rev(RoutableNodeRef::I(inode(&graph, 2)), &graph).unwrap();
    assert_eq!(path.len(), 3);
    let first_hop = PathIterator { path }.commit(&bundle, &mut graph).unwrap().unwrap();
    assert_eq!(first_hop.rx_node, RealNodeRef::I(inode(&graph, 1)));
    assert_eq!(first_hop.hop_count, 1);
    assert_eq!(first_hop.recv, TimeInterval { start: 1, end: 161 });
    // The first contact now holds 16000 of its 30000 units: the same bundle no longer fits.
    let first = graph.contacts.iter().position(|c| c.lifespan.end == 300).unwrap();
    let second = graph.contacts.iter().position(|c| c.lifespan.end == 1000).unwrap();
    assert!(graph.contacts[first].dry_run_tx(0, &bundle).is_none());
    assert!(graph.contacts[first].dry_run_tx(0, &Bundle { size: 14000, ..bundle }).is_some());
    assert!(graph.contacts[second].dry_run_tx(0, &Bundle { size: 84000, ..bundle }).is_some());
    assert!(graph.contacts[second].dry_run_tx(0, &Bundle { size: 84001, ..bundle }).is_none());
    let again = algo.find_path(&mut graph, 0, src, &bundle, &mut dest, None).unwrap().unwrap();
    assert!(again.path_tree[2].is_none());
}

#[test]
fn committing_a_path_without_hop_does_nothing() {
    let mut graph = build_graph(PLAN);
    let src = inode(&graph, 0);
    let bundle = Bundle { source: NodeID(0), priority: 0, size: 100, expiration: 1000 };
    let mut algo = NodeParenting::<SABR>::new();
    let mut dest = All;
    let out = algo.find_path(&mut graph, 0, src, &bundle, &mut dest, None).unwrap().unwrap();
    let path = out.full_path_rev(RoutableNodeRef::I(src), &graph).unwrap();
    assert_eq!(path.len(), 1);
    assert_eq!(PathIterator { path }.commit(&bundle, &mut graph).unwrap(), None);
    assert!(graph.contacts.iter().all(|c| c.dry_run_tx(0, &Bundle { size: 30000, ..bundle }).is_some()));
}
