use core::cmp::Ordering;

use a_sabr_verified::contact_manager::legacy::EVLManager;
use a_sabr_verified::contact_plan::from_asabr_lexer::parse_asabr;
use a_sabr_verified::distance::SABR;
use a_sabr_verified::multigraph::{ContactRef, INodeRef, Multigraph, NodeRef, RoutableNodeRef};
use a_sabr_verified::node_manager::NoManagement;
use a_sabr_verified::pathfinding::dijkstra::Pathfinding;
use a_sabr_verified::pathfinding::limiting_contact::{
    ends_earlier_than, get_next_to_suppress, had_less_volume_than, FirstDepleted, FirstEnding, Suppressor,
};
use a_sabr_verified::pathfinding::node_parenting::NodeParenting;
use a_sabr_verified::types::{Bundle, NodeID};

type Graph = Multigraph<NoManagement, EVLManager>;

fn build_graph(text: &str) -> Graph {
    Multigraph::new(parse_asabr::<NoManagement, EVLManager>(text).unwrap()).unwrap()
}

fn inode(graph: &Graph, id: usize) -> INodeRef {
    match graph.node_id_ref(NodeID(id)).unwrap() {
        NodeRef::I(r) => r,
        _ => panic!(),
    }
}

fn bundle() -> Bundle {
    Bundle { source: NodeID(0), priority: 0, size: 100, expiration: 10_000 }
}

const PLAN: &str = "node 0 A node 1 B node 2 C
contact 0 1 0 50 100 1
contact 1 2 0 1000 100 1
contact 0 2 0 2000 100 10";

#[test]
fn contacts_ending_earlier_are_suppressed_first() {
    let graph = build_graph(PLAN);
    let c = &graph.contacts;
    let short = c.iter().position(|x| x.lifespan.end == 50).unwrap();
    let long = c.iter().position(|x| x.lifespan.end == 2000).unwrap();
    assert_eq!(ends_earlier_than(&c[short], &c[long]), Ordering::Greater);
    assert_eq!(ends_earlier_than(&c[long], &c[short]), Ordering::Less);
    assert_eq!(ends_earlier_than(&c[long], &c[long]), Ordering::Equal);
    assert_eq!(had_less_volume_than(&c[short], &c[long]), Ordering::Greater);
    assert_eq!(had_less_volume_than(&c[long], &c[short]), Ordering::Less);
    assert_eq!(had_less_volume_than(&c[short], &c[short]), Ordering::Equal);
}

#[test]
fn next_to_suppress_is_the_limiting_contact_of_the_path() {
    let mut graph = build_graph(PLAN);
    let src = inode(&graph, 0);
    let dest = RoutableNodeRef::I(inode(&graph, 2));
    let mut algo = NodeParenting::<SABR>::new();
    let mut d = dest;
    let out = algo.find_path(&mut graph, 0, src, &bundle(), &mut d, None).unwrap().unwrap();
    assert_eq!(out.path_tree[2].unwrap().hop_count, 2);
    let first = get_next_to_suppress::<NoManagement, EVLManager, FirstEnding>(&graph, &out, dest).unwrap();
    assert_eq!(graph.contacts[first.index].lifespan.end, 50);
    let depleted = get_next_to_suppress::<NoManagement, EVLManager, FirstDepleted>(&graph, &out, dest).unwrap();
    assert_eq!(graph.contacts[depleted.index].lifespan.end, 50);
    assert_eq!(
        get_next_to_suppress::<NoManagement, EVLManager, FirstEnding>(&graph, &out, RoutableNodeRef::I(src)),
        None::<ContactRef>
    );
}

#[test]
fn suppressor_finds_another_path_each_time() {
    let mut graph = build_graph(PLAN);
    let src = inode(&graph, 0);
    let dest = RoutableNodeRef::I(inode(&graph, 2));
    let mut finder: Suppressor<NodeParenting<SABR>, FirstEnding> = Suppressor::new(NodeParenting::<SABR>::new(), &graph);
    let mut d = dest;
    let first = finder.find_path(&mut graph, 0, src, &bundle(), &mut d, None).unwrap().unwrap();
    let f = first.path_tree[2].unwrap();
    assert_eq!((f.hop_count, f.recv.end), (2, 4));
    assert_eq!(finder.suppressed[2].len(), 1);
    assert!(graph.contacts.iter().all(|c| !c.suppressed));
    let second = finder.find_path(&mut graph, 0, src, &bundle(), &mut d, None).unwrap().unwrap();
    let f = second.path_tree[2].unwrap();
    assert_eq!((f.hop_count, f.recv.end), (1, 11));
    assert_eq!(finder.suppressed[2].len(), 2);
    let third = finder.find_path(&mut graph, 0, src, &bundle(), &mut d, None).unwrap().unwrap();
    assert!(third.path_tree[2].is_none());
    assert_eq!(finder.suppressed[2].len(), 2);
}
