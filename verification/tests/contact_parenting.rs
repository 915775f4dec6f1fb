use a_sabr_verified::contact_manager::legacy::EVLManager;
use a_sabr_verified::contact_plan::from_asabr_lexer::parse_asabr;
use a_sabr_verified::distance::{Hop, SABR};
use a_sabr_verified::errors::ASABRError;
use a_sabr_verified::multigraph::{INodeRef, Multigraph, NodeRef, RealNodeRef, RoutableNodeRef, VNodeRef};
use a_sabr_verified::node_manager::NoManagement;
use a_sabr_verified::pathfinding::destination::{All, Dest};
use a_sabr_verified::pathfinding::dijkstra::Pathfinding;
use a_sabr_verified::pathfinding::contact_parenting::ContactParenting;
use a_sabr_verified::types::{Bundle, Date, NodeID};

type Graph = Multigraph<NoManagement, EVLManager>;

fn make_bundle(priority: i8, size: i64, expiration: Date) -> Bundle {
    Bundle { source: NodeID(0), priority, size, expiration }
}

fn build_graph(text: &str) -> Graph {
    let plan = parse_asabr::<NoManagement, EVLManager>(text).unwrap();
    Multigraph::new(plan).unwrap()
}

fn inode(graph: &Graph, id: usize) -> INodeRef {
    match graph.node_id_ref(NodeID(id)).unwrap() {
        NodeRef::I(r) => r,
        _ => panic!(),
    }
}

fn vnode(graph: &Graph, id: usize) -> VNodeRef {
    match graph.node_id_ref(NodeID(id)).unwrap() {
        NodeRef::V(r) => r,
        _ => panic!(),
    }
}

const LINE: &str = "node 0 A node 1 B node 2 C
                            contact 0 1 0 2000 100 1
                            contact 1 2 0 2000 100 1";

#[test]
fn contact_parenting_test_a_to_c_tree() -> Result<(), ASABRError> {
    let mut graph = build_graph(LINE);
    let ref_0 = inode(&graph, 0);
    let ref_2 = inode(&graph, 2);
    let bundle = make_bundle(2, 100, 2000);

    let mut algo_hop = ContactParenting::<Hop>::new();
    let mut dest = All;
    let res_hop = algo_hop.find_path(&mut graph, 0, ref_0, &bundle, &mut dest, None)?.expect("Hop: Routing Failed!");
    let path_hop = res_hop.path_tree[ref_2.index].as_ref().expect("Path to C should exist");
    assert_eq!(path_hop.recv.end, 4, "Hop: Expected arrival 4");
    assert_eq!(path_hop.hop_count, 2, "Hop: Expected 2 hops");

    let mut algo_sabr = ContactParenting::<SABR>::new();
    let mut dest_sabr = All;
    let res_sabr =
        algo_sabr.find_path(&mut graph, 0, ref_0, &bundle, &mut dest_sabr, None)?.expect("SABR: Routing Failed!");
    let path_sabr = res_sabr.path_tree[ref_2.index].as_ref().expect("Path to C should exist");
    assert_eq!(path_sabr.recv.end, 4, "SABR: Expected arrival 4");
    assert_eq!(path_sabr.hop_count, 2, "SABR: Expected 2 hops");
    Ok(())
}

#[test]
fn contact_parenting_test_a_to_c_tree_excluded() -> Result<(), ASABRError> {
    let mut graph = build_graph(LINE);
    let ref_1 = inode(&graph, 1);
    graph.mark_excluded(&[RealNodeRef::I(ref_1)]);
    let ref_0 = inode(&graph, 0);
    let bundle = make_bundle(2, 100, 2000);

    let mut algo_hop = ContactParenting::<Hop>::new();
    let mut dest = All;
    let res_hop = algo_hop.find_path(&mut graph, 0, ref_0, &bundle, &mut dest, None)?.expect("Hop: Routing Failed!");
    assert!(res_hop.path_tree[1].is_none(), "Hop: Node B should be excluded");
    assert!(res_hop.path_tree[2].is_none(), "Hop: Node C should not be accessible without B");

    let mut algo_sabr = ContactParenting::<SABR>::new();
    let mut dest_sabr = All;
    let res_sabr =
        algo_sabr.find_path(&mut graph, 0, ref_0, &bundle, &mut dest_sabr, None)?.expect("SABR: Routing Failed!");
    assert!(res_sabr.path_tree[1].is_none(), "SABR: Node B should be excluded");
    assert!(res_sabr.path_tree[2].is_none(), "SABR: Node C should not be accessible without B");
    Ok(())
}

#[test]
fn contact_parenting_test_a_to_c_path_excl() -> Result<(), ASABRError> {
    let mut graph = build_graph(LINE);
    let ref_1 = inode(&graph, 1);
    graph.mark_excluded(&[RealNodeRef::I(ref_1)]);
    let ref_0 = inode(&graph, 0);
    let ref_2 = inode(&graph, 2);
    let bundle = make_bundle(2, 100, 2000);

    let mut algo_hop = ContactParenting::<Hop>::new();
    let mut dest = Dest::INode(ref_2);
    let res_hop = algo_hop.find_path(&mut graph, 0, ref_0, &bundle, &mut dest, None)?.expect("Hop: Routing Failed!");
    assert!(res_hop.path_tree[2].is_none(), "Hop: Node C should not be accessible without B");

    let mut algo_sabr = ContactParenting::<SABR>::new();
    let mut dest_sabr = Dest::INode(ref_2);
    let res_sabr =
        algo_sabr.find_path(&mut graph, 0, ref_0, &bundle, &mut dest_sabr, None)?.expect("SABR: Routing Failed!");
    assert!(res_sabr.path_tree[2].is_none(), "SABR: Node C should not be accessible without B");
    Ok(())
}

#[test]
fn contact_parenting_test_two_paths_to_c() -> Result<(), ASABRError> {
    let graph_str = "node 0 A node 1 B node 2 C node 3 D
                            contact 0 1 0 2000 100 1
                            contact 1 2 0 2000 100 1
                            contact 0 3 0 2000 100 3
                            contact 3 2 0 2000 100 3
                            contact 0 2 0 2000 100 10";
    let mut graph = build_graph(graph_str);
    let ref_0 = inode(&graph, 0);
    let bundle = make_bundle(2, 100, 2000);

    let mut algo_hop = ContactParenting::<Hop>::new();
    let mut dest_hop = All;
    let res_hop =
        algo_hop.find_path(&mut graph, 0, ref_0, &bundle, &mut dest_hop, None)?.expect("Hop: Routing Failed!");
    let path_hop = res_hop.path_tree[2].as_ref().unwrap();
    assert_eq!(path_hop.recv.end, 11, "Hop: Expected arrival 11 via direct path");
    assert_eq!(path_hop.hop_count, 1, "Hop: Expected 1 hop");

    let mut algo_sabr = ContactParenting::<SABR>::new();
    let mut dest_sabr = All;
    let res_sabr =
        algo_sabr.find_path(&mut graph, 0, ref_0, &bundle, &mut dest_sabr, None)?.expect("SABR: Routing Failed!");
    let path_sabr = res_sabr.path_tree[2].as_ref().unwrap();
    assert_eq!(path_sabr.recv.end, 4, "SABR: Expected arrival 4 via node B");
    assert_eq!(path_sabr.hop_count, 2, "SABR: Expected 2 hops");
    Ok(())
}

#[test]
fn contact_parenting_test_exemple_1() -> Result<(), ASABRError> {
    let graph_str = "node 0 source node 1 from_C0 node 2 from_C2_C1 node 3 from_C3
                         contact 0 1 0 10 1 0
                         contact 0 2 25 35 1 0
                         contact 1 2 10 20 1 0
                         contact 2 3 30 40 1 0";
    let mut graph = build_graph(graph_str);
    let ref_0 = inode(&graph, 0);
    let ref_3 = inode(&graph, 3);
    let bundle = make_bundle(3, 0, 1000);

    let mut algo_hop = ContactParenting::<Hop>::new();
    let mut dest_hop = Dest::INode(ref_3);
    let res_hop =
        algo_hop.find_path(&mut graph, 0, ref_0, &bundle, &mut dest_hop, None)?.expect("Hop: Routing Failed!");
    let path_hop = res_hop.path_tree[ref_3.index].as_ref().unwrap();
    assert_eq!(path_hop.recv.end, 30, "Hop: Expected arrival 30");
    assert_eq!(path_hop.hop_count, 2, "Hop: Expected 2 hops");

    let mut algo_sabr = ContactParenting::<SABR>::new();
    let mut dest_sabr = Dest::INode(ref_3);
    let res_sabr =
        algo_sabr.find_path(&mut graph, 0, ref_0, &bundle, &mut dest_sabr, None)?.expect("SABR: Routing Failed!");
    let path_sabr = res_sabr.path_tree[ref_3.index].as_ref().unwrap();
    assert_eq!(path_sabr.recv.end, 30, "SABR: Expected arrival 30");
    assert_eq!(path_sabr.hop_count, 2, "SABR: Expected 2 hops for contact graph tie-break");
    Ok(())
}

#[test]
fn contact_parenting_test_exemple_2() -> Result<(), ASABRError> {
    let graph_str = "node 0 source node 1 from_C0 node 2 from_C2_C1 node 3 from_C3 node 4 from_C4
                         contact 0 1 0 10 1 0
                         contact 0 2 25 35 1 0
                         contact 1 2 10 23 1 0
                         contact 2 3 20 40 1 0
                         contact 3 4 50 60 1 0";
    let mut graph = build_graph(graph_str);
    let ref_0 = inode(&graph, 0);
    let ref_4 = inode(&graph, 4);
    let bundle = make_bundle(4, 0, 1000);

    let mut algo_hop = ContactParenting::<Hop>::new();
    let mut dest_hop = Dest::INode(ref_4);
    let res_hop =
        algo_hop.find_path(&mut graph, 0, ref_0, &bundle, &mut dest_hop, None)?.expect("Hop: Routing Failed!");
    let path_hop = res_hop.path_tree[ref_4.index].as_ref().unwrap();
    assert_eq!(path_hop.recv.end, 50, "Hop: Expected arrival 50");
    assert_eq!(path_hop.hop_count, 3, "Hop: Expected 3 hops");

    let mut algo_sabr = ContactParenting::<SABR>::new();
    let mut dest_sabr = Dest::INode(ref_4);
    let res_sabr =
        algo_sabr.find_path(&mut graph, 0, ref_0, &bundle, &mut dest_sabr, None)?.expect("SABR: Routing Failed!");
    let path_sabr = res_sabr.path_tree[ref_4.index].as_ref().unwrap();
    assert_eq!(path_sabr.recv.end, 50, "SABR: Expected arrival 50");
    assert_eq!(path_sabr.hop_count, 4, "SABR: Expected 4 hops");
    Ok(())
}

const VNODE_PLAN: &str = "node 0 A node 1 B node 2 C node 3 D node 4 E
                         vnode 5 V [ 2 , 4 ]
                         contact 0 1 0 2000 100 2
                         contact 1 2 0 2000 100 2
                         contact 0 3 0 2000 100 1
                         contact 3 4 0 2000 100 1";

#[test]
fn contact_parenting_keeps_one_path_per_contact_for_virtual_nodes_too() {
    let mut graph = build_graph(VNODE_PLAN);
    let ref_0 = inode(&graph, 0);
    let ref_5 = vnode(&graph, 5);
    let bundle = make_bundle(1, 100, 2000);
    let mut algo = ContactParenting::<SABR>::new();
    let mut dest = Dest::VNode(ref_5);
    let res = algo.find_path(&mut graph, 0, ref_0, &bundle, &mut dest, None).unwrap().unwrap();
    // E is reached over the contact from D; the same contact already holds that path, so the
    // path towards the virtual node (after the five internal nodes) is not kept.
    assert_eq!(res.path_tree[4].unwrap().recv.end, 4);
    assert!(res.path_tree[5].is_none());
    let path = res.get_full_path(RoutableNodeRef::I(inode(&graph, 4)), &graph).unwrap();
    assert_eq!(path.len(), 3);
    assert_eq!(path[0].rx_node, RealNodeRef::I(ref_0));
    assert_eq!(path[1].rx_node, RealNodeRef::I(inode(&graph, 3)));
}

#[test]
fn contact_parenting_keeps_a_path_per_contact() {
    // Two contacts reach B; the later one gives the better path onwards to C only through it.
    let graph_str = "node 0 A node 1 B node 2 C
                     contact 0 1 0 10 100 1
                     contact 0 1 0 100 100 50
                     contact 1 2 0 40 100 1";
    let mut graph = build_graph(graph_str);
    let ref_0 = inode(&graph, 0);
    let bundle = make_bundle(0, 100, 2000);
    let mut algo = ContactParenting::<SABR>::new();
    let mut dest = All;
    let res = algo.find_path(&mut graph, 0, ref_0, &bundle, &mut dest, None).unwrap().unwrap();
    assert_eq!(res.path_tree[1].unwrap().recv.end, 2);
    assert_eq!(res.path_tree[2].unwrap().recv.end, 4);
    let path = res.get_full_path(RoutableNodeRef::I(inode(&graph, 2)), &graph).unwrap();
    assert_eq!(path.len(), 3);
    assert_eq!(path[1].recv.end, 2);
}
