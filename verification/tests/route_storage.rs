use a_sabr_verified::contact_manager::legacy::EVLManager;
use a_sabr_verified::contact_plan::from_asabr_lexer::parse_asabr;
use a_sabr_verified::distance::SABR;
use a_sabr_verified::errors::ASABRError;
use a_sabr_verified::multigraph::{INodeRef, Multigraph, NodeRef, RoutableNodeRef};
use a_sabr_verified::node_manager::NoManagement;
use a_sabr_verified::pathfinding::destination::{All, Dest, FindableDest};
use a_sabr_verified::pathfinding::dijkstra::Pathfinding;
use a_sabr_verified::pathfinding::node_parenting::NodeParenting;
use a_sabr_verified::pathfinding::PathFindingOutput;
use a_sabr_verified::route_storage::cache::TreeCache;
use a_sabr_verified::route_storage::table::RoutingTable;
use a_sabr_verified::route_storage::{Cached, Guard, Guarded, NoStorage, PathsStorage};
use a_sabr_verified::routing::{AlwaysAll, Router, Spsn, SpsnOptions};
use a_sabr_verified::types::{Bundle, Date, NodeID, TimeInterval};
use ringbuffer::RingBuffer;

type Graph = Multigraph<NoManagement, EVLManager>;

fn make_bundle(priority: i8, size: i64, expiration: Date) -> Bundle {
    Bundle { source: NodeID(0), priority, size, expiration }
}

fn build_graph(text: &str) -> Graph {
    let plan = parse_asabr::<NoManagement, EVLManager>(text).unwrap();
    Multigraph::new(plan).unwrap()
}

fn inode(graph: &Graph, id: usize) -> INodeRef {
    match graph.node_id_ref(NodeID(id)).unwrap() {
        NodeRef::I(r) => r,
        _ => panic!(),
    }
}

const LINE: &str = "node 0 A node 1 B node 2 C node 3 D
                            contact 0 1 0 2000 100 1
                            contact 1 2 0 2000 100 1";

fn tree_from_a(graph: &mut Graph) -> PathFindingOutput {
    let source = inode(graph, 0);
    let bundle = make_bundle(0, 100, 5000);
    let mut finder = NodeParenting::<SABR>::new();
    let mut dest = All;
    finder.find_path(graph, 0, source, &bundle, &mut dest, None).unwrap().unwrap()
}

#[test]
fn validate_times_a_path_again_from_a_later_start() {
    let mut graph = build_graph(LINE);
    let mut tree = tree_from_a(&mut graph);
    let c = inode(&graph, 2);
    assert_eq!(tree.path_tree[2].unwrap().recv.end, 4);
    let bundle = make_bundle(0, 100, 5000);
    assert!(tree.validate(RoutableNodeRef::I(c), 10, &bundle, &graph));
    assert_eq!(tree.path_tree[0].unwrap().recv, TimeInterval { start: 10, end: 10 });
    assert_eq!(tree.path_tree[1].unwrap().recv.end, 12);
    assert_eq!(tree.path_tree[2].unwrap().recv.end, 14);
    assert_eq!(tree.path_tree[2].unwrap().via.unwrap().send, TimeInterval { start: 12, end: 13 });
}

#[test]
fn validate_fails_once_a_contact_has_ended_and_keeps_earlier_updates() {
    let mut graph = build_graph(LINE);
    let mut tree = tree_from_a(&mut graph);
    let c = inode(&graph, 2);
    let bundle = make_bundle(0, 100, 5000);
    assert!(!tree.validate(RoutableNodeRef::I(c), 1999, &bundle, &graph));
    assert_eq!(tree.path_tree[0].unwrap().recv.end, 1999);
    assert_eq!(tree.path_tree[1].unwrap().recv.end, 2001);
    assert_eq!(tree.path_tree[2].unwrap().recv.end, 4);
}

#[test]
fn validate_without_a_path_changes_nothing() {
    let mut graph = build_graph(LINE);
    let mut tree = tree_from_a(&mut graph);
    let d = inode(&graph, 3);
    let before = tree.path_tree.clone();
    let bundle = make_bundle(0, 100, 5000);
    assert!(!tree.validate(RoutableNodeRef::I(d), 10, &bundle, &graph));
    assert_eq!(tree.path_tree, before);
}

#[test]
fn destinations_check_their_paths() {
    let mut graph = build_graph(LINE);
    let b = inode(&graph, 1);
    let c = inode(&graph, 2);
    let d = inode(&graph, 3);
    let bundle = make_bundle(0, 100, 5000);

    let mut tree = tree_from_a(&mut graph);
    assert!(Dest::AnyCast(vec![c, d]).validate(&mut tree, 10, &bundle, &graph));
    let mut tree = tree_from_a(&mut graph);
    assert!(!Dest::MultiCast(vec![b, d], vec![false, false], 0).validate(&mut tree, 10, &bundle, &graph));
    let mut tree = tree_from_a(&mut graph);
    assert!(Dest::MultiCast(vec![b, c], vec![false, false], 0).validate(&mut tree, 10, &bundle, &graph));
    let mut tree = tree_from_a(&mut graph);
    assert!(All.validate(&mut tree, 1999, &bundle, &graph));
    assert!(!c.validate(&mut tree, 1999, &bundle, &graph));

    assert_eq!(Dest::INode(c).to_id(&graph), Some(2));
    assert_eq!(Dest::AllNodes().to_id(&graph), None);
    assert_eq!(All.to_id(&graph), None);
    assert_eq!(c.to_id(&graph), Some(2));
    assert!(Dest::INode(c).fits(&graph));
    assert!(!Dest::AnyCast(vec![INodeRef { index: 9 }]).fits(&graph));
}

#[test]
fn no_storage_keeps_nothing() {
    let mut graph = build_graph(LINE);
    let tree = tree_from_a(&mut graph);
    let c = inode(&graph, 2);
    let bundle = make_bundle(0, 100, 5000);
    let mut storage = NoStorage;
    let back = PathsStorage::<NoManagement, EVLManager, INodeRef>::store(&mut storage, tree, &c, &bundle, 0, None, &graph);
    assert_eq!(back.path_tree[2].unwrap().recv.end, 4);
    let found = PathsStorage::<NoManagement, EVLManager, INodeRef>::select(&mut storage, &bundle, &c, 0, None, &graph);
    assert!(matches!(found, Ok(None)));
}

#[test]
fn routing_table_serves_the_stored_tree_for_its_key_and_priority() {
    let mut graph = build_graph(LINE);
    let tree = tree_from_a(&mut graph);
    let c = inode(&graph, 2);
    let bundle = make_bundle(0, 100, 5000);
    let mut table = RoutingTable::<INodeRef>::new();
    let back = table.store(tree, &c, &bundle, 0, None, &graph);
    assert_eq!(back.path_tree[2].unwrap().recv.end, 4);
    assert_eq!(table.cache.len(), 1);

    let found = table.select(&bundle, &c, 10, None, &graph).unwrap().unwrap();
    assert_eq!(found.path_tree[2].unwrap().recv.end, 14);
    assert_eq!(table.cache.get(&(2, 0)).unwrap().path_tree[2].unwrap().recv.end, 14);

    let other_priority = make_bundle(1, 100, 5000);
    assert!(table.select(&other_priority, &c, 10, None, &graph).unwrap().is_none());

    assert!(table.select(&bundle, &c, 1999, None, &graph).unwrap().is_none());
    assert_eq!(table.cache.get(&(2, 0)).unwrap().path_tree[1].unwrap().recv.end, 2001);

    let mut all_table = RoutingTable::<All>::new();
    let tree = tree_from_a(&mut graph);
    let _ = all_table.store(tree, &All, &bundle, 0, None, &graph);
    assert_eq!(all_table.cache.len(), 0);
}

#[test]
fn tree_cache_keeps_the_most_recent_trees() {
    let mut graph = build_graph(LINE);
    let c = inode(&graph, 2);
    let low = make_bundle(0, 100, 5000);
    let high = make_bundle(2, 100, 5000);
    let mut cache = TreeCache::new(&graph, 2);
    let _ = PathsStorage::<NoManagement, EVLManager, INodeRef>::store(&mut cache, tree_from_a(&mut graph), &c, &low, 0, None, &graph);
    let _ = PathsStorage::<NoManagement, EVLManager, INodeRef>::store(&mut cache, tree_from_a(&mut graph), &c, &high, 0, None, &graph);
    let _ = PathsStorage::<NoManagement, EVLManager, INodeRef>::store(&mut cache, tree_from_a(&mut graph), &c, &high, 0, None, &graph);
    assert_eq!(cache.cache.len(), 2);
    assert!(cache.cache.iter().all(|(p, _)| *p == 2));

    let miss = cache.select(&low, &c, 10, None, &graph).unwrap();
    assert!(miss.is_none());
    let hit = cache.select(&high, &c, 10, None, &graph).unwrap().unwrap();
    assert_eq!(hit.path_tree[2].unwrap().recv.end, 14);
    assert_eq!(cache.cache.back().unwrap().1.path_tree[2].unwrap().recv.end, 14);
    assert_eq!(cache.cache.front().unwrap().1.path_tree[2].unwrap().recv.end, 4);
}

#[test]
fn guard_blocks_larger_bundles_of_covered_priorities() {
    let graph = build_graph(LINE);
    let c = inode(&graph, 2);
    let d = inode(&graph, 3);
    let mut guard = Guard::<INodeRef, 3>::new();
    let failed = make_bundle(1, 100, 5000);
    assert!(!guard.abort(&failed, &d, &graph));
    guard.set_limit(&failed, &d, &graph);
    assert!(guard.abort(&make_bundle(1, 100, 5000), &d, &graph));
    assert!(guard.abort(&make_bundle(0, 150, 5000), &d, &graph));
    assert!(!guard.abort(&make_bundle(0, 50, 5000), &d, &graph));
    assert!(!guard.abort(&make_bundle(2, 500, 5000), &d, &graph));
    assert!(!guard.abort(&make_bundle(1, 500, 5000), &c, &graph));
    assert_eq!(guard.limits.get(&(3, 0)), Some(&100));
    assert_eq!(guard.limits.get(&(3, 1)), Some(&100));
    assert_eq!(guard.limits.get(&(3, 2)), None);

    guard.set_limit(&make_bundle(5, 40, 5000), &d, &graph);
    assert_eq!(guard.limits.get(&(3, 0)), Some(&40));
    assert_eq!(guard.limits.get(&(3, 2)), Some(&40));
    assert!(guard.abort(&make_bundle(7, 40, 5000), &d, &graph));

    let mut all_guard = Guard::<All, 3>::new();
    all_guard.set_limit(&failed, &All, &graph);
    assert!(all_guard.limits.is_empty());
    assert!(!all_guard.abort(&failed, &All, &graph));
}

#[test]
fn guarded_pathfinder_skips_searches_known_to_fail() -> Result<(), ASABRError> {
    let mut graph = build_graph(LINE);
    let a = inode(&graph, 0);
    let mut c = inode(&graph, 2);
    let bundle = make_bundle(0, 100, 5000);
    let mut guarded = Guarded::<NodeParenting<SABR>, INodeRef, 1>::new(NodeParenting::<SABR>::new());
    let found = guarded.find_path(&mut graph, 0, a, &bundle, &mut c, None)?.unwrap();
    assert_eq!(found.path_tree[2].unwrap().recv.end, 4);
    assert!(guarded.guard.limits.is_empty());

    guarded.guard.set_limit(&make_bundle(0, 80, 5000), &c, &graph);
    assert!(guarded.find_path(&mut graph, 0, a, &bundle, &mut c, None)?.is_none());
    let small = make_bundle(0, 50, 5000);
    assert!(guarded.find_path(&mut graph, 0, a, &small, &mut c, None)?.is_some());
    Ok(())
}

#[test]
fn cached_pathfinder_stores_then_serves() -> Result<(), ASABRError> {
    let mut graph = build_graph(LINE);
    let a = inode(&graph, 0);
    let mut c = inode(&graph, 2);
    let bundle = make_bundle(0, 100, 5000);
    let mut cached = Cached::new(RoutingTable::<INodeRef>::new(), NodeParenting::<SABR>::new());
    let first = cached.find_path(&mut graph, 0, a, &bundle, &mut c, None)?.unwrap();
    assert_eq!(first.path_tree[2].unwrap().recv.end, 4);
    assert_eq!(cached.cache.cache.len(), 1);
    let second = cached.find_path(&mut graph, 20, a, &bundle, &mut c, None)?.unwrap();
    assert_eq!(second.path_tree[2].unwrap().recv.end, 24);
    assert_eq!(cached.cache.cache.len(), 1);

    let mut plain = Cached::new(NoStorage, NodeParenting::<SABR>::new());
    let again = plain.find_path(&mut graph, 0, a, &bundle, &mut c, None)?.unwrap();
    assert_eq!(again.path_tree[2].unwrap().recv.end, 4);
    Ok(())
}

#[test]
fn spsn_searches_once_for_many_destinations() -> Result<(), ASABRError> {
    let mut graph = build_graph(LINE);
    let a = inode(&graph, 0);
    let mut b = inode(&graph, 1);
    let mut c = inode(&graph, 2);
    let mut d = inode(&graph, 3);
    let bundle = make_bundle(0, 100, 5000);
    let options = SpsnOptions { check_size: true, check_priority: true, max_entries: 4 };
    let storage = TreeCache::new(&graph, options.clone().max_entries);
    let inner = Cached::new(storage, AlwaysAll::new(NodeParenting::<SABR>::new()));
    let mut spsn: Spsn<NodeParenting<SABR>, TreeCache, INodeRef, 3> = Guarded { finder: inner, guard: Guard::new() };
    let to_c = spsn.find_path(&mut graph, 0, a, &bundle, &mut c, None)?.unwrap();
    assert_eq!(to_c.path_tree[2].unwrap().recv.end, 4);
    let to_b = spsn.find_path(&mut graph, 0, a, &bundle, &mut b, None)?.unwrap();
    assert_eq!(to_b.path_tree[1].unwrap().recv.end, 2);
    assert_eq!(spsn.finder.cache.cache.len(), 1);
    let to_d = spsn.find_path(&mut graph, 0, a, &bundle, &mut d, None)?.unwrap();
    assert!(to_d.path_tree[3].is_none());
    assert_eq!(spsn.finder.cache.cache.len(), 2);
    assert!(spsn.guard.limits.is_empty());
    Ok(())
}

#[test]
fn router_searches_its_own_graph() -> Result<(), ASABRError> {
    let graph = build_graph(LINE);
    let a = inode(&graph, 0);
    let c = inode(&graph, 2);
    let bundle = make_bundle(0, 100, 5000);
    let mut router: Router<NoManagement, EVLManager, NodeParenting<SABR>, INodeRef> =
        Router::new(graph, NodeParenting::<SABR>::new());
    let found = router.find_path(c, 0, a, &bundle, None)?.unwrap();
    assert_eq!(found.path_tree[2].unwrap().recv.end, 4);
    Ok(())
}

#[test]
fn validate_changes_only_the_path_checked() {
    let mut graph = build_graph(LINE);
    let mut tree = tree_from_a(&mut graph);
    let b = inode(&graph, 1);
    let bundle = make_bundle(0, 100, 5000);
    assert!(tree.validate(RoutableNodeRef::I(b), 10, &bundle, &graph));
    assert_eq!(tree.path_tree[1].unwrap().recv.end, 12);
    assert_eq!(tree.path_tree[2].unwrap().recv.end, 4);
    assert!(tree.path_tree[3].is_none());
}

#[test]
fn contacts_between_two_internal_nodes() {
    let graph = build_graph(
        "node 0 A node 1 B node 2 C
         contact 0 1 0 100 100 1
         contact 0 1 200 300 100 1
         contact 1 2 0 2000 100 1",
    );
    let a = inode(&graph, 0);
    let b = inode(&graph, 1);
    let c = inode(&graph, 2);
    let ab: Vec<usize> = graph.iter_contacts(a, b).iter().map(|r| r.index).collect();
    assert_eq!(ab.len(), 2);
    for idx in &ab {
        assert_eq!(graph.contacts[*idx].lifespan.end - graph.contacts[*idx].lifespan.start, 100);
    }
    assert!(graph.iter_contacts(a, c).is_empty());
    assert_eq!(graph.iter_contacts(b, c).len(), 1);
}
