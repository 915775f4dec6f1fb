use a_sabr_verified::contact::ContactInfo;
use a_sabr_verified::contact_manager::legacy::EVLManager;
use a_sabr_verified::contact_manager::segmentation::{profile_supported, try_init, Segment};
use a_sabr_verified::contact_plan::from_asabr_lexer::parse_asabr;
use a_sabr_verified::multigraph::{Multigraph, NodeRef};
use a_sabr_verified::node_manager::NoManagement;
use a_sabr_verified::types::NodeID;

fn seg<T>(start: i64, end: i64, val: T) -> Segment<T> {
    Segment { start, end, val }
}

#[test]
fn stable_index_of_a_virtual_node_is_its_routing_index() {
    let plan = parse_asabr::<NoManagement, EVLManager>(
        "node 0 A node 1 B
         vnode 2 V [ 0 , 1 ]
         contact 0 1 0 100 10 1",
    )
    .unwrap();
    let graph = Multigraph::new(plan).unwrap();
    let v = match graph.node_id_ref(NodeID(2)).unwrap() {
        NodeRef::V(v) => v,
        _ => panic!(),
    };
    let a = graph.node_id_ref(NodeID(0)).unwrap();
    assert_eq!(graph.into_nodeid(NodeRef::V(v)).0, 2);
    assert!(graph.into_nodeid(NodeRef::V(v)).0 < graph.get_routable_count());
    assert_eq!(graph.into_nodeid(a).0, 0);
    assert_eq!(graph.node_id_of(NodeRef::V(v)).0, 2);
}

#[test]
fn init_accepts_any_contiguous_profile() {
    let info = ContactInfo::new(NodeID(0), NodeID(1), 0, 200);
    let rates = vec![seg(0, 50, 100), seg(50, 200, 0)];
    let delays = vec![seg(0, 200, 4)];
    let mut other: Vec<Segment<()>> = Vec::new();
    assert!(try_init(&rates, &delays, &mut other, (), &info));
    assert_eq!(other.len(), 1);
    assert_eq!((other[0].start, other[0].end), (0, 200));
    // a zero rate is beyond what the managers compute with
    assert!(!profile_supported(&rates, &delays));
}

#[test]
fn init_refuses_gaps_and_a_filled_output() {
    let info = ContactInfo::new(NodeID(0), NodeID(1), 0, 200);
    let delays = vec![seg(0, 200, 4)];
    let mut other: Vec<Segment<()>> = Vec::new();
    assert!(!try_init(&vec![seg(0, 50, 100), seg(60, 200, 50)], &delays, &mut other, (), &info));
    assert!(!try_init(&vec![seg(0, 50, 100)], &delays, &mut other, (), &info));
    assert!(other.is_empty());
    let mut filled = vec![seg(0, 200, ())];
    assert!(!try_init(&vec![seg(0, 200, 100)], &delays, &mut filled, (), &info));
    assert_eq!(filled.len(), 1);
}

#[test]
fn init_refuses_overlapping_segments() {
    let info = ContactInfo::new(NodeID(0), NodeID(1), 0, 20);
    let rates = vec![seg(0, 10, 1), seg(10, 5, 1), seg(5, 20, 1)];
    let delays = vec![seg(0, 20, 1)];
    let mut other: Vec<Segment<()>> = Vec::new();
    assert!(!try_init(&rates, &delays, &mut other, (), &info));
    assert!(other.is_empty());
}
