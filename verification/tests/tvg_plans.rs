use a_sabr_verified::contact_manager::legacy::EVLManager;
use a_sabr_verified::contact_manager::segmentation::seg::SegmentationManager;
use a_sabr_verified::contact_manager::ContactManager;
use a_sabr_verified::contact_plan::from_tvgutil_file::{
    FromTVGUtilContactData, TVGUtilContactData, TVGUtilContactNumbers, TVGUtilContactPlan, TVGUtilEdge,
    TVGUtilJson, ENO_EDGES, ENO_VERTICES,
};
use a_sabr_verified::contact_plan::RealNode;
use a_sabr_verified::errors::ASABRError;
use a_sabr_verified::types::{Bundle, NodeID, TimeInterval};

fn numbers(start: i64, end: i64, data_rate: i64, delay: i64) -> TVGUtilContactNumbers {
    TVGUtilContactNumbers { start, end, data_rate, delay }
}

fn edge(tx: &str, rx: &str, contacts: Vec<TVGUtilContactNumbers>) -> TVGUtilEdge {
    TVGUtilEdge { tx_name: tx.to_string(), rx_name: rx.to_string(), contacts }
}

fn plan_json(edges: Vec<TVGUtilEdge>) -> TVGUtilJson {
    TVGUtilJson { vertices: Some(vec!["a".to_string(), "b".to_string(), "c".to_string()]), edges: Some(edges) }
}

#[test]
fn tvg_vertices_become_internal_nodes_in_order() {
    let json = plan_json(vec![
        edge("a", "b", vec![numbers(0, 100, 10, 1), numbers(200, 300, 20, 2)]),
        edge("c", "a", vec![numbers(5, 50, 1, 0)]),
    ]);
    let plan = TVGUtilContactPlan::parse::<EVLManager>(&json).unwrap();
    assert_eq!(plan.realnodes.len(), 3);
    for (k, expected) in ["a", "b", "c"].iter().enumerate() {
        match &plan.realnodes[k] {
            RealNode::Inode(n) => {
                assert_eq!(n.info.id, NodeID(k));
                assert_eq!(n.info.name.name, expected.to_string());
                assert!(!n.info.excluded);
            }
            RealNode::Enode(_) => panic!("TVG-util vertices are internal nodes"),
        }
    }
    assert!(plan.vnodes.is_empty());
    assert_eq!(plan.contacts.len(), 3);
    let ends: Vec<(usize, usize, TimeInterval)> =
        plan.contacts.iter().map(|(c, tx, rx)| (*tx, *rx, c.lifespan)).collect();
    assert_eq!(
        ends,
        vec![
            (0, 1, TimeInterval { start: 0, end: 100 }),
            (0, 1, TimeInterval { start: 200, end: 300 }),
            (2, 0, TimeInterval { start: 5, end: 50 }),
        ]
    );
    let (c0, _, _) = &plan.contacts[0];
    let bundle = Bundle { source: NodeID(0), priority: 0, size: 50, expiration: 1000 };
    let tx = c0.manager.dry_run_tx(c0.lifespan, 10, &bundle).unwrap();
    assert_eq!(tx.tx_window, TimeInterval { start: 10, end: 15 });
    assert_eq!(tx.rx_window, TimeInterval { start: 11, end: 16 });
}

#[test]
fn tvg_plan_without_vertices_or_edges_is_refused() {
    let no_vertices = TVGUtilJson { vertices: None, edges: Some(vec![]) };
    assert!(matches!(
        TVGUtilContactPlan::parse::<EVLManager>(&no_vertices),
        Err(ASABRError::ContactPlanError(m)) if m == ENO_VERTICES
    ));
    let no_edges = TVGUtilJson { vertices: Some(vec!["a".to_string()]), edges: None };
    assert!(matches!(
        TVGUtilContactPlan::parse::<EVLManager>(&no_edges),
        Err(ASABRError::ContactPlanError(m)) if m == ENO_EDGES
    ));
}

#[test]
fn tvg_plan_with_unknown_vertex_or_empty_contact_cannot_be_read() {
    let unknown = plan_json(vec![edge("a", "z", vec![numbers(0, 100, 10, 1)])]);
    assert!(TVGUtilContactPlan::try_parse::<EVLManager>(&unknown).is_none());
    let empty_window = plan_json(vec![edge("a", "b", vec![numbers(100, 100, 10, 1)])]);
    assert!(TVGUtilContactPlan::try_parse::<EVLManager>(&empty_window).is_none());
    let fine = plan_json(vec![edge("b", "c", vec![numbers(0, 10, 10, 1)])]);
    assert!(matches!(TVGUtilContactPlan::try_parse::<EVLManager>(&fine), Some(Ok(_))));
}

#[test]
fn tvg_segmentation_contacts_have_one_segment() {
    let data = TVGUtilContactData {
        tx_start: 0,
        tx_end: 100,
        tx_node_id: NodeID(0),
        rx_node_id: NodeID(1),
        delay: 3,
        data_rate: 10,
    };
    let (contact, tx, rx) = SegmentationManager::tvg_convert(data).unwrap();
    assert_eq!((tx, rx), (0, 1));
    let bundle = Bundle { source: NodeID(0), priority: 0, size: 20, expiration: 1000 };
    let out = contact.manager.dry_run_tx(contact.lifespan, 0, &bundle).unwrap();
    assert_eq!(out.tx_window, TimeInterval { start: 0, end: 2 });
    assert_eq!(out.rx_window, TimeInterval { start: 3, end: 5 });
}
