use a_sabr_verified::contact_manager::legacy::EVLManager;
use a_sabr_verified::contact_manager::segmentation::seg::SegmentationManager;
use a_sabr_verified::contact_manager::ContactManager;
use a_sabr_verified::contact_plan::from_ion_file::{IONContactPlan, EMANY_RANGES, ENO_RANGE};
use a_sabr_verified::contact_plan::RealNode;
use a_sabr_verified::errors::ASABRError;
use a_sabr_verified::types::{Bundle, NodeID, TimeInterval};

const PLAN: &str = "# An ION contact plan
a contact +0 +100 n1 n2 1000
a contact 0 50 n2 n3 100 0.9
a range 0 100 n1 n2 1
a range 0 100 n2 n3 2
m capacity whatever
";

fn bundle(size: i64) -> Bundle {
    Bundle { source: NodeID(0), priority: 0, size, expiration: 1000 }
}

#[test]
fn ion_plan_nodes_are_numbered_by_first_appearance() {
    let plan = IONContactPlan::parse::<EVLManager>(PLAN).unwrap();
    assert_eq!(plan.realnodes.len(), 3);
    for (k, expected) in ["n1", "n2", "n3"].iter().enumerate() {
        match &plan.realnodes[k] {
            RealNode::Inode(n) => {
                assert_eq!(n.info.id, NodeID(k));
                assert_eq!(n.info.name.name, expected.to_string());
                assert!(!n.info.excluded);
            }
            RealNode::Enode(_) => panic!("ION nodes are internal"),
        }
    }
    assert!(plan.vnodes.is_empty());
}

#[test]
fn ion_contacts_take_the_delay_of_their_range() {
    let plan = IONContactPlan::parse::<EVLManager>(PLAN).unwrap();
    assert_eq!(plan.contacts.len(), 2);
    let (c0, tx0, rx0) = &plan.contacts[0];
    assert_eq!((*tx0, *rx0), (0, 1));
    assert_eq!(c0.lifespan, TimeInterval { start: 0, end: 100 });
    let tx = c0.manager.dry_run_tx(c0.lifespan, 10, &bundle(2000)).unwrap();
    assert_eq!(tx.tx_window, TimeInterval { start: 10, end: 12 });
    assert_eq!(tx.rx_window, TimeInterval { start: 11, end: 13 });
    let (c1, tx1, rx1) = &plan.contacts[1];
    assert_eq!((*tx1, *rx1), (1, 2));
    assert_eq!(c1.lifespan, TimeInterval { start: 0, end: 50 });
    let tx = c1.manager.dry_run_tx(c1.lifespan, 0, &bundle(100)).unwrap();
    assert_eq!(tx.rx_window, TimeInterval { start: 2, end: 3 });
}

#[test]
fn ion_contacts_of_a_pair_come_ordered_by_start() {
    let text = "a contact 50 60 A B 10
a contact 10 20 A B 10
a range 0 100 A B 3";
    let plan = IONContactPlan::parse::<EVLManager>(text).unwrap();
    assert_eq!(plan.contacts.len(), 2);
    assert_eq!(plan.contacts[0].0.lifespan, TimeInterval { start: 10, end: 20 });
    assert_eq!(plan.contacts[1].0.lifespan, TimeInterval { start: 50, end: 60 });
}

#[test]
fn ion_contact_outside_its_range_is_refused() {
    let text = "a contact 0 200 A B 10
a range 0 100 A B 3";
    let r = IONContactPlan::parse::<EVLManager>(text);
    assert!(matches!(r, Err(ASABRError::ContactPlanError(m)) if m == EMANY_RANGES));
}

#[test]
fn ion_contact_without_range_is_refused() {
    let text = "a contact 0 100 A B 10
a contact 0 100 B C 10
a range 0 100 A B 3";
    let r = IONContactPlan::parse::<EVLManager>(text);
    assert!(matches!(r, Err(ASABRError::ContactPlanError(m)) if m == ENO_RANGE));
}

#[test]
fn ion_unreadable_lines_are_reported() {
    assert!(IONContactPlan::try_parse::<EVLManager>("a").is_none());
    assert!(IONContactPlan::try_parse::<EVLManager>("a contact 0 100 A B").is_none());
    assert!(IONContactPlan::try_parse::<EVLManager>("a contact 0 1x0 A B 10\na range 0 100 A B 1").is_none());
    assert!(IONContactPlan::try_parse::<EVLManager>("a contact 100 0 A B 10\na range 0 100 A B 1").is_none());
    assert!(IONContactPlan::try_parse::<EVLManager>("a rate 0 100 A B 10").is_some());
    assert!(IONContactPlan::try_parse::<EVLManager>("").is_some());
}

#[test]
fn ion_plan_for_segmented_contacts() {
    let plan = IONContactPlan::parse::<SegmentationManager>(PLAN).unwrap();
    assert_eq!(plan.contacts.len(), 2);
    let c0 = &plan.contacts[0].0;
    assert_eq!(c0.manager.free_windows(), vec![(0, 100)]);
    assert_eq!(c0.manager.get_original_volume(), 100_000);
}
