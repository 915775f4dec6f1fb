use a_sabr_verified::contact_manager::segmentation::pseg::PSegmentationManager;
use a_sabr_verified::contact_manager::segmentation::seg::SegmentationManager;
use a_sabr_verified::contact_plan::from_asabr_lexer::{parse_asabr, ENUMBER};
use a_sabr_verified::contact_plan::segment_lists::{EPSEGMENTS, ESEGMENTS, ETOKEN};
use a_sabr_verified::node_manager::NoManagement;

fn triples(segments: &[a_sabr_verified::contact_manager::segmentation::Segment<i64>]) -> Vec<(i64, i64, i64)> {
    segments.iter().map(|s| (s.start, s.end, s.val)).collect()
}

#[test]
fn segmented_contact_reads_its_rate_and_delay_sections() {
    let plan = parse_asabr::<NoManagement, SegmentationManager>(
        "node 0 A node 1 B
         contact 0 1 0 100 rate [ 0 50 10 , 50 100 20 ] delay [ 0 100 1 ]",
    )
    .unwrap();
    assert_eq!(plan.contacts.len(), 1);
    let manager = &plan.contacts[0].0.manager;
    assert_eq!(triples(&manager.rate_intervals), vec![(0, 50, 10), (50, 100, 20)]);
    assert_eq!(triples(&manager.delay_intervals), vec![(0, 100, 1)]);
    assert_eq!(manager.free_windows(), vec![(0, 100)]);
}

#[test]
fn segmented_sections_come_in_either_order_and_may_end_with_a_comma() {
    let plan = parse_asabr::<NoManagement, PSegmentationManager>(
        "node 0 A node 1 B
         contact 0 1 0 100 delay [ 0 100 3 , ] rate [ 0 100 10 ]",
    )
    .unwrap();
    let manager = &plan.contacts[0].0.manager;
    assert_eq!(triples(&manager.rate_intervals), vec![(0, 100, 10)]);
    assert_eq!(triples(&manager.delay_intervals), vec![(0, 100, 3)]);
}

#[test]
fn segmented_sections_of_the_same_kind_are_refused() {
    let text = "node 0 A node 1 B
                contact 0 1 0 100 rate [ 0 100 10 ] rate [ 0 100 1 ]";
    let err = parse_asabr::<NoManagement, SegmentationManager>(text).err().unwrap();
    assert_eq!(err.data, ESEGMENTS);
    let err = parse_asabr::<NoManagement, PSegmentationManager>(text).err().unwrap();
    assert_eq!(err.data, EPSEGMENTS);
}

#[test]
fn segmented_section_keyword_and_numbers_are_checked() {
    let err = parse_asabr::<NoManagement, SegmentationManager>(
        "node 0 A node 1 B
         contact 0 1 0 100 speed [ 0 100 10 ] delay [ 0 100 1 ]",
    )
    .err()
    .unwrap();
    assert_eq!(err.data, ETOKEN);
    let err = parse_asabr::<NoManagement, SegmentationManager>(
        "node 0 A node 1 B
         contact 0 1 0 100 rate [ 0 100 ] delay [ 0 100 1 ]",
    )
    .err()
    .unwrap();
    assert_eq!(err.data, ENUMBER);
}
