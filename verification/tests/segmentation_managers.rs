use a_sabr_verified::contact::ContactInfo;
use a_sabr_verified::contact_manager::segmentation::pseg::PSegmentationManager;
use a_sabr_verified::contact_manager::segmentation::seg::SegmentationManager;
use a_sabr_verified::contact_manager::segmentation::Segment;
use a_sabr_verified::contact_manager::ContactManager;
use a_sabr_verified::types::{Bundle, DataRate, Date, Duration, NodeID, Priority, TimeInterval};

#[derive(Debug, PartialEq, Clone)]
enum InputSeg {
    Delay(Date, Date, Duration),
    Rate(Date, Date, DataRate),
    Booking(Date, Date, Priority),
}

#[derive(Debug, PartialEq, Clone)]
enum OutputSeg {
    Free(Date, Date),
    Booking(Date, Date, Priority),
}

fn bundle(priority: i8, size: i64) -> Bundle {
    Bundle { source: NodeID(0), priority, size, expiration: 1000 }
}

fn split(input: Vec<InputSeg>) -> (Vec<Segment<DataRate>>, Vec<Segment<Duration>>, Vec<Segment<Priority>>) {
    let mut delay_segments: Vec<Segment<Duration>> = Vec::new();
    let mut rate_segments: Vec<Segment<DataRate>> = Vec::new();
    let mut bookings: Vec<Segment<Priority>> = Vec::new();
    for seg in input {
        match seg {
            InputSeg::Delay(start, end, val) => delay_segments.push(Segment { start, end, val }),
            InputSeg::Rate(start, end, val) => rate_segments.push(Segment { start, end, val }),
            InputSeg::Booking(start, end, val) => bookings.push(Segment { start, end, val }),
        }
    }
    (rate_segments, delay_segments, bookings)
}

fn start_seg_test(
    contact_start: Date,
    contact_end: Date,
    input: Vec<InputSeg>,
    output: Vec<OutputSeg>,
    requests: Vec<(Bundle, i64, bool)>,
) {
    let contact_info = ContactInfo::new(NodeID(0), NodeID(1), contact_start, contact_end);
    let (rates, delays, _) = split(input);
    let mut manager = SegmentationManager::new(rates, delays);
    assert!(manager.try_init(&contact_info));
    let lifespan = TimeInterval { start: contact_start, end: contact_end };
    for (i, (bundle, at_time, expect_success)) in requests.iter().enumerate() {
        let dry_run_res = manager.dry_run_tx(lifespan, *at_time, bundle);
        assert_eq!(
            dry_run_res.is_some(),
            *expect_success,
            "TEST N°{} FAILED: expected {} but got {}.",
            i,
            expect_success,
            dry_run_res.is_some()
        );
        if let Some(tx) = dry_run_res {
            assert!(manager.schedule_tx(lifespan, tx, bundle).is_ok(), "TEST N°{i} FAILED: schedule_tx failed unexpectedly.");
        }
    }
    let actual_output: Vec<OutputSeg> =
        manager.free_intervals.iter().map(|seg| OutputSeg::Free(seg.start, seg.end)).collect();
    assert_eq!(actual_output, output, "TEST FAILED: actual free intervals do not match expected output.");
}

fn start_pseg_test(input: Vec<InputSeg>, output: Vec<OutputSeg>, requests: Vec<(Bundle, i64, bool)>) {
    let contact_info = ContactInfo::new(NodeID(0), NodeID(1), 0, 200);
    let (rates, delays, initial_bookings) = split(input);
    let mut manager = PSegmentationManager::new(rates, delays);
    assert!(manager.try_init(&contact_info));
    if !initial_bookings.is_empty() {
        manager.set_bookings(initial_bookings);
    }
    let lifespan = TimeInterval { start: 0, end: 200 };
    for (i, (bundle, at_time, expect_success)) in requests.iter().enumerate() {
        let dry_run_res = manager.dry_run_tx(lifespan, *at_time, bundle);
        if let Some(tx_data) = &dry_run_res {
            assert!(manager.schedule_tx(lifespan, *tx_data, bundle).is_ok());
        }
        assert_eq!(
            dry_run_res.is_some(),
            *expect_success,
            "TEST N°{i} FAILED: expected: {expect_success} actual: {}",
            dry_run_res.is_some()
        );
    }
    let actual_output: Vec<OutputSeg> =
        manager.bookings().into_iter().map(|(s, e, p)| OutputSeg::Booking(s, e, p)).collect();
    assert_eq!(actual_output, output, "TEST FAILED: Actual output is not the one expected.");
}

#[test]
fn test_single_bundle_insertions() {
    let input = vec![InputSeg::Delay(0, 200, 4), InputSeg::Rate(0, 200, 100)];
    start_seg_test(0, 200, input.clone(), vec![OutputSeg::Free(1, 200)], vec![(bundle(1, 100), 0, true)]);
    start_seg_test(
        0,
        200,
        input.clone(),
        vec![OutputSeg::Free(0, 80), OutputSeg::Free(120, 200)],
        vec![(bundle(1, 4000), 80, true)],
    );
    start_seg_test(
        0,
        200,
        input.clone(),
        vec![OutputSeg::Free(0, 150), OutputSeg::Free(200, 200)],
        vec![(bundle(2, 5000), 150, true)],
    );
    start_seg_test(0, 200, input, vec![OutputSeg::Free(0, 200)], vec![(bundle(1, 50_000), 0, false)]);
}

#[test]
fn test_multiple_insertions_on_same_contact() {
    let input = vec![InputSeg::Delay(0, 200, 4), InputSeg::Rate(0, 200, 100)];
    let requests = vec![(bundle(1, 1000), 0, true), (bundle(1, 500), 10, true), (bundle(1, 1000), 15, true)];
    start_seg_test(0, 200, input, vec![OutputSeg::Free(25, 200)], requests);
}

#[test]
fn test_variable_rate_segments() {
    let input = vec![InputSeg::Delay(0, 200, 4), InputSeg::Rate(0, 50, 100), InputSeg::Rate(50, 200, 50)];
    start_seg_test(0, 200, input, vec![OutputSeg::Free(100, 200)], vec![(bundle(1, 7500), 0, true)]);
}

#[test]
fn test_start_time_handling() {
    let input = vec![InputSeg::Delay(5, 15, 1), InputSeg::Rate(5, 15, 2)];
    start_seg_test(5, 15, input, vec![OutputSeg::Free(7, 15)], vec![(bundle(1, 4), 0, true)]);
}

#[test]
fn test_single_bundle_insertion() {
    let input = vec![InputSeg::Delay(0, 200, 4), InputSeg::Rate(0, 200, 100)];
    start_pseg_test(
        input.clone(),
        vec![OutputSeg::Booking(0, 1, 1), OutputSeg::Booking(1, 200, -1)],
        vec![(bundle(1, 100), 0, true)],
    );
    start_pseg_test(
        input.clone(),
        vec![OutputSeg::Booking(0, 80, -1), OutputSeg::Booking(80, 120, 1), OutputSeg::Booking(120, 200, -1)],
        vec![(bundle(1, 4000), 80, true)],
    );
    start_pseg_test(
        input.clone(),
        vec![OutputSeg::Booking(0, 150, -1), OutputSeg::Booking(150, 200, 2)],
        vec![(bundle(2, 5000), 150, true)],
    );
    start_pseg_test(input, vec![OutputSeg::Booking(0, 200, -1)], vec![(bundle(1, 50_000), 0, false)]);
}

#[test]
fn test_bundles_priorities() {
    let input = vec![InputSeg::Delay(0, 200, 4), InputSeg::Rate(0, 200, 100)];
    let requests = vec![(bundle(1, 10000), 0, true), (bundle(2, 100), 50, true), (bundle(0, 1000), 50, true)];
    let output = vec![
        OutputSeg::Booking(0, 50, 1),
        OutputSeg::Booking(50, 51, 2),
        OutputSeg::Booking(51, 100, 1),
        OutputSeg::Booking(100, 110, 0),
        OutputSeg::Booking(110, 200, -1),
    ];
    start_pseg_test(input, output, requests);
}

#[test]
fn test_overlapping_multiple_segments() {
    let input = vec![InputSeg::Delay(0, 200, 4), InputSeg::Rate(0, 50, 100), InputSeg::Rate(50, 200, 50)];
    let output = vec![OutputSeg::Booking(0, 100, 1), OutputSeg::Booking(100, 200, -1)];
    start_pseg_test(input, output, vec![(bundle(1, 7500), 0, true)]);
}

#[test]
fn test_preemption_across_multiple_segments() {
    let input = vec![InputSeg::Delay(0, 200, 4), InputSeg::Rate(0, 200, 100)];
    let requests = vec![(bundle(1, 1000), 10, true), (bundle(2, 3000), 0, true)];
    let output = vec![
        OutputSeg::Booking(0, 10, 2),
        OutputSeg::Booking(10, 20, 2),
        OutputSeg::Booking(20, 30, 2),
        OutputSeg::Booking(30, 200, -1),
    ];
    start_pseg_test(input, output, requests);
}

#[test]
fn test_existing_booking() {
    let input = vec![
        InputSeg::Delay(0, 200, 4),
        InputSeg::Rate(0, 200, 100),
        InputSeg::Booking(0, 50, -1),
        InputSeg::Booking(50, 100, 1),
        InputSeg::Booking(100, 200, -1),
    ];
    let output = vec![
        OutputSeg::Booking(0, 50, -1),
        OutputSeg::Booking(50, 60, 1),
        OutputSeg::Booking(60, 70, 2),
        OutputSeg::Booking(70, 100, 1),
        OutputSeg::Booking(100, 200, -1),
    ];
    start_pseg_test(input, output, vec![(bundle(2, 1000), 60, true)]);

    let input = vec![
        InputSeg::Delay(0, 200, 4),
        InputSeg::Rate(0, 200, 100),
        InputSeg::Booking(0, 20, 1),
        InputSeg::Booking(20, 80, -1),
        InputSeg::Booking(80, 100, 1),
        InputSeg::Booking(100, 200, -1),
    ];
    let output = vec![
        OutputSeg::Booking(0, 20, 1),
        OutputSeg::Booking(20, 50, 0),
        OutputSeg::Booking(50, 80, -1),
        OutputSeg::Booking(80, 100, 1),
        OutputSeg::Booking(100, 200, -1),
    ];
    start_pseg_test(input, output, vec![(bundle(0, 3000), 10, true)]);
}

#[test]
fn segmented_tx_windows_and_delays() {
    let (rates, delays, _) = split(vec![InputSeg::Delay(0, 200, 4), InputSeg::Rate(0, 200, 100)]);
    let mut manager = SegmentationManager::new(rates, delays);
    assert!(manager.try_init(&ContactInfo::new(NodeID(0), NodeID(1), 0, 200)));
    assert_eq!(manager.get_original_volume(), 20000);
    let tx = manager.dry_run_tx(TimeInterval { start: 0, end: 200 }, 10, &bundle(0, 1000)).unwrap();
    assert_eq!(tx.tx_window, TimeInterval { start: 10, end: 20 });
    assert_eq!(tx.rx_window, TimeInterval { start: 14, end: 24 });
    assert!(!manager.manual_enqueue(&bundle(0, 1)));
    assert!(!manager.manual_dequeue(&bundle(0, 1)));
}

#[test]
fn segmented_try_init_refuses_gaps() {
    let (rates, delays, _) =
        split(vec![InputSeg::Delay(0, 200, 4), InputSeg::Rate(0, 50, 100), InputSeg::Rate(60, 200, 100)]);
    let mut manager = SegmentationManager::new(rates.clone(), delays.clone());
    assert!(!manager.try_init(&ContactInfo::new(NodeID(0), NodeID(1), 0, 200)));
    let mut pmanager = PSegmentationManager::new(rates, delays);
    assert!(!pmanager.try_init(&ContactInfo::new(NodeID(0), NodeID(1), 0, 200)));
}

#[test]
fn pseg_original_volume_and_lower_priority_waits() {
    let (rates, delays, _) = split(vec![InputSeg::Delay(0, 200, 4), InputSeg::Rate(0, 200, 100)]);
    let mut manager = PSegmentationManager::new(rates, delays);
    assert!(manager.try_init(&ContactInfo::new(NodeID(0), NodeID(1), 0, 200)));
    assert_eq!(manager.get_original_volume(), 20000);
    let lifespan = TimeInterval { start: 0, end: 200 };
    let tx = manager.dry_run_tx(lifespan, 0, &bundle(2, 1000)).unwrap();
    manager.schedule_tx(lifespan, tx, &bundle(2, 1000)).unwrap();
    let low = manager.dry_run_tx(lifespan, 0, &bundle(1, 500)).unwrap();
    assert_eq!(low.tx_window, TimeInterval { start: 10, end: 15 });
    assert_eq!(low.rx_window, TimeInterval { start: 14, end: 19 });
}
