use a_sabr_verified::contact::ContactInfo;
use a_sabr_verified::contact_manager::legacy::{
    EVLManager, ETOManager, PBEVLManager, PBQDManager, PEVLManager, PQDManager, QDManager,
};
use a_sabr_verified::contact_manager::ContactManager;
use a_sabr_verified::types::{Bundle, DataRate, Date, Duration, NodeID, TimeInterval, Volume};

const RATE: DataRate = 1000;
const DELAY: Duration = 1;
const C_START: Date = 0;
const C_END: Date = 10;
const TOTAL_VOL: Volume = 10000;
const BUDGET_P0: Volume = 2000;
const BUDGET_P1: Volume = 5000;
const BUDGET_P2: Volume = TOTAL_VOL;

fn make_contact_info(start: Date, end: Date) -> ContactInfo {
    ContactInfo::new(NodeID(0), NodeID(1), start, end)
}

fn make_bundle(size: Volume, priority: i8) -> Bundle {
    Bundle { source: NodeID(0), priority, size, expiration: 99999 }
}

fn bp0(size: Volume) -> Bundle {
    make_bundle(size, 0)
}
fn bp1(size: Volume) -> Bundle {
    make_bundle(size, 1)
}
fn bp2(size: Volume) -> Bundle {
    make_bundle(size, 2)
}

fn lifespan() -> TimeInterval {
    TimeInterval { start: C_START, end: C_END }
}

fn eto() -> ETOManager {
    let mut manager = ETOManager::new(RATE, DELAY);
    assert!(manager.try_init(&make_contact_info(C_START, C_END)));
    manager
}

fn evl() -> EVLManager {
    let mut manager = EVLManager::new(RATE, DELAY);
    assert!(manager.try_init(&make_contact_info(C_START, C_END)));
    manager
}

fn pevl() -> PEVLManager {
    let mut manager = PEVLManager::new(RATE, DELAY);
    assert!(manager.try_init(&make_contact_info(C_START, C_END)));
    manager
}

fn pbevl() -> PBEVLManager {
    let mut manager = PBEVLManager::new(RATE, DELAY, [BUDGET_P0, BUDGET_P1, BUDGET_P2]);
    assert!(manager.try_init(&make_contact_info(C_START, C_END)));
    manager
}

fn qd() -> QDManager {
    let mut manager = QDManager::new(RATE, DELAY);
    assert!(manager.try_init(&make_contact_info(C_START, C_END)));
    manager
}

fn pqd() -> PQDManager {
    let mut manager = PQDManager::new(RATE, DELAY);
    assert!(manager.try_init(&make_contact_info(C_START, C_END)));
    manager
}

fn pbqd() -> PBQDManager {
    let mut manager = PBQDManager::new(RATE, DELAY, [BUDGET_P0, BUDGET_P1, BUDGET_P2]);
    assert!(manager.try_init(&make_contact_info(C_START, C_END)));
    manager
}

/// Dry-runs then schedules; tells whether the transmission was possible.
fn book<CM: ContactManager>(manager: &mut CM, at_time: Date, bundle: &Bundle) -> bool {
    match manager.dry_run_tx(lifespan(), at_time, bundle) {
        Some(tx) => manager.schedule_tx(lifespan(), tx, bundle).is_ok(),
        None => false,
    }
}

#[test]
fn schedule_tx_does_not_consume_volume() {
    let mut manager = eto();
    let ti = lifespan();
    for i in 0..20 {
        let tx = manager.dry_run_tx(ti, C_START, &bp0(1000)).unwrap();
        assert!(
            manager.schedule_tx(ti, tx, &bp0(1000)).is_ok(),
            "TEST FAILED: ETO schedule_tx should never saturate (call {}).",
            i + 1
        );
    }
}

#[test]
fn schedule_tx_always_returns_same_result() {
    let mut manager = eto();
    let ti = lifespan();
    let bundle = bp0(1000);
    let first = manager.dry_run_tx(ti, C_START, &bundle);
    let _ = manager.schedule_tx(ti, first.unwrap(), &bundle);
    let second = manager.dry_run_tx(ti, C_START, &bundle);
    assert_eq!(
        first, second,
        "TEST FAILED: ETO schedule_tx should return identical results since queue is never updated."
    );
}

#[test]
fn manual_enqueue_shifts_tx_start_from_at_time() {
    let mut manager = eto();
    let ti = lifespan();
    manager.manual_enqueue(&bp0(2000));
    let data = manager.dry_run_tx(ti, 3, &bp0(100)).unwrap();
    assert_eq!(data.tx_window.start, 5, "TEST FAILED: tx_start should be at_time + queue/rate for ETO.");
}

#[test]
fn manual_enqueue_shift_can_push_past_contact_end() {
    let mut manager = eto();
    let ti = lifespan();
    manager.manual_enqueue(&bp0(9900));
    assert!(
        manager.dry_run_tx(ti, C_START, &bp0(200)).is_none(),
        "TEST FAILED: Bundle should not fit when manual queue shift pushes tx_end past contact end."
    );
}

#[test]
fn tx_start_unaffected_by_queue_occupancy() {
    let mut manager = evl();
    let ti = lifespan();
    let before = manager.dry_run_tx(ti, C_START, &bp0(1000)).unwrap();
    for _ in 0..3 {
        let tx_data = manager.dry_run_tx(ti, C_START, &bp0(1000)).unwrap();
        manager.schedule_tx(ti, tx_data, &bp0(1000)).unwrap();
    }
    let after = manager.dry_run_tx(ti, C_START, &bp0(1000)).unwrap();
    assert_eq!(
        before.tx_window.start, after.tx_window.start,
        "TEST FAILED: EVL tx_start should not be affected by queue occupancy."
    );
}

#[test]
fn queue_delay_shifts_tx_start_from_contact_start() {
    let mut manager = qd();
    let ti = lifespan();
    let tx_data = manager.dry_run_tx(ti, C_START, &bp0(2000)).unwrap();
    manager.schedule_tx(ti, tx_data, &bp0(2000)).unwrap();
    let data = manager.dry_run_tx(ti, C_START, &bp0(100)).unwrap();
    assert_eq!(
        data.tx_window.start, 2,
        "TEST FAILED: tx_start should be shifted by queue delay from contact start."
    );
}

#[test]
fn late_arriving_bundle_ignores_queue_shift() {
    let mut manager = qd();
    let ti = lifespan();
    let tx_data = manager.dry_run_tx(ti, C_START, &bp0(2000)).unwrap();
    manager.schedule_tx(ti, tx_data, &bp0(2000)).unwrap();
    let data = manager.dry_run_tx(ti, 5, &bp0(100)).unwrap();
    assert_eq!(
        data.tx_window.start, 5,
        "TEST FAILED: tx_start should be at_time when it arrives after the queue shift."
    );
}

#[test]
fn queue_shift_can_push_bundle_past_contact_end() {
    let mut manager = qd();
    let ti = lifespan();
    let tx_data = manager.dry_run_tx(ti, C_START, &bp0(9900)).unwrap();
    manager.schedule_tx(ti, tx_data, &bp0(9900)).unwrap();
    assert!(
        manager.dry_run_tx(ti, C_START, &bp0(200)).is_none(),
        "TEST FAILED: Bundle should not fit when queue shift pushes tx_end past contact end."
    );
}

// Behaviour shared by every legacy manager.

fn check_common<CM: ContactManager>(fresh: fn() -> CM, blank: fn() -> CM) {
    // A contact of zero duration carries nothing.
    let mut manager = blank();
    let contact = make_contact_info(5, 5);
    manager.try_init(&contact);
    assert!(manager.dry_run_tx(TimeInterval { start: 5, end: 5 }, 5, &bp0(1)).is_none());

    let manager = fresh();
    let ti = lifespan();
    // Volume boundary.
    assert!(manager.dry_run_tx(ti, C_START, &bp0(TOTAL_VOL)).is_some());
    assert!(manager.dry_run_tx(ti, C_START, &bp0(TOTAL_VOL + 1)).is_none());
    // Timing boundaries.
    assert!(manager.dry_run_tx(ti, C_END + 1, &bp0(1)).is_none());
    assert!(manager.dry_run_tx(ti, C_END - 1, &bp0(6000)).is_none());
    // Dry runs are repeatable.
    assert_eq!(manager.dry_run_tx(ti, C_START, &bp0(100)), manager.dry_run_tx(ti, C_START, &bp0(100)));
    // The reception window is the transmission window shifted by the delay.
    let data = manager.dry_run_tx(ti, C_START, &bp0(100)).unwrap();
    assert_eq!(data.tx_window, TimeInterval { start: 0, end: 0 });
    assert_eq!(data.rx_window.start, data.tx_window.start + DELAY);
    assert_eq!(data.rx_window.end, data.tx_window.end + DELAY);
    // A single-priority manager ignores the priority.
    assert_eq!(manager.dry_run_tx(ti, C_START, &bp0(100)), manager.dry_run_tx(ti, C_START, &bp1(100)));
    assert_eq!(manager.dry_run_tx(ti, C_START, &bp0(100)), manager.dry_run_tx(ti, C_START, &bp2(100)));
    assert_eq!(manager.get_original_volume(), TOTAL_VOL as i128);
}

#[test]
fn common_behaviour_eto() {
    check_common(eto, || ETOManager::new(RATE, DELAY));
}

#[test]
fn common_behaviour_evl() {
    check_common(evl, || EVLManager::new(RATE, DELAY));
}

#[test]
fn common_behaviour_qd() {
    check_common(qd, || QDManager::new(RATE, DELAY));
}

#[test]
fn tx_window_of_a_large_bundle_spans_its_volume() {
    let manager = evl();
    let data = manager.dry_run_tx(lifespan(), 2, &bp0(3000)).unwrap();
    assert_eq!(data.tx_window, TimeInterval { start: 2, end: 5 });
    assert_eq!(data.rx_window, TimeInterval { start: 3, end: 6 });
}

fn check_saturation<CM: ContactManager>(fresh: fn() -> CM) {
    let mut manager = fresh();
    for i in 0..10 {
        assert!(book(&mut manager, C_START, &bp0(1000)), "schedule {} of 10", i + 1);
    }
    assert!(manager.dry_run_tx(lifespan(), C_START, &bp0(1)).is_none());
}

#[test]
fn schedule_tx_saturation_evl() {
    check_saturation(evl);
}

#[test]
fn schedule_tx_saturation_qd() {
    check_saturation(qd);
}

fn check_priority_cascade<CM: ContactManager>(fresh: fn() -> CM) {
    let ti = lifespan();
    let mut manager = fresh();
    assert!(book(&mut manager, C_START, &bp2(5000)));
    assert!(manager.dry_run_tx(ti, C_START, &bp0(5000)).is_some());
    assert!(manager.dry_run_tx(ti, C_START, &bp0(5001)).is_none());
    assert!(manager.dry_run_tx(ti, C_START, &bp2(TOTAL_VOL - 5000)).is_some());

    let mut manager = fresh();
    assert!(book(&mut manager, C_START, &bp1(5000)));
    assert!(manager.dry_run_tx(ti, C_START, &bp0(5001)).is_none());
    assert!(manager.dry_run_tx(ti, C_START, &bp2(TOTAL_VOL)).is_some());
}

#[test]
fn priority_cascade_pevl() {
    check_priority_cascade(pevl);
}

#[test]
fn priority_cascade_pqd() {
    check_priority_cascade(pqd);
}

fn check_budgets<CM: ContactManager>(fresh: fn() -> CM) {
    let ti = lifespan();
    let manager = fresh();
    assert!(manager.dry_run_tx(ti, C_START, &bp0(BUDGET_P0)).is_some());
    assert!(manager.dry_run_tx(ti, C_START, &bp0(BUDGET_P0 + 1)).is_none());
    assert!(manager.dry_run_tx(ti, C_START, &bp1(BUDGET_P1)).is_some());
    assert!(manager.dry_run_tx(ti, C_START, &bp1(BUDGET_P1 + 1)).is_none());

    let mut manager = fresh();
    assert!(book(&mut manager, C_START, &bp0(BUDGET_P0)));
    assert!(manager.dry_run_tx(ti, C_START, &bp0(1)).is_none());
    assert!(manager.dry_run_tx(ti, C_START, &bp2(100)).is_some());
    assert!(manager.dry_run_tx(ti, C_START, &bp1(1)).is_some());
}

#[test]
fn budgets_pbevl() {
    check_budgets(pbevl);
}

#[test]
fn budgets_pbqd() {
    check_budgets(pbqd);
}

#[test]
fn manual_queueing_is_refused_by_auto_updated_managers() {
    let mut manager = evl();
    assert!(!manager.manual_enqueue(&bp0(100)));
    assert!(!manager.manual_dequeue(&bp0(100)));
    let mut manager = eto();
    assert!(manager.manual_enqueue(&bp0(100)));
    assert!(manager.manual_dequeue(&bp0(100)));
    assert_eq!(manager.dry_run_tx(lifespan(), 3, &bp0(100)).unwrap().tx_window.start, 3);
}
