use a_sabr_verified::errors::ASABRError;
use a_sabr_verified::node_manager::{NoManagement, NodeManager};
use a_sabr_verified::parsing::Located;
use a_sabr_verified::types::{Bundle, NodeID, TimeInterval};

#[test]
fn interval_text_shows_both_bounds() {
    let t = TimeInterval { start: -5, end: 120 };
    assert_eq!(t.describe(), "[-5, 120]");
    let z = TimeInterval { start: 0, end: 0 };
    assert_eq!(z.describe(), "[0, 0]");
}

#[test]
fn error_texts_name_the_error() {
    assert_eq!(ASABRError::DryRunError("no room").describe(), "DryRunError in A-SABR: no room");
    assert_eq!(ASABRError::BorrowMutError("busy").describe(), "BorrowMutError in A-SABR: busy");
    assert_eq!(ASABRError::ScheduleError("late").describe(), "ScheduleError in A-SABR: late");
    assert_eq!(ASABRError::ContactPlanError("bad").describe(), "ContactPlanError in A-SABR: bad");
    assert_eq!(ASABRError::MulticastUnsupportedError.describe(), "Multicast is Unsupported in A-SABR");
}

#[test]
fn parsing_error_text_locates_the_error() {
    let e = ASABRError::ParsingError(Located { data: "unexpected token", line: 12, toknum: 3 });
    assert_eq!(e.describe(), "Parsing Error encountered at line 12 token 3 in A-SABR: unexpected token");
}

#[test]
fn no_management_always_commits() {
    let mut m = NoManagement::new();
    let bundle = Bundle { source: NodeID(0), priority: 1, size: 10, expiration: 100 };
    let tx = [(TimeInterval { start: 1, end: 2 }, NodeID(1))];
    assert!(m.commit(&bundle, TimeInterval { start: 0, end: 1 }, NodeID(2), &tx).is_ok());
    assert!(m.commit(&bundle, TimeInterval { start: 0, end: 1 }, NodeID(2), &[]).is_ok());
}
