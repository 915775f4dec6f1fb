//! The error type of the library.

use vstd::prelude::*;

use crate::parsing::Located;
use crate::types::{decimal, decimal_text};
use vstd::string::StringExecFns;

verus! {

/// Error type used by the library's operations.
#[derive(Debug, Clone, Copy, PartialEq, Eq)]
pub enum ASABRError {
    /// A mutable borrow failed.
    BorrowMutError(&'static str),
    /// A dry-run operation failed.
    DryRunError(&'static str),
    /// Scheduling a bundle or a contact failed.
    ScheduleError(&'static str),
    /// A contact plan cannot be parsed or built correctly.
    ContactPlanError(&'static str),
    /// Multicast routing was requested but is not supported.
    MulticastUnsupportedError,
    /// Parsing failed at a given location of the input.
    ParsingError(Located<&'static str>),
}

/// The text of an error.
pub open spec fn error_text(e: ASABRError) -> Seq<char> {
    match e {
        ASABRError::BorrowMutError(s) => "BorrowMutError in A-SABR: "@ + s@,
        ASABRError::DryRunError(s) => "DryRunError in A-SABR: "@ + s@,
        ASABRError::ScheduleError(s) => "ScheduleError in A-SABR: "@ + s@,
        ASABRError::ContactPlanError(s) => "ContactPlanError in A-SABR: "@ + s@,
        ASABRError::MulticastUnsupportedError => "Multicast is Unsupported in A-SABR"@,
        ASABRError::ParsingError(l) => "Parsing Error encountered at line "@ + decimal(l.line as int) + " token "@
            + decimal(l.toknum as int) + " in A-SABR: "@ + l.data@,
    }
}

impl ASABRError {
    /// Renders the error as text.
    pub fn describe(&self) -> (r: String)
        ensures
            r@ == error_text(*self),
    {
        match *self {
            ASABRError::BorrowMutError(s) => String::from_str("BorrowMutError in A-SABR: ").concat(s),
            ASABRError::DryRunError(s) => String::from_str("DryRunError in A-SABR: ").concat(s),
            ASABRError::ScheduleError(s) => String::from_str("ScheduleError in A-SABR: ").concat(s),
            ASABRError::ContactPlanError(s) => String::from_str("ContactPlanError in A-SABR: ").concat(s),
            ASABRError::MulticastUnsupportedError => String::from_str("Multicast is Unsupported in A-SABR"),
            ASABRError::ParsingError(l) => {
                let mut r = String::from_str("Parsing Error encountered at line ");
                r.append(decimal_text(l.line as i128).as_str());
                r.append(" token ");
                r.append(decimal_text(l.toknum as i128).as_str());
                r.append(" in A-SABR: ");
                r.append(l.data);
                r
            },
        }
    }
}

} // verus!
