//! Basic value types shared by the whole library: identifiers, dates, volumes and intervals.

use vstd::prelude::*;
use vstd::std_specs::convert::FromSpecImpl;
use vstd::string::StringExecFns;

verus! {

/// A duration (recommended unit: milliseconds).
pub type Duration = i64;

/// A date (recommended: milliseconds since the epoch).
pub type Date = i64;

/// The priority of a bundle or of a booking.
pub type Priority = i8;

/// A volume of data (arbitrary unit, bytes recommended).
pub type Volume = i64;

/// A data rate (arbitrary unit).
pub type DataRate = i64;

/// A number of hops in a route.
pub type HopCount = u16;

/// Largest magnitude that dates, durations and delays may take in a contact plan.
/// Keeping every date below it guarantees that a date plus a delay always fits in 64 bits.
pub const DATE_BOUND: i64 = 0x2000_0000_0000_0000;

/// Largest volume that a queue or a bundle may hold.
pub const VOLUME_BOUND: i64 = 0x4000_0000_0000_0000;

/// A date (or a duration) that stays within the supported range.
pub open spec fn date_ok(d: int) -> bool {
    -DATE_BOUND <= d <= DATE_BOUND
}

/// A volume that stays within the supported range.
pub open spec fn volume_ok(v: int) -> bool {
    0 <= v <= VOLUME_BOUND
}

/// The unique identifier of a node.
#[derive(Clone, Copy, PartialEq, Eq, Structural, Debug)]
pub struct NodeID(pub usize);

impl NodeID {
    /// The index that this identifier stands for.
    pub open spec fn index(self) -> usize {
        self.0
    }

    /// Builds an identifier from its index.
    pub fn new(value: usize) -> (r: NodeID)
        ensures
            r.index() == value,
    {
        NodeID(value)
    }

    /// The index that this identifier stands for.
    pub fn as_usize(&self) -> (r: usize)
        ensures
            r == self.index(),
    {
        self.0
    }
}

impl From<usize> for NodeID {
    fn from(value: usize) -> (r: NodeID) {
        NodeID(value)
    }
}

impl FromSpecImpl<usize> for NodeID {
    open spec fn obeys_from_spec() -> bool {
        true
    }

    open spec fn from_spec(v: usize) -> NodeID {
        NodeID(v)
    }
}

impl From<NodeID> for usize {
    fn from(value: NodeID) -> (r: usize) {
        value.0
    }
}

impl FromSpecImpl<NodeID> for usize {
    open spec fn obeys_from_spec() -> bool {
        true
    }

    open spec fn from_spec(v: NodeID) -> usize {
        v.0
    }
}

/// A time interval `[start, end]`.
#[derive(Clone, Copy, PartialEq, Eq, Structural, Debug)]
pub struct TimeInterval {
    /// Beginning of the interval.
    pub start: Date,
    /// End of the interval.
    pub end: Date,
}

impl TimeInterval {
    /// Both bounds are within the supported date range.
    pub open spec fn in_range(self) -> bool {
        date_ok(self.start as int) && date_ok(self.end as int)
    }

    /// Renders the interval as `[start, end]`.
    pub fn describe(&self) -> (r: String)
        ensures
            r@ == "["@ + decimal(self.start as int) + ", "@ + decimal(self.end as int) + "]"@,
    {
        let mut r = String::from_str("[");
        r.append(decimal_text(self.start as i128).as_str());
        r.append(", ");
        r.append(decimal_text(self.end as i128).as_str());
        r.append("]");
        r
    }
}

/// The decimal digit `d`.
pub open spec fn digit_char(d: nat) -> char {
    (d + 48) as char
}

/// The decimal digits of `n`, most significant first, with no leading zero.
pub open spec fn decimal_digits(n: nat) -> Seq<char>
    decreases n,
{
    if n < 10 {
        seq![digit_char(n)]
    } else {
        decimal_digits(n / 10).push(digit_char(n % 10))
    }
}

/// The decimal notation of `n`: a minus sign when it is negative, then its digits.
pub open spec fn decimal(n: int) -> Seq<char> {
    if n < 0 {
        seq!['-'] + decimal_digits((-n) as nat)
    } else {
        decimal_digits(n as nat)
    }
}

/// The text of `n` as std's `Display` for integers writes it: its decimal notation.
#[verifier::external_body]
pub(crate) fn decimal_text(n: i128) -> (r: String)
    ensures
        r@ == decimal(n as int),
{
    n.to_string()
}

/// A signed number read from a contact plan, convertible into every numeric type of the library.
#[derive(Clone, Copy, PartialEq, Eq, Structural, Debug)]
pub struct AnyNumber(pub i64);

impl AnyNumber {
    /// The value as a 64-bit signed integer.
    pub fn as_i64(&self) -> (r: i64)
        ensures
            r == self.0,
    {
        self.0
    }

    /// The value as a priority, when it fits.
    pub fn to_priority(&self) -> (r: Option<Priority>)
        ensures
            r == (if i8::MIN <= self.0 <= i8::MAX {
                Some(self.0 as i8)
            } else {
                None::<i8>
            }),
    {
        if -128 <= self.0 && self.0 <= 127 {
            Some(self.0 as i8)
        } else {
            None
        }
    }

    /// The value as a hop count, when it fits.
    pub fn to_hop_count(&self) -> (r: Option<HopCount>)
        ensures
            r == (if 0 <= self.0 <= u16::MAX {
                Some(self.0 as u16)
            } else {
                None::<u16>
            }),
    {
        if 0 <= self.0 && self.0 <= 65535 {
            Some(self.0 as u16)
        } else {
            None
        }
    }

    /// The value as a node identifier, when it is not negative.
    pub fn to_node_id(&self) -> (r: Option<NodeID>)
        ensures
            r == (if 0 <= self.0 <= usize::MAX {
                Some(NodeID(self.0 as usize))
            } else {
                None::<NodeID>
            }),
    {
        if self.0 >= 0 && (self.0 as u64) <= (usize::MAX as u64) {
            Some(NodeID(self.0 as usize))
        } else {
            None
        }
    }
}

/// The name of a node. Names are kept only for display.
#[derive(Clone, Debug)]
pub struct NodeName {
    /// The text of the name.
    pub name: String,
}

impl NodeName {
    /// Builds a name from its text.
    pub fn new(name: &str) -> (r: NodeName)
        ensures
            r.name@ == name@,
    {
        NodeName { name: name.to_string() }
    }
}

/// An optional index stored in a single `usize`: `usize::MAX` stands for `None`.
#[derive(Clone, Copy, PartialEq, Eq, Structural, Debug)]
pub struct OptUsize(pub usize);

impl OptUsize {
    /// The optional index that this value stands for.
    pub open spec fn spec_get(self) -> Option<usize> {
        if self.0 == usize::MAX {
            None
        } else {
            Some(self.0)
        }
    }

    /// Packs an optional index.
    pub fn from_option(value: Option<usize>) -> (r: OptUsize)
        ensures
            value matches Some(v) && v != usize::MAX ==> r.spec_get() == value,
            value is None ==> r.spec_get() is None,
    {
        match value {
            None => OptUsize(usize::MAX),
            Some(v) => OptUsize(v),
        }
    }

    /// Unpacks the optional index.
    pub fn to_option(self) -> (r: Option<usize>)
        ensures
            r == self.spec_get(),
    {
        if self.0 == usize::MAX {
            None
        } else {
            Some(self.0)
        }
    }
}

/// A bundle (a unit of data) to be routed.
#[derive(Clone, Copy, PartialEq, Eq, Structural, Debug)]
pub struct Bundle {
    /// The node that emitted the bundle.
    pub source: NodeID,
    /// The priority of the bundle.
    pub priority: Priority,
    /// The size of the bundle.
    pub size: Volume,
    /// The date after which the bundle is useless.
    pub expiration: Date,
}

impl Bundle {
    /// The bundle's size is within the supported range.
    pub open spec fn wf(self) -> bool {
        volume_ok(self.size as int)
    }
}

} // verus!
