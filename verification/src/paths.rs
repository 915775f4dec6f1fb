//! Path fragments: the ends of paths found by pathfinding, chained through their parents.

use vstd::prelude::*;

use crate::multigraph::{ContactRef, RealNodeRef};
use crate::types::{Date, HopCount, TimeInterval};

verus! {

/// The last hop of a path: the contact used, the fragment it extends, and when it sends.
#[derive(Debug, Clone, Copy, PartialEq, Eq, Structural)]
pub struct ViaHop {
    /// The contact used by this hop.
    pub contact: ContactRef,
    /// The index of the fragment this hop extends, in the path tree.
    pub parent_frag: usize,
    /// Transmission interval used by this hop.
    pub send: TimeInterval,
}

/// The end of a path to a node; the rest of the path is reached through `via`.
#[derive(Debug, Clone, Copy, PartialEq, Eq, Structural)]
pub struct PathFragment {
    /// The last hop, if the path has at least one.
    pub via: Option<ViaHop>,
    /// The number of hops from the source.
    pub hop_count: HopCount,
    /// When the bundle is received by the node reached.
    pub recv: TimeInterval,
    /// The node reached.
    pub rx_node: RealNodeRef,
    /// An approximation of the route's expiration (the earliest end of its contacts).
    pub expiration: Date,
}

impl PathFragment {
    /// Creates a path fragment.
    pub fn new(
        recv: TimeInterval,
        via_hop: Option<ViaHop>,
        hop_count: HopCount,
        rx_node: RealNodeRef,
        expiration: Date,
    ) -> (r: Self)
        ensures
            r == (PathFragment { via: via_hop, hop_count, recv, rx_node, expiration }),
    {
        PathFragment { recv, via: via_hop, hop_count, rx_node, expiration }
    }

    /// The initial fragment at the source node, at time `time`.
    pub fn new_start(time: Date, node: RealNodeRef) -> (r: Self)
        ensures
            r == (PathFragment {
                via: None,
                hop_count: 0,
                recv: TimeInterval { start: time, end: time },
                rx_node: node,
                expiration: i64::MAX,
            }),
    {
        PathFragment {
            via: None,
            hop_count: 0,
            recv: TimeInterval { start: time, end: time },
            rx_node: node,
            expiration: i64::MAX,
        }
    }
}

} // verus!
