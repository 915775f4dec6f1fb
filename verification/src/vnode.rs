//! Virtual nodes: names standing for a set of real nodes.

use vstd::prelude::*;

use crate::types::{NodeID, NodeName};

verus! {

/// A virtual node of the network.
#[derive(Debug, Clone)]
pub struct VirtualNodeInfo {
    /// Unique identifier of the virtual node.
    pub vid: NodeID,
    /// Human-readable name of the virtual node.
    pub name: NodeName,
    /// Identifiers of the real nodes this virtual node stands for.
    pub rids: Vec<NodeID>,
}

impl VirtualNodeInfo {
    /// Builds the information of a virtual node.
    pub fn new(vid: NodeID, name: NodeName, rids: Vec<NodeID>) -> (r: Self)
        ensures
            r.vid == vid,
            r.name == name,
            r.rids == rids,
    {
        VirtualNodeInfo { vid, name, rids }
    }
}

} // verus!
