//! Nodes of the network.

use vstd::prelude::*;

use crate::node_manager::NodeManager;
use crate::types::{NodeID, NodeName};

verus! {

/// Information about a node of the network.
#[derive(Clone, Debug)]
pub struct NodeInfo {
    /// Unique identifier of the node.
    pub id: NodeID,
    /// Human-readable name of the node.
    pub name: NodeName,
    /// Whether the node is excluded from routing.
    pub excluded: bool,
}

impl NodeInfo {
    /// Builds the information of a node that is not excluded.
    pub fn new(id: NodeID, name: NodeName) -> (r: NodeInfo)
        ensures
            r.id == id,
            r.name == name,
            !r.excluded,
    {
        NodeInfo { id, name, excluded: false }
    }
}

/// A node of the network, with the manager of its resources.
#[derive(Clone, Debug)]
pub struct Node<NM: NodeManager> {
    /// The information about the node.
    pub info: NodeInfo,
    /// The manager of the node's resources.
    pub manager: NM,
}

impl<NM: NodeManager> Node<NM> {
    /// Creates a node; this always succeeds.
    pub fn try_new(info: NodeInfo, manager: NM) -> (r: Option<Self>)
        ensures
            r matches Some(n) && n.info == info && n.manager == manager,
    {
        Some(Node { info, manager })
    }

    /// The identifier of the node.
    pub fn get_node_id(&self) -> (r: NodeID)
        ensures
            r == self.info.id,
    {
        self.info.id
    }

    /// The name of the node.
    pub fn get_node_name(&self) -> (r: NodeName)
        ensures
            r.name@ == self.info.name.name@,
    {
        NodeName { name: self.info.name.name.clone() }
    }

    /// Nodes are equal when their identifiers are.
    pub fn same_node(&self, other: &Self) -> (r: bool)
        ensures
            r == (self.info.id == other.info.id),
    {
        self.info.id.0 == other.info.id.0
    }
}

} // verus!
