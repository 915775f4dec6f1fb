//! Schedule-aware bundle routing: contact plans, contact and node resource managers,
//! contact multigraphs and Dijkstra-based pathfinding, with their contracts proved by Verus.

pub mod contact;
pub mod contact_manager;
pub mod contact_plan;
pub mod distance;
pub mod errors;
pub mod node;
pub mod node_manager;
pub mod multigraph;
pub mod parsing;
pub mod pathfinding;
pub mod paths;
pub mod route_storage;
pub mod routing;
pub mod types;
pub mod vnode;
