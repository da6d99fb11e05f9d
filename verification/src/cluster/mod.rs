//! Cluster support: node tracking, group assignment, retained message sync.

pub mod coordinator;
pub mod node;
pub mod protocol;
pub mod retained;

pub use node::{NodeInfo, NodeInfoResponse, NodeState};
pub use protocol::{ClusterMessage, GroupAssignment, NodeSnapshot};
pub use retained::{RetainedMessage, RetainedStore};
