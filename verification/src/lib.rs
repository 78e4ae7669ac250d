//! A minimal Raft consensus core: the state a node keeps, the two RPCs
//! (`RequestVote`, `AppendEntries`) and the handlers that decide on them,
//! each specified against a mathematical model of a node.

pub mod laws;
pub mod model;
pub mod node;
pub mod types;

pub use types::{AppendEntries, LogEntry, Node, NodeView, RequestVote, Role};
