//! Reverse-mode automatic differentiation: the computation graph, its
//! topological ordering for the backward pass, and which nodes each
//! operation's gradient rule reaches.

pub mod backward;
pub mod graph;

pub use graph::{ComputationGraph, Node, NodeId, OpType};
