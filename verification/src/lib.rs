//! Greedy traversal of a weighted directed graph under a depletable time
//! budget. A driver repeatedly asks a scoring strategy to rank the outgoing
//! edges of the current node, follows the best one, and optionally collects
//! the destination's value, until the budget runs out.

pub mod action;
pub mod graphs;
pub mod maximizer;
pub mod node;
pub mod path;
pub mod score;
pub mod search;
pub mod state;
pub mod subnets;
