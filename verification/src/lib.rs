//! A miniature interaction-net reducer for unary natural-number addition.
//!
//! A network is a multiset of records `(address, Node)`: each record is a node
//! whose active wire terminates at `address`, and whose passive wires are the
//! identifiers stored inside its [`node::Node`] kind. The engine repeatedly
//! groups the live records by address and applies a local rewrite rule to each
//! pair that shares one, until the network stops changing (its normal form).
//! Ordered batches of inserts and removals can then edit a network, and the
//! driver re-derives the normal form of the edited network.

pub mod builder;
pub mod conservation;
pub mod decode;
pub mod driver;
pub mod edits;
pub mod engine;
pub mod node;
