//! The node model: node kinds, their passive-port references, and records.

use vstd::prelude::*;

verus! {

/// A node of the network, tagged with the identifiers of its passive ports.
/// The identifier of its active port is the address of the record that
/// carries it, not part of the node itself.
#[derive(Debug, Clone, Copy, PartialEq, Eq, Structural)]
pub enum Node {
    /// One increment on top of whatever chain is eventually found at the
    /// referenced identifier.
    Suc(u128),
    /// The value zero; no passive ports.
    Zero,
    /// A pending addition: the first identifier references the left operand
    /// chain, the second the place where the result will appear.
    Add(u128, u128),
    /// An indirection produced only by rewriting: whatever meets this record's
    /// address should instead connect to the referenced identifier.
    Conn(u128),
}

/// A live entry of a network: the node `.1` whose active wire terminates at
/// the address `.0`.
pub type Record = (u128, Node);

} // verus!
