//! Pure construction of the initial node sets for a natural number and for an
//! addition problem.

use vstd::prelude::*;

use crate::node::Node;
use crate::node::Record;

verus! {

/// The records of `recs` encode the unary natural number `n` as a chain: one
/// `Zero` record first, then `n` `Suc` records, each referencing the address
/// of the record created just before it. The head of the chain (the
/// outermost increment, or the `Zero` when `n == 0`) is the last record.
pub open spec fn nat_chain(recs: Seq<Record>, n: nat) -> bool {
    &&& recs.len() == n + 1
    &&& recs[0].1 == Node::Zero
    &&& forall|i: int| 1 <= i <= n ==> recs[i].1 == Node::Suc(recs[i - 1].0)
}

/// The address of the head (outermost) record of a chain.
pub open spec fn chain_head(recs: Seq<Record>) -> u128 {
    recs.last().0
}

/// Relies on `uuid::Uuid::new_v4` and `uuid::Uuid::as_u128` to draw a fresh
/// random 128-bit identifier. Nothing is promised of the value drawn:
/// distinctness from every earlier identifier is a duty of the generator
/// collaborator, not a fact the library builds on.
#[verifier::external_body]
fn fresh_id() -> u128 {
    uuid::Uuid::new_v4().as_u128()
}

impl Node {
    /// Builds the chain of records for the unary natural number `n` at
    /// freshly drawn identifiers; returns the head identifier together with
    /// every record created, in creation order.
    pub fn construct_nat(n: u64) -> (r: (u128, Vec<Record>))
        ensures
            nat_chain(r.1@, n as nat),
            r.0 == chain_head(r.1@),
    {
        let mut result: Vec<Record> = Vec::new();

        let mut prev_id = fresh_id();
        result.push((prev_id, Node::Zero));

        for _k in 0..n
            invariant
                result@.len() == _k + 1,
                nat_chain(result@, _k as nat),
                prev_id == chain_head(result@),
        {
            let id = fresh_id();
            result.push((id, Node::Suc(prev_id)));
            prev_id = id;
        }

        (prev_id, result)
    }

    /// Builds the two operand chains for `nat1` and `nat2` plus one adder
    /// record: the adder sits at the head of the first chain, references the
    /// head of the second chain as its left operand, and will deliver the sum
    /// at `output_id`. Pure construction: nothing existing is touched.
    pub fn construct_add(nat1: u64, nat2: u64, output_id: u128) -> (r: (
        Vec<Record>,
        Vec<Record>,
        Record,
    ))
        ensures
            nat_chain(r.0@, nat1 as nat),
            nat_chain(r.1@, nat2 as nat),
            (r.2).0 == chain_head(r.0@),
            (r.2).1 == Node::Add(chain_head(r.1@), output_id),
    {
        let (id1, vec1) = Self::construct_nat(nat1);
        let (id2, vec2) = Self::construct_nat(nat2);

        (vec1, vec2, (id1, Node::Add(id2, output_id)))
    }
}

} // verus!
