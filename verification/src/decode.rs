//! Decoding: reading the unary natural number encoded by a chain of records
//! reachable from a given identifier by following `Suc` references down to
//! `Zero`.

use vstd::prelude::*;

use crate::builder::chain_head;
use crate::builder::nat_chain;
use crate::engine::kinds_at;
use crate::engine::lemma_kinds_at_unique;
use crate::node::Node;
use crate::node::Record;

verus! {

/// Fuel-bounded decoding: the number of `Suc` hops from `id` down to a
/// `Zero`, provided every identifier on the way holds exactly one live
/// record. `None` when a hop meets no record or several, a kind that is not
/// part of a number chain, or when the fuel runs out (a cycle).
pub open spec fn spec_decode(net: Seq<Record>, id: u128, fuel: nat) -> Option<nat>
    decreases fuel,
{
    if fuel == 0 {
        Option::None
    } else {
        let ks = kinds_at(net, id);
        if ks.len() != 1 {
            Option::None
        } else {
            match ks[0] {
                Node::Zero => Option::Some(0),
                Node::Suc(next) => match spec_decode(net, next, (fuel - 1) as nat) {
                    Option::Some(m) => Option::Some(m + 1),
                    Option::None => Option::None,
                },
                _ => Option::None,
            }
        }
    }
}

/// The value that `net` decodes to from `id`. The fuel bound is one more
/// than the record count: a chain that consumes more hops than there are
/// records revisits an identifier and can never reach a `Zero`.
pub open spec fn decoded(net: Seq<Record>, id: u128) -> Option<nat> {
    spec_decode(net, id, net.len() + 1)
}

/// Lifts a decoded tail by the hops already taken.
spec fn add_count(o: Option<nat>, c: nat) -> Option<nat> {
    match o {
        Option::Some(m) => Option::Some(m + c),
        Option::None => Option::None,
    }
}

/// Follows the chain of records from `id` and counts the `Suc` hops down to
/// a `Zero`; `None` when no well-formed chain starts at `id`.
pub fn decode(net: &Vec<Record>, id: u128) -> (r: Option<u64>)
    requires
        net@.len() < usize::MAX,
    ensures
        match r {
            Option::Some(v) => decoded(net@, id) == Option::Some(v as nat),
            Option::None => decoded(net@, id) is None,
        },
{
    let mut cur = id;
    let mut count: u64 = 0;
    let mut fuel: usize = net.len() + 1;
    while fuel > 0
        invariant
            net@.len() < usize::MAX,
            fuel <= net@.len() + 1,
            count <= net@.len() + 1 - fuel,
            decoded(net@, id) == add_count(spec_decode(net@, cur, fuel as nat), count as nat),
        decreases fuel,
    {
        let ks = crate::engine::collect_kinds(net, cur);
        if ks.len() != 1 {
            return Option::None;
        }
        match ks[0] {
            Node::Zero => {
                return Option::Some(count);
            },
            Node::Suc(next) => {
                count = count + 1;
                cur = next;
                fuel = fuel - 1;
            },
            _ => {
                return Option::None;
            },
        }
    }
    Option::None
}

/// A well-formed number chain hangs from `id` inside `net`: `id` holds
/// exactly one live record, and following its `Suc` references meets one
/// live record per identifier, `n` hops down to a lone `Zero`.
pub open spec fn is_chain_from(net: Seq<Record>, id: u128, n: nat) -> bool
    decreases n,
{
    if n == 0 {
        kinds_at(net, id) == seq![Node::Zero]
    } else {
        exists|next: u128|
            kinds_at(net, id) == seq![Node::Suc(next)] && is_chain_from(
                net,
                next,
                (n - 1) as nat,
            )
    }
}

/// Decoding law: a record chain reachable from `id` by `Suc`/`Zero`
/// references decodes to the count of its `Suc` hops, whenever the fuel
/// covers the chain.
pub proof fn lemma_chain_decodes(net: Seq<Record>, id: u128, n: nat, fuel: nat)
    requires
        is_chain_from(net, id, n),
        n < fuel,
    ensures
        spec_decode(net, id, fuel) == Option::Some(n),
    decreases n,
{
    if n > 0 {
        let next = choose|next: u128|
            kinds_at(net, id) == seq![Node::Suc(next)] && is_chain_from(net, next, (n - 1) as nat);
        lemma_chain_decodes(net, next, (n - 1) as nat, (fuel - 1) as nat);
    }
}

/// All records of `recs` sit at pairwise-distinct addresses.
pub open spec fn distinct_addresses(recs: Seq<Record>) -> bool {
    forall|i: int, j: int|
        0 <= i < recs.len() && 0 <= j < recs.len() && i != j ==> recs[i].0 != recs[j].0
}

proof fn lemma_chain_prefix(recs: Seq<Record>, n: nat, i: nat)
    requires
        nat_chain(recs, n),
        distinct_addresses(recs),
        i <= n,
    ensures
        is_chain_from(recs, recs[i as int].0, i),
    decreases i,
{
    lemma_kinds_at_unique(recs, recs[i as int].0, i as int);
    if i > 0 {
        lemma_chain_prefix(recs, n, (i - 1) as nat);
        assert(kinds_at(recs, recs[i as int].0) == seq![Node::Suc(recs[i as int - 1].0)]);
    }
}

/// A freshly built number chain whose records sit at pairwise-distinct
/// addresses decodes, from its head, to the number it was built for.
pub proof fn lemma_nat_chain_decodes(recs: Seq<Record>, n: nat)
    requires
        nat_chain(recs, n),
        distinct_addresses(recs),
    ensures
        decoded(recs, chain_head(recs)) == Option::Some(n),
{
    lemma_chain_prefix(recs, n, n);
    lemma_chain_decodes(recs, recs[n as int].0, n, recs.len() + 1);
}

} // verus!
