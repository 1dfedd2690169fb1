//! The fixpoint driver: repeats rule-engine passes until the network stops
//! changing, that is until a pass hands back a multiset of records identical
//! to its input (the normal form), or until the pass budget runs out.

use vstd::multiset::Multiset;
use vstd::prelude::*;

use crate::engine::engine_pass;
use crate::engine::pass;
use crate::engine::pass_malformed;
use crate::node::Record;

verus! {

/// The network after `k` full rule-engine passes over `net`.
pub open spec fn iterate(net: Seq<Record>, k: nat) -> Seq<Record>
    decreases k,
{
    if k == 0 {
        net
    } else {
        pass(iterate(net, (k - 1) as nat))
    }
}

/// Counts how many times the record `x` occurs among the records of `v`.
fn count_occ(v: &Vec<Record>, x: &Record) -> (c: usize)
    ensures
        c == v@.to_multiset().count(*x),
{
    let mut c: usize = 0;
    proof {
        broadcast use vstd::seq_lib::group_to_multiset_ensures;

        assert(v@.take(0).to_multiset() =~= Multiset::<Record>::empty());
    }
    for j in 0..v.len()
        invariant
            c <= j,
            c == v@.take(j as int).to_multiset().count(*x),
    {
        if v[j].0 == x.0 && v[j].1 == x.1 {
            c = c + 1;
        }
        proof {
            broadcast use vstd::seq_lib::group_to_multiset_ensures;

            assert(v@.take(j + 1) =~= v@.take(j as int).push(v@[j as int]));
        }
    }
    proof {
        assert(v@.take(v@.len() as int) =~= v@);
    }
    c
}

/// Whether `a` and `b` hold the same multiset of records: the same records
/// with the same multiplicities, in whatever order.
pub fn same_records(a: &Vec<Record>, b: &Vec<Record>) -> (r: bool)
    ensures
        r == (a@.to_multiset() == b@.to_multiset()),
{
    if a.len() != b.len() {
        proof {
            broadcast use vstd::seq_lib::group_to_multiset_ensures;

            assert(a@.to_multiset().len() == a@.len());
            assert(b@.to_multiset().len() == b@.len());
        }
        return false;
    }
    for i in 0..a.len()
        invariant
            forall|k: int|
                0 <= k < i ==> a@.to_multiset().count(#[trigger] a@[k]) == b@.to_multiset().count(
                    a@[k],
                ),
    {
        if count_occ(a, &a[i]) != count_occ(b, &a[i]) {
            return false;
        }
    }
    for i in 0..b.len()
        invariant
            forall|k: int|
                0 <= k < a@.len() ==> a@.to_multiset().count(#[trigger] a@[k])
                    == b@.to_multiset().count(a@[k]),
            forall|k: int|
                0 <= k < i ==> a@.to_multiset().count(#[trigger] b@[k]) == b@.to_multiset().count(
                    b@[k],
                ),
    {
        if count_occ(a, &b[i]) != count_occ(b, &b[i]) {
            return false;
        }
    }
    proof {
        broadcast use vstd::seq_lib::group_to_multiset_ensures;

        assert forall|x: Record|
            a@.to_multiset().count(x) == b@.to_multiset().count(x) by {
            if a@.to_multiset().count(x) > 0 {
                assert(a@.contains(x));
                let k = choose|k: int| 0 <= k < a@.len() && a@[k] == x;
                assert(a@.to_multiset().count(a@[k]) == b@.to_multiset().count(a@[k]));
            } else if b@.to_multiset().count(x) > 0 {
                assert(b@.contains(x));
                let k = choose|k: int| 0 <= k < b@.len() && b@[k] == x;
                assert(a@.to_multiset().count(b@[k]) == b@.to_multiset().count(b@[k]));
            }
        }
        assert(a@.to_multiset() =~= b@.to_multiset());
    }
    true
}

/// Whether `net` is already in normal form: one more pass over it hands
/// back the same multiset of records.
pub fn is_normal(net: &Vec<Record>) -> (r: bool)
    ensures
        r == (pass(net@).to_multiset() == net@.to_multiset()),
{
    let (next, _) = engine_pass(net);
    same_records(&next, net)
}

/// The multiplicity change of one record between two snapshots — what the
/// reporting collaborator is shown for a record after a revision settles:
/// positive when occurrences appeared, negative when they vanished.
pub fn multiplicity_change(before: &Vec<Record>, after: &Vec<Record>, rec: &Record) -> (d: i128)
    ensures
        d == after@.to_multiset().count(*rec) - before@.to_multiset().count(*rec),
{
    let in_after = count_occ(after, rec);
    let in_before = count_occ(before, rec);
    (in_after as i128) - (in_before as i128)
}

/// What one call of the fixpoint driver produced.
pub struct ReduceOutcome {
    /// The network after the passes that were applied.
    pub network: Vec<Record>,
    /// How many passes replaced the network (a final, unchanging pass is not
    /// counted here).
    pub applied: u64,
    /// The network reached its normal form within the budget.
    pub normal: bool,
    /// Some pass met an anomalous address (over-connected or stuck).
    pub malformed: bool,
}

/// Runs rule-engine passes over `net` until a pass produces a multiset of
/// records identical to its input, or until `max_passes` passes have
/// replaced the network. Re-running the driver on an already-normal network
/// produces no change at all: the last clause states that idempotence law.
pub fn reduce_to_normal(net: Vec<Record>, max_passes: u64) -> (r: ReduceOutcome)
    ensures
        r.applied <= max_passes,
        r.network@ == iterate(net@, r.applied as nat),
        r.normal ==> pass(r.network@).to_multiset() == r.network@.to_multiset(),
        !r.normal ==> r.applied == max_passes,
        forall|k: nat|
            k < r.applied ==> iterate(net@, k + 1).to_multiset() != #[trigger] iterate(
                net@,
                k,
            ).to_multiset(),
        r.malformed == exists|k: nat|
            k < r.applied + (if r.normal {
                1int
            } else {
                0int
            }) && pass_malformed(#[trigger] iterate(net@, k)),
        (max_passes >= 1 && pass(net@).to_multiset() == net@.to_multiset()) ==> (r.network@ == net@
            && r.normal && r.applied == 0),
{
    let mut cur = net;
    let mut applied: u64 = 0;
    let mut normal = false;
    let mut malformed = false;
    while applied < max_passes && !normal
        invariant
            applied <= max_passes,
            cur@ == iterate(net@, applied as nat),
            normal ==> pass(cur@).to_multiset() == cur@.to_multiset(),
            forall|k: nat|
                k < applied ==> iterate(net@, k + 1).to_multiset() != #[trigger] iterate(
                    net@,
                    k,
                ).to_multiset(),
            malformed == exists|k: nat|
                k < applied + (if normal {
                    1int
                } else {
                    0int
                }) && pass_malformed(#[trigger] iterate(net@, k)),
        decreases max_passes - applied + (if normal {
            0int
        } else {
            1int
        }),
    {
        let (next, m) = engine_pass(&cur);
        proof {
            assert(next@ == iterate(net@, applied as nat + 1));
        }
        if m {
            malformed = true;
        }
        if same_records(&next, &cur) {
            normal = true;
        } else {
            cur = next;
            applied = applied + 1;
        }
    }
    proof {
        if max_passes >= 1 && pass(net@).to_multiset() == net@.to_multiset() {
            assert(iterate(net@, 0) == net@);
            assert(iterate(net@, 1) == pass(iterate(net@, 0)));
            assert(iterate(net@, 0).to_multiset() == net@.to_multiset());
            assert(applied == 0);
        }
    }
    ReduceOutcome { network: cur, applied, normal, malformed }
}

} // verus!
