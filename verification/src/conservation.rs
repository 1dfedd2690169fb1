//! Conservation law: a rule-engine pass never creates or destroys a
//! successor record. Every rule either moves a successor (peeling one off
//! the left operand pushes one onto the output side), leaves it alone, or
//! touches none, so the count of `Suc` records — the total value the network
//! encodes — is invariant under reduction.

use vstd::prelude::*;

use crate::builder::nat_chain;
use crate::driver::iterate;
use crate::engine::address_output;
use crate::engine::kinds_at;
use crate::engine::lemma_kinds_at_push;
use crate::engine::pass;
use crate::engine::pass_from;
use crate::engine::reemit_all;
use crate::engine::rule_output;
use crate::engine::seen_before;
use crate::node::Node;
use crate::node::Record;

verus! {

/// One when the kind is a successor, zero otherwise.
pub open spec fn suc_in(k: Node) -> nat {
    match k {
        Node::Suc(_) => 1,
        _ => 0,
    }
}

/// The number of successor records of a network.
pub open spec fn suc_count(s: Seq<Record>) -> nat
    decreases s.len(),
{
    if s.len() == 0 {
        0
    } else {
        suc_count(s.drop_last()) + suc_in(s.last().1)
    }
}

/// The number of successor kinds in one address group.
pub open spec fn suc_count_kinds(ks: Seq<Node>) -> nat
    decreases ks.len(),
{
    if ks.len() == 0 {
        0
    } else {
        suc_count_kinds(ks.drop_last()) + suc_in(ks.last())
    }
}

/// What the address groups first occurring at position `i` or later
/// contribute in successor kinds.
spec fn suc_rest(net: Seq<Record>, i: int) -> nat
    decreases net.len() - i,
{
    if i < 0 || i >= net.len() {
        0
    } else if seen_before(net, i) {
        suc_rest(net, i + 1)
    } else {
        suc_count_kinds(kinds_at(net, net[i].0)) + suc_rest(net, i + 1)
    }
}

proof fn lemma_suc_count_concat(a: Seq<Record>, b: Seq<Record>)
    ensures
        suc_count(a + b) == suc_count(a) + suc_count(b),
    decreases b.len(),
{
    if b.len() == 0 {
        assert(a + b =~= a);
    } else {
        lemma_suc_count_concat(a, b.drop_last());
        assert((a + b).drop_last() =~= a + b.drop_last());
    }
}

proof fn lemma_suc_count_single(x: Record)
    ensures
        suc_count(seq![x]) == suc_in(x.1),
{
    assert(seq![x].drop_last() =~= Seq::<Record>::empty());
    assert(suc_count(Seq::<Record>::empty()) == 0);
}

proof fn lemma_suc_count_pair(x: Record, y: Record)
    ensures
        suc_count(seq![x, y]) == suc_in(x.1) + suc_in(y.1),
{
    assert(seq![x, y].drop_last() =~= seq![x]);
    lemma_suc_count_single(x);
}

proof fn lemma_suc_count_reemit(a: u128, ks: Seq<Node>)
    ensures
        suc_count(reemit_all(a, ks)) == suc_count_kinds(ks),
    decreases ks.len(),
{
    if ks.len() > 0 {
        lemma_suc_count_reemit(a, ks.drop_last());
        let prefix = reemit_all(a, ks.drop_last());
        assert(prefix.push((a, ks.last())).drop_last() =~= prefix);
    }
}

proof fn lemma_rule_output_suc(key: u128, k1: Node, k2: Node)
    ensures
        suc_count(rule_output(key, k1, k2)) == suc_in(k1) + suc_in(k2),
{
    match (k1, k2) {
        (Node::Suc(s), Node::Add(l, r)) => {
            lemma_suc_count_pair((r, Node::Suc(key)), (s, Node::Add(l, key)));
        },
        (Node::Add(l, r), Node::Suc(s)) => {
            lemma_suc_count_pair((r, Node::Suc(key)), (s, Node::Add(l, key)));
        },
        (Node::Zero, Node::Add(l, r)) => {
            lemma_suc_count_single((l, Node::Conn(r)));
        },
        (Node::Add(l, r), Node::Zero) => {
            lemma_suc_count_single((l, Node::Conn(r)));
        },
        (Node::Conn(_), Node::Conn(_)) => {
            lemma_suc_count_pair((key, k1), (key, k2));
        },
        (Node::Conn(t), other) => {
            lemma_suc_count_single((t, other));
        },
        (other, Node::Conn(t)) => {
            lemma_suc_count_single((t, other));
        },
        _ => {
            lemma_suc_count_pair((key, k1), (key, k2));
        },
    }
}

proof fn lemma_address_output_suc(a: u128, ks: Seq<Node>)
    ensures
        suc_count(address_output(a, ks)) == suc_count_kinds(ks),
{
    if ks.len() == 2 {
        lemma_rule_output_suc(a, ks[0], ks[1]);
        assert(ks.drop_last().drop_last() =~= Seq::<Node>::empty());
        assert(ks.drop_last().last() == ks[0]);
        assert(suc_count_kinds(Seq::<Node>::empty()) == 0);
        assert(suc_count_kinds(ks.drop_last()) == suc_in(ks[0]));
        assert(suc_count_kinds(ks) == suc_in(ks[0]) + suc_in(ks[1]));
    } else {
        lemma_suc_count_reemit(a, ks);
    }
}

proof fn lemma_pass_from_suc(net: Seq<Record>, i: int)
    ensures
        suc_count(pass_from(net, i)) == suc_rest(net, i),
    decreases net.len() - i,
{
    if 0 <= i < net.len() {
        lemma_pass_from_suc(net, i + 1);
        if !seen_before(net, i) {
            lemma_address_output_suc(net[i].0, kinds_at(net, net[i].0));
            lemma_suc_count_concat(
                address_output(net[i].0, kinds_at(net, net[i].0)),
                pass_from(net, i + 1),
            );
        }
    }
}

proof fn lemma_rest_push(net: Seq<Record>, x: Record, i: int)
    requires
        0 <= i <= net.len(),
    ensures
        suc_rest(net.push(x), i) == suc_rest(net, i) + (if (forall|j: int|
            0 <= j < i ==> net[j].0 != x.0) {
            suc_in(x.1)
        } else {
            0nat
        }),
    decreases net.len() - i,
{
    let full = net.push(x);
    if i == net.len() {
        if forall|j: int| 0 <= j < i ==> net[j].0 != x.0 {
            assert(!seen_before(full, i));
            crate::engine::lemma_kinds_at_absent(net, x.0);
            lemma_kinds_at_push(net, x, x.0);
            assert(full[i] == x);
            assert(kinds_at(full, x.0).drop_last() =~= Seq::<Node>::empty());
            assert(suc_count_kinds(Seq::<Node>::empty()) == 0);
            assert(suc_count_kinds(kinds_at(full, full[i].0)) == suc_in(x.1));
            assert(suc_rest(full, i + 1) == 0);
            assert(suc_rest(net, i) == 0);
            assert(suc_rest(full, i) == suc_in(x.1));
        } else {
            let w = choose|j: int| 0 <= j < i && net[j].0 == x.0;
            assert(full[w].0 == full[i].0);
            assert(seen_before(full, i));
            assert(suc_rest(full, i + 1) == 0);
            assert(suc_rest(full, i) == 0);
            assert(suc_rest(net, i) == 0);
        }
    } else {
        lemma_rest_push(net, x, i + 1);
        assert(full[i] == net[i]);
        let cond_i = forall|j: int| 0 <= j < i ==> net[j].0 != x.0;
        let cond_i1 = forall|j: int| 0 <= j < i + 1 ==> net[j].0 != x.0;
        if seen_before(net, i) {
            let w = choose|j: int| 0 <= j < i && net[j].0 == net[i].0;
            assert(full[w].0 == full[i].0);
            assert(seen_before(full, i));
            assert(suc_rest(full, i) == suc_rest(full, i + 1));
            assert(suc_rest(net, i) == suc_rest(net, i + 1));
            if net[i].0 == x.0 {
                // the address occurred before i already, so both conditions
                // fail with the same witness
                assert(net[w].0 == x.0);
                assert(!cond_i);
                assert(!cond_i1);
            } else {
                assert(cond_i == cond_i1);
            }
        } else {
            assert(!seen_before(full, i)) by {
                if seen_before(full, i) {
                    let w = choose|j: int| 0 <= j < i && full[j].0 == full[i].0;
                    assert(net[w].0 == net[i].0);
                }
            }
            lemma_kinds_at_push(net, x, net[i].0);
            assert(suc_rest(full, i) == suc_count_kinds(kinds_at(full, full[i].0)) + suc_rest(
                full,
                i + 1,
            ));
            assert(suc_rest(net, i) == suc_count_kinds(kinds_at(net, net[i].0)) + suc_rest(
                net,
                i + 1,
            ));
            if net[i].0 == x.0 {
                assert(cond_i);
                assert(!cond_i1);
                let grown = kinds_at(net, net[i].0).push(x.1);
                assert(grown.drop_last() =~= kinds_at(net, net[i].0));
                assert(suc_count_kinds(kinds_at(full, full[i].0)) == suc_count_kinds(
                    kinds_at(net, net[i].0),
                ) + suc_in(x.1));
                assert(suc_rest(full, i + 1) == suc_rest(net, i + 1));
            } else {
                assert(cond_i == cond_i1);
                assert(kinds_at(full, full[i].0) == kinds_at(net, net[i].0));
            }
        }
    }
}

proof fn lemma_suc_rest_full(net: Seq<Record>)
    ensures
        suc_rest(net, 0) == suc_count(net),
    decreases net.len(),
{
    if net.len() > 0 {
        let dl = net.drop_last();
        lemma_suc_rest_full(dl);
        lemma_rest_push(dl, net.last(), 0);
        assert(dl.push(net.last()) =~= net);
    }
}

/// Conservation law: one full pass of the rule engine leaves the number of
/// successor records unchanged, whatever the network holds.
pub proof fn lemma_pass_preserves_suc_count(net: Seq<Record>)
    ensures
        suc_count(pass(net)) == suc_count(net),
{
    lemma_pass_from_suc(net, 0);
    lemma_suc_rest_full(net);
}

/// The driver preserves the successor count across any number of passes.
pub proof fn lemma_iterate_preserves_suc_count(net: Seq<Record>, k: nat)
    ensures
        suc_count(iterate(net, k)) == suc_count(net),
    decreases k,
{
    if k > 0 {
        lemma_iterate_preserves_suc_count(net, (k - 1) as nat);
        lemma_pass_preserves_suc_count(iterate(net, (k - 1) as nat));
    }
}

proof fn lemma_nat_chain_prefix_suc(recs: Seq<Record>, n: nat, i: nat)
    requires
        nat_chain(recs, n),
        i <= n,
    ensures
        suc_count(recs.take(i + 1int)) == i,
    decreases i,
{
    if i == 0 {
        assert(recs.take(1).drop_last() =~= Seq::<Record>::empty());
        assert(recs.take(1).last() == recs[0]);
        assert(suc_count(Seq::<Record>::empty()) == 0);
    } else {
        lemma_nat_chain_prefix_suc(recs, n, (i - 1) as nat);
        assert(recs.take(i as int) == recs.take(((i - 1) as nat) + 1int));
        assert(recs.take(i + 1int).drop_last() =~= recs.take(i as int));
        assert(recs.take(i + 1int).last() == recs[i as int]);
        assert(recs[i as int].1 == Node::Suc(recs[i as int - 1].0));
        assert(suc_in(recs[i as int].1) == 1);
    }
}

/// What the address groups first occurring at position `i` or later hold in
/// live records.
spec fn rest_size(net: Seq<Record>, i: int) -> nat
    decreases net.len() - i,
{
    if i < 0 || i >= net.len() {
        0
    } else if seen_before(net, i) {
        rest_size(net, i + 1)
    } else {
        kinds_at(net, net[i].0).len() + rest_size(net, i + 1)
    }
}

proof fn lemma_reemit_len(a: u128, ks: Seq<Node>)
    ensures
        reemit_all(a, ks).len() == ks.len(),
    decreases ks.len(),
{
    if ks.len() > 0 {
        lemma_reemit_len(a, ks.drop_last());
    }
}

proof fn lemma_address_output_len(a: u128, ks: Seq<Node>)
    ensures
        address_output(a, ks).len() <= ks.len(),
{
    if ks.len() == 2 {
        assert(rule_output(a, ks[0], ks[1]).len() <= 2);
    } else {
        lemma_reemit_len(a, ks);
    }
}

proof fn lemma_pass_from_len(net: Seq<Record>, i: int)
    ensures
        pass_from(net, i).len() <= rest_size(net, i),
    decreases net.len() - i,
{
    if 0 <= i < net.len() {
        lemma_pass_from_len(net, i + 1);
        if !seen_before(net, i) {
            lemma_address_output_len(net[i].0, kinds_at(net, net[i].0));
        }
    }
}

proof fn lemma_size_push(net: Seq<Record>, x: Record, i: int)
    requires
        0 <= i <= net.len(),
    ensures
        rest_size(net.push(x), i) == rest_size(net, i) + (if (forall|j: int|
            0 <= j < i ==> net[j].0 != x.0) {
            1nat
        } else {
            0nat
        }),
    decreases net.len() - i,
{
    let full = net.push(x);
    if i == net.len() {
        if forall|j: int| 0 <= j < i ==> net[j].0 != x.0 {
            assert(!seen_before(full, i));
            crate::engine::lemma_kinds_at_absent(net, x.0);
            lemma_kinds_at_push(net, x, x.0);
            assert(full[i] == x);
            assert(rest_size(full, i + 1) == 0);
            assert(rest_size(net, i) == 0);
        } else {
            let w = choose|j: int| 0 <= j < i && net[j].0 == x.0;
            assert(full[w].0 == full[i].0);
            assert(seen_before(full, i));
            assert(rest_size(full, i + 1) == 0);
            assert(rest_size(full, i) == 0);
            assert(rest_size(net, i) == 0);
        }
    } else {
        lemma_size_push(net, x, i + 1);
        assert(full[i] == net[i]);
        let cond_i = forall|j: int| 0 <= j < i ==> net[j].0 != x.0;
        let cond_i1 = forall|j: int| 0 <= j < i + 1 ==> net[j].0 != x.0;
        if seen_before(net, i) {
            let w = choose|j: int| 0 <= j < i && net[j].0 == net[i].0;
            assert(full[w].0 == full[i].0);
            assert(seen_before(full, i));
            assert(rest_size(full, i) == rest_size(full, i + 1));
            assert(rest_size(net, i) == rest_size(net, i + 1));
            if net[i].0 == x.0 {
                assert(net[w].0 == x.0);
                assert(!cond_i);
                assert(!cond_i1);
            } else {
                assert(cond_i == cond_i1);
            }
        } else {
            assert(!seen_before(full, i)) by {
                if seen_before(full, i) {
                    let w = choose|j: int| 0 <= j < i && full[j].0 == full[i].0;
                    assert(net[w].0 == net[i].0);
                }
            }
            lemma_kinds_at_push(net, x, net[i].0);
            assert(rest_size(full, i) == kinds_at(full, full[i].0).len() + rest_size(full, i + 1));
            assert(rest_size(net, i) == kinds_at(net, net[i].0).len() + rest_size(net, i + 1));
            if net[i].0 == x.0 {
                assert(cond_i);
                assert(!cond_i1);
                assert(kinds_at(full, full[i].0).len() == kinds_at(net, net[i].0).len() + 1);
                assert(rest_size(full, i + 1) == rest_size(net, i + 1));
            } else {
                assert(cond_i == cond_i1);
                assert(kinds_at(full, full[i].0) == kinds_at(net, net[i].0));
            }
        }
    }
}

proof fn lemma_rest_size_full(net: Seq<Record>)
    ensures
        rest_size(net, 0) == net.len(),
    decreases net.len(),
{
    if net.len() > 0 {
        let dl = net.drop_last();
        lemma_rest_size_full(dl);
        lemma_size_push(dl, net.last(), 0);
        assert(dl.push(net.last()) =~= net);
    }
}

/// The basis of termination: every rule consumes two live records and emits
/// at most two, so one full pass never increases the number of live
/// records.
pub proof fn lemma_pass_never_grows(net: Seq<Record>)
    ensures
        pass(net).len() <= net.len(),
{
    lemma_pass_from_len(net, 0);
    lemma_rest_size_full(net);
}

/// A number chain holds exactly its value in successor records.
pub proof fn lemma_nat_chain_suc_count(recs: Seq<Record>, n: nat)
    requires
        nat_chain(recs, n),
    ensures
        suc_count(recs) == n,
{
    lemma_nat_chain_prefix_suc(recs, n, n);
    assert(recs.take(n + 1int) =~= recs);
}

/// The sum is conserved: however many passes run over the initial network
/// of an `n1 + n2` addition, exactly `n1 + n2` successor records remain —
/// in particular in the normal form the driver settles on.
pub proof fn lemma_addition_network_conserves_sum(
    chain1: Seq<Record>,
    chain2: Seq<Record>,
    adder: Record,
    n1: nat,
    n2: nat,
    k: nat,
)
    requires
        nat_chain(chain1, n1),
        nat_chain(chain2, n2),
        adder.1 is Add,
    ensures
        suc_count(iterate(chain1 + chain2 + seq![adder], k)) == n1 + n2,
{
    lemma_nat_chain_suc_count(chain1, n1);
    lemma_nat_chain_suc_count(chain2, n2);
    lemma_suc_count_concat(chain1, chain2);
    lemma_suc_count_concat(chain1 + chain2, seq![adder]);
    lemma_suc_count_single(adder);
    lemma_iterate_preserves_suc_count(chain1 + chain2 + seq![adder], k);
}

} // verus!
