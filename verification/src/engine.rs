//! The rewrite rule engine: one grouping pass over the whole network.
//!
//! A pass walks the live records, groups them by the address their active
//! wire terminates at, and emits a replacement set of records for every
//! address: a lone record is re-emitted unchanged, a pair is rewritten by the
//! rule matching its unordered pair of kinds, and an over-connected address
//! is re-emitted whole and flagged as anomalous.

use vstd::prelude::*;

use crate::node::Node;
use crate::node::Record;

verus! {

/// The kinds of the live records of `net` addressed at `a`, in the order in
/// which their records stand in `net`.
pub open spec fn kinds_at(net: Seq<Record>, a: u128) -> Seq<Node>
    decreases net.len(),
{
    if net.len() == 0 {
        Seq::empty()
    } else {
        let rest = kinds_at(net.drop_last(), a);
        if net.last().0 == a {
            rest.push(net.last().1)
        } else {
            rest
        }
    }
}

/// No rewrite rule matches the unordered pair of kinds: the redex is stuck
/// and both records are re-emitted unchanged.
pub open spec fn stuck_pair(k1: Node, k2: Node) -> bool {
    match (k1, k2) {
        (Node::Suc(_), Node::Add(_, _)) => false,
        (Node::Add(_, _), Node::Suc(_)) => false,
        (Node::Zero, Node::Add(_, _)) => false,
        (Node::Add(_, _), Node::Zero) => false,
        (Node::Conn(_), Node::Conn(_)) => true,
        (Node::Conn(_), _) => false,
        (_, Node::Conn(_)) => false,
        _ => true,
    }
}

/// The records replacing a redex: the kinds `k1` and `k2` share the address
/// `key`; the rule matching their unordered pair decides what is emitted.
/// Every address written is the redex's own `key` or an identifier the pair
/// already references, never a fresh one: this keeps reduction deterministic
/// whatever order addresses are processed in.
pub open spec fn rule_output(key: u128, k1: Node, k2: Node) -> Seq<Record> {
    match (k1, k2) {
        (Node::Suc(s), Node::Add(l, r)) => seq![(r, Node::Suc(key)), (s, Node::Add(l, key))],
        (Node::Add(l, r), Node::Suc(s)) => seq![(r, Node::Suc(key)), (s, Node::Add(l, key))],
        (Node::Zero, Node::Add(l, r)) => seq![(l, Node::Conn(r))],
        (Node::Add(l, r), Node::Zero) => seq![(l, Node::Conn(r))],
        (Node::Conn(_), Node::Conn(_)) => seq![(key, k1), (key, k2)],
        (Node::Conn(t), other) => seq![(t, other)],
        (other, Node::Conn(t)) => seq![(t, other)],
        _ => seq![(key, k1), (key, k2)],
    }
}

/// Every kind of `ks` re-emitted unchanged at the address `a`.
pub open spec fn reemit_all(a: u128, ks: Seq<Node>) -> Seq<Record>
    decreases ks.len(),
{
    if ks.len() == 0 {
        Seq::empty()
    } else {
        reemit_all(a, ks.drop_last()).push((a, ks.last()))
    }
}

/// What one pass emits for the address `a` holding the kinds `ks` of all
/// live records at `a`: nothing for an empty group, the record unchanged for
/// a lone node, the matching rule's output for a redex, and every record
/// unchanged for an over-connected address.
pub open spec fn address_output(a: u128, ks: Seq<Node>) -> Seq<Record> {
    if ks.len() == 2 {
        rule_output(a, ks[0], ks[1])
    } else {
        reemit_all(a, ks)
    }
}

/// The group of kinds at one address is anomalous: more than two live
/// records share the address, or exactly two do but no rule matches them.
pub open spec fn kinds_malformed(ks: Seq<Node>) -> bool {
    ks.len() > 2 || (ks.len() == 2 && stuck_pair(ks[0], ks[1]))
}

/// An earlier record of `net` has the same address as `net[i]`.
pub open spec fn seen_before(net: Seq<Record>, i: int) -> bool {
    exists|j: int| 0 <= j < i && net[j].0 == net[i].0
}

/// What one pass emits for the addresses of `net[i..]` not already emitted
/// for: the output of each address, in order of first occurrence.
pub open spec fn pass_from(net: Seq<Record>, i: int) -> Seq<Record>
    decreases net.len() - i,
{
    if i < 0 || i >= net.len() {
        Seq::empty()
    } else if seen_before(net, i) {
        pass_from(net, i + 1)
    } else {
        address_output(net[i].0, kinds_at(net, net[i].0)) + pass_from(net, i + 1)
    }
}

/// One full pass of the rule engine over the network `net`.
pub open spec fn pass(net: Seq<Record>) -> Seq<Record> {
    pass_from(net, 0)
}

/// Some address of `net` is anomalous (over-connected or stuck).
pub open spec fn pass_malformed(net: Seq<Record>) -> bool {
    exists|i: int| 0 <= i < net.len() && kinds_malformed(kinds_at(net, net[i].0))
}

/// No record of `net` is addressed at `a`, so the group there is empty.
pub proof fn lemma_kinds_at_absent(net: Seq<Record>, a: u128)
    requires
        forall|j: int| 0 <= j < net.len() ==> net[j].0 != a,
    ensures
        kinds_at(net, a) == Seq::<Node>::empty(),
    decreases net.len(),
{
    if net.len() > 0 {
        lemma_kinds_at_absent(net.drop_last(), a);
    }
}

/// Exactly one record of `net` is addressed at `a`, so the group there is
/// that record's kind alone.
pub proof fn lemma_kinds_at_unique(net: Seq<Record>, a: u128, i: int)
    requires
        0 <= i < net.len(),
        net[i].0 == a,
        forall|j: int| 0 <= j < net.len() && j != i ==> net[j].0 != a,
    ensures
        kinds_at(net, a) == seq![net[i].1],
    decreases net.len(),
{
    if i == net.len() - 1 {
        lemma_kinds_at_absent(net.drop_last(), a);
        assert(kinds_at(net, a) =~= seq![net[i].1]);
    } else {
        lemma_kinds_at_unique(net.drop_last(), a, i);
    }
}

/// Appending one record extends exactly the group at its address.
pub proof fn lemma_kinds_at_push(net: Seq<Record>, x: Record, b: u128)
    ensures
        kinds_at(net.push(x), b) == if x.0 == b {
            kinds_at(net, b).push(x.1)
        } else {
            kinds_at(net, b)
        },
{
    assert(net.push(x).drop_last() =~= net);
}

/// Collects the kinds of all live records of `net` addressed at `a`.
pub fn collect_kinds(net: &Vec<Record>, a: u128) -> (ks: Vec<Node>)
    ensures
        ks@ == kinds_at(net@, a),
{
    let mut ks: Vec<Node> = Vec::new();
    for j in 0..net.len()
        invariant
            ks@ == kinds_at(net@.take(j as int), a),
    {
        if net[j].0 == a {
            ks.push(net[j].1);
        }
        proof {
            assert(net@.take(j + 1).drop_last() =~= net@.take(j as int));
        }
    }
    proof {
        assert(net@.take(net@.len() as int) =~= net@);
    }
    ks
}

/// Whether the rule table has no entry for the unordered pair of kinds.
pub fn is_stuck_pair(k1: Node, k2: Node) -> (r: bool)
    ensures
        r == stuck_pair(k1, k2),
{
    match (k1, k2) {
        (Node::Suc(_), Node::Add(_, _)) => false,
        (Node::Add(_, _), Node::Suc(_)) => false,
        (Node::Zero, Node::Add(_, _)) => false,
        (Node::Add(_, _), Node::Zero) => false,
        (Node::Conn(_), Node::Conn(_)) => true,
        (Node::Conn(_), _) => false,
        (_, Node::Conn(_)) => false,
        _ => true,
    }
}

/// Applies the rewrite rule for the redex whose kinds `k1` and `k2` share
/// the address `key`, consuming both records and emitting their replacement.
pub fn apply_rule(key: u128, k1: Node, k2: Node) -> (out: Vec<Record>)
    ensures
        out@ == rule_output(key, k1, k2),
{
    let mut out: Vec<Record> = Vec::new();
    match (k1, k2) {
        (Node::Suc(s), Node::Add(l, r)) | (Node::Add(l, r), Node::Suc(s)) => {
            out.push((r, Node::Suc(key)));
            out.push((s, Node::Add(l, key)));
            proof {
                assert(out@ =~= rule_output(key, k1, k2));
            }
        }
        (Node::Zero, Node::Add(l, r)) | (Node::Add(l, r), Node::Zero) => {
            out.push((l, Node::Conn(r)));
            proof {
                assert(out@ =~= rule_output(key, k1, k2));
            }
        }
        (Node::Conn(_), Node::Conn(_)) => {
            out.push((key, k1));
            out.push((key, k2));
            proof {
                assert(out@ =~= rule_output(key, k1, k2));
            }
        }
        (Node::Conn(t), other) | (other, Node::Conn(t)) => {
            out.push((t, other));
            proof {
                assert(out@ =~= rule_output(key, k1, k2));
            }
        }
        _ => {
            out.push((key, k1));
            out.push((key, k2));
            proof {
                assert(out@ =~= rule_output(key, k1, k2));
            }
        }
    }
    out
}

/// What the rule engine emits for the address `key`, given the kinds `ks` of
/// all live records at `key`, and whether the address is anomalous.
pub fn address_step(key: u128, ks: &Vec<Node>) -> (r: (Vec<Record>, bool))
    ensures
        r.0@ == address_output(key, ks@),
        r.1 == kinds_malformed(ks@),
{
    if ks.len() == 2 {
        let stuck = is_stuck_pair(ks[0], ks[1]);
        (apply_rule(key, ks[0], ks[1]), stuck)
    } else {
        let mut out: Vec<Record> = Vec::new();
        for j in 0..ks.len()
            invariant
                out@ == reemit_all(key, ks@.take(j as int)),
        {
            out.push((key, ks[j]));
            proof {
                assert(ks@.take(j + 1).drop_last() =~= ks@.take(j as int));
            }
        }
        proof {
            assert(ks@.take(ks@.len() as int) =~= ks@);
        }
        (out, ks.len() > 2)
    }
}

/// One full pass of the rule engine: groups the live records of `net` by
/// address, emits the matching output for each address in order of first
/// occurrence, and reports whether any address was anomalous. Anomalies are
/// contained: the offending address is re-emitted unchanged and every other
/// address is still rewritten.
pub fn engine_pass(net: &Vec<Record>) -> (r: (Vec<Record>, bool))
    ensures
        r.0@ == pass(net@),
        r.1 == pass_malformed(net@),
{
    let mut out: Vec<Record> = Vec::new();
    let mut malformed = false;
    proof {
        assert(Seq::<Record>::empty() + pass_from(net@, 0) =~= pass_from(net@, 0));
    }
    for i in 0..net.len()
        invariant
            pass(net@) == out@ + pass_from(net@, i as int),
            malformed == exists|ii: int|
                0 <= ii < i && kinds_malformed(kinds_at(net@, net@[ii].0)),
    {
        let a = net[i].0;
        let mut seen = false;
        for j in 0..i
            invariant
                i < net@.len(),
                a == net@[i as int].0,
                seen == exists|jj: int| 0 <= jj < j && net@[jj].0 == a,
        {
            if net[j].0 == a {
                seen = true;
            }
        }
        if !seen {
            let ks = collect_kinds(net, a);
            let (mut recs, m) = address_step(a, &ks);
            proof {
                assert(!seen_before(net@, i as int));
                assert(pass_from(net@, i as int) == recs@ + pass_from(net@, i as int + 1));
                assert((out@ + recs@) + pass_from(net@, i as int + 1) =~= out@ + (recs@
                    + pass_from(net@, i as int + 1)));
            }
            out.append(&mut recs);
            if m {
                malformed = true;
            }
            proof {
                assert(kinds_malformed(kinds_at(net@, net@[i as int].0)) == m);
            }
        } else {
            proof {
                let j = choose|jj: int| 0 <= jj < i && net@[jj].0 == a;
                assert(seen_before(net@, i as int));
                assert(kinds_at(net@, net@[j].0) == kinds_at(net@, net@[i as int].0));
            }
        }
    }
    proof {
        assert(pass_from(net@, net@.len() as int) =~= Seq::<Record>::empty());
        assert(out@ + Seq::<Record>::empty() =~= out@);
    }
    (out, malformed)
}

} // verus!
