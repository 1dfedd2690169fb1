use adder_net::decode::decode;
use adder_net::driver::is_normal;
use adder_net::driver::multiplicity_change;
use adder_net::driver::reduce_to_normal;
use adder_net::driver::same_records;
use adder_net::edits::EditOp;
use adder_net::edits::Network;
use adder_net::node::Node;
use adder_net::node::Record;

/// The initial network for `n1 + n2` with deterministic identifiers:
/// chain one at 10, 11, ..., chain two at 20, 21, ..., the adder at the head
/// of chain one, delivering the sum at 99.
fn manual_add(n1: u64, n2: u64) -> Vec<Record> {
    let mut net: Vec<Record> = Vec::new();
    net.push((10, Node::Zero));
    for i in 1..=n1 {
        net.push((10 + i as u128, Node::Suc(10 + i as u128 - 1)));
    }
    net.push((20, Node::Zero));
    for i in 1..=n2 {
        net.push((20 + i as u128, Node::Suc(20 + i as u128 - 1)));
    }
    net.push((10 + n1 as u128, Node::Add(20 + n2 as u128, 99)));
    net
}

fn reduce_and_decode(net: Vec<Record>, budget: u64) -> Option<u64> {
    let outcome = reduce_to_normal(net, budget);
    assert!(outcome.normal);
    decode(&outcome.network, 99)
}

#[test]
fn add_3_4_decodes_to_7() {
    assert_eq!(reduce_and_decode(manual_add(3, 4), 64), Some(7));
}

#[test]
fn add_0_0_decodes_to_0() {
    assert_eq!(reduce_and_decode(manual_add(0, 0), 64), Some(0));
}

#[test]
fn add_0_5_decodes_to_5() {
    assert_eq!(reduce_and_decode(manual_add(0, 5), 64), Some(5));
}

#[test]
fn add_4_0_decodes_to_4() {
    assert_eq!(reduce_and_decode(manual_add(4, 0), 64), Some(4));
}

#[test]
fn add_halts_within_linear_passes() {
    // The driver reaches the normal form of an n1 + n2 network within
    // n1 + n2 + 2 replacing passes.
    let (n1, n2) = (3u64, 4u64);
    let outcome = reduce_to_normal(manual_add(n1, n2), n1 + n2 + 2);
    assert!(outcome.normal);
    assert!(outcome.applied <= n1 + n2 + 2);
    assert!(!outcome.malformed);
}

#[test]
fn built_add_3_4_decodes_to_7() {
    // Same scenario through the builder, so the identifiers come from the
    // real generator collaborator.
    let (nat1, nat2, adder) = Node::construct_add(3, 4, 7777);
    let mut net = nat1;
    net.extend(nat2);
    net.push(adder);
    let outcome = reduce_to_normal(net, 64);
    assert!(outcome.normal);
    assert_eq!(decode(&outcome.network, 7777), Some(7));
}

#[test]
fn decrement_left_operand_redecodes_to_6() {
    // Decrement the left operand of the (3, 4) network: remove the zero and
    // the successor referencing it, put a zero where the successor stood.
    let mut state = Network::new(manual_add(3, 4));
    let batch = vec![
        EditOp::Remove((10, Node::Zero)),
        EditOp::Remove((11, Node::Suc(10))),
        EditOp::Insert((11, Node::Zero)),
    ];
    assert!(state.apply_batch(&batch).is_ok());
    assert_eq!(state.revision, 1);
    let outcome = reduce_to_normal(state.records.clone(), 64);
    assert!(outcome.normal);
    assert_eq!(decode(&outcome.network, 99), Some(6));
}

#[test]
fn increment_right_operand_redecodes_to_7() {
    // Starting from the decremented (2, 4) network, increment the right
    // operand: replace its zero with a successor to a fresh zero.
    let mut state = Network::new(manual_add(3, 4));
    let decrement = vec![
        EditOp::Remove((10, Node::Zero)),
        EditOp::Remove((11, Node::Suc(10))),
        EditOp::Insert((11, Node::Zero)),
    ];
    assert!(state.apply_batch(&decrement).is_ok());
    let increment = vec![
        EditOp::Remove((20, Node::Zero)),
        EditOp::Insert((20, Node::Suc(500))),
        EditOp::Insert((500, Node::Zero)),
    ];
    assert!(state.apply_batch(&increment).is_ok());
    assert_eq!(state.revision, 2);
    let outcome = reduce_to_normal(state.records.clone(), 64);
    assert!(outcome.normal);
    assert_eq!(decode(&outcome.network, 99), Some(7));
}

#[test]
fn editing_normal_form_matches_editing_initial_network() {
    // Incremental equivalence on one edit batch that is legal both on the
    // initial (3, 4) network and on its normal form: decrementing the right
    // operand. Reducing after either application ends in the same multiset
    // of records.
    let initial = manual_add(3, 4);
    let normal = reduce_to_normal(initial.clone(), 64);
    assert!(normal.normal);

    let batch = vec![
        EditOp::Remove((20, Node::Zero)),
        EditOp::Remove((21, Node::Suc(20))),
        EditOp::Insert((21, Node::Zero)),
    ];

    let mut edited_normal = Network::new(normal.network);
    assert!(edited_normal.apply_batch(&batch).is_ok());
    let incremental = reduce_to_normal(edited_normal.records.clone(), 64);
    assert!(incremental.normal);

    let mut edited_initial = Network::new(initial);
    assert!(edited_initial.apply_batch(&batch).is_ok());
    let from_scratch = reduce_to_normal(edited_initial.records.clone(), 64);
    assert!(from_scratch.normal);

    assert!(same_records(&incremental.network, &from_scratch.network));
    assert_eq!(decode(&incremental.network, 99), Some(6));
    assert_eq!(decode(&from_scratch.network, 99), Some(6));
}

#[test]
fn normal_form_holds_exactly_the_sum_in_successors() {
    // The conservation law on concrete values: reduction neither creates
    // nor destroys successor records, so the normal form of 3 + 4 holds
    // exactly 7 of them.
    let outcome = reduce_to_normal(manual_add(3, 4), 64);
    assert!(outcome.normal);
    let sucs: usize = outcome
        .network
        .iter()
        .filter(|(_, n)| matches!(n, Node::Suc(_)))
        .count();
    assert_eq!(sucs, 7);
}

#[test]
fn settled_delta_reports_multiplicity_changes() {
    let before: Vec<Record> = vec![(1, Node::Zero), (2, Node::Suc(1))];
    let after: Vec<Record> = vec![(2, Node::Suc(1)), (3, Node::Suc(2))];
    assert_eq!(multiplicity_change(&before, &after, &(1, Node::Zero)), -1);
    assert_eq!(multiplicity_change(&before, &after, &(2, Node::Suc(1))), 0);
    assert_eq!(multiplicity_change(&before, &after, &(3, Node::Suc(2))), 1);
}

#[test]
fn rerunning_driver_on_normal_form_changes_nothing() {
    let initial = manual_add(3, 4);
    assert!(!is_normal(&initial));
    let outcome = reduce_to_normal(initial, 64);
    assert!(outcome.normal);
    assert!(is_normal(&outcome.network));
    let again = reduce_to_normal(outcome.network.clone(), 64);
    assert!(again.normal);
    assert_eq!(again.applied, 0);
    assert_eq!(again.network, outcome.network);
}

#[test]
fn empty_network_is_already_normal() {
    let outcome = reduce_to_normal(vec![], 4);
    assert!(outcome.normal);
    assert_eq!(outcome.applied, 0);
    assert!(outcome.network.is_empty());
    assert!(!outcome.malformed);
}

#[test]
fn zero_pass_budget_leaves_network_untouched() {
    let net = manual_add(1, 1);
    let outcome = reduce_to_normal(net.clone(), 0);
    assert!(!outcome.normal);
    assert_eq!(outcome.applied, 0);
    assert_eq!(outcome.network, net);
}

#[test]
fn built_chain_head_matches_last_record() {
    let (head, recs) = Node::construct_nat(3);
    assert_eq!(recs.len(), 4);
    assert_eq!(recs[0].1, Node::Zero);
    for i in 1..4 {
        assert_eq!(recs[i].1, Node::Suc(recs[i - 1].0));
    }
    assert_eq!(head, recs[3].0);
}
