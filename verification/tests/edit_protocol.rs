use adder_net::edits::EditOp;
use adder_net::edits::InvalidEdit;
use adder_net::edits::Network;
use adder_net::node::Node;
use adder_net::node::Record;

fn small_net() -> Vec<Record> {
    vec![(1, Node::Zero), (2, Node::Suc(1))]
}

#[test]
fn accepted_batch_advances_revision() {
    let mut state = Network::new(small_net());
    assert_eq!(state.revision, 0);
    let batch = vec![EditOp::Insert((3, Node::Suc(2)))];
    assert_eq!(state.apply_batch(&batch), Ok(()));
    assert_eq!(state.revision, 1);
    assert_eq!(state.records, vec![(1, Node::Zero), (2, Node::Suc(1)), (3, Node::Suc(2))]);
}

#[test]
fn removing_a_record_that_is_not_live_rejects_the_batch() {
    let mut state = Network::new(small_net());
    let batch = vec![EditOp::Remove((9, Node::Zero))];
    assert_eq!(state.apply_batch(&batch), Err(InvalidEdit::RemoveMissing));
    assert_eq!(state.revision, 0);
    assert_eq!(state.records, small_net());
}

#[test]
fn inserting_a_third_record_on_an_address_rejects_the_batch() {
    let mut state = Network::new(vec![(1, Node::Zero), (1, Node::Suc(5)), (2, Node::Zero)]);
    let batch = vec![EditOp::Insert((1, Node::Conn(2)))];
    assert_eq!(state.apply_batch(&batch), Err(InvalidEdit::InsertOverConnected));
    assert_eq!(state.revision, 0);
    assert_eq!(state.records, vec![(1, Node::Zero), (1, Node::Suc(5)), (2, Node::Zero)]);
}

#[test]
fn rejected_batch_leaves_no_partial_effect() {
    // The first operation alone would be accepted; the failing second one
    // must roll the whole batch back.
    let mut state = Network::new(small_net());
    let batch = vec![
        EditOp::Insert((3, Node::Suc(2))),
        EditOp::Remove((9, Node::Zero)),
    ];
    assert_eq!(state.apply_batch(&batch), Err(InvalidEdit::RemoveMissing));
    assert_eq!(state.revision, 0);
    assert_eq!(state.records, small_net());
}

#[test]
fn a_batch_may_refill_an_address_it_emptied() {
    // Removing one of two records at an address makes room for an insert in
    // the same batch.
    let mut state = Network::new(vec![(1, Node::Zero), (1, Node::Suc(5))]);
    let batch = vec![
        EditOp::Remove((1, Node::Zero)),
        EditOp::Insert((1, Node::Conn(7))),
    ];
    assert_eq!(state.apply_batch(&batch), Ok(()));
    assert_eq!(state.records, vec![(1, Node::Suc(5)), (1, Node::Conn(7))]);
}

#[test]
fn removal_takes_one_occurrence_only() {
    let mut state = Network::new(vec![(1, Node::Zero), (1, Node::Zero)]);
    let batch = vec![EditOp::Remove((1, Node::Zero))];
    assert_eq!(state.apply_batch(&batch), Ok(()));
    assert_eq!(state.records, vec![(1, Node::Zero)]);
}
