//! The incremental edit protocol: ordered batches of record inserts and
//! removals, applied atomically at a new revision. Either the whole batch
//! takes effect and the revision advances, or the batch is rejected and the
//! network is left exactly as it was.

use vstd::prelude::*;

use crate::engine::kinds_at;
use crate::node::Record;

verus! {

/// One operation of an edit batch.
#[derive(Debug, Clone, Copy)]
pub enum EditOp {
    /// Make one more occurrence of the record live.
    Insert(Record),
    /// Remove one live occurrence of the record.
    Remove(Record),
}

/// Why an edit batch was rejected. A rejected batch has no effect at all.
#[derive(Debug, Clone, Copy, PartialEq, Eq, Structural)]
pub enum InvalidEdit {
    /// A removal named a record that is not currently live.
    RemoveMissing,
    /// An insertion would put a third live record onto one address.
    InsertOverConnected,
}

/// The position of the first record of `net` equal to `rec`, or `-1` when
/// there is none.
pub open spec fn first_index_of(net: Seq<Record>, rec: Record) -> int
    decreases net.len(),
{
    if net.len() == 0 {
        -1
    } else if net[0] == rec {
        0
    } else {
        let rest = first_index_of(net.drop_first(), rec);
        if rest == -1 {
            -1
        } else {
            rest + 1
        }
    }
}

/// What one edit operation does to the live records: an insert is rejected
/// when its address already holds two live records, a removal is rejected
/// when the record has no live occurrence.
pub open spec fn apply_op(net: Seq<Record>, op: EditOp) -> Result<Seq<Record>, InvalidEdit> {
    match op {
        EditOp::Insert(rec) => if kinds_at(net, rec.0).len() >= 2 {
            Result::Err(InvalidEdit::InsertOverConnected)
        } else {
            Result::Ok(net.push(rec))
        },
        EditOp::Remove(rec) => if !net.contains(rec) {
            Result::Err(InvalidEdit::RemoveMissing)
        } else {
            Result::Ok(net.remove(first_index_of(net, rec)))
        },
    }
}

/// What the operations `ops[i..]` do to the live records, applied in order;
/// the first rejected operation rejects the whole remainder.
pub open spec fn apply_ops_from(net: Seq<Record>, ops: Seq<EditOp>, i: int) -> Result<
    Seq<Record>,
    InvalidEdit,
>
    decreases ops.len() - i,
{
    if i < 0 || i >= ops.len() {
        Result::Ok(net)
    } else {
        match apply_op(net, ops[i]) {
            Result::Ok(next) => apply_ops_from(next, ops, i + 1),
            Result::Err(e) => Result::Err(e),
        }
    }
}

/// What a whole batch does to the live records, or why it is rejected.
pub open spec fn apply_ops(net: Seq<Record>, ops: Seq<EditOp>) -> Result<Seq<Record>, InvalidEdit> {
    apply_ops_from(net, ops, 0)
}

proof fn lemma_first_index_of(net: Seq<Record>, rec: Record, j: int)
    requires
        0 <= j < net.len(),
        net[j] == rec,
        forall|k: int| 0 <= k < j ==> net[k] != rec,
    ensures
        first_index_of(net, rec) == j,
    decreases j,
{
    if j > 0 {
        lemma_first_index_of(net.drop_first(), rec, j - 1);
    }
}

fn copy_records(v: &Vec<Record>) -> (c: Vec<Record>)
    ensures
        c@ == v@,
{
    let mut c: Vec<Record> = Vec::new();
    for i in 0..v.len()
        invariant
            c@ == v@.take(i as int),
    {
        c.push(v[i]);
        proof {
            assert(v@.take(i + 1) =~= v@.take(i as int).push(v@[i as int]));
        }
    }
    proof {
        assert(v@.take(v@.len() as int) =~= v@);
    }
    c
}

/// A network snapshot at a revision: the multiset of live records, and the
/// revision number that the last accepted batch advanced to.
pub struct Network {
    /// The live records.
    pub records: Vec<Record>,
    /// The revision of the snapshot; each accepted batch advances it by one.
    pub revision: u64,
}

impl Network {
    /// Wraps an initial population of records as the snapshot at revision 0.
    pub fn new(records: Vec<Record>) -> (n: Network)
        ensures
            n.records == records,
            n.revision == 0,
    {
        Network { records, revision: 0 }
    }

    /// Applies one ordered batch of edits as a unit. When every operation is
    /// legal the records become what the batch makes of them and the
    /// revision advances by one; otherwise the first offending operation's
    /// error comes back and the snapshot is left untouched.
    pub fn apply_batch(&mut self, batch: &Vec<EditOp>) -> (r: Result<(), InvalidEdit>)
        requires
            old(self).revision < u64::MAX,
        ensures
            apply_ops(old(self).records@, batch@) is Ok ==> (r is Ok && final(self).records@
                == apply_ops(old(self).records@, batch@)->Ok_0 && final(self).revision == old(
                self,
            ).revision + 1),
            apply_ops(old(self).records@, batch@) is Err ==> (r == Result::<
                (),
                InvalidEdit,
            >::Err(apply_ops(old(self).records@, batch@)->Err_0) && *final(self) == *old(self)),
    {
        let mut work = copy_records(&self.records);
        for i in 0..batch.len()
            invariant
                apply_ops(old(self).records@, batch@) == apply_ops_from(work@, batch@, i as int),
                *self == *old(self),
        {
            match batch[i] {
                EditOp::Insert(rec) => {
                    let ks = crate::engine::collect_kinds(&work, rec.0);
                    if ks.len() >= 2 {
                        return Result::Err(InvalidEdit::InsertOverConnected);
                    }
                    work.push(rec);
                },
                EditOp::Remove(rec) => {
                    let mut found = false;
                    let mut at: usize = 0;
                    for j in 0..work.len()
                        invariant
                            !found ==> forall|k: int| 0 <= k < j ==> work@[k] != rec,
                            found ==> (at < j <= work@.len() && work@[at as int] == rec
                                && forall|k: int| 0 <= k < at ==> work@[k] != rec),
                    {
                        if !found && work[j].0 == rec.0 && work[j].1 == rec.1 {
                            found = true;
                            at = j;
                        }
                    }
                    if !found {
                        return Result::Err(InvalidEdit::RemoveMissing);
                    }
                    proof {
                        lemma_first_index_of(work@, rec, at as int);
                    }
                    work.remove(at);
                },
            }
        }
        self.records = work;
        self.revision = self.revision + 1;
        Result::Ok(())
    }
}

} // verus!
