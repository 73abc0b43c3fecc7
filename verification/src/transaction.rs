//! The profile swap transaction.
//!
//! A [`SwapTransaction`] walks an ordered list of planned moves.  The caller
//! performs each move and reports back; the transaction remembers the inverse
//! of every move that succeeded.  At any point it can produce the unwind
//! plan: the inverses of exactly the moves done so far, in reverse order —
//! the plan that [`crate::swap::lemma_unwind_restores`] proves restores the
//! tree, whether the walk finished (profile deactivation) or stopped at a
//! failure (rollback).

use crate::swap::FileMover;
use crate::swap::SwapView;
use crate::swap::invert_view;
use crate::swap::unwind_of;
use vstd::prelude::*;

verus! {

/// One planned filesystem move, handed to the shell that carries it out.
pub struct RenameOp {
    /// The file to move.
    pub from: String,
    /// Where to move it.
    pub to: String,
    /// Refresh the destination's modification time after the move.
    pub update_time: bool,
}

/// The pair of paths an op names, for use in contracts.
pub open spec fn op_swap(op: RenameOp) -> SwapView {
    SwapView { from: op.from@, to: op.to@ }
}

/// The pairs of paths a list of movers names.
pub open spec fn views_of(ms: Seq<FileMover>) -> Seq<SwapView> {
    ms.map_values(|m: FileMover| m@)
}

/// An in-flight profile swap: planned moves, and the inverses of those
/// already carried out.
pub struct SwapTransaction {
    planned: Vec<FileMover>,
    done: usize,
    applied: Vec<FileMover>,
    update_times: bool,
}

impl SwapTransaction {
    /// The planned moves, in order.
    pub closed spec fn planned_views(&self) -> Seq<SwapView> {
        views_of(self.planned@)
    }

    /// How many of the planned moves have been carried out.
    pub closed spec fn done_count(&self) -> int {
        self.done as int
    }

    /// Whether the moves refresh the moved files' modification times.
    pub closed spec fn touches(&self) -> bool {
        self.update_times
    }

    /// The transaction's books are in order: the inverses held are exactly
    /// those of the moves done so far.
    pub closed spec fn wf(&self) -> bool {
        &&& self.done <= self.planned.len()
        &&& self.applied.len() == self.done
        &&& forall|i: int|
            0 <= i < self.done ==> self.applied@[i]@ == invert_view(#[trigger] self.planned@[i]@)
    }

    /// Start a transaction over `movers`; `update_times` says whether each
    /// move refreshes the moved file's modification time.
    pub fn new(movers: Vec<FileMover>, update_times: bool) -> (r: SwapTransaction)
        ensures
            r.wf(),
            r.planned_views() == views_of(movers@),
            r.done_count() == 0,
            r.touches() == update_times,
    {
        SwapTransaction { planned: movers, done: 0, applied: Vec::new(), update_times }
    }

    /// Whether every planned move has been carried out.
    pub fn is_done(&self) -> (r: bool)
        requires
            self.wf(),
        ensures
            r == (self.done_count() == self.planned_views().len()),
    {
        self.done == self.planned.len()
    }

    /// The next move to carry out, or `None` when the walk is over.
    pub fn next_op(&self) -> (r: Option<RenameOp>)
        requires
            self.wf(),
        ensures
            match r {
                Some(op) => {
                    &&& self.done_count() < self.planned_views().len()
                    &&& op_swap(op) == self.planned_views()[self.done_count()]
                    &&& op.update_time == self.touches()
                },
                None => self.done_count() == self.planned_views().len(),
            },
    {
        if self.done < self.planned.len() {
            let m = &self.planned[self.done];
            Some(RenameOp { from: m.get_from(), to: m.get_to(), update_time: self.update_times })
        } else {
            None
        }
    }

    /// Record that the move `next_op` handed out succeeded: its inverse is
    /// added to the books.
    pub fn op_succeeded(&mut self)
        requires
            old(self).wf(),
            old(self).done_count() < old(self).planned_views().len(),
        ensures
            final(self).wf(),
            final(self).planned_views() == old(self).planned_views(),
            final(self).done_count() == old(self).done_count() + 1,
            final(self).touches() == old(self).touches(),
    {
        let inverse = self.planned[self.done].duplicate().invert();
        self.applied.push(inverse);
        self.done = self.done + 1;
    }

    /// The plan that undoes everything done so far: the inverse of each
    /// carried-out move, in reverse order, none refreshing timestamps.
    ///
    /// When the walk is over this deactivates the profile; when it stopped
    /// at a failed move this rolls the tree back to where it started.
    pub fn unwind_ops(&self) -> (r: Vec<RenameOp>)
        requires
            self.wf(),
        ensures
            r@.map_values(|op: RenameOp| op_swap(op)) == unwind_of(
                self.planned_views().take(self.done_count()),
            ),
            forall|i: int| 0 <= i < r@.len() ==> !(#[trigger] r@[i]).update_time,
    {
        let ghost prefix = self.planned_views().take(self.done_count());
        let mut r: Vec<RenameOp> = Vec::new();
        let mut i = self.done;
        while i > 0
            invariant
                self.wf(),
                i <= self.done,
                prefix == self.planned_views().take(self.done_count()),
                r@.len() == self.done - i,
                forall|j: int|
                    0 <= j < r@.len() ==> op_swap(#[trigger] r@[j]) == invert_view(
                        prefix[self.done_count() - 1 - j],
                    ),
                forall|j: int| 0 <= j < r@.len() ==> !(#[trigger] r@[j]).update_time,
            decreases i,
        {
            i = i - 1;
            let inv = self.planned[i].duplicate().invert();
            let (from, to) = (inv.get_from(), inv.get_to());
            r.push(RenameOp { from, to, update_time: false });
        }
        proof {
            let lhs = r@.map_values(|op: RenameOp| op_swap(op));
            let rhs = unwind_of(prefix);
            assert forall|j: int| 0 <= j < rhs.len() implies lhs[j] == rhs[j] by {
                assert(rhs[j] == invert_view(prefix.reverse()[j]));
                assert(prefix.reverse()[j] == prefix[prefix.len() - 1 - j]);
            }
            assert(lhs =~= rhs);
        }
        r
    }
}

} // verus!
