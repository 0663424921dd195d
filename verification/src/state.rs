//! The proof-state store: the ordered record of statements the backend has
//! accepted, the error-status lifecycle, and rewind semantics.
//!
//! The store holds a deque of operations, most recent first: the front is
//! the tip.  State ids are assigned by the backend and strictly increase
//! over time, so along the deque they strictly decrease from front to back;
//! the ends of the recorded ranges never move backwards either.

use std::collections::VecDeque;

use vstd::prelude::*;

use crate::range::{pos_le, pos_lt, Range};

verus! {

/// One accepted statement: the backend's state id after it, and the range it
/// covers in the buffer.
#[derive(Clone, Copy, Debug)]
pub struct Operation {
    pub state_id: i64,
    pub range: Range,
}

/// The root operation: state id `1` over the empty range `1.1,1.1`.
pub open spec fn root_operation() -> Operation {
    Operation { state_id: 1, range: Range { begin: (1u64, 1u64), end: (1u64, 1u64) } }
}

impl Default for Operation {
    /// The default operation is the root: state id `1`, range `1.1,1.1`.
    fn default() -> (r: Self)
        ensures
            r == root_operation(),
    {
        Self { state_id: 1, range: Range { begin: (1, 1), end: (1, 1) } }
    }
}

/// The error-status lifecycle of the store.
#[derive(Clone, Copy, Debug, PartialEq, Eq, Structural)]
pub enum ErrorState {
    Okay,
    Error,
    Interrupted,
}

/// Well-formedness of the operation deque (front is the tip):
/// every state id is at least `1` and state ids strictly decrease from
/// front to back.
pub open spec fn ops_wf(ops: Seq<Operation>) -> bool {
    &&& forall|i: int| 0 <= i < ops.len() ==> (#[trigger] ops[i]).state_id >= 1
    &&& forall|i: int, j: int|
        0 <= i < j < ops.len() ==> (#[trigger] ops[i]).state_id > (#[trigger] ops[j]).state_id
}

/// Range ends never grow towards the back of the deque.  Statements
/// advance through the buffer, so every store the daemon builds by
/// recording accepted statements has this shape; rewinds keep suffixes
/// and so preserve it.
pub open spec fn ends_ordered(ops: Seq<Operation>) -> bool {
    forall|i: int, j: int|
        0 <= i < j < ops.len() ==> pos_le((#[trigger] ops[j]).range.end, (#[trigger] ops[i]).range.end)
}

/// The shared record of accepted statements, the last reported error range,
/// and the current error status.
pub struct State {
    pub operations: VecDeque<Operation>,
    pub last_error_range: Option<Range>,
    pub error_state: ErrorState,
}

impl State {
    /// The store invariant: the deque is well formed, and no error range is
    /// recorded while the status is `Ok`.
    pub open spec fn wf(&self) -> bool {
        &&& ops_wf(self.operations@)
        &&& self.error_state == ErrorState::Okay ==> self.last_error_range is None
    }

    /// The tip of the store: the front operation, or the root when empty.
    pub open spec fn spec_tip(&self) -> Operation {
        if self.operations@.len() > 0 {
            self.operations@[0]
        } else {
            root_operation()
        }
    }

    /// Creates an empty store with status `Ok`.
    pub fn new() -> (r: Self)
        ensures
            r.wf(),
            r.operations@.len() == 0,
            r.last_error_range is None,
            r.error_state == ErrorState::Okay,
    {
        Self { operations: VecDeque::new(), last_error_range: None, error_state: ErrorState::Okay }
    }

    /// The frontmost operation, or the root default when the store is empty.
    pub fn tip(&self) -> (r: Operation)
        ensures
            r == self.spec_tip(),
    {
        if self.operations.len() > 0 {
            self.operations[0]
        } else {
            Operation::default()
        }
    }

    /// The state id of the tip; `1` when the store is empty.
    pub fn tip_state_id(&self) -> (r: i64)
        ensures
            r == self.spec_tip().state_id,
            self.wf() ==> r >= 1,
    {
        self.tip().state_id
    }

    /// Records a newly accepted operation at the front.  The backend hands
    /// out strictly increasing state ids, so the new operation's id must
    /// come after the current tip's (this is all that spec-level
    /// well-formedness asks; the range-end ordering of `ends_ordered` is
    /// additionally preserved when the new range does not end before the
    /// tip's, as ranges of successively accepted statements never do).
    pub fn push_operation(&mut self, op: Operation)
        requires
            old(self).wf(),
            op.state_id >= 1,
            old(self).operations@.len() > 0 ==> op.state_id > old(self).operations@[0].state_id,
        ensures
            final(self).wf(),
            final(self).operations@ == seq![op] + old(self).operations@,
            final(self).last_error_range == old(self).last_error_range,
            final(self).error_state == old(self).error_state,
            ends_ordered(old(self).operations@) && (old(self).operations@.len() > 0 ==> pos_le(
                old(self).operations@[0].range.end,
                op.range.end,
            )) ==> ends_ordered(final(self).operations@),
    {
        self.operations.push_front(op);
        proof {
            let ops = self.operations@;
            let prev = old(self).operations@;
            assert forall|i: int, j: int| 0 <= i < j < ops.len() implies (#[trigger] ops[i]).state_id
                > (#[trigger] ops[j]).state_id by {
                if i > 0 {
                    assert(ops[i] == prev[i - 1]);
                    assert(ops[j] == prev[j - 1]);
                } else {
                    assert(ops[j] == prev[j - 1]);
                    if j > 1 {
                        assert(prev[0].state_id > prev[j - 1].state_id);
                    }
                }
            }
            if ends_ordered(prev) && (prev.len() > 0 ==> pos_le(prev[0].range.end, op.range.end)) {
                assert forall|i: int, j: int| 0 <= i < j < ops.len() implies pos_le(
                    (#[trigger] ops[j]).range.end,
                    (#[trigger] ops[i]).range.end,
                ) by {
                    if i > 0 {
                        assert(ops[i] == prev[i - 1]);
                        assert(ops[j] == prev[j - 1]);
                    } else {
                        assert(ops[j] == prev[j - 1]);
                        if j > 1 {
                            assert(pos_le(prev[j - 1].range.end, prev[0].range.end));
                        }
                    }
                }
            }
        }
    }

    /// Removes and returns the tip, or `None` when the store is empty.
    pub fn pop_front(&mut self) -> (r: Option<Operation>)
        requires
            old(self).wf(),
        ensures
            final(self).wf(),
            final(self).last_error_range == old(self).last_error_range,
            final(self).error_state == old(self).error_state,
            match r {
                Some(op) => old(self).operations@.len() > 0 && op == old(self).operations@[0]
                    && final(self).operations@ == old(self).operations@.drop_first(),
                None => old(self).operations@.len() == 0 && final(self).operations@ == old(
                    self,
                ).operations@,
            },
    {
        self.operations.pop_front()
    }

    /// Sets the status to `Error` and records the offending range, if one is
    /// known.
    pub fn set_error(&mut self, range: Option<Range>)
        requires
            old(self).wf(),
        ensures
            final(self).wf(),
            final(self).operations@ == old(self).operations@,
            final(self).error_state == ErrorState::Error,
            final(self).last_error_range == range,
    {
        self.error_state = ErrorState::Error;
        self.last_error_range = range;
    }

    /// Sets the status to `Interrupted`; the recorded error range is kept.
    pub fn set_interrupted(&mut self)
        requires
            old(self).wf(),
        ensures
            final(self).wf(),
            final(self).operations@ == old(self).operations@,
            final(self).error_state == ErrorState::Interrupted,
            final(self).last_error_range == old(self).last_error_range,
    {
        self.error_state = ErrorState::Interrupted;
    }

    /// Returns the status to `Ok` and forgets the error range.
    pub fn clear_error(&mut self)
        requires
            old(self).wf(),
        ensures
            final(self).wf(),
            final(self).operations@ == old(self).operations@,
            final(self).error_state == ErrorState::Okay,
            final(self).last_error_range is None,
    {
        self.error_state = ErrorState::Okay;
        self.last_error_range = None;
    }

    /// Forgets the error range without touching the status.
    pub fn set_last_error_range(&mut self, range: Option<Range>)
        requires
            old(self).wf(),
            old(self).error_state == ErrorState::Okay ==> range is None,
        ensures
            final(self).wf(),
            final(self).operations@ == old(self).operations@,
            final(self).error_state == old(self).error_state,
            final(self).last_error_range == range,
    {
        self.last_error_range = range;
    }

    /// The current error status.
    pub fn get_error_status(&self) -> (r: ErrorState)
        ensures
            r == self.error_state,
    {
        self.error_state
    }

    /// A copy of the recorded operations, tip first.
    pub fn snapshot(&self) -> (r: Vec<Operation>)
        ensures
            r@ == self.operations@,
    {
        let mut out: Vec<Operation> = Vec::new();
        let mut i: usize = 0;
        while i < self.operations.len()
            invariant
                i <= self.operations@.len(),
                out@ == self.operations@.subrange(0, i as int),
            decreases self.operations@.len() - i,
        {
            out.push(self.operations[i]);
            assert(out@ =~= self.operations@.subrange(0, i + 1 as int));
            i += 1;
        }
        assert(out@ =~= self.operations@);
        out
    }

    /// The range of the operation with the given state id, if one is
    /// recorded.
    pub fn find_range_by_sid(&self, sid: i64) -> (r: Option<Range>)
        ensures
            r == spec_find_range(self.operations@, sid),
    {
        let mut i: usize = 0;
        proof {
            assert(self.operations@.skip(0) =~= self.operations@);
        }
        while i < self.operations.len()
            invariant
                i <= self.operations@.len(),
                forall|k: int| 0 <= k < i ==> (#[trigger] self.operations@[k]).state_id != sid,
                spec_find_range(self.operations@, sid) == spec_find_range(
                    self.operations@.skip(i as int),
                    sid,
                ),
            decreases self.operations@.len() - i,
        {
            proof {
                assert(self.operations@.skip(i as int)[0] == self.operations@[i as int]);
            }
            if self.operations[i].state_id == sid {
                return Some(self.operations[i].range);
            }
            proof {
                assert(self.operations@.skip(i as int).drop_first() =~= self.operations@.skip(
                    i + 1,
                ));
            }
            i += 1;
        }
        None
    }

    /// Removes every operation whose state id is greater than `sid` and
    /// returns them, tip first.
    pub fn discard_above(&mut self, sid: i64) -> (removed: Vec<Operation>)
        requires
            old(self).wf(),
        ensures
            final(self).wf(),
            final(self).error_state == old(self).error_state,
            final(self).last_error_range == old(self).last_error_range,
            removed@ + final(self).operations@ == old(self).operations@,
            forall|i: int| 0 <= i < removed@.len() ==> (#[trigger] removed@[i]).state_id > sid,
            final(self).operations@.len() > 0 ==> final(self).operations@[0].state_id <= sid,
    {
        let mut removed: Vec<Operation> = Vec::new();
        while self.operations.len() > 0 && self.operations[0].state_id > sid
            invariant
                self.wf(),
                self.error_state == old(self).error_state,
                self.last_error_range == old(self).last_error_range,
                removed@ + self.operations@ == old(self).operations@,
                forall|i: int| 0 <= i < removed@.len() ==> (#[trigger] removed@[i]).state_id > sid,
            decreases self.operations@.len(),
        {
            let front = self.operations[0];
            let popped = self.operations.pop_front();
            proof {
                assert(old(self).operations@ =~= removed@.push(front) + self.operations@);
            }
            removed.push(front);
        }
        removed
    }

    /// The frontmost operation whose end lies strictly before
    /// `(line, column)`, or the root default when there is none.  Its state
    /// id is the target of a rewind to that position.
    pub fn rewind_target(&self, line: u64, column: u64) -> (r: Operation)
        ensures
            r == spec_rewind_op(self.operations@, line, column),
    {
        let mut i: usize = 0;
        proof {
            assert(self.operations@.skip(0) =~= self.operations@);
        }
        while i < self.operations.len()
            invariant
                i <= self.operations@.len(),
                spec_rewind_op(self.operations@, line, column) == spec_rewind_op(
                    self.operations@.skip(i as int),
                    line,
                    column,
                ),
            decreases self.operations@.len() - i,
        {
            proof {
                assert(self.operations@.skip(i as int)[0] == self.operations@[i as int]);
            }
            let op = self.operations[i];
            if op.range.end.0 < line || (op.range.end.0 == line && op.range.end.1 < column) {
                return op;
            }
            proof {
                assert(self.operations@.skip(i as int).drop_first() =~= self.operations@.skip(
                    i + 1,
                ));
            }
            i += 1;
        }
        Operation::default()
    }
}

/// The range recorded for `sid`, searching from the tip.
pub open spec fn spec_find_range(ops: Seq<Operation>, sid: i64) -> Option<Range>
    decreases ops.len(),
{
    if ops.len() == 0 {
        None
    } else if ops[0].state_id == sid {
        Some(ops[0].range)
    } else {
        spec_find_range(ops.drop_first(), sid)
    }
}

/// The frontmost operation ending strictly before `(line, column)`, or the
/// root default when none does.
pub open spec fn spec_rewind_op(ops: Seq<Operation>, line: u64, column: u64) -> Operation
    decreases ops.len(),
{
    if ops.len() == 0 {
        root_operation()
    } else if pos_lt(ops[0].range.end, (line, column)) {
        ops[0]
    } else {
        spec_rewind_op(ops.drop_first(), line, column)
    }
}

/// The index of the operation that `spec_rewind_op` selects, when one is
/// selected.
pub open spec fn spec_rewind_index(ops: Seq<Operation>, line: u64, column: u64) -> Option<int>
    decreases ops.len(),
{
    if ops.len() == 0 {
        None
    } else if pos_lt(ops[0].range.end, (line, column)) {
        Some(0int)
    } else {
        match spec_rewind_index(ops.drop_first(), line, column) {
            Some(k) => Some(k + 1),
            None => None,
        }
    }
}

/// How many operations at the front carry a state id above `sid`.
pub open spec fn spec_cut_above(ops: Seq<Operation>, sid: i64) -> int
    decreases ops.len(),
{
    if ops.len() == 0 {
        0int
    } else if ops[0].state_id <= sid {
        0int
    } else {
        1 + spec_cut_above(ops.drop_first(), sid)
    }
}

/// A split into a removed prefix above `sid` and a remainder starting at
/// or below `sid` is exactly the cut.
pub proof fn lemma_cut_above(
    orig: Seq<Operation>,
    removed: Seq<Operation>,
    remaining: Seq<Operation>,
    sid: i64,
)
    requires
        removed + remaining == orig,
        forall|i: int| 0 <= i < removed.len() ==> (#[trigger] removed[i]).state_id > sid,
        remaining.len() > 0 ==> remaining[0].state_id <= sid,
    ensures
        spec_cut_above(orig, sid) == removed.len(),
        orig.skip(removed.len() as int) == remaining,
        orig.take(removed.len() as int) == removed,
    decreases removed.len(),
{
    if removed.len() == 0 {
        assert(orig =~= remaining);
        assert(orig.skip(0) =~= remaining);
        assert(orig.take(0) =~= removed);
    } else {
        assert(orig[0] == removed[0]);
        assert(removed.drop_first() + remaining =~= orig.drop_first());
        lemma_cut_above(orig.drop_first(), removed.drop_first(), remaining, sid);
        assert(orig.skip(removed.len() as int) =~= orig.drop_first().skip(
            removed.len() as int - 1,
        ));
        assert(orig.take(removed.len() as int) =~= removed);
    }
}

/// When the store holds no error, no error range is recorded.
pub proof fn lemma_ok_no_error_range(s: &State)
    requires
        s.wf(),
        s.error_state == ErrorState::Okay,
    ensures
        s.last_error_range is None,
{
}

/// State ids strictly decrease from the tip towards the back of the store.
pub proof fn lemma_state_ids_decrease_from_tip(s: &State)
    requires
        s.wf(),
    ensures
        forall|i: int, j: int|
            0 <= i < j < s.operations@.len() ==> (#[trigger] s.operations@[i]).state_id
                > (#[trigger] s.operations@[j]).state_id,
{
}

/// The reported tip state id is at least `1`, and exactly `1` when the store
/// is empty.
pub proof fn lemma_tip_state_id_at_least_one(s: &State)
    requires
        s.wf(),
    ensures
        s.spec_tip().state_id >= 1,
        s.operations@.len() == 0 ==> s.spec_tip().state_id == 1,
{
}

/// Rewinding to a position keeps only operations ending strictly before it.
/// When some operation ends strictly before `(line, column)`, the selected
/// operation is the one at the selected index, the operations with state ids
/// at most the target are exactly the selected operation and those behind
/// it, and each of them ends strictly before `(line, column)`.  The
/// `ends_ordered` hypothesis holds of every store built by recording
/// successively accepted statements.
pub proof fn lemma_rewind_to_position(ops: Seq<Operation>, line: u64, column: u64)
    requires
        ops_wf(ops),
        ends_ordered(ops),
        spec_rewind_index(ops, line, column) is Some,
    ensures
        ({
            let k = spec_rewind_index(ops, line, column)->Some_0;
            &&& 0 <= k < ops.len()
            &&& ops[k] == spec_rewind_op(ops, line, column)
            &&& forall|i: int|
                k <= i < ops.len() ==> pos_lt((#[trigger] ops[i]).range.end, (line, column))
            &&& forall|i: int|
                0 <= i < ops.len() ==> ((#[trigger] ops[i]).state_id <= spec_rewind_op(
                    ops,
                    line,
                    column,
                ).state_id <==> i >= k)
        }),
    decreases ops.len(),
{
    let k = spec_rewind_index(ops, line, column)->Some_0;
    if pos_lt(ops[0].range.end, (line, column)) {
        assert(k == 0);
        assert forall|i: int| k <= i < ops.len() implies pos_lt(
            (#[trigger] ops[i]).range.end,
            (line, column),
        ) by {
            if i > 0 {
                assert(pos_le(ops[i].range.end, ops[0].range.end));
            }
        }
        assert forall|i: int| 0 <= i < ops.len() implies ((#[trigger] ops[i]).state_id
            <= spec_rewind_op(ops, line, column).state_id <==> i >= k) by {
            if i > 0 {
                assert(ops[0].state_id > ops[i].state_id);
            }
        }
    } else {
        let tail = ops.drop_first();
        assert(ops_wf(tail)) by {
            assert forall|i: int| 0 <= i < tail.len() implies (#[trigger] tail[i]).state_id
                >= 1 by {
                assert(tail[i] == ops[i + 1]);
            }
            assert forall|i: int, j: int| 0 <= i < j < tail.len() implies (#[trigger] tail[i]).state_id
                > (#[trigger] tail[j]).state_id by {
                assert(tail[i] == ops[i + 1]);
                assert(tail[j] == ops[j + 1]);
            }
        }
        assert(ends_ordered(tail)) by {
            assert forall|i: int, j: int| 0 <= i < j < tail.len() implies pos_le(
                (#[trigger] tail[j]).range.end,
                (#[trigger] tail[i]).range.end,
            ) by {
                assert(tail[i] == ops[i + 1]);
                assert(tail[j] == ops[j + 1]);
            }
        }
        lemma_rewind_to_position(tail, line, column);
        let kt = spec_rewind_index(tail, line, column)->Some_0;
        assert(k == kt + 1);
        assert forall|i: int| k <= i < ops.len() implies pos_lt(
            (#[trigger] ops[i]).range.end,
            (line, column),
        ) by {
            assert(ops[i] == tail[i - 1]);
        }
        assert forall|i: int| 0 <= i < ops.len() implies ((#[trigger] ops[i]).state_id
            <= spec_rewind_op(ops, line, column).state_id <==> i >= k) by {
            if i == 0 {
                assert(tail[kt] == ops[kt + 1]);
                assert(ops[0].state_id > ops[kt + 1].state_id);
            } else {
                assert(ops[i] == tail[i - 1]);
            }
        }
    }
}

} // verus!
