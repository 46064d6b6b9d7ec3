//! A region under synthesis, and what its constraints mean.
//!
//! `RegionHandle` passes every assignment and constraint on to the proving
//! system. The region's own record says what was asked of it and what it
//! answered. Beside it the handle keeps two records that name cells by
//! their place: of the requests made, and of those among them that were
//! accepted. A place is this: a witness cell by the position of its column in the
//! layout and its row, a constant cell by its row in the column of constants.
//! `constraints_hold` says when the constraints of a record are met by the
//! values that the record assigns.
use crate::backend::{
    handed_out, region_assign_advice, region_assign_fixed, region_constrain_constant,
    region_constrain_equal, region_enable_selector, region_record, region_selectors, FixedColumn,
    RegionEvent, RegionRef, MAX_OFFSET,
};
use crate::layout::IPCheckConfig;
use halo2_proofs::circuit::Cell;
use halo2_proofs::plonk::{Error, Selector};
use vstd::prelude::*;

verus! {

/// The place of a cell in a region.
pub enum Slot {
    /// Row `row` of the witness column at position `column` of the layout.
    Advice { column: nat, row: nat },
    /// Row `row` of the column of constants.
    Fixed { row: nat },
}

/// One request that a region accepted.
pub enum RegionOp {
    /// `value` was assigned to the cell at `slot`.
    Assign { slot: Slot, value: u8 },
    /// The cells at `left` and `right` were constrained to hold the same value.
    Equal { left: Slot, right: Slot },
    /// The cell at `slot` was constrained to hold `value`.
    Constant { slot: Slot, value: u8 },
    /// The selector was switched on at `row`.
    Select { row: nat },
}

/// The value that the record `ops` assigns to the cell at `slot`: that of
/// the latest assignment to it, if there is one.
pub open spec fn assigned_value(ops: Seq<RegionOp>, slot: Slot) -> Option<u8>
    decreases ops.len(),
{
    if ops.len() == 0 {
        None
    } else {
        match ops.last() {
            RegionOp::Assign { slot: to, value } if to == slot => Some(value),
            _ => assigned_value(ops.drop_last(), slot),
        }
    }
}

/// Whether the request `op` is met by the values that `ops` assigns. An
/// equality is met when both cells are assigned and hold the same value, a
/// constant binding when the cell is assigned that constant. Assignments and
/// selectors ask for nothing.
pub open spec fn op_holds(ops: Seq<RegionOp>, op: RegionOp) -> bool {
    match op {
        RegionOp::Equal { left, right } => assigned_value(ops, left) is Some && assigned_value(
            ops,
            left,
        ) == assigned_value(ops, right),
        RegionOp::Constant { slot, value } => assigned_value(ops, slot) == Some(value),
        RegionOp::Assign { .. } => true,
        RegionOp::Select { .. } => true,
    }
}

/// Whether every constraint of the record `ops` is met by the values that it
/// assigns.
pub open spec fn constraints_hold(ops: Seq<RegionOp>) -> bool {
    forall|k: int| 0 <= k < ops.len() ==> op_holds(ops, #[trigger] ops[k])
}

/// A cell that was assigned in a region, together with its place. Cells are
/// made and used up within one synthesis.
pub(crate) struct SymbolCell {
    cell: Cell,
    slot: Ghost<Slot>,
}

impl SymbolCell {
    /// The place of this cell.
    pub(crate) closed spec fn slot(&self) -> Slot {
        self.slot@
    }

    /// The proving system's pointer to this cell.
    pub(crate) closed spec fn pointer(&self) -> Cell {
        self.cell
    }
}

/// The answer of the region that an assignment's result stands for.
pub(crate) open spec fn pointer_of(assigned: Result<SymbolCell, Error>) -> Result<Cell, Error> {
    match assigned {
        Ok(cell) => Ok(cell.pointer()),
        Err(e) => Err(e),
    }
}

/// The error with which the region refused the request of `event`, if it did.
pub open spec fn refusal(event: RegionEvent) -> Option<Error> {
    match event {
        RegionEvent::AssignAdvice { answer: Err(e), .. } => Some(e),
        RegionEvent::AssignFixed { answer: Err(e), .. } => Some(e),
        RegionEvent::ConstrainEqual { answer: Err(e), .. } => Some(e),
        RegionEvent::ConstrainConstant { answer: Err(e), .. } => Some(e),
        RegionEvent::EnableSelector { answer: Err(e), .. } => Some(e),
        _ => None,
    }
}

/// A cell that a region has handed out stays handed out when the region's
/// record grows.
pub proof fn lemma_push_keeps_handed_out(record: Seq<RegionEvent>, event: RegionEvent, cell: Cell)
    requires
        handed_out(record, cell),
    ensures
        handed_out(record.push(event), cell),
{
    let i = choose|i: int|
        0 <= i < record.len() && match #[trigger] record[i] {
            RegionEvent::AssignAdvice { answer: Ok(c), .. } => c == cell,
            RegionEvent::AssignFixed { answer: Ok(c), .. } => c == cell,
            _ => false,
        };
    assert(record.push(event)[i] == record[i]);
}

/// A region under synthesis. The region's own record holds every request
/// made of it with its answer; the handle keeps beside it, by the place of
/// each cell, the requests made through it and those among them that the
/// region accepted.
pub struct RegionHandle<'a, 'r> {
    raw: RegionRef<'a, 'r>,
    ops: Ghost<Seq<RegionOp>>,
    asked: Ghost<Seq<RegionOp>>,
}

impl<'a, 'r> RegionHandle<'a, 'r> {
    /// The requests that the region accepted through this handle, oldest first.
    pub closed spec fn ops(&self) -> Seq<RegionOp> {
        self.ops@
    }

    /// Takes a region at the start of its synthesis. Nothing is recorded yet.
    pub fn new(raw: RegionRef<'a, 'r>) -> (handle: Self)
        ensures
            handle.ops() == Seq::<RegionOp>::empty(),
            handle.asked() == Seq::<RegionOp>::empty(),
            handle.record() == region_record(raw),
            handle.selectors() == region_selectors(raw),
    {
        RegionHandle { raw, ops: Ghost(Seq::empty()), asked: Ghost(Seq::empty()) }
    }

    /// Assigns the symbol `value` to row `row` of the witness column at
    /// `position` of `config`. The request goes to the region and is
    /// recorded as made; it is recorded as accepted unless the region
    /// refuses, and a refusal is handed on as it is.
    pub(crate) fn assign_symbol(
        &mut self,
        config: &IPCheckConfig,
        position: usize,
        row: usize,
        value: u8,
    ) -> (assigned: Result<SymbolCell, Error>)
        requires
            position < config.columns().len(),
            row <= MAX_OFFSET,
        ensures
            final(self).record() == old(self).record().push(
                RegionEvent::AssignAdvice {
                    column: config.columns()[position as int],
                    offset: row,
                    value,
                    answer: pointer_of(assigned),
                },
            ),
            final(self).selectors() == old(self).selectors(),
            forall|cell: Cell| #[trigger] old(self).owns(cell) ==> final(self).owns(cell),
            final(self).asked() == old(self).asked().push(
                RegionOp::Assign {
                    slot: Slot::Advice { column: position as nat, row: row as nat },
                    value,
                },
            ),
            match assigned {
                Ok(cell) => {
                    &&& cell.slot() == (Slot::Advice { column: position as nat, row: row as nat })
                    &&& final(self).owns(cell.pointer())
                    &&& final(self).ops() == old(self).ops().push(
                        RegionOp::Assign { slot: cell.slot(), value },
                    )
                },
                Err(_) => final(self).ops() == old(self).ops(),
            },
    {
        let ghost slot = Slot::Advice { column: position as nat, row: row as nat };
        proof {
            self.asked@ = self.asked@.push(RegionOp::Assign { slot, value });
        }
        let answer = region_assign_advice(
            &mut self.raw,
            config.column(position),
            position,
            row,
            value,
        );
        proof {
            let event = RegionEvent::AssignAdvice {
                column: config.columns()[position as int],
                offset: row,
                value,
                answer,
            };
            old(self).lemma_owned_stay(event);
            assert(self.record().last() == event);
        }
        self.settle_assignment(answer, Ghost(slot), value)
    }

    /// Assigns the constant `value` to row `row` of `column`, the column of
    /// constants. The request goes to the region and is recorded as made;
    /// it is recorded as accepted unless the region refuses, and a refusal
    /// is handed on as it is.
    pub(crate) fn assign_expected(&mut self, column: &FixedColumn, row: usize, value: u8) -> (assigned:
        Result<SymbolCell, Error>)
        requires
            row <= MAX_OFFSET,
        ensures
            final(self).record() == old(self).record().push(
                RegionEvent::AssignFixed {
                    column: *column,
                    offset: row,
                    value,
                    answer: pointer_of(assigned),
                },
            ),
            final(self).selectors() == old(self).selectors(),
            forall|cell: Cell| #[trigger] old(self).owns(cell) ==> final(self).owns(cell),
            final(self).asked() == old(self).asked().push(
                RegionOp::Assign { slot: Slot::Fixed { row: row as nat }, value },
            ),
            match assigned {
                Ok(cell) => {
                    &&& cell.slot() == (Slot::Fixed { row: row as nat })
                    &&& final(self).owns(cell.pointer())
                    &&& final(self).ops() == old(self).ops().push(
                        RegionOp::Assign { slot: cell.slot(), value },
                    )
                },
                Err(_) => final(self).ops() == old(self).ops(),
            },
    {
        let ghost slot = Slot::Fixed { row: row as nat };
        proof {
            self.asked@ = self.asked@.push(RegionOp::Assign { slot, value });
        }
        let answer = region_assign_fixed(&mut self.raw, column, row, row, value);
        proof {
            let event = RegionEvent::AssignFixed { column: *column, offset: row, value, answer };
            old(self).lemma_owned_stay(event);
            assert(self.record().last() == event);
        }
        self.settle_assignment(answer, Ghost(slot), value)
    }

    /// Constrains two cells of this region to hold the same value. The
    /// request goes to the region and is recorded as made; it is recorded as
    /// accepted unless the region refuses, and a refusal is handed on as it
    /// is.
    pub(crate) fn constrain_equal(&mut self, left: &SymbolCell, right: &SymbolCell) -> (done: Result<
        (),
        Error,
    >)
        requires
            old(self).owns(left.pointer()),
            old(self).owns(right.pointer()),
            assigned_value(old(self).ops(), left.slot()) is Some,
            assigned_value(old(self).ops(), right.slot()) is Some,
        ensures
            final(self).record() == old(self).record().push(
                RegionEvent::ConstrainEqual {
                    left: left.pointer(),
                    right: right.pointer(),
                    answer: done,
                },
            ),
            final(self).selectors() == old(self).selectors(),
            forall|cell: Cell| #[trigger] old(self).owns(cell) ==> final(self).owns(cell),
            final(self).asked() == old(self).asked().push(
                RegionOp::Equal { left: left.slot(), right: right.slot() },
            ),
            match done {
                Ok(_) => final(self).ops() == old(self).ops().push(
                    RegionOp::Equal { left: left.slot(), right: right.slot() },
                ),
                Err(_) => final(self).ops() == old(self).ops(),
            },
    {
        let ghost op = RegionOp::Equal { left: left.slot(), right: right.slot() };
        proof {
            self.asked@ = self.asked@.push(op);
        }
        let answer = region_constrain_equal(&mut self.raw, &left.cell, &right.cell);
        proof {
            old(self).lemma_owned_stay(
                RegionEvent::ConstrainEqual {
                    left: left.pointer(),
                    right: right.pointer(),
                    answer,
                },
            );
        }
        self.settle_constraint(answer, Ghost(op))
    }

    /// Constrains a cell of this region to hold the constant `value`. The
    /// request goes to the region and is recorded as made; it is recorded as
    /// accepted unless the region refuses, and a refusal is handed on as it
    /// is.
    pub(crate) fn constrain_constant(&mut self, cell: &SymbolCell, value: u8) -> (done: Result<(), Error>)
        requires
            old(self).owns(cell.pointer()),
            assigned_value(old(self).ops(), cell.slot()) is Some,
        ensures
            final(self).record() == old(self).record().push(
                RegionEvent::ConstrainConstant { cell: cell.pointer(), value, answer: done },
            ),
            final(self).selectors() == old(self).selectors(),
            forall|other: Cell| #[trigger] old(self).owns(other) ==> final(self).owns(other),
            final(self).asked() == old(self).asked().push(
                RegionOp::Constant { slot: cell.slot(), value },
            ),
            match done {
                Ok(_) => final(self).ops() == old(self).ops().push(
                    RegionOp::Constant { slot: cell.slot(), value },
                ),
                Err(_) => final(self).ops() == old(self).ops(),
            },
    {
        let ghost op = RegionOp::Constant { slot: cell.slot(), value };
        proof {
            self.asked@ = self.asked@.push(op);
        }
        let answer = region_constrain_constant(&mut self.raw, &cell.cell, value);
        proof {
            old(self).lemma_owned_stay(
                RegionEvent::ConstrainConstant { cell: cell.pointer(), value, answer },
            );
        }
        self.settle_constraint(answer, Ghost(op))
    }

    /// Switches `selector`, a selector of the region's constraint system,
    /// on at row `row` of this region. The request goes to the region and is
    /// recorded as made; it is recorded as accepted unless the region
    /// refuses, and a refusal is handed on as it is.
    pub(crate) fn enable_selector(&mut self, selector: &Selector, row: usize) -> (done: Result<(), Error>)
        requires
            row <= MAX_OFFSET,
            old(self).selectors().contains(*selector),
        ensures
            final(self).record() == old(self).record().push(
                RegionEvent::EnableSelector { selector: *selector, offset: row, answer: done },
            ),
            final(self).selectors() == old(self).selectors(),
            forall|cell: Cell| #[trigger] old(self).owns(cell) ==> final(self).owns(cell),
            final(self).asked() == old(self).asked().push(RegionOp::Select { row: row as nat }),
            match done {
                Ok(_) => final(self).ops() == old(self).ops().push(
                    RegionOp::Select { row: row as nat },
                ),
                Err(_) => final(self).ops() == old(self).ops(),
            },
    {
        let ghost op = RegionOp::Select { row: row as nat };
        proof {
            self.asked@ = self.asked@.push(op);
        }
        let answer = region_enable_selector(&mut self.raw, selector, row);
        proof {
            old(self).lemma_owned_stay(
                RegionEvent::EnableSelector { selector: *selector, offset: row, answer },
            );
        }
        self.settle_constraint(answer, Ghost(op))
    }

    /// The requests made of the region through this handle, accepted or
    /// refused, oldest first.
    pub closed spec fn asked(&self) -> Seq<RegionOp> {
        self.asked@
    }

    /// The region's record: every request made of it, with its answer.
    pub closed spec fn record(&self) -> Seq<RegionEvent> {
        region_record(self.raw)
    }

    /// The selectors of the constraint system that the region belongs to.
    pub closed spec fn selectors(&self) -> Set<Selector> {
        region_selectors(self.raw)
    }

    /// `cell` is one that the region has handed out.
    pub closed spec fn owns(&self, cell: Cell) -> bool {
        handed_out(self.record(), cell)
    }

    /// A cell is owned exactly if the region's record hands it out.
    pub proof fn lemma_owns(&self, cell: Cell)
        ensures
            self.owns(cell) == handed_out(self.record(), cell),
    {
    }

    /// Every cell that the region has handed out is still handed out after
    /// one more request.
    proof fn lemma_owned_stay(&self, event: RegionEvent)
        ensures
            forall|cell: Cell| #[trigger]
                self.owns(cell) ==> handed_out(self.record().push(event), cell),
    {
        assert forall|cell: Cell| #[trigger] self.owns(cell) implies handed_out(
            self.record().push(event),
            cell,
        ) by {
            lemma_push_keeps_handed_out(self.record(), event, cell);
        }
    }

    /// Takes the region's answer to the assignment of `value` to the cell at
    /// `slot`. An accepted assignment is recorded and its cell handed on
    /// with its place; a refusal is handed on as it is and records nothing.
    pub(crate) fn settle_assignment(
        &mut self,
        answer: Result<Cell, Error>,
        slot: Ghost<Slot>,
        value: u8,
    ) -> (assigned: Result<SymbolCell, Error>)
        ensures
            final(self).asked() == old(self).asked(),
            final(self).record() == old(self).record(),
            final(self).selectors() == old(self).selectors(),
            pointer_of(assigned) == answer,
            match answer {
                Ok(pointer) => {
                    &&& assigned is Ok
                    &&& assigned->Ok_0.slot() == slot@
                    &&& final(self).ops() == old(self).ops().push(
                        RegionOp::Assign { slot: slot@, value },
                    )
                },
                Err(e) => assigned is Err && final(self).ops() == old(self).ops(),
            },
    {
        match answer {
            Ok(cell) => {
                proof {
                    self.ops@ = self.ops@.push(RegionOp::Assign { slot: slot@, value });
                }
                Ok(SymbolCell { cell, slot })
            },
            Err(e) => Err(e),
        }
    }

    /// Takes the region's answer to the request `op`, which is no
    /// assignment. An accepted request is recorded; a refusal is handed on
    /// as it is and records nothing.
    pub(crate) fn settle_constraint(&mut self, answer: Result<(), Error>, op: Ghost<RegionOp>) -> (done:
        Result<(), Error>)
        ensures
            final(self).asked() == old(self).asked(),
            final(self).record() == old(self).record(),
            final(self).selectors() == old(self).selectors(),
            done == answer,
            match answer {
                Ok(_) => final(self).ops() == old(self).ops().push(op@),
                Err(_) => final(self).ops() == old(self).ops(),
            },
    {
        proof {
            if answer is Ok {
                self.ops@ = self.ops@.push(op@);
            }
        }
        answer
    }
}

} // verus!
