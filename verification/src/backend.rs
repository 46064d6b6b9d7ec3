//! The boundary to the proving system.
//!
//! Everything in this file is taken on trust. The proving system's types are
//! opaque here. A constraint system and a region are each known by their
//! record: the declarations made on the one, the requests made of the other
//! with the answer to each. Every wrapper says how its call extends the
//! record and nothing about whether the call succeeds; the three `clone`
//! specifications say that a handle is copied. What the library proves about
//! its use of the proving system is proved in the modules that call these
//! functions, over those records.
use halo2_proofs::circuit::{Cell, Region, Value};
use halo2_proofs::pasta::Fq;
use halo2_proofs::plonk::{Advice, Column, ConstraintSystem, Error, Fixed, Selector};
use vstd::prelude::*;

verus! {

/// The greatest row offset that the library asks of a region. The proving
/// system adds one to an offset, and the start of the region to it; offsets
/// up to this bound keep that arithmetic far from overflow.
pub const MAX_OFFSET: usize = 65535;

/// `halo2_proofs::circuit::Cell`: a pointer to an assigned cell. Opaque.
#[verifier::external_type_specification]
#[verifier::external_body]
pub struct ExCell(Cell);

/// `halo2_proofs::plonk::Selector`: a gating flag of the constraint system. Opaque.
#[verifier::external_type_specification]
#[verifier::external_body]
pub struct ExSelector(Selector);

/// `halo2_proofs::plonk::Error`: what the proving system reports when an
/// assignment or a constraint is refused. Opaque.
#[verifier::external_type_specification]
#[verifier::external_body]
pub struct ExError(Error);

/// A borrowed `halo2_proofs::plonk::ConstraintSystem<Fq>`, as handed to a
/// circuit when it is configured. The proving system's type is generic over a
/// field trait, so it is held here rather than named in signatures.
#[verifier::external_body]
pub struct ConstraintSystemRef<'a> {
    pub meta: &'a mut ConstraintSystem<Fq>,
}

/// A borrowed `halo2_proofs::circuit::Region<'_, Fq>`, as handed to a circuit
/// while it is synthesized.
#[verifier::external_body]
pub struct RegionRef<'a, 'r> {
    pub region: &'a mut Region<'r, Fq>,
}

/// A `halo2_proofs::plonk::Column<Advice>`: one witness lane.
#[verifier::external_body]
pub struct AdviceColumn {
    pub column: Column<Advice>,
}

/// A `halo2_proofs::plonk::Column<Fixed>`: one lane of constants.
#[verifier::external_body]
pub struct FixedColumn {
    pub column: Column<Fixed>,
}

impl Clone for AdviceColumn {
    /// `Column::clone`: the same column again. A layout must be cloneable
    /// for the proving system, which clones it before each synthesis.
    #[verifier::external_body]
    fn clone(&self) -> (copy: Self)
        ensures
            copy == *self,
    {
        AdviceColumn { column: self.column.clone() }
    }
}

impl Clone for FixedColumn {
    /// `Column::clone`: the same column again.
    #[verifier::external_body]
    fn clone(&self) -> (copy: Self)
        ensures
            copy == *self,
    {
        FixedColumn { column: self.column.clone() }
    }
}

/// `Selector` is `Copy`: its clone is the selector itself.
pub assume_specification[ <Selector as Clone>::clone ](it: &Selector) -> (copy: Selector)
    ensures
        copy == *it,
;

/// One declaration made on a constraint system.
pub enum ConfigOp {
    /// A new witness column was allocated.
    NewAdvice(AdviceColumn),
    /// A witness column was enabled for equality constraints.
    EnableEquality(AdviceColumn),
    /// A new column of constants was allocated.
    NewFixed(FixedColumn),
    /// A column of constants was enabled for constant binding.
    EnableConstant(FixedColumn),
    /// A new selector was allocated.
    NewSelector(Selector),
}

/// One request made of a region, with the region's answer.
pub enum RegionEvent {
    /// `value` was to be assigned to row `offset` of the witness column.
    AssignAdvice { column: AdviceColumn, offset: usize, value: u8, answer: Result<Cell, Error> },
    /// `value` was to be assigned to row `offset` of the column of constants.
    AssignFixed { column: FixedColumn, offset: usize, value: u8, answer: Result<Cell, Error> },
    /// Two cells were to hold the same value.
    ConstrainEqual { left: Cell, right: Cell, answer: Result<(), Error> },
    /// A cell was to hold the constant `value`.
    ConstrainConstant { cell: Cell, value: u8, answer: Result<(), Error> },
    /// The selector was to be switched on at row `offset`.
    EnableSelector { selector: Selector, offset: usize, answer: Result<(), Error> },
}

/// The declarations made on a constraint system since it was created, of the
/// five kinds of `ConfigOp`, oldest first.
pub uninterp spec fn cs_declarations(cs: ConstraintSystemRef<'_>) -> Seq<ConfigOp>;

/// The requests made of a region since its synthesis began, oldest first.
pub uninterp spec fn region_record(region: RegionRef<'_, '_>) -> Seq<RegionEvent>;

/// The selectors of the constraint system that a region belongs to.
pub uninterp spec fn region_selectors(region: RegionRef<'_, '_>) -> Set<Selector>;

/// `ConstraintSystem::advice_column`: allocates a new advice column. The
/// column takes the next free index, so it is none of those allocated before.
#[verifier::external_body]
pub(crate) fn cs_advice_column(cs: &mut ConstraintSystemRef<'_>) -> (column: AdviceColumn)
    ensures
        !cs_declarations(*old(cs)).contains(ConfigOp::NewAdvice(column)),
        cs_declarations(*final(cs)) == cs_declarations(*old(cs)).push(ConfigOp::NewAdvice(column)),
{
    AdviceColumn { column: cs.meta.advice_column() }
}

/// `ConstraintSystem::fixed_column`: allocates a new fixed column.
#[verifier::external_body]
pub(crate) fn cs_fixed_column(cs: &mut ConstraintSystemRef<'_>) -> (column: FixedColumn)
    ensures
        cs_declarations(*final(cs)) == cs_declarations(*old(cs)).push(ConfigOp::NewFixed(column)),
{
    FixedColumn { column: cs.meta.fixed_column() }
}

/// `ConstraintSystem::selector`: allocates a new simple selector.
#[verifier::external_body]
pub(crate) fn cs_selector(cs: &mut ConstraintSystemRef<'_>) -> (selector: Selector)
    ensures
        cs_declarations(*final(cs)) == cs_declarations(*old(cs)).push(
            ConfigOp::NewSelector(selector),
        ),
{
    cs.meta.selector()
}

/// `ConstraintSystem::enable_equality` on an advice column: the column joins
/// the permutation. The call counts a query in a table that has one entry
/// per allocated advice column, so the column must be one of this system's.
#[verifier::external_body]
pub(crate) fn cs_enable_equality(cs: &mut ConstraintSystemRef<'_>, column: &AdviceColumn)
    requires
        cs_declarations(*old(cs)).contains(ConfigOp::NewAdvice(*column)),
    ensures
        cs_declarations(*final(cs)) == cs_declarations(*old(cs)).push(
            ConfigOp::EnableEquality(*column),
        ),
{
    cs.meta.enable_equality(column.column)
}

/// `ConstraintSystem::enable_constant` on a fixed column: the column is
/// listed for constants.
#[verifier::external_body]
pub(crate) fn cs_enable_constant(cs: &mut ConstraintSystemRef<'_>, column: &FixedColumn)
    ensures
        cs_declarations(*final(cs)) == cs_declarations(*old(cs)).push(
            ConfigOp::EnableConstant(*column),
        ),
{
    cs.meta.enable_constant(column.column)
}

/// `Region::assign_advice`: writes the field element of `value` into `column`
/// at row `offset`, and hands back the cell. `position` only labels the cell.
#[verifier::external_body]
pub(crate) fn region_assign_advice(
    region: &mut RegionRef<'_, '_>,
    column: &AdviceColumn,
    position: usize,
    offset: usize,
    value: u8,
) -> (cell: Result<Cell, Error>)
    requires
        offset <= MAX_OFFSET,
    ensures
        region_record(*final(region)) == region_record(*old(region)).push(
            RegionEvent::AssignAdvice { column: *column, offset, value, answer: cell },
        ),
        region_selectors(*final(region)) == region_selectors(*old(region)),
{
    region.region.assign_advice(
        || format!("IP byte {}", position),
        column.column,
        offset,
        || Value::known(Fq::from(u64::from(value))),
    ).map(|assigned| assigned.cell())
}

/// `Region::assign_fixed`: writes the field element of `value` into `column`
/// at row `offset`, and hands back the cell. `position` only labels the cell.
#[verifier::external_body]
pub(crate) fn region_assign_fixed(
    region: &mut RegionRef<'_, '_>,
    column: &FixedColumn,
    position: usize,
    offset: usize,
    value: u8,
) -> (cell: Result<Cell, Error>)
    requires
        offset <= MAX_OFFSET,
    ensures
        region_record(*final(region)) == region_record(*old(region)).push(
            RegionEvent::AssignFixed { column: *column, offset, value, answer: cell },
        ),
        region_selectors(*final(region)) == region_selectors(*old(region)),
{
    region.region.assign_fixed(
        || format!("Expected byte {}", position),
        column.column,
        offset,
        || Value::known(Fq::from(u64::from(value))),
    ).map(|assigned| assigned.cell())
}

/// `cell` is one that the region handed out in answer to an assignment of
/// `record`.
pub open spec fn handed_out(record: Seq<RegionEvent>, cell: Cell) -> bool {
    exists|i: int|
        0 <= i < record.len() && match #[trigger] record[i] {
            RegionEvent::AssignAdvice { answer: Ok(c), .. } => c == cell,
            RegionEvent::AssignFixed { answer: Ok(c), .. } => c == cell,
            _ => false,
        }
}

/// `Region::constrain_equal`: asks that two cells hold the same value. The
/// call looks up the region of each cell, so both must be cells of this
/// region.
#[verifier::external_body]
pub(crate) fn region_constrain_equal(region: &mut RegionRef<'_, '_>, left: &Cell, right: &Cell) -> (done:
    Result<(), Error>)
    requires
        handed_out(region_record(*old(region)), *left),
        handed_out(region_record(*old(region)), *right),
    ensures
        region_record(*final(region)) == region_record(*old(region)).push(
            RegionEvent::ConstrainEqual { left: *left, right: *right, answer: done },
        ),
        region_selectors(*final(region)) == region_selectors(*old(region)),
{
    region.region.constrain_equal(*left, *right)
}

/// `Region::constrain_constant`: asks that a cell hold the field element of `value`.
#[verifier::external_body]
pub(crate) fn region_constrain_constant(region: &mut RegionRef<'_, '_>, cell: &Cell, value: u8) -> (done:
    Result<(), Error>)
    requires
        handed_out(region_record(*old(region)), *cell),
    ensures
        region_record(*final(region)) == region_record(*old(region)).push(
            RegionEvent::ConstrainConstant { cell: *cell, value, answer: done },
        ),
        region_selectors(*final(region)) == region_selectors(*old(region)),
{
    region.region.constrain_constant(*cell, Fq::from(u64::from(value)))
}

/// `Selector::enable`: switches the selector on at row `offset` of the
/// region. The call writes into a table that has one entry per selector of the
/// region's constraint system, so the selector must be one of that system's.
#[verifier::external_body]
pub(crate) fn region_enable_selector(
    region: &mut RegionRef<'_, '_>,
    selector: &Selector,
    offset: usize,
) -> (done: Result<(), Error>)
    requires
        offset <= MAX_OFFSET,
        region_selectors(*old(region)).contains(*selector),
    ensures
        region_record(*final(region)) == region_record(*old(region)).push(
            RegionEvent::EnableSelector { selector: *selector, offset, answer: done },
        ),
        region_selectors(*final(region)) == region_selectors(*old(region)),
{
    selector.enable(region.region, offset)
}

} // verus!
