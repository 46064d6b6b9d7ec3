//! Region synthesis: binding every symbol to its expected value.
//!
//! `binding_ops` is the exact sequence of requests that binds a sequence of
//! symbols, position by position, under a binding strategy. The two binding
//! functions make those requests of a region, in that order, and stop at the
//! first that the region refuses; their contracts say which requests were
//! made and which were accepted. `lemma_bindings_decide` shows what the
//! requests amount to: their constraints hold exactly when the symbols are
//! the expected ones.
use crate::backend::{FixedColumn, MAX_OFFSET};
use crate::circuit::IPCheckCircuit;
use crate::encode::{encode, expected, expected_symbols, lemma_symbol_count};
use crate::layout::{Binding, BindingStrategy, IPCheckConfig};
use crate::region::{
    assigned_value, constraints_hold, op_holds, refusal, RegionHandle, RegionOp, Slot, SymbolCell,
};
use halo2_proofs::plonk::{Error, Selector};
use vstd::prelude::*;

verus! {

/// Why a synthesis attempt failed.
#[derive(Debug)]
pub enum SynthesisError {
    /// The input has no encoding. No request was made of the region.
    InvalidInput,
    /// The layout has another number of witness columns than the encoding
    /// has symbols. No request was made of the region.
    LayoutMismatch,
    /// The region refused an assignment or a constraint.
    Backend(Error),
}

/// Request number `k` of the fixed-column strategy. Position `i` takes the
/// three requests from `3 * i` on: the symbol goes into witness column `i` at
/// row 0, the expected value into the column of constants at row `i`, and the
/// two cells are constrained to be equal.
pub open spec fn fixed_column_op(symbols: Seq<u8>, expected: Seq<u8>, k: int) -> RegionOp {
    let i = k / 3;
    let witness = Slot::Advice { column: i as nat, row: 0 };
    let constant = Slot::Fixed { row: i as nat };
    if k % 3 == 0 {
        RegionOp::Assign { slot: witness, value: symbols[i] }
    } else if k % 3 == 1 {
        RegionOp::Assign { slot: constant, value: expected[i] }
    } else {
        RegionOp::Equal { left: witness, right: constant }
    }
}

/// Request number `k` of the selector strategy. The first `symbols.len()`
/// requests assign the symbols, symbol `i` into witness column `i` at row 0.
/// Position `i` then takes two requests more: the selector is switched on at
/// row 0 and the witness cell is constrained to the expected value.
pub open spec fn selector_constant_op(symbols: Seq<u8>, expected: Seq<u8>, k: int) -> RegionOp {
    let n = symbols.len() as int;
    if k < n {
        RegionOp::Assign { slot: Slot::Advice { column: k as nat, row: 0 }, value: symbols[k] }
    } else {
        let i = (k - n) / 2;
        if (k - n) % 2 == 0 {
            RegionOp::Select { row: 0 }
        } else {
            RegionOp::Constant {
                slot: Slot::Advice { column: i as nat, row: 0 },
                value: expected[i],
            }
        }
    }
}

/// The requests that bind `symbols` to `expected` under `strategy`, in order.
pub open spec fn binding_ops(strategy: BindingStrategy, symbols: Seq<u8>, expected: Seq<u8>) -> Seq<
    RegionOp,
> {
    match strategy {
        BindingStrategy::FixedColumn => Seq::new(
            3 * symbols.len(),
            |k: int| fixed_column_op(symbols, expected, k),
        ),
        BindingStrategy::SelectorConstant => Seq::new(
            3 * symbols.len(),
            |k: int| selector_constant_op(symbols, expected, k),
        ),
    }
}

/// `op` assigns a value to the cell at `slot`.
pub open spec fn assigns_to(op: RegionOp, slot: Slot) -> bool {
    match op {
        RegionOp::Assign { slot: to, .. } => to == slot,
        _ => false,
    }
}

/// A cell that a record assigns exactly once holds the value assigned there.
pub proof fn lemma_sole_assignment(ops: Seq<RegionOp>, at: int, slot: Slot, value: u8)
    requires
        0 <= at < ops.len(),
        ops[at] == (RegionOp::Assign { slot, value }),
        forall|k: int| 0 <= k < ops.len() && k != at ==> !assigns_to(#[trigger] ops[k], slot),
    ensures
        assigned_value(ops, slot) == Some(value),
    decreases ops.len(),
{
    if at != ops.len() - 1 {
        assert(!assigns_to(ops[ops.len() - 1], slot));
        lemma_sole_assignment(ops.drop_last(), at, slot, value);
    }
}

/// A request that is added to a record leaves every assigned cell assigned.
pub proof fn lemma_push_keeps_assigned(ops: Seq<RegionOp>, op: RegionOp, slot: Slot)
    requires
        assigned_value(ops, slot) is Some,
    ensures
        assigned_value(ops.push(op), slot) is Some,
{
    assert(ops.push(op).drop_last() =~= ops);
}

/// An assignment that is added to a record is the value of its cell.
pub proof fn lemma_push_assigns(ops: Seq<RegionOp>, slot: Slot, value: u8)
    ensures
        assigned_value(ops.push(RegionOp::Assign { slot, value }), slot) == Some(value),
{
}

/// Under either strategy the requests assign `symbols[i]` to witness cell `i`,
/// and under the fixed-column strategy `expected[i]` to constant cell `i`.
pub proof fn lemma_binding_values(
    strategy: BindingStrategy,
    symbols: Seq<u8>,
    expected: Seq<u8>,
    i: int,
)
    requires
        symbols.len() == expected.len(),
        0 <= i < symbols.len(),
    ensures
        assigned_value(
            binding_ops(strategy, symbols, expected),
            Slot::Advice { column: i as nat, row: 0 },
        ) == Some(symbols[i]),
        strategy == BindingStrategy::FixedColumn ==> assigned_value(
            binding_ops(strategy, symbols, expected),
            Slot::Fixed { row: i as nat },
        ) == Some(expected[i]),
{
    let ops = binding_ops(strategy, symbols, expected);
    let witness = Slot::Advice { column: i as nat, row: 0 };
    match strategy {
        BindingStrategy::FixedColumn => {
            let constant = Slot::Fixed { row: i as nat };
            assert(ops[3 * i] == fixed_column_op(symbols, expected, 3 * i));
            assert(ops[3 * i + 1] == fixed_column_op(symbols, expected, 3 * i + 1));
            assert forall|k: int| 0 <= k < ops.len() && k != 3 * i implies !assigns_to(
                #[trigger] ops[k],
                witness,
            ) by {
                assert(ops[k] == fixed_column_op(symbols, expected, k));
            }
            assert forall|k: int| 0 <= k < ops.len() && k != 3 * i + 1 implies !assigns_to(
                #[trigger] ops[k],
                constant,
            ) by {
                assert(ops[k] == fixed_column_op(symbols, expected, k));
            }
            lemma_sole_assignment(ops, 3 * i, witness, symbols[i]);
            lemma_sole_assignment(ops, 3 * i + 1, constant, expected[i]);
        },
        BindingStrategy::SelectorConstant => {
            assert(ops[i] == selector_constant_op(symbols, expected, i));
            assert forall|k: int| 0 <= k < ops.len() && k != i implies !assigns_to(
                #[trigger] ops[k],
                witness,
            ) by {
                assert(ops[k] == selector_constant_op(symbols, expected, k));
            }
            lemma_sole_assignment(ops, i, witness, symbols[i]);
        },
    }
}

/// The constraints that bind `symbols` to `expected` hold if and only if the
/// symbols are the expected ones, under either strategy.
pub proof fn lemma_bindings_decide(strategy: BindingStrategy, symbols: Seq<u8>, expected: Seq<u8>)
    requires
        symbols.len() == expected.len(),
    ensures
        constraints_hold(binding_ops(strategy, symbols, expected)) <==> symbols == expected,
{
    let ops = binding_ops(strategy, symbols, expected);
    let n = symbols.len() as int;
    if constraints_hold(ops) {
        assert forall|i: int| 0 <= i < n implies symbols[i] == expected[i] by {
            lemma_binding_values(strategy, symbols, expected, i);
            match strategy {
                BindingStrategy::FixedColumn => {
                    assert(ops[3 * i + 2] == fixed_column_op(symbols, expected, 3 * i + 2));
                    assert(op_holds(ops, ops[3 * i + 2]));
                },
                BindingStrategy::SelectorConstant => {
                    let k = n + 2 * i + 1;
                    assert(ops[k] == selector_constant_op(symbols, expected, k));
                    assert(op_holds(ops, ops[k]));
                },
            }
        }
        assert(symbols =~= expected);
    }
    if symbols == expected {
        assert forall|k: int| 0 <= k < ops.len() implies op_holds(ops, #[trigger] ops[k]) by {
            match strategy {
                BindingStrategy::FixedColumn => {
                    assert(ops[k] == fixed_column_op(symbols, expected, k));
                    lemma_binding_values(strategy, symbols, expected, k / 3);
                },
                BindingStrategy::SelectorConstant => {
                    assert(ops[k] == selector_constant_op(symbols, expected, k));
                    if k >= n {
                        lemma_binding_values(strategy, symbols, expected, (k - n) / 2);
                    }
                },
            }
        }
    }
}

/// The record `after` is the record `before` followed by the first `k`
/// requests of `plan`.
pub open spec fn made_first(
    before: Seq<RegionOp>,
    after: Seq<RegionOp>,
    plan: Seq<RegionOp>,
    k: int,
) -> bool {
    0 <= k <= plan.len() && after == before + plan.subrange(0, k)
}

/// A run through `plan` that the region stopped at request `k`: the first `k`
/// requests were accepted, and request `k` was made and refused.
pub open spec fn stopped_at(
    accepted_before: Seq<RegionOp>,
    accepted_after: Seq<RegionOp>,
    asked_before: Seq<RegionOp>,
    asked_after: Seq<RegionOp>,
    plan: Seq<RegionOp>,
    k: int,
) -> bool {
    &&& k < plan.len()
    &&& made_first(accepted_before, accepted_after, plan, k)
    &&& made_first(asked_before, asked_after, plan, k + 1)
}

/// Binds `symbols` to `expected` by the fixed-column strategy: for each
/// position, the symbol is assigned to its witness column, the expected value
/// to the column of constants, and the two cells are constrained to be equal.
/// The first refusal of the region ends the attempt, and its error is the
/// one returned.
pub fn bind_with_fixed_column(
    config: &IPCheckConfig,
    fixed: &FixedColumn,
    symbols: &Vec<u8>,
    expected: &Vec<u8>,
    region: &mut RegionHandle<'_, '_>,
) -> (done: Result<(), Error>)
    requires
        symbols@.len() == expected@.len(),
        symbols@.len() == config.columns().len(),
        symbols@.len() <= MAX_OFFSET + 1,
    ensures
        match done {
            Ok(_) => {
                &&& final(region).ops() == old(region).ops() + binding_ops(
                    BindingStrategy::FixedColumn,
                    symbols@,
                    expected@,
                )
                &&& final(region).asked() == old(region).asked() + binding_ops(
                    BindingStrategy::FixedColumn,
                    symbols@,
                    expected@,
                )
            },
            Err(e) => {
                &&& final(region).record().len() > 0
                &&& refusal(final(region).record().last()) == Some(e)
                &&& exists|k: int| #[trigger]
                    stopped_at(
                        old(region).ops(),
                        final(region).ops(),
                        old(region).asked(),
                        final(region).asked(),
                        binding_ops(BindingStrategy::FixedColumn, symbols@, expected@),
                        k,
                    )
            },
        },
        final(region).selectors() == old(region).selectors(),
{
    let ghost before = region.ops();
    let ghost asked_before = region.asked();
    let ghost plan = binding_ops(BindingStrategy::FixedColumn, symbols@, expected@);
    let n = symbols.len();
    let mut i: usize = 0;
    assert(before + plan.subrange(0, 0) =~= before);
    assert(asked_before + plan.subrange(0, 0) =~= asked_before);
    while i < n
        invariant
            i <= n,
            before == old(region).ops(),
            asked_before == old(region).asked(),
            region.selectors() == old(region).selectors(),
            n <= MAX_OFFSET + 1,
            n == symbols@.len(),
            n == expected@.len(),
            n == config.columns().len(),
            plan == binding_ops(BindingStrategy::FixedColumn, symbols@, expected@),
            region.ops() == before + plan.subrange(0, 3 * i),
            region.asked() == asked_before + plan.subrange(0, 3 * i),
        decreases n - i,
    {
        let ghost at = 3 * i as int;
        assert(plan[at] == fixed_column_op(symbols@, expected@, at));
        assert(plan[at + 1] == fixed_column_op(symbols@, expected@, at + 1));
        assert(plan[at + 2] == fixed_column_op(symbols@, expected@, at + 2));
        let witness = match region.assign_symbol(config, i, 0, symbols[i]) {
            Ok(cell) => cell,
            Err(e) => {
                assert(region.asked() =~= asked_before + plan.subrange(0, at + 1));
                assert(stopped_at(
                    before,
                    region.ops(),
                    asked_before,
                    region.asked(),
                    plan,
                    at,
                ));
                assert(refusal(region.record().last()) == Some(e));
                return Err(e);
            },
        };
        proof {
            assert(region.ops() =~= before + plan.subrange(0, at + 1));
            assert(region.asked() =~= asked_before + plan.subrange(0, at + 1));
            lemma_push_assigns(before + plan.subrange(0, at), witness.slot(), symbols@[i as int]);
        }
        let constant = match region.assign_expected(fixed, i, expected[i]) {
            Ok(cell) => cell,
            Err(e) => {
                assert(region.asked() =~= asked_before + plan.subrange(0, at + 2));
                assert(stopped_at(
                    before,
                    region.ops(),
                    asked_before,
                    region.asked(),
                    plan,
                    at + 1,
                ));
                assert(refusal(region.record().last()) == Some(e));
                return Err(e);
            },
        };
        proof {
            assert(region.ops() =~= before + plan.subrange(0, at + 2));
            assert(region.asked() =~= asked_before + plan.subrange(0, at + 2));
            lemma_push_keeps_assigned(
                before + plan.subrange(0, at + 1),
                plan[at + 1],
                witness.slot(),
            );
            lemma_push_assigns(
                before + plan.subrange(0, at + 1),
                constant.slot(),
                expected@[i as int],
            );
        }
        match region.constrain_equal(&witness, &constant) {
            Ok(()) => {},
            Err(e) => {
                assert(region.asked() =~= asked_before + plan.subrange(0, at + 3));
                assert(stopped_at(
                    before,
                    region.ops(),
                    asked_before,
                    region.asked(),
                    plan,
                    at + 2,
                ));
                assert(refusal(region.record().last()) == Some(e));
                return Err(e);
            },
        }
        assert(region.ops() =~= before + plan.subrange(0, at + 3));
        assert(region.asked() =~= asked_before + plan.subrange(0, at + 3));
        i = i + 1;
    }
    assert(plan.subrange(0, 3 * n) =~= plan);
    Ok(())
}

/// Binds `symbols` to `expected` by the selector strategy: every symbol is
/// assigned to its witness column; then, for each position, the selector is
/// switched on and the witness cell is constrained to the expected value.
/// The first refusal of the region ends the attempt, and its error is the
/// one returned. The selector must be one of the constraint system that the
/// region belongs to.
pub fn bind_with_selector(
    config: &IPCheckConfig,
    selector: &Selector,
    symbols: &Vec<u8>,
    expected: &Vec<u8>,
    region: &mut RegionHandle<'_, '_>,
) -> (done: Result<(), Error>)
    requires
        symbols@.len() == expected@.len(),
        symbols@.len() == config.columns().len(),
        old(region).selectors().contains(*selector),
    ensures
        match done {
            Ok(_) => {
                &&& final(region).ops() == old(region).ops() + binding_ops(
                    BindingStrategy::SelectorConstant,
                    symbols@,
                    expected@,
                )
                &&& final(region).asked() == old(region).asked() + binding_ops(
                    BindingStrategy::SelectorConstant,
                    symbols@,
                    expected@,
                )
            },
            Err(e) => {
                &&& final(region).record().len() > 0
                &&& refusal(final(region).record().last()) == Some(e)
                &&& exists|k: int| #[trigger]
                    stopped_at(
                        old(region).ops(),
                        final(region).ops(),
                        old(region).asked(),
                        final(region).asked(),
                        binding_ops(BindingStrategy::SelectorConstant, symbols@, expected@),
                        k,
                    )
            },
        },
        final(region).selectors() == old(region).selectors(),
{
    let ghost before = region.ops();
    let ghost asked_before = region.asked();
    let ghost plan = binding_ops(BindingStrategy::SelectorConstant, symbols@, expected@);
    let n = symbols.len();
    let mut cells: Vec<SymbolCell> = Vec::new();
    let mut i: usize = 0;
    assert(before + plan.subrange(0, 0) =~= before);
    assert(asked_before + plan.subrange(0, 0) =~= asked_before);
    while i < n
        invariant
            i <= n,
            before == old(region).ops(),
            asked_before == old(region).asked(),
            region.selectors() == old(region).selectors(),
            region.selectors().contains(*selector),
            n == symbols@.len(),
            n == expected@.len(),
            n == config.columns().len(),
            plan == binding_ops(BindingStrategy::SelectorConstant, symbols@, expected@),
            region.ops() == before + plan.subrange(0, i as int),
            region.asked() == asked_before + plan.subrange(0, i as int),
            cells@.len() == i,
            forall|j: int|
                0 <= j < i ==> {
                    &&& (#[trigger] cells@[j]).slot() == (Slot::Advice { column: j as nat, row: 0 })
                    &&& region.owns(cells@[j].pointer())
                    &&& assigned_value(region.ops(), cells@[j].slot()) is Some
                },
        decreases n - i,
    {
        let ghost at = i as int;
        let ghost earlier = region.ops();
        assert(plan[at] == selector_constant_op(symbols@, expected@, at));
        let witness = match region.assign_symbol(config, i, 0, symbols[i]) {
            Ok(cell) => cell,
            Err(e) => {
                assert(region.asked() =~= asked_before + plan.subrange(0, at + 1));
                assert(stopped_at(
                    before,
                    region.ops(),
                    asked_before,
                    region.asked(),
                    plan,
                    at,
                ));
                assert(refusal(region.record().last()) == Some(e));
                return Err(e);
            },
        };
        proof {
            assert(region.ops() =~= before + plan.subrange(0, at + 1));
            assert(region.asked() =~= asked_before + plan.subrange(0, at + 1));
            lemma_push_assigns(earlier, witness.slot(), symbols@[at]);
            assert forall|j: int| 0 <= j < i implies assigned_value(
                region.ops(),
                (#[trigger] cells@[j]).slot(),
            ) is Some by {
                lemma_push_keeps_assigned(earlier, plan[at], cells@[j].slot());
            }
        }
        cells.push(witness);
        i = i + 1;
    }
    let mut i: usize = 0;
    while i < n
        invariant
            i <= n,
            before == old(region).ops(),
            asked_before == old(region).asked(),
            region.selectors() == old(region).selectors(),
            region.selectors().contains(*selector),
            n == symbols@.len(),
            n == expected@.len(),
            plan == binding_ops(BindingStrategy::SelectorConstant, symbols@, expected@),
            region.ops() == before + plan.subrange(0, n + 2 * i),
            region.asked() == asked_before + plan.subrange(0, n + 2 * i),
            cells@.len() == n,
            forall|j: int|
                0 <= j < n ==> {
                    &&& (#[trigger] cells@[j]).slot() == (Slot::Advice { column: j as nat, row: 0 })
                    &&& region.owns(cells@[j].pointer())
                    &&& assigned_value(region.ops(), cells@[j].slot()) is Some
                },
        decreases n - i,
    {
        let ghost at = n + 2 * i as int;
        let ghost earlier = region.ops();
        assert(plan[at] == selector_constant_op(symbols@, expected@, at));
        assert(plan[at + 1] == selector_constant_op(symbols@, expected@, at + 1));
        match region.enable_selector(selector, 0) {
            Ok(()) => {},
            Err(e) => {
                assert(region.asked() =~= asked_before + plan.subrange(0, at + 1));
                assert(stopped_at(
                    before,
                    region.ops(),
                    asked_before,
                    region.asked(),
                    plan,
                    at,
                ));
                assert(refusal(region.record().last()) == Some(e));
                return Err(e);
            },
        }
        let ghost selected = region.ops();
        proof {
            assert(region.ops() =~= before + plan.subrange(0, at + 1));
            assert(region.asked() =~= asked_before + plan.subrange(0, at + 1));
            assert forall|j: int| 0 <= j < n implies assigned_value(
                region.ops(),
                (#[trigger] cells@[j]).slot(),
            ) is Some by {
                lemma_push_keeps_assigned(earlier, plan[at], cells@[j].slot());
            }
        }
        match region.constrain_constant(&cells[i], expected[i]) {
            Ok(()) => {},
            Err(e) => {
                assert(region.asked() =~= asked_before + plan.subrange(0, at + 2));
                assert(stopped_at(
                    before,
                    region.ops(),
                    asked_before,
                    region.asked(),
                    plan,
                    at + 1,
                ));
                assert(refusal(region.record().last()) == Some(e));
                return Err(e);
            },
        }
        proof {
            assert(region.ops() =~= before + plan.subrange(0, at + 2));
            assert(region.asked() =~= asked_before + plan.subrange(0, at + 2));
            assert forall|j: int| 0 <= j < n implies assigned_value(
                region.ops(),
                (#[trigger] cells@[j]).slot(),
            ) is Some by {
                lemma_push_keeps_assigned(selected, plan[at + 1], cells@[j].slot());
            }
        }
        i = i + 1;
    }
    assert(plan.subrange(0, 3 * n) =~= plan);
    Ok(())
}

impl IPCheckCircuit {
    /// The requests that a synthesis of this circuit makes of a region laid
    /// out by `strategy`, if its candidate string has an encoding.
    pub open spec fn plan(&self, strategy: BindingStrategy) -> Option<Seq<RegionOp>> {
        match self.symbols() {
            Some(symbols) => Some(
                binding_ops(strategy, symbols, expected_symbols(self.policy())),
            ),
            None => None,
        }
    }

    /// The Region Synthesizer. Encodes the candidate string, then binds every
    /// symbol to its expected value in `region`, by the strategy of `config`.
    ///
    /// A string without an encoding is refused before anything is asked of
    /// the region, and so is a layout whose number of witness columns is not
    /// the number of symbols. Otherwise the requests of `plan` are made in
    /// order: on success every one of them was made and accepted, and on a
    /// refusal by the region the refused one was the last that was made,
    /// those before it were accepted, and the error is the region's own.
    ///
    /// Where the layout binds through a selector, the selector must be one
    /// of the constraint system that the region belongs to: the proving
    /// system looks it up without a check and offers no way to ask.
    pub fn synthesize(&self, config: &IPCheckConfig, region: &mut RegionHandle<'_, '_>) -> (done:
        Result<(), SynthesisError>)
        requires
            config.binding() matches Binding::SelectorConstant(selector, _) ==> old(
                region,
            ).selectors().contains(selector),
        ensures
            final(region).selectors() == old(region).selectors(),
            match self.plan(config.strategy_spec()) {
                None => done matches Err(SynthesisError::InvalidInput) && *final(region) == *old(
                    region,
                ),
                Some(plan) => if config.columns().len() != self.symbols().unwrap().len() {
                    done matches Err(SynthesisError::LayoutMismatch) && *final(region) == *old(
                        region,
                    )
                } else {
                    match done {
                        Ok(_) => {
                            &&& final(region).ops() == old(region).ops() + plan
                            &&& final(region).asked() == old(region).asked() + plan
                        },
                        Err(e) => e is Backend && final(region).record().len() > 0 && refusal(
                            final(region).record().last(),
                        ) == Some(e->Backend_0) && exists|k: int| #[trigger]
                            stopped_at(
                                old(region).ops(),
                                final(region).ops(),
                                old(region).asked(),
                                final(region).asked(),
                                plan,
                                k,
                            ),
                    }
                },
            },
    {
        let symbols = match encode(self.encoding(), self.ip_string()) {
            Ok(symbols) => symbols,
            Err(_) => {
                return Err(SynthesisError::InvalidInput);
            },
        };
        if config.column_count() != symbols.len() {
            return Err(SynthesisError::LayoutMismatch);
        }
        let expected = expected(self.encoding());
        proof {
            lemma_symbol_count(self.policy(), self.input());
        }
        let bound = match config.slot() {
            Binding::FixedColumn(fixed) => bind_with_fixed_column(
                config,
                fixed,
                &symbols,
                &expected,
                region,
            ),
            Binding::SelectorConstant(selector, _) => bind_with_selector(
                config,
                selector,
                &symbols,
                &expected,
                region,
            ),
        };
        let ghost plan = binding_ops(config.strategy_spec(), symbols@, expected@);
        assert(self.plan(config.strategy_spec()) == Some(plan));
        match bound {
            Ok(()) => Ok(()),
            Err(e) => {
                proof {
                    let k = choose|k: int| #[trigger]
                        stopped_at(
                            old(region).ops(),
                            region.ops(),
                            old(region).asked(),
                            region.asked(),
                            plan,
                            k,
                        );
                    assert(stopped_at(
                        old(region).ops(),
                        region.ops(),
                        old(region).asked(),
                        region.asked(),
                        plan,
                        k,
                    ));
                    assert(self.plan(config.strategy_spec()).unwrap() == plan);
                }
                Err(SynthesisError::Backend(e))
            },
        }
    }
}

} // verus!
