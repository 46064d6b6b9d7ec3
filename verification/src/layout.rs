//! Constraint configuration: the column layout of the circuit.
//!
//! A layout has one witness column per symbol, each enabled for equality, and
//! the slot that its binding strategy needs: a column of constants to compare
//! against, or a selector together with the column that carries constants
//! bound directly. `configure` declares them on a constraint system, and its
//! contract speaks of the system's record of declarations.
use crate::backend::{
    cs_advice_column, cs_declarations, cs_enable_constant, cs_enable_equality, cs_fixed_column,
    cs_selector, AdviceColumn, ConfigOp, ConstraintSystemRef, FixedColumn,
};
use crate::circuit::IPCheckCircuit;
use crate::encode::{symbol_count, Encoding, COLUMN_COUNT, SEGMENT_COUNT};
use halo2_proofs::plonk::Selector;
use vstd::prelude::*;

verus! {

/// How a witness cell is bound to its expected value.
#[derive(Clone, Copy, Debug, PartialEq, Eq, Structural)]
pub enum BindingStrategy {
    /// The expected value is assigned into a column of constants and the two
    /// cells are constrained to be equal.
    FixedColumn,
    /// A selector is switched on and the cell is constrained to a constant.
    SelectorConstant,
}

/// The witness columns that the record `declared` allocates.
pub open spec fn allocated_in(declared: Seq<ConfigOp>) -> Set<AdviceColumn> {
    Set::new(|column: AdviceColumn| declared.contains(ConfigOp::NewAdvice(column)))
}

/// The witness columns that the record `declared` enables for equality.
pub open spec fn equality_in(declared: Seq<ConfigOp>) -> Set<AdviceColumn> {
    Set::new(|column: AdviceColumn| declared.contains(ConfigOp::EnableEquality(column)))
}

/// The columns of constants that the record `declared` enables for constant
/// binding.
pub open spec fn constants_in(declared: Seq<ConfigOp>) -> Set<FixedColumn> {
    Set::new(|column: FixedColumn| declared.contains(ConfigOp::EnableConstant(column)))
}

/// A declaration that is added to a record is in it, and so is everything
/// that was in it before.
pub proof fn lemma_declared_push(declared: Seq<ConfigOp>, op: ConfigOp)
    ensures
        declared.push(op).contains(op),
        forall|earlier: ConfigOp|
            declared.contains(earlier) ==> #[trigger] declared.push(op).contains(earlier),
        forall|other: ConfigOp|
            #[trigger] declared.push(op).contains(other) ==> other == op || declared.contains(
                other,
            ),
{
    let longer = declared.push(op);
    assert(longer[declared.len() as int] == op);
    assert forall|earlier: ConfigOp| declared.contains(earlier) implies #[trigger] longer.contains(
        earlier,
    ) by {
        let i = choose|i: int| 0 <= i < declared.len() && declared[i] == earlier;
        assert(longer[i] == earlier);
    }
    assert forall|other: ConfigOp| #[trigger] longer.contains(other) implies other == op
        || declared.contains(other) by {
        let i = choose|i: int| 0 <= i < longer.len() && longer[i] == other;
        if i < declared.len() {
            assert(declared[i] == other);
        }
    }
}

/// A constraint system under configuration.
pub struct ConstraintSystemHandle<'a> {
    raw: ConstraintSystemRef<'a>,
}

impl<'a> ConstraintSystemHandle<'a> {
    /// The declarations made on the constraint system, oldest first.
    pub closed spec fn declared(&self) -> Seq<ConfigOp> {
        cs_declarations(self.raw)
    }

    /// The witness columns allocated on the constraint system.
    pub open spec fn allocated(&self) -> Set<AdviceColumn> {
        allocated_in(self.declared())
    }

    /// The witness columns enabled for equality constraints.
    pub open spec fn equality(&self) -> Set<AdviceColumn> {
        equality_in(self.declared())
    }

    /// The columns of constants enabled for constant binding.
    pub open spec fn constants(&self) -> Set<FixedColumn> {
        constants_in(self.declared())
    }

    /// Takes a constraint system under configuration.
    pub fn new(raw: ConstraintSystemRef<'a>) -> (handle: Self)
        ensures
            handle.declared() == cs_declarations(raw),
    {
        ConstraintSystemHandle { raw }
    }

    /// Allocates a witness column. The column is none of those allocated
    /// before.
    pub fn advice_column(&mut self) -> (column: AdviceColumn)
        ensures
            !old(self).allocated().contains(column),
            final(self).declared() == old(self).declared().push(ConfigOp::NewAdvice(column)),
            final(self).allocated() == old(self).allocated().insert(column),
            final(self).equality() == old(self).equality(),
            final(self).constants() == old(self).constants(),
    {
        let column = cs_advice_column(&mut self.raw);
        proof {
            lemma_declared_push(old(self).declared(), ConfigOp::NewAdvice(column));
            assert(self.allocated() =~= old(self).allocated().insert(column));
            assert(self.equality() =~= old(self).equality());
            assert(self.constants() =~= old(self).constants());
        }
        column
    }

    /// Enables a witness column of this constraint system for equality
    /// constraints.
    pub fn enable_equality(&mut self, column: &AdviceColumn)
        requires
            old(self).allocated().contains(*column),
        ensures
            final(self).declared() == old(self).declared().push(ConfigOp::EnableEquality(*column)),
            final(self).equality() == old(self).equality().insert(*column),
            final(self).allocated() == old(self).allocated(),
            final(self).constants() == old(self).constants(),
    {
        cs_enable_equality(&mut self.raw, column);
        proof {
            lemma_declared_push(old(self).declared(), ConfigOp::EnableEquality(*column));
            assert(self.equality() =~= old(self).equality().insert(*column));
            assert(self.allocated() =~= old(self).allocated());
            assert(self.constants() =~= old(self).constants());
        }
    }

    /// Allocates a column of constants.
    pub fn fixed_column(&mut self) -> (column: FixedColumn)
        ensures
            final(self).declared() == old(self).declared().push(ConfigOp::NewFixed(column)),
            final(self).allocated() == old(self).allocated(),
            final(self).equality() == old(self).equality(),
            final(self).constants() == old(self).constants(),
    {
        let column = cs_fixed_column(&mut self.raw);
        proof {
            lemma_declared_push(old(self).declared(), ConfigOp::NewFixed(column));
            assert(self.allocated() =~= old(self).allocated());
            assert(self.equality() =~= old(self).equality());
            assert(self.constants() =~= old(self).constants());
        }
        column
    }

    /// Enables a column of constants for constant binding.
    pub fn enable_constant(&mut self, column: &FixedColumn)
        ensures
            final(self).declared() == old(self).declared().push(ConfigOp::EnableConstant(*column)),
            final(self).constants() == old(self).constants().insert(*column),
            final(self).allocated() == old(self).allocated(),
            final(self).equality() == old(self).equality(),
    {
        cs_enable_constant(&mut self.raw, column);
        proof {
            lemma_declared_push(old(self).declared(), ConfigOp::EnableConstant(*column));
            assert(self.constants() =~= old(self).constants().insert(*column));
            assert(self.allocated() =~= old(self).allocated());
            assert(self.equality() =~= old(self).equality());
        }
    }

    /// Allocates a selector.
    pub fn selector(&mut self) -> (selector: Selector)
        ensures
            final(self).declared() == old(self).declared().push(ConfigOp::NewSelector(selector)),
            final(self).allocated() == old(self).allocated(),
            final(self).equality() == old(self).equality(),
            final(self).constants() == old(self).constants(),
    {
        let selector = cs_selector(&mut self.raw);
        proof {
            lemma_declared_push(old(self).declared(), ConfigOp::NewSelector(selector));
            assert(self.allocated() =~= old(self).allocated());
            assert(self.equality() =~= old(self).equality());
            assert(self.constants() =~= old(self).constants());
        }
        selector
    }
}

/// The slot that a binding strategy works with.
#[derive(Clone)]
pub enum Binding {
    /// The column that the expected values are assigned into.
    FixedColumn(FixedColumn),
    /// The selector that gates the binding, and the column that carries the
    /// constants bound directly.
    SelectorConstant(Selector, FixedColumn),
}

/// The layout of the circuit: its witness columns, in symbol order, and the
/// slot of its binding strategy.
#[derive(Clone)]
pub struct IPCheckConfig {
    chars: Vec<AdviceColumn>,
    binding: Binding,
}

/// The declarations that allocate the witness columns `columns[..n]`, each
/// followed by its equality flag.
pub open spec fn advice_ops(columns: Seq<AdviceColumn>, n: nat) -> Seq<ConfigOp>
    decreases n,
{
    if n == 0 || n > columns.len() {
        Seq::<ConfigOp>::empty()
    } else {
        advice_ops(columns, (n - 1) as nat).push(ConfigOp::NewAdvice(columns[n - 1])).push(
            ConfigOp::EnableEquality(columns[n - 1]),
        )
    }
}

impl IPCheckConfig {
    /// The witness columns, in symbol order.
    pub closed spec fn columns(&self) -> Seq<AdviceColumn> {
        self.chars@
    }

    /// The slot of the binding strategy.
    pub closed spec fn binding(&self) -> Binding {
        self.binding
    }

    /// The binding strategy of this layout.
    pub open spec fn strategy_spec(&self) -> BindingStrategy {
        match self.binding() {
            Binding::FixedColumn(_) => BindingStrategy::FixedColumn,
            Binding::SelectorConstant(_, _) => BindingStrategy::SelectorConstant,
        }
    }

    /// The column of constants of this layout: the one that the expected
    /// values are assigned into, or the one that carries constants bound
    /// directly.
    pub open spec fn constants_column(&self) -> FixedColumn {
        match self.binding() {
            Binding::FixedColumn(fixed) => fixed,
            Binding::SelectorConstant(_, constants) => constants,
        }
    }

    /// The declarations that make up this layout, in the order in which
    /// `configure` makes them.
    pub open spec fn declarations(&self) -> Seq<ConfigOp> {
        let advice = advice_ops(self.columns(), self.columns().len());
        match self.binding() {
            Binding::FixedColumn(fixed) => advice.push(ConfigOp::NewFixed(fixed)).push(
                ConfigOp::EnableConstant(fixed),
            ),
            Binding::SelectorConstant(selector, constants) => seq![
                ConfigOp::NewSelector(selector),
                ConfigOp::NewFixed(constants),
                ConfigOp::EnableConstant(constants),
            ] + advice,
        }
    }

    /// Number of witness columns.
    pub fn column_count(&self) -> (n: usize)
        ensures
            n == self.columns().len(),
    {
        self.chars.len()
    }

    /// The binding strategy of this layout.
    pub fn strategy(&self) -> (strategy: BindingStrategy)
        ensures
            strategy == self.strategy_spec(),
    {
        match &self.binding {
            Binding::FixedColumn(_) => BindingStrategy::FixedColumn,
            Binding::SelectorConstant(_, _) => BindingStrategy::SelectorConstant,
        }
    }

    /// The witness column of symbol `position`.
    pub fn column(&self, position: usize) -> (column: &AdviceColumn)
        requires
            position < self.columns().len(),
        ensures
            *column == self.columns()[position as int],
    {
        &self.chars[position]
    }

    /// The slot of the binding strategy.
    pub fn slot(&self) -> (binding: &Binding)
        ensures
            *binding == self.binding(),
    {
        &self.binding
    }
}

/// Number of symbols, and so of witness columns, under `encoding`.
pub fn columns_for(encoding: Encoding) -> (n: usize)
    ensures
        n == symbol_count(encoding),
{
    match encoding {
        Encoding::Segments => SEGMENT_COUNT,
        Encoding::Bytes => COLUMN_COUNT,
    }
}

/// No column occurs twice in `columns`.
pub open spec fn pairwise_distinct(columns: Seq<AdviceColumn>) -> bool {
    forall|i: int, j: int| 0 <= i < j < columns.len() ==> columns[i] != columns[j]
}

/// Allocates `count` witness columns and enables each for equality. The
/// columns are new and differ from one another.
fn declare_witness_columns(meta: &mut ConstraintSystemHandle<'_>, count: usize) -> (chars: Vec<
    AdviceColumn,
>)
    ensures
        chars@.len() == count,
        final(meta).declared() == old(meta).declared() + advice_ops(chars@, count as nat),
        pairwise_distinct(chars@),
        forall|i: int|
            0 <= i < chars@.len() ==> {
                &&& !old(meta).allocated().contains(#[trigger] chars@[i])
                &&& final(meta).allocated().contains(chars@[i])
                &&& final(meta).equality().contains(chars@[i])
            },
        final(meta).constants() == old(meta).constants(),
{
    let mut chars: Vec<AdviceColumn> = Vec::new();
    let ghost before = meta.declared();
    assert(before + advice_ops(chars@, 0) =~= before);
    while chars.len() < count
        invariant
            chars@.len() <= count,
            before == old(meta).declared(),
            meta.declared() == before + advice_ops(chars@, chars@.len()),
            pairwise_distinct(chars@),
            forall|i: int|
                0 <= i < chars@.len() ==> {
                    &&& !old(meta).allocated().contains(#[trigger] chars@[i])
                    &&& meta.allocated().contains(chars@[i])
                    &&& meta.equality().contains(chars@[i])
                },
            forall|column: AdviceColumn| #[trigger]
                old(meta).allocated().contains(column) ==> meta.allocated().contains(column),
            meta.constants() == old(meta).constants(),
        decreases count - chars@.len(),
    {
        let ghost so_far = chars@;
        let column = meta.advice_column();
        meta.enable_equality(&column);
        chars.push(column);
        proof {
            lemma_advice_ops_prefix(chars@, so_far, so_far.len());
            assert(meta.declared() =~= before + advice_ops(chars@, chars@.len()));
            assert forall|i: int, j: int| 0 <= i < j < chars@.len() implies chars@[i]
                != chars@[j] by {
                if j == so_far.len() {
                    assert(chars@[i] == so_far[i]);
                } else {
                    assert(chars@[i] == so_far[i] && chars@[j] == so_far[j]);
                }
            }
            assert forall|i: int| 0 <= i < chars@.len() implies {
                &&& !old(meta).allocated().contains(#[trigger] chars@[i])
                &&& meta.allocated().contains(chars@[i])
                &&& meta.equality().contains(chars@[i])
            } by {
                if i < so_far.len() {
                    assert(chars@[i] == so_far[i]);
                }
            }
        }
    }
    chars
}

/// The declarations of the first `n` columns depend on those columns only.
proof fn lemma_advice_ops_prefix(longer: Seq<AdviceColumn>, shorter: Seq<AdviceColumn>, n: nat)
    requires
        n <= shorter.len() <= longer.len(),
        forall|i: int| 0 <= i < shorter.len() ==> shorter[i] == longer[i],
    ensures
        advice_ops(longer, n) == advice_ops(shorter, n),
    decreases n,
{
    if n > 0 {
        lemma_advice_ops_prefix(longer, shorter, (n - 1) as nat);
    }
}

impl IPCheckCircuit {
    /// The Constraint Configuration: declares on `meta` one witness column
    /// per symbol of `encoding`, each enabled for equality, and the slot of
    /// `strategy`, and returns the layout. Nothing else is declared. The
    /// witness columns are new to the constraint system and differ from one
    /// another, and the column of constants is enabled for constants.
    pub fn configure(
        meta: &mut ConstraintSystemHandle<'_>,
        encoding: Encoding,
        strategy: BindingStrategy,
    ) -> (config: IPCheckConfig)
        ensures
            config.columns().len() == symbol_count(encoding),
            config.strategy_spec() == strategy,
            final(meta).declared() == old(meta).declared() + config.declarations(),
            pairwise_distinct(config.columns()),
            forall|i: int|
                0 <= i < config.columns().len() ==> {
                    &&& !old(meta).allocated().contains(#[trigger] config.columns()[i])
                    &&& final(meta).allocated().contains(config.columns()[i])
                    &&& final(meta).equality().contains(config.columns()[i])
                },
            final(meta).constants().contains(config.constants_column()),
    {
        let count = columns_for(encoding);
        match strategy {
            BindingStrategy::FixedColumn => {
                let chars = declare_witness_columns(meta, count);
                let fixed = meta.fixed_column();
                meta.enable_constant(&fixed);
                let config = IPCheckConfig { chars, binding: Binding::FixedColumn(fixed) };
                assert(meta.declared() =~= old(meta).declared() + config.declarations());
                config
            },
            BindingStrategy::SelectorConstant => {
                let selector = meta.selector();
                let constants = meta.fixed_column();
                meta.enable_constant(&constants);
                let chars = declare_witness_columns(meta, count);
                let config = IPCheckConfig {
                    chars,
                    binding: Binding::SelectorConstant(selector, constants),
                };
                assert(meta.declared() =~= old(meta).declared() + config.declarations());
                config
            },
        }
    }
}

} // verus!
