//! The chip: the columns and the one gate of the recurrence, and the two kinds
//! of rows that carry it.

use crate::config::{Column, ConstraintSystem, Declarations, Expression, Gate, Selector};
use crate::layout::{AssignedCell, Cell, Error, Layout, Layouter, RegionOp};
use crate::value::Value;
use vstd::prelude::*;

verus! {

/// A term of the sequence: the cell that holds it, with its value.
#[derive(Clone, Copy, Debug, PartialEq, Eq, Structural)]
pub struct Number(pub AssignedCell);

/// The columns and the selector of the chip.
#[derive(Clone, Copy, Debug, PartialEq, Eq, Structural)]
pub struct FiboConfig {
    /// The advice column of the third-previous term.
    pub a: Column,
    /// The advice column of the second-previous term.
    pub b: Column,
    /// The advice column of the previous term.
    pub c: Column,
    /// The advice column of the term that the row derives.
    pub d: Column,
    /// The instance column in which the last term is exposed.
    pub i: Column,
    /// The selector of the chip's gate.
    pub s: Selector,
}

/// The value that a row derives from its three inputs: the sum of the first
/// and the third, multiplied by the second.
pub open spec fn derived(a: Value, b: Value, c: Value) -> Value {
    a.sum(c).product(b)
}

impl FiboConfig {
    /// The configuration that is built on declarations `before`: the next
    /// four advice columns, the next instance column and the next selector.
    pub open spec fn on(before: Declarations) -> FiboConfig {
        FiboConfig {
            a: Column::Advice(before.advice as usize),
            b: Column::Advice((before.advice + 1) as usize),
            c: Column::Advice((before.advice + 2) as usize),
            d: Column::Advice((before.advice + 3) as usize),
            i: Column::Instance(before.instance as usize),
            s: Selector(before.selectors as usize),
        }
    }

    /// The four advice columns are advice columns and differ from one
    /// another, and the instance column is an instance column.
    pub open spec fn wf(self) -> bool {
        &&& self.a is Advice
        &&& self.b is Advice
        &&& self.c is Advice
        &&& self.d is Advice
        &&& self.i is Instance
        &&& self.a != self.b
        &&& self.a != self.c
        &&& self.a != self.d
        &&& self.b != self.c
        &&& self.b != self.d
        &&& self.c != self.d
    }

    /// The polynomial of the chip's gate: `s * ((a + c) * b - d)`.
    pub open spec fn polynomial(self) -> Expression {
        Expression::Selector(self.s).times(
            Expression::Cell(self.a).plus(Expression::Cell(self.c)).times(
                Expression::Cell(self.b),
            ).minus(Expression::Cell(self.d)),
        )
    }

    /// The chip's one gate.
    pub open spec fn gate(self) -> Gate {
        Gate { selector: self.s, polynomial: self.polynomial() }
    }

    /// The declarations after the chip was configured on `before`.
    pub open spec fn declared(before: Declarations) -> Declarations {
        let config = Self::on(before);
        Declarations {
            advice: before.advice + 4,
            instance: before.instance + 1,
            selectors: before.selectors + 1,
            equality: before.equality + seq![config.a, config.b, config.c, config.d, config.i],
            gates: before.gates.push(config.gate()),
        }
    }

    /// The assignments of the first row: the selector, the three seeds, and
    /// the term derived from them.
    pub open spec fn first_row_ops(self, a: Value, b: Value, c: Value) -> Seq<RegionOp> {
        seq![
            RegionOp::EnableSelector { selector: self.s, offset: 0 },
            RegionOp::AssignAdvice { column: self.a, offset: 0, value: a },
            RegionOp::AssignAdvice { column: self.b, offset: 0, value: b },
            RegionOp::AssignAdvice { column: self.c, offset: 0, value: c },
            RegionOp::AssignAdvice { column: self.d, offset: 0, value: derived(a, b, c) },
        ]
    }

    /// The assignments of a later row: the selector, the three inputs copied
    /// from earlier cells, and the term derived from them.
    pub open spec fn row_ops(self, a: AssignedCell, b: AssignedCell, c: AssignedCell) -> Seq<
        RegionOp,
    > {
        seq![
            RegionOp::EnableSelector { selector: self.s, offset: 0 },
            RegionOp::CopyAdvice { from: a, column: self.a, offset: 0 },
            RegionOp::CopyAdvice { from: b, column: self.b, offset: 0 },
            RegionOp::CopyAdvice { from: c, column: self.c, offset: 0 },
            RegionOp::AssignAdvice {
                column: self.d,
                offset: 0,
                value: derived(a.value, b.value, c.value),
            },
        ]
    }

    /// The cell of `column` on the only row of region `region`, holding
    /// `value`.
    pub open spec fn number(region: nat, column: Column, value: Value) -> Number {
        Number(AssignedCell { cell: Cell { region: region as usize, offset: 0, column }, value })
    }

    /// Equality is enabled on each of the columns that a later row binds:
    /// those of its three inputs and those that the inputs are copied to.
    pub open spec fn can_bind(
        self,
        layout: Layout,
        a: AssignedCell,
        b: AssignedCell,
        c: AssignedCell,
    ) -> bool {
        &&& layout.equality.contains(a.cell.column)
        &&& layout.equality.contains(self.a)
        &&& layout.equality.contains(b.cell.column)
        &&& layout.equality.contains(self.b)
        &&& layout.equality.contains(c.cell.column)
        &&& layout.equality.contains(self.c)
    }
}

/// The chip that lays out the rows of the recurrence.
#[derive(Clone, Copy, Debug)]
pub struct FiboChip {
    /// The columns and the selector that the chip works on.
    pub config: FiboConfig,
}

impl FiboChip {
    /// The chip for a configuration.
    pub fn construct(config: FiboConfig) -> (chip: FiboChip)
        ensures
            chip.config == config,
    {
        FiboChip { config }
    }

    /// Declares the chip: four advice columns, one instance column and one
    /// selector, equality on the five columns, and the one gate
    /// `s * ((a + c) * b - d)`.
    pub fn configure(meta: &mut ConstraintSystem) -> (config: FiboConfig)
        requires
            old(meta)@.advice + 4 <= usize::MAX,
            old(meta)@.instance < usize::MAX,
            old(meta)@.selectors < usize::MAX,
        ensures
            config == FiboConfig::on(old(meta)@),
            config.wf(),
            final(meta)@ == FiboConfig::declared(old(meta)@),
    {
        let a = meta.advice_column();
        let b = meta.advice_column();
        let c = meta.advice_column();
        let d = meta.advice_column();
        let i = meta.instance_column();
        let s = meta.selector();

        meta.enable_equality(a);
        meta.enable_equality(b);
        meta.enable_equality(c);
        meta.enable_equality(d);
        meta.enable_equality(i);

        let sum = Expression::Cell(a).add(Expression::Cell(c));
        let product = sum.mul(Expression::Cell(b));
        let polynomial = Expression::Selector(s).mul(product.sub(Expression::Cell(d)));
        meta.create_gate(s, polynomial);

        let config = FiboConfig { a, b, c, d, i, s };
        proof {
            assert(meta@.equality =~= FiboConfig::declared(old(meta)@).equality);
        }
        config
    }

    /// Lays out the first row: enables the selector, assigns the three seeds
    /// and the term derived from them, and hands back the four cells.  Fails
    /// when no row is left, and then leaves the layout as it was.
    pub fn load_first_row(&self, layouter: &mut Layouter, a: Value, b: Value, c: Value) -> (r:
        Result<(Number, Number, Number, Number), Error>)
        requires
            old(layouter).wf(),
        ensures
            final(layouter).wf(),
            r is Ok <==> old(layouter)@.rows_used() < old(layouter)@.capacity,
            match r {
                Ok(numbers) => {
                    let region = old(layouter)@.regions.len();
                    &&& final(layouter)@ == old(layouter)@.with_region(
                        self.config.first_row_ops(a, b, c),
                    )
                    &&& numbers.0 == FiboConfig::number(region, self.config.a, a)
                    &&& numbers.1 == FiboConfig::number(region, self.config.b, b)
                    &&& numbers.2 == FiboConfig::number(region, self.config.c, c)
                    &&& numbers.3 == FiboConfig::number(region, self.config.d, derived(a, b, c))
                },
                Err(e) => e == Error::ShapeOverflow && final(layouter)@ == old(layouter)@,
            },
    {
        let d = a.add(&c).mul(&b);
        let mut ops: Vec<RegionOp> = Vec::new();
        ops.push(RegionOp::EnableSelector { selector: self.config.s, offset: 0 });
        ops.push(RegionOp::AssignAdvice { column: self.config.a, offset: 0, value: a });
        ops.push(RegionOp::AssignAdvice { column: self.config.b, offset: 0, value: b });
        ops.push(RegionOp::AssignAdvice { column: self.config.c, offset: 0, value: c });
        ops.push(RegionOp::AssignAdvice { column: self.config.d, offset: 0, value: d });
        proof {
            assert(ops@ =~= self.config.first_row_ops(a, b, c));
            layouter@.lemma_plan_error_none(ops@);
            if layouter@.rows_used() >= layouter@.capacity {
                layouter@.lemma_plan_error_first(ops@, 0);
            }
        }
        let region = layouter.num_regions();
        let cells = layouter.assign_region(ops)?;
        match (cells[1], cells[2], cells[3], cells[4]) {
            (Some(a_cell), Some(b_cell), Some(c_cell), Some(d_cell)) => Ok(
                (Number(a_cell), Number(b_cell), Number(c_cell), Number(d_cell)),
            ),
            _ => {
                proof {
                    assert(false);
                }
                Err(Error::ShapeOverflow)
            },
        }
    }

    /// Lays out a later row: enables the selector, copies the three inputs
    /// from the cells that hold them, assigns the term derived from their
    /// values, and hands back its cell.  Fails when no row is left or when
    /// one of the bound columns lacks equality, and then leaves the layout as
    /// it was.
    pub fn load_row(&self, layouter: &mut Layouter, a: &Number, b: &Number, c: &Number) -> (r:
        Result<Number, Error>)
        requires
            old(layouter).wf(),
        ensures
            final(layouter).wf(),
            match r {
                Ok(number) => {
                    &&& old(layouter)@.rows_used() < old(layouter)@.capacity
                    &&& self.config.can_bind(old(layouter)@, a.0, b.0, c.0)
                    &&& final(layouter)@ == old(layouter)@.with_region(
                        self.config.row_ops(a.0, b.0, c.0),
                    )
                    &&& number == FiboConfig::number(
                        old(layouter)@.regions.len(),
                        self.config.d,
                        derived(a.0.value, b.0.value, c.0.value),
                    )
                },
                Err(e) => {
                    &&& final(layouter)@ == old(layouter)@
                    &&& e == Error::ShapeOverflow <==> old(layouter)@.rows_used() >= old(
                        layouter,
                    )@.capacity
                    &&& e == Error::MissingEqualityCapability <==> old(layouter)@.rows_used() < old(
                        layouter,
                    )@.capacity && !self.config.can_bind(old(layouter)@, a.0, b.0, c.0)
                },
            },
    {
        let d = a.0.value.add(&c.0.value).mul(&b.0.value);
        let mut ops: Vec<RegionOp> = Vec::new();
        ops.push(RegionOp::EnableSelector { selector: self.config.s, offset: 0 });
        ops.push(RegionOp::CopyAdvice { from: a.0, column: self.config.a, offset: 0 });
        ops.push(RegionOp::CopyAdvice { from: b.0, column: self.config.b, offset: 0 });
        ops.push(RegionOp::CopyAdvice { from: c.0, column: self.config.c, offset: 0 });
        ops.push(RegionOp::AssignAdvice { column: self.config.d, offset: 0, value: d });
        proof {
            let layout = layouter@;
            assert(ops@ =~= self.config.row_ops(a.0, b.0, c.0));
            layout.lemma_plan_error_none(ops@);
            if layout.rows_used() >= layout.capacity {
                layout.lemma_plan_error_first(ops@, 0);
            } else if layout.op_error(ops@[1]) is Some {
                layout.lemma_plan_error_first(ops@, 1);
            } else if layout.op_error(ops@[2]) is Some {
                layout.lemma_plan_error_first(ops@, 2);
            } else if layout.op_error(ops@[3]) is Some {
                layout.lemma_plan_error_first(ops@, 3);
            }
        }
        let cells = layouter.assign_region(ops)?;
        match cells[4] {
            Some(d_cell) => Ok(Number(d_cell)),
            None => {
                proof {
                    assert(false);
                }
                Err(Error::ShapeOverflow)
            },
        }
    }

    /// Binds the cell of a term to row `row` of the instance column, so that
    /// a verifier learns its value.  Fails when the row is beyond the
    /// capacity or when the cell's column or the instance column lacks
    /// equality, and then leaves the layout as it was.
    pub fn expose_public(&self, layouter: &mut Layouter, num: Number, row: usize) -> (r: Result<
        (),
        Error,
    >)
        requires
            old(layouter).wf(),
        ensures
            final(layouter).wf(),
            match r {
                Ok(_) => {
                    &&& old(layouter)@.exposure_error(num.0.cell, self.config.i, row) is None
                    &&& final(layouter)@ == old(layouter)@.with_exposure(
                        num.0.cell,
                        self.config.i,
                        row,
                    )
                },
                Err(e) => {
                    &&& old(layouter)@.exposure_error(num.0.cell, self.config.i, row) == Some(e)
                    &&& final(layouter)@ == old(layouter)@
                },
            },
    {
        layouter.constrain_instance(num.0.cell, self.config.i, row)
    }
}

} // verus!
