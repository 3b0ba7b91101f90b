//! What a layout demands of its values, and whether they meet it.
//!
//! A gate must vanish on every row on which its selector is enabled, two
//! cells that were bound equal must hold the same known value, and a cell
//! that was exposed must hold the public input at its slot.

use crate::config::{Column, ConstraintSystem, Expression, Gate, Selector};
use crate::field::FieldElement;
use crate::layout::{Cell, Exposure, Layout, Layouter, RegionOp};
use crate::value::Value;
use vstd::prelude::*;

verus! {

/// Why a layout, with its values and the public inputs, is rejected.
#[derive(Clone, Copy, Debug, PartialEq, Eq, Structural)]
pub enum VerifyFailure {
    /// A gate does not vanish on a row on which its selector is enabled.
    UnsatisfiedGate,
    /// Two cells that were bound equal do not hold the same known value.
    BrokenEquality,
    /// An exposed cell does not hold the public input at its slot.
    PublicMismatch,
}

/// Whether a region enables `selector` on the row at `offset`.
pub open spec fn selector_enabled(ops: Seq<RegionOp>, selector: Selector, offset: usize) -> bool {
    exists|k: int|
        0 <= k < ops.len() && #[trigger] ops[k] == (RegionOp::EnableSelector { selector, offset })
}

/// Whether an assignment fills the cell of `column` on the row at `offset`.
pub open spec fn fills(op: RegionOp, column: Column, offset: usize) -> bool {
    match op {
        RegionOp::EnableSelector { .. } => false,
        RegionOp::AssignAdvice { column: c, offset: o, .. } => c == column && o == offset,
        RegionOp::CopyAdvice { column: c, offset: o, .. } => c == column && o == offset,
    }
}

/// The value that an assignment gives to the cell it fills.
pub open spec fn filled_with(op: RegionOp) -> Value {
    match op {
        RegionOp::EnableSelector { .. } => Value::Unknown,
        RegionOp::AssignAdvice { value, .. } => value,
        RegionOp::CopyAdvice { from, .. } => from.value,
    }
}

/// The value that a region leaves in the cell of `column` on the row at
/// `offset`: that of the last assignment that fills the cell, if any does.
pub open spec fn region_value(ops: Seq<RegionOp>, column: Column, offset: usize) -> Option<Value>
    decreases ops.len(),
{
    if ops.len() == 0 {
        None
    } else if fills(ops.last(), column, offset) {
        Some(filled_with(ops.last()))
    } else {
        region_value(ops.drop_last(), column, offset)
    }
}

impl Layout {
    /// The value that the layout holds in `cell`, if the cell was assigned.
    pub open spec fn cell_value(self, cell: Cell) -> Option<Value> {
        if cell.region < self.regions.len() {
            region_value(self.regions[cell.region as int], cell.column, cell.offset)
        } else {
            None
        }
    }
}

impl Expression {
    /// The value of the polynomial on the row at `offset` of a region, or
    /// `None` when it reads a cell that holds no known value.
    pub open spec fn eval(self, ops: Seq<RegionOp>, offset: usize) -> Option<FieldElement>
        decreases self,
    {
        match self {
            Expression::Selector(selector) => Some(
                if selector_enabled(ops, selector, offset) {
                    FieldElement::from_nat(1)
                } else {
                    FieldElement::from_nat(0)
                },
            ),
            Expression::Cell(column) => match region_value(ops, column, offset) {
                Some(Value::Known(element)) => Some(element),
                _ => None,
            },
            Expression::Negated(inner) => match inner.eval(ops, offset) {
                Some(element) => Some(FieldElement::from_nat(0).difference(element)),
                None => None,
            },
            Expression::Sum(left, right) => match (left.eval(ops, offset), right.eval(ops, offset)) {
                (Some(x), Some(y)) => Some(x.sum(y)),
                _ => None,
            },
            Expression::Product(left, right) => match (
                left.eval(ops, offset),
                right.eval(ops, offset),
            ) {
                (Some(x), Some(y)) => Some(x.product(y)),
                _ => None,
            },
        }
    }
}

/// A gate holds at an assignment of a region unless the assignment enables
/// that gate's selector on a row on which its polynomial does not
/// evaluate to zero.
pub open spec fn gate_holds(gate: Gate, ops: Seq<RegionOp>, op: RegionOp) -> bool {
    op matches RegionOp::EnableSelector { selector, offset } ==> (gate.selector == selector
        ==> gate.polynomial.eval(ops, offset) == Some(FieldElement::from_nat(0)))
}

/// Every gate holds on every row of a region on which its selector is
/// enabled.
pub open spec fn region_gates_hold(gates: Seq<Gate>, ops: Seq<RegionOp>) -> bool {
    forall|g: int, k: int|
        0 <= g < gates.len() && 0 <= k < ops.len() ==> #[trigger] gate_holds(
            gates[g],
            ops,
            ops[k],
        )
}

/// Every gate holds in every region of a layout.
pub open spec fn gates_hold(gates: Seq<Gate>, layout: Layout) -> bool {
    forall|r: int|
        0 <= r < layout.regions.len() ==> region_gates_hold(gates, #[trigger] layout.regions[r])
}

/// A binding holds at an assignment of region `region` unless the
/// assignment copies a cell and the two cells do not hold the same known
/// value.
pub open spec fn binding_holds(layout: Layout, region: int, op: RegionOp) -> bool {
    op matches RegionOp::CopyAdvice { from, column, offset } ==> (layout.cell_value(from.cell)
        matches Some(Value::Known(element)) && region_value(layout.regions[region], column, offset)
        == Some(Value::Known(element)))
}

/// Every binding of a layout holds.
pub open spec fn bindings_hold(layout: Layout) -> bool {
    forall|r: int, k: int|
        0 <= r < layout.regions.len() && 0 <= k < layout.regions[r].len()
            ==> #[trigger] binding_holds(layout, r, layout.regions[r][k])
}

/// An exposure holds when its cell holds the public input at its slot.
pub open spec fn exposure_holds(
    layout: Layout,
    instances: Seq<Seq<FieldElement>>,
    exposure: Exposure,
) -> bool {
    exposure.column matches Column::Instance(index) && index < instances.len() && exposure.row
        < instances[index as int].len() && layout.cell_value(exposure.cell) == Some(
        Value::Known(instances[index as int][exposure.row as int]),
    )
}

/// Every exposure of a layout holds.
pub open spec fn exposures_hold(layout: Layout, instances: Seq<Seq<FieldElement>>) -> bool {
    forall|k: int|
        0 <= k < layout.exposures.len() ==> exposure_holds(
            layout,
            instances,
            #[trigger] layout.exposures[k],
        )
}

/// The verdict on a layout with its values, under the given gates and
/// public inputs: the gates are looked at first, then the bindings, then
/// the exposures.
pub open spec fn verdict(gates: Seq<Gate>, layout: Layout, instances: Seq<Seq<FieldElement>>)
    -> Result<(), VerifyFailure> {
    if !gates_hold(gates, layout) {
        Err(VerifyFailure::UnsatisfiedGate)
    } else if !bindings_hold(layout) {
        Err(VerifyFailure::BrokenEquality)
    } else if !exposures_hold(layout, instances) {
        Err(VerifyFailure::PublicMismatch)
    } else {
        Ok(())
    }
}

/// The public inputs as sequences: one for each instance column.
pub open spec fn public_inputs(instances: Vec<Vec<FieldElement>>) -> Seq<Seq<FieldElement>> {
    Seq::new(instances@.len(), |k: int| instances@[k]@)
}

/// Whether a region enables `selector` on the row at `offset`.
pub fn is_enabled(ops: &Vec<RegionOp>, selector: Selector, offset: usize) -> (enabled: bool)
    ensures
        enabled == selector_enabled(ops@, selector, offset),
{
    let mut k: usize = 0;
    while k < ops.len()
        invariant
            k <= ops@.len(),
            forall|j: int|
                0 <= j < k ==> #[trigger] ops@[j] != (RegionOp::EnableSelector { selector, offset }),
        decreases ops@.len() - k,
    {
        match ops[k] {
            RegionOp::EnableSelector { selector: s, offset: o } => {
                if s == selector && o == offset {
                    return true;
                }
            },
            _ => {},
        }
        k = k + 1;
    }
    false
}

/// The value that a region leaves in the cell of `column` on the row at
/// `offset`.
pub fn value_at(ops: &Vec<RegionOp>, column: Column, offset: usize) -> (value: Option<Value>)
    ensures
        value == region_value(ops@, column, offset),
{
    let mut found: Option<Value> = None;
    let mut k: usize = 0;
    while k < ops.len()
        invariant
            k <= ops@.len(),
            found == region_value(ops@.take(k as int), column, offset),
        decreases ops@.len() - k,
    {
        proof {
            assert(ops@.take(k + 1).drop_last() =~= ops@.take(k as int));
            assert(ops@.take(k + 1).last() == ops@[k as int]);
        }
        match ops[k] {
            RegionOp::EnableSelector { .. } => {},
            RegionOp::AssignAdvice { column: c, offset: o, value } => {
                if c == column && o == offset {
                    found = Some(value);
                }
            },
            RegionOp::CopyAdvice { from, column: c, offset: o } => {
                if c == column && o == offset {
                    found = Some(from.value);
                }
            },
        }
        k = k + 1;
    }
    proof {
        assert(ops@.take(k as int) =~= ops@);
    }
    found
}

impl Expression {
    /// Evaluates the polynomial on the row at `offset` of a region.
    pub fn evaluate(&self, ops: &Vec<RegionOp>, offset: usize) -> (r: Option<FieldElement>)
        ensures
            r == self.eval(ops@, offset),
        decreases self,
    {
        match self {
            Expression::Selector(selector) => {
                if is_enabled(ops, *selector, offset) {
                    Some(FieldElement::one())
                } else {
                    Some(FieldElement::zero())
                }
            },
            Expression::Cell(column) => match value_at(ops, *column, offset) {
                Some(Value::Known(element)) => Some(element),
                _ => None,
            },
            Expression::Negated(inner) => match inner.evaluate(ops, offset) {
                Some(element) => Some(FieldElement::zero().sub(&element)),
                None => None,
            },
            Expression::Sum(left, right) => {
                let x = left.evaluate(ops, offset);
                let y = right.evaluate(ops, offset);
                match (x, y) {
                    (Some(x), Some(y)) => Some(x.add(&y)),
                    _ => None,
                }
            },
            Expression::Product(left, right) => {
                let x = left.evaluate(ops, offset);
                let y = right.evaluate(ops, offset);
                match (x, y) {
                    (Some(x), Some(y)) => Some(x.mul(&y)),
                    _ => None,
                }
            },
        }
    }
}

/// Whether every gate holds on every row of a region on which its selector
/// is enabled.
pub fn region_gates_satisfied(gates: &Vec<Gate>, ops: &Vec<RegionOp>) -> (ok: bool)
    ensures
        ok == region_gates_hold(gates@, ops@),
{
    let mut k: usize = 0;
    while k < ops.len()
        invariant
            k <= ops@.len(),
            forall|g: int, j: int|
                0 <= g < gates@.len() && 0 <= j < k ==> #[trigger] gate_holds(
                    gates@[g],
                    ops@,
                    ops@[j],
                ),
        decreases ops@.len() - k,
    {
        match ops[k] {
            RegionOp::EnableSelector { selector, offset } => {
                let mut g: usize = 0;
                while g < gates.len()
                    invariant
                        g <= gates@.len(),
                        k < ops@.len(),
                        ops@[k as int] == (RegionOp::EnableSelector { selector, offset }),
                        forall|h: int|
                            0 <= h < g ==> #[trigger] gate_holds(gates@[h], ops@, ops@[k as int]),
                    decreases gates@.len() - g,
                {
                    if gates[g].selector == selector {
                        let zero = FieldElement::zero();
                        let vanishes = match gates[g].polynomial.evaluate(ops, offset) {
                            Some(element) => element == zero,
                            None => false,
                        };
                        if !vanishes {
                            assert(!gate_holds(gates@[g as int], ops@, ops@[k as int]));
                            return false;
                        }
                    }
                    g = g + 1;
                }
            },
            _ => {},
        }
        k = k + 1;
    }
    true
}

/// Whether every gate holds in every region of a layout.
pub fn gates_satisfied(gates: &Vec<Gate>, layouter: &Layouter) -> (ok: bool)
    ensures
        ok == gates_hold(gates@, layouter@),
{
    let mut r: usize = 0;
    while r < layouter.num_regions()
        invariant
            r <= layouter@.regions.len(),
            forall|j: int| 0 <= j < r ==> region_gates_hold(gates@, #[trigger] layouter@.regions[j]),
        decreases layouter@.regions.len() - r,
    {
        if !region_gates_satisfied(gates, layouter.region(r)) {
            return false;
        }
        r = r + 1;
    }
    true
}

/// The value that a layout holds in `cell`, if the cell was assigned.
pub fn cell_value_at(layouter: &Layouter, cell: Cell) -> (value: Option<Value>)
    ensures
        value == layouter@.cell_value(cell),
{
    if cell.region < layouter.num_regions() {
        value_at(layouter.region(cell.region), cell.column, cell.offset)
    } else {
        None
    }
}

/// Whether every binding of a layout holds.
pub fn bindings_satisfied(layouter: &Layouter) -> (ok: bool)
    ensures
        ok == bindings_hold(layouter@),
{
    let mut r: usize = 0;
    while r < layouter.num_regions()
        invariant
            r <= layouter@.regions.len(),
            forall|i: int, j: int|
                0 <= i < r && 0 <= j < layouter@.regions[i].len() ==> #[trigger] binding_holds(
                    layouter@,
                    i,
                    layouter@.regions[i][j],
                ),
        decreases layouter@.regions.len() - r,
    {
        let ops = layouter.region(r);
        let mut k: usize = 0;
        while k < ops.len()
            invariant
                r < layouter@.regions.len(),
                ops@ == layouter@.regions[r as int],
                k <= ops@.len(),
                forall|j: int|
                    0 <= j < k ==> #[trigger] binding_holds(layouter@, r as int, ops@[j]),
            decreases ops@.len() - k,
        {
            match ops[k] {
                RegionOp::CopyAdvice { from, column, offset } => {
                    let source = cell_value_at(layouter, from.cell);
                    let target = value_at(ops, column, offset);
                    let bound = match (source, target) {
                        (Some(Value::Known(x)), Some(Value::Known(y))) => x == y,
                        _ => false,
                    };
                    if !bound {
                        assert(!binding_holds(layouter@, r as int, layouter@.regions[r as int][k as int]));
                        return false;
                    }
                },
                _ => {},
            }
            k = k + 1;
        }
        r = r + 1;
    }
    true
}

/// Whether every exposure of a layout holds under the public inputs.
pub fn exposures_satisfied(layouter: &Layouter, instances: &Vec<Vec<FieldElement>>) -> (ok: bool)
    ensures
        ok == exposures_hold(layouter@, public_inputs(*instances)),
{
    let exposures = layouter.exposures();
    let mut k: usize = 0;
    while k < exposures.len()
        invariant
            exposures@ == layouter@.exposures,
            k <= exposures@.len(),
            forall|j: int|
                0 <= j < k ==> exposure_holds(
                    layouter@,
                    public_inputs(*instances),
                    #[trigger] exposures@[j],
                ),
        decreases exposures@.len() - k,
    {
        let exposure = exposures[k];
        let held = match exposure.column {
            Column::Instance(index) => {
                if index < instances.len() && exposure.row < instances[index].len() {
                    match cell_value_at(layouter, exposure.cell) {
                        Some(Value::Known(element)) => element == instances[index][exposure.row],
                        _ => false,
                    }
                } else {
                    false
                }
            },
            Column::Advice(_) => false,
        };
        if !held {
            assert(!exposure_holds(layouter@, public_inputs(*instances), layouter@.exposures[k as int]));
            return false;
        }
        k = k + 1;
    }
    true
}

/// Holds a layout with its values against the gates that `meta` declares
/// and against the public inputs, one sequence for each instance column.
pub fn verify(meta: &ConstraintSystem, layouter: &Layouter, instances: &Vec<Vec<FieldElement>>) -> (r:
    Result<(), VerifyFailure>)
    ensures
        r == verdict(meta@.gates, layouter@, public_inputs(*instances)),
{
    if !gates_satisfied(meta.gates(), layouter) {
        Err(VerifyFailure::UnsatisfiedGate)
    } else if !bindings_satisfied(layouter) {
        Err(VerifyFailure::BrokenEquality)
    } else if !exposures_satisfied(layouter, instances) {
        Err(VerifyFailure::PublicMismatch)
    } else {
        Ok(())
    }
}

} // verus!
