//! Regions, cells, and the layouter that places them.
//!
//! A region is a batch of row assignments that is placed as a whole.  The
//! layouter stacks regions in the order in which they arrive, refuses a
//! region that needs a row beyond its capacity or binds cells of a column on
//! which equality was not enabled, and records which cells are exposed in an
//! instance column.

use crate::config::{Column, ConstraintSystem, Selector};
use crate::value::Value;
use vstd::prelude::*;

verus! {

/// Why a layout could not be extended.
#[derive(Clone, Copy, Debug, PartialEq, Eq, Structural)]
pub enum Error {
    /// A row beyond the capacity of the layout was needed.
    ShapeOverflow,
    /// A cell of a column on which equality was not enabled was to be bound.
    MissingEqualityCapability,
}

/// The address of a cell: the region it was assigned in, the row offset
/// inside that region, and its column.
#[derive(Clone, Copy, Debug, PartialEq, Eq, Hash, Structural)]
pub struct Cell {
    /// The index of the region.
    pub region: usize,
    /// The row, counted from the region's first row.
    pub offset: usize,
    /// The column.
    pub column: Column,
}

/// A cell together with the value that was assigned to it.
#[derive(Clone, Copy, Debug, PartialEq, Eq, Structural)]
pub struct AssignedCell {
    /// Where the value was assigned.
    pub cell: Cell,
    /// What was assigned.
    pub value: Value,
}

/// One assignment inside a region.
#[derive(Clone, Copy, Debug, PartialEq, Eq, Structural)]
pub enum RegionOp {
    /// Enables a selector on a row of the region.
    EnableSelector { selector: Selector, offset: usize },
    /// Assigns a value to the cell of an advice column on a row of the region.
    AssignAdvice { column: Column, offset: usize, value: Value },
    /// Assigns the value of an earlier cell to the cell of an advice column
    /// on a row of the region, and binds the two cells equal.
    CopyAdvice { from: AssignedCell, column: Column, offset: usize },
}

impl RegionOp {
    /// The row of the region that the assignment touches.
    pub open spec fn offset(self) -> usize {
        match self {
            RegionOp::EnableSelector { offset, .. } => offset,
            RegionOp::AssignAdvice { offset, .. } => offset,
            RegionOp::CopyAdvice { offset, .. } => offset,
        }
    }

    /// The assignment without its value: what is left of it when only the
    /// shape of the layout is looked at.
    pub open spec fn shape(self) -> RegionOp {
        match self {
            RegionOp::EnableSelector { selector, offset } => RegionOp::EnableSelector {
                selector,
                offset,
            },
            RegionOp::AssignAdvice { column, offset, .. } => RegionOp::AssignAdvice {
                column,
                offset,
                value: Value::Unknown,
            },
            RegionOp::CopyAdvice { from, column, offset } => RegionOp::CopyAdvice {
                from: AssignedCell { cell: from.cell, value: Value::Unknown },
                column,
                offset,
            },
        }
    }

    /// The cell that the assignment fills in region `region`, with its
    /// value; enabling a selector fills none.
    pub open spec fn assigned(self, region: usize) -> Option<AssignedCell> {
        match self {
            RegionOp::EnableSelector { .. } => None,
            RegionOp::AssignAdvice { column, offset, value } => Some(
                AssignedCell { cell: Cell { region, offset, column }, value },
            ),
            RegionOp::CopyAdvice { from, column, offset } => Some(
                AssignedCell { cell: Cell { region, offset, column }, value: from.value },
            ),
        }
    }
}

/// The binding of a cell to a row of an instance column.
#[derive(Clone, Copy, Debug, PartialEq, Eq, Structural)]
pub struct Exposure {
    /// The cell whose value becomes public.
    pub cell: Cell,
    /// The instance column.
    pub column: Column,
    /// The row of the instance column.
    pub row: usize,
}

/// The number of rows that a region takes: one more than its largest offset.
pub open spec fn region_rows(ops: Seq<RegionOp>) -> nat
    decreases ops.len(),
{
    if ops.len() == 0 {
        0
    } else {
        let rest = region_rows(ops.drop_last());
        let need = (ops.last().offset() + 1) as nat;
        if need > rest {
            need
        } else {
            rest
        }
    }
}

/// The number of rows that a stack of regions takes.
pub open spec fn total_rows(regions: Seq<Seq<RegionOp>>) -> nat
    decreases regions.len(),
{
    if regions.len() == 0 {
        0
    } else {
        total_rows(regions.drop_last()) + region_rows(regions.last())
    }
}

/// A layout: what a layouter has placed so far.
pub struct Layout {
    /// The number of rows that can be used.
    pub capacity: nat,
    /// The columns on which equality was enabled.
    pub equality: Seq<Column>,
    /// The regions in the order of their placement, each with its
    /// assignments in the order in which they were made.
    pub regions: Seq<Seq<RegionOp>>,
    /// The cells bound to instance columns, in the order of their binding.
    pub exposures: Seq<Exposure>,
}

impl Layout {
    /// The number of rows taken by the regions placed so far; the next
    /// region starts there.
    pub open spec fn rows_used(self) -> nat {
        total_rows(self.regions)
    }

    /// Why one assignment of the next region cannot be made, if it cannot.
    /// A missing row is found before a missing equality capability.
    pub open spec fn op_error(self, op: RegionOp) -> Option<Error> {
        if self.rows_used() + op.offset() >= self.capacity {
            Some(Error::ShapeOverflow)
        } else if (op matches RegionOp::CopyAdvice { from, column, .. } && !(self.equality.contains(
            from.cell.column,
        ) && self.equality.contains(column))) {
            Some(Error::MissingEqualityCapability)
        } else {
            None
        }
    }

    /// Why the next region cannot be placed, if it cannot: the error of its
    /// first assignment that cannot be made.
    pub open spec fn plan_error(self, ops: Seq<RegionOp>) -> Option<Error>
        decreases ops.len(),
    {
        if ops.len() == 0 {
            None
        } else {
            match self.plan_error(ops.drop_last()) {
                Some(e) => Some(e),
                None => self.op_error(ops.last()),
            }
        }
    }

    /// The layout without its values: the rows, the columns, the selectors,
    /// the bindings and the exposures.
    pub open spec fn shape(self) -> Layout {
        Layout {
            regions: Seq::new(
                self.regions.len(),
                |r: int| Seq::new(self.regions[r].len(), |k: int| self.regions[r][k].shape()),
            ),
            ..self
        }
    }

    /// The layout with one more region.
    pub open spec fn with_region(self, ops: Seq<RegionOp>) -> Layout {
        Layout { regions: self.regions.push(ops), ..self }
    }

    /// The cells that the next region fills, one entry for each of its
    /// assignments.
    pub open spec fn plan_cells(self, ops: Seq<RegionOp>) -> Seq<Option<AssignedCell>> {
        Seq::new(ops.len(), |k: int| ops[k].assigned(self.regions.len() as usize))
    }

    /// Why a cell cannot be bound to a row of an instance column, if it
    /// cannot.
    pub open spec fn exposure_error(self, cell: Cell, column: Column, row: usize) -> Option<Error> {
        if row >= self.capacity {
            Some(Error::ShapeOverflow)
        } else if !(self.equality.contains(cell.column) && self.equality.contains(column)) {
            Some(Error::MissingEqualityCapability)
        } else {
            None
        }
    }

    /// The layout with one more cell bound to an instance column.
    pub open spec fn with_exposure(self, cell: Cell, column: Column, row: usize) -> Layout {
        Layout { exposures: self.exposures.push(Exposure { cell, column, row }), ..self }
    }

    /// A region can be placed exactly when each of its assignments can be
    /// made.
    pub proof fn lemma_plan_error_none(self, ops: Seq<RegionOp>)
        ensures
            self.plan_error(ops) is None <==> forall|k: int|
                0 <= k < ops.len() ==> self.op_error(#[trigger] ops[k]) is None,
        decreases ops.len(),
    {
        if ops.len() > 0 {
            self.lemma_plan_error_none(ops.drop_last());
            let rest = ops.drop_last();
            if self.plan_error(ops) is None {
                assert forall|k: int| 0 <= k < ops.len() implies self.op_error(
                    #[trigger] ops[k],
                ) is None by {
                    if k < rest.len() {
                        assert(rest[k] == ops[k]);
                    }
                }
            }
            if forall|k: int| 0 <= k < ops.len() ==> self.op_error(#[trigger] ops[k]) is None {
                assert forall|k: int| 0 <= k < rest.len() implies self.op_error(
                    #[trigger] rest[k],
                ) is None by {
                    assert(rest[k] == ops[k]);
                }
                assert(self.op_error(ops[ops.len() - 1]) is None);
            }
        }
    }

    /// The error of a region is the error of its first assignment that
    /// cannot be made.
    pub proof fn lemma_plan_error_first(self, ops: Seq<RegionOp>, k: int)
        requires
            0 <= k < ops.len(),
            forall|j: int| 0 <= j < k ==> self.op_error(#[trigger] ops[j]) is None,
            self.op_error(ops[k]) is Some,
        ensures
            self.plan_error(ops) == self.op_error(ops[k]),
    {
        let prefix = ops.take(k);
        assert forall|j: int| 0 <= j < prefix.len() implies self.op_error(
            #[trigger] prefix[j],
        ) is None by {
            assert(prefix[j] == ops[j]);
        }
        self.lemma_plan_error_none(prefix);
        assert(ops.take(k + 1).drop_last() =~= prefix);
        assert(ops.take(k + 1).last() == ops[k]);
        self.lemma_plan_error_prefix(ops, k + 1);
    }

    /// Once an assignment of a region cannot be made, no later assignment
    /// changes the error.
    pub proof fn lemma_plan_error_prefix(self, ops: Seq<RegionOp>, k: int)
        requires
            0 <= k <= ops.len(),
            self.plan_error(ops.take(k)) is Some,
        ensures
            self.plan_error(ops) == self.plan_error(ops.take(k)),
        decreases ops.len() - k,
    {
        if k < ops.len() {
            assert(ops.take(k + 1).drop_last() =~= ops.take(k));
            self.lemma_plan_error_prefix(ops, k + 1);
        } else {
            assert(ops.take(k) =~= ops);
        }
    }
}

/// Places regions and records exposures, within a fixed number of rows.
#[derive(Debug)]
pub struct Layouter {
    capacity: usize,
    rows_used: usize,
    equality: Vec<Column>,
    regions: Vec<Vec<RegionOp>>,
    exposures: Vec<Exposure>,
}

impl View for Layouter {
    type V = Layout;

    closed spec fn view(&self) -> Layout {
        Layout {
            capacity: self.capacity as nat,
            equality: self.equality@,
            regions: Seq::new(self.regions@.len(), |k: int| self.regions@[k]@),
            exposures: self.exposures@,
        }
    }
}

impl Layouter {
    /// The layouter keeps count of the rows it has used, and has not used
    /// more than it may.
    pub closed spec fn wf(&self) -> bool {
        &&& self.rows_used == self@.rows_used()
        &&& self.rows_used <= self.capacity
    }

    /// An empty layout of `capacity` rows for the columns that `meta`
    /// declares.
    pub fn new(meta: &ConstraintSystem, capacity: usize) -> (r: Layouter)
        ensures
            r.wf(),
            r@ == (Layout {
                capacity: capacity as nat,
                equality: meta@.equality,
                regions: Seq::empty(),
                exposures: Seq::empty(),
            }),
    {
        let columns = meta.equality_columns();
        let mut equality: Vec<Column> = Vec::new();
        let mut k: usize = 0;
        while k < columns.len()
            invariant
                k <= columns@.len(),
                equality@ == columns@.take(k as int),
            decreases columns@.len() - k,
        {
            equality.push(columns[k]);
            assert(columns@.take(k + 1) =~= columns@.take(k as int).push(columns@[k as int]));
            k = k + 1;
        }
        assert(columns@.take(k as int) =~= columns@);
        let r = Layouter {
            capacity,
            rows_used: 0,
            equality,
            regions: Vec::new(),
            exposures: Vec::new(),
        };
        assert(r@.regions =~= Seq::<Seq<RegionOp>>::empty());
        r
    }

    /// Whether equality bindings are allowed on `column`.
    pub fn equality_enabled(&self, column: Column) -> (enabled: bool)
        ensures
            enabled == self@.equality.contains(column),
    {
        let mut k: usize = 0;
        while k < self.equality.len()
            invariant
                k <= self.equality@.len(),
                forall|j: int| 0 <= j < k ==> self.equality@[j] != column,
            decreases self.equality@.len() - k,
        {
            if self.equality[k] == column {
                return true;
            }
            k = k + 1;
        }
        false
    }

    /// Places a region: makes its assignments in order, on the rows after
    /// those already used.  Either all of them are made, or the first one
    /// that cannot be made gives the error and the layout stays as it was.
    pub fn assign_region(&mut self, ops: Vec<RegionOp>) -> (r: Result<
        Vec<Option<AssignedCell>>,
        Error,
    >)
        requires
            old(self).wf(),
        ensures
            final(self).wf(),
            match r {
                Ok(cells) => {
                    &&& old(self)@.plan_error(ops@) is None
                    &&& final(self)@ == old(self)@.with_region(ops@)
                    &&& cells@ == old(self)@.plan_cells(ops@)
                },
                Err(e) => {
                    &&& old(self)@.plan_error(ops@) == Some(e)
                    &&& final(self)@ == old(self)@
                },
            },
    {
        let index = self.regions.len();
        let mut cells: Vec<Option<AssignedCell>> = Vec::new();
        let mut rows: usize = 0;
        let mut k: usize = 0;
        while k < ops.len()
            invariant
                k <= ops@.len(),
                self == old(self),
                self.wf(),
                index == self.regions@.len(),
                self@.plan_error(ops@.take(k as int)) is None,
                rows == region_rows(ops@.take(k as int)),
                self.rows_used + rows <= self.capacity,
                cells@.len() == k,
                forall|j: int| 0 <= j < k ==> cells@[j] == (#[trigger] ops@[j]).assigned(index),
            decreases ops@.len() - k,
        {
            let op = ops[k];
            proof {
                assert(ops@.take(k + 1).drop_last() =~= ops@.take(k as int));
                assert(ops@.take(k + 1).last() == op);
            }
            let offset = match op {
                RegionOp::EnableSelector { offset, .. } => offset,
                RegionOp::AssignAdvice { offset, .. } => offset,
                RegionOp::CopyAdvice { offset, .. } => offset,
            };
            if offset >= self.capacity - self.rows_used {
                proof {
                    self@.lemma_plan_error_prefix(ops@, k + 1);
                }
                return Err(Error::ShapeOverflow);
            }
            let cell = match op {
                RegionOp::EnableSelector { .. } => None,
                RegionOp::AssignAdvice { column, offset, value } => Some(
                    AssignedCell { cell: Cell { region: index, offset, column }, value },
                ),
                RegionOp::CopyAdvice { from, column, offset } => {
                    if !(self.equality_enabled(from.cell.column) && self.equality_enabled(column)) {
                        proof {
                            self@.lemma_plan_error_prefix(ops@, k + 1);
                        }
                        return Err(Error::MissingEqualityCapability);
                    }
                    Some(
                        AssignedCell {
                            cell: Cell { region: index, offset, column },
                            value: from.value,
                        },
                    )
                },
            };
            cells.push(cell);
            if offset + 1 > rows {
                rows = offset + 1;
            }
            k = k + 1;
        }
        proof {
            assert(ops@.take(k as int) =~= ops@);
            assert(cells@ =~= self@.plan_cells(ops@));
            assert(self@.with_region(ops@).regions.drop_last() =~= self@.regions);
        }
        self.regions.push(ops);
        self.rows_used = self.rows_used + rows;
        proof {
            assert(self@.regions =~= old(self)@.regions.push(ops@));
        }
        Ok(cells)
    }

    /// Binds a cell to a row of an instance column, so that its value
    /// becomes public there.
    pub fn constrain_instance(&mut self, cell: Cell, column: Column, row: usize) -> (r: Result<
        (),
        Error,
    >)
        requires
            old(self).wf(),
        ensures
            final(self).wf(),
            match r {
                Ok(_) => {
                    &&& old(self)@.exposure_error(cell, column, row) is None
                    &&& final(self)@ == old(self)@.with_exposure(cell, column, row)
                },
                Err(e) => {
                    &&& old(self)@.exposure_error(cell, column, row) == Some(e)
                    &&& final(self)@ == old(self)@
                },
            },
    {
        if row >= self.capacity {
            return Err(Error::ShapeOverflow);
        }
        if !(self.equality_enabled(cell.column) && self.equality_enabled(column)) {
            return Err(Error::MissingEqualityCapability);
        }
        self.exposures.push(Exposure { cell, column, row });
        proof {
            assert(self@.regions =~= old(self)@.regions);
        }
        Ok(())
    }

    /// The number of rows that can be used.
    pub fn capacity(&self) -> (n: usize)
        ensures
            n == self@.capacity,
    {
        self.capacity
    }

    /// The number of rows taken so far.
    pub fn rows_used(&self) -> (n: usize)
        requires
            self.wf(),
        ensures
            n == self@.rows_used(),
    {
        self.rows_used
    }

    /// The number of regions placed so far.
    pub fn num_regions(&self) -> (n: usize)
        ensures
            n == self@.regions.len(),
    {
        self.regions.len()
    }

    /// The assignments of region `index`, in the order in which they were
    /// made.
    pub fn region(&self, index: usize) -> (ops: &Vec<RegionOp>)
        requires
            index < self@.regions.len(),
        ensures
            ops@ == self@.regions[index as int],
    {
        &self.regions[index]
    }

    /// The cells bound to instance columns, in the order of their binding.
    pub fn exposures(&self) -> (exposures: &Vec<Exposure>)
        ensures
            exposures@ == self@.exposures,
    {
        &self.exposures
    }
}

} // verus!
