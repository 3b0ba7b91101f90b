//! The circuit: three seeds, a length, and the synthesis that lays the
//! sequence out and exposes its last term.

use crate::chip::{derived, FiboChip, FiboConfig};
use crate::config::ConstraintSystem;
use crate::layout::{
    region_rows, AssignedCell, Cell, Error, Exposure, Layout, Layouter, RegionOp,
};
use crate::value::Value;
use vstd::prelude::*;

verus! {

/// The `i`-th term of the sequence over witness values: the seeds come
/// first, and every later term is derived from the three before it.  A term
/// derived from an unknown value is unknown.
pub open spec fn value_term(a: Value, b: Value, c: Value, i: nat) -> Value
    decreases i,
{
    if i == 0 {
        a
    } else if i == 1 {
        b
    } else if i == 2 {
        c
    } else {
        derived(
            value_term(a, b, c, (i - 3) as nat),
            value_term(a, b, c, (i - 2) as nat),
            value_term(a, b, c, (i - 1) as nat),
        )
    }
}

impl FiboConfig {
    /// The cell in which term `i` is first assigned when the circuit's first
    /// region has index `base`: the seeds in the first region, every later
    /// term in the last column of the region that derives it.
    pub open spec fn term_cell(self, base: nat, i: nat) -> Cell {
        if i == 0 {
            Cell { region: base as usize, offset: 0, column: self.a }
        } else if i == 1 {
            Cell { region: base as usize, offset: 0, column: self.b }
        } else if i == 2 {
            Cell { region: base as usize, offset: 0, column: self.c }
        } else {
            Cell { region: (base + i - 3) as usize, offset: 0, column: self.d }
        }
    }

    /// Term `i` as the rows hand it on: its cell and its value.
    pub open spec fn term_handle(self, base: nat, a: Value, b: Value, c: Value, i: nat) -> AssignedCell {
        AssignedCell { cell: self.term_cell(base, i), value: value_term(a, b, c, i) }
    }

    /// The assignments of the circuit's region `j`: the first row for the
    /// seeds, and for every later region a row that copies terms `j`,
    /// `j + 1` and `j + 2` from their cells and derives term `j + 3`.
    pub open spec fn region_ops(self, base: nat, a: Value, b: Value, c: Value, j: nat) -> Seq<
        RegionOp,
    > {
        if j == 0 {
            self.first_row_ops(a, b, c)
        } else {
            self.row_ops(
                self.term_handle(base, a, b, c, j),
                self.term_handle(base, a, b, c, j + 1),
                self.term_handle(base, a, b, c, j + 2),
            )
        }
    }

    /// The first `count` regions of the circuit.
    pub open spec fn regions(self, base: nat, a: Value, b: Value, c: Value, count: nat) -> Seq<
        Seq<RegionOp>,
    > {
        Seq::new(count, |j: int| self.region_ops(base, a, b, c, j as nat))
    }

    /// Equality is enabled on the four advice columns, as the later rows
    /// need it.
    pub open spec fn rows_can_bind(self, layout: Layout) -> bool {
        &&& layout.equality.contains(self.a)
        &&& layout.equality.contains(self.b)
        &&& layout.equality.contains(self.c)
        &&& layout.equality.contains(self.d)
    }

    /// Equality is enabled on the column of the derived terms and on the
    /// instance column, as the exposure needs it.
    pub open spec fn can_expose(self, layout: Layout) -> bool {
        &&& layout.equality.contains(self.d)
        &&& layout.equality.contains(self.i)
    }
}

/// The rows of a layout that are still free.
pub open spec fn free_rows(layout: Layout) -> nat {
    if layout.capacity >= layout.rows_used() {
        (layout.capacity - layout.rows_used()) as nat
    } else {
        0
    }
}

/// A circuit instance: three seeds, each known or unknown, and the length of
/// the sequence, which is at least four.
#[derive(Clone, Copy, Debug)]
pub struct FiboCircuit {
    a: Value,
    b: Value,
    c: Value,
    num: usize,
}

impl FiboCircuit {
    /// The first seed.
    pub closed spec fn seed_a(self) -> Value {
        self.a
    }

    /// The second seed.
    pub closed spec fn seed_b(self) -> Value {
        self.b
    }

    /// The third seed.
    pub closed spec fn seed_c(self) -> Value {
        self.c
    }

    /// The length of the sequence.
    pub closed spec fn length(self) -> nat {
        self.num as nat
    }

    /// The length is that of a sequence that can be held in memory.
    pub proof fn lemma_length_bound(self)
        ensures
            self.length() <= usize::MAX,
    {
    }

    /// The sequence has at least the three seeds and one derived term.
    pub open spec fn wf(self) -> bool {
        self.length() >= 4
    }

    /// The number of regions that the circuit needs: one for the seeds and
    /// the first derived term, and one for every further term.
    pub open spec fn regions_needed(self) -> nat {
        (self.length() - 3) as nat
    }

    /// How synthesis on `layout` ends.  The rows run out when fewer are free
    /// than regions are needed; a missing equality capability shows at the
    /// second region or at the exposure, whichever comes first.
    pub open spec fn outcome(self, layout: Layout, config: FiboConfig) -> Result<(), Error> {
        let free = free_rows(layout);
        let need = self.regions_needed();
        if free == 0 {
            Err(Error::ShapeOverflow)
        } else if need >= 2 && free >= 2 && !config.rows_can_bind(layout) {
            Err(Error::MissingEqualityCapability)
        } else if free < need {
            Err(Error::ShapeOverflow)
        } else if !config.can_expose(layout) {
            Err(Error::MissingEqualityCapability)
        } else {
            Ok(())
        }
    }

    /// The number of regions that synthesis on `layout` places before it
    /// ends.
    pub open spec fn placed(self, layout: Layout, config: FiboConfig) -> nat {
        let free = free_rows(layout);
        let need = self.regions_needed();
        if free == 0 {
            0
        } else if need >= 2 && !config.rows_can_bind(layout) {
            1
        } else if free < need {
            free
        } else {
            need
        }
    }

    /// The exposure of the last term in row 0 of the instance column.
    pub open spec fn exposure(self, layout: Layout, config: FiboConfig) -> Exposure {
        Exposure {
            cell: config.term_cell(layout.regions.len(), (self.length() - 1) as nat),
            column: config.i,
            row: 0,
        }
    }

    /// The layout that synthesis on `layout` leaves: the regions it placed
    /// after those that were there, and the exposure of the last term if it
    /// came that far.
    pub open spec fn synthesized(self, layout: Layout, config: FiboConfig) -> Layout {
        Layout {
            regions: layout.regions + config.regions(
                layout.regions.len(),
                self.seed_a(),
                self.seed_b(),
                self.seed_c(),
                self.placed(layout, config),
            ),
            exposures: if self.outcome(layout, config) is Ok {
                layout.exposures.push(self.exposure(layout, config))
            } else {
                layout.exposures
            },
            ..layout
        }
    }

    /// A circuit for the sequence of length `num` seeded by `a`, `b`, `c`,
    /// or `None` when `num` is below four.
    pub fn new(a: Value, b: Value, c: Value, num: usize) -> (r: Option<FiboCircuit>)
        ensures
            r is Some <==> num >= 4,
            r matches Some(circuit) ==> {
                &&& circuit.wf()
                &&& circuit.seed_a() == a
                &&& circuit.seed_b() == b
                &&& circuit.seed_c() == c
                &&& circuit.length() == num
            },
    {
        if num >= 4 {
            Some(FiboCircuit { a, b, c, num })
        } else {
            None
        }
    }

    /// The first seed.
    pub fn a(&self) -> (r: Value)
        ensures
            r == self.seed_a(),
    {
        self.a
    }

    /// The second seed.
    pub fn b(&self) -> (r: Value)
        ensures
            r == self.seed_b(),
    {
        self.b
    }

    /// The third seed.
    pub fn c(&self) -> (r: Value)
        ensures
            r == self.seed_c(),
    {
        self.c
    }

    /// The length of the sequence.
    pub fn num(&self) -> (r: usize)
        ensures
            r == self.length(),
    {
        self.num
    }

    /// The circuit of the same length with every seed unknown: what is laid
    /// out when only the shape is wanted.
    pub fn without_witnesses(&self) -> (r: FiboCircuit)
        ensures
            r.seed_a() == Value::Unknown,
            r.seed_b() == Value::Unknown,
            r.seed_c() == Value::Unknown,
            r.length() == self.length(),
    {
        FiboCircuit { a: Value::Unknown, b: Value::Unknown, c: Value::Unknown, num: self.num }
    }

    /// Declares the columns and the one gate of the circuit.
    pub fn configure(meta: &mut ConstraintSystem) -> (config: FiboConfig)
        requires
            old(meta)@.advice + 4 <= usize::MAX,
            old(meta)@.instance < usize::MAX,
            old(meta)@.selectors < usize::MAX,
        ensures
            config == FiboConfig::on(old(meta)@),
            config.wf(),
            final(meta)@ == FiboConfig::declared(old(meta)@),
    {
        FiboChip::configure(meta)
    }

    /// Lays the sequence out: the first row for the seeds, one row for every
    /// term after the fourth, each bound to the cells of the three terms
    /// before it, and the exposure of the last term in row 0 of the instance
    /// column.  The first step that cannot be made ends the synthesis with
    /// its error; what was placed before stays.
    pub fn synthesize(&self, config: FiboConfig, layouter: &mut Layouter) -> (r: Result<(), Error>)
        requires
            self.wf(),
            old(layouter).wf(),
        ensures
            final(layouter).wf(),
            r == self.outcome(old(layouter)@, config),
            final(layouter)@ == self.synthesized(old(layouter)@, config),
    {
        let ghost before = layouter@;
        let ghost base = before.regions.len();
        let ghost (sa, sb, sc) = (self.a, self.b, self.c);
        proof {
            lemma_first_row_rows(config, sa, sb, sc);
            reveal_with_fuel(value_term, 2);
        }
        let chip = FiboChip::construct(config);
        let first = chip.load_first_row(layouter, self.a, self.b, self.c);
        let (mut b, mut c, mut d) = match first {
            Ok(numbers) => (numbers.1, numbers.2, numbers.3),
            Err(e) => {
                proof {
                    assert(before.regions + config.regions(base, sa, sb, sc, 0) =~= before.regions);
                }
                return Err(e);
            },
        };
        proof {
            assert(before.regions + config.regions(base, sa, sb, sc, 1) =~= before.regions.push(
                config.first_row_ops(sa, sb, sc),
            ));
            assert(before.with_region(config.first_row_ops(sa, sb, sc)).regions.drop_last()
                =~= before.regions);
        }
        let mut i: usize = 4;
        while i < self.num
            invariant
                4 <= i <= self.num,
                before == old(layouter)@,
                (sa, sb, sc) == (self.a, self.b, self.c),
                base == before.regions.len(),
                chip.config == config,
                layouter.wf(),
                layouter@ == (Layout {
                    regions: before.regions + config.regions(base, sa, sb, sc, (i - 3) as nat),
                    ..before
                }),
                layouter@.rows_used() == before.rows_used() + (i - 3),
                before.rows_used() + (i - 3) <= before.capacity,
                i > 4 ==> config.rows_can_bind(before),
                b.0 == config.term_handle(base, sa, sb, sc, (i - 3) as nat),
                c.0 == config.term_handle(base, sa, sb, sc, (i - 2) as nat),
                d.0 == config.term_handle(base, sa, sb, sc, (i - 1) as nat),
            decreases self.num - i,
        {
            let ghost j = (i - 3) as nat;
            let ghost now = layouter@;
            proof {
                lemma_row_rows(config, b.0, c.0, d.0);
                assert(config.region_ops(base, sa, sb, sc, j) == config.row_ops(b.0, c.0, d.0));
                assert(config.can_bind(now, b.0, c.0, d.0) <==> config.rows_can_bind(before));
                assert(free_rows(before) == before.capacity - before.rows_used());
            }
            let new_d = match chip.load_row(layouter, &b, &c, &d) {
                Ok(number) => number,
                Err(e) => {
                    proof {
                        if e == Error::ShapeOverflow {
                            assert(free_rows(before) == j);
                        } else {
                            assert(e == Error::MissingEqualityCapability);
                            assert(i == 4);
                        }
                        assert(self.placed(before, config) == j);
                    }
                    return Err(e);
                },
            };
            proof {
                assert(now.regions.len() == base + j);
                assert(before.regions + config.regions(base, sa, sb, sc, j + 1) =~= now.regions.push(
                    config.row_ops(b.0, c.0, d.0),
                ));
                assert(now.with_region(config.row_ops(b.0, c.0, d.0)).regions.drop_last()
                    =~= now.regions);
            }
            b = c;
            c = d;
            d = new_d;
            i = i + 1;
        }
        let ghost now = layouter@;
        let r = chip.expose_public(layouter, d, 0);
        proof {
            self.lemma_last_step(before, config, now, d.0.cell, r);
        }
        r
    }
}

impl FiboCircuit {
    /// Once every region is placed, the exposure decides how synthesis ends.
    proof fn lemma_last_step(
        self,
        before: Layout,
        config: FiboConfig,
        now: Layout,
        cell: Cell,
        r: Result<(), Error>,
    )
        requires
            self.wf(),
            now == (Layout {
                regions: before.regions + config.regions(
                    before.regions.len(),
                    self.seed_a(),
                    self.seed_b(),
                    self.seed_c(),
                    self.regions_needed(),
                ),
                ..before
            }),
            before.rows_used() + self.regions_needed() <= before.capacity,
            self.regions_needed() >= 2 ==> config.rows_can_bind(before),
            cell == config.term_cell(before.regions.len(), (self.length() - 1) as nat),
            r is Ok ==> now.exposure_error(cell, config.i, 0) is None,
            r matches Err(e) ==> now.exposure_error(cell, config.i, 0) == Some(e),
        ensures
            r == self.outcome(before, config),
            self.placed(before, config) == self.regions_needed(),
            cell == self.exposure(before, config).cell,
    {
        assert(free_rows(before) >= self.regions_needed());
        assert(cell.column == config.d);
        assert(now.exposure_error(cell, config.i, 0) == if config.can_expose(before) {
            None
        } else {
            Some(Error::MissingEqualityCapability)
        });
        match r {
            Ok(unit) => {
                assert(unit == ());
                assert(self.outcome(before, config) == Ok::<(), Error>(()));
            },
            Err(e) => {
                assert(self.outcome(before, config) == Err::<(), Error>(e));
            },
        }
    }
}

/// The first row takes one row of the layout.
proof fn lemma_first_row_rows(config: FiboConfig, a: Value, b: Value, c: Value)
    ensures
        region_rows(config.first_row_ops(a, b, c)) == 1,
{
    let ops = config.first_row_ops(a, b, c);
    lemma_rows_at_offset_zero(ops);
}

/// A later row takes one row of the layout.
proof fn lemma_row_rows(config: FiboConfig, a: AssignedCell, b: AssignedCell, c: AssignedCell)
    ensures
        region_rows(config.row_ops(a, b, c)) == 1,
{
    let ops = config.row_ops(a, b, c);
    lemma_rows_at_offset_zero(ops);
}

/// A region whose assignments are all at offset zero takes one row, unless
/// it is empty.
proof fn lemma_rows_at_offset_zero(ops: Seq<RegionOp>)
    requires
        forall|k: int| 0 <= k < ops.len() ==> (#[trigger] ops[k]).offset() == 0,
    ensures
        region_rows(ops) == if ops.len() == 0 {
            0nat
        } else {
            1nat
        },
    decreases ops.len(),
{
    if ops.len() > 0 {
        let rest = ops.drop_last();
        assert forall|k: int| 0 <= k < rest.len() implies (#[trigger] rest[k]).offset() == 0 by {
            assert(rest[k] == ops[k]);
        }
        lemma_rows_at_offset_zero(rest);
        assert(ops.last() == ops[ops.len() - 1]);
    }
}

} // verus!
