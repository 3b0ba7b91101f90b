//! What holds of the circuit as a whole.

use crate::chip::{derived, FiboConfig};
use crate::circuit::{free_rows, value_term, FiboCircuit};
use crate::config::{Column, Declarations, Expression};
use crate::field::{modulus, FieldElement};
use crate::layout::{Error, Layout, RegionOp};
use crate::recurrence::{fits_u64, term};
use crate::satisfaction::{
    binding_holds, bindings_hold, exposure_holds, exposures_hold, filled_with, fills, gate_holds,
    gates_hold, region_gates_hold, region_value, selector_enabled, verdict, VerifyFailure,
};
use crate::value::Value;
use vstd::arithmetic::div_mod::{lemma_add_mod_noop, lemma_mul_mod_noop_general, lemma_small_mod};
use vstd::prelude::*;

verus! {

/// The `i`-th term of the sequence over the field: the seeds come first, and
/// every later term is the sum of the previous and the third-previous term,
/// multiplied by the second-previous one.
pub open spec fn field_term(x: FieldElement, y: FieldElement, z: FieldElement, i: nat) -> FieldElement
    decreases i,
{
    if i == 0 {
        x
    } else if i == 1 {
        y
    } else if i == 2 {
        z
    } else {
        field_term(x, y, z, (i - 3) as nat).sum(field_term(x, y, z, (i - 1) as nat)).product(
            field_term(x, y, z, (i - 2) as nat),
        )
    }
}

/// With known seeds every term is known, and it is the term of the sequence
/// over the field.
pub proof fn law_known_seeds_give_known_terms(
    x: FieldElement,
    y: FieldElement,
    z: FieldElement,
    i: nat,
)
    ensures
        value_term(Value::Known(x), Value::Known(y), Value::Known(z), i) == Value::Known(
            field_term(x, y, z, i),
        ),
    decreases i,
{
    if i >= 3 {
        law_known_seeds_give_known_terms(x, y, z, (i - 1) as nat);
        law_known_seeds_give_known_terms(x, y, z, (i - 2) as nat);
        law_known_seeds_give_known_terms(x, y, z, (i - 3) as nat);
    }
}

/// With unknown seeds every derived term is unknown.
pub proof fn law_unknown_seeds_give_unknown_terms(i: nat)
    ensures
        value_term(Value::Unknown, Value::Unknown, Value::Unknown, i) == Value::Unknown,
    decreases i,
{
    if i >= 3 {
        law_unknown_seeds_give_unknown_terms((i - 1) as nat);
        law_unknown_seeds_give_unknown_terms((i - 2) as nat);
        law_unknown_seeds_give_unknown_terms((i - 3) as nat);
    }
}

/// The sequence over the field is the sequence over the integers, reduced
/// modulo the order of the field.
pub proof fn law_field_term_is_term_modulo_order(
    x: FieldElement,
    y: FieldElement,
    z: FieldElement,
    i: nat,
)
    requires
        x.wf(),
        y.wf(),
        z.wf(),
    ensures
        field_term(x, y, z, i).wf(),
        field_term(x, y, z, i).value() == term(x.value() as int, y.value() as int, z.value() as int, i)
            % (modulus() as int),
    decreases i,
{
    let p = modulus() as int;
    if i < 3 {
        lemma_small_mod(x.value(), modulus());
        lemma_small_mod(y.value(), modulus());
        lemma_small_mod(z.value(), modulus());
    } else {
        law_field_term_is_term_modulo_order(x, y, z, (i - 1) as nat);
        law_field_term_is_term_modulo_order(x, y, z, (i - 2) as nat);
        law_field_term_is_term_modulo_order(x, y, z, (i - 3) as nat);
        let (a, b, c) = (x.value() as int, y.value() as int, z.value() as int);
        let t1 = term(a, b, c, (i - 1) as nat);
        let t2 = term(a, b, c, (i - 2) as nat);
        let t3 = term(a, b, c, (i - 3) as nat);
        let f1 = field_term(x, y, z, (i - 1) as nat);
        let f2 = field_term(x, y, z, (i - 2) as nat);
        let f3 = field_term(x, y, z, (i - 3) as nat);
        f3.lemma_arithmetic(f1);
        f3.sum(f1).lemma_arithmetic(f2);
        lemma_add_mod_noop(t3, t1, p);
        lemma_mul_mod_noop_general(t3 + t1, t2, p);
        assert(f3.sum(f1).value() == (t3 + t1) % p);
        assert(field_term(x, y, z, i).value() == (((t3 + t1) % p) * (t2 % p)) % p);
        assert(term(a, b, c, i) == (t1 + t3) * t2);
    }
}

/// Where the sequence on machine words can be computed, the sequence over
/// the field has the same terms.
pub proof fn law_field_term_is_machine_term(a: u64, b: u64, c: u64, n: nat, i: nat)
    requires
        fits_u64(a as int, b as int, c as int, n),
        i < n,
    ensures
        field_term(
            FieldElement::from_nat(a as nat),
            FieldElement::from_nat(b as nat),
            FieldElement::from_nat(c as nat),
            i,
        ) == FieldElement::from_nat(term(a as int, b as int, c as int, i) as nat),
{
    let (x, y, z) = (
        FieldElement::from_nat(a as nat),
        FieldElement::from_nat(b as nat),
        FieldElement::from_nat(c as nat),
    );
    FieldElement::lemma_from_nat(a as nat);
    FieldElement::lemma_from_nat(b as nat);
    FieldElement::lemma_from_nat(c as nat);
    law_field_term_is_term_modulo_order(x, y, z, i);
    let t = term(a as int, b as int, c as int, i);
    assert(0 <= t <= u64::MAX);
    lemma_small_mod(t as nat, modulus());
    field_term(x, y, z, i).lemma_from_nat_of_value();
}

/// Configuring twice on the same declarations gives the same columns, the
/// same selector and the same gate.
pub proof fn law_configuration_is_deterministic(first: Declarations, second: Declarations)
    requires
        first == second,
    ensures
        FiboConfig::on(first) == FiboConfig::on(second),
        FiboConfig::on(first).gate() == FiboConfig::on(second).gate(),
        FiboConfig::declared(first) == FiboConfig::declared(second),
{
}

/// The configuration does not depend on what was declared before, but for
/// the numbering of its columns and selector: it always adds four advice
/// columns, one instance column, one selector, equality on the five
/// columns, and the one gate.
pub proof fn law_configuration_adds_the_same(before: Declarations)
    ensures
        FiboConfig::declared(before).advice == before.advice + 4,
        FiboConfig::declared(before).instance == before.instance + 1,
        FiboConfig::declared(before).selectors == before.selectors + 1,
        FiboConfig::declared(before).equality.len() == before.equality.len() + 5,
        FiboConfig::declared(before).gates == before.gates.push(FiboConfig::on(before).gate()),
        before.advice + 3 <= usize::MAX ==> FiboConfig::on(before).wf(),
{
}

/// Two circuits of the same length are laid out in the same shape and end
/// in the same way, whatever their seeds are.  So it is with a circuit and
/// the one that stands for it when only the shape is wanted.
pub proof fn law_shape_does_not_depend_on_seeds(
    witnessed: FiboCircuit,
    shape_only: FiboCircuit,
    config: FiboConfig,
    layout: Layout,
)
    requires
        witnessed.length() == shape_only.length(),
    ensures
        witnessed.outcome(layout, config) == shape_only.outcome(layout, config),
        witnessed.placed(layout, config) == shape_only.placed(layout, config),
        witnessed.synthesized(layout, config).shape() == shape_only.synthesized(
            layout,
            config,
        ).shape(),
{
    let left = witnessed.synthesized(layout, config).shape();
    let right = shape_only.synthesized(layout, config).shape();
    assert(left.regions.len() == right.regions.len());
    assert forall|r: int| 0 <= r < left.regions.len() implies left.regions[r]
        =~= right.regions[r] by {
        let base = layout.regions.len();
        if r >= base {
            let j = (r - base) as nat;
            assert(witnessed.synthesized(layout, config).regions[r] == config.region_ops(
                base,
                witnessed.seed_a(),
                witnessed.seed_b(),
                witnessed.seed_c(),
                j,
            ));
            assert(shape_only.synthesized(layout, config).regions[r] == config.region_ops(
                base,
                shape_only.seed_a(),
                shape_only.seed_b(),
                shape_only.seed_c(),
                j,
            ));
        }
    }
    assert(left.regions =~= right.regions);
}

/// The shortest sequence has four terms: its circuit takes one region, that
/// of the seeds, and no further row.
pub proof fn law_minimum_length(circuit: FiboCircuit, config: FiboConfig, layout: Layout)
    requires
        circuit.length() == 4,
    ensures
        circuit.wf(),
        circuit.regions_needed() == 1,
        circuit.outcome(layout, config) == if free_rows(layout) == 0 {
            Err::<(), Error>(Error::ShapeOverflow)
        } else if !config.can_expose(layout) {
            Err(Error::MissingEqualityCapability)
        } else {
            Ok(())
        },
        free_rows(layout) > 0 ==> circuit.synthesized(layout, config).regions
            == layout.regions.push(
            config.first_row_ops(circuit.seed_a(), circuit.seed_b(), circuit.seed_c()),
        ),
        free_rows(layout) == 0 ==> circuit.synthesized(layout, config).regions == layout.regions,
{
    let placed = circuit.placed(layout, config);
    let added = config.regions(
        layout.regions.len(),
        circuit.seed_a(),
        circuit.seed_b(),
        circuit.seed_c(),
        placed,
    );
    if free_rows(layout) > 0 {
        assert(layout.regions + added =~= layout.regions.push(
            config.first_row_ops(circuit.seed_a(), circuit.seed_b(), circuit.seed_c()),
        ));
    } else {
        assert(layout.regions + added =~= layout.regions);
    }
}

/// Every row after the first takes its three inputs from cells of earlier
/// regions, by copy and not by a value of its own: input `k` of region `j`
/// is bound to the cell in which term `j + k - 1` was first assigned.  And
/// when synthesis succeeds, one cell is exposed and no more.
pub proof fn law_rows_are_chained(
    circuit: FiboCircuit,
    config: FiboConfig,
    layout: Layout,
    j: nat,
    k: nat,
)
    requires
        layout.regions.len() + circuit.regions_needed() <= usize::MAX,
        1 <= j < circuit.placed(layout, config),
        1 <= k <= 3,
    ensures
        circuit.synthesized(layout, config).regions[(layout.regions.len() + j) as int][k as int] matches RegionOp::CopyAdvice {
            from,
            ..
        } && from.cell == config.term_cell(layout.regions.len(), (j + k - 1) as nat)
            && layout.regions.len() <= from.cell.region < layout.regions.len() + j,
        circuit.outcome(layout, config) is Ok ==> circuit.synthesized(layout, config).exposures.len()
            == layout.exposures.len() + 1,
{
    let base = layout.regions.len();
    assert(circuit.synthesized(layout, config).regions[(base + j) as int] == config.region_ops(
        base,
        circuit.seed_a(),
        circuit.seed_b(),
        circuit.seed_c(),
        j,
    ));
    assert(circuit.placed(layout, config) <= circuit.regions_needed());
}

/// A region is a row of the chip: it enables the selector on its only row
/// and fills the four advice columns there, in their order, with the values
/// `a`, `b`, `c` and `d`.
pub open spec fn is_row(
    config: FiboConfig,
    ops: Seq<RegionOp>,
    a: Value,
    b: Value,
    c: Value,
    d: Value,
) -> bool {
    &&& ops.len() == 5
    &&& ops[0] == (RegionOp::EnableSelector { selector: config.s, offset: 0 })
    &&& fills(ops[1], config.a, 0) && filled_with(ops[1]) == a
    &&& fills(ops[2], config.b, 0) && filled_with(ops[2]) == b
    &&& fills(ops[3], config.c, 0) && filled_with(ops[3]) == c
    &&& fills(ops[4], config.d, 0) && filled_with(ops[4]) == d
}

/// What a row of the chip holds in its four advice columns.
pub proof fn lemma_row_values(
    config: FiboConfig,
    ops: Seq<RegionOp>,
    a: Value,
    b: Value,
    c: Value,
    d: Value,
)
    requires
        config.wf(),
        is_row(config, ops, a, b, c, d),
    ensures
        region_value(ops, config.a, 0) == Some(a),
        region_value(ops, config.b, 0) == Some(b),
        region_value(ops, config.c, 0) == Some(c),
        region_value(ops, config.d, 0) == Some(d),
        selector_enabled(ops, config.s, 0),
{
    let ops4 = ops.drop_last();
    let ops3 = ops4.drop_last();
    let ops2 = ops3.drop_last();
    assert(ops4.last() == ops[3]);
    assert(ops3.last() == ops[2]);
    assert(ops2.last() == ops[1]);
    assert(ops.last() == ops[4]);
    assert(region_value(ops2, config.a, 0) == Some(a));
    assert(region_value(ops3, config.a, 0) == Some(a));
    assert(region_value(ops4, config.a, 0) == Some(a));
    assert(region_value(ops3, config.b, 0) == Some(b));
    assert(region_value(ops4, config.b, 0) == Some(b));
    assert(region_value(ops4, config.c, 0) == Some(c));
    assert(ops[0] == (RegionOp::EnableSelector { selector: config.s, offset: 0 }));
}

/// The value of the chip's polynomial on a row of the chip with known
/// inputs.
pub proof fn lemma_row_polynomial(
    config: FiboConfig,
    ops: Seq<RegionOp>,
    x: FieldElement,
    y: FieldElement,
    z: FieldElement,
    d: Value,
)
    requires
        config.wf(),
        is_row(config, ops, Value::Known(x), Value::Known(y), Value::Known(z), d),
    ensures
        config.polynomial().eval(ops, 0) == match d {
            Value::Known(w) => Some(
                FieldElement::from_nat(1).product(
                    x.sum(z).product(y).sum(FieldElement::from_nat(0).difference(w)),
                ),
            ),
            Value::Unknown => None,
        },
{
    lemma_row_values(config, ops, Value::Known(x), Value::Known(y), Value::Known(z), d);
    let cell_a = Expression::Cell(config.a);
    let cell_b = Expression::Cell(config.b);
    let cell_c = Expression::Cell(config.c);
    let cell_d = Expression::Cell(config.d);
    let selector = Expression::Selector(config.s);
    assert(cell_a.eval(ops, 0) == Some(x));
    assert(cell_b.eval(ops, 0) == Some(y));
    assert(cell_c.eval(ops, 0) == Some(z));
    assert(selector.eval(ops, 0) == Some(FieldElement::from_nat(1)));
    let sum = cell_a.plus(cell_c);
    assert(sum.eval(ops, 0) == Some(x.sum(z)));
    let product = sum.times(cell_b);
    assert(product.eval(ops, 0) == Some(x.sum(z).product(y)));
    let negated = Expression::Negated(Box::new(cell_d));
    let difference = product.minus(cell_d);
    assert(difference == Expression::Sum(Box::new(product), Box::new(negated)));
    match d {
        Value::Known(w) => {
            assert(cell_d.eval(ops, 0) == Some(w));
            assert(negated.eval(ops, 0) == Some(FieldElement::from_nat(0).difference(w)));
            assert(difference.eval(ops, 0) == Some(
                x.sum(z).product(y).sum(FieldElement::from_nat(0).difference(w)),
            ));
        },
        Value::Unknown => {
            assert(cell_d.eval(ops, 0) is None);
            assert(negated.eval(ops, 0) is None);
            assert(difference.eval(ops, 0) is None);
        },
    }
    assert(config.polynomial() == selector.times(difference));
}

/// The chip's gate holds on a row with known inputs exactly when the
/// row's last column holds the term derived from them.
pub proof fn lemma_row_gate(
    config: FiboConfig,
    ops: Seq<RegionOp>,
    x: FieldElement,
    y: FieldElement,
    z: FieldElement,
    d: Value,
)
    requires
        config.wf(),
        is_row(config, ops, Value::Known(x), Value::Known(y), Value::Known(z), d),
        d matches Value::Known(w) ==> w.wf(),
    ensures
        region_gates_hold(seq![config.gate()], ops) <==> d == derived(
            Value::Known(x),
            Value::Known(y),
            Value::Known(z),
        ),
{
    let gates = seq![config.gate()];
    let zero = FieldElement::from_nat(0);
    let t = x.sum(z).product(y);
    lemma_row_polynomial(config, ops, x, y, z, d);
    let value = config.polynomial().eval(ops, 0);
    match d {
        Value::Known(w) => {
            x.sum(z).lemma_arithmetic(y);
            t.lemma_scaled_vanish(w);
        },
        Value::Unknown => {},
    }
    assert(value == Some(zero) <==> d == Value::Known(t));
    assert(gates[0] == config.gate());
    assert(gate_holds(gates[0], ops, ops[0]) <==> value == Some(zero));
    if value == Some(zero) {
        assert forall|g: int, k: int| 0 <= g < gates.len() && 0 <= k < ops.len() implies #[trigger] gate_holds(
            gates[g],
            ops,
            ops[k],
        ) by {
            if k > 0 {
                assert(fills(ops[k], config.a, 0) || fills(ops[k], config.b, 0) || fills(
                    ops[k],
                    config.c,
                    0,
                ) || fills(ops[k], config.d, 0));
            }
        }
    }
}

/// Region `j` of the circuit is a row of the chip that holds terms `j` to
/// `j + 3` of the sequence.
pub proof fn lemma_region_is_row(config: FiboConfig, base: nat, a: Value, b: Value, c: Value, j: nat)
    ensures
        is_row(
            config,
            config.region_ops(base, a, b, c, j),
            value_term(a, b, c, j),
            value_term(a, b, c, j + 1),
            value_term(a, b, c, j + 2),
            value_term(a, b, c, j + 3),
        ),
{
    if j == 0 {
        assert(value_term(a, b, c, 0) == a);
        assert(value_term(a, b, c, 1) == b);
        assert(value_term(a, b, c, 2) == c);
        assert(value_term(a, b, c, 3) == derived(a, b, c));
    } else {
        assert(value_term(a, b, c, j + 3) == derived(
            value_term(a, b, c, j),
            value_term(a, b, c, j + 1),
            value_term(a, b, c, j + 2),
        ));
    }
}

/// After synthesis on an empty layout every term that was laid out is held
/// by its cell.
pub proof fn law_terms_are_held_by_their_cells(
    circuit: FiboCircuit,
    config: FiboConfig,
    layout: Layout,
    i: nat,
)
    requires
        circuit.wf(),
        config.wf(),
        layout.regions.len() == 0,
        i < circuit.placed(layout, config) + 3,
        circuit.placed(layout, config) > 0,
    ensures
        circuit.synthesized(layout, config).cell_value(config.term_cell(0, i)) == Some(
            value_term(circuit.seed_a(), circuit.seed_b(), circuit.seed_c(), i),
        ),
{
    let (a, b, c) = (circuit.seed_a(), circuit.seed_b(), circuit.seed_c());
    let after = circuit.synthesized(layout, config);
    let j: nat = if i < 3 {
        0
    } else {
        (i - 3) as nat
    };
    assert(after.regions[j as int] == config.region_ops(0, a, b, c, j));
    lemma_region_is_row(config, 0, a, b, c, j);
    lemma_row_values(
        config,
        after.regions[j as int],
        value_term(a, b, c, j),
        value_term(a, b, c, j + 1),
        value_term(a, b, c, j + 2),
        value_term(a, b, c, j + 3),
    );
    assert(circuit.placed(layout, config) <= circuit.regions_needed());
    circuit.lemma_length_bound();
    assert(config.term_cell(0, i).region == j);
}

/// After synthesis of a circuit with known seeds on an empty layout the
/// gate holds on every row.
pub proof fn law_honest_rows_satisfy_the_gate(
    circuit: FiboCircuit,
    config: FiboConfig,
    layout: Layout,
    x: FieldElement,
    y: FieldElement,
    z: FieldElement,
)
    requires
        config.wf(),
        layout.regions.len() == 0,
        circuit.seed_a() == Value::Known(x),
        circuit.seed_b() == Value::Known(y),
        circuit.seed_c() == Value::Known(z),
    ensures
        gates_hold(seq![config.gate()], circuit.synthesized(layout, config)),
{
    let (a, b, c) = (Value::Known(x), Value::Known(y), Value::Known(z));
    let after = circuit.synthesized(layout, config);
    let gates = seq![config.gate()];
    assert forall|r: int| 0 <= r < after.regions.len() implies region_gates_hold(
        gates,
        #[trigger] after.regions[r],
    ) by {
        let j = r as nat;
        assert(after.regions[r] == config.region_ops(0, a, b, c, j));
        lemma_region_is_row(config, 0, a, b, c, j);
        law_known_seeds_give_known_terms(x, y, z, j);
        law_known_seeds_give_known_terms(x, y, z, j + 1);
        law_known_seeds_give_known_terms(x, y, z, j + 2);
        law_known_seeds_give_known_terms(x, y, z, j + 3);
        let w = field_term(x, y, z, j + 3);
        field_term(x, y, z, j).sum(field_term(x, y, z, j + 2)).lemma_arithmetic(
            field_term(x, y, z, j + 1),
        );
        lemma_row_gate(
            config,
            after.regions[r],
            field_term(x, y, z, j),
            field_term(x, y, z, j + 1),
            field_term(x, y, z, j + 2),
            Value::Known(w),
        );
    }
}

/// After synthesis of a circuit with known seeds on an empty layout every
/// binding holds: each input of a row is the term that it was copied from.
pub proof fn law_honest_bindings_hold(
    circuit: FiboCircuit,
    config: FiboConfig,
    layout: Layout,
    x: FieldElement,
    y: FieldElement,
    z: FieldElement,
)
    requires
        circuit.wf(),
        config.wf(),
        layout.regions.len() == 0,
        circuit.seed_a() == Value::Known(x),
        circuit.seed_b() == Value::Known(y),
        circuit.seed_c() == Value::Known(z),
    ensures
        bindings_hold(circuit.synthesized(layout, config)),
{
    let (a, b, c) = (Value::Known(x), Value::Known(y), Value::Known(z));
    let after = circuit.synthesized(layout, config);
    assert forall|r: int, k: int|
        0 <= r < after.regions.len() && 0 <= k < after.regions[r].len() implies #[trigger] binding_holds(
        after,
        r,
        after.regions[r][k],
    ) by {
        let j = r as nat;
        assert(after.regions[r] == config.region_ops(0, a, b, c, j));
        if j > 0 && 1 <= k <= 3 {
            lemma_binding(circuit, config, layout, x, y, z, j, k);
        }
    }
}

/// Input `k` of row `j` of an honest layout is bound to a cell that holds
/// the same known value.
proof fn lemma_binding(
    circuit: FiboCircuit,
    config: FiboConfig,
    layout: Layout,
    x: FieldElement,
    y: FieldElement,
    z: FieldElement,
    j: nat,
    k: int,
)
    requires
        circuit.wf(),
        config.wf(),
        layout.regions.len() == 0,
        circuit.seed_a() == Value::Known(x),
        circuit.seed_b() == Value::Known(y),
        circuit.seed_c() == Value::Known(z),
        0 < j < circuit.synthesized(layout, config).regions.len(),
        1 <= k <= 3,
    ensures
        binding_holds(
            circuit.synthesized(layout, config),
            j as int,
            circuit.synthesized(layout, config).regions[j as int][k],
        ),
{
    let (a, b, c) = (Value::Known(x), Value::Known(y), Value::Known(z));
    let after = circuit.synthesized(layout, config);
    let ops = after.regions[j as int];
    assert(ops == config.region_ops(0, a, b, c, j));
    let i = (j + k - 1) as nat;
    law_terms_are_held_by_their_cells(circuit, config, layout, i);
    law_known_seeds_give_known_terms(x, y, z, i);
    lemma_region_is_row(config, 0, a, b, c, j);
    lemma_row_values(
        config,
        ops,
        value_term(a, b, c, j),
        value_term(a, b, c, j + 1),
        value_term(a, b, c, j + 2),
        value_term(a, b, c, j + 3),
    );
    assert(ops[k] == (RegionOp::CopyAdvice {
        from: config.term_handle(0, a, b, c, i),
        column: if k == 1 {
            config.a
        } else if k == 2 {
            config.b
        } else {
            config.c
        },
        offset: 0,
    }));
}

/// A circuit with known seeds that was laid out in full on an empty layout
/// is accepted exactly when the public input in row 0 of the instance column
/// is the last term of the sequence; with any other public input, or with
/// none, it is rejected for the mismatch.
pub proof fn law_accepted_exactly_with_last_term(
    circuit: FiboCircuit,
    config: FiboConfig,
    layout: Layout,
    instances: Seq<Seq<FieldElement>>,
    x: FieldElement,
    y: FieldElement,
    z: FieldElement,
)
    requires
        circuit.wf(),
        config.wf(),
        layout.regions.len() == 0,
        layout.exposures.len() == 0,
        circuit.seed_a() == Value::Known(x),
        circuit.seed_b() == Value::Known(y),
        circuit.seed_c() == Value::Known(z),
        circuit.outcome(layout, config) is Ok,
    ensures
        verdict(seq![config.gate()], circuit.synthesized(layout, config), instances) == if (
        config.i matches Column::Instance(index) && index < instances.len() && 0
            < instances[index as int].len() && instances[index as int][0] == field_term(
            x,
            y,
            z,
            (circuit.length() - 1) as nat,
        )) {
            Ok::<(), VerifyFailure>(())
        } else {
            Err(VerifyFailure::PublicMismatch)
        },
{
    let after = circuit.synthesized(layout, config);
    law_honest_rows_satisfy_the_gate(circuit, config, layout, x, y, z);
    law_honest_bindings_hold(circuit, config, layout, x, y, z);
    let last = (circuit.length() - 1) as nat;
    law_terms_are_held_by_their_cells(circuit, config, layout, last);
    law_known_seeds_give_known_terms(x, y, z, last);
    assert(after.exposures.len() == 1);
    assert(after.exposures[0] == circuit.exposure(layout, config));
    assert(exposures_hold(after, instances) <==> exposure_holds(
        after,
        instances,
        after.exposures[0],
    ));
}

/// A circuit with known seeds that was laid out in full on an empty layout
/// and in which the derived term of one row was then replaced by another
/// value is rejected for its gate, whatever the public inputs are.
pub proof fn law_tampered_row_is_rejected(
    circuit: FiboCircuit,
    config: FiboConfig,
    layout: Layout,
    instances: Seq<Seq<FieldElement>>,
    x: FieldElement,
    y: FieldElement,
    z: FieldElement,
    row: nat,
    forged: Value,
)
    requires
        circuit.wf(),
        config.wf(),
        layout.regions.len() == 0,
        circuit.seed_a() == Value::Known(x),
        circuit.seed_b() == Value::Known(y),
        circuit.seed_c() == Value::Known(z),
        circuit.outcome(layout, config) is Ok,
        row < circuit.regions_needed(),
        forged matches Value::Known(w) ==> w.wf(),
        forged != Value::Known(field_term(x, y, z, row + 3)),
    ensures
        verdict(
            seq![config.gate()],
            tampered(circuit.synthesized(layout, config), config, row, forged),
            instances,
        ) == Err::<(), VerifyFailure>(VerifyFailure::UnsatisfiedGate),
{
    let (a, b, c) = (Value::Known(x), Value::Known(y), Value::Known(z));
    let after = circuit.synthesized(layout, config);
    let forgery = tampered(after, config, row, forged);
    let gates = seq![config.gate()];
    assert(circuit.placed(layout, config) == circuit.regions_needed());
    assert(after.regions[row as int] == config.region_ops(0, a, b, c, row));
    lemma_region_is_row(config, 0, a, b, c, row);
    law_known_seeds_give_known_terms(x, y, z, row);
    law_known_seeds_give_known_terms(x, y, z, row + 1);
    law_known_seeds_give_known_terms(x, y, z, row + 2);
    law_known_seeds_give_known_terms(x, y, z, row + 3);
    lemma_row_gate(
        config,
        forgery.regions[row as int],
        field_term(x, y, z, row),
        field_term(x, y, z, row + 1),
        field_term(x, y, z, row + 2),
        forged,
    );
    assert(!region_gates_hold(gates, forgery.regions[row as int]));
}

/// The layout in which the last assignment of region `row`, that of the
/// derived term, gives `forged` in place of its value.
pub open spec fn tampered(layout: Layout, config: FiboConfig, row: nat, forged: Value) -> Layout {
    Layout {
        regions: layout.regions.update(
            row as int,
            layout.regions[row as int].update(
                4,
                RegionOp::AssignAdvice { column: config.d, offset: 0, value: forged },
            ),
        ),
        ..layout
    }
}

/// Every known value that a layout assigns is in canonical form.
pub open spec fn canonical(layout: Layout) -> bool {
    forall|r: int, k: int|
        0 <= r < layout.regions.len() && 0 <= k < layout.regions[r].len() ==> (filled_with(
            #[trigger] layout.regions[r][k],
        ) matches Value::Known(w) ==> w.wf())
}

/// What a prover may hand in for a circuit: a layout of the circuit's shape,
/// with values of the prover's choice, whose first row holds the seeds `x`,
/// `y`, `z`, and which the gates and the bindings accept.
pub open spec fn convinces(
    circuit: FiboCircuit,
    config: FiboConfig,
    layout: Layout,
    witness: Layout,
    x: FieldElement,
    y: FieldElement,
    z: FieldElement,
) -> bool {
    &&& circuit.wf()
    &&& config.wf()
    &&& layout.regions.len() == 0
    &&& layout.exposures.len() == 0
    &&& circuit.outcome(layout, config) is Ok
    &&& witness.shape() == circuit.synthesized(layout, config).shape()
    &&& canonical(witness)
    &&& filled_with(witness.regions[0][1]) == Value::Known(x)
    &&& filled_with(witness.regions[0][2]) == Value::Known(y)
    &&& filled_with(witness.regions[0][3]) == Value::Known(z)
    &&& gates_hold(seq![config.gate()], witness)
    &&& bindings_hold(witness)
}

/// Region `j` of a layout of the circuit's shape is a row of the chip, and
/// each of its inputs after the first row is copied from the cell of its
/// term.
proof fn lemma_shaped_row(
    circuit: FiboCircuit,
    config: FiboConfig,
    layout: Layout,
    witness: Layout,
    j: nat,
)
    requires
        circuit.wf(),
        layout.regions.len() == 0,
        circuit.outcome(layout, config) is Ok,
        witness.shape() == circuit.synthesized(layout, config).shape(),
        j < circuit.regions_needed(),
    ensures
        witness.regions.len() == circuit.regions_needed(),
        is_row(
            config,
            witness.regions[j as int],
            filled_with(witness.regions[j as int][1]),
            filled_with(witness.regions[j as int][2]),
            filled_with(witness.regions[j as int][3]),
            filled_with(witness.regions[j as int][4]),
        ),
        j > 0 ==> forall|k: int|
            1 <= k <= 3 ==> (#[trigger] witness.regions[j as int][k] matches RegionOp::CopyAdvice {
                from,
                ..
            } && from.cell == config.term_cell(0, (j + k - 1) as nat)),
{
    let (a, b, c) = (circuit.seed_a(), circuit.seed_b(), circuit.seed_c());
    let honest = circuit.synthesized(layout, config);
    assert(circuit.placed(layout, config) == circuit.regions_needed());
    assert(witness.shape().regions.len() == honest.shape().regions.len());
    let ops = witness.regions[j as int];
    let model = honest.regions[j as int];
    assert(model == config.region_ops(0, a, b, c, j));
    lemma_region_is_row(config, 0, a, b, c, j);
    assert(witness.shape().regions[j as int] == honest.shape().regions[j as int]);
    assert(witness.shape().regions[j as int].len() == ops.len());
    assert(honest.shape().regions[j as int].len() == model.len());
    assert forall|k: int| 0 <= k < 5 implies (#[trigger] ops[k]).shape() == model[k].shape() by {
        assert(witness.shape().regions[j as int][k] == ops[k].shape());
        assert(honest.shape().regions[j as int][k] == model[k].shape());
    }
    assert(ops[0].shape() == model[0].shape());
    assert(ops[1].shape() == model[1].shape());
    assert(ops[2].shape() == model[2].shape());
    assert(ops[3].shape() == model[3].shape());
    assert(ops[4].shape() == model[4].shape());
}

/// In a layout that convinces, the cell of every term holds the term of the
/// sequence over the field that starts with the seeds of the first row.
pub proof fn law_convincing_values_are_the_sequence(
    circuit: FiboCircuit,
    config: FiboConfig,
    layout: Layout,
    witness: Layout,
    x: FieldElement,
    y: FieldElement,
    z: FieldElement,
    i: nat,
)
    requires
        convinces(circuit, config, layout, witness, x, y, z),
        i < circuit.length(),
    ensures
        witness.cell_value(config.term_cell(0, i)) == Some(Value::Known(field_term(x, y, z, i))),
    decreases i,
{
    let gates = seq![config.gate()];
    let j: nat = if i < 3 {
        0
    } else {
        (i - 3) as nat
    };
    circuit.lemma_length_bound();
    lemma_shaped_row(circuit, config, layout, witness, j);
    let ops = witness.regions[j as int];
    let (va, vb, vc, vd) = (
        filled_with(ops[1]),
        filled_with(ops[2]),
        filled_with(ops[3]),
        filled_with(ops[4]),
    );
    lemma_row_values(config, ops, va, vb, vc, vd);
    assert(config.term_cell(0, i).region == j);
    if i >= 3 {
        if j > 0 {
            law_convincing_values_are_the_sequence(circuit, config, layout, witness, x, y, z, j);
            law_convincing_values_are_the_sequence(circuit, config, layout, witness, x, y, z, j + 1);
            law_convincing_values_are_the_sequence(circuit, config, layout, witness, x, y, z, j + 2);
            assert(binding_holds(witness, j as int, witness.regions[j as int][1]));
            assert(binding_holds(witness, j as int, witness.regions[j as int][2]));
            assert(binding_holds(witness, j as int, witness.regions[j as int][3]));
        }
        assert(va == Value::Known(field_term(x, y, z, j)));
        assert(vb == Value::Known(field_term(x, y, z, j + 1)));
        assert(vc == Value::Known(field_term(x, y, z, j + 2)));
        assert(region_gates_hold(gates, witness.regions[j as int]));
        lemma_row_gate(
            config,
            ops,
            field_term(x, y, z, j),
            field_term(x, y, z, j + 1),
            field_term(x, y, z, j + 2),
            vd,
        );
    }
}

/// Whatever values a prover chooses, a layout of the circuit's shape that is
/// accepted exposes the last term of the sequence that starts with the seeds
/// of its first row: no other public input can be made to pass.
pub proof fn law_only_the_last_term_can_be_proved(
    circuit: FiboCircuit,
    config: FiboConfig,
    layout: Layout,
    witness: Layout,
    instances: Seq<Seq<FieldElement>>,
    x: FieldElement,
    y: FieldElement,
    z: FieldElement,
)
    requires
        convinces(circuit, config, layout, witness, x, y, z),
        verdict(seq![config.gate()], witness, instances) is Ok,
    ensures
        config.i matches Column::Instance(index) && index < instances.len() && 0
            < instances[index as int].len() && instances[index as int][0] == field_term(
            x,
            y,
            z,
            (circuit.length() - 1) as nat,
        ),
{
    let honest = circuit.synthesized(layout, config);
    let last = (circuit.length() - 1) as nat;
    law_convincing_values_are_the_sequence(circuit, config, layout, witness, x, y, z, last);
    assert(witness.exposures == honest.exposures);
    assert(honest.exposures.len() == 1);
    assert(honest.exposures[0] == circuit.exposure(layout, config));
    assert(exposure_holds(witness, instances, witness.exposures[0]));
}

/// The layout that synthesis leaves for canonical known seeds convinces: the
/// demands on a prover can be met.
pub proof fn law_honest_layout_convinces(
    circuit: FiboCircuit,
    config: FiboConfig,
    layout: Layout,
    x: FieldElement,
    y: FieldElement,
    z: FieldElement,
)
    requires
        circuit.wf(),
        config.wf(),
        layout.regions.len() == 0,
        layout.exposures.len() == 0,
        circuit.seed_a() == Value::Known(x),
        circuit.seed_b() == Value::Known(y),
        circuit.seed_c() == Value::Known(z),
        x.wf(),
        y.wf(),
        z.wf(),
        circuit.outcome(layout, config) is Ok,
    ensures
        convinces(circuit, config, layout, circuit.synthesized(layout, config), x, y, z),
{
    let (a, b, c) = (Value::Known(x), Value::Known(y), Value::Known(z));
    let honest = circuit.synthesized(layout, config);
    law_honest_rows_satisfy_the_gate(circuit, config, layout, x, y, z);
    law_honest_bindings_hold(circuit, config, layout, x, y, z);
    assert(circuit.placed(layout, config) == circuit.regions_needed());
    assert(honest.regions[0] == config.region_ops(0, a, b, c, 0));
    assert forall|r: int, k: int|
        0 <= r < honest.regions.len() && 0 <= k < honest.regions[r].len() implies (filled_with(
        #[trigger] honest.regions[r][k],
    ) matches Value::Known(w) ==> w.wf()) by {
        let j = r as nat;
        assert(honest.regions[r] == config.region_ops(0, a, b, c, j));
        lemma_region_is_row(config, 0, a, b, c, j);
        if 1 <= k <= 4 {
            let i = (j + k - 1) as nat;
            law_known_seeds_give_known_terms(x, y, z, i);
            law_field_term_is_term_modulo_order(x, y, z, i);
        }
    }
}

} // verus!
