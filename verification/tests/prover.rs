use std::collections::HashMap;

use fibovar_circuit::satisfaction::verify;
use fibovar_circuit::chip::{FiboChip, FiboConfig};
use fibovar_circuit::circuit::FiboCircuit;
use fibovar_circuit::config::{Column, ConstraintSystem, Expression};
use fibovar_circuit::field::FieldElement;
use fibovar_circuit::layout::{Cell, Error, Layouter, RegionOp};
use fibovar_circuit::value::Value;
use halo2_proofs::circuit::{AssignedCell, SimpleFloorPlanner};
use halo2_proofs::dev::{MockProver, VerifyFailure};
use halo2_proofs::pasta::{EqAffine, Fp};
use halo2_proofs::plonk::{keygen_vk, Advice, Circuit, Instance, Selector, VirtualCells};
use halo2_proofs::poly::commitment::Params;
use halo2_proofs::poly::Rotation;

/// The columns of the proving system that stand for those of the library.
#[derive(Clone)]
struct Wires {
    config: FiboConfig,
    advice: Vec<halo2_proofs::plonk::Column<Advice>>,
    instance: Vec<halo2_proofs::plonk::Column<Instance>>,
    selectors: Vec<Selector>,
}

/// A circuit of the library, handed to the proving system; with a forged
/// value it lays out two rows and puts the value in place of the fifth term.
struct Replay {
    circuit: FiboCircuit,
    forged: Option<Value>,
}

fn element(value: &FieldElement) -> Fp {
    Fp::from_raw(value.to_limbs())
}

fn witness(value: &Value) -> halo2_proofs::circuit::Value<Fp> {
    match value {
        Value::Known(v) => halo2_proofs::circuit::Value::known(element(v)),
        Value::Unknown => halo2_proofs::circuit::Value::unknown(),
    }
}

fn polynomial(
    expression: &Expression,
    cells: &mut VirtualCells<'_, Fp>,
    wires: &Wires,
) -> halo2_proofs::plonk::Expression<Fp> {
    match expression {
        Expression::Selector(selector) => cells.query_selector(wires.selectors[selector.0]),
        Expression::Cell(Column::Advice(index)) => cells.query_advice(wires.advice[*index], Rotation::cur()),
        Expression::Cell(Column::Instance(index)) => {
            cells.query_instance(wires.instance[*index], Rotation::cur())
        }
        Expression::Negated(inner) => -polynomial(inner, cells, wires),
        Expression::Sum(left, right) => polynomial(left, cells, wires) + polynomial(right, cells, wires),
        Expression::Product(left, right) => polynomial(left, cells, wires) * polynomial(right, cells, wires),
    }
}

fn advice_index(column: Column) -> Result<usize, halo2_proofs::plonk::Error> {
    match column {
        Column::Advice(index) => Ok(index),
        Column::Instance(_) => Err(halo2_proofs::plonk::Error::Synthesis),
    }
}

fn model(circuit: &FiboCircuit, forged: Option<Value>) -> Result<(ConstraintSystem, Layouter), Error> {
    let mut meta = ConstraintSystem::new();
    let config = FiboCircuit::configure(&mut meta);
    let mut layouter = Layouter::new(&meta, usize::MAX);
    match forged {
        None => circuit.synthesize(config, &mut layouter)?,
        Some(value) => {
            let chip = FiboChip::construct(config);
            let (_, b, c, d) = chip.load_first_row(&mut layouter, circuit.a(), circuit.b(), circuit.c())?;
            let cells = layouter.assign_region(vec![
                RegionOp::EnableSelector { selector: config.s, offset: 0 },
                RegionOp::CopyAdvice { from: b.0, column: config.a, offset: 0 },
                RegionOp::CopyAdvice { from: c.0, column: config.b, offset: 0 },
                RegionOp::CopyAdvice { from: d.0, column: config.c, offset: 0 },
                RegionOp::AssignAdvice { column: config.d, offset: 0, value },
            ])?;
            layouter.constrain_instance(cells[4].unwrap().cell, config.i, 0)?;
        }
    }
    Ok((meta, layouter))
}

impl Circuit<Fp> for Replay {
    type Config = Wires;
    type FloorPlanner = SimpleFloorPlanner;

    fn without_witnesses(&self) -> Self {
        Replay { circuit: self.circuit.without_witnesses(), forged: self.forged.map(|_| Value::Unknown) }
    }

    fn configure(meta: &mut halo2_proofs::plonk::ConstraintSystem<Fp>) -> Wires {
        let mut declared = ConstraintSystem::new();
        let config = FiboCircuit::configure(&mut declared);
        let wires = Wires {
            config,
            advice: (0..declared.num_advice_columns()).map(|_| meta.advice_column()).collect(),
            instance: (0..declared.num_instance_columns()).map(|_| meta.instance_column()).collect(),
            selectors: (0..declared.num_selectors()).map(|_| meta.selector()).collect(),
        };
        for column in declared.equality_columns() {
            match column {
                Column::Advice(index) => meta.enable_equality(wires.advice[*index]),
                Column::Instance(index) => meta.enable_equality(wires.instance[*index]),
            }
        }
        for gate in declared.gates() {
            meta.create_gate("mul add gate", |cells| vec![polynomial(&gate.polynomial, cells, &wires)]);
        }
        wires
    }

    fn synthesize(
        &self,
        wires: Wires,
        mut layouter: impl halo2_proofs::circuit::Layouter<Fp>,
    ) -> Result<(), halo2_proofs::plonk::Error> {
        let (_, plan) = model(&self.circuit, self.forged).map_err(|_| halo2_proofs::plonk::Error::Synthesis)?;
        let mut placed: HashMap<Cell, AssignedCell<Fp, Fp>> = HashMap::new();
        for index in 0..plan.num_regions() {
            let ops = plan.region(index);
            let filled = layouter.assign_region(
                || "row",
                |mut region| {
                    let mut filled = Vec::new();
                    for op in ops {
                        match *op {
                            RegionOp::EnableSelector { selector, offset } => {
                                wires.selectors[selector.0].enable(&mut region, offset)?;
                            }
                            RegionOp::AssignAdvice { column, offset, value } => {
                                let wire = wires.advice[advice_index(column)?];
                                let cell = region.assign_advice(|| "term", wire, offset, || witness(&value))?;
                                filled.push((Cell { region: index, offset, column }, cell));
                            }
                            RegionOp::CopyAdvice { from, column, offset } => {
                                let wire = wires.advice[advice_index(column)?];
                                let source = placed.get(&from.cell).ok_or(halo2_proofs::plonk::Error::Synthesis)?;
                                let cell = source.copy_advice(|| "copy", &mut region, wire, offset)?;
                                filled.push((Cell { region: index, offset, column }, cell));
                            }
                        }
                    }
                    Ok(filled)
                },
            )?;
            placed.extend(filled);
        }
        for exposure in plan.exposures() {
            let cell = placed.get(&exposure.cell).ok_or(halo2_proofs::plonk::Error::Synthesis)?;
            let wire = match exposure.column {
                Column::Instance(index) => wires.instance[index],
                Column::Advice(_) => return Err(halo2_proofs::plonk::Error::Synthesis),
            };
            layouter.constrain_instance(cell.cell(), wire, exposure.row)?;
        }
        assert_eq!(wires.config.i, Column::Instance(0));
        Ok(())
    }
}

fn known(v: u64) -> Value {
    Value::known(FieldElement::from_u64(v))
}

fn replay(a: u64, b: u64, c: u64, num: usize) -> Replay {
    Replay { circuit: FiboCircuit::new(known(a), known(b), known(c), num).unwrap(), forged: None }
}

fn proves<C: Circuit<Fp>>(circuit: &C, public: Fp) -> Result<(), Vec<VerifyFailure>> {
    MockProver::run(8, circuit, vec![vec![public]]).unwrap().verify()
}

fn last_term(a: u64, b: u64, c: u64, num: usize) -> Fp {
    let mut seq = vec![Fp::from(a), Fp::from(b), Fp::from(c)];
    for i in 3..num {
        let next = (seq[i - 1] + seq[i - 3]) * seq[i - 2];
        seq.push(next);
    }
    seq[num - 1]
}

#[test]
fn the_prover_accepts_eight_for_four_terms() {
    assert_eq!(proves(&replay(1, 2, 3, 4), Fp::from(8)), Ok(()));
}

#[test]
fn the_prover_accepts_thirty_and_rejects_twenty_nine_for_five_terms() {
    assert_eq!(proves(&replay(1, 2, 3, 5), Fp::from(30)), Ok(()));
    assert!(proves(&replay(1, 2, 3, 5), Fp::from(29)).is_err());
}

#[test]
fn the_prover_accepts_two_hundred_sixty_four_for_six_terms() {
    assert_eq!(proves(&replay(1, 2, 3, 6), Fp::from(264)), Ok(()));
}

#[test]
fn the_prover_accepts_one_for_zero_one_one() {
    assert_eq!(proves(&replay(0, 1, 1, 4), Fp::from(1)), Ok(()));
    assert!(proves(&replay(0, 1, 1, 4), Fp::from(0)).is_err());
}

#[test]
fn the_prover_accepts_the_tenth_term_and_rejects_another() {
    let ten = replay(1, 2, 3, 10);
    assert_eq!(proves(&ten, Fp::from(38152152118080000)), Ok(()));
    assert!(proves(&ten, Fp::from(9999)).is_err());
}

#[test]
fn the_prover_rejects_a_forged_term_for_its_constraint() {
    for forged in [29u64, 31, 0] {
        let run = Replay { circuit: replay(1, 2, 3, 5).circuit, forged: Some(known(forged)) };
        for public in [forged, 30] {
            let failures = proves(&run, Fp::from(public)).unwrap_err();
            assert!(failures.iter().any(|f| matches!(f, VerifyFailure::ConstraintNotSatisfied { .. })));
        }
    }
    let honest = Replay { circuit: replay(1, 2, 3, 5).circuit, forged: Some(known(30)) };
    assert_eq!(proves(&honest, Fp::from(30)), Ok(()));
}

#[test]
fn the_prover_rejects_any_other_public_input() {
    let six = replay(1, 2, 3, 6);
    for public in [0u64, 1, 8, 30, 263, 265, u64::MAX] {
        let failures = proves(&six, Fp::from(public)).unwrap_err();
        assert!(failures.iter().all(|f| matches!(f, VerifyFailure::Permutation { .. })));
    }
}

#[test]
fn the_prover_and_the_library_agree() {
    let seeds = [(1u64, 2u64, 3u64), (0, 1, 1), (7, 0, 5), (u64::MAX, u64::MAX, u64::MAX)];
    for (a, b, c) in seeds {
        for num in [4usize, 5, 7, 12, 30] {
            let run = replay(a, b, c, num);
            let expected = last_term(a, b, c, num);
            let (meta, layouter) = model(&run.circuit, None).unwrap();
            let bytes: [u8; 32] = expected.into();
            let limbs = [0, 1, 2, 3].map(|k| u64::from_le_bytes(bytes[8 * k..8 * k + 8].try_into().unwrap()));
            let public = FieldElement::from_limbs(limbs).unwrap();
            assert_eq!(element(&public), expected);
            assert_eq!(verify(&meta, &layouter, &vec![vec![public]]), Ok(()));
            assert_eq!(proves(&run, expected), Ok(()));
            assert!(verify(&meta, &layouter, &vec![vec![public.add(&FieldElement::one())]]).is_err());
            assert!(proves(&run, expected + Fp::from(1)).is_err());
        }
    }
}

#[test]
fn the_prover_runs_out_of_rows_when_the_table_is_small() {
    let long = replay(1, 2, 3, 20);
    assert!(MockProver::run(4, &long, vec![vec![last_term(1, 2, 3, 20)]]).is_err());
    let prover = MockProver::run(5, &long, vec![vec![last_term(1, 2, 3, 20)]]).unwrap();
    assert_eq!(prover.verify(), Ok(()));
}

#[test]
fn the_prover_derives_the_same_key_with_and_without_witnesses() {
    let params: Params<EqAffine> = Params::new(4);
    let witnessed = replay(1, 2, 3, 8);
    let other = replay(9, 4, 0, 8);
    let shape_only = witnessed.without_witnesses();
    let key = format!("{:?}", keygen_vk(&params, &witnessed).unwrap().pinned());
    assert_eq!(key, format!("{:?}", keygen_vk(&params, &other).unwrap().pinned()));
    assert_eq!(key, format!("{:?}", keygen_vk(&params, &shape_only).unwrap().pinned()));
    let shorter = replay(1, 2, 3, 7);
    assert_ne!(key, format!("{:?}", keygen_vk(&params, &shorter).unwrap().pinned()));
}

/// The same circuit written straight against the proving system.
struct ByHand {
    seeds: [halo2_proofs::circuit::Value<Fp>; 3],
    num: usize,
}

#[derive(Clone)]
struct ByHandWires {
    advice: [halo2_proofs::plonk::Column<Advice>; 4],
    instance: halo2_proofs::plonk::Column<Instance>,
    selector: Selector,
}

impl Circuit<Fp> for ByHand {
    type Config = ByHandWires;
    type FloorPlanner = SimpleFloorPlanner;

    fn without_witnesses(&self) -> Self {
        ByHand { seeds: [halo2_proofs::circuit::Value::unknown(); 3], num: self.num }
    }

    fn configure(meta: &mut halo2_proofs::plonk::ConstraintSystem<Fp>) -> ByHandWires {
        let advice = [meta.advice_column(), meta.advice_column(), meta.advice_column(), meta.advice_column()];
        let instance = meta.instance_column();
        let selector = meta.selector();
        for column in advice {
            meta.enable_equality(column);
        }
        meta.enable_equality(instance);
        meta.create_gate("mul add gate", |cells| {
            let s = cells.query_selector(selector);
            let a = cells.query_advice(advice[0], Rotation::cur());
            let b = cells.query_advice(advice[1], Rotation::cur());
            let c = cells.query_advice(advice[2], Rotation::cur());
            let d = cells.query_advice(advice[3], Rotation::cur());
            vec![s * (((a + c) * b) - d)]
        });
        ByHandWires { advice, instance, selector }
    }

    fn synthesize(
        &self,
        wires: ByHandWires,
        mut layouter: impl halo2_proofs::circuit::Layouter<Fp>,
    ) -> Result<(), halo2_proofs::plonk::Error> {
        let [a, b, c] = self.seeds;
        let (mut x, mut y, mut z) = layouter.assign_region(
            || "first row",
            |mut region| {
                wires.selector.enable(&mut region, 0)?;
                region.assign_advice(|| "a", wires.advice[0], 0, || a)?;
                let x = region.assign_advice(|| "b", wires.advice[1], 0, || b)?;
                let y = region.assign_advice(|| "c", wires.advice[2], 0, || c)?;
                let z = region.assign_advice(|| "d", wires.advice[3], 0, || (a + c) * b)?;
                Ok((x, y, z))
            },
        )?;
        for _ in 4..self.num {
            let next = layouter.assign_region(
                || "row",
                |mut region| {
                    wires.selector.enable(&mut region, 0)?;
                    x.copy_advice(|| "a", &mut region, wires.advice[0], 0)?;
                    y.copy_advice(|| "b", &mut region, wires.advice[1], 0)?;
                    z.copy_advice(|| "c", &mut region, wires.advice[2], 0)?;
                    let d = y.value().copied() * (x.value().copied() + z.value().copied());
                    region.assign_advice(|| "d", wires.advice[3], 0, || d)
                },
            )?;
            x = y;
            y = z;
            z = next;
        }
        layouter.constrain_instance(z.cell(), wires.instance, 0)
    }
}

fn by_hand(a: u64, b: u64, c: u64, num: usize) -> ByHand {
    let seed = |v: u64| halo2_proofs::circuit::Value::known(Fp::from(v));
    ByHand { seeds: [seed(a), seed(b), seed(c)], num }
}

#[test]
fn the_replayed_circuit_has_the_key_of_one_written_by_hand() {
    let params: Params<EqAffine> = Params::new(5);
    for num in [4usize, 5, 6, 10, 20] {
        let replayed = format!("{:?}", keygen_vk(&params, &replay(1, 2, 3, num)).unwrap().pinned());
        let direct = format!("{:?}", keygen_vk(&params, &by_hand(1, 2, 3, num)).unwrap().pinned());
        assert_eq!(replayed, direct);
        let shape_only = by_hand(1, 2, 3, num).without_witnesses();
        assert_eq!(replayed, format!("{:?}", keygen_vk(&params, &shape_only).unwrap().pinned()));
    }
}

#[test]
fn the_replayed_circuit_is_judged_as_one_written_by_hand() {
    for (a, b, c) in [(1u64, 2u64, 3u64), (0, 1, 1), (3, 3, 3)] {
        for num in [4usize, 5, 6, 13] {
            let expected = last_term(a, b, c, num);
            for public in [expected, expected + Fp::from(1), Fp::from(0)] {
                let replayed = proves(&replay(a, b, c, num), public).is_ok();
                let direct = proves(&by_hand(a, b, c, num), public).is_ok();
                assert_eq!(replayed, direct);
                assert_eq!(replayed, public == expected);
            }
        }
    }
}
