use fibovar_circuit::config::{Column, ConstraintSystem, Selector};
use fibovar_circuit::field::FieldElement;
use fibovar_circuit::layout::{AssignedCell, Cell, Error, Exposure, Layouter, RegionOp};
use fibovar_circuit::value::Value;

fn known(v: u64) -> Value {
    Value::known(FieldElement::from_u64(v))
}

fn system_with_equality_on_first_advice() -> ConstraintSystem {
    let mut meta = ConstraintSystem::new();
    let first = meta.advice_column();
    meta.advice_column();
    let instance = meta.instance_column();
    meta.selector();
    meta.enable_equality(first);
    meta.enable_equality(instance);
    meta
}

#[test]
fn a_new_layout_is_empty() {
    let layouter = Layouter::new(&system_with_equality_on_first_advice(), 8);
    assert_eq!(layouter.capacity(), 8);
    assert_eq!(layouter.rows_used(), 0);
    assert_eq!(layouter.num_regions(), 0);
    assert!(layouter.exposures().is_empty());
    assert!(layouter.equality_enabled(Column::Advice(0)));
    assert!(!layouter.equality_enabled(Column::Advice(1)));
    assert!(layouter.equality_enabled(Column::Instance(0)));
}

#[test]
fn a_region_hands_back_its_cells() {
    let mut layouter = Layouter::new(&system_with_equality_on_first_advice(), 8);
    let ops = vec![
        RegionOp::EnableSelector { selector: Selector(0), offset: 0 },
        RegionOp::AssignAdvice { column: Column::Advice(0), offset: 0, value: known(5) },
        RegionOp::AssignAdvice { column: Column::Advice(1), offset: 2, value: Value::Unknown },
    ];
    let cells = layouter.assign_region(ops.clone()).unwrap();
    assert_eq!(
        cells,
        vec![
            None,
            Some(AssignedCell {
                cell: Cell { region: 0, offset: 0, column: Column::Advice(0) },
                value: known(5),
            }),
            Some(AssignedCell {
                cell: Cell { region: 0, offset: 2, column: Column::Advice(1) },
                value: Value::Unknown,
            }),
        ]
    );
    assert_eq!(layouter.num_regions(), 1);
    assert_eq!(layouter.region(0), &ops);
    assert_eq!(layouter.rows_used(), 3);
}

#[test]
fn regions_are_stacked() {
    let mut layouter = Layouter::new(&system_with_equality_on_first_advice(), 8);
    let one_row = vec![RegionOp::AssignAdvice { column: Column::Advice(0), offset: 0, value: known(1) }];
    let two_rows = vec![RegionOp::AssignAdvice { column: Column::Advice(0), offset: 1, value: known(2) }];
    layouter.assign_region(one_row).unwrap();
    let cells = layouter.assign_region(two_rows).unwrap();
    assert_eq!(cells[0].unwrap().cell, Cell { region: 1, offset: 1, column: Column::Advice(0) });
    assert_eq!(layouter.rows_used(), 3);
    layouter.assign_region(vec![]).unwrap();
    assert_eq!(layouter.num_regions(), 3);
    assert_eq!(layouter.rows_used(), 3);
}

#[test]
fn a_copy_takes_the_value_of_its_source() {
    let mut layouter = Layouter::new(&system_with_equality_on_first_advice(), 8);
    let first = layouter
        .assign_region(vec![RegionOp::AssignAdvice {
            column: Column::Advice(0),
            offset: 0,
            value: known(7),
        }])
        .unwrap();
    let source = first[0].unwrap();
    let second = layouter
        .assign_region(vec![RegionOp::CopyAdvice { from: source, column: Column::Advice(0), offset: 0 }])
        .unwrap();
    assert_eq!(
        second[0],
        Some(AssignedCell {
            cell: Cell { region: 1, offset: 0, column: Column::Advice(0) },
            value: known(7),
        })
    );
}

#[test]
fn a_row_beyond_the_capacity_overflows_the_shape() {
    let mut layouter = Layouter::new(&system_with_equality_on_first_advice(), 2);
    let too_deep = vec![RegionOp::AssignAdvice { column: Column::Advice(0), offset: 2, value: known(1) }];
    assert_eq!(layouter.assign_region(too_deep), Err(Error::ShapeOverflow));
    assert_eq!(layouter.num_regions(), 0);
    assert_eq!(layouter.rows_used(), 0);
    let fits = vec![RegionOp::EnableSelector { selector: Selector(0), offset: 1 }];
    assert!(layouter.assign_region(fits.clone()).is_ok());
    assert_eq!(layouter.assign_region(fits), Err(Error::ShapeOverflow));
    assert_eq!(layouter.num_regions(), 1);
}

#[test]
fn a_layout_without_rows_takes_no_assignment() {
    let mut layouter = Layouter::new(&system_with_equality_on_first_advice(), 0);
    let ops = vec![RegionOp::EnableSelector { selector: Selector(0), offset: 0 }];
    assert_eq!(layouter.assign_region(ops), Err(Error::ShapeOverflow));
    assert!(layouter.assign_region(vec![]).is_ok());
}

#[test]
fn a_copy_needs_equality_on_both_columns() {
    let mut layouter = Layouter::new(&system_with_equality_on_first_advice(), 8);
    let cells = layouter
        .assign_region(vec![
            RegionOp::AssignAdvice { column: Column::Advice(0), offset: 0, value: known(7) },
            RegionOp::AssignAdvice { column: Column::Advice(1), offset: 0, value: known(9) },
        ])
        .unwrap();
    let enabled = cells[0].unwrap();
    let disabled = cells[1].unwrap();
    let to_disabled = vec![RegionOp::CopyAdvice { from: enabled, column: Column::Advice(1), offset: 0 }];
    assert_eq!(layouter.assign_region(to_disabled), Err(Error::MissingEqualityCapability));
    let from_disabled = vec![RegionOp::CopyAdvice { from: disabled, column: Column::Advice(0), offset: 0 }];
    assert_eq!(layouter.assign_region(from_disabled), Err(Error::MissingEqualityCapability));
    assert_eq!(layouter.num_regions(), 1);
    assert_eq!(layouter.rows_used(), 1);
    let both_enabled = vec![RegionOp::CopyAdvice { from: enabled, column: Column::Advice(0), offset: 0 }];
    assert!(layouter.assign_region(both_enabled).is_ok());
}

#[test]
fn the_first_assignment_that_fails_gives_the_error() {
    let mut layouter = Layouter::new(&system_with_equality_on_first_advice(), 1);
    let cells = layouter
        .assign_region(vec![RegionOp::AssignAdvice {
            column: Column::Advice(1),
            offset: 0,
            value: known(9),
        }])
        .unwrap();
    let disabled = cells[0].unwrap();
    let copy = RegionOp::CopyAdvice { from: disabled, column: Column::Advice(1), offset: 0 };
    assert_eq!(layouter.assign_region(vec![copy]), Err(Error::ShapeOverflow));
    let mut roomy = Layouter::new(&system_with_equality_on_first_advice(), 4);
    let deep = RegionOp::AssignAdvice { column: Column::Advice(0), offset: 9, value: known(1) };
    assert_eq!(roomy.assign_region(vec![copy, deep]), Err(Error::MissingEqualityCapability));
    assert_eq!(roomy.assign_region(vec![deep, copy]), Err(Error::ShapeOverflow));
    assert_eq!(roomy.num_regions(), 0);
}

#[test]
fn an_exposure_is_recorded() {
    let mut layouter = Layouter::new(&system_with_equality_on_first_advice(), 8);
    let cell = Cell { region: 0, offset: 0, column: Column::Advice(0) };
    assert_eq!(layouter.constrain_instance(cell, Column::Instance(0), 3), Ok(()));
    assert_eq!(
        layouter.exposures(),
        &vec![Exposure { cell, column: Column::Instance(0), row: 3 }]
    );
}

#[test]
fn an_exposure_needs_equality_and_a_row() {
    let mut layouter = Layouter::new(&system_with_equality_on_first_advice(), 4);
    let enabled = Cell { region: 0, offset: 0, column: Column::Advice(0) };
    let disabled = Cell { region: 0, offset: 0, column: Column::Advice(1) };
    assert_eq!(
        layouter.constrain_instance(disabled, Column::Instance(0), 0),
        Err(Error::MissingEqualityCapability)
    );
    assert_eq!(
        layouter.constrain_instance(enabled, Column::Instance(1), 0),
        Err(Error::MissingEqualityCapability)
    );
    assert_eq!(layouter.constrain_instance(enabled, Column::Instance(0), 4), Err(Error::ShapeOverflow));
    assert_eq!(layouter.constrain_instance(disabled, Column::Instance(0), 4), Err(Error::ShapeOverflow));
    assert!(layouter.exposures().is_empty());
    assert_eq!(layouter.constrain_instance(enabled, Column::Instance(0), 3), Ok(()));
}
