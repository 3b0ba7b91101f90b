use fibovar_circuit::field::FieldElement;
use fibovar_circuit::value::Value;

const ORDER: [u64; 4] = [0x992d30ed00000001, 0x224698fc094cf91b, 0, 0x4000000000000000];

fn order_minus_one() -> FieldElement {
    FieldElement::from_limbs([ORDER[0] - 1, ORDER[1], ORDER[2], ORDER[3]]).unwrap()
}

#[test]
fn small_elements_keep_their_limbs() {
    assert_eq!(FieldElement::zero().to_limbs(), [0, 0, 0, 0]);
    assert_eq!(FieldElement::one().to_limbs(), [1, 0, 0, 0]);
    assert_eq!(FieldElement::from_u64(264).to_limbs(), [264, 0, 0, 0]);
    assert_eq!(FieldElement::from_u64(1), FieldElement::one());
}

#[test]
fn limbs_below_the_order_are_taken() {
    let limbs = [5, 6, 7, 8];
    assert_eq!(FieldElement::from_limbs(limbs).unwrap().to_limbs(), limbs);
    assert_eq!(order_minus_one().to_limbs(), [ORDER[0] - 1, ORDER[1], 0, ORDER[3]]);
}

#[test]
fn limbs_from_the_order_on_are_refused() {
    assert_eq!(FieldElement::from_limbs(ORDER), None);
    assert_eq!(FieldElement::from_limbs([ORDER[0] + 1, ORDER[1], 0, ORDER[3]]), None);
    assert_eq!(FieldElement::from_limbs([0, 0, 1, ORDER[3]]), None);
    assert_eq!(FieldElement::from_limbs([0, 0, 0, ORDER[3] + 1]), None);
    assert_eq!(FieldElement::from_limbs([u64::MAX; 4]), None);
}

#[test]
fn addition_is_not_the_identity() {
    let sum = FieldElement::from_u64(1).add(&FieldElement::from_u64(3));
    assert_eq!(sum, FieldElement::from_u64(4));
}

#[test]
fn addition_carries_between_limbs() {
    let sum = FieldElement::from_u64(u64::MAX).add(&FieldElement::from_u64(1));
    assert_eq!(sum.to_limbs(), [0, 1, 0, 0]);
}

#[test]
fn addition_wraps_at_the_order() {
    assert_eq!(order_minus_one().add(&FieldElement::one()), FieldElement::zero());
    assert_eq!(order_minus_one().add(&FieldElement::from_u64(5)), FieldElement::from_u64(4));
}

#[test]
fn subtraction_is_not_the_identity() {
    let difference = FieldElement::from_u64(30).sub(&FieldElement::from_u64(8));
    assert_eq!(difference, FieldElement::from_u64(22));
}

#[test]
fn subtraction_wraps_below_zero() {
    assert_eq!(FieldElement::zero().sub(&FieldElement::one()), order_minus_one());
    assert_eq!(FieldElement::from_u64(8).sub(&FieldElement::from_u64(8)), FieldElement::zero());
}

#[test]
fn multiplication_is_not_the_identity() {
    let product = FieldElement::from_u64(4).mul(&FieldElement::from_u64(2));
    assert_eq!(product, FieldElement::from_u64(8));
}

#[test]
fn multiplication_goes_beyond_one_limb() {
    let product = FieldElement::from_u64(1 << 63).mul(&FieldElement::from_u64(4));
    assert_eq!(product.to_limbs(), [0, 2, 0, 0]);
}

#[test]
fn multiplication_wraps_at_the_order() {
    assert_eq!(order_minus_one().mul(&order_minus_one()), FieldElement::one());
    assert_eq!(order_minus_one().mul(&FieldElement::from_u64(2)), {
        FieldElement::zero().sub(&FieldElement::from_u64(2))
    });
}

#[test]
fn known_values_add_and_multiply() {
    let one = Value::known(FieldElement::from_u64(1));
    let two = Value::known(FieldElement::from_u64(2));
    let three = Value::known(FieldElement::from_u64(3));
    assert_eq!(one.add(&three), Value::Known(FieldElement::from_u64(4)));
    assert_eq!(one.add(&three).mul(&two), Value::Known(FieldElement::from_u64(8)));
}

#[test]
fn unknown_values_stay_unknown() {
    let two = Value::known(FieldElement::from_u64(2));
    assert_eq!(Value::unknown().add(&two), Value::Unknown);
    assert_eq!(two.add(&Value::unknown()), Value::Unknown);
    assert_eq!(Value::unknown().mul(&two), Value::Unknown);
    assert_eq!(two.mul(&Value::unknown()), Value::Unknown);
    assert_eq!(Value::unknown().add(&Value::unknown()), Value::Unknown);
}
