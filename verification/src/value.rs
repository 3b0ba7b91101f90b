//! Witness values that may still be unknown.

use crate::field::FieldElement;
use vstd::prelude::*;

verus! {

/// A value that a prover assigns to a cell: known while a proof is made,
/// unknown while only the shape of the circuit is laid out.
#[derive(Clone, Copy, Debug, PartialEq, Eq, Structural)]
pub enum Value {
    /// The element is at hand.
    Known(FieldElement),
    /// A placeholder that stands for an element nobody has supplied.
    Unknown,
}

impl Value {
    /// The sum of two values: known when both are.
    pub open spec fn sum(self, rhs: Value) -> Value {
        match (self, rhs) {
            (Value::Known(x), Value::Known(y)) => Value::Known(x.sum(y)),
            _ => Value::Unknown,
        }
    }

    /// The product of two values: known when both are.
    pub open spec fn product(self, rhs: Value) -> Value {
        match (self, rhs) {
            (Value::Known(x), Value::Known(y)) => Value::Known(x.product(y)),
            _ => Value::Unknown,
        }
    }

    /// A known value.
    pub fn known(element: FieldElement) -> (r: Value)
        ensures
            r == Value::Known(element),
    {
        Value::Known(element)
    }

    /// The placeholder.
    pub fn unknown() -> (r: Value)
        ensures
            r == Value::Unknown,
    {
        Value::Unknown
    }

    /// Adds two values; an unknown operand makes the sum unknown.
    pub fn add(&self, rhs: &Value) -> (r: Value)
        ensures
            r == self.sum(*rhs),
    {
        match (self, rhs) {
            (Value::Known(x), Value::Known(y)) => Value::Known(x.add(y)),
            _ => Value::Unknown,
        }
    }

    /// Multiplies two values; an unknown operand makes the product unknown.
    pub fn mul(&self, rhs: &Value) -> (r: Value)
        ensures
            r == self.product(*rhs),
    {
        match (self, rhs) {
            (Value::Known(x), Value::Known(y)) => Value::Known(x.mul(y)),
            _ => Value::Unknown,
        }
    }
}

} // verus!
