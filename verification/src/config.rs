//! Columns, selectors, gates, and the constraint system that declares them.

use vstd::prelude::*;

verus! {

/// A column of the circuit's table.
#[derive(Clone, Copy, Debug, PartialEq, Eq, Hash, Structural)]
pub enum Column {
    /// A column of private values, by its index among the advice columns.
    Advice(usize),
    /// A column of public values, by its index among the instance columns.
    Instance(usize),
}

/// A per-row switch that turns a gate on, by its index among the selectors.
#[derive(Clone, Copy, Debug, PartialEq, Eq, Hash, Structural)]
pub struct Selector(pub usize);

/// A polynomial over the cells of one row.
#[derive(Debug)]
pub enum Expression {
    /// One where the selector is enabled on the row, zero elsewhere.
    Selector(Selector),
    /// The value that a column holds on the row.
    Cell(Column),
    /// The negation of a polynomial.
    Negated(Box<Expression>),
    /// The sum of two polynomials.
    Sum(Box<Expression>, Box<Expression>),
    /// The product of two polynomials.
    Product(Box<Expression>, Box<Expression>),
}

impl Expression {
    /// The polynomial `self - rhs`, written as a sum with a negation.
    pub open spec fn minus(self, rhs: Expression) -> Expression {
        Expression::Sum(Box::new(self), Box::new(Expression::Negated(Box::new(rhs))))
    }

    /// The polynomial `self + rhs`.
    pub open spec fn plus(self, rhs: Expression) -> Expression {
        Expression::Sum(Box::new(self), Box::new(rhs))
    }

    /// The polynomial `self * rhs`.
    pub open spec fn times(self, rhs: Expression) -> Expression {
        Expression::Product(Box::new(self), Box::new(rhs))
    }

    /// Builds `self + rhs`.
    pub fn add(self, rhs: Expression) -> (r: Expression)
        ensures
            r == self.plus(rhs),
    {
        Expression::Sum(Box::new(self), Box::new(rhs))
    }

    /// Builds `self - rhs`.
    pub fn sub(self, rhs: Expression) -> (r: Expression)
        ensures
            r == self.minus(rhs),
    {
        Expression::Sum(Box::new(self), Box::new(Expression::Negated(Box::new(rhs))))
    }

    /// Builds `self * rhs`.
    pub fn mul(self, rhs: Expression) -> (r: Expression)
        ensures
            r == self.times(rhs),
    {
        Expression::Product(Box::new(self), Box::new(rhs))
    }
}

/// A polynomial that must vanish on every row where its selector is
/// enabled; rows where the selector is off are not constrained by it.
#[derive(Debug)]
pub struct Gate {
    /// The selector that turns this gate on.
    pub selector: Selector,
    /// The polynomial that must evaluate to zero.
    pub polynomial: Expression,
}

/// What a constraint system declares.
pub struct Declarations {
    /// The number of advice columns.
    pub advice: nat,
    /// The number of instance columns.
    pub instance: nat,
    /// The number of selectors.
    pub selectors: nat,
    /// The columns on which cells may be bound equal, in the order in which
    /// equality was enabled.
    pub equality: Seq<Column>,
    /// The gates, in the order in which they were created.
    pub gates: Seq<Gate>,
}

/// The declarations of a circuit: how many columns of each kind there are,
/// which of them allow equality bindings, and which gates constrain the rows.
#[derive(Debug)]
pub struct ConstraintSystem {
    num_advice: usize,
    num_instance: usize,
    num_selectors: usize,
    equality: Vec<Column>,
    gates: Vec<Gate>,
}

impl View for ConstraintSystem {
    type V = Declarations;

    closed spec fn view(&self) -> Declarations {
        Declarations {
            advice: self.num_advice as nat,
            instance: self.num_instance as nat,
            selectors: self.num_selectors as nat,
            equality: self.equality@,
            gates: self.gates@,
        }
    }
}

impl ConstraintSystem {
    /// A constraint system that declares nothing yet.
    pub fn new() -> (r: ConstraintSystem)
        ensures
            r@ == (Declarations {
                advice: 0,
                instance: 0,
                selectors: 0,
                equality: Seq::empty(),
                gates: Seq::empty(),
            }),
    {
        ConstraintSystem {
            num_advice: 0,
            num_instance: 0,
            num_selectors: 0,
            equality: Vec::new(),
            gates: Vec::new(),
        }
    }

    /// Allocates the next advice column.
    pub fn advice_column(&mut self) -> (column: Column)
        requires
            old(self)@.advice < usize::MAX,
        ensures
            column == Column::Advice(old(self)@.advice as usize),
            final(self)@ == (Declarations { advice: old(self)@.advice + 1, ..old(self)@ }),
    {
        let column = Column::Advice(self.num_advice);
        self.num_advice = self.num_advice + 1;
        column
    }

    /// Allocates the next instance column.
    pub fn instance_column(&mut self) -> (column: Column)
        requires
            old(self)@.instance < usize::MAX,
        ensures
            column == Column::Instance(old(self)@.instance as usize),
            final(self)@ == (Declarations { instance: old(self)@.instance + 1, ..old(self)@ }),
    {
        let column = Column::Instance(self.num_instance);
        self.num_instance = self.num_instance + 1;
        column
    }

    /// Allocates the next selector.
    pub fn selector(&mut self) -> (selector: Selector)
        requires
            old(self)@.selectors < usize::MAX,
        ensures
            selector == Selector(old(self)@.selectors as usize),
            final(self)@ == (Declarations { selectors: old(self)@.selectors + 1, ..old(self)@ }),
    {
        let selector = Selector(self.num_selectors);
        self.num_selectors = self.num_selectors + 1;
        selector
    }

    /// Allows cells of `column` to take part in equality bindings.
    pub fn enable_equality(&mut self, column: Column)
        ensures
            final(self)@ == (Declarations {
                equality: old(self)@.equality.push(column),
                ..old(self)@
            }),
    {
        self.equality.push(column);
    }

    /// Declares a gate: `polynomial` must vanish on every row where
    /// `selector` is enabled.
    pub fn create_gate(&mut self, selector: Selector, polynomial: Expression)
        ensures
            final(self)@ == (Declarations {
                gates: old(self)@.gates.push(Gate { selector, polynomial }),
                ..old(self)@
            }),
    {
        self.gates.push(Gate { selector, polynomial });
    }

    /// Whether equality bindings are allowed on `column`.
    pub fn equality_enabled(&self, column: Column) -> (enabled: bool)
        ensures
            enabled == self@.equality.contains(column),
    {
        let mut k: usize = 0;
        while k < self.equality.len()
            invariant
                k <= self.equality@.len(),
                forall|j: int| 0 <= j < k ==> self.equality@[j] != column,
            decreases self.equality@.len() - k,
        {
            if self.equality[k] == column {
                return true;
            }
            k = k + 1;
        }
        false
    }

    /// The number of advice columns.
    pub fn num_advice_columns(&self) -> (n: usize)
        ensures
            n == self@.advice,
    {
        self.num_advice
    }

    /// The number of instance columns.
    pub fn num_instance_columns(&self) -> (n: usize)
        ensures
            n == self@.instance,
    {
        self.num_instance
    }

    /// The number of selectors.
    pub fn num_selectors(&self) -> (n: usize)
        ensures
            n == self@.selectors,
    {
        self.num_selectors
    }

    /// The columns on which equality was enabled, in order.
    pub fn equality_columns(&self) -> (columns: &Vec<Column>)
        ensures
            columns@ == self@.equality,
    {
        &self.equality
    }

    /// The gates, in the order of their creation.
    pub fn gates(&self) -> (gates: &Vec<Gate>)
        ensures
            gates@ == self@.gates,
    {
        &self.gates
    }
}

} // verus!
