//! Polynomial expressions over the cells of a row and of the rows below it.
use crate::assignment::{Assignment, Matrix};
use crate::column::{Cell, Column};
use crate::field::{field_add, field_mul, field_sub, FieldElement};
use vstd::prelude::*;

verus! {

/// A reference to the cell of `column` that lies `rotation` rows below the
/// row at which an expression is evaluated.
#[derive(Clone, Copy, Debug, PartialEq, Eq, Structural)]
pub struct Query {
    pub column: Column,
    pub rotation: usize,
}

/// An expression tree, stored as data and evaluated once per row.
#[derive(Debug, PartialEq, Eq)]
pub enum Expression {
    /// A constant of the field.
    Constant(FieldElement),
    /// The value of a cell, relative to the row under evaluation.
    Query(Query),
    /// The sum of two expressions.
    Sum(Box<Expression>, Box<Expression>),
    /// The first expression less the second.
    Difference(Box<Expression>, Box<Expression>),
    /// The product of two expressions.
    Product(Box<Expression>, Box<Expression>),
}

/// The value of a query at a row: `Err` with the query itself when the cell
/// it points at carries no value.
pub open spec fn read(query: Query, matrix: Matrix, row: usize) -> Result<nat, Query> {
    if row + query.rotation <= usize::MAX {
        match matrix.value(Cell { column: query.column, row: (row + query.rotation) as usize }) {
            Some(v) => Ok(v),
            None => Err(query),
        }
    } else {
        Err(query)
    }
}

/// The value of an expression at a row, operands taken left to right: `Err`
/// with the first query whose cell carries no value.
pub open spec fn eval(e: Expression, matrix: Matrix, row: usize) -> Result<nat, Query>
    decreases e,
{
    match e {
        Expression::Constant(c) => Ok(c@),
        Expression::Query(q) => read(q, matrix, row),
        Expression::Sum(a, b) => match eval(*a, matrix, row) {
            Err(q) => Err(q),
            Ok(x) => match eval(*b, matrix, row) {
                Err(q) => Err(q),
                Ok(y) => Ok(field_add(x, y)),
            },
        },
        Expression::Difference(a, b) => match eval(*a, matrix, row) {
            Err(q) => Err(q),
            Ok(x) => match eval(*b, matrix, row) {
                Err(q) => Err(q),
                Ok(y) => Ok(field_sub(x, y)),
            },
        },
        Expression::Product(a, b) => match eval(*a, matrix, row) {
            Err(q) => Err(q),
            Ok(x) => match eval(*b, matrix, row) {
                Err(q) => Err(q),
                Ok(y) => Ok(field_mul(x, y)),
            },
        },
    }
}

/// The view of an evaluation result.
pub open spec fn outcome_view(r: Result<FieldElement, Query>) -> Result<nat, Query> {
    match r {
        Ok(v) => Ok(v@),
        Err(q) => Err(q),
    }
}

impl Expression {
    /// The cell of `column` in the row under evaluation.
    pub fn cur(column: Column) -> (e: Expression)
        ensures
            e == Expression::Query(Query { column, rotation: 0 }),
    {
        Expression::Query(Query { column, rotation: 0 })
    }

    /// The cell of `column` one row below the row under evaluation.
    pub fn next(column: Column) -> (e: Expression)
        ensures
            e == Expression::Query(Query { column, rotation: 1 }),
    {
        Expression::Query(Query { column, rotation: 1 })
    }

    /// The sum of this expression and `rhs`.
    pub fn plus(self, rhs: Expression) -> (e: Expression)
        ensures
            e == Expression::Sum(Box::new(self), Box::new(rhs)),
    {
        Expression::Sum(Box::new(self), Box::new(rhs))
    }

    /// This expression less `rhs`.
    pub fn minus(self, rhs: Expression) -> (e: Expression)
        ensures
            e == Expression::Difference(Box::new(self), Box::new(rhs)),
    {
        Expression::Difference(Box::new(self), Box::new(rhs))
    }

    /// The product of this expression and `rhs`.
    pub fn times(self, rhs: Expression) -> (e: Expression)
        ensures
            e == Expression::Product(Box::new(self), Box::new(rhs)),
    {
        Expression::Product(Box::new(self), Box::new(rhs))
    }

    /// Evaluates the expression at a row of the matrix.
    pub fn evaluate(&self, matrix: &Assignment, row: usize) -> (r: Result<FieldElement, Query>)
        ensures
            outcome_view(r) == eval(*self, matrix@, row),
        decreases *self,
    {
        match self {
            Expression::Constant(c) => Ok(*c),
            Expression::Query(q) => {
                match row.checked_add(q.rotation) {
                    Some(at) => match matrix.value(Cell { column: q.column, row: at }) {
                        Some(v) => Ok(v),
                        None => Err(*q),
                    },
                    None => Err(*q),
                }
            },
            Expression::Sum(a, b) => {
                let x = a.evaluate(matrix, row)?;
                let y = b.evaluate(matrix, row)?;
                Ok(x.add(&y))
            },
            Expression::Difference(a, b) => {
                let x = a.evaluate(matrix, row)?;
                let y = b.evaluate(matrix, row)?;
                Ok(x.sub(&y))
            },
            Expression::Product(a, b) => {
                let x = a.evaluate(matrix, row)?;
                let y = b.evaluate(matrix, row)?;
                Ok(x.mul(&y))
            },
        }
    }
}

} // verus!
