//! Scan predicates, and the one shape that the primary-key index can
//! answer: the primary-key column compared for equality with a literal.

use vstd::prelude::*;

verus! {

/// A literal of a predicate.
#[derive(Clone, Debug, PartialEq, Eq)]
pub enum Literal {
    /// A 32-bit integer, or the null of that type.
    Int32(Option<i32>),
    /// A literal of any other type.
    Other,
}

/// One side of a binary predicate.
#[derive(Clone, Debug, PartialEq, Eq)]
pub enum Operand {
    /// A column, by its name.
    Column(String),
    /// A literal.
    Literal(Literal),
    /// Any other expression.
    Other,
}

/// The operator of a binary predicate.
#[derive(Clone, Copy, Debug, PartialEq, Eq)]
pub enum Operator {
    /// Equality.
    Eq,
    /// Any other operator.
    Other,
}

/// A predicate handed to a scan.
#[derive(Clone, Debug, PartialEq, Eq)]
pub enum FilterExpr {
    /// Two operands joined by an operator.
    Binary { left: Operand, op: Operator, right: Operand },
    /// Any other expression.
    Other,
}

/// The column name and the literal of a predicate of the shape
/// `column == literal` or `literal == column`; `None` for any other shape.
pub open spec fn column_equals_literal(expr: FilterExpr) -> Option<(Seq<char>, Literal)> {
    match expr {
        FilterExpr::Binary { left: Operand::Column(name), op: Operator::Eq, right: Operand::Literal(lit) } => Some(
            (name@, lit),
        ),
        FilterExpr::Binary { left: Operand::Literal(lit), op: Operator::Eq, right: Operand::Column(name) } => Some(
            (name@, lit),
        ),
        _ => None,
    }
}

/// Whether the predicate compares the primary-key column for equality with
/// a literal.
pub open spec fn is_key_equality(primary_key: Seq<char>, expr: FilterExpr) -> bool {
    match column_equals_literal(expr) {
        Some((name, _)) => name == primary_key,
        None => false,
    }
}

/// The key that the predicate asks for: the integer of the literal, where
/// the predicate compares the primary-key column for equality with a 32-bit
/// integer that is not null.
pub open spec fn key_of(primary_key: Seq<char>, expr: FilterExpr) -> Option<i32> {
    match column_equals_literal(expr) {
        Some((name, Literal::Int32(Some(key)))) => if name == primary_key {
            Some(key)
        } else {
            None
        },
        _ => None,
    }
}

/// The key that the first of the predicates to ask for one asks for.
pub open spec fn first_key(primary_key: Seq<char>, filters: Seq<FilterExpr>) -> Option<i32>
    decreases filters.len(),
{
    if filters.len() == 0 {
        None
    } else if key_of(primary_key, filters[0]) is Some {
        key_of(primary_key, filters[0])
    } else {
        first_key(primary_key, filters.skip(1))
    }
}

/// Whether the index can answer the predicate: it has the shape
/// `column == literal` or `literal == column`, and the column is the
/// primary key.
pub fn supported_filter(primary_key: &String, expr: &FilterExpr) -> (supported: bool)
    ensures
        supported == is_key_equality(primary_key@, *expr),
{
    match expr {
        FilterExpr::Binary { left, op, right } => match op {
            Operator::Eq => match (left, right) {
                (Operand::Column(name), Operand::Literal(_)) => *name == *primary_key,
                (Operand::Literal(_), Operand::Column(name)) => *name == *primary_key,
                _ => false,
            },
            Operator::Other => false,
        },
        FilterExpr::Other => false,
    }
}

/// The integer of a literal, where it is a 32-bit integer that is not null.
fn int32_of(literal: &Literal) -> (key: Option<i32>)
    ensures
        key == match *literal {
            Literal::Int32(v) => v,
            Literal::Other => None::<i32>,
        },
{
    match literal {
        Literal::Int32(v) => *v,
        Literal::Other => None,
    }
}

/// The key that a predicate asks for, where the index can answer the
/// predicate and its literal is a 32-bit integer that is not null.
pub fn primary_key_filter(primary_key: &String, expr: &FilterExpr) -> (key: Option<i32>)
    ensures
        key == key_of(primary_key@, *expr),
{
    match expr {
        FilterExpr::Binary { left, op, right } => match op {
            Operator::Eq => match (left, right) {
                (Operand::Column(name), Operand::Literal(literal)) => {
                    if *name == *primary_key {
                        int32_of(literal)
                    } else {
                        None
                    }
                },
                (Operand::Literal(literal), Operand::Column(name)) => {
                    if *name == *primary_key {
                        int32_of(literal)
                    } else {
                        None
                    }
                },
                _ => None,
            },
            Operator::Other => None,
        },
        FilterExpr::Other => None,
    }
}

/// The key asked for by the first of the predicates that asks for one.
pub fn first_primary_key(primary_key: &String, filters: &Vec<FilterExpr>) -> (key: Option<i32>)
    ensures
        key == first_key(primary_key@, filters@),
{
    let mut i: usize = 0;
    assert(filters@.skip(0) =~= filters@);
    while i < filters.len()
        invariant
            0 <= i <= filters@.len(),
            first_key(primary_key@, filters@) == first_key(primary_key@, filters@.skip(i as int)),
        decreases filters@.len() - i,
    {
        let key = primary_key_filter(primary_key, &filters[i]);
        proof {
            assert(filters@.skip(i as int)[0] == filters@[i as int]);
            assert(filters@.skip(i as int).skip(1) =~= filters@.skip(i + 1));
        }
        if key.is_some() {
            return key;
        }
        i = i + 1;
    }
    None
}

} // verus!
