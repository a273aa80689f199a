//! The parts of a select query that are plain values: the sort order and the
//! comparison operators of filters.
use vstd::prelude::*;

verus! {

/// Descend or ascend.
#[derive(Copy, Clone, Debug, PartialEq, Eq, Structural)]
pub enum Order {
    /// Ascending order.
    Ascend,
    /// Descending order.
    Descend,
}

impl Order {
    /// Converts the order to a string.
    pub fn to_str(self) -> (r: &'static str)
        ensures
            r@ == match self {
                Order::Ascend => "ASC"@,
                Order::Descend => "DESC"@,
            },
    {
        match self {
            Order::Ascend => "ASC",
            Order::Descend => "DESC",
        }
    }
}

/// An order for a request.
#[derive(Copy, Clone, Debug)]
pub struct OrderBy {
    /// The name of the column.
    pub column: &'static str,
    /// The type of order.
    pub order: Order,
}

/// The different comparison operators for filters.
#[derive(Copy, Clone, Debug, PartialEq, Eq, Structural)]
pub enum Operator {
    /// Are equals.
    Eq,
    /// Is greater or equal.
    Geq,
    /// Is lesser or equal.
    Leq,
    /// Is greater than.
    Gt,
    /// Is lesser than.
    Lt,
    /// Is different.
    Neq,
    /// String like another string.
    Like,
    /// String similar to another string.
    SimilarTo,
}

/// The PostgreSQL spelling of a comparison operator.
pub open spec fn operator_sql(op: Operator) -> Seq<char> {
    match op {
        Operator::Eq => "="@,
        Operator::Geq => ">="@,
        Operator::Leq => "<="@,
        Operator::Gt => ">"@,
        Operator::Lt => "<"@,
        Operator::Neq => "!="@,
        Operator::Like => "LIKE"@,
        Operator::SimilarTo => "SIMILAR TO"@,
    }
}

impl Operator {
    /// Converts the operator in the postgres format.
    pub fn to_str(self) -> (r: &'static str)
        ensures
            r@ == operator_sql(self),
    {
        match self {
            Operator::Eq => "=",
            Operator::Geq => ">=",
            Operator::Leq => "<=",
            Operator::Gt => ">",
            Operator::Lt => "<",
            Operator::Neq => "!=",
            Operator::Like => "LIKE",
            Operator::SimilarTo => "SIMILAR TO",
        }
    }
}

} // verus!
