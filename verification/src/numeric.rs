//! The value semantics the machine runs with.
//!
//! The machine itself only moves values around: it decides which values an
//! instruction works on, where results go, and how control flows. What a value
//! is, and how two of them add up, compare or print, is the host's business
//! (for agent programs the host computes in `f64`). The trait's contract
//! says only that each answer is a function of the question, named by a
//! spec function that each host defines. A host written outside Verus
//! defines those functions as the operations themselves.

use vstd::prelude::*;

verus! {

/// A binary operation on values, answered by the host with a value.
#[derive(Debug, Clone, Copy, PartialEq, Eq)]
pub enum BinaryOp {
    Add,
    Sub,
    Mul,
    /// `1` if a < b, else `0`.
    Lt,
    /// `1` if a > b, else `0`.
    Gt,
    /// `1` if a and b are (nearly) equal, else `0`.
    Eq,
    /// `1` if both are non-zero, else `0`.
    And,
    /// `1` if either is non-zero, else `0`.
    Or,
}

/// A unary operation on values, answered by the host with a value.
#[derive(Debug, Clone, Copy, PartialEq, Eq)]
pub enum UnaryOp {
    /// The negated value.
    Neg,
    /// `1` if the value is zero, else `0`.
    Not,
}

/// The host's arithmetic on values of type `V`. Each operation answers with
/// a value that depends on its arguments alone, named by the spec function
/// beside it; what that value is, is the host's business.
pub trait Numeric<V> {
    /// The value written as `literal` in program text.
    spec fn parse_value(&self, literal: String) -> V;

    /// `a op b`.
    spec fn binary_value(&self, op: BinaryOp, a: V, b: V) -> V;

    /// `a / b`, or `None` when `b` is zero.
    spec fn quotient_value(&self, a: V, b: V) -> Option<V>;

    /// `op v`.
    spec fn unary_value(&self, op: UnaryOp, v: V) -> V;

    /// Whether `v` counts as zero for the conditional jumps.
    spec fn is_zero_value(&self, v: V) -> bool;

    /// The text that `PRINT` outputs for `v`, and that a listing shows for a constant.
    spec fn format_value(&self, v: V) -> String;

    /// The value written as `literal` in program text (a literal that
    /// [`crate::text::is_number_literal`] accepts).
    fn parse(&self, literal: &String) -> (r: V)
        ensures
            r == self.parse_value(*literal),
    ;

    /// `a op b`.
    fn binary(&self, op: BinaryOp, a: V, b: V) -> (r: V)
        ensures
            r == self.binary_value(op, a, b),
    ;

    /// `a / b`, or `None` when `b` is zero.
    fn divide(&self, a: V, b: V) -> (r: Option<V>)
        ensures
            r == self.quotient_value(a, b),
    ;

    /// `op v`.
    fn unary(&self, op: UnaryOp, v: V) -> (r: V)
        ensures
            r == self.unary_value(op, v),
    ;

    /// Whether `v` counts as zero for the conditional jumps.
    fn is_zero(&self, v: V) -> (r: bool)
        ensures
            r == self.is_zero_value(v),
    ;

    /// The text that `PRINT` outputs for `v`, and that a listing shows for a constant.
    fn format(&self, v: V) -> (r: String)
        ensures
            r == self.format_value(v),
    ;
}

} // verus!
