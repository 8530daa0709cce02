//! The formatting options and the ways a rewrite can fail.
use vstd::prelude::*;
use crate::lists::SeparatorTactic;

verus! {

/// Read-only options of one formatting run.
#[derive(Clone, Copy, Debug)]
pub struct Config {
    /// The widest a line may be.
    pub max_width: usize,
    /// Whether a struct literal without a base gets a trailing comma.
    pub struct_lit_trailing_comma: SeparatorTactic,
    /// The shortest segment that a string literal is cut into before the
    /// wrapper gives up looking for whitespace.
    pub min_string: usize,
}

#[derive(Clone, Copy, Debug, PartialEq, Eq, Structural)]
pub enum RewriteError {
    /// A width or an offset computed for a sub-expression would fall below
    /// zero or past `usize::MAX`, or a string literal has no room left for a
    /// single character.
    BudgetOutOfRange,
    /// A span that does not lie within the source text.
    SpanOutOfRange,
}

} // verus!
