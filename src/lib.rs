//! Expression layout for a source-code formatter: re-flows calls, parenthesised
//! expressions, struct and tuple literals and string literals under a column
//! budget.
pub mod text;
pub mod lists;
pub mod config;
pub mod escape;
pub mod string_lit;
pub mod expr;
pub mod laws;
