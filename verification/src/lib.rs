//! A parser and reducer for the untyped λ-calculus.
//!
//! Source text is tokenised ([`parse::tokenise`]) and parsed
//! ([`parse::parse`]) into a [`LambdaExpr`] term tree; the term is then
//! normalised by the rewrite passes on [`LambdaExpr`]: α-renaming
//! (`alpha_rename`), β-reduction (`beta_reduce`), η-conversion
//! (`eta_convert`) and the fixed-point driver (`reduce`).

pub mod parse;
pub mod print;
pub mod rewrite;
pub mod roundtrip;
pub mod term;
mod text;

pub use term::LambdaExpr;
