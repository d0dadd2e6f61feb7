//! Arithmetic expression trees with a printer and an evaluator.
//!
//! A tree is built once, node by node, in an arena ([`builder`]), and is never
//! changed afterwards. Two consumers walk it: [`printer::Repr`] writes it out
//! as a fully parenthesized prefix string, and [`interpreter::Interpreter`]
//! reduces it to a number. Both are [`visitor::Visitor`]s, reached through
//! [`ast::Expr::accept`], or through [`ast::Expr::accept_iterative`] where a
//! tree may be deeper than the call stack allows.
//!
//! Numbers are IEEE-754 double precision values, held by their bit pattern in
//! a `u64`. Writing a number out, and the four binary operations on numbers,
//! are handed to the two consumers as functions by the caller; every contract
//! says what the result is in terms of what those functions return. Reversing
//! a sign is done here, on the sign bit.

pub mod ast;
pub mod builder;
pub mod visitor;
pub mod iterative;
pub mod printer;
pub mod canonical;
pub mod interpreter;
pub mod demo;
