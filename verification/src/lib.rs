//! A small Lisp evaluator with lexical scoping: the value model, the chain of
//! scopes, the evaluator with its special forms and primitives, and the
//! reader and printer that sit on either side of it.
//!
//! Every executable function carries a contract over the mathematical model
//! of the values and scopes it touches, and Verus proves the body against it.

pub mod builtins;
pub mod env;
pub mod eval;
pub mod laws;
pub mod printer;
pub mod reader;
pub mod repl;
pub mod roundtrip;
pub mod semantics;
pub mod text;
pub mod types;
