//! An interpreter core for the Create language, a small scripting language
//! whose programs are flat sequences of whitespace-separated tokens with the
//! operator before its operands.
//!
//! The crate holds the value model, the operand stack with its partitions,
//! the scope chain, the tokenizer, the expression builder and an abstract
//! machine that evaluates directives one transition at a time.
//! Floating-point arithmetic and terminal output are left to the caller: a
//! scalar is the bit pattern of a single precision number, the machine hands
//! out a request where an instruction needs arithmetic or prints, and takes
//! the answer back as a bit pattern.
//!
//! * `errors`, `scalar`, `instructions`, `model`: values and their models.
//! * `buffers`, `scope`: the parts of the environment.
//! * `utils`, `tokenizer`, `builder`: from source text to directives.
//! * `machine`: the model of a transition; `interpreter`: the evaluator that
//!   makes the transitions; `controllers`, `functions`: the constructs.
//! * `balance`, `isolation`, `shape`: what holds of every evaluation.
#![allow(non_camel_case_types)]

pub mod errors;
pub mod scalar;
pub mod instructions;
pub mod model;
pub mod buffers;
pub mod scope;
pub mod machine;
pub mod interpreter;
pub mod tokenizer;
pub mod builder;
pub mod controllers;
pub mod functions;
pub mod utils;
pub mod balance;
pub mod isolation;
pub mod shape;
