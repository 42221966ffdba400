//! An interactive Reverse Polish Notation (RPN) evaluator core: a token
//! classifier, a value stack, a variable environment, and a line executor
//! that applies tokens left to right and aborts a line on its first error.
//!
//! Numeric values are IEEE-754 binary64 bit patterns carried as `u64`;
//! the float operations themselves live in [`num`].
pub mod env;
pub mod exec;
pub mod laws;
pub mod num;
pub mod stack;
pub mod token;
