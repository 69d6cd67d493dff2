//! Builtin functions of the interpreter.
pub mod min_max;
pub mod sorted;
pub mod reversed;
pub mod setattr;
pub mod type_;
pub mod hash;
pub mod print;
pub mod map;
pub mod enumerate;
