//! A three-address-code interpreter: scanner, single-pass compiler and
//! stack machine, with the behaviour of each stated as a contract.

pub mod balance;
pub mod chunk;
pub mod compilation;
pub mod compiler;
pub mod error;
pub mod harness;
pub mod machine;
pub mod scanner;
pub mod slicing;
pub mod text;
pub mod token;
pub mod value;
pub mod vm;
