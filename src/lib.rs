//! Core of a stack-based bytecode interpreter: dispatch tables, gas
//! accounting, continuations and the arithmetic instruction family.

pub mod arithops;
pub mod cell;
pub mod code;
pub mod cont;
pub mod dispatch;
pub mod error;
pub mod gas;
pub mod instr;
pub mod integer;
pub mod stack;
pub mod state;

