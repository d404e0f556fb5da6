//! A small Lisp-family language compiled to SECD bytecode and executed on a
//! stack/environment/code/dump virtual machine.
//!
//! `data` holds the shared vocabulary: AST nodes, runtime values, bytecode
//! instructions and dump frames, together with their mathematical views.
//! `compiler` translates an AST into a flat instruction sequence and
//! `vm` executes such a sequence one instruction at a time. `laws`
//! states and proves the properties that relate them.

pub mod data;
pub mod compiler;
pub mod vm;
pub mod laws;
