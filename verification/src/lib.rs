//! A small Java virtual machine: a class-file parser, a class loader, an
//! interpreter with a heap and a mark-sweep collector, and the lowering
//! step of a baseline compiler.
use vstd::prelude::*;

pub mod classfile;
pub mod instructions;
pub mod jit;
pub mod runtime;
pub mod text;

verus! {
}
