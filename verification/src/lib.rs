//! A bytecode interpreter for a small, dynamically typed scripting language.
//!
//! Source text is compiled in a single pass into a linear bytecode chunk,
//! which a stack-based virtual machine then executes one instruction at a
//! time.  Numbers are IEEE-754 doubles; the verified core carries them as
//! their 64-bit patterns and asks its embedder to perform the handful of
//! floating-point operations (arithmetic, comparison, parsing, formatting)
//! that cannot be expressed here, so that everything the interpreter
//! decides -- scanning, parsing, code generation, scope resolution, and the
//! dispatch loop -- is verified.

use vstd::prelude::*;

pub mod chunk;
pub mod compiler;
pub mod globals;
pub mod scanner;
pub mod value;
pub mod vm;

verus! {

} // verus!
