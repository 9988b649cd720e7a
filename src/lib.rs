//! A register-based virtual machine for a small dynamically typed language.
//!
//! Values are tagged scalars or handles into an object pool. Code is a
//! sequence of instructions run by a dispatcher over an explicit stack of
//! call frames; classes construct themselves through an `init` field and
//! answer later calls through `__call__`. Native functions, objects of the
//! embedding program and floating-point arithmetic are provided by a
//! [`machine::Host`].
//!
//! Example code:
//! ```text
//! LoadInt 0 12   // R(0) <- 12
//! LoadInt 1 3    // R(1) <- 3
//! Add 2 1 0      // R(2) <- R(1) + R(0)
//! Ret 2          // return R(2)
//! ```

pub mod error;
pub mod frame;
pub mod instruction;
pub mod laws;
pub mod machine;
pub mod object;
pub mod pool;
pub mod run;
pub mod text;
pub mod value;
