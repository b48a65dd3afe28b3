//! Middle stage of a small C-like compiler: semantic analysis of a syntax
//! tree followed by lowering into a linear three-address intermediate
//! representation over virtual registers.

pub mod ast;
pub mod ir;
pub mod sema;
pub mod util;
