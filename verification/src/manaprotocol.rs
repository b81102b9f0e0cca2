//! The in-process handler boundary: the three-verb interface a native
//! handler implements.

pub mod callee;
