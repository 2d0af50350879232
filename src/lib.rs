//! A tree-walking interpreter for the Sam scripting language.
//!
//! The evaluator walks a syntax tree over a stack of scope frames. Values are
//! numbers (integers and binary64 floats), strings, arrays, objects, user
//! functions and foreign functions. Work outside the process (reading
//! interface manifests, running commands) is requested from the caller and
//! its results replayed into evaluation.
pub mod context;
pub mod error;
pub mod evaluate;
pub mod ffi;
pub mod float;
pub mod laws;
pub mod literal;
pub mod operator;
pub mod semantics;
pub mod syntax;
pub mod value;
