//! A compiler and executor for neural-network computation graphs.
//!
//! A genome (a textual description of nodes and edges) is parsed into a
//! directed acyclic graph, compiled into a shape-checked instruction
//! sequence with explicit liveness bookkeeping, and executed over tensors
//! of a numeric backend.

pub mod backend;
pub mod compile;
pub mod dtos;
pub mod entities;
pub mod exec;
pub mod json;
pub mod library;
pub mod loss;
pub mod parse;
pub mod scan;
pub mod shapes;
pub mod topo;
