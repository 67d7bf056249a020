//! Interval abstraction of zkVM constraint systems.
pub mod interval;
pub mod interval_laws;
pub mod word_laws;
pub mod eval_laws;
pub mod operators;
pub mod wordop;
pub mod symbolic;
pub mod analysis;
pub mod controlflowop;
pub mod alu;
pub mod patterns;
pub mod memory;
pub mod memory_laws;
pub mod trace;
pub mod constraint;
pub mod shrinker;
pub mod shrinker_laws;
pub mod solver;
pub mod text;
pub mod smt_terms;
pub mod smt;
pub mod render;
pub mod state;
pub mod utils;
pub mod ui;
pub mod canonicalizer;
pub mod quick;
pub mod test_data;
pub mod sparsity;
