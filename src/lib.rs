//! An artificial-chemistry population of self-modifying byte programs.
//!
//! Programs are drawn in pairs, concatenated into one tape, run on a small
//! two-cursor tape machine and written back into the pool.
pub mod interpreter;
pub mod stats;
mod rng;
pub mod pool;

pub use interpreter::execute;
pub use interpreter::ProgramStatus;
pub use pool::TuringFoam;
pub use stats::TuringFoamStats;
