//! Juggling state-notation engine: bit-packed state enumeration, throw and
//! transition computation, transition-table assembly and serialization, and
//! the pure decision logic of the tiered cache that fronts those computations.

pub mod bitmath;
pub mod cache;
pub mod enumeration;
pub mod graph;
pub mod payload;
pub mod precompute;
pub mod state;
pub mod state_notation;
pub mod throw_model;
pub mod transition;
pub mod util;
