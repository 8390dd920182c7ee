//! A small arithmetization engine: an equation is compiled into a chain of
//! gates, a witness trace is generated for a variable assignment, and every
//! trace row is checked against its selector row.
pub mod bindings;
pub mod circuit;
pub mod constraint;
pub mod error;
pub mod program;
pub mod trace;

pub use bindings::Bindings;
pub use circuit::{Gate, GateType, Wire};
pub use constraint::{eval_q_row, evaluate_row, QGate};
pub use error::PlonkError;
pub use program::Program;
pub use trace::Trace;
