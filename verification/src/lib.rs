//! Instrumentation marker for an external measurement tool.
//!
//! An instrumented process signals an out-of-process observer that a measured
//! iteration of work begins or ends, by raising two user-defined OS signals
//! against itself. A process-wide iteration counter and a configured iteration
//! budget decide on each call whether a signal is actually raised.

pub mod budget;
pub mod marker;

pub use budget::parse_budget;
pub use marker::SignalMarker;
