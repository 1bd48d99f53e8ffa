//! Turns span lifecycle events into distributed-tracing segment records:
//! identifiers, the trace-context header, segments and the event translator.

pub mod header;
pub mod ids;
pub mod segment;
pub mod time;
pub mod xray;

