//! Client-side machinery of an AMQP messaging stack.
//!
//! - `value`: scalar wire values, their tagged byte form and its decoder.
//! - `encoder`: collects the scalar leaves of a structured value and encodes
//!   them, growing the output buffer on overflow.
//! - `sys`: the engine's status codes and packed endpoint-state flags.
//! - `endpoint`: endpoint states, local and remote side kept apart.
//! - `transport`: the byte window between a socket and the protocol engine.
//! - `reactor`: the decisions of a non-blocking, edge-triggered reactor over
//!   a table of connections.

pub mod sys;
pub mod value;
pub mod encoder;
pub mod endpoint;
pub mod transport;
pub mod reactor;
