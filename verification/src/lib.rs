//! A verified model of an asynchronous I/O ring engine: paired
//! fixed-capacity circular buffers for submissions and completions, a
//! bounded correlation-ticket allocator, a table of in-flight
//! operations, and the bootstrap that negotiates ring parameters and
//! wires the components together.

pub mod config;
pub mod cq;
pub mod engine;
pub mod in_flight;
pub mod ring;
pub mod sq;
pub mod ticket;
