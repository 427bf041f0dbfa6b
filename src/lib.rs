//! Typed register access for a simulated system-on-chip: a register-map
//! model, an accessor generator, a volatile register cell and the protocol
//! by which a test program reports its result to an external observer.

pub mod cell;
pub mod codegen;
pub mod field;
pub mod filter;
pub mod harness;
pub mod regmap;
