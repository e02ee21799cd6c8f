//! Length-prefixed records kept in fixed-size account buffers.
//!
//! A program is handed an instruction payload and a list of account handles,
//! each with an owner, a writable flag and a byte buffer of fixed size. It
//! either replaces the name held in a buffer or appends a message to the
//! list held in a buffer. Every function states what it returns and how it
//! leaves the buffer, and every failure leaves the buffer as it was.

pub mod error;
pub mod instruction;
pub mod laws;
pub mod processor;
pub mod state;
pub mod store;
pub mod wire;
