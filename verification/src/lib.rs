//! A small smart-contract engine.
//!
//! The crate holds a byte codec (`Block`, `Builder`, `Slice`), a stack machine
//! that interprets contract bytecode, the wire formats of programs, messages
//! and transaction trees, the executor that threads a message through the
//! contracts it reaches, the records that a transaction leaves in a
//! repository, and the line protocol of the server. Every function states
//! what it computes over the mathematical views of its arguments.
pub mod program;
pub mod repositories;
pub mod server;
pub mod vm;
