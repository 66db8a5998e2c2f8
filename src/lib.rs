//! Bookkeeping and relay logic of a shared SSH broadcast room: every byte a
//! client types on its channel is echoed back to it and copied to every
//! channel of every other connected client.
//!
//! The transport itself (key exchange, encryption, framing) belongs to the SSH
//! server that drives this library. Channel handles are a type parameter, so
//! the library never performs I/O: it decides who receives what, and the
//! caller delivers after releasing the registry.
pub mod auth;
pub mod keys;
pub mod registry;
pub mod relay;
pub mod session;
