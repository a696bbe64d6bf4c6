//! A minimal server core for an array-of-bulk-strings wire protocol backed by
//! a key-value store: a decoder from bytes to typed protocol values, an
//! encoder back to bytes, the store, and the command dispatcher.

pub mod bytes;
pub mod command;
pub mod decode;
pub mod encode;
pub mod laws;
pub mod resp;
pub mod store;
