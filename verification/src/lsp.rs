//! The client side of the language server protocol.

pub mod actions;
pub mod capabilities;
pub mod client;
pub mod edits;
pub mod manager;
pub mod protocol;
pub mod requests;
pub mod responses;
pub mod sync;
