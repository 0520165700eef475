//! What the client of the Vault HTTP API decides: which credentials to send,
//! when to log in again, which address to ask, and what an answer means.

pub mod api;
pub mod auth;
pub mod client;
pub mod error;
