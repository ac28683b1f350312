//! Verified core of a cross-chain deposit relayer.
//!
//! The crate decodes deposit event logs from an account-based source chain,
//! keeps the durable bookkeeping of each transfer request, decides how the
//! executor handles pending requests (balance gate, validation, fee
//! computation), and decides when accumulated business fees are settled to a
//! treasury address.

pub mod config;
pub mod decoder;
pub mod executor;
pub mod hex;
pub mod numeric;
pub mod settlement;
pub mod store;
mod trusted;
