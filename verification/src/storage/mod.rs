//! Persistent storage of bi-temporal records.

pub mod encrypted_store;
pub mod wal;

pub use wal::WalEntry;
