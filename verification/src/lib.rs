//! A deterministic, gas-metered state machine for storage benchmarking and a
//! validator-staking lifecycle, modelled over an explicitly owned store.
//!
//! The store keeps a singleton state record (scalar counter, append-only
//! numeric sequence, validator roster), a composite-key map `(u64, u64) ->
//! u128`, and a keyed-sequence map `u64 -> [(u64, u128)]`. Operations mirror
//! the storage access patterns being benchmarked: point saves, atomic
//! updates, range writes, and bulk staking-instruction generation over the
//! roster.

pub mod contract;
pub mod error;
pub mod laws;
pub mod msg;
pub mod sort;
pub mod staking;
pub mod state;
pub mod store;
pub mod validator;
