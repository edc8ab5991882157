//! A verified pari-mutuel wagering pool ledger.
//!
//! An administrator opens a pool with a set of mutually exclusive options,
//! participants commit value to one option, the administrator pauses the pool
//! and declares a winning option, and winners withdraw a proportional share
//! of the total pool. The ledger keeps the accounting invariant that a pool's
//! value is the sum of its options' values and each option's value is the sum
//! of its entries' values; entries are bound to one (option, participant)
//! pair by a derived address, and titles are bound to caller-supplied
//! digests by a hash commitment.

pub mod crypto;
pub mod entries;
pub mod errors;
pub mod laws;
pub mod pool_options;
pub mod pools;
pub mod state;
