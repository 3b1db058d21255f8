//! A single-asset pooled lending ledger.
//!
//! Depositors put an asset into a shared pool and receive shares; borrowers
//! draw on the liquidity that is not lent out, one live loan each; interest
//! accrues with ledger time and is folded back into the pool on repayment.
//! The engine is pure: the caller supplies the ledger time and identities,
//! and moves the asset itself according to the amounts returned.
pub mod interest;
pub mod sums;
pub mod types;
pub mod model;
pub mod pool;
pub mod laws;
