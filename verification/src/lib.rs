//! A pooled-stake lottery: participants deposit a fixed entry amount into a
//! shared pool, and an authorized operator triggers a draw that selects one
//! participant pseudo-randomly, pays the winner and the operator their
//! percentage shares of the accumulated pool, and resets the pool for the
//! next round.
//!
//! This crate holds the verified core: the pool state machine, the entropy
//! and selection arithmetic, and the payout computation. Reading accounts,
//! checking signatures and moving balances belong to the host runtime and to
//! the thin adapter built on top of this library.

pub mod codec;
pub mod entropy;
pub mod laws;
pub mod pool;
