//! On-chain governance for a curated token market ("Ibo").
//!
//! Tokens are admitted to, promoted within, demoted within, and removed from
//! three curated markets (Main, Growth, Off) through governance proposals.
//! Each proposal walks a multi-phase state machine (pending, review by a
//! council, a stake-weighted public vote, closing), driven partly by signed
//! actions and partly by a deterministic end-of-block scheduler.
//!
//! The whole module is a deterministic, single-threaded state machine over an
//! explicit store: the block clock and the signed caller enter every operation
//! as plain arguments, and every mutation is either a dispatched action or a
//! time-driven transition of the scheduler.

pub mod balances;
pub mod constants;
pub mod ibo;
pub mod laws;
pub mod proposals;
pub mod rewards;
pub mod scheduler;
pub mod types;
pub mod voting;
