//! Escrow and settlement engine for timed prediction contests, together with
//! an independent time-locked token-staking ledger.
//!
//! The crate models the whole system as an addressable store: a registry of
//! contests, one participant record per (contest, player), one stake account
//! per staker, and a custody book that tracks every token balance.  Each
//! operation is a single atomic unit: it either applies every one of its
//! effects or leaves the state untouched and reports an error.
//!
//! Outbound transfers from a vault are authorized by presenting the matching
//! authority token, and participant records are addressed by deterministic
//! program-derived addresses, recomputed and compared at payout time.

pub mod addr;
pub mod custody;
pub mod engine;
pub mod error;
pub mod state;
pub mod seqs;
