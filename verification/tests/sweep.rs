//! Fee sweep gating.
//!
//! The lifecycle controller defines no transition into a terminal status,
//! so only the sweep's failure paths are reachable through the operation
//! surface; its success path is covered by its verified contract.

use spotwin::custody::CustodyKey;
use spotwin::engine::Spotwin;
use spotwin::error::ErrorCode;

const CREATOR: u64 = 1000;
const MINT: u64 = 7;

#[test]
fn sweep_unknown_contest_fails() {
    let mut s = Spotwin::new();
    assert_eq!(s.sweep_fees(CREATOR, 1), Err(ErrorCode::InvalidContestId));
}

#[test]
fn sweep_is_creator_gated() {
    let mut s = Spotwin::new();
    s.create_contest(CREATOR, 1, MINT, 10, 100).unwrap();
    assert_eq!(s.sweep_fees(CREATOR + 1, 1), Err(ErrorCode::InvalidOwner));
}

#[test]
fn sweep_requires_terminal_status() {
    let a: u64 = 42;
    let mut s = Spotwin::new();
    s.fund_account(a, 10).unwrap();
    s.create_contest(CREATOR, 1, MINT, 10, 100).unwrap();
    s.join_contest(1, a, 20).unwrap();
    assert_eq!(s.sweep_fees(CREATOR, 1), Err(ErrorCode::ContestNotCompleted));
    s.lock_contest(CREATOR, 1).unwrap();
    assert_eq!(s.sweep_fees(CREATOR, 1), Err(ErrorCode::ContestNotCompleted));
    s.post_answer_key(CREATOR, 1, 5).unwrap();
    assert_eq!(s.sweep_fees(CREATOR, 1), Err(ErrorCode::ContestNotCompleted));
    assert_eq!(s.balance_of(CustodyKey::ContestVault(1)), 10);
}
