//! End-to-end contest lifecycle and settlement scenarios.

use spotwin::addr::participant_record_address;
use spotwin::engine::{PayoutEntry, Spotwin};
use spotwin::error::ErrorCode;
use spotwin::state::{ContestStatus, Joined};

const CREATOR: u64 = 1000;
const MINT: u64 = 7;

fn participant_ref(contest_id: u64, player: u64) -> [u8; 32] {
    participant_record_address(contest_id, player).unwrap().0
}

#[test]
fn end_to_end_settlement() {
    // create_contest(id=1, fee=10, lock_height=100); join(A) moves 10 units
    // A -> Vault, total_entries = 1; at height 150, lock();
    // post_answer_key(key=5); post_payout_root(root, winner_count=1);
    // send_batch([A], [10]) moves 10 units Vault -> A, paid_so_far = 10.
    let a: u64 = 42;
    let mut s = Spotwin::new();
    assert_eq!(s.fund_account(a, 10), Ok(()));
    assert_eq!(s.create_contest(CREATOR, 1, MINT, 10, 100), Ok(()));

    let joined = s.join_contest(1, a, 20).unwrap();
    assert_eq!(joined, Joined { contest_id: 1, player: a, slot: 20 });
    assert_eq!(s.balance_of(spotwin::custody::CustodyKey::External(a)), 0);
    assert_eq!(s.balance_of(spotwin::custody::CustodyKey::ContestVault(1)), 10);
    let c = s.contest(1).unwrap();
    assert_eq!(c.total_entries, 1);
    assert_eq!(c.status, ContestStatus::Open);

    assert_eq!(s.lock_contest(CREATOR, 1), Ok(()));
    assert_eq!(s.contest(1).unwrap().status, ContestStatus::Locked);

    assert_eq!(s.post_answer_key(CREATOR, 1, 5), Ok(()));
    let c = s.contest(1).unwrap();
    assert_eq!(c.status, ContestStatus::AnswerKeyPosted, "key posting advances the status");
    assert_eq!(c.answer_key, 5);

    assert_eq!(s.post_payout_root(CREATOR, 1, [9u8; 32], 1), Ok(()));
    let c = s.contest(1).unwrap();
    assert_eq!(c.winner_count, 1);
    assert_eq!(c.payout_root, [9u8; 32]);

    let entry = PayoutEntry {
        winner: a,
        participant_ref: participant_ref(1, a),
        amount: 10,
        payout_account: a,
    };
    assert_eq!(s.send_batch(CREATOR, 1, vec![entry]), Ok(()));
    assert_eq!(s.balance_of(spotwin::custody::CustodyKey::ContestVault(1)), 0);
    assert_eq!(s.balance_of(spotwin::custody::CustodyKey::External(a)), 10);
    assert_eq!(s.contest(1).unwrap().paid_so_far, 10);
}

#[test]
fn payout_root_requires_existing_answer_key() {
    let a: u64 = 42;
    let mut s = Spotwin::new();
    assert_eq!(s.fund_account(a, 10), Ok(()));
    assert_eq!(s.create_contest(CREATOR, 1, MINT, 10, 100), Ok(()));
    s.join_contest(1, a, 20).unwrap();
    assert_eq!(s.post_payout_root(CREATOR, 1, [9u8; 32], 1), Err(ErrorCode::ContestNotLocked));
    assert_eq!(s.lock_contest(CREATOR, 1), Ok(()));
    // The answer key must already be nonzero before the commitment.
    assert_eq!(s.post_payout_root(CREATOR, 1, [9u8; 32], 1), Err(ErrorCode::AnswerKeyNotSet));
    // Once the key exists the commitment is accepted, whether or not the
    // status transition to AnswerKeyPosted has occurred.
    assert_eq!(s.post_answer_key(CREATOR, 1, 5), Ok(()));
    assert_eq!(s.post_payout_root(CREATOR, 1, [9u8; 32], 1), Ok(()));
    assert_eq!(s.contest(1).unwrap().winner_count, 1);
}

#[test]
fn payout_root_overwrite_keeps_latest() {
    let a: u64 = 42;
    let b: u64 = 43;
    let mut s = Spotwin::new();
    assert_eq!(s.fund_account(a, 10), Ok(()));
    assert_eq!(s.fund_account(b, 10), Ok(()));
    assert_eq!(s.create_contest(CREATOR, 1, MINT, 10, 100), Ok(()));
    s.join_contest(1, a, 20).unwrap();
    s.join_contest(1, b, 21).unwrap();
    assert_eq!(s.lock_contest(CREATOR, 1), Ok(()));
    assert_eq!(s.post_answer_key(CREATOR, 1, 5), Ok(()));
    assert_eq!(s.post_payout_root(CREATOR, 1, [1u8; 32], 1), Ok(()));
    assert_eq!(s.post_payout_root(CREATOR, 1, [2u8; 32], 2), Ok(()));
    let c = s.contest(1).unwrap();
    assert_eq!(c.payout_root, [2u8; 32]);
    assert_eq!(c.winner_count, 2);
}

#[test]
fn create_duplicate_contest_fails() {
    let mut s = Spotwin::new();
    assert_eq!(s.create_contest(CREATOR, 1, MINT, 10, 100), Ok(()));
    assert_eq!(s.create_contest(CREATOR, 1, MINT, 5, 200), Err(ErrorCode::InvalidContestId));
    // The first record is untouched.
    assert_eq!(s.contest(1).unwrap().entry_fee, 10);
}

#[test]
fn join_fails_for_every_status_other_than_open() {
    let a: u64 = 42;
    let b: u64 = 43;
    let mut s = Spotwin::new();
    assert_eq!(s.fund_account(a, 100), Ok(()));
    assert_eq!(s.fund_account(b, 100), Ok(()));
    assert_eq!(s.create_contest(CREATOR, 1, MINT, 10, 100), Ok(()));
    s.join_contest(1, a, 20).unwrap();
    assert_eq!(s.lock_contest(CREATOR, 1), Ok(()));
    assert_eq!(s.join_contest(1, b, 21), Err(ErrorCode::ContestClosed));
    assert_eq!(s.post_answer_key(CREATOR, 1, 5), Ok(()));
    assert_eq!(s.join_contest(1, b, 22), Err(ErrorCode::ContestClosed));
    // No balance moved for the rejected joins.
    assert_eq!(s.balance_of(spotwin::custody::CustodyKey::External(b)), 100);
    assert_eq!(s.balance_of(spotwin::custody::CustodyKey::ContestVault(1)), 10);
}

#[test]
fn join_without_funds_fails() {
    let a: u64 = 42;
    let mut s = Spotwin::new();
    assert_eq!(s.fund_account(a, 9), Ok(()));
    assert_eq!(s.create_contest(CREATOR, 1, MINT, 10, 100), Ok(()));
    assert_eq!(s.join_contest(1, a, 20), Err(ErrorCode::InsufficientFunds));
    assert!(s.participant(1, a).is_none());
    assert_eq!(s.contest(1).unwrap().total_entries, 0);
}

#[test]
fn join_twice_fails() {
    let a: u64 = 42;
    let mut s = Spotwin::new();
    assert_eq!(s.fund_account(a, 100), Ok(()));
    assert_eq!(s.create_contest(CREATOR, 1, MINT, 10, 100), Ok(()));
    s.join_contest(1, a, 20).unwrap();
    assert_eq!(s.join_contest(1, a, 21), Err(ErrorCode::AlreadyJoined));
    assert_eq!(s.balance_of(spotwin::custody::CustodyKey::External(a)), 90);
}

#[test]
fn join_with_zero_fee_moves_nothing() {
    let a: u64 = 42;
    let mut s = Spotwin::new();
    assert_eq!(s.create_contest(CREATOR, 1, MINT, 0, 100), Ok(()));
    s.join_contest(1, a, 20).unwrap();
    assert_eq!(s.balance_of(spotwin::custody::CustodyKey::External(a)), 0);
    assert_eq!(s.balance_of(spotwin::custody::CustodyKey::ContestVault(1)), 0);
    assert_eq!(s.contest(1).unwrap().total_entries, 1);
}

#[test]
fn join_unknown_contest_fails() {
    let mut s = Spotwin::new();
    assert_eq!(s.join_contest(9, 42, 20), Err(ErrorCode::InvalidContestId));
}

#[test]
fn lifecycle_is_creator_gated() {
    let mut s = Spotwin::new();
    assert_eq!(s.create_contest(CREATOR, 1, MINT, 0, 100), Ok(()));
    assert_eq!(s.lock_contest(CREATOR + 1, 1), Err(ErrorCode::InvalidOwner));
    assert_eq!(s.lock_contest(CREATOR, 1), Ok(()));
    assert_eq!(s.post_answer_key(CREATOR + 1, 1, 5), Err(ErrorCode::InvalidOwner));
    assert_eq!(s.post_payout_root(CREATOR + 1, 1, [0u8; 32], 1), Err(ErrorCode::InvalidOwner));
    assert_eq!(s.send_batch(CREATOR + 1, 1, vec![]), Err(ErrorCode::InvalidOwner));
}

#[test]
fn lock_requires_open() {
    let mut s = Spotwin::new();
    assert_eq!(s.create_contest(CREATOR, 1, MINT, 0, 100), Ok(()));
    assert_eq!(s.lock_contest(CREATOR, 1), Ok(()));
    assert_eq!(s.lock_contest(CREATOR, 1), Err(ErrorCode::ContestClosed));
    assert_eq!(s.lock_contest(CREATOR, 9), Err(ErrorCode::InvalidContestId));
}

#[test]
fn answer_key_requires_locked_and_bounded() {
    let mut s = Spotwin::new();
    assert_eq!(s.create_contest(CREATOR, 1, MINT, 0, 100), Ok(()));
    assert_eq!(s.post_answer_key(CREATOR, 1, 5), Err(ErrorCode::ContestNotLocked));
    assert_eq!(s.lock_contest(CREATOR, 1), Ok(()));
    assert_eq!(s.post_answer_key(CREATOR, 1, 4096), Err(ErrorCode::InvalidAnswerKey));
    assert_eq!(s.contest(1).unwrap().answer_key, 0);
    assert_eq!(s.post_answer_key(CREATOR, 1, 4095), Ok(()));
    assert_eq!(s.contest(1).unwrap().answer_key, 4095);
}

#[test]
fn winner_count_above_entries_fails() {
    let a: u64 = 42;
    let mut s = Spotwin::new();
    assert_eq!(s.fund_account(a, 10), Ok(()));
    assert_eq!(s.create_contest(CREATOR, 1, MINT, 10, 100), Ok(()));
    s.join_contest(1, a, 20).unwrap();
    assert_eq!(s.lock_contest(CREATOR, 1), Ok(()));
    assert_eq!(s.post_answer_key(CREATOR, 1, 5), Ok(()));
    // The count must lie in 1..=total_entries; total_entries is 1 here.
    assert_eq!(s.post_payout_root(CREATOR, 1, [0u8; 32], 2), Err(ErrorCode::InvalidWinnerCount));
    assert_eq!(s.post_payout_root(CREATOR, 1, [0u8; 32], 0), Err(ErrorCode::InvalidWinnerCount));
    assert_eq!(s.contest(1).unwrap().winner_count, 0);
    assert_eq!(s.post_payout_root(CREATOR, 1, [0u8; 32], 1), Ok(()));
}

#[test]
fn send_batch_requires_answer_key_posted_status() {
    let a: u64 = 42;
    let mut s = Spotwin::new();
    assert_eq!(s.fund_account(a, 10), Ok(()));
    assert_eq!(s.create_contest(CREATOR, 1, MINT, 10, 100), Ok(()));
    s.join_contest(1, a, 20).unwrap();
    let entry = PayoutEntry {
        winner: a,
        participant_ref: participant_ref(1, a),
        amount: 10,
        payout_account: a,
    };
    assert_eq!(
        s.send_batch(CREATOR, 1, vec![entry]),
        Err(ErrorCode::ContestNotAnswerKeyPosted)
    );
    assert_eq!(s.lock_contest(CREATOR, 1), Ok(()));
    assert_eq!(
        s.send_batch(CREATOR, 1, vec![entry]),
        Err(ErrorCode::ContestNotAnswerKeyPosted)
    );
}

#[test]
fn send_batch_with_zero_answer_key_fails() {
    let a: u64 = 42;
    let mut s = Spotwin::new();
    assert_eq!(s.fund_account(a, 10), Ok(()));
    assert_eq!(s.create_contest(CREATOR, 1, MINT, 10, 100), Ok(()));
    s.join_contest(1, a, 20).unwrap();
    assert_eq!(s.lock_contest(CREATOR, 1), Ok(()));
    assert_eq!(s.post_answer_key(CREATOR, 1, 0), Ok(()));
    let entry = PayoutEntry {
        winner: a,
        participant_ref: participant_ref(1, a),
        amount: 10,
        payout_account: a,
    };
    assert_eq!(s.send_batch(CREATOR, 1, vec![entry]), Err(ErrorCode::AnswerKeyNotSet));
}

#[test]
fn empty_batch_fails() {
    let a: u64 = 42;
    let mut s = Spotwin::new();
    assert_eq!(s.fund_account(a, 10), Ok(()));
    assert_eq!(s.create_contest(CREATOR, 1, MINT, 10, 100), Ok(()));
    s.join_contest(1, a, 20).unwrap();
    assert_eq!(s.lock_contest(CREATOR, 1), Ok(()));
    assert_eq!(s.post_answer_key(CREATOR, 1, 5), Ok(()));
    assert_eq!(s.send_batch(CREATOR, 1, vec![]), Err(ErrorCode::EmptyBatch));
}

#[test]
fn batch_with_one_invalid_winner_pays_nobody() {
    // One valid winner and one winner who never joined: the whole batch
    // fails with zero balance change.
    let a: u64 = 42;
    let b: u64 = 43;
    let mut s = Spotwin::new();
    assert_eq!(s.fund_account(a, 10), Ok(()));
    assert_eq!(s.create_contest(CREATOR, 1, MINT, 10, 100), Ok(()));
    s.join_contest(1, a, 20).unwrap();
    assert_eq!(s.lock_contest(CREATOR, 1), Ok(()));
    assert_eq!(s.post_answer_key(CREATOR, 1, 5), Ok(()));
    let good = PayoutEntry {
        winner: a,
        participant_ref: participant_ref(1, a),
        amount: 5,
        payout_account: a,
    };
    let bad = PayoutEntry {
        winner: b,
        participant_ref: participant_ref(1, b),
        amount: 5,
        payout_account: b,
    };
    assert_eq!(s.send_batch(CREATOR, 1, vec![good, bad]), Err(ErrorCode::InvalidParticipant));
    assert_eq!(s.balance_of(spotwin::custody::CustodyKey::ContestVault(1)), 10);
    assert_eq!(s.balance_of(spotwin::custody::CustodyKey::External(a)), 0);
    assert_eq!(s.balance_of(spotwin::custody::CustodyKey::External(b)), 0);
    assert_eq!(s.contest(1).unwrap().paid_so_far, 0);
}

#[test]
fn batch_with_forged_record_address_fails() {
    let a: u64 = 42;
    let mut s = Spotwin::new();
    assert_eq!(s.fund_account(a, 10), Ok(()));
    assert_eq!(s.create_contest(CREATOR, 1, MINT, 10, 100), Ok(()));
    s.join_contest(1, a, 20).unwrap();
    assert_eq!(s.lock_contest(CREATOR, 1), Ok(()));
    assert_eq!(s.post_answer_key(CREATOR, 1, 5), Ok(()));
    // Hand in a corrupted record address in place of the derived one.
    let mut forged = participant_ref(1, a);
    forged[0] = forged[0].wrapping_add(1);
    let entry = PayoutEntry { winner: a, participant_ref: forged, amount: 5, payout_account: a };
    assert_eq!(s.send_batch(CREATOR, 1, vec![entry]), Err(ErrorCode::InvalidParticipant));
    assert_eq!(s.balance_of(spotwin::custody::CustodyKey::ContestVault(1)), 10);
}

#[test]
fn batch_beyond_vault_balance_fails() {
    let a: u64 = 42;
    let mut s = Spotwin::new();
    assert_eq!(s.fund_account(a, 10), Ok(()));
    assert_eq!(s.create_contest(CREATOR, 1, MINT, 10, 100), Ok(()));
    s.join_contest(1, a, 20).unwrap();
    assert_eq!(s.lock_contest(CREATOR, 1), Ok(()));
    assert_eq!(s.post_answer_key(CREATOR, 1, 5), Ok(()));
    let entry = PayoutEntry {
        winner: a,
        participant_ref: participant_ref(1, a),
        amount: 11,
        payout_account: a,
    };
    assert_eq!(s.send_batch(CREATOR, 1, vec![entry]), Err(ErrorCode::InsufficientFunds));
    assert_eq!(s.balance_of(spotwin::custody::CustodyKey::ContestVault(1)), 10);
}

#[test]
fn paid_so_far_accumulates_across_batches() {
    // Three successful batches: paid_so_far is the exact sum of all the
    // amounts across all the calls.
    let a: u64 = 42;
    let b: u64 = 43;
    let mut s = Spotwin::new();
    assert_eq!(s.fund_account(a, 50), Ok(()));
    assert_eq!(s.fund_account(b, 50), Ok(()));
    assert_eq!(s.create_contest(CREATOR, 1, MINT, 50, 100), Ok(()));
    s.join_contest(1, a, 20).unwrap();
    s.join_contest(1, b, 21).unwrap();
    assert_eq!(s.lock_contest(CREATOR, 1), Ok(()));
    assert_eq!(s.post_answer_key(CREATOR, 1, 5), Ok(()));
    let pay = |winner: u64, amount: u64| PayoutEntry {
        winner,
        participant_ref: participant_ref(1, winner),
        amount,
        payout_account: winner,
    };
    assert_eq!(s.send_batch(CREATOR, 1, vec![pay(a, 10), pay(b, 20)]), Ok(()));
    assert_eq!(s.contest(1).unwrap().paid_so_far, 30);
    assert_eq!(s.send_batch(CREATOR, 1, vec![pay(a, 25)]), Ok(()));
    assert_eq!(s.contest(1).unwrap().paid_so_far, 55);
    assert_eq!(s.send_batch(CREATOR, 1, vec![pay(b, 45)]), Ok(()));
    assert_eq!(s.contest(1).unwrap().paid_so_far, 100);
    assert_eq!(s.balance_of(spotwin::custody::CustodyKey::ContestVault(1)), 0);
    assert_eq!(s.balance_of(spotwin::custody::CustodyKey::External(a)), 35);
    assert_eq!(s.balance_of(spotwin::custody::CustodyKey::External(b)), 65);
}

#[test]
fn duplicate_payout_accounts_accumulate() {
    let a: u64 = 42;
    let mut s = Spotwin::new();
    assert_eq!(s.fund_account(a, 10), Ok(()));
    assert_eq!(s.create_contest(CREATOR, 1, MINT, 10, 100), Ok(()));
    s.join_contest(1, a, 20).unwrap();
    assert_eq!(s.lock_contest(CREATOR, 1), Ok(()));
    assert_eq!(s.post_answer_key(CREATOR, 1, 5), Ok(()));
    let pay = |amount: u64| PayoutEntry {
        winner: a,
        participant_ref: participant_ref(1, a),
        amount,
        payout_account: a,
    };
    assert_eq!(s.send_batch(CREATOR, 1, vec![pay(3), pay(4)]), Ok(()));
    assert_eq!(s.balance_of(spotwin::custody::CustodyKey::External(a)), 7);
    assert_eq!(s.contest(1).unwrap().paid_so_far, 7);
}

#[test]
fn fund_account_overflow_fails() {
    let a: u64 = 42;
    let mut s = Spotwin::new();
    assert_eq!(s.fund_account(a, u64::MAX), Ok(()));
    assert_eq!(s.fund_account(a, 1), Err(ErrorCode::NumericalOverflow));
    assert_eq!(s.balance_of(spotwin::custody::CustodyKey::External(a)), u64::MAX);
}
