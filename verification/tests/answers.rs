//! Answer submission: the bit-mask discipline and its gating.

use spotwin::engine::Spotwin;
use spotwin::error::ErrorCode;

const CREATOR: u64 = 1000;
const MINT: u64 = 7;

// A mask with exactly nine set bits.
const NINE_BITS: u16 = 0b0000_0001_1111_1111;

fn joined_engine(player: u64) -> Spotwin {
    let mut s = Spotwin::new();
    s.fund_account(player, 100).unwrap();
    s.create_contest(CREATOR, 1, MINT, 10, 100).unwrap();
    s.join_contest(1, player, 20).unwrap();
    s
}

#[test]
fn accepted_pair_is_stored() {
    let a: u64 = 42;
    let mut s = joined_engine(a);
    let p = s.participant(1, a).unwrap();
    assert_eq!((p.attempt_mask, p.answer_bits), (0, 0));
    assert_eq!(s.update_answers(CREATOR, 1, a, NINE_BITS, 0b0_0101_0101, 50), Ok(()));
    let p = s.participant(1, a).unwrap();
    assert_eq!(p.attempt_mask, NINE_BITS);
    assert_eq!(p.answer_bits, 0b0_0101_0101);
    assert_eq!(p.answer_bits & p.attempt_mask, p.answer_bits);
    assert_eq!(p.attempt_mask.count_ones(), 9);
}

#[test]
fn overwrite_is_idempotent() {
    let a: u64 = 42;
    let mut s = joined_engine(a);
    let other_nine: u16 = 0b0011_1110_0000_1111;
    assert_eq!(s.update_answers(CREATOR, 1, a, NINE_BITS, 1, 50), Ok(()));
    assert_eq!(s.update_answers(CREATOR, 1, a, other_nine, 0b110, 60), Ok(()));
    let p = s.participant(1, a).unwrap();
    assert_eq!(p.attempt_mask, other_nine);
    assert_eq!(p.answer_bits, 0b110);
}

#[test]
fn wrong_attempt_count_leaves_state_unchanged() {
    let a: u64 = 42;
    let mut s = joined_engine(a);
    assert_eq!(s.update_answers(CREATOR, 1, a, NINE_BITS, 1, 50), Ok(()));
    // Eight bits and ten bits both fail.
    assert_eq!(
        s.update_answers(CREATOR, 1, a, 0b1111_1111, 1, 51),
        Err(ErrorCode::InvalidAttemptMask)
    );
    assert_eq!(
        s.update_answers(CREATOR, 1, a, 0b11_1111_1111, 1, 51),
        Err(ErrorCode::InvalidAttemptMask)
    );
    let p = s.participant(1, a).unwrap();
    assert_eq!((p.attempt_mask, p.answer_bits), (NINE_BITS, 1));
}

#[test]
fn answer_bits_outside_mask_leave_state_unchanged() {
    let a: u64 = 42;
    let mut s = joined_engine(a);
    // Bit nine lies outside the nine-bit mask.
    assert_eq!(
        s.update_answers(CREATOR, 1, a, NINE_BITS, 0b10_0000_0000, 50),
        Err(ErrorCode::InvalidAnswerBits)
    );
    let p = s.participant(1, a).unwrap();
    assert_eq!((p.attempt_mask, p.answer_bits), (0, 0));
}

#[test]
fn answers_are_creator_gated() {
    let a: u64 = 42;
    let mut s = joined_engine(a);
    assert_eq!(s.update_answers(a, 1, a, NINE_BITS, 1, 50), Err(ErrorCode::InvalidOwner));
}

#[test]
fn answers_frozen_at_lock_height() {
    let a: u64 = 42;
    let mut s = joined_engine(a);
    // lock height is 100; at height 100 the window is shut.
    assert_eq!(s.update_answers(CREATOR, 1, a, NINE_BITS, 1, 100), Err(ErrorCode::ContestClosed));
    assert_eq!(s.update_answers(CREATOR, 1, a, NINE_BITS, 1, 99), Ok(()));
}

#[test]
fn answers_rejected_once_locked() {
    let a: u64 = 42;
    let mut s = joined_engine(a);
    s.lock_contest(CREATOR, 1).unwrap();
    assert_eq!(s.update_answers(CREATOR, 1, a, NINE_BITS, 1, 50), Err(ErrorCode::ContestClosed));
}

#[test]
fn answers_for_absent_player_fail() {
    let a: u64 = 42;
    let mut s = joined_engine(a);
    assert_eq!(
        s.update_answers(CREATOR, 1, 99, NINE_BITS, 1, 50),
        Err(ErrorCode::InvalidParticipant)
    );
}

#[test]
fn answers_for_unknown_contest_fail() {
    let a: u64 = 42;
    let mut s = joined_engine(a);
    assert_eq!(s.update_answers(CREATOR, 9, a, NINE_BITS, 1, 50), Err(ErrorCode::InvalidContestId));
}
