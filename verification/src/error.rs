use vstd::prelude::*;

verus! {

/// Failure conditions of the contest and stake operations.
///
/// Every operation detects its failure synchronously and aborts with zero
/// partial effect; no error is silently absorbed.
#[derive(Clone, Copy, Debug, PartialEq, Eq, Structural)]
pub enum ErrorCode {
    /// Contest is closed or not accepting entries.
    ContestClosed,
    /// Arithmetic overflow occurred.
    NumericalOverflow,
    /// Must attempt exactly 9 questions.
    InvalidAttemptMask,
    /// Answer bits outside attempted mask.
    InvalidAnswerBits,
    /// Invalid owner.
    InvalidOwner,
    /// Invalid mint.
    InvalidMint,
    /// Invalid answer key.
    InvalidAnswerKey,
    /// Winners and amounts must have same non-zero length.
    InvalidArguments,
    /// Batch cannot be empty.
    EmptyBatch,
    /// Provided address is not a valid participant record address for this contest.
    InvalidParticipant,
    /// Contest is not in the correct state.
    ContestNotAnswerKeyPosted,
    /// Contest is not in the correct state.
    ContestNotLocked,
    /// Contest is not in the correct state.
    AnswerKeyNotSet,
    /// Invalid winner count.
    InvalidWinnerCount,
    /// Invalid contest id passed.
    InvalidContestId,
    /// Stake is locked.
    StakeLocked,
    /// Invalid unstake amount.
    InvalidUnstakeAmount,
    /// Invalid creator.
    InvalidCreator,
    /// Nothing to sweep.
    NothingToSweep,
    /// Contest has not reached a terminal status.
    ContestNotCompleted,
    /// The paying account does not hold the amount to move.
    InsufficientFunds,
    /// A participant record for this contest and player already exists.
    AlreadyJoined,
}

} // verus!
