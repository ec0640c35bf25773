//! Persisted records of the engine: contests, participant records, stake
//! accounts, and the notification emitted on a successful join, together
//! with the lifecycle order of contest statuses and the bit-mask discipline
//! of participant answers.

use vstd::prelude::*;

verus! {

/// An account identity: a player, creator, staker, token type, or receiving
/// address, reduced to its numeric form.
pub type AccountId = u64;

/// Minimum elapsed height between a stake deposit and its earliest permitted
/// withdrawal.
pub const LOCK_PERIOD_SLOTS: u64 = 216000;

/// Exclusive upper bound of a posted answer key.
pub const ANSWER_KEY_BOUND: u16 = 4096;

/// Number of questions a finalized attempt mask must cover.
pub const REQUIRED_ATTEMPTS: u32 = 9;

/// Lifecycle status of a contest.
#[derive(Clone, Copy, Debug, PartialEq, Eq, Structural)]
pub enum ContestStatus {
    Open,
    Locked,
    AnswerKeyPosted,
    Settled,
    Cancelled,
}

/// Position of a status along the forward lifecycle order
/// Open, Locked, AnswerKeyPosted, terminal.
pub open spec fn status_rank(s: ContestStatus) -> int {
    match s {
        ContestStatus::Open => 0,
        ContestStatus::Locked => 1,
        ContestStatus::AnswerKeyPosted => 2,
        ContestStatus::Settled => 3,
        ContestStatus::Cancelled => 3,
    }
}

/// `b` lies no earlier than `a` along the lifecycle order.
pub open spec fn status_forward(a: ContestStatus, b: ContestStatus) -> bool {
    status_rank(a) <= status_rank(b)
}

/// A status from which no further transition is defined.
pub open spec fn is_terminal(s: ContestStatus) -> bool {
    s == ContestStatus::Settled || s == ContestStatus::Cancelled
}

/// Forward movement composes: a path of forward steps never reverses the
/// lifecycle order.
pub proof fn lemma_status_forward_trans(a: ContestStatus, b: ContestStatus, c: ContestStatus)
    requires
        status_forward(a, b),
        status_forward(b, c),
    ensures
        status_forward(a, c),
{
}

/// A contest record.
#[derive(Clone, Copy, Debug)]
pub struct Contest {
    pub creator: AccountId,
    pub contest_id: u64,
    pub pool_mint: AccountId,
    pub entry_fee: u64,
    pub lock_slot: u64,
    pub status: ContestStatus,
    pub total_entries: u32,
    pub answer_key: u16,
    pub payout_root: [u8; 32],
    pub winner_count: u32,
    pub paid_so_far: u64,
    pub contest_bump: u8,
    pub vault_bump: u8,
    pub vault_authority_bump: u8,
}

/// A participant record; exactly one exists per (contest, player).
#[derive(Clone, Copy, Debug)]
pub struct Participant {
    pub player: AccountId,
    pub attempt_mask: u16,
    pub answer_bits: u16,
}

/// A stake account; exactly one exists per staker.
#[derive(Clone, Copy, Debug)]
pub struct StakeAccount {
    pub owner: AccountId,
    pub amount: u64,
    pub start_slot: u64,
}

/// Notification emitted after each successful join.
#[derive(Clone, Copy, Debug, PartialEq, Eq, Structural)]
pub struct Joined {
    pub contest_id: u64,
    pub player: AccountId,
    pub slot: u64,
}

/// Number of set bits in the binary expansion of `x`.
pub open spec fn popcount(x: nat) -> nat
    decreases x,
{
    if x == 0 {
        0
    } else {
        x % 2 + popcount(x / 2)
    }
}

/// A number has no more set bits than its own value.
pub proof fn lemma_popcount_le(x: nat)
    ensures
        popcount(x) <= x,
    decreases x,
{
    if x > 0 {
        lemma_popcount_le(x / 2);
    }
}

/// `bits` is a bitwise subset of `mask`.
pub open spec fn bits_subset(bits: u16, mask: u16) -> bool {
    bits & mask == bits
}

/// The bit-mask discipline of a participant record: either still at its
/// initial empty state, or an accepted pair with exactly the required
/// attempt count and answers inside the attempted mask.
pub open spec fn masks_ok(p: Participant) -> bool {
    ||| (p.attempt_mask == 0 && p.answer_bits == 0)
    ||| (popcount(p.attempt_mask as nat) == REQUIRED_ATTEMPTS && bits_subset(
        p.answer_bits,
        p.attempt_mask,
    ))
}

/// Count the set bits of a 16-bit mask.
pub fn count_bits16(x: u16) -> (n: u32)
    ensures
        n == popcount(x as nat),
{
    let mut cur: u16 = x;
    let mut n: u32 = 0;
    proof {
        lemma_popcount_le(x as nat);
    }
    while cur != 0
        invariant
            n + popcount(cur as nat) == popcount(x as nat),
            popcount(x as nat) <= x,
        decreases cur,
    {
        proof {
            assert((cur & 1) == cur % 2) by (bit_vector);
            assert((cur >> 1u16) == cur / 2) by (bit_vector);
        }
        n = n + (cur & 1) as u32;
        cur = cur >> 1u16;
    }
    n
}

} // verus!
