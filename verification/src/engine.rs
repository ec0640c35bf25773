//! The operation surface: an addressable store of contests, participant
//! records and stake accounts, joined to the custody book.  Every operation
//! is one atomic unit — it validates first, then applies every effect, and
//! any failed precondition leaves the whole state untouched.

use vstd::prelude::*;

use crate::addr::{
    contest_address, contest_seeds, participant_record_address, participant_seeds, spec_pda,
    vault_address, vault_authority_address, vault_authority_seeds, vault_seeds, bytes32_eq,
};
use crate::custody::{Authority, CustodyKey, Ledger};
use crate::error::ErrorCode;
use crate::seqs::{
    first_keyed, keys_unique, lemma_first_keyed_at, lemma_first_keyed_push, lemma_first_keyed_some,
    lemma_first_keyed_update, lemma_sum_by_elem, lemma_sum_by_push,
    lemma_sum_by_take_le, lemma_sum_by_take_step, lemma_sum_by_update, sum_by,
};
use crate::state::{
    masks_ok, status_forward, AccountId, Contest, ContestStatus, Joined, Participant, StakeAccount,
    ANSWER_KEY_BOUND,
};

verus! {

spec fn contest_key_fn() -> spec_fn(Contest) -> u64 {
    |c: Contest| c.contest_id
}

spec fn participant_key_fn() -> spec_fn((u64, Participant)) -> (u64, AccountId) {
    |e: (u64, Participant)| (e.0, e.1.player)
}

spec fn stake_key_fn() -> spec_fn(StakeAccount) -> AccountId {
    |s: StakeAccount| s.owner
}

spec fn stake_amt_fn() -> spec_fn(StakeAccount) -> int {
    |s: StakeAccount| s.amount as int
}

/// An all-zero payout commitment, the initial value of a contest's root.
pub open spec fn zero_root() -> Seq<u8> {
    Seq::new(32, |i: int| 0u8)
}

/// The engine: the addressable store of all records, plus the custody book.
pub struct Spotwin {
    contests: Vec<Contest>,
    participants: Vec<(u64, Participant)>,
    stakes: Vec<StakeAccount>,
    custody: Ledger,
}

/// Every contest present in `a` is present in `b` with a status no earlier
/// along the lifecycle order.
pub open spec fn statuses_forward(a: Spotwin, b: Spotwin) -> bool {
    forall|id: u64|
        #[trigger] a.spec_contest(id) matches Some(c0) ==> (b.spec_contest(id) matches Some(c1)
            && status_forward(c0.status, c1.status))
}

/// No contest record other than `id` differs between `a` and `b`.
pub open spec fn contests_unchanged_except(a: Spotwin, b: Spotwin, id: u64) -> bool {
    forall|x: u64| x != id ==> b.spec_contest(x) == a.spec_contest(x)
}

/// No participant record differs between `a` and `b`.
pub open spec fn participants_unchanged(a: Spotwin, b: Spotwin) -> bool {
    forall|cid: u64, p: AccountId| b.spec_participant(cid, p) == a.spec_participant(cid, p)
}

/// No participant record other than (`cid`, `p`) differs between `a` and `b`.
pub open spec fn participants_unchanged_except(
    a: Spotwin,
    b: Spotwin,
    cid: u64,
    p: AccountId,
) -> bool {
    forall|x: u64, y: AccountId|
        !(x == cid && y == p) ==> b.spec_participant(x, y) == a.spec_participant(x, y)
}

/// No stake account differs between `a` and `b`.
pub open spec fn stakes_unchanged(a: Spotwin, b: Spotwin) -> bool {
    forall|o: AccountId| b.spec_stake(o) == a.spec_stake(o)
}

/// No stake account other than `owner`'s differs between `a` and `b`.
pub open spec fn stakes_unchanged_except(a: Spotwin, b: Spotwin, owner: AccountId) -> bool {
    forall|o: AccountId| o != owner ==> b.spec_stake(o) == a.spec_stake(o)
}

/// No custody balance differs between `a` and `b`.
pub open spec fn balances_unchanged(a: Spotwin, b: Spotwin) -> bool {
    forall|k: CustodyKey| b.balance(k) == a.balance(k)
}

/// No custody balance outside `k1` and `k2` differs between `a` and `b`.
pub open spec fn balances_unchanged_except(
    a: Spotwin,
    b: Spotwin,
    k1: CustodyKey,
    k2: CustodyKey,
) -> bool {
    forall|k: CustodyKey| k != k1 && k != k2 ==> b.balance(k) == a.balance(k)
}

impl Spotwin {
    /// Contest record of `contest_id`, if created.
    pub closed spec fn spec_contest(self, contest_id: u64) -> Option<Contest> {
        first_keyed(self.contests@, contest_key_fn(), contest_id)
    }

    /// Participant record of (`contest_id`, `player`), if created.
    pub closed spec fn spec_participant(self, contest_id: u64, player: AccountId) -> Option<
        Participant,
    > {
        match first_keyed(self.participants@, participant_key_fn(), (contest_id, player)) {
            Some(e) => Some(e.1),
            None => None,
        }
    }

    /// Stake account of `owner`, if created.
    pub closed spec fn spec_stake(self, owner: AccountId) -> Option<StakeAccount> {
        first_keyed(self.stakes@, stake_key_fn(), owner)
    }

    /// The balance held in custody by `k`.
    pub closed spec fn balance(self, k: CustodyKey) -> u64 {
        self.custody.balance(k)
    }

    /// Total amount ever minted into custody.
    pub closed spec fn total_supply(self) -> u64 {
        self.custody.total_supply()
    }

    /// Well-formedness: each store keys its records uniquely, the custody
    /// book is well formed, the stake vault holds exactly the sum of all
    /// stake accounts, and every participant record obeys the mask
    /// discipline.
    pub closed spec fn wf(self) -> bool {
        &&& keys_unique(self.contests@, contest_key_fn())
        &&& keys_unique(self.participants@, participant_key_fn())
        &&& keys_unique(self.stakes@, stake_key_fn())
        &&& self.custody.wf()
        &&& self.custody.balance(CustodyKey::StakeVault) == sum_by(self.stakes@, stake_amt_fn())
        &&& forall|i: int| 0 <= i < self.participants@.len() ==> masks_ok(self.participants@[i].1)
    }

    /// Every stored (attempt_mask, answer_bits) pair is either still the
    /// initial empty pair or an accepted one: exactly the required attempt
    /// count, with the answers inside the attempted mask.
    pub proof fn lemma_participant_masks_ok(self, contest_id: u64, player: AccountId)
        requires
            self.wf(),
        ensures
            self.spec_participant(contest_id, player) matches Some(p) ==> masks_ok(p),
    {
        if self.spec_participant(contest_id, player) is Some {
            lemma_first_keyed_some(
                self.participants@,
                participant_key_fn(),
                (contest_id, player),
            );
            let i = choose|i: int|
                0 <= i < self.participants@.len() && participant_key_fn()(self.participants@[i])
                    == (contest_id, player);
            lemma_first_keyed_at(self.participants@, participant_key_fn(), i);
        }
    }

    /// A fresh engine: no records, no balances.
    pub fn new() -> (s: Spotwin)
        ensures
            s.wf(),
            s.total_supply() == 0,
            forall|id: u64| s.spec_contest(id) is None,
            forall|cid: u64, p: AccountId| s.spec_participant(cid, p) is None,
            forall|o: AccountId| s.spec_stake(o) is None,
            forall|k: CustodyKey| s.balance(k) == 0,
    {
        let s = Spotwin {
            contests: Vec::new(),
            participants: Vec::new(),
            stakes: Vec::new(),
            custody: Ledger::new(),
        };
        s
    }

    /// Fund an external account from outside the system.
    ///
    /// Succeeds exactly when the minted total stays within range; on
    /// failure nothing changes.
    pub fn fund_account(&mut self, owner: AccountId, amount: u64) -> (r: Result<(), ErrorCode>)
        requires
            old(self).wf(),
        ensures
            final(self).wf(),
            statuses_forward(*old(self), *final(self)),
            r is Ok <==> old(self).total_supply() + amount <= u64::MAX,
            r is Err ==> r == Err::<(), ErrorCode>(ErrorCode::NumericalOverflow) && *final(self)
                == *old(self),
            r is Ok ==> {
                &&& final(self).total_supply() == old(self).total_supply() + amount
                &&& final(self).balance(CustodyKey::External(owner)) == old(self).balance(
                    CustodyKey::External(owner),
                ) + amount
                &&& balances_unchanged_except(
                    *old(self),
                    *final(self),
                    CustodyKey::External(owner),
                    CustodyKey::External(owner),
                )
                &&& forall|id: u64| final(self).spec_contest(id) == old(self).spec_contest(id)
                &&& participants_unchanged(*old(self), *final(self))
                &&& stakes_unchanged(*old(self), *final(self))
            },
    {
        self.custody.mint(CustodyKey::External(owner), amount)
    }

    /// Index of the contest record of `contest_id`, if one exists.
    fn find_contest_idx(&self, contest_id: u64) -> (r: Option<usize>)
        ensures
            r matches Some(i) ==> i < self.contests@.len() && self.contests@[i as int].contest_id
                == contest_id,
            r is None ==> forall|j: int|
                0 <= j < self.contests@.len() ==> self.contests@[j].contest_id != contest_id,
    {
        let n = self.contests.len();
        for i in 0..n
            invariant
                n == self.contests@.len(),
                forall|j: int| 0 <= j < i ==> self.contests@[j].contest_id != contest_id,
        {
            if self.contests[i].contest_id == contest_id {
                return Some(i);
            }
        }
        None
    }

    /// Index of the participant record of (`contest_id`, `player`), if one
    /// exists.
    fn find_participant_idx(&self, contest_id: u64, player: AccountId) -> (r: Option<usize>)
        ensures
            r matches Some(i) ==> i < self.participants@.len() && self.participants@[i as int].0
                == contest_id && self.participants@[i as int].1.player == player,
            r is None ==> forall|j: int|
                0 <= j < self.participants@.len() ==> !(self.participants@[j].0 == contest_id
                    && self.participants@[j].1.player == player),
    {
        let n = self.participants.len();
        for i in 0..n
            invariant
                n == self.participants@.len(),
                forall|j: int|
                    0 <= j < i ==> !(self.participants@[j].0 == contest_id
                        && self.participants@[j].1.player == player),
        {
            if self.participants[i].0 == contest_id && self.participants[i].1.player == player {
                return Some(i);
            }
        }
        None
    }

    /// Index of the stake account of `owner`, if one exists.
    fn find_stake_idx(&self, owner: AccountId) -> (r: Option<usize>)
        ensures
            r matches Some(i) ==> i < self.stakes@.len() && self.stakes@[i as int].owner == owner,
            r is None ==> forall|j: int|
                0 <= j < self.stakes@.len() ==> self.stakes@[j].owner != owner,
    {
        let n = self.stakes.len();
        for i in 0..n
            invariant
                n == self.stakes@.len(),
                forall|j: int| 0 <= j < i ==> self.stakes@[j].owner != owner,
        {
            if self.stakes[i].owner == owner {
                return Some(i);
            }
        }
        None
    }

    /// Allocate a new contest with status Open, all counters zero, and the
    /// derivation bumps of its record, vault and vault authority addresses.
    ///
    /// Fails with `InvalidContestId` if `contest_id` already resolves to an
    /// existing record — addresses are deterministic, so collision is the
    /// uniqueness check — or if one of its addresses has no viable bump.
    pub fn create_contest(
        &mut self,
        creator: AccountId,
        contest_id: u64,
        pool_mint: AccountId,
        entry_fee: u64,
        lock_slot: u64,
    ) -> (r: Result<(), ErrorCode>)
        requires
            old(self).wf(),
        ensures
            final(self).wf(),
            statuses_forward(*old(self), *final(self)),
            r is Ok <==> old(self).spec_contest(contest_id) is None && spec_pda(
                contest_seeds(contest_id),
            ) is Some && spec_pda(vault_seeds(contest_id)) is Some && spec_pda(
                vault_authority_seeds(contest_id),
            ) is Some,
            r is Err ==> r == Err::<(), ErrorCode>(ErrorCode::InvalidContestId) && *final(self)
                == *old(self),
            r is Ok ==> {
                &&& final(self).spec_contest(contest_id) matches Some(c)
                &&& final(self).spec_contest(contest_id) matches Some(c) ==> {
                    &&& c.creator == creator
                    &&& c.contest_id == contest_id
                    &&& c.pool_mint == pool_mint
                    &&& c.entry_fee == entry_fee
                    &&& c.lock_slot == lock_slot
                    &&& c.status == ContestStatus::Open
                    &&& c.total_entries == 0
                    &&& c.answer_key == 0
                    &&& c.payout_root@ == zero_root()
                    &&& c.winner_count == 0
                    &&& c.paid_so_far == 0
                    &&& (spec_pda(contest_seeds(contest_id)) matches Some(q)
                        && c.contest_bump == q.1)
                    &&& (spec_pda(vault_seeds(contest_id)) matches Some(q) && c.vault_bump == q.1)
                    &&& (spec_pda(vault_authority_seeds(contest_id)) matches Some(q)
                        && c.vault_authority_bump == q.1)
                }
            },
            contests_unchanged_except(*old(self), *final(self), contest_id),
            participants_unchanged(*old(self), *final(self)),
            stakes_unchanged(*old(self), *final(self)),
            balances_unchanged(*old(self), *final(self)),
            final(self).total_supply() == old(self).total_supply(),
    {
        let ghost s0 = self.contests@;
        if self.find_contest_idx(contest_id).is_some() {
            proof {
                let i = choose|i: int| 0 <= i < s0.len() && s0[i].contest_id == contest_id;
                lemma_first_keyed_some(s0, contest_key_fn(), contest_id);
            }
            return Err(ErrorCode::InvalidContestId);
        }
        proof {
            lemma_first_keyed_some(s0, contest_key_fn(), contest_id);
        }
        let contest_bump = match contest_address(contest_id) {
            Some(p) => p.1,
            None => {
                return Err(ErrorCode::InvalidContestId);
            },
        };
        let vault_bump = match vault_address(contest_id) {
            Some(p) => p.1,
            None => {
                return Err(ErrorCode::InvalidContestId);
            },
        };
        let vault_authority_bump = match vault_authority_address(contest_id) {
            Some(p) => p.1,
            None => {
                return Err(ErrorCode::InvalidContestId);
            },
        };
        let c = Contest {
            creator,
            contest_id,
            pool_mint,
            entry_fee,
            lock_slot,
            status: ContestStatus::Open,
            total_entries: 0,
            answer_key: 0,
            payout_root: [0u8; 32],
            winner_count: 0,
            paid_so_far: 0,
            contest_bump,
            vault_bump,
            vault_authority_bump,
        };
        self.contests.push(c);
        proof {
            lemma_first_keyed_push(s0, contest_key_fn(), c);
            assert(c.payout_root@ =~= zero_root());
        }
        Ok(())
    }

    /// Lock an open contest: Open to Locked, creator-gated.
    pub fn lock_contest(&mut self, caller: AccountId, contest_id: u64) -> (r: Result<
        (),
        ErrorCode,
    >)
        requires
            old(self).wf(),
        ensures
            final(self).wf(),
            statuses_forward(*old(self), *final(self)),
            r is Ok <==> (old(self).spec_contest(contest_id) matches Some(c) && c.creator == caller
                && c.status == ContestStatus::Open),
            old(self).spec_contest(contest_id) is None ==> r == Err::<(), ErrorCode>(
                ErrorCode::InvalidContestId,
            ),
            (old(self).spec_contest(contest_id) matches Some(c) && c.creator != caller) ==> r
                == Err::<(), ErrorCode>(ErrorCode::InvalidOwner),
            (old(self).spec_contest(contest_id) matches Some(c) && c.creator == caller && c.status
                != ContestStatus::Open) ==> r == Err::<(), ErrorCode>(ErrorCode::ContestClosed),
            r is Err ==> *final(self) == *old(self),
            r is Ok ==> (old(self).spec_contest(contest_id) matches Some(c) && final(self).spec_contest(contest_id) == Some(
                (Contest { status: ContestStatus::Locked, ..c }),
            )),
            contests_unchanged_except(*old(self), *final(self), contest_id),
            participants_unchanged(*old(self), *final(self)),
            stakes_unchanged(*old(self), *final(self)),
            balances_unchanged(*old(self), *final(self)),
            final(self).total_supply() == old(self).total_supply(),
    {
        let ghost s0 = self.contests@;
        let i = match self.find_contest_idx(contest_id) {
            Some(i) => i,
            None => {
                proof {
                    lemma_first_keyed_some(s0, contest_key_fn(), contest_id);
                }
                return Err(ErrorCode::InvalidContestId);
            },
        };
        proof {
            lemma_first_keyed_at(s0, contest_key_fn(), i as int);
        }
        let c = self.contests[i];
        if c.creator != caller {
            return Err(ErrorCode::InvalidOwner);
        }
        if c.status != ContestStatus::Open {
            return Err(ErrorCode::ContestClosed);
        }
        let c1 = Contest { status: ContestStatus::Locked, ..c };
        self.contests[i] = c1;
        proof {
            lemma_first_keyed_update(s0, contest_key_fn(), i as int, c1);
        }
        Ok(())
    }

    /// Post the answer key: Locked to AnswerKeyPosted, creator-gated; the
    /// key must lie within its bounded range.
    pub fn post_answer_key(&mut self, caller: AccountId, contest_id: u64, answer_key: u16) -> (r:
        Result<(), ErrorCode>)
        requires
            old(self).wf(),
        ensures
            final(self).wf(),
            statuses_forward(*old(self), *final(self)),
            r is Ok <==> (old(self).spec_contest(contest_id) matches Some(c) && c.creator == caller
                && c.status == ContestStatus::Locked && answer_key < ANSWER_KEY_BOUND),
            old(self).spec_contest(contest_id) is None ==> r == Err::<(), ErrorCode>(
                ErrorCode::InvalidContestId,
            ),
            (old(self).spec_contest(contest_id) matches Some(c) && c.creator != caller) ==> r
                == Err::<(), ErrorCode>(ErrorCode::InvalidOwner),
            (old(self).spec_contest(contest_id) matches Some(c) && c.creator == caller && c.status
                != ContestStatus::Locked) ==> r == Err::<(), ErrorCode>(
                ErrorCode::ContestNotLocked,
            ),
            (old(self).spec_contest(contest_id) matches Some(c) && c.creator == caller && c.status
                == ContestStatus::Locked && answer_key >= ANSWER_KEY_BOUND) ==> r == Err::<
                (),
                ErrorCode,
            >(ErrorCode::InvalidAnswerKey),
            r is Err ==> *final(self) == *old(self),
            r is Ok ==> (old(self).spec_contest(contest_id) matches Some(c) && final(self).spec_contest(contest_id) == Some(
                (Contest { status: ContestStatus::AnswerKeyPosted, answer_key, ..c }),
            )),
            contests_unchanged_except(*old(self), *final(self), contest_id),
            participants_unchanged(*old(self), *final(self)),
            stakes_unchanged(*old(self), *final(self)),
            balances_unchanged(*old(self), *final(self)),
            final(self).total_supply() == old(self).total_supply(),
    {
        let ghost s0 = self.contests@;
        let i = match self.find_contest_idx(contest_id) {
            Some(i) => i,
            None => {
                proof {
                    lemma_first_keyed_some(s0, contest_key_fn(), contest_id);
                }
                return Err(ErrorCode::InvalidContestId);
            },
        };
        proof {
            lemma_first_keyed_at(s0, contest_key_fn(), i as int);
        }
        let c = self.contests[i];
        if c.creator != caller {
            return Err(ErrorCode::InvalidOwner);
        }
        if c.status != ContestStatus::Locked {
            return Err(ErrorCode::ContestNotLocked);
        }
        if answer_key >= ANSWER_KEY_BOUND {
            return Err(ErrorCode::InvalidAnswerKey);
        }
        let c1 = Contest { status: ContestStatus::AnswerKeyPosted, answer_key, ..c };
        self.contests[i] = c1;
        proof {
            lemma_first_keyed_update(s0, contest_key_fn(), i as int, c1);
        }
        Ok(())
    }

    /// Record the payout commitment and winner count, creator-gated.
    ///
    /// Requires status Locked and an already-nonzero answer key: the key
    /// must exist before a payout commitment is recorded, independent of
    /// the transition to AnswerKeyPosted.  The status does not change.
    pub fn post_payout_root(
        &mut self,
        caller: AccountId,
        contest_id: u64,
        root: [u8; 32],
        winner_count: u32,
    ) -> (r: Result<(), ErrorCode>)
        requires
            old(self).wf(),
        ensures
            final(self).wf(),
            statuses_forward(*old(self), *final(self)),
            r is Ok <==> (old(self).spec_contest(contest_id) matches Some(c) && c.creator == caller
                && (c.status == ContestStatus::Locked || c.status == ContestStatus::AnswerKeyPosted) && c.answer_key != 0 && 0 < winner_count
                <= c.total_entries),
            old(self).spec_contest(contest_id) is None ==> r == Err::<(), ErrorCode>(
                ErrorCode::InvalidContestId,
            ),
            (old(self).spec_contest(contest_id) matches Some(c) && c.creator != caller) ==> r
                == Err::<(), ErrorCode>(ErrorCode::InvalidOwner),
            (old(self).spec_contest(contest_id) matches Some(c) && c.creator == caller && !(c.status
                == ContestStatus::Locked || c.status == ContestStatus::AnswerKeyPosted)) ==> r
                == Err::<(), ErrorCode>(ErrorCode::ContestNotLocked),
            (old(self).spec_contest(contest_id) matches Some(c) && c.creator == caller && (c.status
                == ContestStatus::Locked || c.status == ContestStatus::AnswerKeyPosted)
                && c.answer_key == 0) ==> r == Err::<(), ErrorCode>(ErrorCode::AnswerKeyNotSet),
            (old(self).spec_contest(contest_id) matches Some(c) && c.creator == caller && (c.status
                == ContestStatus::Locked || c.status == ContestStatus::AnswerKeyPosted)
                && c.answer_key != 0 && !(0 < winner_count
                <= c.total_entries)) ==> r == Err::<(), ErrorCode>(ErrorCode::InvalidWinnerCount),
            r is Err ==> *final(self) == *old(self),
            r is Ok ==> (old(self).spec_contest(contest_id) matches Some(c) && final(self).spec_contest(contest_id) == Some(
                (Contest { payout_root: root, winner_count, ..c }),
            )),
            contests_unchanged_except(*old(self), *final(self), contest_id),
            participants_unchanged(*old(self), *final(self)),
            stakes_unchanged(*old(self), *final(self)),
            balances_unchanged(*old(self), *final(self)),
            final(self).total_supply() == old(self).total_supply(),
    {
        let ghost s0 = self.contests@;
        let i = match self.find_contest_idx(contest_id) {
            Some(i) => i,
            None => {
                proof {
                    lemma_first_keyed_some(s0, contest_key_fn(), contest_id);
                }
                return Err(ErrorCode::InvalidContestId);
            },
        };
        proof {
            lemma_first_keyed_at(s0, contest_key_fn(), i as int);
        }
        let c = self.contests[i];
        if c.creator != caller {
            return Err(ErrorCode::InvalidOwner);
        }
        if !(c.status == ContestStatus::Locked || c.status == ContestStatus::AnswerKeyPosted) {
            return Err(ErrorCode::ContestNotLocked);
        }
        if c.answer_key == 0 {
            return Err(ErrorCode::AnswerKeyNotSet);
        }
        if winner_count == 0 || winner_count > c.total_entries {
            return Err(ErrorCode::InvalidWinnerCount);
        }
        let c1 = Contest { payout_root: root, winner_count, ..c };
        self.contests[i] = c1;
        proof {
            lemma_first_keyed_update(s0, contest_key_fn(), i as int, c1);
        }
        Ok(())
    }

    /// Join an open contest: capture the entry fee into the vault, create
    /// the one participant record for (`contest_id`, `player`), count the
    /// entry, and report the Joined notification.
    pub fn join_contest(&mut self, contest_id: u64, player: AccountId, now: u64) -> (r: Result<
        Joined,
        ErrorCode,
    >)
        requires
            old(self).wf(),
        ensures
            final(self).wf(),
            statuses_forward(*old(self), *final(self)),
            r is Ok <==> (old(self).spec_contest(contest_id) matches Some(c) && c.status
                == ContestStatus::Open && old(self).spec_participant(contest_id, player) is None
                && c.entry_fee <= old(self).balance(CustodyKey::External(player))
                && c.total_entries < u32::MAX),
            old(self).spec_contest(contest_id) is None ==> r == Err::<Joined, ErrorCode>(
                ErrorCode::InvalidContestId,
            ),
            (old(self).spec_contest(contest_id) matches Some(c) && c.status
                != ContestStatus::Open) ==> r == Err::<Joined, ErrorCode>(
                ErrorCode::ContestClosed,
            ),
            (old(self).spec_contest(contest_id) matches Some(c) && c.status == ContestStatus::Open
                && old(self).spec_participant(contest_id, player) is Some) ==> r == Err::<
                Joined,
                ErrorCode,
            >(ErrorCode::AlreadyJoined),
            (old(self).spec_contest(contest_id) matches Some(c) && c.status == ContestStatus::Open
                && old(self).spec_participant(contest_id, player) is None && c.entry_fee > old(
                self,
            ).balance(CustodyKey::External(player))) ==> r == Err::<Joined, ErrorCode>(
                ErrorCode::InsufficientFunds,
            ),
            (old(self).spec_contest(contest_id) matches Some(c) && c.status == ContestStatus::Open
                && old(self).spec_participant(contest_id, player) is None && c.entry_fee <= old(
                self,
            ).balance(CustodyKey::External(player)) && c.total_entries == u32::MAX) ==> r == Err::<
                Joined,
                ErrorCode,
            >(ErrorCode::NumericalOverflow),
            r is Err ==> *final(self) == *old(self),
            r is Ok ==> (old(self).spec_contest(contest_id) matches Some(c) && {
                &&& final(self).spec_contest(contest_id) == Some(
                    (Contest { total_entries: (c.total_entries + 1) as u32, ..c }),
                )
                &&& final(self).spec_participant(contest_id, player) == Some(
                    (Participant { player, attempt_mask: 0u16, answer_bits: 0u16 }),
                )
                &&& final(self).balance(CustodyKey::External(player)) == old(self).balance(
                    CustodyKey::External(player),
                ) - c.entry_fee
                &&& final(self).balance(CustodyKey::ContestVault(contest_id)) == old(self).balance(
                    CustodyKey::ContestVault(contest_id),
                ) + c.entry_fee
                &&& balances_unchanged_except(
                    *old(self),
                    *final(self),
                    CustodyKey::External(player),
                    CustodyKey::ContestVault(contest_id),
                )
                &&& r == Ok::<Joined, ErrorCode>((Joined { contest_id, player, slot: now }))
            }),
            contests_unchanged_except(*old(self), *final(self), contest_id),
            participants_unchanged_except(*old(self), *final(self), contest_id, player),
            stakes_unchanged(*old(self), *final(self)),
            final(self).total_supply() == old(self).total_supply(),
    {
        let ghost s0 = self.contests@;
        let ghost p0 = self.participants@;
        let i = match self.find_contest_idx(contest_id) {
            Some(i) => i,
            None => {
                proof {
                    lemma_first_keyed_some(s0, contest_key_fn(), contest_id);
                }
                return Err(ErrorCode::InvalidContestId);
            },
        };
        proof {
            lemma_first_keyed_at(s0, contest_key_fn(), i as int);
        }
        let c = self.contests[i];
        if c.status != ContestStatus::Open {
            return Err(ErrorCode::ContestClosed);
        }
        if self.find_participant_idx(contest_id, player).is_some() {
            proof {
                let j = choose|j: int|
                    0 <= j < p0.len() && p0[j].0 == contest_id && p0[j].1.player == player;
                lemma_first_keyed_at(p0, participant_key_fn(), j);
            }
            return Err(ErrorCode::AlreadyJoined);
        }
        proof {
            lemma_first_keyed_some(p0, participant_key_fn(), (contest_id, player));
        }
        let bal = self.custody.balance_of(CustodyKey::External(player));
        if bal < c.entry_fee {
            return Err(ErrorCode::InsufficientFunds);
        }
        if c.total_entries == u32::MAX {
            return Err(ErrorCode::NumericalOverflow);
        }
        let tr = self.custody.transfer(
            CustodyKey::External(player),
            CustodyKey::ContestVault(contest_id),
            Authority::Holder(player),
            c.entry_fee,
        );
        match tr {
            Ok(_) => (),
            Err(e) => {
                // The checks above guarantee that this transfer succeeds.
                proof {
                    assert(false);
                }
                return Err(e);
            },
        }
        let p = Participant { player, attempt_mask: 0, answer_bits: 0 };
        self.participants.push((contest_id, p));
        let c1 = Contest { total_entries: c.total_entries + 1, ..c };
        self.contests[i] = c1;
        proof {
            lemma_first_keyed_push(p0, participant_key_fn(), (contest_id, p));
            lemma_first_keyed_update(s0, contest_key_fn(), i as int, c1);
        }
        Ok(Joined { contest_id, player, slot: now })
    }

    /// Overwrite a participant's answer data, creator-gated, targeting a
    /// specified player; idempotent, no history retained.
    ///
    /// Requires the contest still open and the current height below the
    /// lock height, an existing record for the target player, a mask
    /// attempting exactly the required number of questions, and answers
    /// inside the attempted mask.
    pub fn update_answers(
        &mut self,
        caller: AccountId,
        contest_id: u64,
        player: AccountId,
        new_attempt_mask: u16,
        new_answer_bits: u16,
        now: u64,
    ) -> (r: Result<(), ErrorCode>)
        requires
            old(self).wf(),
        ensures
            final(self).wf(),
            statuses_forward(*old(self), *final(self)),
            r is Ok <==> (old(self).spec_contest(contest_id) matches Some(c) && c.creator == caller
                && c.status == ContestStatus::Open && now < c.lock_slot && old(
                self,
            ).spec_participant(contest_id, player) is Some && crate::state::popcount(
                new_attempt_mask as nat,
            ) == crate::state::REQUIRED_ATTEMPTS && crate::state::bits_subset(
                new_answer_bits,
                new_attempt_mask,
            )),
            old(self).spec_contest(contest_id) is None ==> r == Err::<(), ErrorCode>(
                ErrorCode::InvalidContestId,
            ),
            (old(self).spec_contest(contest_id) matches Some(c) && c.creator != caller) ==> r
                == Err::<(), ErrorCode>(ErrorCode::InvalidOwner),
            (old(self).spec_contest(contest_id) matches Some(c) && c.creator == caller && !(
            c.status == ContestStatus::Open && now < c.lock_slot)) ==> r == Err::<(), ErrorCode>(
                ErrorCode::ContestClosed,
            ),
            (old(self).spec_contest(contest_id) matches Some(c) && c.creator == caller && c.status
                == ContestStatus::Open && now < c.lock_slot && old(self).spec_participant(
                contest_id,
                player,
            ) is None) ==> r == Err::<(), ErrorCode>(ErrorCode::InvalidParticipant),
            (old(self).spec_contest(contest_id) matches Some(c) && c.creator == caller && c.status
                == ContestStatus::Open && now < c.lock_slot && old(self).spec_participant(
                contest_id,
                player,
            ) is Some && crate::state::popcount(new_attempt_mask as nat)
                != crate::state::REQUIRED_ATTEMPTS) ==> r == Err::<(), ErrorCode>(
                ErrorCode::InvalidAttemptMask,
            ),
            (old(self).spec_contest(contest_id) matches Some(c) && c.creator == caller && c.status
                == ContestStatus::Open && now < c.lock_slot && old(self).spec_participant(
                contest_id,
                player,
            ) is Some && crate::state::popcount(new_attempt_mask as nat)
                == crate::state::REQUIRED_ATTEMPTS && !crate::state::bits_subset(
                new_answer_bits,
                new_attempt_mask,
            )) ==> r == Err::<(), ErrorCode>(ErrorCode::InvalidAnswerBits),
            r is Err ==> *final(self) == *old(self),
            r is Ok ==> final(self).spec_participant(contest_id, player) == Some(
                (Participant { player, attempt_mask: new_attempt_mask, answer_bits: new_answer_bits
                }),
            ),
            forall|id: u64| final(self).spec_contest(id) == old(self).spec_contest(id),
            participants_unchanged_except(*old(self), *final(self), contest_id, player),
            stakes_unchanged(*old(self), *final(self)),
            balances_unchanged(*old(self), *final(self)),
            final(self).total_supply() == old(self).total_supply(),
    {
        let ghost s0 = self.contests@;
        let ghost p0 = self.participants@;
        let i = match self.find_contest_idx(contest_id) {
            Some(i) => i,
            None => {
                proof {
                    lemma_first_keyed_some(s0, contest_key_fn(), contest_id);
                }
                return Err(ErrorCode::InvalidContestId);
            },
        };
        proof {
            lemma_first_keyed_at(s0, contest_key_fn(), i as int);
        }
        let c = self.contests[i];
        if c.creator != caller {
            return Err(ErrorCode::InvalidOwner);
        }
        if c.status != ContestStatus::Open || now >= c.lock_slot {
            return Err(ErrorCode::ContestClosed);
        }
        let j = match self.find_participant_idx(contest_id, player) {
            Some(j) => j,
            None => {
                proof {
                    lemma_first_keyed_some(p0, participant_key_fn(), (contest_id, player));
                }
                return Err(ErrorCode::InvalidParticipant);
            },
        };
        proof {
            lemma_first_keyed_at(p0, participant_key_fn(), j as int);
        }
        if crate::state::count_bits16(new_attempt_mask) != crate::state::REQUIRED_ATTEMPTS {
            return Err(ErrorCode::InvalidAttemptMask);
        }
        if new_answer_bits != new_answer_bits & new_attempt_mask {
            return Err(ErrorCode::InvalidAnswerBits);
        }
        let p = Participant { player, attempt_mask: new_attempt_mask, answer_bits: new_answer_bits };
        self.participants[j] = (contest_id, p);
        proof {
            lemma_first_keyed_update(p0, participant_key_fn(), j as int, (contest_id, p));
        }
        Ok(())
    }

    /// Deposit `amount` into the stake vault, creating the staker's account
    /// on first use.
    ///
    /// The lock window restarts at `now` for the entire accumulated
    /// balance, not just the increment.
    pub fn stake_tokens(&mut self, staker: AccountId, amount: u64, now: u64) -> (r: Result<
        (),
        ErrorCode,
    >)
        requires
            old(self).wf(),
        ensures
            final(self).wf(),
            statuses_forward(*old(self), *final(self)),
            r is Ok <==> (amount <= old(self).balance(CustodyKey::External(staker))
                && spec_stake_amount(old(self).spec_stake(staker)) + amount <= u64::MAX),
            amount > old(self).balance(CustodyKey::External(staker)) ==> r == Err::<(), ErrorCode>(
                ErrorCode::InsufficientFunds,
            ),
            (amount <= old(self).balance(CustodyKey::External(staker)) && spec_stake_amount(
                old(self).spec_stake(staker),
            ) + amount > u64::MAX) ==> r == Err::<(), ErrorCode>(ErrorCode::NumericalOverflow),
            r is Err ==> *final(self) == *old(self),
            r is Ok ==> {
                &&& final(self).spec_stake(staker) == Some(
                    (StakeAccount {
                        owner: staker,
                        amount: (spec_stake_amount(old(self).spec_stake(staker)) + amount) as u64,
                        start_slot: now,
                    }),
                )
                &&& final(self).balance(CustodyKey::External(staker)) == old(self).balance(
                    CustodyKey::External(staker),
                ) - amount
                &&& final(self).balance(CustodyKey::StakeVault) == old(self).balance(
                    CustodyKey::StakeVault,
                ) + amount
                &&& balances_unchanged_except(
                    *old(self),
                    *final(self),
                    CustodyKey::External(staker),
                    CustodyKey::StakeVault,
                )
            },
            forall|id: u64| final(self).spec_contest(id) == old(self).spec_contest(id),
            participants_unchanged(*old(self), *final(self)),
            stakes_unchanged_except(*old(self), *final(self), staker),
            final(self).total_supply() == old(self).total_supply(),
    {
        let ghost t0 = self.stakes@;
        let j_opt = self.find_stake_idx(staker);
        proof {
            if j_opt is Some {
                lemma_first_keyed_at(t0, stake_key_fn(), j_opt->0 as int);
            } else {
                lemma_first_keyed_some(t0, stake_key_fn(), staker);
            }
        }
        let stored: u64 = match j_opt {
            Some(j) => self.stakes[j].amount,
            None => 0,
        };
        let bal = self.custody.balance_of(CustodyKey::External(staker));
        if bal < amount {
            return Err(ErrorCode::InsufficientFunds);
        }
        let new_amount = match stored.checked_add(amount) {
            Some(a) => a,
            None => {
                return Err(ErrorCode::NumericalOverflow);
            },
        };
        let tr = self.custody.transfer(
            CustodyKey::External(staker),
            CustodyKey::StakeVault,
            Authority::Holder(staker),
            amount,
        );
        match tr {
            Ok(_) => (),
            Err(e) => {
                // The checks above guarantee that this transfer succeeds.
                proof {
                    assert(false);
                }
                return Err(e);
            },
        }
        let acct = StakeAccount { owner: staker, amount: new_amount, start_slot: now };
        match j_opt {
            Some(j) => {
                self.stakes[j] = acct;
                proof {
                    lemma_first_keyed_update(t0, stake_key_fn(), j as int, acct);
                    lemma_sum_by_update(t0, stake_amt_fn(), j as int, acct);
                }
            },
            None => {
                self.stakes.push(acct);
                proof {
                    lemma_first_keyed_push(t0, stake_key_fn(), acct);
                    lemma_sum_by_push(t0, stake_amt_fn(), acct);
                }
            },
        }
        Ok(())
    }

    /// Withdraw `amount` from the stake vault after the lock window has
    /// elapsed; the lock anchor resets to zero when the balance reaches
    /// zero.
    pub fn unstake_tokens(&mut self, staker: AccountId, amount: u64, now: u64) -> (r: Result<
        (),
        ErrorCode,
    >)
        requires
            old(self).wf(),
        ensures
            final(self).wf(),
            statuses_forward(*old(self), *final(self)),
            r is Ok <==> (old(self).spec_stake(staker) matches Some(a) && a.start_slot
                + crate::state::LOCK_PERIOD_SLOTS <= u64::MAX && now >= a.start_slot
                + crate::state::LOCK_PERIOD_SLOTS && 0 < amount <= a.amount),
            old(self).spec_stake(staker) is None ==> r == Err::<(), ErrorCode>(
                ErrorCode::InvalidUnstakeAmount,
            ),
            (old(self).spec_stake(staker) matches Some(a) && a.start_slot
                + crate::state::LOCK_PERIOD_SLOTS > u64::MAX) ==> r == Err::<(), ErrorCode>(
                ErrorCode::NumericalOverflow,
            ),
            (old(self).spec_stake(staker) matches Some(a) && a.start_slot
                + crate::state::LOCK_PERIOD_SLOTS <= u64::MAX && now < a.start_slot
                + crate::state::LOCK_PERIOD_SLOTS) ==> r == Err::<(), ErrorCode>(
                ErrorCode::StakeLocked,
            ),
            (old(self).spec_stake(staker) matches Some(a) && a.start_slot
                + crate::state::LOCK_PERIOD_SLOTS <= u64::MAX && now >= a.start_slot
                + crate::state::LOCK_PERIOD_SLOTS && !(0 < amount <= a.amount)) ==> r == Err::<
                (),
                ErrorCode,
            >(ErrorCode::InvalidUnstakeAmount),
            r is Err ==> *final(self) == *old(self),
            r is Ok ==> (old(self).spec_stake(staker) matches Some(a) && {
                &&& final(self).spec_stake(staker) == Some(
                    (StakeAccount {
                        owner: staker,
                        amount: (a.amount - amount) as u64,
                        start_slot: if a.amount == amount {
                            0u64
                        } else {
                            a.start_slot
                        },
                    }),
                )
                &&& final(self).balance(CustodyKey::External(staker)) == old(self).balance(
                    CustodyKey::External(staker),
                ) + amount
                &&& final(self).balance(CustodyKey::StakeVault) == old(self).balance(
                    CustodyKey::StakeVault,
                ) - amount
                &&& balances_unchanged_except(
                    *old(self),
                    *final(self),
                    CustodyKey::External(staker),
                    CustodyKey::StakeVault,
                )
            }),
            forall|id: u64| final(self).spec_contest(id) == old(self).spec_contest(id),
            participants_unchanged(*old(self), *final(self)),
            stakes_unchanged_except(*old(self), *final(self), staker),
            final(self).total_supply() == old(self).total_supply(),
    {
        let ghost t0 = self.stakes@;
        let j = match self.find_stake_idx(staker) {
            Some(j) => j,
            None => {
                proof {
                    lemma_first_keyed_some(t0, stake_key_fn(), staker);
                }
                return Err(ErrorCode::InvalidUnstakeAmount);
            },
        };
        proof {
            lemma_first_keyed_at(t0, stake_key_fn(), j as int);
        }
        let a = self.stakes[j];
        let unlock = match a.start_slot.checked_add(crate::state::LOCK_PERIOD_SLOTS) {
            Some(u) => u,
            None => {
                return Err(ErrorCode::NumericalOverflow);
            },
        };
        if now < unlock {
            return Err(ErrorCode::StakeLocked);
        }
        if amount == 0 || amount > a.amount {
            return Err(ErrorCode::InvalidUnstakeAmount);
        }
        proof {
            assert(forall|m: int| 0 <= m < t0.len() ==> stake_amt_fn()(t0[m]) >= 0);
            lemma_sum_by_elem(t0, stake_amt_fn(), j as int);
        }
        let tr = self.custody.transfer(
            CustodyKey::StakeVault,
            CustodyKey::External(staker),
            Authority::StakeAuthority,
            amount,
        );
        match tr {
            Ok(_) => (),
            Err(e) => {
                // The checks above guarantee that this transfer succeeds.
                proof {
                    assert(false);
                }
                return Err(e);
            },
        }
        let remaining = a.amount - amount;
        let acct = StakeAccount {
            owner: staker,
            amount: remaining,
            start_slot: if remaining == 0 {
                0
            } else {
                a.start_slot
            },
        };
        self.stakes[j] = acct;
        proof {
            lemma_first_keyed_update(t0, stake_key_fn(), j as int, acct);
            lemma_sum_by_update(t0, stake_amt_fn(), j as int, acct);
        }
        Ok(())
    }

    /// Reclaim the whole remaining vault balance to the creator after the
    /// contest has reached a terminal status; all-or-nothing.
    pub fn sweep_fees(&mut self, caller: AccountId, contest_id: u64) -> (r: Result<(), ErrorCode>)
        requires
            old(self).wf(),
        ensures
            final(self).wf(),
            statuses_forward(*old(self), *final(self)),
            r is Ok <==> (old(self).spec_contest(contest_id) matches Some(c) && c.creator == caller
                && crate::state::is_terminal(c.status) && old(self).balance(
                CustodyKey::ContestVault(contest_id),
            ) > 0),
            old(self).spec_contest(contest_id) is None ==> r == Err::<(), ErrorCode>(
                ErrorCode::InvalidContestId,
            ),
            (old(self).spec_contest(contest_id) matches Some(c) && c.creator != caller) ==> r
                == Err::<(), ErrorCode>(ErrorCode::InvalidOwner),
            (old(self).spec_contest(contest_id) matches Some(c) && c.creator == caller
                && !crate::state::is_terminal(c.status)) ==> r == Err::<(), ErrorCode>(
                ErrorCode::ContestNotCompleted,
            ),
            (old(self).spec_contest(contest_id) matches Some(c) && c.creator == caller
                && crate::state::is_terminal(c.status) && old(self).balance(
                CustodyKey::ContestVault(contest_id),
            ) == 0) ==> r == Err::<(), ErrorCode>(ErrorCode::NothingToSweep),
            r is Err ==> *final(self) == *old(self),
            r is Ok ==> {
                &&& final(self).balance(CustodyKey::ContestVault(contest_id)) == 0
                &&& final(self).balance(CustodyKey::External(caller)) == old(self).balance(
                    CustodyKey::External(caller),
                ) + old(self).balance(CustodyKey::ContestVault(contest_id))
                &&& balances_unchanged_except(
                    *old(self),
                    *final(self),
                    CustodyKey::ContestVault(contest_id),
                    CustodyKey::External(caller),
                )
            },
            forall|id: u64| final(self).spec_contest(id) == old(self).spec_contest(id),
            participants_unchanged(*old(self), *final(self)),
            stakes_unchanged(*old(self), *final(self)),
            final(self).total_supply() == old(self).total_supply(),
    {
        let ghost s0 = self.contests@;
        let i = match self.find_contest_idx(contest_id) {
            Some(i) => i,
            None => {
                proof {
                    lemma_first_keyed_some(s0, contest_key_fn(), contest_id);
                }
                return Err(ErrorCode::InvalidContestId);
            },
        };
        proof {
            lemma_first_keyed_at(s0, contest_key_fn(), i as int);
        }
        let c = self.contests[i];
        if c.creator != caller {
            return Err(ErrorCode::InvalidOwner);
        }
        if !(c.status == ContestStatus::Settled || c.status == ContestStatus::Cancelled) {
            return Err(ErrorCode::ContestNotCompleted);
        }
        let balance = self.custody.balance_of(CustodyKey::ContestVault(contest_id));
        if balance == 0 {
            return Err(ErrorCode::NothingToSweep);
        }
        let tr = self.custody.transfer(
            CustodyKey::ContestVault(contest_id),
            CustodyKey::External(caller),
            Authority::VaultAuthority(contest_id),
            balance,
        );
        match tr {
            Ok(_) => (),
            Err(e) => {
                // The checks above guarantee that this transfer succeeds.
                proof {
                    assert(false);
                }
                return Err(e);
            },
        }
        Ok(())
    }
}

/// The stored amount of a stake account, or zero where none exists yet.
pub open spec fn spec_stake_amount(a: Option<StakeAccount>) -> int {
    match a {
        Some(s) => s.amount as int,
        None => 0,
    }
}

/// One payout of a settlement batch: the winner, the claimed address of the
/// winner's participant record, the amount, and the receiving account.
#[derive(Clone, Copy, Debug)]
pub struct PayoutEntry {
    pub winner: AccountId,
    pub participant_ref: [u8; 32],
    pub amount: u64,
    pub payout_account: AccountId,
}

pub open spec fn batch_amt_fn() -> spec_fn(PayoutEntry) -> int {
    |e: PayoutEntry| e.amount as int
}

pub open spec fn paid_fn(a: AccountId) -> spec_fn(PayoutEntry) -> int {
    |e: PayoutEntry|
        if e.payout_account == a {
            e.amount as int
        } else {
            0
        }
}

/// The sum of all amounts of a batch.
pub open spec fn batch_sum(es: Seq<PayoutEntry>) -> int {
    sum_by(es, batch_amt_fn())
}

/// The sum of the amounts a batch directs to the account `a`.
pub open spec fn paid_to(es: Seq<PayoutEntry>, a: AccountId) -> int {
    sum_by(es, paid_fn(a))
}

impl Spotwin {
    /// The winner of `e` holds a participant record for `contest_id`, and
    /// the claimed record address equals the one recomputed from the
    /// deterministic derivation.
    pub open spec fn entry_valid(self, contest_id: u64, e: PayoutEntry) -> bool {
        &&& self.spec_participant(contest_id, e.winner) is Some
        &&& (spec_pda(participant_seeds(contest_id, e.winner)) matches Some(q)
            && e.participant_ref@ == q.0)
    }

    /// Check every entry of the batch against the participant store and the
    /// recomputed deterministic addresses.
    fn validate_entries(&self, contest_id: u64, entries: &Vec<PayoutEntry>) -> (ok: bool)
        requires
            self.wf(),
        ensures
            ok == (forall|m: int|
                0 <= m < entries@.len() ==> self.entry_valid(contest_id, entries@[m])),
    {
        let ghost p0 = self.participants@;
        let n = entries.len();
        for j in 0..n
            invariant
                self.wf(),
                n == entries@.len(),
                p0 == self.participants@,
                forall|m: int| 0 <= m < j ==> self.entry_valid(contest_id, entries@[m]),
        {
            let e = entries[j];
            match self.find_participant_idx(contest_id, e.winner) {
                Some(m) => {
                    proof {
                        lemma_first_keyed_at(p0, participant_key_fn(), m as int);
                    }
                },
                None => {
                    proof {
                        lemma_first_keyed_some(p0, participant_key_fn(), (contest_id, e.winner));
                        assert(!self.entry_valid(contest_id, entries@[j as int]));
                    }
                    return false;
                },
            }
            match participant_record_address(contest_id, e.winner) {
                Some(p) => {
                    if !bytes32_eq(&p.0, &e.participant_ref) {
                        proof {
                            assert(!self.entry_valid(contest_id, entries@[j as int]));
                        }
                        return false;
                    }
                },
                None => {
                    proof {
                        assert(!self.entry_valid(contest_id, entries@[j as int]));
                    }
                    return false;
                },
            }
        }
        true
    }

    /// Batch settlement: verify each winner's participant record address
    /// against the recomputed deterministic address, move each amount from
    /// the vault to its receiving account, and accumulate the paid total —
    /// all as one atomic unit.
    #[verifier::loop_isolation(false)]
    pub fn send_batch(&mut self, caller: AccountId, contest_id: u64, entries: Vec<PayoutEntry>) -> (
        r: Result<(), ErrorCode>)
        requires
            old(self).wf(),
        ensures
            final(self).wf(),
            statuses_forward(*old(self), *final(self)),
            r is Ok <==> (old(self).spec_contest(contest_id) matches Some(c) && c.creator == caller
                && c.status == ContestStatus::AnswerKeyPosted && c.answer_key != 0
                && entries@.len() > 0 && (forall|m: int|
                0 <= m < entries@.len() ==> old(self).entry_valid(contest_id, entries@[m]))
                && batch_sum(entries@) <= old(self).balance(CustodyKey::ContestVault(contest_id))
                && c.paid_so_far + batch_sum(entries@) <= u64::MAX),
            old(self).spec_contest(contest_id) is None ==> r == Err::<(), ErrorCode>(
                ErrorCode::InvalidContestId,
            ),
            (old(self).spec_contest(contest_id) matches Some(c) && c.creator != caller) ==> r
                == Err::<(), ErrorCode>(ErrorCode::InvalidOwner),
            (old(self).spec_contest(contest_id) matches Some(c) && c.creator == caller && c.status
                != ContestStatus::AnswerKeyPosted) ==> r == Err::<(), ErrorCode>(
                ErrorCode::ContestNotAnswerKeyPosted,
            ),
            (old(self).spec_contest(contest_id) matches Some(c) && c.creator == caller && c.status
                == ContestStatus::AnswerKeyPosted && c.answer_key == 0) ==> r == Err::<
                (),
                ErrorCode,
            >(ErrorCode::AnswerKeyNotSet),
            (old(self).spec_contest(contest_id) matches Some(c) && c.creator == caller && c.status
                == ContestStatus::AnswerKeyPosted && c.answer_key != 0 && entries@.len() == 0) ==> r
                == Err::<(), ErrorCode>(ErrorCode::EmptyBatch),
            (old(self).spec_contest(contest_id) matches Some(c) && c.creator == caller && c.status
                == ContestStatus::AnswerKeyPosted && c.answer_key != 0 && entries@.len() > 0 && !(
            forall|m: int| 0 <= m < entries@.len() ==> old(self).entry_valid(contest_id, entries@[m]))) ==> r
                == Err::<(), ErrorCode>(ErrorCode::InvalidParticipant),
            (old(self).spec_contest(contest_id) matches Some(c) && c.creator == caller && c.status
                == ContestStatus::AnswerKeyPosted && c.answer_key != 0 && entries@.len() > 0 && (
            forall|m: int| 0 <= m < entries@.len() ==> old(self).entry_valid(contest_id, entries@[m]))
                && batch_sum(entries@) > old(self).balance(
                CustodyKey::ContestVault(contest_id),
            )) ==> r == Err::<(), ErrorCode>(ErrorCode::InsufficientFunds),
            (old(self).spec_contest(contest_id) matches Some(c) && c.creator == caller && c.status
                == ContestStatus::AnswerKeyPosted && c.answer_key != 0 && entries@.len() > 0 && (
            forall|m: int| 0 <= m < entries@.len() ==> old(self).entry_valid(contest_id, entries@[m]))
                && batch_sum(entries@) <= old(self).balance(CustodyKey::ContestVault(contest_id))
                && c.paid_so_far + batch_sum(entries@) > u64::MAX) ==> r == Err::<(), ErrorCode>(
                ErrorCode::NumericalOverflow,
            ),
            r is Err ==> *final(self) == *old(self),
            r is Ok ==> (old(self).spec_contest(contest_id) matches Some(c) && {
                &&& final(self).spec_contest(contest_id) == Some(
                    (Contest { paid_so_far: (c.paid_so_far + batch_sum(entries@)) as u64, ..c }),
                )
                &&& final(self).balance(CustodyKey::ContestVault(contest_id)) == old(self).balance(
                    CustodyKey::ContestVault(contest_id),
                ) - batch_sum(entries@)
                &&& forall|a: AccountId|
                    final(self).balance(CustodyKey::External(a)) == old(self).balance(
                        CustodyKey::External(a),
                    ) + paid_to(entries@, a)
                &&& forall|k: CustodyKey|
                    !(k is External) && k != CustodyKey::ContestVault(contest_id) ==> final(self).balance(k) == old(self).balance(k)
            }),
            contests_unchanged_except(*old(self), *final(self), contest_id),
            participants_unchanged(*old(self), *final(self)),
            stakes_unchanged(*old(self), *final(self)),
            final(self).total_supply() == old(self).total_supply(),
    {
        let ghost s0 = self.contests@;
        let i = match self.find_contest_idx(contest_id) {
            Some(i) => i,
            None => {
                proof {
                    lemma_first_keyed_some(s0, contest_key_fn(), contest_id);
                }
                return Err(ErrorCode::InvalidContestId);
            },
        };
        proof {
            lemma_first_keyed_at(s0, contest_key_fn(), i as int);
        }
        let c = self.contests[i];
        if c.creator != caller {
            return Err(ErrorCode::InvalidOwner);
        }
        if c.status != ContestStatus::AnswerKeyPosted {
            return Err(ErrorCode::ContestNotAnswerKeyPosted);
        }
        if c.answer_key == 0 {
            return Err(ErrorCode::AnswerKeyNotSet);
        }
        let n = entries.len();
        if n == 0 {
            return Err(ErrorCode::EmptyBatch);
        }
        if !self.validate_entries(contest_id, &entries) {
            return Err(ErrorCode::InvalidParticipant);
        }
        let vault_bal = self.custody.balance_of(CustodyKey::ContestVault(contest_id));
        proof {
            assert(forall|m: int| 0 <= m < entries@.len() ==> batch_amt_fn()(entries@[m]) >= 0);
        }
        let mut total: u64 = 0;
        for j in 0..n
            invariant
                n == entries@.len(),
                total == batch_sum(entries@.take(j as int)),
                batch_sum(entries@.take(j as int)) <= vault_bal <= u64::MAX,
                forall|m: int| 0 <= m < entries@.len() ==> batch_amt_fn()(entries@[m]) >= 0,
        {
            proof {
                lemma_sum_by_take_step(entries@, batch_amt_fn(), j as int);
            }
            let next = match total.checked_add(entries[j].amount) {
                Some(a) => a,
                None => {
                    proof {
                        lemma_sum_by_take_le(entries@, batch_amt_fn(), j + 1);
                    }
                    return Err(ErrorCode::InsufficientFunds);
                },
            };
            if next > vault_bal {
                proof {
                    lemma_sum_by_take_le(entries@, batch_amt_fn(), j + 1);
                }
                return Err(ErrorCode::InsufficientFunds);
            }
            total = next;
        }
        proof {
            assert(entries@.take(n as int) =~= entries@);
        }
        let new_paid = match c.paid_so_far.checked_add(total) {
            Some(p) => p,
            None => {
                return Err(ErrorCode::NumericalOverflow);
            },
        };
        // Every check has passed: issue the transfers.
        let ghost vbal0 = self.custody.balance(CustodyKey::ContestVault(contest_id));
        let ghost led0 = self.custody;
        for j in 0..n
            invariant
                n == entries@.len(),
                self.contests@ == old(self).contests@,
                self.participants@ == old(self).participants@,
                self.stakes@ == old(self).stakes@,
                self.custody.wf(),
                self.custody.total_supply() == led0.total_supply(),
                batch_sum(entries@) <= vbal0,
                forall|m: int| 0 <= m < entries@.len() ==> batch_amt_fn()(entries@[m]) >= 0,
                self.custody.balance(CustodyKey::ContestVault(contest_id)) == vbal0 - batch_sum(
                    entries@.take(j as int),
                ),
                forall|a: AccountId|
                    self.custody.balance(CustodyKey::External(a)) == led0.balance(
                        CustodyKey::External(a),
                    ) + paid_to(entries@.take(j as int), a),
                forall|k: CustodyKey|
                    !(k is External) && k != CustodyKey::ContestVault(contest_id)
                        ==> self.custody.balance(k) == led0.balance(k),
        {
            let e = entries[j];
            proof {
                lemma_sum_by_take_step(entries@, batch_amt_fn(), j as int);
                lemma_sum_by_take_le(entries@, batch_amt_fn(), j + 1);
            }
            let tr = self.custody.transfer(
                CustodyKey::ContestVault(contest_id),
                CustodyKey::External(e.payout_account),
                Authority::VaultAuthority(contest_id),
                e.amount,
            );
            match tr {
                Ok(_) => (),
                Err(_) => {
                    // The checks before the loop guarantee every transfer
                    // of the batch succeeds.
                    proof {
                        assert(false);
                    }
                    return Err(ErrorCode::InsufficientFunds);
                },
            }
            proof {
                assert forall|a: AccountId|
                    self.custody.balance(CustodyKey::External(a)) == led0.balance(
                        CustodyKey::External(a),
                    ) + paid_to(entries@.take(j + 1), a) by {
                    lemma_sum_by_take_step(entries@, paid_fn(a), j as int);
                }
            }
        }
        proof {
            assert(entries@.take(n as int) =~= entries@);
            assert forall|a: AccountId|
                self.custody.balance(CustodyKey::External(a)) == led0.balance(
                    CustodyKey::External(a),
                ) + paid_to(entries@, a) by {
                assert(paid_to(entries@.take(n as int), a) == paid_to(entries@, a));
            }
        }
        let c1 = Contest { paid_so_far: new_paid, ..c };
        self.contests[i] = c1;
        proof {
            lemma_first_keyed_update(s0, contest_key_fn(), i as int, c1);
        }
        Ok(())
    }

    /// Contest record of `contest_id`, if created.
    pub fn contest(&self, contest_id: u64) -> (r: Option<Contest>)
        requires
            self.wf(),
        ensures
            r == self.spec_contest(contest_id),
    {
        match self.find_contest_idx(contest_id) {
            Some(i) => {
                proof {
                    lemma_first_keyed_at(self.contests@, contest_key_fn(), i as int);
                }
                Some(self.contests[i])
            },
            None => {
                proof {
                    lemma_first_keyed_some(self.contests@, contest_key_fn(), contest_id);
                }
                None
            },
        }
    }

    /// Participant record of (`contest_id`, `player`), if created.
    pub fn participant(&self, contest_id: u64, player: AccountId) -> (r: Option<Participant>)
        requires
            self.wf(),
        ensures
            r == self.spec_participant(contest_id, player),
    {
        match self.find_participant_idx(contest_id, player) {
            Some(i) => {
                proof {
                    lemma_first_keyed_at(self.participants@, participant_key_fn(), i as int);
                }
                Some(self.participants[i].1)
            },
            None => {
                proof {
                    lemma_first_keyed_some(
                        self.participants@,
                        participant_key_fn(),
                        (contest_id, player),
                    );
                }
                None
            },
        }
    }

    /// Stake account of `owner`, if created.
    pub fn stake_account(&self, owner: AccountId) -> (r: Option<StakeAccount>)
        requires
            self.wf(),
        ensures
            r == self.spec_stake(owner),
    {
        match self.find_stake_idx(owner) {
            Some(i) => {
                proof {
                    lemma_first_keyed_at(self.stakes@, stake_key_fn(), i as int);
                }
                Some(self.stakes[i])
            },
            None => {
                proof {
                    lemma_first_keyed_some(self.stakes@, stake_key_fn(), owner);
                }
                None
            },
        }
    }

    /// The balance held in custody by `k`.
    pub fn balance_of(&self, k: CustodyKey) -> (b: u64)
        requires
            self.wf(),
        ensures
            b == self.balance(k),
    {
        self.custody.balance_of(k)
    }
}

/// The sum of a sequence of batch sums.
pub open spec fn seq_total(s: Seq<int>) -> int {
    sum_by(s, |x: int| x)
}

/// After any number of successful settlement batches, the paid total equals
/// the starting total plus the exact sum of every batch's sum: `paids` is
/// the trace of `paid_so_far` around N calls, and each successful call adds
/// exactly its batch sum, as `send_batch` ensures.
pub proof fn lemma_paid_accumulates(paids: Seq<int>, sums: Seq<int>)
    requires
        paids.len() == sums.len() + 1,
        forall|i: int| 0 <= i < sums.len() ==> paids[i + 1] == paids[i] + sums[i],
    ensures
        paids[paids.len() - 1] == paids[0] + seq_total(sums),
    decreases sums.len(),
{
    if sums.len() == 0 {
    } else {
        let p1 = paids.drop_first();
        let s1 = sums.drop_first();
        assert(p1[0] == paids[0] + sums[0]);
        assert forall|i: int| 0 <= i < s1.len() implies p1[i + 1] == p1[i] + s1[i] by {
            assert(p1[i + 1] == paids[i + 2]);
            assert(p1[i] == paids[i + 1]);
            assert(s1[i] == sums[i + 1]);
        }
        lemma_paid_accumulates(p1, s1);
        assert(seq_total(sums) == sums[0] + seq_total(s1));
    }
}

} // verus!
