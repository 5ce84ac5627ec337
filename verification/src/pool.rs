//! The pool state machine: one persistent record per lottery, appended to by
//! `join_lottery` and consumed and reset by `pick_winner`.

use vstd::prelude::*;

use crate::entropy::seed_of;
use crate::entropy::selection_index;
use crate::entropy::select_index;
use crate::entropy::derive_seed;

verus! {

/// A 256-bit account identity, carried as four 64-bit words.
#[derive(Clone, Copy, PartialEq, Eq, Structural, Debug)]
pub struct Identity {
    pub w0: u64,
    pub w1: u64,
    pub w2: u64,
    pub w3: u64,
}

/// Why an operation on the pool was rejected. Every rejection leaves the
/// pool record exactly as it was.
#[derive(Clone, Copy, PartialEq, Eq, Structural, Debug)]
pub enum PoolError {
    /// A pool record already exists at the target address.
    AlreadyInitialized,
    /// The entry amount is zero or a share percentage exceeds 100.
    InvalidConfig,
    /// The deposit does not equal the pool's fixed entry amount.
    WrongAmount,
    /// The identity already holds a place in the current round.
    DuplicateParticipant,
    /// A draw was requested while no participant is present.
    NoParticipants,
    /// The caller is not the operator configured at creation.
    Unauthorized,
    /// The custodied balance cannot cover both computed payouts.
    InsufficientPoolBalance,
    /// The candidate winner account does not match the selected identity.
    WinnerMismatch,
}

/// What a successful draw pays out and to whom.
#[derive(Clone, Copy, PartialEq, Eq, Structural, Debug)]
pub struct DrawOutcome {
    /// The selected participant.
    pub winner: Identity,
    /// The winner's share of the accumulated pool, truncated.
    pub winner_prize: u64,
    /// The operator's share of the accumulated pool, truncated.
    pub owner_prize: u64,
}

/// The persistent lottery record.
pub struct Pool {
    /// The identity authorized to trigger draws, paid the owner share.
    pub operator: Identity,
    /// The fixed deposit each participant must make, immutable after creation.
    pub entry_amount: u64,
    /// Percentage of the accumulated pool paid to the winner, in [0, 100].
    pub winner_share_percent: u8,
    /// Percentage of the accumulated pool paid to the operator, in [0, 100].
    pub owner_share_percent: u8,
    /// Total deposited since the last draw (or since creation).
    pub accumulated_amount: u64,
    /// Unique participant identities in insertion order.
    pub participants: Vec<Identity>,
    /// The most recently selected winner, absent before the first draw.
    pub last_winner: Option<Identity>,
}

impl Pool {
    /// The pool's invariant: the configuration is within bounds, no identity
    /// appears twice, and the accumulated amount is exactly the entry amount
    /// times the participant count.
    pub open spec fn wf(&self) -> bool {
        &&& self.entry_amount > 0
        &&& self.winner_share_percent <= 100
        &&& self.owner_share_percent <= 100
        &&& self.participants@.no_duplicates()
        &&& self.accumulated_amount == self.entry_amount * self.participants@.len()
    }

    /// Whether `other` keeps this pool's creation-time configuration:
    /// operator, entry amount and both share percentages.
    pub open spec fn same_config(&self, other: &Pool) -> bool {
        &&& other.operator == self.operator
        &&& other.entry_amount == self.entry_amount
        &&& other.winner_share_percent == self.winner_share_percent
        &&& other.owner_share_percent == self.owner_share_percent
    }

    /// The participant a draw with these entropy inputs selects.
    pub open spec fn selected_winner(&self, entropy: u64, timestamp: i64) -> Identity
        recommends
            self.participants@.len() > 0,
    {
        self.participants@[selection_index(
            seed_of(entropy, timestamp),
            self.participants@.len() as int,
        )]
    }

    /// Tests the pool invariant executably, so that an unverified caller
    /// holding a deserialized record can establish it before handing the
    /// record to the operations that require it.
    pub fn is_well_formed(&self) -> (r: bool)
        ensures
            r == self.wf(),
    {
        if self.entry_amount == 0 {
            return false;
        }
        if self.winner_share_percent > 100 || self.owner_share_percent > 100 {
            return false;
        }
        let mut i: usize = 0;
        while i < self.participants.len()
            invariant
                i <= self.participants@.len(),
                forall|k: int, l: int|
                    0 <= k < l < i ==> self.participants@[k] != self.participants@[l],
            decreases self.participants@.len() - i,
        {
            let mut j: usize = 0;
            while j < i
                invariant
                    j <= i < self.participants@.len(),
                    forall|k: int, l: int|
                        0 <= k < l < i ==> self.participants@[k] != self.participants@[l],
                    forall|k: int| 0 <= k < j ==> self.participants@[k] != self.participants@[
                        i as int
                    ],
                decreases i - j,
            {
                if self.participants[j] == self.participants[i] {
                    proof {
                        assert(self.participants@[j as int] == self.participants@[i as int]);
                    }
                    return false;
                }
                j = j + 1;
            }
            i = i + 1;
        }
        proof {
            assert(self.participants@.no_duplicates());
        }
        proof {
            let e = self.entry_amount as int;
            let n = self.participants@.len() as int;
            assert(e * n <= 0xFFFF_FFFF_FFFF_FFFF * 0xFFFF_FFFF_FFFF_FFFF) by (nonlinear_arith)
                requires
                    0 <= e <= 0xFFFF_FFFF_FFFF_FFFF,
                    0 <= n <= 0xFFFF_FFFF_FFFF_FFFF,
            ;
        }
        let wide: u128 = (self.entry_amount as u128) * (self.participants.len() as u128);
        (self.accumulated_amount as u128) == wide
    }

    /// The winner's payout: the accumulated amount times the winner share,
    /// divided by 100 and truncated.
    pub open spec fn winner_payout(&self) -> int {
        self.accumulated_amount * self.winner_share_percent / 100
    }

    /// The operator's payout: the accumulated amount times the owner share,
    /// divided by 100 and truncated.
    pub open spec fn owner_payout(&self) -> int {
        self.accumulated_amount * self.owner_share_percent / 100
    }
}

/// Whether `id` already holds a place among `v`.
pub fn contains_identity(v: &Vec<Identity>, id: Identity) -> (r: bool)
    ensures
        r == v@.contains(id),
{
    let mut i: usize = 0;
    while i < v.len()
        invariant
            i <= v@.len(),
            forall|j: int| 0 <= j < i ==> v@[j] != id,
        decreases v@.len() - i,
    {
        if v[i] == id {
            proof {
                assert(v@[i as int] == id);
            }
            return true;
        }
        i = i + 1;
    }
    proof {
        assert(forall|j: int| 0 <= j < v@.len() ==> v@[j] != id);
    }
    false
}

/// Creates the pool record.
///
/// `record_exists` is what the host reports of the target address: when a
/// record is already there the operation is rejected, and it is rejected as
/// well when the entry amount is zero or a share percentage exceeds 100.
/// Otherwise the new pool carries the given configuration, no participants,
/// nothing accumulated, and no winner yet.
pub fn new_lottery(
    record_exists: bool,
    operator: Identity,
    entry_amount: u64,
    winner_share_percent: u8,
    owner_share_percent: u8,
) -> (r: Result<Pool, PoolError>)
    ensures
        record_exists ==> r == Err::<Pool, PoolError>(PoolError::AlreadyInitialized),
        !record_exists && !(entry_amount > 0 && winner_share_percent <= 100
            && owner_share_percent <= 100) ==> r == Err::<Pool, PoolError>(
            PoolError::InvalidConfig,
        ),
        !record_exists && entry_amount > 0 && winner_share_percent <= 100
            && owner_share_percent <= 100 ==> (r matches Ok(p) && p.operator == operator
            && p.entry_amount == entry_amount && p.winner_share_percent == winner_share_percent
            && p.owner_share_percent == owner_share_percent && p.accumulated_amount == 0
            && p.participants@ =~= Seq::<Identity>::empty() && p.last_winner is None && p.wf()),
{
    if record_exists {
        return Err(PoolError::AlreadyInitialized);
    }
    if entry_amount == 0 || winner_share_percent > 100 || owner_share_percent > 100 {
        return Err(PoolError::InvalidConfig);
    }
    Ok(
        Pool {
            operator,
            entry_amount,
            winner_share_percent,
            owner_share_percent,
            accumulated_amount: 0,
            participants: Vec::new(),
            last_winner: None,
        },
    )
}

/// Appends a participant to the current round.
///
/// The deposit must equal the pool's fixed entry amount and the identity
/// must not already be present; a rejected call leaves the pool unchanged.
/// On success the identity is appended and the accumulated amount grows by
/// the deposit.
pub fn join_lottery(pool: &mut Pool, participant: Identity, amount: u64) -> (r: Result<
    (),
    PoolError,
>)
    requires
        old(pool).wf(),
        amount == old(pool).entry_amount && !old(pool).participants@.contains(participant)
            ==> old(pool).accumulated_amount + amount <= u64::MAX,
    ensures
        final(pool).wf(),
        amount != old(pool).entry_amount ==> {
            &&& r == Err::<(), PoolError>(PoolError::WrongAmount)
            &&& *final(pool) == *old(pool)
        },
        amount == old(pool).entry_amount && old(pool).participants@.contains(participant) ==> {
            &&& r == Err::<(), PoolError>(PoolError::DuplicateParticipant)
            &&& *final(pool) == *old(pool)
        },
        amount == old(pool).entry_amount && !old(pool).participants@.contains(participant) ==> {
            &&& r == Ok::<(), PoolError>(())
            &&& final(pool).participants@ == old(pool).participants@.push(participant)
            &&& final(pool).accumulated_amount == old(pool).accumulated_amount + amount
            &&& old(pool).same_config(final(pool))
            &&& final(pool).last_winner == old(pool).last_winner
        },
{
    if amount != pool.entry_amount {
        return Err(PoolError::WrongAmount);
    }
    if contains_identity(&pool.participants, participant) {
        return Err(PoolError::DuplicateParticipant);
    }
    let ghost before = pool.participants@;
    pool.participants.push(participant);
    pool.accumulated_amount = pool.accumulated_amount + amount;
    proof {
        let after = pool.participants@;
        assert forall|i: int, j: int|
            0 <= i < after.len() && 0 <= j < after.len() && i != j implies after[i] != after[j] by {
            if i < before.len() && j < before.len() {
                assert(after[i] == before[i] && after[j] == before[j]);
            } else if j == before.len() {
                assert(after[j] == participant && after[i] == before[i]);
                assert(!before.contains(participant));
            } else {
                assert(after[i] == participant && after[j] == before[j]);
                assert(!before.contains(participant));
            }
        }
        let e = pool.entry_amount as int;
        let n = before.len() as int;
        assert(e * (n + 1) == e * n + e) by (nonlinear_arith);
    }
    Ok(())
}

/// The given percentage of an amount, computed in 128 bits so the
/// intermediate product cannot wrap, truncated toward zero.
pub fn percent_of(amount: u64, percent: u8) -> (r: u64)
    requires
        percent <= 100,
    ensures
        r == amount * percent / 100,
        r <= amount,
{
    proof {
        let a = amount as int;
        let p = percent as int;
        vstd::arithmetic::mul::lemma_mul_inequality(p, 100, a);
        assert(a * p == p * a) by (nonlinear_arith);
        assert(a * 100 == 100 * a) by (nonlinear_arith);
        vstd::arithmetic::div_mod::lemma_div_is_ordered(a * p, a * 100, 100);
        vstd::arithmetic::div_mod::lemma_div_multiples_vanish(a, 100);
    }
    let wide: u128 = (amount as u128) * (percent as u128) / 100;
    wide as u64
}

/// Selects the winner and computes the payouts for the current round.
///
/// The checks run in this order: the round must have participants, the
/// caller must be the operator configured at creation, the candidate
/// `winner_account` must match the identity the seed selects, and the
/// custodied `pool_balance` must cover both payouts combined. Any rejection
/// leaves the pool unchanged. On success the pool is reset for the next
/// round — participants cleared, nothing accumulated, the winner recorded —
/// and the outcome names the winner and both truncated percentage payouts.
pub fn pick_winner(
    pool: &mut Pool,
    caller: Identity,
    winner_account: Identity,
    entropy: u64,
    timestamp: i64,
    pool_balance: u64,
) -> (r: Result<DrawOutcome, PoolError>)
    requires
        old(pool).wf(),
    ensures
        final(pool).wf(),
        r is Err ==> *final(pool) == *old(pool),
        old(pool).participants@.len() == 0 ==> r == Err::<DrawOutcome, PoolError>(
            PoolError::NoParticipants,
        ),
        old(pool).participants@.len() > 0 && caller != old(pool).operator ==> r == Err::<
            DrawOutcome,
            PoolError,
        >(PoolError::Unauthorized),
        old(pool).participants@.len() > 0 && caller == old(pool).operator && winner_account != old(
            pool,
        ).selected_winner(entropy, timestamp) ==> r == Err::<DrawOutcome, PoolError>(
            PoolError::WinnerMismatch,
        ),
        old(pool).participants@.len() > 0 && caller == old(pool).operator && winner_account == old(
            pool,
        ).selected_winner(entropy, timestamp) && pool_balance < old(pool).winner_payout() + old(
            pool,
        ).owner_payout() ==> r == Err::<DrawOutcome, PoolError>(PoolError::InsufficientPoolBalance),
        old(pool).participants@.len() > 0 && caller == old(pool).operator && winner_account == old(
            pool,
        ).selected_winner(entropy, timestamp) && pool_balance >= old(pool).winner_payout() + old(
            pool,
        ).owner_payout() ==> {
            &&& r matches Ok(out) && out.winner == old(pool).selected_winner(entropy, timestamp)
                && out.winner_prize == old(pool).winner_payout() && out.owner_prize == old(
                pool,
            ).owner_payout() && final(pool).last_winner == Some(out.winner)
            &&& final(pool).participants@.len() == 0
            &&& final(pool).accumulated_amount == 0
            &&& old(pool).same_config(final(pool))
        },
{
    let n = pool.participants.len();
    if n == 0 {
        return Err(PoolError::NoParticipants);
    }
    if caller != pool.operator {
        return Err(PoolError::Unauthorized);
    }
    let seed = derive_seed(entropy, timestamp);
    let index = select_index(seed, n);
    let selected = pool.participants[index];
    if winner_account != selected {
        return Err(PoolError::WinnerMismatch);
    }
    let winner_prize = percent_of(pool.accumulated_amount, pool.winner_share_percent);
    let owner_prize = percent_of(pool.accumulated_amount, pool.owner_share_percent);
    let needed: u128 = (winner_prize as u128) + (owner_prize as u128);
    if (pool_balance as u128) < needed {
        return Err(PoolError::InsufficientPoolBalance);
    }
    pool.last_winner = Some(selected);
    pool.participants = Vec::new();
    pool.accumulated_amount = 0;
    proof {
        assert(pool.participants@.len() == 0);
        assert(pool.entry_amount * pool.participants@.len() == 0) by (nonlinear_arith)
            requires
                pool.participants@.len() == 0,
        ;
    }
    Ok(DrawOutcome { winner: selected, winner_prize, owner_prize })
}

/// Applies a draw's transfers to the three custodial balances at once, the
/// all-or-nothing step of the payout: the pool balance is debited by both
/// payouts combined, the winner's and the operator's balances are credited
/// with their shares. The result is `(pool, winner, operator)` after the
/// transfer. When the winner is the operator itself the caller applies the
/// two credits to that one account in sequence.
pub fn apply_payout(
    pool_balance: u64,
    winner_balance: u64,
    operator_balance: u64,
    outcome: &DrawOutcome,
) -> (r: (u64, u64, u64))
    requires
        outcome.winner_prize + outcome.owner_prize <= pool_balance,
        winner_balance + outcome.winner_prize <= u64::MAX,
        operator_balance + outcome.owner_prize <= u64::MAX,
    ensures
        r.0 == pool_balance - (outcome.winner_prize + outcome.owner_prize),
        r.1 == winner_balance + outcome.winner_prize,
        r.2 == operator_balance + outcome.owner_prize,
{
    let remaining = pool_balance - outcome.winner_prize - outcome.owner_prize;
    (remaining, winner_balance + outcome.winner_prize, operator_balance + outcome.owner_prize)
}

} // verus!
