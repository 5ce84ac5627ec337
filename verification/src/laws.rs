//! The library's general laws, stated over all inputs and proved once.

use vstd::prelude::*;

use crate::codec::le8;
use crate::pool::Identity;
use crate::pool::Pool;
use crate::entropy::seed_of;
use crate::entropy::selection_index;
use crate::entropy::u64_of_le_bytes;

verus! {

/// The two byte-order specifications of this crate agree: the eight
/// little-endian bytes the codec writes for a word denote, read back as
/// the entropy reader reads them, exactly that word. In particular no two
/// distinct words share an encoding.
pub proof fn lemma_le8_round_trip(v: u64)
    ensures
        u64_of_le_bytes(le8(v)) == v,
{
    assert(v == (v % 0x100) + ((v / 0x100) % 0x100) * 0x100 + ((v / 0x1_0000) % 0x100) * 0x1_0000
        + ((v / 0x100_0000) % 0x100) * 0x100_0000 + ((v / 0x1_0000_0000) % 0x100) * 0x1_0000_0000
        + ((v / 0x100_0000_0000) % 0x100) * 0x100_0000_0000 + ((v / 0x1_0000_0000_0000) % 0x100)
        * 0x1_0000_0000_0000 + ((v / 0x100_0000_0000_0000) % 0x100) * 0x100_0000_0000_0000)
        by (bit_vector);
}

/// Whatever entropy word and timestamp the host supplies, and for every
/// positive participant count, the selection index lies in `[0, count)`:
/// the draw always names a position that exists.
pub proof fn lemma_selection_index_in_range(entropy: u64, timestamp: i64, count: int)
    requires
        count > 0,
    ensures
        0 <= selection_index(seed_of(entropy, timestamp), count) < count,
{
    vstd::arithmetic::div_mod::lemma_mod_bound(seed_of(entropy, timestamp) as int, count);
}

/// Every sequence of successful joins keeps the round's two running
/// facts: no identity appears twice among the participants, and the
/// accumulated amount is exactly the entry amount times the participant
/// count. This is the induction step, over the effect `join_lottery`'s
/// contract gives a successful call; its base is the empty round that
/// `new_lottery` creates, which satisfies both facts trivially.
pub proof fn lemma_join_keeps_round_invariant(
    before: Pool,
    after: Pool,
    participant: Identity,
    amount: u64,
)
    requires
        before.participants@.no_duplicates(),
        before.accumulated_amount == before.entry_amount * before.participants@.len(),
        amount == before.entry_amount,
        !before.participants@.contains(participant),
        after.participants@ == before.participants@.push(participant),
        after.accumulated_amount == before.accumulated_amount + amount,
        after.entry_amount == before.entry_amount,
    ensures
        after.participants@.no_duplicates(),
        after.accumulated_amount == after.entry_amount * after.participants@.len(),
{
    let s = before.participants@;
    let t = after.participants@;
    assert forall|i: int, j: int|
        0 <= i < t.len() && 0 <= j < t.len() && i != j implies t[i] != t[j] by {
        if i < s.len() && j < s.len() {
            assert(t[i] == s[i] && t[j] == s[j]);
        } else if j == s.len() {
            assert(t[j] == participant && t[i] == s[i]);
            assert(!s.contains(participant));
        } else {
            assert(t[i] == participant && t[j] == s[j]);
            assert(!s.contains(participant));
        }
    }
    let e = before.entry_amount as int;
    let n = s.len() as int;
    assert(e * (n + 1) == e * n + e) by (nonlinear_arith);
}

/// The two truncated percentage payouts of a draw sum to the payout of the
/// combined share, within the one unit that truncating the two divisions
/// separately can lose:
/// `a*(w+o)/100 - 1 <= a*w/100 + a*o/100 <= a*(w+o)/100`.
pub proof fn lemma_payout_sum_within_rounding(amount: u64, winner_share: u8, owner_share: u8)
    ensures
        amount * winner_share / 100 + amount * owner_share / 100 <= amount * (winner_share
            + owner_share) / 100,
        amount * (winner_share + owner_share) / 100 <= amount * winner_share / 100 + amount
            * owner_share / 100 + 1,
{
    let a = amount as int;
    let w = winner_share as int;
    let o = owner_share as int;
    assert(a * w >= 0 && a * o >= 0) by (nonlinear_arith)
        requires
            a >= 0,
            w >= 0,
            o >= 0,
    ;
    assert(a * (w + o) == a * w + a * o) by (nonlinear_arith);
    vstd::arithmetic::div_mod::lemma_fundamental_div_mod(a * w, 100);
    vstd::arithmetic::div_mod::lemma_fundamental_div_mod(a * o, 100);
    vstd::arithmetic::div_mod::lemma_mod_bound(a * w, 100);
    vstd::arithmetic::div_mod::lemma_mod_bound(a * o, 100);
    let q1 = a * w / 100;
    let r1 = a * w % 100;
    let q2 = a * o / 100;
    let r2 = a * o % 100;
    if r1 + r2 < 100 {
        vstd::arithmetic::div_mod::lemma_fundamental_div_mod_converse(
            a * (w + o),
            100,
            q1 + q2,
            r1 + r2,
        );
    } else {
        vstd::arithmetic::div_mod::lemma_fundamental_div_mod_converse(
            a * (w + o),
            100,
            q1 + q2 + 1,
            r1 + r2 - 100,
        );
    }
}

} // verus!
