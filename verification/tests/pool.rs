use liquidity_pool::pool::apply_payout;
use liquidity_pool::pool::contains_identity;
use liquidity_pool::pool::join_lottery;
use liquidity_pool::pool::new_lottery;
use liquidity_pool::pool::pick_winner;
use liquidity_pool::pool::Identity;
use liquidity_pool::pool::Pool;
use liquidity_pool::pool::PoolError;

fn ident(n: u64) -> Identity {
    Identity { w0: n, w1: 0, w2: 0, w3: 0 }
}

fn fresh_pool(entry_amount: u64, winner_share: u8, owner_share: u8) -> Pool {
    new_lottery(false, ident(1), entry_amount, winner_share, owner_share).unwrap()
}

#[test]
fn new_lottery_creates_empty_pool() {
    let pool = fresh_pool(100, 50, 10);
    assert_eq!(pool.operator, ident(1));
    assert_eq!(pool.entry_amount, 100);
    assert_eq!(pool.winner_share_percent, 50);
    assert_eq!(pool.owner_share_percent, 10);
    assert_eq!(pool.accumulated_amount, 0);
    assert_eq!(pool.participants.len(), 0);
    assert_eq!(pool.last_winner, None);
}

#[test]
fn new_lottery_rejects_existing_record() {
    let r = new_lottery(true, ident(1), 100, 50, 10);
    assert_eq!(r.err(), Some(PoolError::AlreadyInitialized));
}

#[test]
fn new_lottery_rejects_zero_entry_amount() {
    let r = new_lottery(false, ident(1), 0, 50, 10);
    assert_eq!(r.err(), Some(PoolError::InvalidConfig));
}

#[test]
fn new_lottery_rejects_share_over_hundred() {
    let r = new_lottery(false, ident(1), 100, 101, 10);
    assert_eq!(r.err(), Some(PoolError::InvalidConfig));
    let r = new_lottery(false, ident(1), 100, 50, 101);
    assert_eq!(r.err(), Some(PoolError::InvalidConfig));
}

#[test]
fn join_accumulates_entry_amounts_in_order() {
    let mut pool = fresh_pool(100, 50, 10);
    assert!(join_lottery(&mut pool, ident(10), 100).is_ok());
    assert!(join_lottery(&mut pool, ident(11), 100).is_ok());
    assert!(join_lottery(&mut pool, ident(12), 100).is_ok());
    assert_eq!(pool.participants, vec![ident(10), ident(11), ident(12)]);
    assert_eq!(pool.accumulated_amount, 300);
}

#[test]
fn join_with_wrong_amount_fails_without_mutation() {
    let mut pool = fresh_pool(100, 50, 10);
    assert!(join_lottery(&mut pool, ident(10), 100).is_ok());
    let r = join_lottery(&mut pool, ident(11), 99);
    assert_eq!(r.err(), Some(PoolError::WrongAmount));
    let r = join_lottery(&mut pool, ident(11), 101);
    assert_eq!(r.err(), Some(PoolError::WrongAmount));
    assert_eq!(pool.participants, vec![ident(10)]);
    assert_eq!(pool.accumulated_amount, 100);
}

#[test]
fn join_twice_fails_with_duplicate_participant() {
    let mut pool = fresh_pool(100, 50, 10);
    assert!(join_lottery(&mut pool, ident(10), 100).is_ok());
    let r = join_lottery(&mut pool, ident(10), 100);
    assert_eq!(r.err(), Some(PoolError::DuplicateParticipant));
    assert_eq!(pool.participants, vec![ident(10)]);
    assert_eq!(pool.accumulated_amount, 100);
}

#[test]
fn draw_on_empty_pool_fails_with_no_participants() {
    let mut pool = fresh_pool(100, 50, 10);
    let r = pick_winner(&mut pool, ident(1), ident(10), 7, 3, 0);
    assert_eq!(r.err(), Some(PoolError::NoParticipants));
    assert_eq!(pool.participants.len(), 0);
    assert_eq!(pool.accumulated_amount, 0);
    assert_eq!(pool.last_winner, None);
}

#[test]
fn draw_by_non_operator_fails_with_unauthorized() {
    let mut pool = fresh_pool(100, 50, 10);
    assert!(join_lottery(&mut pool, ident(10), 100).is_ok());
    let r = pick_winner(&mut pool, ident(2), ident(10), 7, 3, 100);
    assert_eq!(r.err(), Some(PoolError::Unauthorized));
    assert_eq!(pool.participants, vec![ident(10)]);
    assert_eq!(pool.accumulated_amount, 100);
    assert_eq!(pool.last_winner, None);
}

#[test]
fn draw_pays_both_shares_and_resets_the_pool() {
    // entry 100, winner share 50, owner share 10; two participants; the
    // seed 5 - 2 = 3 is odd, so position 1 of two wins.
    let mut pool = fresh_pool(100, 50, 10);
    assert!(join_lottery(&mut pool, ident(10), 100).is_ok());
    assert!(join_lottery(&mut pool, ident(11), 100).is_ok());
    let outcome = pick_winner(&mut pool, ident(1), ident(11), 5, 2, 200).unwrap();
    assert_eq!(outcome.winner, ident(11));
    assert_eq!(outcome.winner_prize, 100);
    assert_eq!(outcome.owner_prize, 20);
    assert_eq!(pool.participants.len(), 0);
    assert_eq!(pool.accumulated_amount, 0);
    assert_eq!(pool.last_winner, Some(ident(11)));
    assert_eq!(pool.entry_amount, 100);
    assert_eq!(pool.winner_share_percent, 50);
    assert_eq!(pool.owner_share_percent, 10);
    // The uncollected 40 percent stays in the custodied balance.
    let (pool_after, winner_after, operator_after) = apply_payout(200, 0, 0, &outcome);
    assert_eq!(pool_after, 80);
    assert_eq!(winner_after, 100);
    assert_eq!(operator_after, 20);
}

#[test]
fn draw_with_mismatched_winner_account_fails() {
    let mut pool = fresh_pool(100, 50, 10);
    assert!(join_lottery(&mut pool, ident(10), 100).is_ok());
    assert!(join_lottery(&mut pool, ident(11), 100).is_ok());
    // The seed 5 - 2 = 3 selects position 1, so naming position 0 fails.
    let r = pick_winner(&mut pool, ident(1), ident(10), 5, 2, 200);
    assert_eq!(r.err(), Some(PoolError::WinnerMismatch));
    assert_eq!(pool.participants, vec![ident(10), ident(11)]);
    assert_eq!(pool.accumulated_amount, 200);
    assert_eq!(pool.last_winner, None);
}

#[test]
fn draw_with_insufficient_balance_fails() {
    let mut pool = fresh_pool(100, 50, 10);
    assert!(join_lottery(&mut pool, ident(10), 100).is_ok());
    assert!(join_lottery(&mut pool, ident(11), 100).is_ok());
    // The payouts are 100 + 20, so a custodied balance of 119 cannot cover them.
    let r = pick_winner(&mut pool, ident(1), ident(11), 5, 2, 119);
    assert_eq!(r.err(), Some(PoolError::InsufficientPoolBalance));
    assert_eq!(pool.participants, vec![ident(10), ident(11)]);
    assert_eq!(pool.accumulated_amount, 200);
    // Exactly covering both payouts succeeds.
    let outcome = pick_winner(&mut pool, ident(1), ident(11), 5, 2, 120).unwrap();
    assert_eq!(outcome.winner_prize, 100);
    assert_eq!(outcome.owner_prize, 20);
}

#[test]
fn draw_truncates_each_payout() {
    // 3 participants of 33 each: 99 * 50 / 100 = 49, 99 * 10 / 100 = 9.
    let mut pool = fresh_pool(33, 50, 10);
    assert!(join_lottery(&mut pool, ident(10), 33).is_ok());
    assert!(join_lottery(&mut pool, ident(11), 33).is_ok());
    assert!(join_lottery(&mut pool, ident(12), 33).is_ok());
    // The seed 5 - 2 = 3 selects position 0 of three.
    let outcome = pick_winner(&mut pool, ident(1), ident(10), 5, 2, 99).unwrap();
    assert_eq!(outcome.winner, ident(10));
    assert_eq!(outcome.winner_prize, 49);
    assert_eq!(outcome.owner_prize, 9);
}

#[test]
fn well_formedness_catches_a_tampered_record() {
    let mut pool = fresh_pool(100, 50, 10);
    assert!(join_lottery(&mut pool, ident(10), 100).is_ok());
    assert!(pool.is_well_formed());
    // An accumulated amount that no sequence of deposits explains.
    let mut tampered = fresh_pool(100, 50, 10);
    assert!(join_lottery(&mut tampered, ident(10), 100).is_ok());
    tampered.accumulated_amount = 150;
    assert!(!tampered.is_well_formed());
    // A participant smuggled in twice.
    let mut tampered = fresh_pool(100, 50, 10);
    assert!(join_lottery(&mut tampered, ident(10), 100).is_ok());
    tampered.participants.push(ident(10));
    tampered.accumulated_amount = 200;
    assert!(!tampered.is_well_formed());
    // A share beyond one hundred percent.
    let mut tampered = fresh_pool(100, 50, 10);
    tampered.winner_share_percent = 101;
    assert!(!tampered.is_well_formed());
}

#[test]
fn membership_follows_the_participant_list() {
    let mut pool = fresh_pool(100, 50, 10);
    assert!(!contains_identity(&pool.participants, ident(10)));
    assert!(join_lottery(&mut pool, ident(10), 100).is_ok());
    assert!(join_lottery(&mut pool, ident(11), 100).is_ok());
    assert!(contains_identity(&pool.participants, ident(10)));
    assert!(contains_identity(&pool.participants, ident(11)));
    assert!(!contains_identity(&pool.participants, ident(12)));
}

#[test]
fn saturated_seed_selects_the_first_participant() {
    // The timestamp exceeds the entropy word, so the seed saturates at zero.
    let mut pool = fresh_pool(100, 50, 10);
    assert!(join_lottery(&mut pool, ident(10), 100).is_ok());
    assert!(join_lottery(&mut pool, ident(11), 100).is_ok());
    let outcome = pick_winner(&mut pool, ident(1), ident(10), 5, 10, 200).unwrap();
    assert_eq!(outcome.winner, ident(10));
}
