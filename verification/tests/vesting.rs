use lucia_vesting::account::{
    claim_lux, find_beneficiary_index, initialize, release_lucia_vesting, Beneficiary, DataAccount,
};
use lucia_vesting::arith::pow10_checked;
use lucia_vesting::errors::VestingError;
use lucia_vesting::evaluate::evaluate_claim;
use lucia_vesting::frac::Frac;
use lucia_vesting::schedule::{calculate_schedule, Checkpoint};

fn beneficiary(key: u64) -> Beneficiary {
    Beneficiary {
        key,
        allocated_tokens: 1000,
        claimed_tokens: 0,
        unlock_tge: 2,
        lockup_period: 0,
        unlock_duration: 400,
        vesting_end_month: 4,
        confirm_round: 0,
    }
}

fn funded_account(beneficiaries: Vec<Beneficiary>) -> DataAccount {
    let mut account = DataAccount::new();
    initialize(&mut account, beneficiaries, 5000, 0, 0, 10000, 77, 0).unwrap();
    account
}

fn released_account(beneficiaries: Vec<Beneficiary>) -> DataAccount {
    let mut account = funded_account(beneficiaries);
    release_lucia_vesting(&mut account, 172800, 1).unwrap();
    account
}

fn checkpoint(round: u64, unlock: i64, num: u64, den: u64, bonus: u64) -> Checkpoint {
    Checkpoint {
        round_index: round,
        unlock_time: unlock,
        steady_amount: Frac { num, den },
        bonus_amount: bonus,
    }
}

#[test]
fn scenario_a_schedule_values() {
    let schedule = calculate_schedule(0, 4, 400, 1000, 2, 0).unwrap();
    assert_eq!(schedule.len(), 5);
    for (k, cp) in schedule.iter().enumerate() {
        assert_eq!(cp.round_index, k as u64);
        assert_eq!(cp.unlock_time, (400 * k as i64) / 4);
        assert_eq!(cp.steady_amount, Frac { num: 500, den: 4 });
        assert_eq!(cp.bonus_amount, if k == 0 { 500 } else { 0 });
    }
}

#[test]
fn scenario_a_first_round_pays_bonus_plus_steady() {
    let schedule = calculate_schedule(0, 4, 400, 1000, 2, 0).unwrap();
    // At the start instant only round 0 is unlocked: 125 steady + 500 bonus.
    let (amount, highest) = evaluate_claim(&schedule, 0, 0, 0).unwrap();
    assert_eq!(amount, 625);
    assert_eq!(highest, 0);
}

#[test]
fn unlock_times_monotone_and_end_exact() {
    let schedule = calculate_schedule(100, 3, 7, 30, 0, 0).unwrap();
    let times: Vec<i64> = schedule.iter().map(|c| c.unlock_time).collect();
    assert_eq!(times, vec![100, 102, 104, 107]);
    for pair in times.windows(2) {
        assert!(pair[0] <= pair[1]);
    }
    assert_eq!(*times.last().unwrap(), 100 + 7);
}

#[test]
fn schedule_is_idempotent() {
    let a = calculate_schedule(-50, 12, 3600, 999, 3, 2).unwrap();
    let b = calculate_schedule(-50, 12, 3600, 999, 3, 2).unwrap();
    assert_eq!(a, b);
}

#[test]
fn steady_sum_stays_within_truncation_loss() {
    // remaining = 10 over 3 rounds: 3 units per round, 9 in all; the loss
    // of 1 is below the 3-round bound.
    let schedule = calculate_schedule(0, 3, 300, 10, 0, 1).unwrap();
    let sum: u64 = schedule.iter().map(|c| c.steady_amount.num / c.steady_amount.den).sum();
    assert_eq!(sum, 9);
    assert!(10 - sum < 3);
    // An even split loses nothing.
    let schedule = calculate_schedule(0, 4, 400, 1000, 2, 1).unwrap();
    let sum: u64 = schedule.iter().map(|c| c.steady_amount.num / c.steady_amount.den).sum();
    assert_eq!(sum, 500);
}

#[test]
fn zero_rounds_is_invalid_schedule() {
    assert_eq!(calculate_schedule(0, 0, 100, 10, 0, 0), Err(VestingError::InvalidSchedule));
}

#[test]
fn unlock_instant_overflow_is_reported() {
    assert_eq!(
        calculate_schedule(i64::MAX, 2, 100, 10, 0, 0),
        Err(VestingError::ArithmeticOverflow)
    );
}

#[test]
fn start_past_final_round_yields_empty_schedule() {
    let schedule = calculate_schedule(0, 4, 400, 1000, 2, 5).unwrap();
    assert!(schedule.is_empty());
}

#[test]
fn non_finite_fraction_fails_claim_evaluation() {
    let schedule = vec![checkpoint(0, 0, 10, 0, 0)];
    assert_eq!(evaluate_claim(&schedule, 0, 100, 0), Err(VestingError::InvalidAmount));
}

#[test]
fn accumulation_overflow_fails_not_wraps() {
    let schedule = vec![
        checkpoint(0, 0, u64::MAX, 1, 0),
        checkpoint(1, 0, u64::MAX, 1, 0),
    ];
    assert_eq!(evaluate_claim(&schedule, 0, 100, 0), Err(VestingError::ArithmeticOverflow));
}

#[test]
fn bonus_accumulation_overflow_fails() {
    let schedule = vec![checkpoint(0, 0, u64::MAX, 1, 5)];
    assert_eq!(evaluate_claim(&schedule, 0, 100, 0), Err(VestingError::ArithmeticOverflow));
}

#[test]
fn scaling_overflow_fails() {
    let schedule = vec![checkpoint(0, 0, u64::MAX, 1, 0)];
    assert_eq!(evaluate_claim(&schedule, 0, 100, 1), Err(VestingError::ArithmeticOverflow));
    // Ten to the 20th alone leaves the integral range.
    let schedule = vec![checkpoint(0, 0, 1, 1, 0)];
    assert_eq!(evaluate_claim(&schedule, 0, 100, 20), Err(VestingError::ArithmeticOverflow));
}

#[test]
fn nothing_due_before_first_unlock() {
    let schedule = vec![checkpoint(0, 1000, 10, 1, 0)];
    assert_eq!(evaluate_claim(&schedule, 0, 999, 0), Err(VestingError::NothingDue));
}

#[test]
fn amounts_are_scaled_by_decimals() {
    let schedule = vec![checkpoint(0, 0, 7, 2, 1)];
    // 7/2 truncates to 3, plus the bonus of 1, scaled by ten squared.
    let (amount, highest) = evaluate_claim(&schedule, 0, 0, 2).unwrap();
    assert_eq!(amount, 400);
    assert_eq!(highest, 0);
}

#[test]
fn pow10_checked_bounds() {
    assert_eq!(pow10_checked(0), Some(1));
    assert_eq!(pow10_checked(3), Some(1000));
    assert_eq!(pow10_checked(19), Some(10_000_000_000_000_000_000));
    assert_eq!(pow10_checked(20), None);
}

#[test]
fn initialize_records_pool_and_returns_scaled_deposit() {
    let mut account = DataAccount::new();
    let transfer = initialize(&mut account, vec![beneficiary(1)], 5000, 2, 2, 10000, 77, 1000)
        .unwrap();
    assert_eq!(transfer, 500000);
    assert!(account.is_initialized);
    assert!(!account.released);
    assert_eq!(account.initializer, 77);
    assert_eq!(account.initialized_at, 1000);
    assert_eq!(account.time_lock_end, 1000 + 172800);
    assert_eq!(account.beneficiaries.len(), 1);
}

#[test]
fn initialize_twice_fails() {
    let mut account = funded_account(vec![beneficiary(1)]);
    let r = initialize(&mut account, vec![beneficiary(2)], 1, 0, 0, 10, 77, 0);
    assert_eq!(r, Err(VestingError::AlreadyInitialized));
}

#[test]
fn initialize_rejects_decimal_mismatch() {
    let mut account = DataAccount::new();
    let r = initialize(&mut account, vec![beneficiary(1)], 1, 2, 3, 10, 77, 0);
    assert_eq!(r, Err(VestingError::DecimalMismatch));
    assert!(!account.is_initialized);
}

#[test]
fn initialize_rejects_insufficient_deposit() {
    let mut account = DataAccount::new();
    let r = initialize(&mut account, vec![beneficiary(1)], 11, 0, 0, 10, 77, 0);
    assert_eq!(r, Err(VestingError::InsufficientDeposit));
}

#[test]
fn funding_fifty_one_beneficiaries_fails() {
    let mut account = DataAccount::new();
    let fifty_one: Vec<Beneficiary> = (0..51).map(beneficiary).collect();
    let r = initialize(&mut account, fifty_one, 5000, 0, 0, 10000, 77, 0);
    assert_eq!(r, Err(VestingError::TooManyBeneficiaries));
    assert!(!account.is_initialized);
}

#[test]
fn funding_exactly_fifty_beneficiaries_succeeds() {
    let mut account = DataAccount::new();
    let fifty: Vec<Beneficiary> = (0..50).map(beneficiary).collect();
    initialize(&mut account, fifty, 5000, 0, 0, 10000, 77, 0).unwrap();
    assert_eq!(account.beneficiaries.len(), 50);
}

#[test]
fn release_before_timelock_fails_at_boundary_succeeds() {
    let mut account = funded_account(vec![beneficiary(1)]);
    let r = release_lucia_vesting(&mut account, 172799, 1);
    assert_eq!(r, Err(VestingError::TimelockNotExpired));
    assert!(!account.released);
    release_lucia_vesting(&mut account, 172800, 1).unwrap();
    assert!(account.released);
    assert_eq!(account.state, 1);
}

#[test]
fn claim_before_release_fails() {
    let mut account = funded_account(vec![beneficiary(1)]);
    assert_eq!(claim_lux(&mut account, 1, 200000), Err(VestingError::ReleaseNotCalled));
}

#[test]
fn claim_before_personal_lockup_fails() {
    let mut locked = beneficiary(1);
    locked.lockup_period = 500000;
    let mut account = released_account(vec![locked]);
    assert_eq!(claim_lux(&mut account, 1, 400000), Err(VestingError::LockupNotExpired));
    assert_eq!(claim_lux(&mut account, 1, 500000), Ok(625));
}

#[test]
fn claim_by_unknown_key_fails() {
    let mut account = released_account(vec![beneficiary(1)]);
    assert_eq!(claim_lux(&mut account, 9, 200000), Err(VestingError::BeneficiaryNotFound));
}

#[test]
fn claim_settles_all_unlocked_rounds_at_once() {
    let mut account = released_account(vec![beneficiary(1)]);
    // Unlocks sit at 0, 100, 200, 300, 400; at 250 rounds 0..=2 are open:
    // 500 bonus + three rounds of 125 steady.
    let amount = claim_lux(&mut account, 1, 250).unwrap();
    assert_eq!(amount, 875);
    assert_eq!(account.beneficiaries[0].confirm_round, 3);
    assert_eq!(account.beneficiaries[0].claimed_tokens, 875);
}

#[test]
fn settled_rounds_are_not_reoffered() {
    let mut account = released_account(vec![beneficiary(1)]);
    assert_eq!(claim_lux(&mut account, 1, 250), Ok(875));
    // Same instant again: everything unlocked is settled already.
    assert_eq!(claim_lux(&mut account, 1, 250), Err(VestingError::NothingDue));
    assert_eq!(account.beneficiaries[0].confirm_round, 3);
    assert_eq!(account.beneficiaries[0].claimed_tokens, 875);
}

#[test]
fn bonus_is_never_reattached_after_settlement() {
    let mut account = released_account(vec![beneficiary(1)]);
    assert_eq!(claim_lux(&mut account, 1, 250), Ok(875));
    // Rounds 3 and 4 open later; only the steady tail remains, no bonus.
    assert_eq!(claim_lux(&mut account, 1, 400), Ok(250));
    assert_eq!(account.beneficiaries[0].confirm_round, 5);
    assert_eq!(account.beneficiaries[0].claimed_tokens, 1125);
    // The schedule is exhausted for good.
    assert_eq!(claim_lux(&mut account, 1, 1000000), Err(VestingError::NothingDue));
}

#[test]
fn claim_with_zero_rounds_is_invalid_schedule() {
    let mut broken = beneficiary(1);
    broken.vesting_end_month = 0;
    let mut account = released_account(vec![broken]);
    assert_eq!(claim_lux(&mut account, 1, 200000), Err(VestingError::InvalidSchedule));
}

#[test]
fn claim_only_touches_the_callers_entry() {
    let mut account = released_account(vec![beneficiary(1), beneficiary(2)]);
    claim_lux(&mut account, 2, 250).unwrap();
    assert_eq!(account.beneficiaries[0].confirm_round, 0);
    assert_eq!(account.beneficiaries[0].claimed_tokens, 0);
    assert_eq!(account.beneficiaries[1].confirm_round, 3);
}

#[test]
fn find_beneficiary_returns_first_match() {
    let mut twin = beneficiary(5);
    twin.allocated_tokens = 1;
    let v = vec![beneficiary(3), beneficiary(5), twin];
    assert_eq!(find_beneficiary_index(&v, 5), Some(1));
    assert_eq!(find_beneficiary_index(&v, 4), None);
}

#[test]
fn claimed_total_overflow_fails_and_leaves_account_untouched() {
    let mut rich = beneficiary(1);
    rich.claimed_tokens = u64::MAX;
    let mut account = released_account(vec![rich]);
    assert_eq!(claim_lux(&mut account, 1, 250), Err(VestingError::ArithmeticOverflow));
    assert_eq!(account.beneficiaries[0].claimed_tokens, u64::MAX);
    assert_eq!(account.beneficiaries[0].confirm_round, 0);
}

#[test]
fn lockup_end_overflow_fails_claim() {
    let mut far = beneficiary(1);
    far.lockup_period = i64::MAX;
    let mut account = DataAccount::new();
    initialize(&mut account, vec![far], 5000, 0, 0, 10000, 77, i64::MAX - 172800).unwrap();
    release_lucia_vesting(&mut account, i64::MAX, 1).unwrap();
    assert_eq!(claim_lux(&mut account, 1, i64::MAX), Err(VestingError::ArithmeticOverflow));
}
