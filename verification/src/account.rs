use vstd::prelude::*;

use crate::arith::{pow10_checked, spec_pow10};
use crate::errors::VestingError;
use crate::evaluate::{
    evaluate_claim, lemma_highest_achieved, lemma_no_resettle, lemma_total_due_nonneg,
    spec_any_qualifies, spec_evaluate_claim, spec_highest_settled,
};
use crate::schedule::{calculate_schedule, spec_calculate_schedule, spec_remaining};

verus! {

/// Seconds between funding and the earliest permitted release: 48 hours.
pub const RELEASE_TIMELOCK_SECONDS: i64 = 172800;

/// The most beneficiaries one pool may carry.
pub const MAX_BENEFICIARIES: usize = 50;

/// One recipient's allocation parameters and settlement progress.
///
/// `unlock_tge` is a *divisor*: the immediate bonus is
/// `allocated_tokens / unlock_tge` (so `2` means half up front), and zero
/// means no bonus.  `confirm_round` is the progress cursor: the next round
/// eligible for settlement, advanced only by settlement itself.
#[derive(Clone, Copy, Debug, PartialEq, Eq, Structural)]
pub struct Beneficiary {
    /// The recipient's identity key.
    pub key: u64,
    /// Total entitlement, in whole tokens.
    pub allocated_tokens: u64,
    /// Cumulative amount already settled, in scaled settlement units.
    pub claimed_tokens: u64,
    /// Divisor for the immediate bonus; zero means no bonus.
    pub unlock_tge: u64,
    /// Seconds after pool funding before this recipient may claim.
    pub lockup_period: i64,
    /// Seconds over which the vesting tail is spread.
    pub unlock_duration: u64,
    /// Total number of vesting rounds.
    pub vesting_end_month: u64,
    /// Progress cursor: the next round eligible for settlement.
    pub confirm_round: u64,
}

/// The pool-level account: lifecycle flags, the deposit, and the registry.
#[derive(Clone, Debug)]
pub struct DataAccount {
    /// Operator-supplied release annotation; kept for audit, never a gate.
    pub state: u8,
    /// The deposited amount, in whole tokens.
    pub token_amount: u64,
    /// Identity key of the funder; only the funder may release.
    pub initializer: u64,
    /// Timestamp of funding.
    pub initialized_at: i64,
    /// The bounded beneficiary registry.
    pub beneficiaries: Vec<Beneficiary>,
    /// Decimal scale of the token: amounts are scaled by ten to this power.
    pub decimals: u8,
    /// Whether the pool has been funded.
    pub is_initialized: bool,
    /// Whether release has been triggered; claims are gated on this.
    pub released: bool,
    /// Timestamp from which release is permitted.
    pub time_lock_end: i64,
}

impl DataAccount {
    /// An empty, unfunded pool.
    pub fn new() -> (r: DataAccount)
        ensures
            r.state == 0,
            r.token_amount == 0,
            r.initializer == 0,
            r.initialized_at == 0,
            r.beneficiaries@ == Seq::<Beneficiary>::empty(),
            r.decimals == 0,
            !r.is_initialized,
            !r.released,
            r.time_lock_end == 0,
    {
        DataAccount {
            state: 0,
            token_amount: 0,
            initializer: 0,
            initialized_at: 0,
            beneficiaries: Vec::new(),
            decimals: 0,
            is_initialized: false,
            released: false,
            time_lock_end: 0,
        }
    }
}

/// The first index at or after `k` whose entry carries `key`, or `-1`.
pub open spec fn spec_find_from(s: Seq<Beneficiary>, key: u64, k: int) -> int
    decreases s.len() - k,
{
    if k < 0 || k >= s.len() {
        -1
    } else if s[k].key == key {
        k
    } else {
        spec_find_from(s, key, k + 1)
    }
}

/// The first index whose entry carries `key`, or `-1` when there is none.
pub open spec fn spec_find_index(s: Seq<Beneficiary>, key: u64) -> int {
    spec_find_from(s, key, 0)
}

/// What the first-match index means: it carries the key, nothing before it
/// does, and a miss means nothing carries it at all.
proof fn lemma_find_from_props(s: Seq<Beneficiary>, key: u64, k: int)
    requires
        0 <= k <= s.len(),
    ensures
        spec_find_from(s, key, k) == -1 ==> forall|j: int|
            k <= j < s.len() ==> (#[trigger] s[j]).key != key,
        spec_find_from(s, key, k) != -1 ==> {
            let r = spec_find_from(s, key, k);
            &&& k <= r < s.len()
            &&& s[r].key == key
            &&& forall|j: int| k <= j < r ==> (#[trigger] s[j]).key != key
        },
    decreases s.len() - k,
{
    if k < s.len() && s[k].key != key {
        lemma_find_from_props(s, key, k + 1);
    }
}

/// Look a beneficiary up by identity: a linear scan for the first match.
pub fn find_beneficiary_index(v: &Vec<Beneficiary>, key: u64) -> (r: Option<usize>)
    ensures
        r matches Some(i) ==> i == spec_find_index(v@, key) && i < v@.len() && v@[i as int].key
            == key,
        r is None <==> spec_find_index(v@, key) == -1,
{
    let mut k: usize = 0;
    while k < v.len()
        invariant
            0 <= k <= v@.len(),
            spec_find_index(v@, key) == spec_find_from(v@, key, k as int),
            forall|j: int| 0 <= j < k ==> (#[trigger] v@[j]).key != key,
        decreases v@.len() - k,
    {
        if v[k].key == key {
            return Some(k);
        }
        k = k + 1;
    }
    None
}

/// Which inputs funding rejects, and with which error.
pub open spec fn spec_initialize_error(
    a: DataAccount,
    bs: Seq<Beneficiary>,
    amount: int,
    decimals: int,
    mint_decimals: int,
    wallet_balance: int,
    now: int,
) -> Option<VestingError> {
    if a.is_initialized {
        Some(VestingError::AlreadyInitialized)
    } else if mint_decimals != decimals {
        Some(VestingError::DecimalMismatch)
    } else if amount > wallet_balance {
        Some(VestingError::InsufficientDeposit)
    } else if bs.len() > MAX_BENEFICIARIES {
        Some(VestingError::TooManyBeneficiaries)
    } else if now + RELEASE_TIMELOCK_SECONDS > i64::MAX {
        Some(VestingError::ArithmeticOverflow)
    } else if spec_pow10(decimals as nat) > u64::MAX || amount * spec_pow10(decimals as nat)
        > u64::MAX {
        Some(VestingError::ArithmeticOverflow)
    } else {
        None
    }
}

/// Fund the pool: validate the deposit and the registry, record both, and
/// start the administrative timelock.
///
/// Returns the amount of scaled settlement units the host must move into
/// escrow.  The registry bound, the decimal scale and the funder's balance
/// are checked first; on any failure the account is left untouched.  The
/// caller remains responsible for ensuring the deposit covers the sum of
/// the allocations; the engine does not enforce that.
pub fn initialize(
    account: &mut DataAccount,
    beneficiaries: Vec<Beneficiary>,
    amount: u64,
    decimals: u8,
    mint_decimals: u8,
    wallet_balance: u64,
    sender: u64,
    now: i64,
) -> (r: Result<u64, VestingError>)
    ensures
        spec_initialize_error(
            *old(account),
            beneficiaries@,
            amount as int,
            decimals as int,
            mint_decimals as int,
            wallet_balance as int,
            now as int,
        ) matches Some(e) ==> r == Err::<u64, VestingError>(e) && *final(account) == *old(account),
        spec_initialize_error(
            *old(account),
            beneficiaries@,
            amount as int,
            decimals as int,
            mint_decimals as int,
            wallet_balance as int,
            now as int,
        ) is None ==> {
            &&& r == Ok::<u64, VestingError>(
                ((amount as int) * spec_pow10(decimals as nat)) as u64,
            )
            &&& final(account).is_initialized
            &&& !final(account).released
            &&& final(account).state == 0
            &&& final(account).token_amount == amount
            &&& final(account).initializer == sender
            &&& final(account).initialized_at == now
            &&& final(account).beneficiaries@ == beneficiaries@
            &&& final(account).decimals == decimals
            &&& final(account).time_lock_end == now + RELEASE_TIMELOCK_SECONDS
        },
{
    if account.is_initialized {
        return Err(VestingError::AlreadyInitialized);
    }
    if mint_decimals != decimals {
        return Err(VestingError::DecimalMismatch);
    }
    if amount > wallet_balance {
        return Err(VestingError::InsufficientDeposit);
    }
    if beneficiaries.len() > MAX_BENEFICIARIES {
        return Err(VestingError::TooManyBeneficiaries);
    }
    let lock_end = match now.checked_add(RELEASE_TIMELOCK_SECONDS) {
        Some(t) => t,
        None => {
            return Err(VestingError::ArithmeticOverflow);
        },
    };
    let scale = match pow10_checked(decimals) {
        Some(p) => p,
        None => {
            return Err(VestingError::ArithmeticOverflow);
        },
    };
    let transfer_amount = match amount.checked_mul(scale) {
        Some(v) => v,
        None => {
            return Err(VestingError::ArithmeticOverflow);
        },
    };
    account.state = 0;
    account.token_amount = amount;
    account.initializer = sender;
    account.initialized_at = now;
    account.beneficiaries = beneficiaries;
    account.decimals = decimals;
    account.is_initialized = true;
    account.released = false;
    account.time_lock_end = lock_end;
    Ok(transfer_amount)
}

/// Trigger release: permitted only once the administrative timelock has
/// elapsed, from exactly `time_lock_end` onward.
///
/// The host must let only the original funder call this; identity is the
/// host's business.  The operator-supplied `state` value is recorded as an
/// audit annotation, but the claim gate is the explicit released flag.
pub fn release_lucia_vesting(account: &mut DataAccount, current_time: i64, state: u8) -> (r:
    Result<(), VestingError>)
    requires
        old(account).is_initialized,
    ensures
        current_time < old(account).time_lock_end ==> r == Err::<(), VestingError>(
            VestingError::TimelockNotExpired,
        ) && *final(account) == *old(account),
        current_time >= old(account).time_lock_end ==> r == Ok::<(), VestingError>(())
            && *final(account) == (DataAccount { released: true, state, ..*old(account) }),
{
    if current_time < account.time_lock_end {
        return Err(VestingError::TimelockNotExpired);
    }
    account.state = state;
    account.released = true;
    Ok(())
}

/// The complete outcome of a claim: either the error it fails with, or the
/// scaled amount paid out together with the registry as it stands after the
/// settlement is recorded.
pub open spec fn spec_claim_outcome(a: DataAccount, sender: u64, now: i64) -> Result<
    (int, Seq<Beneficiary>),
    VestingError,
> {
    let s = a.beneficiaries@;
    let idx = spec_find_index(s, sender);
    if !a.released {
        Err(VestingError::ReleaseNotCalled)
    } else if idx == -1 {
        Err(VestingError::BeneficiaryNotFound)
    } else {
        let b = s[idx];
        let le = a.initialized_at + b.lockup_period;
        if le > i64::MAX || le < i64::MIN {
            Err(VestingError::ArithmeticOverflow)
        } else if now < le {
            Err(VestingError::LockupNotExpired)
        } else {
            let div_eff: int = if b.confirm_round == 0 {
                b.unlock_tge as int
            } else {
                0
            };
            let alloc_eff: int = if b.confirm_round == 0 {
                b.allocated_tokens as int
            } else {
                spec_remaining(b.allocated_tokens as int, b.unlock_tge as int)
            };
            match spec_calculate_schedule(
                le,
                b.vesting_end_month as int,
                b.unlock_duration as int,
                alloc_eff,
                div_eff,
                b.confirm_round as int,
            ) {
                Err(e) => Err(e),
                Ok(sch) => match spec_evaluate_claim(
                    sch,
                    b.confirm_round as int,
                    now as int,
                    a.decimals as int,
                ) {
                    Err(e) => Err(e),
                    Ok(p) => {
                        if p.1 + 1 > u64::MAX || b.claimed_tokens + p.0 > u64::MAX {
                            Err(VestingError::ArithmeticOverflow)
                        } else {
                            Ok(
                                (
                                    p.0,
                                    s.update(
                                        idx,
                                        Beneficiary {
                                            confirm_round: (p.1 + 1) as u64,
                                            claimed_tokens: (b.claimed_tokens + p.0) as u64,
                                            ..b
                                        },
                                    ),
                                ),
                            )
                        }
                    },
                },
            }
        }
    }
}

/// Everything of the account except the registry stays as it was.
pub open spec fn spec_pool_fields_unchanged(a: DataAccount, b: DataAccount) -> bool {
    &&& b.state == a.state
    &&& b.token_amount == a.token_amount
    &&& b.initializer == a.initializer
    &&& b.initialized_at == a.initialized_at
    &&& b.decimals == a.decimals
    &&& b.is_initialized == a.is_initialized
    &&& b.released == a.released
    &&& b.time_lock_end == a.time_lock_end
}

/// Settle whatever the caller is currently owed.
///
/// Gated on the pool having been released and the caller's lockup having
/// elapsed.  The remaining schedule is regenerated from the caller's
/// progress cursor; the immediate bonus is included only while the cursor
/// still stands at round zero, so a bonus settled once is never offered
/// again, while the steady tail stays `(allocated - bonus) / rounds`
/// throughout.  Every checkpoint already unlocked is settled in one call.
/// On success the caller's cursor advances to just past the highest settled
/// round and the paid amount is added to their claimed total, atomically;
/// on any failure the account is left untouched.
pub fn claim_lux(account: &mut DataAccount, sender: u64, current_time: i64) -> (r: Result<
    u64,
    VestingError,
>)
    ensures
        r matches Err(e) ==> spec_claim_outcome(*old(account), sender, current_time)
            == Err::<(int, Seq<Beneficiary>), VestingError>(e) && *final(account) == *old(account),
        r matches Ok(amt) ==> spec_claim_outcome(*old(account), sender, current_time) matches Ok(p)
            && p.0 == amt && final(account).beneficiaries@ == p.1
            && spec_pool_fields_unchanged(*old(account), *final(account)),
{
    proof {
        lemma_find_from_props(account.beneficiaries@, sender, 0);
    }
    if !account.released {
        return Err(VestingError::ReleaseNotCalled);
    }
    let idx = match find_beneficiary_index(&account.beneficiaries, sender) {
        Some(i) => i,
        None => {
            return Err(VestingError::BeneficiaryNotFound);
        },
    };
    let b = account.beneficiaries[idx];
    let lockup_end = match account.initialized_at.checked_add(b.lockup_period) {
        Some(t) => t,
        None => {
            return Err(VestingError::ArithmeticOverflow);
        },
    };
    if current_time < lockup_end {
        return Err(VestingError::LockupNotExpired);
    }
    let div_eff: u64 = if b.confirm_round == 0 {
        b.unlock_tge
    } else {
        0
    };
    let alloc_eff: u64 = if b.confirm_round == 0 || b.unlock_tge == 0 {
        b.allocated_tokens
    } else {
        proof {
            vstd::arithmetic::div_mod::lemma_div_nonincreasing(
                b.allocated_tokens as int,
                b.unlock_tge as int,
            );
            vstd::arithmetic::div_mod::lemma_div_pos_is_pos(
                b.allocated_tokens as int,
                b.unlock_tge as int,
            );
        }
        b.allocated_tokens - b.allocated_tokens / b.unlock_tge
    };
    let schedule = match calculate_schedule(
        lockup_end,
        b.vesting_end_month,
        b.unlock_duration,
        alloc_eff,
        div_eff,
        b.confirm_round,
    ) {
        Ok(v) => v,
        Err(e) => {
            return Err(e);
        },
    };
    let (amount, highest) = match evaluate_claim(
        &schedule,
        b.confirm_round,
        current_time,
        account.decimals,
    ) {
        Ok(p) => p,
        Err(e) => {
            return Err(e);
        },
    };
    let new_cursor = match highest.checked_add(1) {
        Some(c) => c,
        None => {
            return Err(VestingError::ArithmeticOverflow);
        },
    };
    let new_claimed = match b.claimed_tokens.checked_add(amount) {
        Some(c) => c,
        None => {
            return Err(VestingError::ArithmeticOverflow);
        },
    };
    let mut updated = b;
    updated.confirm_round = new_cursor;
    updated.claimed_tokens = new_claimed;
    account.beneficiaries.set(idx, updated);
    Ok(amount)
}

/// Law: settlement only moves forward.  A successful claim strictly
/// advances the settled beneficiary's progress cursor, never decreases
/// their claimed total, and touches no other entry of the registry.
pub proof fn lemma_claim_advances(a: DataAccount, sender: u64, now: i64)
    requires
        spec_claim_outcome(a, sender, now) is Ok,
    ensures
        spec_claim_outcome(a, sender, now) matches Ok(p) ==> {
            let s = a.beneficiaries@;
            let idx = spec_find_index(s, sender);
            &&& 0 <= idx < s.len()
            &&& p.0 >= 0
            &&& p.1.len() == s.len()
            &&& p.1[idx].confirm_round > s[idx].confirm_round
            &&& p.1[idx].claimed_tokens >= s[idx].claimed_tokens
            &&& forall|j: int| 0 <= j < s.len() && j != idx ==> p.1[j] == s[j]
        },
{
    let s = a.beneficiaries@;
    let idx = spec_find_index(s, sender);
    lemma_find_from_props(s, sender, 0);
    let b = s[idx];
    let le = a.initialized_at + b.lockup_period;
    let div_eff: int = if b.confirm_round == 0 {
        b.unlock_tge as int
    } else {
        0
    };
    let alloc_eff: int = if b.confirm_round == 0 {
        b.allocated_tokens as int
    } else {
        spec_remaining(b.allocated_tokens as int, b.unlock_tge as int)
    };
    let sch = spec_calculate_schedule(
        le,
        b.vesting_end_month as int,
        b.unlock_duration as int,
        alloc_eff,
        div_eff,
        b.confirm_round as int,
    )->Ok_0;
    let cursor = b.confirm_round as int;
    let h = crate::evaluate::spec_highest_settled(sch, cursor, now as int);
    lemma_highest_achieved(sch, cursor, now as int);
    lemma_total_due_nonneg(sch, cursor, now as int);
    let p = spec_pow10(a.decimals as nat);
    vstd::arithmetic::mul::lemma_mul_nonnegative(
        crate::evaluate::spec_total_due(sch, cursor, now as int),
        p as int,
    );
    assert(h >= cursor);
}

/// Two registries whose entries carry the same keys agree on every lookup.
proof fn lemma_find_same_keys(s1: Seq<Beneficiary>, s2: Seq<Beneficiary>, key: u64, k: int)
    requires
        s1.len() == s2.len(),
        forall|j: int| 0 <= j < s1.len() ==> (#[trigger] s1[j]).key == s2[j].key,
    ensures
        spec_find_from(s1, key, k) == spec_find_from(s2, key, k),
    decreases s1.len() - k,
{
    if 0 <= k < s1.len() && s1[k].key != key {
        lemma_find_same_keys(s1, s2, key, k + 1);
    }
}

/// Law: a second claim at the same instant settles nothing.  Once a claim
/// has paid out and advanced the caller's cursor, claiming again without
/// time passing fails with `NothingDue`: no settled round is re-offered and
/// the bonus is not re-attached.
pub proof fn lemma_second_claim_nothing_due(
    a: DataAccount,
    a2: DataAccount,
    sender: u64,
    now: i64,
)
    requires
        spec_claim_outcome(a, sender, now) is Ok,
        a2.beneficiaries@ == spec_claim_outcome(a, sender, now)->Ok_0.1,
        spec_pool_fields_unchanged(a, a2),
    ensures
        spec_claim_outcome(a2, sender, now) == Err::<(int, Seq<Beneficiary>), VestingError>(
            VestingError::NothingDue,
        ),
{
    let s = a.beneficiaries@;
    lemma_find_from_props(s, sender, 0);
    let idx = spec_find_index(s, sender);
    let b = s[idx];
    let p = spec_claim_outcome(a, sender, now)->Ok_0;
    let s2 = p.1;
    assert(forall|j: int| 0 <= j < s.len() ==> (#[trigger] s[j]).key == s2[j].key);
    lemma_find_same_keys(s, s2, sender, 0);
    assert(spec_find_index(s2, sender) == idx);
    let b2 = s2[idx];
    let le = a.initialized_at + b.lockup_period;
    let total = b.vesting_end_month as int;
    let ud = b.unlock_duration as int;
    let cursor = b.confirm_round as int;
    let div_eff: int = if b.confirm_round == 0 {
        b.unlock_tge as int
    } else {
        0
    };
    let alloc_eff: int = if b.confirm_round == 0 {
        b.allocated_tokens as int
    } else {
        spec_remaining(b.allocated_tokens as int, b.unlock_tge as int)
    };
    let sch = spec_calculate_schedule(le, total, ud, alloc_eff, div_eff, cursor)->Ok_0;
    let h = spec_highest_settled(sch, cursor, now as int);
    assert(spec_any_qualifies(sch, cursor, now as int));
    assert(cursor <= total) by {
        if cursor > total {
            assert(sch.len() == 0);
        }
    }
    assert(le + ud <= i64::MAX);
    lemma_highest_achieved(sch, cursor, now as int);
    assert(0 <= cursor <= h);
    assert(b2.confirm_round == h + 1);
    assert(b2.lockup_period == b.lockup_period);
    let alloc2: int = spec_remaining(b.allocated_tokens as int, b.unlock_tge as int);
    assert(alloc2 == (if b2.confirm_round == 0 {
        b2.allocated_tokens as int
    } else {
        spec_remaining(b2.allocated_tokens as int, b2.unlock_tge as int)
    }));
    if h + 1 <= total {
        lemma_no_resettle(le, total, ud, alloc_eff, div_eff, alloc2, 0, cursor, now as int);
    }
}

} // verus!
