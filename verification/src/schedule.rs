use vstd::prelude::*;
use vstd::arithmetic::div_mod::*;
use vstd::arithmetic::mul::*;

use crate::errors::VestingError;
use crate::frac::Frac;

verus! {

/// One unlock checkpoint of a vesting schedule.
#[derive(Clone, Copy, Debug, PartialEq, Eq, Structural)]
pub struct Checkpoint {
    /// The vesting round this checkpoint settles.
    pub round_index: u64,
    /// The instant from which this checkpoint is payable.
    pub unlock_time: i64,
    /// The steady per-round amount, the same exact fraction in every round.
    pub steady_amount: Frac,
    /// The immediate bonus, attached only to the schedule's first round.
    pub bonus_amount: u64,
}

/// The immediate bonus: the allocation divided by the configured divisor,
/// truncating; a divisor of zero means no bonus.
pub open spec fn spec_bonus(alloc: int, div: int) -> int {
    if div > 0 {
        alloc / div
    } else {
        0
    }
}

/// What is left for the linear tail once the bonus is carved out.
pub open spec fn spec_remaining(alloc: int, div: int) -> int {
    alloc - spec_bonus(alloc, div)
}

/// Linear interpolation with truncating division:
/// round `i` of `total` unlocks at `st + (ud * i) / total`.
pub open spec fn spec_unlock_time(st: int, ud: int, total: int, i: int) -> int {
    st + (ud * i) / total
}

/// How many checkpoints a schedule from `start` to `total` inclusive holds.
pub open spec fn spec_schedule_len(total: int, start: int) -> nat {
    if start <= total {
        (total - start + 1) as nat
    } else {
        0
    }
}

/// The `k`-th checkpoint of the schedule, covering round `start + k`.
pub open spec fn spec_checkpoint(
    st: int,
    total: int,
    ud: int,
    alloc: int,
    div: int,
    start: int,
    k: int,
) -> Checkpoint {
    Checkpoint {
        round_index: (start + k) as u64,
        unlock_time: spec_unlock_time(st, ud, total, start + k) as i64,
        steady_amount: Frac { num: spec_remaining(alloc, div) as u64, den: total as u64 },
        bonus_amount: if k == 0 && div != 0 {
            spec_bonus(alloc, div) as u64
        } else {
            0u64
        },
    }
}

/// The whole schedule: one checkpoint per round from `start` to `total`.
pub open spec fn spec_schedule(
    st: int,
    total: int,
    ud: int,
    alloc: int,
    div: int,
    start: int,
) -> Seq<Checkpoint> {
    Seq::new(spec_schedule_len(total, start), |k: int| spec_checkpoint(st, total, ud, alloc, div, start, k))
}

/// The complete outcome of the schedule calculation: which inputs are
/// rejected, and the exact schedule produced for the rest.
pub open spec fn spec_calculate_schedule(
    st: int,
    total: int,
    ud: int,
    alloc: int,
    div: int,
    start: int,
) -> Result<Seq<Checkpoint>, VestingError> {
    if total <= 0 {
        Err(VestingError::InvalidSchedule)
    } else if start <= total && st + ud > i64::MAX {
        Err(VestingError::ArithmeticOverflow)
    } else {
        Ok(spec_schedule(st, total, ud, alloc, div, start))
    }
}

/// Materialize the unlock checkpoints for one beneficiary's allocation.
///
/// Rounds run from `confirm_round` to `vesting_end_month` inclusive.  The
/// bonus (`allocated_tokens / unlock_tge`, truncating; none when the divisor
/// is zero) is attached to the first generated round; every round carries the
/// same exact steady fraction `remaining / vesting_end_month`.  A schedule
/// with no rounds fails with `InvalidSchedule`; an unlock instant past the
/// representable range of timestamps fails with `ArithmeticOverflow`.
pub fn calculate_schedule(
    start_time: i64,
    vesting_end_month: u64,
    unlock_duration: u64,
    allocated_tokens: u64,
    unlock_tge: u64,
    confirm_round: u64,
) -> (r: Result<Vec<Checkpoint>, VestingError>)
    ensures
        r matches Ok(v) ==> spec_calculate_schedule(
            start_time as int,
            vesting_end_month as int,
            unlock_duration as int,
            allocated_tokens as int,
            unlock_tge as int,
            confirm_round as int,
        ) == Ok::<Seq<Checkpoint>, VestingError>(v@),
        r matches Err(e) ==> spec_calculate_schedule(
            start_time as int,
            vesting_end_month as int,
            unlock_duration as int,
            allocated_tokens as int,
            unlock_tge as int,
            confirm_round as int,
        ) == Err::<Seq<Checkpoint>, VestingError>(e),
{
    if vesting_end_month == 0 {
        return Err(VestingError::InvalidSchedule);
    }
    let bonus: u64 = if unlock_tge > 0 {
        proof {
            lemma_div_nonincreasing(allocated_tokens as int, unlock_tge as int);
        }
        allocated_tokens / unlock_tge
    } else {
        0
    };
    let remaining: u64 = allocated_tokens - bonus;
    let mut schedule: Vec<Checkpoint> = Vec::new();
    let mut i: u64 = confirm_round;
    while i <= vesting_end_month
        invariant_except_break
            vesting_end_month >= 1,
            confirm_round <= i,
            confirm_round <= vesting_end_month ==> i <= vesting_end_month,
            confirm_round > vesting_end_month ==> i == confirm_round,
            bonus == spec_bonus(allocated_tokens as int, unlock_tge as int),
            remaining == spec_remaining(allocated_tokens as int, unlock_tge as int),
            schedule@.len() == i - confirm_round,
            forall|k: int| 0 <= k < schedule@.len() ==> schedule@[k] == spec_checkpoint(
                start_time as int,
                vesting_end_month as int,
                unlock_duration as int,
                allocated_tokens as int,
                unlock_tge as int,
                confirm_round as int,
                k,
            ),
            forall|k: int| 0 <= k < schedule@.len() ==> (#[trigger] schedule@[k]).unlock_time == spec_unlock_time(
                start_time as int,
                unlock_duration as int,
                vesting_end_month as int,
                confirm_round + k,
            ),
        ensures
            vesting_end_month >= 1,
            bonus == spec_bonus(allocated_tokens as int, unlock_tge as int),
            remaining == spec_remaining(allocated_tokens as int, unlock_tge as int),
            schedule@.len() == spec_schedule_len(vesting_end_month as int, confirm_round as int),
            forall|k: int| 0 <= k < schedule@.len() ==> schedule@[k] == spec_checkpoint(
                start_time as int,
                vesting_end_month as int,
                unlock_duration as int,
                allocated_tokens as int,
                unlock_tge as int,
                confirm_round as int,
                k,
            ),
            forall|k: int| 0 <= k < schedule@.len() ==> (#[trigger] schedule@[k]).unlock_time == spec_unlock_time(
                start_time as int,
                unlock_duration as int,
                vesting_end_month as int,
                confirm_round + k,
            ),
        decreases vesting_end_month - i,
    {
        proof {
            assert((unlock_duration as int) * (i as int) <= (u64::MAX as int) * (u64::MAX as int)) by {
                lemma_mul_upper_bound(unlock_duration as int, u64::MAX as int, i as int, u64::MAX as int);
            }
            lemma_mul_is_commutative(unlock_duration as int, i as int);
            lemma_mul_is_commutative(unlock_duration as int, vesting_end_month as int);
            lemma_mul_inequality(i as int, vesting_end_month as int, unlock_duration as int);
            lemma_div_is_ordered(
                (unlock_duration as int) * (i as int),
                (unlock_duration as int) * (vesting_end_month as int),
                vesting_end_month as int,
            );
            lemma_div_multiples_vanish(unlock_duration as int, vesting_end_month as int);
            lemma_div_pos_is_pos((unlock_duration as int) * (i as int), vesting_end_month as int);
        }
        let prod: u128 = (unlock_duration as u128) * (i as u128);
        let offset128: u128 = prod / (vesting_end_month as u128);
        proof {
            assert(prod == (unlock_duration as int) * (i as int));
            assert(offset128 == ((unlock_duration as int) * (i as int)) / (vesting_end_month as int));
            assert(offset128 <= unlock_duration);
        }
        let offset: u64 = offset128 as u64;
        let t: i128 = (start_time as i128) + (offset as i128);
        if t > (i64::MAX as i128) {
            return Err(VestingError::ArithmeticOverflow);
        }
        let unlock: i64 = t as i64;
        let cp = Checkpoint {
            round_index: i,
            unlock_time: unlock,
            steady_amount: Frac { num: remaining, den: vesting_end_month },
            bonus_amount: if i == confirm_round && unlock_tge != 0 {
                bonus
            } else {
                0
            },
        };
        proof {
            assert(cp == spec_checkpoint(
                start_time as int,
                vesting_end_month as int,
                unlock_duration as int,
                allocated_tokens as int,
                unlock_tge as int,
                confirm_round as int,
                i - confirm_round,
            ));
        }
        schedule.push(cp);
        if i == vesting_end_month {
            break;
        }
        i = i + 1;
    }
    proof {
        if confirm_round <= vesting_end_month {
            let last = schedule@.len() - 1;
            assert(schedule@[last].unlock_time == spec_unlock_time(
                start_time as int,
                unlock_duration as int,
                vesting_end_month as int,
                confirm_round + last,
            ));
            assert(confirm_round + last == vesting_end_month);
            lemma_mul_is_commutative(unlock_duration as int, vesting_end_month as int);
            lemma_div_multiples_vanish(unlock_duration as int, vesting_end_month as int);
            assert(start_time + unlock_duration <= i64::MAX);
        }
        assert(schedule@ =~= spec_schedule(
            start_time as int,
            vesting_end_month as int,
            unlock_duration as int,
            allocated_tokens as int,
            unlock_tge as int,
            confirm_round as int,
        ));
    }
    Ok(schedule)
}

/// The truncated steady amounts of a schedule, summed over every checkpoint.
pub open spec fn spec_steady_sum(s: Seq<Checkpoint>) -> int
    decreases s.len(),
{
    if s.len() == 0 {
        0
    } else {
        spec_steady_sum(s.drop_last()) + s.last().steady_amount.trunc()
    }
}

/// A sequence of checkpoints whose steady amounts all truncate to the same
/// value sums to that value times its length.
proof fn lemma_steady_sum_const(s: Seq<Checkpoint>, v: int)
    requires
        forall|k: int| 0 <= k < s.len() ==> #[trigger] s[k].steady_amount.trunc() == v,
    ensures
        spec_steady_sum(s) == s.len() * v,
    decreases s.len(),
{
    if s.len() > 0 {
        lemma_steady_sum_const(s.drop_last(), v);
        lemma_mul_is_distributive_sub_other_way(v, s.len() as int, 1);
        assert(s[s.len() - 1].steady_amount.trunc() == v);
    }
}

/// Law: over a full vesting tail — one checkpoint per round, rounds 1 to
/// `total` — the truncated steady amounts sum to the remaining allocation,
/// short of it by less than one unit per round of truncation loss.
pub proof fn lemma_steady_sum_close(st: int, total: int, ud: int, alloc: int, div: int)
    requires
        1 <= total <= u64::MAX,
        0 <= alloc <= u64::MAX,
    ensures
        ({
            let s = spec_schedule(st, total, ud, alloc, div, 1);
            let rem = spec_remaining(alloc, div);
            rem - total < spec_steady_sum(s) <= rem
        }),
{
    let s = spec_schedule(st, total, ud, alloc, div, 1);
    let rem = spec_remaining(alloc, div);
    if div > 0 {
        lemma_div_nonincreasing(alloc, div);
        lemma_div_pos_is_pos(alloc, div);
    }
    assert(0 <= rem <= alloc);
    assert(s.len() == total);
    lemma_div_pos_is_pos(rem, total);
    assert(forall|k: int| 0 <= k < s.len() ==> #[trigger] s[k].steady_amount.trunc() == rem / total)
        by {
        assert(forall|k: int| 0 <= k < s.len() ==> #[trigger] s[k].steady_amount == (Frac {
            num: rem as u64,
            den: total as u64,
        }));
    }
    lemma_steady_sum_const(s, rem / total);
    lemma_fundamental_div_mod(rem, total);
    lemma_mod_division_less_than_divisor(rem, total);
}

/// Law: unlock instants never step backwards as the round index grows.
pub proof fn lemma_unlock_time_monotone(st: int, total: int, ud: int, i: int, j: int)
    requires
        total >= 1,
        ud >= 0,
        i <= j,
    ensures
        spec_unlock_time(st, ud, total, i) <= spec_unlock_time(st, ud, total, j),
{
    lemma_mul_inequality(i, j, ud);
    lemma_div_is_ordered(ud * i, ud * j, total);
}

/// Law: the final round unlocks exactly when the whole span has elapsed.
pub proof fn lemma_unlock_time_end(st: int, total: int, ud: int)
    requires
        total >= 1,
    ensures
        spec_unlock_time(st, ud, total, total) == st + ud,
{
    lemma_mul_is_commutative(ud, total);
    lemma_div_multiples_vanish(ud, total);
}

/// Law: within a generated schedule the unlock instants never decrease
/// with the round index, and the final round's checkpoint unlocks exactly
/// when the whole span has elapsed.
pub proof fn lemma_schedule_unlock_monotone(
    st: int,
    total: int,
    ud: int,
    alloc: int,
    div: int,
    start: int,
)
    requires
        1 <= total <= u64::MAX,
        0 <= ud,
        0 <= start,
        i64::MIN <= st,
        st + ud <= i64::MAX,
    ensures
        ({
            let s = spec_schedule(st, total, ud, alloc, div, start);
            &&& forall|k: int|
                0 <= k < s.len() - 1 ==> (#[trigger] s[k]).unlock_time <= s[k + 1].unlock_time
            &&& start <= total ==> s[s.len() - 1].unlock_time == st + ud
        }),
{
    let s = spec_schedule(st, total, ud, alloc, div, start);
    assert forall|k: int| 0 <= k < s.len() - 1 implies (#[trigger] s[k]).unlock_time <= s[k
        + 1].unlock_time by {
        let i = start + k;
        let j = start + k + 1;
        lemma_mul_nonnegative(ud, i);
        lemma_mul_nonnegative(ud, j);
        lemma_div_pos_is_pos(ud * i, total);
        lemma_div_pos_is_pos(ud * j, total);
        lemma_mul_is_commutative(ud, i);
        lemma_mul_is_commutative(ud, j);
        lemma_mul_is_commutative(ud, total);
        lemma_mul_inequality(i, total, ud);
        lemma_mul_inequality(j, total, ud);
        lemma_div_is_ordered(ud * i, ud * total, total);
        lemma_div_is_ordered(ud * j, ud * total, total);
        lemma_div_multiples_vanish(ud, total);
        lemma_unlock_time_monotone(st, total, ud, i, j);
        assert(s[k].unlock_time == spec_unlock_time(st, ud, total, i));
        assert(s[k + 1].unlock_time == spec_unlock_time(st, ud, total, j));
    }
    if start <= total {
        let last = s.len() - 1;
        lemma_mul_nonnegative(ud, total);
        lemma_div_pos_is_pos(ud * total, total);
        lemma_mul_is_commutative(ud, total);
        lemma_div_multiples_vanish(ud, total);
        lemma_unlock_time_end(st, total, ud);
        assert(s[last].unlock_time == spec_unlock_time(st, ud, total, total));
    }
}

/// Law: the schedule calculation is pure — identical inputs always yield
/// identical output, so two results that both satisfy its contract are the
/// same schedule (or the same rejection).
pub proof fn lemma_schedule_idempotent(
    st: int,
    total: int,
    ud: int,
    alloc: int,
    div: int,
    start: int,
    r1: Result<Seq<Checkpoint>, VestingError>,
    r2: Result<Seq<Checkpoint>, VestingError>,
)
    requires
        r1 == spec_calculate_schedule(st, total, ud, alloc, div, start),
        r2 == spec_calculate_schedule(st, total, ud, alloc, div, start),
    ensures
        r1 == r2,
{
}

} // verus!
