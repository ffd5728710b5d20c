use vstd::prelude::*;
use vstd::arithmetic::div_mod::*;
use vstd::arithmetic::mul::*;

use crate::arith::{pow10_checked, spec_pow10};
use crate::errors::VestingError;
use crate::schedule::{spec_schedule, spec_unlock_time, Checkpoint};

verus! {

/// A checkpoint is payable when its unlock instant has passed and its round
/// has not been settled yet.
pub open spec fn spec_qualifies(c: Checkpoint, cursor: int, now: int) -> bool {
    c.unlock_time <= now && c.round_index >= cursor
}

/// A checkpoint's amounts can be settled only if its steady fraction is
/// finite.
pub open spec fn spec_item_valid(c: Checkpoint) -> bool {
    c.steady_amount.is_finite()
}

/// What one checkpoint pays: its steady fraction truncated to whole units,
/// plus its bonus.
pub open spec fn spec_item_due(c: Checkpoint) -> int {
    c.steady_amount.trunc() + c.bonus_amount
}

/// Whether any checkpoint of the schedule is currently payable.
pub open spec fn spec_any_qualifies(s: Seq<Checkpoint>, cursor: int, now: int) -> bool {
    exists|k: int| 0 <= k < s.len() && spec_qualifies(#[trigger] s[k], cursor, now)
}

/// Whether every currently payable checkpoint holds a finite amount.
pub open spec fn spec_all_valid(s: Seq<Checkpoint>, cursor: int, now: int) -> bool {
    forall|k: int|
        0 <= k < s.len() && spec_qualifies(#[trigger] s[k], cursor, now) ==> spec_item_valid(s[k])
}

/// The unscaled total due: the sum of what every payable checkpoint pays.
pub open spec fn spec_total_due(s: Seq<Checkpoint>, cursor: int, now: int) -> int
    decreases s.len(),
{
    if s.len() == 0 {
        0
    } else {
        spec_total_due(s.drop_last(), cursor, now) + if spec_qualifies(s.last(), cursor, now) {
            spec_item_due(s.last())
        } else {
            0
        }
    }
}

/// The greatest round index among the payable checkpoints, or `-1` when
/// none is payable.
pub open spec fn spec_highest_settled(s: Seq<Checkpoint>, cursor: int, now: int) -> int
    decreases s.len(),
{
    if s.len() == 0 {
        -1
    } else {
        let rest = spec_highest_settled(s.drop_last(), cursor, now);
        if spec_qualifies(s.last(), cursor, now) && s.last().round_index > rest {
            s.last().round_index as int
        } else {
            rest
        }
    }
}

/// The complete outcome of claim evaluation over a schedule: which inputs
/// are rejected, and the scaled amount and highest settled round for the
/// rest.
pub open spec fn spec_evaluate_claim(
    s: Seq<Checkpoint>,
    cursor: int,
    now: int,
    scale: int,
) -> Result<(int, int), VestingError> {
    if !spec_any_qualifies(s, cursor, now) {
        Err(VestingError::NothingDue)
    } else if !spec_all_valid(s, cursor, now) {
        Err(VestingError::InvalidAmount)
    } else {
        let due = spec_total_due(s, cursor, now);
        let p = spec_pow10(scale as nat);
        if due > u64::MAX || p > u64::MAX || due * p > u64::MAX {
            Err(VestingError::ArithmeticOverflow)
        } else {
            Ok((due * p, spec_highest_settled(s, cursor, now)))
        }
    }
}

/// Extending a prefix by one checkpoint adds exactly what that checkpoint
/// pays, if it is payable.
proof fn lemma_total_due_step(s: Seq<Checkpoint>, cursor: int, now: int, k: int)
    requires
        0 <= k < s.len(),
    ensures
        spec_total_due(s.take(k + 1), cursor, now) == spec_total_due(s.take(k), cursor, now)
            + if spec_qualifies(s[k], cursor, now) {
            spec_item_due(s[k])
        } else {
            0
        },
{
    assert(s.take(k + 1).drop_last() =~= s.take(k));
    assert(s.take(k + 1).last() == s[k]);
}

/// The highest settled round of a prefix extended by one checkpoint.
proof fn lemma_highest_step(s: Seq<Checkpoint>, cursor: int, now: int, k: int)
    requires
        0 <= k < s.len(),
    ensures
        spec_highest_settled(s.take(k + 1), cursor, now) == ({
            let rest = spec_highest_settled(s.take(k), cursor, now);
            if spec_qualifies(s[k], cursor, now) && s[k].round_index > rest {
                s[k].round_index as int
            } else {
                rest
            }
        }),
{
    assert(s.take(k + 1).drop_last() =~= s.take(k));
    assert(s.take(k + 1).last() == s[k]);
}

/// A payable, finite checkpoint never pays a negative amount.
proof fn lemma_item_due_nonneg(c: Checkpoint)
    requires
        spec_item_valid(c),
    ensures
        spec_item_due(c) >= 0,
{
    lemma_div_pos_is_pos(c.steady_amount.num as int, c.steady_amount.den as int);
}

/// Law: when every payable checkpoint is finite, the total due is never
/// negative.
pub proof fn lemma_total_due_nonneg(s: Seq<Checkpoint>, cursor: int, now: int)
    requires
        spec_all_valid(s, cursor, now),
    ensures
        spec_total_due(s, cursor, now) >= 0,
    decreases s.len(),
{
    if s.len() > 0 {
        assert(forall|k: int|
            0 <= k < s.drop_last().len() ==> s.drop_last()[k] == #[trigger] s[k]);
        lemma_total_due_nonneg(s.drop_last(), cursor, now);
        if spec_qualifies(s.last(), cursor, now) {
            lemma_item_due_nonneg(s.last());
        }
    }
}

/// A prefix of the schedule never sums to more than the whole of it.
proof fn lemma_total_due_prefix(s: Seq<Checkpoint>, cursor: int, now: int, m: int)
    requires
        spec_all_valid(s, cursor, now),
        0 <= m <= s.len(),
    ensures
        spec_total_due(s.take(m), cursor, now) <= spec_total_due(s, cursor, now),
    decreases s.len() - m,
{
    if m == s.len() {
        assert(s.take(m) =~= s);
    } else {
        lemma_total_due_step(s, cursor, now, m);
        if spec_qualifies(s[m], cursor, now) {
            lemma_item_due_nonneg(s[m]);
        }
        lemma_total_due_prefix(s, cursor, now, m + 1);
    }
}

/// Every payable checkpoint's round is bounded by the highest settled round.
pub proof fn lemma_highest_is_max(s: Seq<Checkpoint>, cursor: int, now: int, k: int)
    requires
        0 <= k < s.len(),
        spec_qualifies(s[k], cursor, now),
    ensures
        s[k].round_index <= spec_highest_settled(s, cursor, now),
    decreases s.len(),
{
    if k < s.len() - 1 {
        assert(s.drop_last()[k] == s[k]);
        lemma_highest_is_max(s.drop_last(), cursor, now, k);
    }
}

/// With no payable checkpoint the highest settled round is the sentinel.
proof fn lemma_highest_none(s: Seq<Checkpoint>, cursor: int, now: int)
    requires
        !spec_any_qualifies(s, cursor, now),
    ensures
        spec_highest_settled(s, cursor, now) == -1,
    decreases s.len(),
{
    if s.len() > 0 {
        assert(forall|k: int|
            0 <= k < s.drop_last().len() ==> s.drop_last()[k] == #[trigger] s[k]);
        lemma_highest_none(s.drop_last(), cursor, now);
        assert(!spec_qualifies(s.last(), cursor, now));
    }
}

/// When something is payable, the highest settled round is itself the round
/// of some payable checkpoint.
pub proof fn lemma_highest_achieved(s: Seq<Checkpoint>, cursor: int, now: int)
    requires
        spec_any_qualifies(s, cursor, now),
    ensures
        exists|k: int|
            0 <= k < s.len() && spec_qualifies(#[trigger] s[k], cursor, now)
                && s[k].round_index == spec_highest_settled(s, cursor, now),
    decreases s.len(),
{
    let rest = spec_highest_settled(s.drop_last(), cursor, now);
    if spec_qualifies(s.last(), cursor, now) && s.last().round_index > rest {
        assert(spec_qualifies(s[s.len() - 1], cursor, now));
    } else {
        if spec_any_qualifies(s.drop_last(), cursor, now) {
            lemma_highest_achieved(s.drop_last(), cursor, now);
            let k = choose|k: int|
                0 <= k < s.drop_last().len() && spec_qualifies(
                    #[trigger] s.drop_last()[k],
                    cursor,
                    now,
                ) && s.drop_last()[k].round_index == rest;
            assert(s.drop_last()[k] == s[k]);
            assert(spec_qualifies(s[k], cursor, now));
        } else {
            lemma_highest_none(s.drop_last(), cursor, now);
            let j = choose|j: int| 0 <= j < s.len() && spec_qualifies(#[trigger] s[j], cursor, now);
            if j < s.len() - 1 {
                assert(s.drop_last()[j] == s[j]);
                assert(spec_qualifies(s.drop_last()[j], cursor, now));
                assert(false);
            }
            assert(false);
        }
    }
}

/// Determine what a schedule currently pays and how far it settles.
///
/// A checkpoint is counted when its unlock instant has passed and its round
/// is at or past `progress_cursor`.  Each counted steady fraction is
/// truncated toward zero to whole units; the units are summed with
/// overflow-checked addition and finally scaled by ten to the power
/// `decimal_scale`, also overflow-checked.  Fails with `NothingDue` when no
/// checkpoint is payable, `InvalidAmount` when a payable checkpoint holds a
/// non-finite fraction, and `ArithmeticOverflow` when a sum or the scaling
/// leaves the integral range.
#[verifier::rlimit(50)]
pub fn evaluate_claim(
    schedule: &Vec<Checkpoint>,
    progress_cursor: u64,
    current_time: i64,
    decimal_scale: u8,
) -> (r: Result<(u64, u64), VestingError>)
    ensures
        r matches Ok(p) ==> spec_evaluate_claim(
            schedule@,
            progress_cursor as int,
            current_time as int,
            decimal_scale as int,
        ) == Ok::<(int, int), VestingError>((p.0 as int, p.1 as int)),
        r matches Err(e) ==> spec_evaluate_claim(
            schedule@,
            progress_cursor as int,
            current_time as int,
            decimal_scale as int,
        ) == Err::<(int, int), VestingError>(e),
{
    let ghost gs = schedule@;
    let ghost gc = progress_cursor as int;
    let ghost gt = current_time as int;

    let mut any = false;
    let mut highest: u64 = 0;
    let mut k: usize = 0;
    while k < schedule.len()
        invariant
            gs == schedule@,
            gc == progress_cursor as int,
            gt == current_time as int,
            0 <= k <= gs.len(),
            any == spec_any_qualifies(gs.take(k as int), gc, gt),
            spec_all_valid(gs.take(k as int), gc, gt),
            any ==> highest == spec_highest_settled(gs.take(k as int), gc, gt),
            !any ==> spec_highest_settled(gs.take(k as int), gc, gt) == -1,
            !any ==> highest == 0,
        decreases gs.len() - k,
    {
        let c = schedule[k];
        proof {
            lemma_highest_step(gs, gc, gt, k as int);
            assert(gs.take(k as int + 1)[k as int] == gs[k as int]);
            assert(forall|j: int|
                0 <= j < k as int ==> gs.take(k as int + 1)[j] == #[trigger] gs.take(
                    k as int,
                )[j]);
        }
        if c.unlock_time <= current_time && c.round_index >= progress_cursor {
            if c.steady_amount.den == 0 {
                proof {
                    assert(spec_qualifies(gs[k as int], gc, gt));
                    assert(!spec_item_valid(gs[k as int]));
                }
                return Err(VestingError::InvalidAmount);
            }
            any = true;
            if c.round_index > highest {
                highest = c.round_index;
            }
            proof {
                assert(spec_qualifies(gs[k as int], gc, gt));
            }
        }
        k = k + 1;
    }
    proof {
        assert(gs.take(gs.len() as int) =~= gs);
    }
    if !any {
        return Err(VestingError::NothingDue);
    }

    let mut total: u64 = 0;
    k = 0;
    while k < schedule.len()
        invariant
            gs == schedule@,
            gc == progress_cursor as int,
            gt == current_time as int,
            0 <= k <= gs.len(),
            spec_any_qualifies(gs, gc, gt),
            spec_all_valid(gs, gc, gt),
            highest == spec_highest_settled(gs, gc, gt),
            total == spec_total_due(gs.take(k as int), gc, gt),
        decreases gs.len() - k,
    {
        let c = schedule[k];
        proof {
            lemma_total_due_step(gs, gc, gt, k as int);
        }
        if c.unlock_time <= current_time && c.round_index >= progress_cursor {
            proof {
                assert(spec_qualifies(gs[k as int], gc, gt));
                assert(spec_item_valid(gs[k as int]));
            }
            let steady_units = c.steady_amount.floor_units();
            let with_steady = match total.checked_add(steady_units) {
                Some(t) => t,
                None => {
                    proof {
                        lemma_total_due_prefix(gs, gc, gt, k as int + 1);
                    }
                    return Err(VestingError::ArithmeticOverflow);
                },
            };
            total = match with_steady.checked_add(c.bonus_amount) {
                Some(t) => t,
                None => {
                    proof {
                        lemma_total_due_prefix(gs, gc, gt, k as int + 1);
                    }
                    return Err(VestingError::ArithmeticOverflow);
                },
            };
        }
        k = k + 1;
    }
    proof {
        assert(gs.take(gs.len() as int) =~= gs);
    }

    let p = match pow10_checked(decimal_scale) {
        Some(p) => p,
        None => {
            return Err(VestingError::ArithmeticOverflow);
        },
    };
    let scaled = match total.checked_mul(p) {
        Some(v) => v,
        None => {
            return Err(VestingError::ArithmeticOverflow);
        },
    };
    Ok((scaled, highest))
}

/// Law: a settled round is never offered again.  When a claim settles every
/// currently payable round of a schedule — the highest being `h` — then a
/// schedule regenerated from cursor `h + 1`, with whatever allocation and
/// bonus divisor, holds nothing payable at the same instant.
pub proof fn lemma_no_resettle(
    st: int,
    total: int,
    ud: int,
    alloc: int,
    div: int,
    alloc2: int,
    div2: int,
    start: int,
    now: int,
)
    requires
        1 <= total <= u64::MAX,
        0 <= ud,
        0 <= start,
        i64::MIN <= st,
        st + ud <= i64::MAX,
        spec_any_qualifies(spec_schedule(st, total, ud, alloc, div, start), start, now),
    ensures
        ({
            let h = spec_highest_settled(spec_schedule(st, total, ud, alloc, div, start), start, now);
            !spec_any_qualifies(spec_schedule(st, total, ud, alloc2, div2, h + 1), h + 1, now)
        }),
{
    let s1 = spec_schedule(st, total, ud, alloc, div, start);
    let h = spec_highest_settled(s1, start, now);
    lemma_highest_achieved(s1, start, now);
    let w = choose|k: int|
        0 <= k < s1.len() && spec_qualifies(#[trigger] s1[k], start, now) && s1[k].round_index == h;
    assert(s1[w].round_index == start + w);
    assert(start <= h <= total);
    let s2 = spec_schedule(st, total, ud, alloc2, div2, h + 1);
    assert forall|m: int| 0 <= m < s2.len() implies !spec_qualifies(#[trigger] s2[m], h + 1, now) by {
        let r = h + 1 + m;
        assert(h + 1 <= r <= total);
        lemma_mul_nonnegative(ud, r);
        lemma_div_pos_is_pos(ud * r, total);
        lemma_mul_is_commutative(ud, r);
        lemma_mul_is_commutative(ud, total);
        lemma_mul_inequality(r, total, ud);
        lemma_div_is_ordered(ud * r, ud * total, total);
        lemma_div_multiples_vanish(ud, total);
        assert(st <= spec_unlock_time(st, ud, total, r) <= st + ud);
        assert(s2[m].round_index == r);
        assert(s2[m].unlock_time == spec_unlock_time(st, ud, total, r));
        if spec_qualifies(s2[m], h + 1, now) {
            let j = r - start;
            assert(0 <= j < s1.len());
            assert(s1[j].round_index == r);
            assert(s1[j].unlock_time == spec_unlock_time(st, ud, total, r));
            assert(spec_qualifies(s1[j], start, now));
            lemma_highest_is_max(s1, start, now, j);
            assert(false);
        }
    }
}

} // verus!
