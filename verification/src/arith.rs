use vstd::prelude::*;

verus! {

/// Ten to the power `n`: the factor that turns whole tokens into
/// fractional settlement units of a token with `n` decimals.
pub open spec fn spec_pow10(n: nat) -> nat
    decreases n,
{
    if n == 0 {
        1
    } else {
        10 * spec_pow10((n - 1) as nat)
    }
}

/// Powers of ten grow monotonically with the exponent.
pub proof fn lemma_pow10_mono(a: nat, b: nat)
    requires
        a <= b,
    ensures
        spec_pow10(a) <= spec_pow10(b),
    decreases b,
{
    if a < b {
        lemma_pow10_mono(a, (b - 1) as nat);
    }
}

/// Compute `10^d`, reporting `None` instead of overflowing.
pub fn pow10_checked(d: u8) -> (r: Option<u64>)
    ensures
        r matches Some(p) ==> p == spec_pow10(d as nat),
        r is Some <==> spec_pow10(d as nat) <= u64::MAX,
{
    let mut acc: u64 = 1;
    let mut i: u8 = 0;
    while i < d
        invariant
            i <= d,
            acc == spec_pow10(i as nat),
        decreases d - i,
    {
        match acc.checked_mul(10) {
            Some(next) => {
                acc = next;
                i = i + 1;
            },
            None => {
                proof {
                    lemma_pow10_mono((i + 1) as nat, d as nat);
                }
                return None;
            },
        }
    }
    Some(acc)
}

} // verus!
