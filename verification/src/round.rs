//! Rounding to multiples.
use vstd::arithmetic::div_mod::{lemma_fundamental_div_mod, lemma_mod_multiples_basic};
use vstd::prelude::*;

verus! {

/// The smallest multiple of `divisor` that is not smaller than `value`.
pub open spec fn spec_round_up(value: int, divisor: int) -> int {
    (value + divisor - 1) / divisor * divisor
}

/// Rounding up gives a multiple, not smaller than the number and less than one divisor away from
/// it; a multiple stays as it is.
pub proof fn lemma_round_up(value: int, divisor: int)
    requires
        value >= 0,
        divisor > 0,
    ensures
        spec_round_up(value, divisor) % divisor == 0,
        value <= spec_round_up(value, divisor) < value + divisor,
        value % divisor == 0 ==> spec_round_up(value, divisor) == value,
{
    let sum = value + divisor - 1;
    let q = sum / divisor;
    lemma_fundamental_div_mod(sum, divisor);
    assert(q * divisor == divisor * q) by (nonlinear_arith);
    lemma_mod_multiples_basic(q, divisor);
    if value % divisor == 0 {
        let k = value / divisor;
        lemma_fundamental_div_mod(value, divisor);
        assert(value == divisor * k);
        let r = spec_round_up(value, divisor);
        assert(r - value == divisor * (q - k)) by (nonlinear_arith)
            requires
                r == q * divisor,
                value == divisor * k,
        ;
        assert(q == k) by (nonlinear_arith)
            requires
                0 <= divisor * (q - k) < divisor,
                divisor > 0,
        ;
    }
}

/// Returns the smallest multiple of `divisor` that is not smaller than `val`.  There is none for a
/// divisor of zero, and none is returned where `val + (divisor - 1)` is too large.
pub fn round_up(val: u64, divisor: u64) -> (rounded: Option<u64>)
    ensures
        rounded == (if divisor == 0 || val + divisor - 1 > u64::MAX {
            None
        } else {
            Some(spec_round_up(val as int, divisor as int) as u64)
        }),
        rounded matches Some(rounded) ==> rounded == spec_round_up(val as int, divisor as int),
{
    if divisor == 0 {
        return None;
    }
    match val.checked_add(divisor - 1) {
        None => None,
        Some(sum) => {
            proof {
                lemma_round_up(val as int, divisor as int);
                lemma_fundamental_div_mod(sum as int, divisor as int);
                assert((sum / divisor) * divisor == divisor * (sum / divisor)) by (nonlinear_arith);
            }
            Some((sum / divisor) * divisor)
        },
    }
}

} // verus!
