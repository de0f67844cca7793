//! Direct issuance of value: the amount to mint for a number of whole units.

use vstd::prelude::*;

use crate::distribution::{lemma_pow10_monotone, pow10};
use crate::errors::MyError;

verus! {

/// The number of smallest units in `amount` whole units of a mint with
/// `decimals` decimals: `amount * 10^decimals`, or `AmountOverflow` where
/// that does not fit in 64 bits.
pub fn handle_mint_token(amount: u64, decimals: u8) -> (r: Result<u64, MyError>)
    ensures
        amount * pow10(decimals as nat) <= u64::MAX ==> r == Ok::<u64, MyError>(
            (amount * pow10(decimals as nat)) as u64,
        ),
        amount * pow10(decimals as nat) > u64::MAX ==> r == Err::<u64, MyError>(MyError::AmountOverflow),
{
    if amount == 0 {
        assert(amount * pow10(decimals as nat) == 0);
        return Ok(0);
    }
    let mut scaled: u64 = amount;
    let mut i: u8 = 0;
    assert(pow10(0) == 1);
    while i < decimals
        invariant
            i <= decimals,
            amount >= 1,
            scaled == amount * pow10(i as nat),
        decreases decimals - i,
    {
        if scaled > u64::MAX / 10 {
            proof {
                lemma_pow10_monotone((i + 1) as nat, decimals as nat);
                let p = pow10((i + 1) as nat);
                let q = pow10(decimals as nat);
                assert(p == 10 * pow10(i as nat));
                assert(amount * p == 10 * scaled) by (nonlinear_arith)
                    requires
                        p == 10 * pow10(i as nat),
                        scaled == amount * pow10(i as nat),
                ;
                assert(amount * q >= amount * p) by (nonlinear_arith)
                    requires
                        q >= p,
                        amount >= 1,
                ;
            }
            return Err(MyError::AmountOverflow);
        }
        proof {
            assert(amount * pow10((i + 1) as nat) == 10 * scaled) by (nonlinear_arith)
                requires
                    pow10((i + 1) as nat) == 10 * pow10(i as nat),
                    scaled == amount * pow10(i as nat),
            ;
        }
        scaled = scaled * 10;
        i = i + 1;
    }
    Ok(scaled)
}

} // verus!
