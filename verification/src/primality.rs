//! Exact primality testing over `u64` values.
//!
//! Check mode re-verifies the sieve's claim for every decoded record, so
//! the test must be exact for every unsigned 64-bit input: it is trial
//! division up to the square root, proved against the mathematical
//! definition of primality.

use vstd::arithmetic::div_mod::lemma_fundamental_div_mod;
use vstd::arithmetic::div_mod::lemma_mod_bound;
use vstd::arithmetic::div_mod::lemma_mod_multiples_basic;
use vstd::prelude::*;

verus! {

/// A number is prime when it is at least 2 and no number strictly
/// between 1 and it divides it.
pub open spec fn spec_is_prime(n: int) -> bool {
    n >= 2 && forall|d: int| 2 <= d < n ==> #[trigger] (n % d) != 0
}

/// Any number with a proper divisor also has one no larger than its
/// square root: of a divisor and its cofactor, the smaller one squares
/// to at most the number itself.
proof fn lemma_small_factor(n: int, k: int)
    requires
        2 <= k < n,
        n % k == 0,
    ensures
        exists|d: int| 2 <= d && d * d <= n && #[trigger] (n % d) == 0,
{
    let q = n / k;
    assert(n == k * q) by {
        lemma_fundamental_div_mod(n, k);
    };
    assert(q >= 2) by (nonlinear_arith)
        requires
            n == k * q,
            2 <= k < n,
    ;
    assert(n % q == 0) by {
        lemma_mod_multiples_basic(k, q);
    };
    if k * k <= n {
        assert(2 <= k && k * k <= n && n % k == 0);
    } else {
        assert(q * q <= n) by (nonlinear_arith)
            requires
                n == k * q,
                k * k > n,
                q >= 2,
                k >= 2,
        ;
        assert(2 <= q && q * q <= n && n % q == 0);
    }
}

/// Decides primality of `n` exactly, by trial division over every
/// candidate divisor up to the square root of `n`.
pub fn is_prime(n: u64) -> (b: bool)
    ensures
        b == spec_is_prime(n as int),
{
    if n < 2 {
        return false;
    }
    let mut d: u64 = 2;
    while n / d >= d
        invariant
            2 <= d <= n,
            2 <= n,
            forall|k: int| 2 <= k < d ==> #[trigger] ((n as int) % k) != 0,
        decreases n - d,
    {
        let ghost q = (n as int) / (d as int);
        let ghost r = (n as int) % (d as int);
        proof {
            lemma_fundamental_div_mod(n as int, d as int);
            lemma_mod_bound(n as int, d as int);
        }
        if n % d == 0 {
            proof {
                assert(d < n) by (nonlinear_arith)
                    requires
                        n as int == (d as int) * q,
                        q >= d as int,
                        2 <= d as int,
                ;
                assert(!spec_is_prime(n as int));
            }
            return false;
        }
        proof {
            assert(d + 1 <= n) by (nonlinear_arith)
                requires
                    n as int == (d as int) * q + r,
                    q >= d as int,
                    0 <= r,
                    2 <= d as int,
            ;
        }
        d = d + 1;
    }
    proof {
        let q = (n as int) / (d as int);
        let r = (n as int) % (d as int);
        lemma_fundamental_div_mod(n as int, d as int);
        lemma_mod_bound(n as int, d as int);
        assert((d as int) * (d as int) > n as int) by (nonlinear_arith)
            requires
                n as int == (d as int) * q + r,
                q < d as int,
                0 <= r < d as int,
                2 <= d as int,
        ;
        assert forall|k: int| 2 <= k < n as int implies #[trigger] ((n as int) % k) != 0 by {
            if (n as int) % k == 0 {
                lemma_small_factor(n as int, k);
                let d0 = choose|d0: int|
                    2 <= d0 && d0 * d0 <= n as int && #[trigger] ((n as int) % d0) == 0;
                assert(d0 < d as int) by (nonlinear_arith)
                    requires
                        2 <= d0,
                        d0 * d0 <= n as int,
                        (d as int) * (d as int) > n as int,
                        2 <= d as int,
                ;
                assert((n as int) % d0 != 0);
            }
        };
    }
    true
}

} // verus!
