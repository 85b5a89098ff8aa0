//! Division that rounds up, and what follows from it.

use vstd::arithmetic::div_mod::lemma_fundamental_div_mod;
use vstd::prelude::*;

verus! {

/// `n / d`, rounded up.
pub open spec fn ceil_div(n: nat, d: nat) -> nat {
    if n % d == 0 {
        n / d
    } else {
        n / d + 1
    }
}

/// `n`, rounded up to a whole number of `d`.
pub open spec fn round_up(n: nat, d: nat) -> nat {
    ceil_div(n, d) * d
}

/// `n / d`, rounded up.
pub fn div_ceil(n: usize, d: usize) -> (res: usize)
    requires
        d > 0,
    ensures
        res == ceil_div(n as nat, d as nat),
{
    proof {
        lemma_ceil_div(n as nat, d as nat);
        lemma_fundamental_div_mod(n as int, d as int);
        assert(n % d != 0 ==> n / d < n) by (nonlinear_arith)
            requires
                n == d * (n / d) + n % d,
                d > 0,
                n >= 0,
                n / d >= 0,
                n % d >= 0,
        ;
    }
    if n % d == 0 {
        n / d
    } else {
        n / d + 1
    }
}

/// Rounding up reaches the number, and by less than a whole `d`.
pub proof fn lemma_ceil_div(n: nat, d: nat)
    requires
        d > 0,
    ensures
        n <= ceil_div(n, d) * d < n + d,
        round_up(n, d) == ceil_div(n, d) * d,
        n == 0 ==> ceil_div(n, d) == 0,
        n > 0 ==> ceil_div(n, d) > 0,
{
    lemma_fundamental_div_mod(n as int, d as int);
    let q = (n / d) as int;
    assert((q + 1) * d == q * d + d) by (nonlinear_arith);
    assert(q * d == d * q) by (nonlinear_arith);
    if n > 0 && n % d == 0 {
        assert(q > 0) by (nonlinear_arith)
            requires
                n == d * q,
                n > 0,
                d > 0,
        ;
    }
}

/// The multiple of `d` that reaches `n` by less than `d` is `n` rounded up.
pub proof fn lemma_ceil_div_unique(n: nat, d: nat, q: nat)
    requires
        d > 0,
        n <= q * d < n + d,
    ensures
        ceil_div(n, d) == q,
{
    lemma_ceil_div(n, d);
    let c = ceil_div(n, d);
    assert(c == q) by (nonlinear_arith)
        requires
            n <= q * d < n + d,
            n <= c * d < n + d,
            d > 0,
            c >= 0,
            q >= 0,
    ;
}

/// Rounding up comes to the least multiple that is large enough.
pub proof fn law_rounding_up_is_to_the_next_multiple(n: nat, d: nat)
    requires
        d > 0,
    ensures
        round_up(n, d) % d == 0,
        n <= round_up(n, d) < n + d,
        ceil_div(n, d) * d == round_up(n, d),
{
    lemma_ceil_div(n, d);
    let c = ceil_div(n, d) as int;
    vstd::arithmetic::div_mod::lemma_fundamental_div_mod_converse(c * d, d as int, c, 0);
}

} // verus!
