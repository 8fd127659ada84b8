//! Factorials and binomial coefficients, used to expand `(a + bi)^n`
//! term by term when raising a complex number to an integer power.

use vstd::prelude::*;

verus! {

/// `n!` over the naturals.
pub open spec fn spec_factorial(n: nat) -> nat
    decreases n,
{
    if n == 0 {
        1
    } else {
        n * spec_factorial((n - 1) as nat)
    }
}

/// The binomial coefficient `n choose k`, defined by Pascal's rule.
pub open spec fn binomial(n: nat, k: nat) -> nat
    decreases n,
{
    if k == 0 {
        1
    } else if n == 0 {
        0
    } else {
        binomial((n - 1) as nat, (k - 1) as nat) + binomial((n - 1) as nat, k)
    }
}

/// Factorials are positive.
pub proof fn lemma_factorial_positive(n: nat)
    ensures
        spec_factorial(n) >= 1,
    decreases n,
{
    if n > 0 {
        lemma_factorial_positive((n - 1) as nat);
        let f = spec_factorial((n - 1) as nat);
        assert(n * f >= 1) by (nonlinear_arith)
            requires
                n >= 1,
                f >= 1,
        ;
    }
}

/// The factorial is monotone.
pub proof fn lemma_factorial_monotone(i: nat, j: nat)
    requires
        i <= j,
    ensures
        spec_factorial(i) <= spec_factorial(j),
    decreases j,
{
    if i < j {
        lemma_factorial_monotone(i, (j - 1) as nat);
        lemma_factorial_positive((j - 1) as nat);
        let f = spec_factorial((j - 1) as nat);
        assert(f <= j * f) by (nonlinear_arith)
            requires
                j >= 1,
                f >= 1,
        ;
    }
}

/// `n choose k` is zero when `k > n`.
pub proof fn lemma_binomial_zero_above(n: nat, k: nat)
    requires
        k > n,
    ensures
        binomial(n, k) == 0,
    decreases n,
{
    if n > 0 {
        lemma_binomial_zero_above((n - 1) as nat, (k - 1) as nat);
        lemma_binomial_zero_above((n - 1) as nat, k);
    }
}

/// `n choose k` is at least one when `k <= n`.
pub proof fn lemma_binomial_positive(n: nat, k: nat)
    requires
        k <= n,
    ensures
        binomial(n, k) >= 1,
    decreases n,
{
    if k > 0 {
        lemma_binomial_positive((n - 1) as nat, (k - 1) as nat);
    }
}

/// The factorial formula: `(n choose k) * k! * (n - k)! == n!`.
pub proof fn lemma_binomial_factorial(n: nat, k: nat)
    requires
        k <= n,
    ensures
        binomial(n, k) * (spec_factorial(k) * spec_factorial((n - k) as nat)) == spec_factorial(n),
    decreases n,
{
    if k == 0 {
        assert(spec_factorial(0) == 1);
        let f = spec_factorial(n);
        assert(1 * (1 * f) == f) by (nonlinear_arith);
    } else if k == n {
        lemma_binomial_diagonal(n);
        let f = spec_factorial(n);
        assert(spec_factorial(0) == 1);
        assert(1 * (f * 1) == f) by (nonlinear_arith);
    } else {
        let m = (n - 1) as nat;
        lemma_binomial_factorial(m, (k - 1) as nat);
        lemma_binomial_factorial(m, k);
        let a = binomial(m, (k - 1) as nat);
        let b = binomial(m, k);
        let fk1 = spec_factorial((k - 1) as nat);
        let fk = spec_factorial(k);
        let fnk = spec_factorial((n - k) as nat);
        let fnk1 = spec_factorial((m - k) as nat);
        let fm = spec_factorial(m);
        assert(fk == k * fk1);
        assert((n - k) as nat == ((m - k) + 1) as nat);
        assert(fnk == (n - k) * fnk1);
        assert((m - (k - 1)) as nat == (n - k) as nat);
        assert(spec_factorial(n) == n * fm);
        assert((a + b) * (fk * fnk) == n * fm) by (nonlinear_arith)
            requires
                a * (fk1 * fnk) == fm,
                b * (fk * fnk1) == fm,
                fk == k * fk1,
                fnk == (n - k) * fnk1,
                1 <= k < n,
        ;
    }
}

/// Helper: `n choose n == 1` (kept private; used by the factorial formula).
proof fn lemma_binomial_diagonal(n: nat)
    ensures
        binomial(n, n) == 1,
    decreases n,
{
    if n > 0 {
        lemma_binomial_diagonal((n - 1) as nat);
        lemma_binomial_zero_above((n - 1) as nat, n);
    }
}

/// Symmetry of binomial coefficients: `n choose k == n choose (n - k)`.
pub proof fn lemma_binomial_symmetric(n: nat, k: nat)
    requires
        k <= n,
    ensures
        binomial(n, k) == binomial(n, (n - k) as nat),
{
    lemma_binomial_factorial(n, k);
    lemma_binomial_factorial(n, (n - k) as nat);
    assert((n - (n - k)) as nat == k);
    let d = spec_factorial(k) * spec_factorial((n - k) as nat);
    let d2 = spec_factorial((n - k) as nat) * spec_factorial(k);
    assert(d == d2) by (nonlinear_arith)
        requires
            d == spec_factorial(k) * spec_factorial((n - k) as nat),
            d2 == spec_factorial((n - k) as nat) * spec_factorial(k),
    ;
    lemma_factorial_positive(k);
    lemma_factorial_positive((n - k) as nat);
    assert(d >= 1) by (nonlinear_arith)
        requires
            d == spec_factorial(k) * spec_factorial((n - k) as nat),
            spec_factorial(k) >= 1,
            spec_factorial((n - k) as nat) >= 1,
    ;
    let x = binomial(n, k);
    let y = binomial(n, (n - k) as nat);
    assert(x == y) by (nonlinear_arith)
        requires
            x * d == y * d,
            d >= 1,
    ;
}

/// Returns `n!`.
///
/// The computation is done in `u32`, so `n!` has to fit in a `u32`
/// (that is, `n <= 12`).
pub fn factorial(n: u32) -> (result: u32)
    requires
        spec_factorial(n as nat) <= u32::MAX,
    ensures
        result as nat == spec_factorial(n as nat),
{
    proof {
        lemma_factorial_bounds_argument(n as nat);
        reveal_with_fuel(spec_factorial, 2);
    }
    let mut result: u32 = 1;
    let mut i: u32 = 2;
    while i <= n
        invariant
            2 <= i,
            i <= n + 1 || i == 2,
            n < u32::MAX,
            result as nat == spec_factorial((i - 1) as nat),
            spec_factorial(n as nat) <= u32::MAX,
        decreases n + 1 - i,
    {
        proof {
            lemma_factorial_monotone(i as nat, n as nat);
            let f = spec_factorial((i - 1) as nat);
            assert(spec_factorial(i as nat) == i * f);
            assert(result * i == i * f) by (nonlinear_arith)
                requires
                    result == f,
            ;
        }
        result = result * i;
        i = i + 1;
    }
    proof {
        reveal_with_fuel(spec_factorial, 2);
    }
    result
}

/// Helper: a factorial that fits in a `u32` has an argument below `u32::MAX`.
proof fn lemma_factorial_bounds_argument(n: nat)
    requires
        spec_factorial(n) <= u32::MAX,
    ensures
        n < u32::MAX,
{
    if n >= 3 {
        lemma_factorial_monotone(2, (n - 1) as nat);
        assert(spec_factorial(2) == 2) by {
            assert(spec_factorial(1) == 1) by {
                assert(spec_factorial(0) == 1);
            }
        }
        let f = spec_factorial((n - 1) as nat);
        assert(n * f > n) by (nonlinear_arith)
            requires
                f >= 2,
                n >= 3,
        ;
    }
}

/// Returns `n choose r`.
///
/// The edge cases `r` in `{0, 1, n - 1, n}` are answered directly; any other
/// `r` goes through `n! / (r! (n - r)!)`, which needs `n!` to fit in a `u32`.
pub fn n_choose_r(n: u32, r: u32) -> (c: u32)
    requires
        n >= r,
        r == 0 || r == n || r == 1 || r == n - 1 || spec_factorial(n as nat) <= u32::MAX,
    ensures
        c as nat == binomial(n as nat, r as nat),
{
    if r == 0 || r == n {
        proof {
            if r == n {
                lemma_binomial_diagonal(n as nat);
            }
        }
        return 1;
    }
    if r == 1 || r == n - 1 {
        proof {
            lemma_binomial_factorial(n as nat, 1);
            lemma_binomial_symmetric(n as nat, 1);
            let f = spec_factorial((n - 1) as nat);
            lemma_factorial_positive((n - 1) as nat);
            assert(spec_factorial(1) == 1) by {
                assert(spec_factorial(0) == 1);
            }
            let b = binomial(n as nat, 1);
            assert(b == n) by (nonlinear_arith)
                requires
                    b * (1 * f) == n * f,
                    f >= 1,
            ;
        }
        return n;
    }
    proof {
        lemma_binomial_factorial(n as nat, r as nat);
        lemma_binomial_positive(n as nat, r as nat);
        lemma_factorial_monotone(r as nat, n as nat);
        lemma_factorial_monotone((n - r) as nat, n as nat);
        lemma_factorial_positive(r as nat);
        lemma_factorial_positive((n - r) as nat);
        let b = binomial(n as nat, r as nat);
        let p = spec_factorial(r as nat) * spec_factorial((n - r) as nat);
        assert(p <= spec_factorial(n as nat)) by (nonlinear_arith)
            requires
                b * p == spec_factorial(n as nat),
                b >= 1,
                p >= 0,
        ;
    }
    let fr = factorial(r);
    let fnr = factorial(n - r);
    let fnn = factorial(n);
    let denominator = fr * fnr;
    proof {
        let b = binomial(n as nat, r as nat);
        let p = denominator as nat;
        assert(p >= 1) by (nonlinear_arith)
            requires
                p == fr as nat * fnr as nat,
                fr >= 1,
                fnr >= 1,
        ;
        assert(fnn as nat / p == b) by (nonlinear_arith)
            requires
                b * p == fnn as nat,
                p >= 1,
        ;
    }
    fnn / denominator
}

/// Where a term `c * i^k` of an expansion lands in `re + im i`: on the real
/// or the imaginary part, added or subtracted.
#[derive(Clone, Copy, PartialEq, Eq, Structural, Debug)]
pub enum PowerOfI {
    PlusReal,
    PlusImaginary,
    MinusReal,
    MinusImaginary,
}

/// `i^k` is `1`, `i`, `-1` or `-i` as `k` is `0`, `1`, `2` or `3` modulo 4.
pub open spec fn power_of_i_spec(k: nat) -> PowerOfI {
    if k % 4 == 0 {
        PowerOfI::PlusReal
    } else if k % 4 == 1 {
        PowerOfI::PlusImaginary
    } else if k % 4 == 2 {
        PowerOfI::MinusReal
    } else {
        PowerOfI::MinusImaginary
    }
}

/// Returns where a term carrying `i^k` lands when `(a + bi)^n` is expanded
/// by the binomial theorem.
pub fn power_of_i(k: u32) -> (p: PowerOfI)
    ensures
        p == power_of_i_spec(k as nat),
{
    let r = k % 4;
    if r == 0 {
        PowerOfI::PlusReal
    } else if r == 1 {
        PowerOfI::PlusImaginary
    } else if r == 2 {
        PowerOfI::MinusReal
    } else {
        PowerOfI::MinusImaginary
    }
}

/// Multiplying by `i` four times changes nothing.
pub proof fn lemma_power_of_i_period(k: nat)
    ensures
        power_of_i_spec(k + 4) == power_of_i_spec(k),
{
}

} // verus!
