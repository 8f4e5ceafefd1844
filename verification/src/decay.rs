//! Fixed-point half-life arithmetic.
//!
//! Forgetting is an exponential decay: a cell that stays eligible for
//! `half_life` ticks should survive with probability one half. The per-tick
//! survival factor is therefore the `half_life`-th root of one half, held here
//! in 32-bit fixed point (scale `FIX_ONE`), found by binary search on the
//! fixed-point power function.

use vstd::prelude::*;

verus! {

/// The fixed-point scale: this value stands for 1.
pub const FIX_ONE: u64 = 0x1_0000_0000;

/// One half in fixed point.
pub const FIX_HALF: u64 = 0x8000_0000;

/// Fixed-point product, rounded down.
pub open spec fn fixmul(a: int, b: int) -> int {
    (a * b) / (FIX_ONE as int)
}

/// Fixed-point power, rounded down at every step.
pub open spec fn fixpow(a: int, n: nat) -> int
    decreases n,
{
    if n == 0 {
        FIX_ONE as int
    } else {
        fixmul(a, fixpow(a, (n - 1) as nat))
    }
}

proof fn lemma_fixmul_bounds(a: int, b: int)
    requires
        0 <= a <= FIX_ONE,
        0 <= b <= FIX_ONE,
    ensures
        0 <= fixmul(a, b) <= FIX_ONE,
{
    assert(0 <= (a * b) / (FIX_ONE as int) <= FIX_ONE) by (nonlinear_arith)
        requires
            0 <= a <= FIX_ONE,
            0 <= b <= FIX_ONE,
    ;
}

proof fn lemma_fixpow_bounds(a: int, n: nat)
    requires
        0 <= a <= FIX_ONE,
    ensures
        0 <= fixpow(a, n) <= FIX_ONE,
    decreases n,
{
    if n > 0 {
        lemma_fixpow_bounds(a, (n - 1) as nat);
        lemma_fixmul_bounds(a, fixpow(a, (n - 1) as nat));
    }
}

proof fn lemma_fixpow_one(n: nat)
    ensures
        fixpow(FIX_ONE as int, n) == FIX_ONE as int,
    decreases n,
{
    if n > 0 {
        lemma_fixpow_one((n - 1) as nat);
        assert(fixmul(FIX_ONE as int, FIX_ONE as int) == FIX_ONE as int) by (nonlinear_arith);
    }
}

/// Fixed-point power by repeated multiplication, exactly `fixpow`.
fn fixpow_exec(a: u64, n: usize) -> (r: u64)
    requires
        a <= FIX_ONE,
    ensures
        r == fixpow(a as int, n as nat),
        r <= FIX_ONE,
{
    let mut acc: u64 = FIX_ONE;
    let mut k: usize = 0;
    while k < n
        invariant
            k <= n,
            a <= FIX_ONE,
            acc == fixpow(a as int, k as nat),
            acc <= FIX_ONE,
        decreases n - k,
    {
        proof {
            lemma_fixmul_bounds(a as int, acc as int);
            assert((a as u128) * (acc as u128) <= (FIX_ONE as u128) * (FIX_ONE as u128))
                by (nonlinear_arith)
                requires
                    a <= FIX_ONE,
                    acc <= FIX_ONE,
            ;
        }
        let wide: u128 = (a as u128) * (acc as u128) / (FIX_ONE as u128);
        assert(wide == fixmul(a as int, acc as int));
        acc = wide as u64;
        k = k + 1;
        assert(acc == fixpow(a as int, k as nat));
    }
    acc
}

/// What `survival_factor` returns: for a positive half-life, the largest
/// fixed-point value whose `h`-th fixed-point power still rounds to at most
/// one half; a half-life of zero decays instantly.
pub open spec fn survival_factor_ok(t: int, h: nat) -> bool {
    if h == 0 {
        t == 0
    } else {
        &&& 0 <= t < FIX_ONE
        &&& fixpow(t, h) <= FIX_HALF as int
        &&& fixpow(t + 1, h) > FIX_HALF as int
    }
}

/// The per-tick survival factor for a given half-life, in fixed point.
pub fn survival_factor(h: usize) -> (t: u64)
    ensures
        survival_factor_ok(t as int, h as nat),
{
    if h == 0 {
        return 0;
    }
    let mut lo: u64 = 0;
    let mut hi: u64 = FIX_ONE;
    proof {
        assert(fixpow(0, h as nat) == fixmul(0, fixpow(0, (h - 1) as nat)));
        lemma_fixpow_bounds(0, (h - 1) as nat);
        assert(fixmul(0, fixpow(0, (h - 1) as nat)) == 0) by (nonlinear_arith)
            requires
                0 <= fixpow(0, (h - 1) as nat) <= FIX_ONE,
        ;
        lemma_fixpow_one(h as nat);
    }
    while hi - lo > 1
        invariant
            h >= 1,
            lo < hi <= FIX_ONE,
            fixpow(lo as int, h as nat) <= FIX_HALF as int,
            fixpow(hi as int, h as nat) > FIX_HALF as int,
        decreases hi - lo,
    {
        let mid: u64 = lo + (hi - lo) / 2;
        if fixpow_exec(mid, h) <= FIX_HALF {
            lo = mid;
        } else {
            hi = mid;
        }
    }
    lo
}

} // verus!
