//! Integer square root and the two level curves derived from experience.

use vstd::prelude::*;

verus! {

/// `r` is the floor of the square root of `n`.
pub open spec fn is_floor_sqrt(n: int, r: int) -> bool {
    0 <= r && r * r <= n && n < (r + 1) * (r + 1)
}

/// The floor of the square root of `n`, built up one step at a time.
pub open spec fn floor_sqrt(n: nat) -> nat
    decreases n,
{
    if n == 0 {
        0
    } else {
        let r = floor_sqrt((n - 1) as nat);
        if (r + 1) * (r + 1) <= n {
            r + 1
        } else {
            r
        }
    }
}

/// Level of a game asset with the given experience.
pub open spec fn asset_level_spec(experience: u64) -> int {
    floor_sqrt((experience / 50) as nat) as int + 1
}

/// Level of a player with the given experience.
pub open spec fn player_level_spec(experience: u64) -> int {
    floor_sqrt((experience / 100) as nat) as int + 1
}

pub proof fn lemma_floor_sqrt_correct(n: nat)
    ensures
        is_floor_sqrt(n as int, floor_sqrt(n) as int),
    decreases n,
{
    if n > 0 {
        lemma_floor_sqrt_correct((n - 1) as nat);
        let r = floor_sqrt((n - 1) as nat) as int;
        if (r + 1) * (r + 1) <= n {
            assert(n < (r + 2) * (r + 2)) by (nonlinear_arith)
                requires
                    n - 1 < (r + 1) * (r + 1),
                    0 <= r,
            ;
        }
    }
}

pub proof fn lemma_floor_sqrt_unique(n: int, r1: int, r2: int)
    requires
        is_floor_sqrt(n, r1),
        is_floor_sqrt(n, r2),
    ensures
        r1 == r2,
{
    lemma_sqrt_le(n, n, r1, r2);
    lemma_sqrt_le(n, n, r2, r1);
}

proof fn lemma_sqrt_le(a: int, b: int, ra: int, rb: int)
    requires
        a <= b,
        is_floor_sqrt(a, ra),
        is_floor_sqrt(b, rb),
    ensures
        ra <= rb,
{
    if ra > rb {
        assert((rb + 1) * (rb + 1) <= ra * ra) by (nonlinear_arith)
            requires
                rb + 1 <= ra,
                0 <= rb,
        ;
    }
}

/// The floor square root never decreases as its argument grows.
pub proof fn lemma_floor_sqrt_monotone(a: nat, b: nat)
    requires
        a <= b,
    ensures
        floor_sqrt(a) <= floor_sqrt(b),
{
    lemma_floor_sqrt_correct(a);
    lemma_floor_sqrt_correct(b);
    lemma_sqrt_le(a as int, b as int, floor_sqrt(a) as int, floor_sqrt(b) as int);
}

/// Both level curves are at least 1 and never decrease as experience grows.
pub proof fn lemma_levels_monotone(e1: u64, e2: u64)
    requires
        e1 <= e2,
    ensures
        1 <= asset_level_spec(e1) <= asset_level_spec(e2),
        1 <= player_level_spec(e1) <= player_level_spec(e2),
{
    assert(e1 / 50 <= e2 / 50) by (nonlinear_arith)
        requires
            e1 <= e2,
    ;
    assert(e1 / 100 <= e2 / 100) by (nonlinear_arith)
        requires
            e1 <= e2,
    ;
    lemma_floor_sqrt_monotone((e1 / 50) as nat, (e2 / 50) as nat);
    lemma_floor_sqrt_monotone((e1 / 100) as nat, (e2 / 100) as nat);
}

/// Floor of the square root of `n`, by bisection.
pub fn integer_sqrt(n: u64) -> (r: u64)
    ensures
        r == floor_sqrt(n as nat),
        r < 0x1_0000_0000,
{
    let mut lo: u64 = 0;
    let mut hi: u64 = 0x1_0000_0000;
    assert(n < hi * hi) by (nonlinear_arith)
        requires
            hi == 0x1_0000_0000,
            n <= 0xffff_ffff_ffff_ffff,
    ;
    while hi - lo > 1
        invariant
            lo < hi <= 0x1_0000_0000,
            lo * lo <= n,
            n < hi * hi,
        decreases hi - lo,
    {
        let mid: u64 = lo + (hi - lo) / 2;
        assert(mid * mid <= 0xffff_ffff_ffff_ffff) by (nonlinear_arith)
            requires
                mid < 0x1_0000_0000,
        ;
        if mid * mid <= n {
            lo = mid;
        } else {
            hi = mid;
        }
    }
    proof {
        assert(hi == lo + 1);
        lemma_floor_sqrt_correct(n as nat);
        lemma_floor_sqrt_unique(n as int, lo as int, floor_sqrt(n as nat) as int);
    }
    lo
}

proof fn lemma_small_root(n: int, r: int, bound: int)
    requires
        is_floor_sqrt(n, r),
        n <= bound,
        bound <= 0xffff_ffff_ffff_ffffint / 50,
    ensures
        r + 1 <= 0xffff_ffff,
{
    if r + 1 > 0xffff_ffff {
        assert(r * r > 0xffff_ffff_ffff_ffffint / 50) by (nonlinear_arith)
            requires
                r >= 0xffff_ffff,
        ;
    }
}

/// Level of a game asset: `floor(sqrt(experience / 50)) + 1`.
pub fn calculate_asset_level(experience: u64) -> (r: u32)
    ensures
        r == asset_level_spec(experience),
{
    let root = integer_sqrt(experience / 50);
    proof {
        lemma_floor_sqrt_correct((experience / 50) as nat);
        lemma_small_root((experience / 50) as int, root as int, (experience / 50) as int);
    }
    (root + 1) as u32
}

/// Level of a player: `floor(sqrt(experience / 100)) + 1`.
pub fn calculate_level(experience: u64) -> (r: u32)
    ensures
        r == player_level_spec(experience),
{
    let root = integer_sqrt(experience / 100);
    proof {
        lemma_floor_sqrt_correct((experience / 100) as nat);
        lemma_small_root((experience / 100) as int, root as int, (experience / 100) as int);
    }
    (root + 1) as u32
}

} // verus!
