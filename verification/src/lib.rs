use vstd::prelude::*;

pub mod circuit;
pub mod codec;
pub mod data_structures;
pub mod error;
pub mod fs;
pub mod gadgets;
pub mod hash;
pub mod party;
pub mod prover;
pub mod rng;
pub mod tape;
pub mod verifying;
pub mod view;
pub mod word;

verus! {

/// Digest length of the commitment hash, in bytes.
pub const HASH_LEN: usize = 32;

/// Length of a tape seed key, in bytes.
pub const KEY_LEN: usize = 16;

/// `r` repetitions, each letting a cheating prover slip through with chance
/// 2/3, reach `sigma` bits of soundness exactly when `3^r >= 2^sigma`.
pub open spec fn reaches_security(r: nat, sigma: nat) -> bool {
    vstd::arithmetic::power::pow(3, r) >= vstd::arithmetic::power2::pow2(sigma)
}

proof fn lemma_pow2_100()
    ensures
        vstd::arithmetic::power2::pow2(100) == 0x10000000000000000000000000,
{
    vstd::arithmetic::power2::lemma2_to64();
    vstd::arithmetic::power2::lemma2_to64_rest();
    vstd::arithmetic::power2::lemma_pow2_adds(64, 36);
    assert(0x10000000000000000 * 0x1000000000 == 0x10000000000000000000000000int)
        by (nonlinear_arith);
}

proof fn lemma_pow2_le100(n: nat)
    requires
        n <= 100,
    ensures
        vstd::arithmetic::power2::pow2(n) <= vstd::arithmetic::power2::pow2(100),
{
    if n < 100 {
        vstd::arithmetic::power2::lemma_pow2_strictly_increases(n, 100);
    }
}

/// `3^s >= 2^s`, so a repetition count short of the target is below `sigma`.
proof fn lemma_pow3_ge_pow2(sigma: nat, r: nat)
    requires
        sigma <= r,
    ensures
        vstd::arithmetic::power::pow(3, r) >= vstd::arithmetic::power2::pow2(sigma),
    decreases r,
{
    vstd::arithmetic::power2::lemma2_to64();
    vstd::arithmetic::power::lemma_pow0(3);
    vstd::arithmetic::power::lemma_pow1(3);
    if r == 0 {
    } else if sigma == 0 {
        vstd::arithmetic::power::lemma_pow_positive(3, r);
    } else {
        lemma_pow3_ge_pow2((sigma - 1) as nat, (r - 1) as nat);
        vstd::arithmetic::power::lemma_pow_adds(3, 1, (r - 1) as nat);
        assert(vstd::arithmetic::power::pow(3, r) == 3 * vstd::arithmetic::power::pow(
            3,
            (r - 1) as nat,
        ));
        vstd::arithmetic::power2::lemma_pow2_unfold(sigma);
        vstd::arithmetic::power2::lemma_pow2_pos((sigma - 1) as nat);
    }
}

/// `r` is the least repetition count reaching `sigma` bits of soundness.
pub open spec fn is_num_reps(r: nat, sigma: nat) -> bool {
    &&& reaches_security(r, sigma)
    &&& forall|q: nat| q < r ==> !reaches_security(q, sigma)
}

/// The least repetition count of a soundness parameter is one number.
pub proof fn lemma_num_reps_unique(r1: nat, r2: nat, sigma: nat)
    requires
        is_num_reps(r1, sigma),
        is_num_reps(r2, sigma),
    ensures
        r1 == r2,
{
    if r1 < r2 {
        assert(!reaches_security(r1, sigma));
    } else if r2 < r1 {
        assert(!reaches_security(r2, sigma));
    }
}

/// The number of repetitions demanded by soundness parameter `sigma` (bits):
/// the least `r` with `3^r >= 2^sigma`, that is `ceil(sigma / log2(3))`.
pub fn num_of_repetitions_given_desired_security(sigma: usize) -> (r: usize)
    requires
        1 <= sigma <= 100,
    ensures
        is_num_reps(r as nat, sigma as nat),
        1 <= r <= sigma,
{
    let mut target: u128 = 1;
    let mut i: usize = 0;
    proof {
        vstd::arithmetic::power2::lemma2_to64();
    }
    while i < sigma
        invariant
            i <= sigma <= 100,
            target == vstd::arithmetic::power2::pow2(i as nat),
        decreases sigma - i,
    {
        proof {
            lemma_pow2_100();
            lemma_pow2_le100((i + 1) as nat);
            vstd::arithmetic::power2::lemma_pow2_unfold((i + 1) as nat);
        }
        target = target * 2;
        i = i + 1;
    }
    let mut r: usize = 0;
    let mut p: u128 = 1;
    proof {
        vstd::arithmetic::power::lemma_pow0(3);
    }
    while p < target
        invariant
            p == vstd::arithmetic::power::pow(3, r as nat),
            p >= 1,
            target == vstd::arithmetic::power2::pow2(sigma as nat),
            sigma <= 100,
            forall|q: nat| q < r ==> !reaches_security(q, sigma as nat),
            r <= sigma,
        decreases sigma - r,
    {
        proof {
            lemma_pow2_100();
            lemma_pow2_le100(sigma as nat);
            if r >= sigma {
                lemma_pow3_ge_pow2(sigma as nat, r as nat);
            }
            vstd::arithmetic::power::lemma_pow1(3);
            vstd::arithmetic::power::lemma_pow_adds(3, 1, r as nat);
            assert(vstd::arithmetic::power::pow(3, (r + 1) as nat) == 3
                * vstd::arithmetic::power::pow(3, r as nat));
        }
        p = p * 3;
        r = r + 1;
    }
    proof {
        if r == 0 {
            vstd::arithmetic::power2::lemma_pow2_unfold(sigma as nat);
            vstd::arithmetic::power2::lemma_pow2_pos((sigma - 1) as nat);
        }
    }
    r
}

} // verus!
