//! How long to wait before a failed request is tried again.

use vstd::arithmetic::power2::pow2;
use vstd::prelude::*;
use vstd::utf8::encode_utf8;

use crate::hash::{fnv, stable_hash, FNV_SEED};

verus! {

pub const MAX_RETRIES: usize = 2;

pub open spec fn at_most(n: nat, limit: nat) -> nat {
    if n <= limit {
        n
    } else {
        limit
    }
}

/// The delay in milliseconds before jitter: it doubles with each attempt, up to a limit.
pub open spec fn base_delay(attempt: nat) -> nat {
    at_most(500 * pow2(at_most(attempt, 6)), 8000)
}

/// The jitter in thousandths, which depends on the seed alone.
pub open spec fn jitter(seed: Seq<char>) -> nat {
    (800 + fnv(encode_utf8(seed), FNV_SEED, 0) % 401) as nat
}

/// The delay in milliseconds.
pub open spec fn delay(attempt: nat, seed: Seq<char>) -> nat {
    at_most((base_delay(attempt) * jitter(seed)) / 1000, 10000)
}

/// How many milliseconds to wait before the attempt `attempt`.
pub fn delay_for_attempt(attempt: usize, seed: &str) -> (r: u64)
    ensures
        r == delay(attempt as nat, seed@),
{
    let exponent: usize = if attempt <= 6 {
        attempt
    } else {
        6
    };
    let mut base: u64 = 500;
    let mut i: usize = 0;
    proof {
        vstd::arithmetic::power2::lemma2_to64();
    }
    while i < exponent
        invariant
            i <= exponent <= 6,
            base == 500 * pow2(i as nat),
            base <= 32000,
            pow2(0) == 1,
            pow2(1) == 2,
            pow2(2) == 4,
            pow2(3) == 8,
            pow2(4) == 16,
            pow2(5) == 32,
            pow2(6) == 64,
        decreases exponent - i,
    {
        proof {
            vstd::arithmetic::power2::lemma_pow2_unfold((i + 1) as nat);
            assert(i == 0 || i == 1 || i == 2 || i == 3 || i == 4 || i == 5);
        }
        base = base * 2;
        i += 1;
    }
    if base > 8000 {
        base = 8000;
    }
    let thousandths: u64 = 800 + stable_hash(seed) % 401;
    proof {
        assert(base * thousandths <= 8000 * 1200) by (nonlinear_arith)
            requires
                base <= 8000,
                thousandths <= 1200,
        ;
    }
    let delay: u64 = base * thousandths / 1000;
    if delay > 10000 {
        10000
    } else {
        delay
    }
}

proof fn lemma_base_delay(attempt: nat)
    ensures
        500 <= base_delay(attempt) <= 8000,
        base_delay(attempt) <= base_delay(attempt + 1),
{
    vstd::arithmetic::power2::lemma2_to64();
    let e = at_most(attempt, 6);
    assert(e == 0 || e == 1 || e == 2 || e == 3 || e == 4 || e == 5 || e == 6);
}

/// A delay is never shorter than 400 milliseconds, nor longer than 9600.
pub proof fn law_delay_is_bounded(attempt: nat, seed: Seq<char>)
    ensures
        400 <= delay(attempt, seed) <= 9600,
{
    lemma_base_delay(attempt);
    let b = base_delay(attempt);
    let j = jitter(seed);
    assert(500 * 800 <= b * j <= 8000 * 1200) by (nonlinear_arith)
        requires
            500 <= b <= 8000,
            800 <= j <= 1200,
    ;
}

/// With the same seed, a later attempt never waits for less time.
pub proof fn law_delay_grows(attempt: nat, seed: Seq<char>)
    ensures
        delay(attempt, seed) <= delay(attempt + 1, seed),
{
    lemma_base_delay(attempt);
    let a = base_delay(attempt);
    let b = base_delay(attempt + 1);
    let j = jitter(seed);
    assert(a * j <= b * j) by (nonlinear_arith)
        requires
            a <= b,
            0 <= j,
    ;
}

} // verus!
