//! Hashes that are the same on every machine.

use vstd::prelude::*;
use vstd::utf8::encode_utf8;

use crate::text::string_of;

verus! {

pub const FNV_PRIME: u64 = 0x100000001b3;

pub const FNV_SEED: u64 = 0xcbf29ce484222325;

pub const SECOND_SEED: u64 = 0x84222325decaf03d;

/// What is added to each byte before it enters the second half of a hash.
pub const SECOND_SHIFT: u8 = 0x9d;

/// The FNV-1a hash of `bytes` that starts with `seed`, with `shift` added to each byte.
pub open spec fn fnv(bytes: Seq<u8>, seed: u64, shift: u8) -> u64
    decreases bytes.len(),
{
    if bytes.len() == 0 {
        seed
    } else {
        (fnv(bytes.drop_last(), seed, shift) ^ (bytes.last().wrapping_add(
            shift,
        ) as u64)).wrapping_mul(FNV_PRIME)
    }
}

/// The character of a hexadecimal digit.
pub open spec fn hex_digit(d: nat) -> char {
    if d < 10 {
        (48 + d) as u8 as char
    } else {
        (87 + d) as u8 as char
    }
}

/// The last `digits` digits of `n` in hexadecimal notation, with leading zeros.
pub open spec fn hex(n: nat, digits: nat) -> Seq<char>
    decreases digits,
{
    if digits == 0 {
        Seq::empty()
    } else {
        hex(n / 16, (digits - 1) as nat).push(hex_digit(n % 16))
    }
}

/// The hash of `bytes`: two 64-bit hashes in hexadecimal notation.
pub open spec fn hash_text(bytes: Seq<u8>) -> Seq<char> {
    hex(fnv(bytes, FNV_SEED, 0) as nat, 16) + hex(
        fnv(bytes, SECOND_SEED, SECOND_SHIFT) as nat,
        16,
    )
}

fn fnv_of(bytes: &[u8], seed: u64, shift: u8) -> (r: u64)
    ensures
        r == fnv(bytes@, seed, shift),
{
    let mut r: u64 = seed;
    let mut i: usize = 0;
    while i < bytes.len()
        invariant
            i <= bytes@.len(),
            r == fnv(bytes@.take(i as int), seed, shift),
        decreases bytes@.len() - i,
    {
        r = (r ^ (bytes[i].wrapping_add(shift) as u64)).wrapping_mul(FNV_PRIME);
        i += 1;
        proof {
            assert(bytes@.take(i as int).drop_last() =~= bytes@.take(i - 1));
            assert(bytes@.take(i as int).last() == bytes@[i - 1]);
        }
    }
    proof {
        assert(bytes@.take(bytes@.len() as int) =~= bytes@);
    }
    r
}

/// Adds the last `digits` digits of `n` in hexadecimal notation to `out`.
fn push_hex(out: &mut Vec<char>, n: u64, digits: usize)
    ensures
        final(out)@ == old(out)@ + hex(n as nat, digits as nat),
    decreases digits,
{
    if digits == 0 {
        proof {
            assert(out@ + Seq::<char>::empty() =~= out@);
        }
        return;
    }
    let ghost before = out@;
    push_hex(out, n / 16, digits - 1);
    let d: u8 = (n % 16) as u8;
    let c: char = if d < 10 {
        (48 + d) as char
    } else {
        (87 + d) as char
    };
    out.push(c);
    proof {
        assert(out@ =~= before + hex(n as nat, digits as nat));
    }
}

/// The hash of `bytes`.
pub fn stable_hash_hex(bytes: &[u8]) -> (r: String)
    ensures
        r@ == hash_text(bytes@),
{
    let first = fnv_of(bytes, FNV_SEED, 0);
    let second = fnv_of(bytes, SECOND_SEED, SECOND_SHIFT);
    let mut out: Vec<char> = Vec::new();
    push_hex(&mut out, first, 16);
    push_hex(&mut out, second, 16);
    proof {
        assert(Seq::<char>::empty() + hex(first as nat, 16) =~= hex(first as nat, 16));
    }
    string_of(&out)
}

/// The hash of a text.
pub fn stable_hash(value: &str) -> (r: u64)
    ensures
        r == fnv(encode_utf8(value@), FNV_SEED, 0),
{
    fnv_of(value.as_bytes(), FNV_SEED, 0)
}

proof fn lemma_hex_len(n: nat, digits: nat)
    ensures
        hex(n, digits).len() == digits,
    decreases digits,
{
    if digits > 0 {
        lemma_hex_len(n / 16, (digits - 1) as nat);
    }
}

/// A hash has 32 characters.
pub proof fn law_hash_has_fixed_length(bytes: Seq<u8>)
    ensures
        hash_text(bytes).len() == 32,
{
    lemma_hex_len(fnv(bytes, FNV_SEED, 0) as nat, 16);
    lemma_hex_len(fnv(bytes, SECOND_SEED, SECOND_SHIFT) as nat, 16);
}

} // verus!
