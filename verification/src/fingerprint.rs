//! Fingerprint hasher: a 32-bit mixing hash over a byte sequence with a
//! caller-supplied seed, used as a compact, collision-tolerant alternative
//! to exact packing. The result is a pure function of (bytes, seed), so it
//! is reproducible bit-for-bit across calls and across implementations.
use vstd::prelude::*;

verus! {

use vstd::wrapping::u32_specs;

pub const C1: u32 = 0xcc9e2d51;

pub const C2: u32 = 0x1b873593;

pub const R1: u32 = 15;

pub const R2: u32 = 13;

pub const M: u32 = 5;

pub const N: u32 = 0xe6546b64;

pub const F1: u32 = 0x85ebca6b;

pub const F2: u32 = 0xc2b2ae35;

/// Left rotation of a 32-bit word by `r` bits, `0 < r < 32`.
pub open spec fn rotl(x: u32, r: u32) -> u32 {
    (x << r) | (x >> ((32 - r) as u32))
}

/// The multiply-rotate-multiply scramble applied to each input word.
#[verifier::opaque]
pub open spec fn scramble(k: u32) -> u32 {
    u32_specs::wrapping_mul(rotl(u32_specs::wrapping_mul(k, C1), R1), C2)
}

/// How one scrambled 4-byte word is folded into the running state.
#[verifier::opaque]
pub open spec fn block_step(h: u32, k: u32) -> u32 {
    u32_specs::wrapping_add(u32_specs::wrapping_mul(rotl(h ^ scramble(k), R2), M), N)
}

/// A 4-byte word read little-endian.
pub open spec fn le_block(b0: u8, b1: u8, b2: u8, b3: u8) -> u32 {
    (b0 as u32) | ((b1 as u32) << 8) | ((b2 as u32) << 16) | ((b3 as u32) << 24)
}

/// The state after folding in all full 4-byte words from position `i` on.
pub open spec fn hash_blocks(key: Seq<u8>, h: u32, i: nat) -> u32
    decreases key.len() - i,
    when i <= key.len()
{
    if i + 4 <= key.len() {
        hash_blocks(
            key,
            block_step(
                h,
                le_block(key[i as int], key[i + 1 as int], key[i + 2 as int], key[i + 3 as int]),
            ),
            i + 4,
        )
    } else {
        h
    }
}

/// The word collecting the remaining 1 to 3 tail bytes, each XORed in at
/// its byte offset.
pub open spec fn tail_word(key: Seq<u8>, i: nat, j: u32, acc: u32) -> u32
    decreases key.len() - i,
    when i <= key.len()
{
    if i < key.len() {
        tail_word(key, i + 1, (j + 8) as u32, acc ^ ((key[i as int] as u32) << j))
    } else {
        acc
    }
}

/// The final avalanche: xor-shift, multiply, xor-shift, multiply, xor-shift.
#[verifier::opaque]
pub open spec fn avalanche(h: u32, len32: u32) -> u32 {
    let h1 = h ^ len32;
    let h2 = h1 ^ (h1 >> 16);
    let h3 = u32_specs::wrapping_mul(h2, F1);
    let h4 = h3 ^ (h3 >> 13);
    let h5 = u32_specs::wrapping_mul(h4, F2);
    h5 ^ (h5 >> 16)
}

/// The whole hash of a byte sequence under a seed.
pub open spec fn spec_murmur32(key: Seq<u8>, seed: u32) -> u32 {
    let len32 = key.len() as u32;
    let hb = hash_blocks(key, seed ^ len32, 0);
    let tail_start = (key.len() - (key.len() % 4)) as nat;
    let ht = if key.len() % 4 != 0 {
        hb ^ scramble(tail_word(key, tail_start, 0, 0))
    } else {
        hb
    };
    avalanche(ht, len32)
}

/// One multiply-rotate-multiply scramble of an input word.
fn scramble_word(k: u32) -> (r: u32)
    ensures
        r == scramble(k),
{
    proof {
        reveal(scramble);
    }
    let k1 = k.wrapping_mul(C1);
    let k2 = (k1 << 15u32) | (k1 >> 17u32);
    k2.wrapping_mul(C2)
}

/// Folds one scrambled word into the running state.
fn fold_block(h: u32, k: u32) -> (r: u32)
    ensures
        r == block_step(h, k),
{
    proof {
        reveal(block_step);
    }
    let h1 = h ^ scramble_word(k);
    let h2 = (h1 << 13u32) | (h1 >> 19u32);
    h2.wrapping_mul(M).wrapping_add(N)
}

/// The final avalanche over the state.
fn finalize(h: u32, len32: u32) -> (r: u32)
    ensures
        r == avalanche(h, len32),
{
    proof {
        reveal(avalanche);
    }
    let h1 = h ^ len32;
    let h2 = h1 ^ (h1 >> 16u32);
    let h3 = h2.wrapping_mul(F1);
    let h4 = h3 ^ (h3 >> 13u32);
    let h5 = h4.wrapping_mul(F2);
    h5 ^ (h5 >> 16u32)
}

/// Reads the little-endian word at position `i`.
fn read_word(key: &[u8], i: usize) -> (k: u32)
    requires
        i + 4 <= key@.len(),
    ensures
        k == le_block(key@[i as int], key@[i as int + 1], key@[i as int + 2], key@[i as int + 3]),
{
    (key[i] as u32) | ((key[i + 1] as u32) << 8u32) | ((key[i + 2] as u32) << 16u32) | ((key[i + 3]
        as u32) << 24u32)
}

/// Folds every full 4-byte word into the state; returns the new state and
/// the position where the tail begins.
fn hash_full_blocks(key: &[u8], h0: u32) -> (res: (u32, usize))
    ensures
        res.0 == hash_blocks(key@, h0, 0),
        res.1 as nat == key@.len() - key@.len() % 4,
{
    let len = key.len();
    let mut hash: u32 = h0;
    let mut i: usize = 0;
    while len - i >= 4
        invariant
            i <= len,
            i % 4 == 0,
            len == key@.len(),
            hash_blocks(key@, h0, 0) == hash_blocks(key@, hash, i as nat),
        decreases len - i,
    {
        let ghost h_pre = hash;
        let ghost i0 = i as nat;
        let k: u32 = read_word(key, i);
        hash = fold_block(hash, k);
        i = i + 4;
        proof {
            assert(hash_blocks(key@, h_pre, i0) == hash_blocks(key@, hash, i as nat));
        }
    }
    (hash, i)
}

/// Collects the 0 to 3 tail bytes into one word, each at its byte offset.
fn collect_tail(key: &[u8], start: usize) -> (k: u32)
    requires
        start <= key@.len(),
        key@.len() - start <= 3,
    ensures
        k == tail_word(key@, start as nat, 0, 0),
{
    let len = key.len();
    let mut k: u32 = 0;
    let mut j: u32 = 0;
    let mut i: usize = start;
    while i < len
        invariant
            start <= i <= len,
            len == key@.len(),
            len - start <= 3,
            j == 8 * (i - start),
            tail_word(key@, start as nat, 0, 0) == tail_word(key@, i as nat, j, k),
        decreases len - i,
    {
        k = k ^ ((key[i] as u32) << j);
        i = i + 1;
        j = j + 8;
    }
    k
}

/// The 32-bit fingerprint of `key` under `seed`: 4-byte words are mixed by
/// multiply/rotate/xor, the 0 to 3 remaining bytes in one tail step, and a
/// final avalanche spreads every input bit. Deterministic in (bytes, seed).
pub fn murmur32(key: &[u8], seed: u32) -> (h: u32)
    ensures
        h == spec_murmur32(key@, seed),
{
    let len = key.len();
    let len32: u32 = #[verifier::truncate] (len as u32);
    let (hb, ts) = hash_full_blocks(key, seed ^ len32);
    let hash: u32 = if ts < len {
        hb ^ scramble_word(collect_tail(key, ts))
    } else {
        hb
    };
    finalize(hash, len32)
}

} // verus!
