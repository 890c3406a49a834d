//! The murmur hash is a relatively fast non-cryptographic hash function for
//! platforms with efficient multiplication.
//!
//! This implementation is based on the murmurhash3 variant.

use vstd::prelude::*;

verus! {

use vstd::slice::slice_subrange;

pub const C1: u32 = 0xcc9e2d51;

pub const C2: u32 = 0x1b873593;

pub const R1: u32 = 15;

pub const R2: u32 = 13;

pub const M: u32 = 5;

pub const N: u32 = 0xe6546b64;

/// A 32-bit word read from four bytes in little-endian order.
pub open spec fn spec_word(b0: u8, b1: u8, b2: u8, b3: u8) -> u32 {
    ((0xff & (b3 as u32)) << 24) | ((0xff & (b2 as u32)) << 16) | ((0xff & (b1 as u32)) << 8) | (
    0xff & (b0 as u32))
}

/// The `i`-th four-byte block of the input.
pub open spec fn spec_block(data: Seq<u8>, i: int) -> u32
    recommends
        0 <= i,
        4 * i + 4 <= data.len(),
{
    spec_word(data[4 * i], data[4 * i + 1], data[4 * i + 2], data[4 * i + 3])
}

/// The multiply-rotate-multiply scramble applied to each block.
pub open spec fn spec_scramble(k: u32) -> u32 {
    let k1 = k.wrapping_mul(C1);
    let k2 = (k1 << R1) | (k1 >> (32 - R1));
    k2.wrapping_mul(C2)
}

/// Mixes one scrambled block into the running hash.
pub open spec fn spec_mix(hash: u32, k: u32) -> u32 {
    let h = hash ^ spec_scramble(k);
    let h2 = (h << R2) | (h >> (32 - R2));
    h2.wrapping_mul(M).wrapping_add(N)
}

/// The hash state after mixing in the first `n` four-byte blocks.
pub open spec fn spec_blocks_hash(data: Seq<u8>, seed: u32, n: int) -> u32
    decreases n,
{
    if n <= 0 {
        seed
    } else {
        spec_mix(spec_blocks_hash(data, seed, n - 1), spec_block(data, n - 1))
    }
}

/// The word assembled from the one to three bytes that follow the last full
/// block.
pub open spec fn spec_tail_word(data: Seq<u8>) -> u32 {
    let base = 4 * (data.len() / 4) as int;
    let r = data.len() % 4;
    let k0 = 0u32;
    let k1 = if r == 3 {
        k0 ^ ((0xff & (data[base + 2] as u32)) << 16)
    } else {
        k0
    };
    let k2 = if r >= 2 {
        k1 ^ ((0xff & (data[base + 1] as u32)) << 8)
    } else {
        k1
    };
    k2 ^ (0xff & (data[base] as u32))
}

/// The final avalanche: the length and a fixed xor-shift-multiply cascade.
pub open spec fn spec_finalize(h0: u32, length: u32) -> u32 {
    let h1 = h0 ^ length;
    let h2 = h1 ^ (h1 >> 16);
    let h3 = h2.wrapping_mul(0x85ebca6b);
    let h4 = h3 ^ (h3 >> 13);
    let h5 = h4.wrapping_mul(0xc2b2ae35);
    h5 ^ (h5 >> 16)
}

/// The murmur3 32-bit hash of the input under the given seed.
pub open spec fn spec_murmur3_32_seed(data: Seq<u8>, seed: u32) -> u32
    recommends
        data.len() <= u32::MAX,
{
    let h = spec_blocks_hash(data, seed, data.len() as int / 4);
    let h2 = if data.len() % 4 >= 1 {
        h ^ spec_scramble(spec_tail_word(data))
    } else {
        h
    };
    spec_finalize(h2, data.len() as u32)
}

/// The murmur3 32-bit hash with seed zero.
pub fn murmur3_32(data: &[u8]) -> (r: u32)
    requires
        data@.len() <= u32::MAX,
    ensures
        r == spec_murmur3_32_seed(data@, 0),
{
    murmur3_32_seed(data, 0)
}

/// The murmur3 32-bit hash of the input under the given seed.
pub fn murmur3_32_seed(data: &[u8], seed: u32) -> (r: u32)
    requires
        data@.len() <= u32::MAX,
    ensures
        r == spec_murmur3_32_seed(data@, seed),
{
    let mut hash = seed;
    let length = data.len() as u32;

    let n_blocks = length / 4;
    let mut i: u32 = 0;
    while i < n_blocks
        invariant
            data@.len() <= u32::MAX,
            length == data@.len(),
            n_blocks == length / 4,
            i <= n_blocks,
            hash == spec_blocks_hash(data@, seed, i as int),
        decreases n_blocks - i,
    {
        let mut k = get_u32(slice_subrange(data, (i * 4) as usize, data.len()));
        proof {
            assert(data@.subrange(4 * i as int, data@.len() as int)[0] == data@[4 * i as int]);
            assert(data@.subrange(4 * i as int, data@.len() as int)[1] == data@[4 * i + 1]);
            assert(data@.subrange(4 * i as int, data@.len() as int)[2] == data@[4 * i + 2]);
            assert(data@.subrange(4 * i as int, data@.len() as int)[3] == data@[4 * i + 3]);
            assert(k == spec_block(data@, i as int));
        }
        let ghost block = k;
        k = k.wrapping_mul(C1);
        k = (k << R1) | (k >> (32 - R1));
        k = k.wrapping_mul(C2);

        hash = hash ^ k;
        hash = ((hash << R2) | (hash >> (32 - R2))).wrapping_mul(M).wrapping_add(N);
        proof {
            assert(hash == spec_mix(spec_blocks_hash(data@, seed, i as int), block));
        }
        i = i + 1;
    }

    let tail_base = (n_blocks * 4) as usize;
    let remainder = length & 3;
    proof {
        assert(length & 3 == length % 4) by (bit_vector);
    }
    let mut k1 = 0u32;

    if remainder == 3 {
        k1 = k1 ^ ((data[tail_base + 2] as u32) << 16);
    }

    if remainder >= 2 {
        k1 = k1 ^ ((data[tail_base + 1] as u32) << 8);
    }

    if remainder >= 1 {
        k1 = k1 ^ (data[tail_base] as u32);
        proof {
            let b0 = data@[tail_base as int] as u32;
            assert(0xff & b0 == b0) by (bit_vector)
                requires
                    b0 < 256,
            ;
            if remainder >= 2 {
                let b1 = data@[tail_base + 1] as u32;
                assert(0xff & b1 == b1) by (bit_vector)
                    requires
                        b1 < 256,
                ;
            }
            if remainder == 3 {
                let b2 = data@[tail_base + 2] as u32;
                assert(0xff & b2 == b2) by (bit_vector)
                    requires
                        b2 < 256,
                ;
            }
            assert(k1 == spec_tail_word(data@));
        }
        k1 = k1.wrapping_mul(C1);
        k1 = (k1 << R1) | (k1 >> (32 - R1));
        k1 = k1.wrapping_mul(C2);
        hash = hash ^ k1;
    }

    hash = hash ^ length;
    hash = hash ^ (hash >> 16);
    hash = hash.wrapping_mul(0x85ebca6b);
    hash = hash ^ (hash >> 13);
    hash = hash.wrapping_mul(0xc2b2ae35);
    hash = hash ^ (hash >> 16);

    hash
}

/// Reads a 32-bit little-endian word from the first four bytes of the slice.
fn get_u32(data: &[u8]) -> (r: u32)
    requires
        data@.len() >= 4,
    ensures
        r == spec_word(data@[0], data@[1], data@[2], data@[3]),
{
    ((0xff & (data[3] as u32)) << 24) | ((0xff & (data[2] as u32)) << 16) | ((0xff & (data[1]
        as u32)) << 8) | (0xff & (data[0] as u32))
}

} // verus!
