//! A bloom filter over a fixed array of bits, keyed by murmur3 hashes.

use vstd::prelude::*;

verus! {

use crate::algorithms::murmur::{murmur3_32_seed, spec_murmur3_32_seed};

/// How many bits of the filter one pushed value sets: the classic
/// `ceil((capacity / expected_length) * ln 2)`, computed against the
/// fixed-point constant `693147 / 1000000` for `ln 2`, and at least one.
pub open spec fn spec_hash_count(capacity: u32, expected_length: u32) -> u32
    recommends
        expected_length >= 1,
{
    let q = capacity as nat / expected_length as nat;
    let k = ((q * 693147 + 999999) / 1000000) as u32;
    if k < 1 {
        1u32
    } else {
        k
    }
}

/// The bit that the `i`-th hash of `data` addresses in a filter of
/// `nbits` bits.
pub open spec fn spec_bit_index(nbits: int, data: Seq<u8>, i: u32) -> int
    recommends
        nbits >= 1,
{
    spec_murmur3_32_seed(data, i) as int % nbits
}

/// All bits that the hashes of `data` address are set.
pub open spec fn spec_contains(bits: Seq<bool>, hash_count: u32, data: Seq<u8>) -> bool {
    forall|i: u32| i < hash_count ==> bits[#[trigger] spec_bit_index(bits.len() as int, data, i)]
}

/// A bloom filter: a set of bits addressed by a fixed number of murmur3
/// hashes of each pushed value. Membership queries may report false
/// positives but never false negatives.
pub struct BloomFilter {
    set: Vec<bool>,
    expected_length: u32,
    hash_count: u32,
}

impl BloomFilter {
    /// The filter's bits.
    pub closed spec fn bits(&self) -> Seq<bool> {
        self.set@
    }

    /// How many bits each pushed value sets.
    pub closed spec fn num_hashes(&self) -> u32 {
        self.hash_count
    }

    /// How many values the filter was told to expect.
    pub closed spec fn spec_expected_length(&self) -> u32 {
        self.expected_length
    }

    /// The number of bits in the filter.
    pub fn bit_count(&self) -> (r: usize)
        ensures
            r == self.bits().len(),
    {
        self.set.len()
    }

    /// How many bits each pushed value sets.
    pub fn hash_count(&self) -> (r: u32)
        ensures
            r == self.num_hashes(),
    {
        self.hash_count
    }

    /// How many values the filter was told to expect.
    pub fn expected_length(&self) -> (r: u32)
        ensures
            r == self.spec_expected_length(),
    {
        self.expected_length
    }

    /// There is at least one bit and at least one hash.
    pub open spec fn wf(&self) -> bool {
        &&& self.bits().len() >= 1
        &&& self.num_hashes() >= 1
    }

    /// Constructs a new bloom filter.
    ///
    /// You must specify the number of bits in the bloom filter, and also you
    /// should specify the number of items you expect to add. The latter is
    /// used to choose some optimal internal values to minimize the
    /// false-positive rate.
    pub fn with_capacity(capacity: u32, expected_length: u32) -> (r: BloomFilter)
        requires
            expected_length >= 1,
        ensures
            r.wf(),
            r.bits().len() == if capacity == 0 { 1int } else { capacity as int },
            r.num_hashes() == spec_hash_count(capacity, expected_length),
            r.spec_expected_length() == expected_length,
            forall|j: int| 0 <= j < r.bits().len() ==> !(#[trigger] r.bits()[j]),
    {
        let q = capacity / expected_length;
        let scaled = (q as u64 * 693147 + 999999) / 1000000;
        let count = scaled as u32;
        let hash_count = if count < 1 {
            1
        } else {
            count
        };
        let nbits: usize = if capacity == 0 {
            1
        } else {
            capacity as usize
        };
        let mut set: Vec<bool> = Vec::new();
        while set.len() < nbits
            invariant
                set@.len() <= nbits,
                forall|j: int| 0 <= j < set@.len() ==> !(#[trigger] set@[j]),
            decreases nbits - set@.len(),
        {
            set.push(false);
        }
        BloomFilter { set, expected_length, hash_count }
    }

    /// Pushes a new value to the bloom filter: sets every bit that the
    /// value's hashes address. Afterwards the filter contains the value.
    pub fn push(&mut self, data: &[u8])
        requires
            old(self).wf(),
            data@.len() <= u32::MAX,
        ensures
            final(self).wf(),
            final(self).bits().len() == old(self).bits().len(),
            final(self).num_hashes() == old(self).num_hashes(),
            final(self).spec_expected_length() == old(self).spec_expected_length(),
            forall|j: int|
                0 <= j < final(self).bits().len() ==> (#[trigger] final(self).bits()[j] <==> (old(
                    self,
                ).bits()[j] || exists|i: u32|
                    i < old(self).num_hashes() && j == spec_bit_index(
                        old(self).bits().len() as int,
                        data@,
                        i,
                    ))),
            spec_contains(final(self).bits(), final(self).num_hashes(), data@),
    {
        let ghost orig = self.set@;
        let nbits = self.set.len();
        let mut i: u32 = 0;
        while i < self.hash_count
            invariant
                self.wf(),
                data@.len() <= u32::MAX,
                nbits == self.set@.len(),
                self.set@.len() == orig.len(),
                self.hash_count == old(self).hash_count,
                self.expected_length == old(self).expected_length,
                i <= self.hash_count,
                forall|j: int|
                    0 <= j < self.set@.len() ==> (#[trigger] self.set@[j] <==> (orig[j] || exists|
                        i2: u32,
                    |
                        i2 < i && j == spec_bit_index(orig.len() as int, data@, i2))),
            decreases self.hash_count - i,
        {
            let h = murmur3_32_seed(data, i);
            let index = (h as usize) % nbits;
            let ghost pre = self.set@;
            self.set[index] = true;
            proof {
                assert(index as int == spec_bit_index(orig.len() as int, data@, i));
                assert forall|j: int| 0 <= j < self.set@.len() implies (#[trigger] self.set@[j]
                    <==> (orig[j] || exists|i2: u32|
                    i2 < i + 1 && j == spec_bit_index(orig.len() as int, data@, i2))) by {
                    if j == index {
                        assert(i < i + 1 && j == spec_bit_index(orig.len() as int, data@, i));
                    } else {
                        assert(self.set@[j] == pre[j]);
                        assert forall|i2: u32|
                            i2 < i + 1 && j == spec_bit_index(
                                orig.len() as int,
                                data@,
                                i2,
                            ) implies i2 < i by {
                            assert(i2 != i);
                        }
                    }
                }
            }
            i = i + 1;
        }
        proof {
            assert forall|i2: u32| i2 < self.hash_count implies self.set@[#[trigger] spec_bit_index(
                self.set@.len() as int,
                data@,
                i2,
            )] by {
                assert(0 <= spec_bit_index(orig.len() as int, data@, i2) < orig.len());
            }
        }
    }

    /// Clears the bloom filter.
    pub fn clear(&mut self)
        requires
            old(self).wf(),
        ensures
            final(self).wf(),
            final(self).bits().len() == old(self).bits().len(),
            final(self).num_hashes() == old(self).num_hashes(),
            final(self).spec_expected_length() == old(self).spec_expected_length(),
            forall|j: int| 0 <= j < final(self).bits().len() ==> !(#[trigger] final(self).bits()[j]),
    {
        let nbits = self.set.len();
        let mut i: usize = 0;
        while i < nbits
            invariant
                nbits == self.set@.len(),
                self.hash_count == old(self).hash_count,
                self.expected_length == old(self).expected_length,
                self.hash_count >= 1,
                i <= nbits,
                forall|j: int| 0 <= j < i ==> !(#[trigger] self.set@[j]),
            decreases nbits - i,
        {
            self.set[i] = false;
            i = i + 1;
        }
    }

    /// Returns false if the data was definitely not added to the bloom
    /// filter, and true if it may have been.
    pub fn contains(&self, data: &[u8]) -> (r: bool)
        requires
            self.wf(),
            data@.len() <= u32::MAX,
        ensures
            r == spec_contains(self.bits(), self.num_hashes(), data@),
    {
        let nbits = self.set.len();
        let mut i: u32 = 0;
        while i < self.hash_count
            invariant
                self.wf(),
                data@.len() <= u32::MAX,
                nbits == self.set@.len(),
                i <= self.hash_count,
                forall|i2: u32|
                    i2 < i ==> self.set@[#[trigger] spec_bit_index(
                        self.set@.len() as int,
                        data@,
                        i2,
                    )],
            decreases self.hash_count - i,
        {
            let h = murmur3_32_seed(data, i);
            let index = (h as usize) % nbits;
            if !self.set[index] {
                proof {
                    assert(index as int == spec_bit_index(self.set@.len() as int, data@, i));
                }
                return false;
            }
            i = i + 1;
        }
        true
    }
}

} // verus!
