use vstd::prelude::*;

verus! {

/// A growable dense bit vector, indexed by nonnegative `i32` indices.
/// Bits never written read as clear.
pub struct DenseBitVector {
    chunks: Vec<u32>,
}

/// Whether bit `index` is set in a chunked bit store.
pub open spec fn spec_bit(chunks: Seq<u32>, index: int) -> bool {
    &&& 0 <= index
    &&& index / 32 < chunks.len()
    &&& (chunks[index / 32] >> (index % 32) as u32) & 1u32 == 1u32
}

proof fn lemma_set_bit(x: u32, j: u32, k: u32)
    requires
        j < 32,
        k < 32,
    ensures
        j == k ==> ((x | (1u32 << k)) >> j) & 1u32 == 1u32,
        j != k ==> ((x | (1u32 << k)) >> j) & 1u32 == (x >> j) & 1u32,
{
    assert(j == k ==> ((x | (1u32 << k)) >> j) & 1u32 == 1u32) by (bit_vector)
        requires
            j < 32,
            k < 32,
    ;
    assert(j != k ==> ((x | (1u32 << k)) >> j) & 1u32 == (x >> j) & 1u32) by (bit_vector)
        requires
            j < 32,
            k < 32,
    ;
}

proof fn lemma_clear_bit(x: u32, j: u32, k: u32)
    requires
        j < 32,
        k < 32,
    ensures
        j == k ==> ((x & !(1u32 << k)) >> j) & 1u32 == 0u32,
        j != k ==> ((x & !(1u32 << k)) >> j) & 1u32 == (x >> j) & 1u32,
{
    assert(j == k ==> ((x & !(1u32 << k)) >> j) & 1u32 == 0u32) by (bit_vector)
        requires
            j < 32,
            k < 32,
    ;
    assert(j != k ==> ((x & !(1u32 << k)) >> j) & 1u32 == (x >> j) & 1u32) by (bit_vector)
        requires
            j < 32,
            k < 32,
    ;
}

proof fn lemma_zero_bit(j: u32)
    requires
        j < 32,
    ensures
        (0u32 >> j) & 1u32 == 0u32,
{
    assert((0u32 >> j) & 1u32 == 0u32) by (bit_vector)
        requires
            j < 32,
    ;
}

/// Distinct nonnegative indices differ in chunk or in bit position.
proof fn lemma_index_parts(a: int, b: int)
    requires
        0 <= a,
        0 <= b,
        a / 32 == b / 32,
        a % 32 == b % 32,
    ensures
        a == b,
{
    vstd::arithmetic::div_mod::lemma_fundamental_div_mod(a, 32);
    vstd::arithmetic::div_mod::lemma_fundamental_div_mod(b, 32);
}

impl DenseBitVector {
    /// Whether bit `index` is set.
    pub closed spec fn spec_get(&self, index: int) -> bool {
        spec_bit(self.chunks@, index)
    }

    /// An empty bit vector; `capacity` only sizes the first
    /// allocation and must be nonnegative.
    pub fn with_capacity(capacity: i32) -> (r: DenseBitVector)
        requires
            capacity >= 0,
        ensures
            forall|j: int| !r.spec_get(j),
    {
        let chunk_capacity = (capacity as usize + 31) / 32;
        DenseBitVector { chunks: Vec::with_capacity(chunk_capacity) }
    }

    /// Reads bit `index`; an index never written reads as clear.
    pub fn get(&self, index: i32) -> (r: bool)
        requires
            index >= 0,
        ensures
            r == self.spec_get(index as int),
    {
        let u = index as u32;
        let chunk_index = (u / 32) as usize;
        let bit = u % 32;
        if chunk_index < self.chunks.len() {
            ((self.chunks[chunk_index] >> bit) & 1) == 1
        } else {
            false
        }
    }

    /// Writes bit `index`, growing the store as needed; every other
    /// bit keeps its value.
    pub fn set(&mut self, index: i32, value: bool)
        requires
            index >= 0,
        ensures
            final(self).spec_get(index as int) == value,
            forall|j: int| j != index ==> final(self).spec_get(j) == old(self).spec_get(j),
    {
        let u = index as u32;
        let chunk_index = (u / 32) as usize;
        let bit = u % 32;
        let ghost before_growth = self.chunks@;
        while self.chunks.len() <= chunk_index
            invariant
                before_growth.len() <= self.chunks@.len(),
                self.chunks@.take(before_growth.len() as int) == before_growth,
                forall|c: int|
                    before_growth.len() <= c < self.chunks@.len() ==> self.chunks@[c] == 0u32,
            decreases chunk_index + 1 - self.chunks@.len(),
        {
            self.chunks.push(0);
            proof {
                assert(self.chunks@.take(before_growth.len() as int) =~= before_growth);
            }
        }
        let ghost grown = self.chunks@;
        proof {
            assert forall|j: int| 0 <= j implies spec_bit(grown, j) == spec_bit(before_growth, j) by {
                if j / 32 < grown.len() {
                    vstd::arithmetic::div_mod::lemma_mod_bound(j, 32);
                    if j / 32 < before_growth.len() {
                        assert(grown.take(before_growth.len() as int)[j / 32]
                            == before_growth[j / 32]);
                    } else {
                        assert(grown[j / 32] == 0u32);
                        lemma_zero_bit((j % 32) as u32);
                    }
                }
            }
        }
        let chunk = self.chunks[chunk_index];
        let updated = if value {
            chunk | (1u32 << bit)
        } else {
            chunk & !(1u32 << bit)
        };
        self.chunks.set(chunk_index, updated);
        proof {
            vstd::arithmetic::div_mod::lemma_mod_bound(index as int, 32);
            if value {
                lemma_set_bit(chunk, bit, bit);
            } else {
                lemma_clear_bit(chunk, bit, bit);
            }
            assert forall|j: int| j != index implies spec_bit(self.chunks@, j) == spec_bit(
                grown,
                j,
            ) by {
                if 0 <= j && j / 32 < self.chunks@.len() {
                    vstd::arithmetic::div_mod::lemma_mod_bound(j, 32);
                    if j / 32 == chunk_index {
                        if (j % 32) as u32 != bit {
                            if value {
                                lemma_set_bit(chunk, (j % 32) as u32, bit);
                            } else {
                                lemma_clear_bit(chunk, (j % 32) as u32, bit);
                            }
                        } else {
                            lemma_index_parts(j, index as int);
                            assert(false);
                        }
                    }
                }
            }
        }
    }
}

} // verus!
