//! The bitset type and its operations.

use vstd::prelude::*;

use crate::bits::{
    bit_at, bits_of, chunk_count, filled, filled_with_tail, lemma_filled_with_tail_bits,
    lemma_last_index, lemma_set_reset_round_trip, lemma_zero_bits, tail_mask, valid_chunks,
    with_bit_cleared, with_bit_set, CHUNK_BITS,
};

verus! {

/// A bitset of fixed size stored in 32-bit chunks.
///
/// Bit `i` is bit `i % 32` of chunk `i / 32`, counted from the least
/// significant end, so that each chunk encoded with `u32::to_le_bytes` gives
/// the same bytes on every host. The bits of the last chunk beyond the size
/// are always zero.
pub struct BitSet {
    chunks: Vec<u32>,
    num_bits: usize,
}

impl View for BitSet {
    type V = Seq<bool>;

    /// The bits `0 .. num_bits`, in order.
    open spec fn view(&self) -> Seq<bool> {
        bits_of(self.spec_chunks(), self.spec_num_bits())
    }
}

impl BitSet {
    /// The storage chunks.
    pub closed spec fn chunk_vec(&self) -> Vec<u32> {
        self.chunks
    }

    /// The storage chunks as a sequence.
    pub open spec fn spec_chunks(&self) -> Seq<u32> {
        self.chunk_vec()@
    }

    /// The number of addressable bits.
    pub closed spec fn spec_num_bits(&self) -> nat {
        self.num_bits as nat
    }

    /// The chunk count matches the size, the size is positive, and the
    /// padding bits of the last chunk are zero.
    pub open spec fn wf(&self) -> bool {
        valid_chunks(self.spec_chunks(), self.spec_num_bits())
    }

    /// Number of chunks needed to store `num_bits` bits.
    pub fn calc_chunks(num_bits: usize) -> (r: usize)
        ensures
            r == chunk_count(num_bits as nat),
            num_bits >= 1 ==> 32 * (r - 1) < num_bits <= 32 * r,
    {
        let full = num_bits / CHUNK_BITS;
        if num_bits % CHUNK_BITS == 0 {
            full
        } else {
            full + 1
        }
    }

    /// Mask of the valid bits of the last chunk of a `num_bits`-bit set.
    pub fn last_mask(num_bits: usize) -> (r: u32)
        requires
            num_bits >= 1,
        ensures
            r == tail_mask(num_bits as nat),
    {
        let s = ((num_bits - 1) % CHUNK_BITS) as u32;
        assert(!(!1u32 << s) == u32::MAX >> (31 - s) as u32) by (bit_vector)
            requires
                s < 32,
        ;
        !(!1u32 << s)
    }

    /// The raw chunks.
    pub fn chunks(&self) -> (r: &Vec<u32>)
        ensures
            r@ == self.spec_chunks(),
    {
        &self.chunks
    }

    /// The number of addressable bits.
    pub fn num_bits(&self) -> (r: usize)
        ensures
            r == self.spec_num_bits(),
    {
        self.num_bits
    }

    /// Sets bit `idx` to one, leaving every other bit as it was.
    pub fn set(&mut self, idx: usize)
        requires
            old(self).wf(),
            idx < old(self).spec_num_bits(),
        ensures
            final(self).wf(),
            final(self).spec_num_bits() == old(self).spec_num_bits(),
            final(self).spec_chunks() == with_bit_set(old(self).spec_chunks(), idx as nat),
            final(self)@ == old(self)@.update(idx as int, true),
    {
        proof {
            lemma_last_index(self.num_bits as nat, idx as nat);
        }
        let k = idx / CHUNK_BITS;
        let p = (idx % CHUNK_BITS) as u32;
        let c = self.chunks[k];
        self.chunks[k] = c | (1u32 << p);
        proof {
            let before = old(self).spec_chunks();
            let n = self.num_bits as nat;
            assert(self.spec_chunks() =~= with_bit_set(before, idx as nat));
            lemma_set_reset_round_trip(before, n, idx as nat, 0);
            assert forall|j: int| 0 <= j < n implies #[trigger] self@[j] == old(self)@.update(
                idx as int,
                true,
            )[j] by {
                lemma_set_reset_round_trip(before, n, idx as nat, j as nat);
            }
            assert(self@ =~= old(self)@.update(idx as int, true));
        }
    }

    /// Clears bit `idx` to zero, leaving every other bit as it was.
    pub fn reset(&mut self, idx: usize)
        requires
            old(self).wf(),
            idx < old(self).spec_num_bits(),
        ensures
            final(self).wf(),
            final(self).spec_num_bits() == old(self).spec_num_bits(),
            final(self).spec_chunks() == with_bit_cleared(old(self).spec_chunks(), idx as nat),
            final(self)@ == old(self)@.update(idx as int, false),
    {
        proof {
            lemma_last_index(self.num_bits as nat, idx as nat);
        }
        let k = idx / CHUNK_BITS;
        let p = (idx % CHUNK_BITS) as u32;
        let c = self.chunks[k];
        self.chunks[k] = c & !(1u32 << p);
        proof {
            let before = old(self).spec_chunks();
            let n = self.num_bits as nat;
            assert(self.spec_chunks() =~= with_bit_cleared(before, idx as nat));
            lemma_set_reset_round_trip(before, n, idx as nat, 0);
            assert forall|j: int| 0 <= j < n implies #[trigger] self@[j] == old(self)@.update(
                idx as int,
                false,
            )[j] by {
                lemma_set_reset_round_trip(before, n, idx as nat, j as nat);
            }
            assert(self@ =~= old(self)@.update(idx as int, false));
        }
    }

    /// Reads bit `idx`.
    pub fn test(&self, idx: usize) -> (r: bool)
        requires
            self.wf(),
            idx < self.spec_num_bits(),
        ensures
            r == self@[idx as int],
            r == bit_at(self.spec_chunks(), idx as nat),
    {
        proof {
            lemma_last_index(self.num_bits as nat, idx as nat);
        }
        let c = self.chunks[idx / CHUNK_BITS];
        let p = (idx % CHUNK_BITS) as u32;
        (c >> p) & 1 == 1
    }

    /// Sets every bit to zero.
    pub fn reset_all(&mut self)
        requires
            old(self).wf(),
        ensures
            final(self).wf(),
            final(self).spec_num_bits() == old(self).spec_num_bits(),
            final(self).spec_chunks() == filled(old(self).spec_chunks().len(), 0),
            final(self)@ == Seq::new(old(self).spec_num_bits(), |_i: int| false),
    {
        let n = self.chunks.len();
        let mut i: usize = 0;
        while i < n
            invariant
                n == self.chunks.len(),
                n == old(self).chunks.len(),
                self.num_bits == old(self).num_bits,
                i <= n,
                forall|j: int| 0 <= j < i ==> self.chunks[j] == 0u32,
            decreases n - i,
        {
            self.chunks[i] = 0;
            i += 1;
        }
        proof {
            assert(self.spec_chunks() =~= filled(n as nat, 0));
            lemma_zero_bits(self.num_bits as nat);
        }
    }

    /// Sets every bit to one: every chunk is filled with ones, then the last
    /// one is overwritten with the mask of its valid bits.
    pub fn set_all(&mut self)
        requires
            old(self).wf(),
        ensures
            final(self).wf(),
            final(self).spec_num_bits() == old(self).spec_num_bits(),
            final(self).spec_chunks() == filled_with_tail(
                old(self).spec_chunks().len(),
                old(self).spec_num_bits(),
            ),
            final(self).spec_chunks().last() == tail_mask(old(self).spec_num_bits()),
            final(self)@ == Seq::new(old(self).spec_num_bits(), |_i: int| true),
    {
        let n = self.chunks.len();
        let mut i: usize = 0;
        while i < n
            invariant
                n == self.chunks.len(),
                n == old(self).chunks.len(),
                self.num_bits == old(self).num_bits,
                i <= n,
                forall|j: int| 0 <= j < i ==> self.chunks[j] == u32::MAX,
            decreases n - i,
        {
            self.chunks[i] = u32::MAX;
            i += 1;
        }
        let num_chunks = self.chunks.len();
        self.chunks[num_chunks - 1] = Self::last_mask(self.num_bits);
        proof {
            assert(self.spec_chunks() =~= filled_with_tail(n as nat, self.num_bits as nat));
            lemma_filled_with_tail_bits(self.num_bits as nat);
        }
    }

    /// A set of `num_bits` bits, all zero.
    pub fn with_capacity(num_bits: usize) -> (r: Self)
        requires
            num_bits >= 1,
        ensures
            r.wf(),
            r.spec_num_bits() == num_bits,
            r.spec_chunks() == filled(chunk_count(num_bits as nat), 0),
            r@ == Seq::new(num_bits as nat, |_i: int| false),
    {
        let num_chunks = Self::calc_chunks(num_bits);
        let mut chunks: Vec<u32> = Vec::with_capacity(num_chunks);
        let mut i: usize = 0;
        while i < num_chunks
            invariant
                i <= num_chunks,
                chunks@ == filled(i as nat, 0),
            decreases num_chunks - i,
        {
            chunks.push(0);
            i += 1;
            assert(chunks@ =~= filled(i as nat, 0));
        }
        proof {
            lemma_zero_bits(num_bits as nat);
        }
        BitSet { chunks, num_bits }
    }

    /// A set of `num_bits` bits, all zero, or `None` when `num_bits` is zero.
    pub fn try_with_capacity(num_bits: usize) -> (r: Option<Self>)
        ensures
            r is None <==> num_bits == 0,
            r matches Some(b) ==> b.wf() && b.spec_num_bits() == num_bits && b@ == Seq::new(
                num_bits as nat,
                |_i: int| false,
            ),
    {
        if num_bits == 0 {
            None
        } else {
            Some(Self::with_capacity(num_bits))
        }
    }

    /// A set of `num_bits` bits stored in the given raw chunks.
    pub fn from_bits(chunks: Vec<u32>, num_bits: usize) -> (r: Self)
        requires
            valid_chunks(chunks@, num_bits as nat),
        ensures
            r.wf(),
            r.spec_num_bits() == num_bits,
            r.spec_chunks() == chunks@,
    {
        BitSet { chunks, num_bits }
    }

    /// A set of `num_bits` bits stored in the given raw chunks, or `None`
    /// when `num_bits` is zero, the number of chunks is not
    /// `ceil(num_bits / 32)`, or a bit of the last chunk beyond the size is
    /// set.
    pub fn try_from_bits(chunks: Vec<u32>, num_bits: usize) -> (r: Option<Self>)
        ensures
            r is Some <==> valid_chunks(chunks@, num_bits as nat),
            r matches Some(b) ==> b.spec_num_bits() == num_bits && b.spec_chunks() == chunks@,
    {
        if num_bits == 0 || chunks.len() != Self::calc_chunks(num_bits) {
            return None;
        }
        let last = chunks[chunks.len() - 1];
        if last & !Self::last_mask(num_bits) != 0 {
            return None;
        }
        Some(Self::from_bits(chunks, num_bits))
    }
}


impl From<BitSet> for Vec<u32> {
    /// The raw chunks of the set; its size is not kept.
    fn from(bitset: BitSet) -> (r: Vec<u32>) {
        bitset.chunks
    }
}

impl vstd::std_specs::convert::FromSpecImpl<BitSet> for Vec<u32> {
    open spec fn obeys_from_spec() -> bool {
        true
    }

    open spec fn from_spec(bitset: BitSet) -> Vec<u32> {
        bitset.chunk_vec()
    }
}

} // verus!
