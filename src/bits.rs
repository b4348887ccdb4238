//! Mathematical model of chunked bit storage and the bit-level facts
//! the bitset relies on.
//!
//! Bit `i` of a chunk sequence is bit `i % 32` (counted from the least
//! significant end) of chunk `i / 32`. Encoding each chunk with
//! `u32::to_le_bytes` therefore places bit `i` of a chunk in byte `i / 8`,
//! at position `i % 8`, on every host.

use vstd::prelude::*;

verus! {

/// Number of bits held by one storage chunk.
pub const CHUNK_BITS: usize = 32;

/// Number of chunks needed to hold `num_bits` bits: `ceil(num_bits / 32)`.
pub open spec fn chunk_count(num_bits: nat) -> nat {
    (num_bits + 31) / 32
}

/// Whether bit `j` of `c`, counted from the least significant end, is one.
pub open spec fn bit_of(c: u32, j: u32) -> bool {
    (c >> j) & 1u32 == 1u32
}

/// Bit `i` of a chunk sequence: bit `i % 32` of chunk `i / 32`.
pub open spec fn bit_at(chunks: Seq<u32>, i: nat) -> bool {
    bit_of(chunks[(i / 32) as int], (i % 32) as u32)
}

/// The bits `0 .. num_bits` of a chunk sequence.
pub open spec fn bits_of(chunks: Seq<u32>, num_bits: nat) -> Seq<bool> {
    Seq::new(num_bits, |i: int| bit_at(chunks, i as nat))
}

/// Mask of the valid bits of the last chunk of a `num_bits`-bit set: its
/// low `(num_bits - 1) % 32 + 1` bits are one, the others zero.
pub open spec fn tail_mask(num_bits: nat) -> u32
    recommends
        num_bits >= 1,
{
    u32::MAX >> ((31 - (num_bits - 1) % 32) as u32)
}

/// Chunks that can back a `num_bits`-bit set: at least one bit, exactly
/// `ceil(num_bits / 32)` chunks, and no bit set beyond `num_bits - 1`.
pub open spec fn valid_chunks(chunks: Seq<u32>, num_bits: nat) -> bool {
    &&& num_bits >= 1
    &&& chunks.len() == chunk_count(num_bits)
    &&& chunks.last() & !tail_mask(num_bits) == 0
}

/// The chunks with bit `idx` set to one.
pub open spec fn with_bit_set(chunks: Seq<u32>, idx: nat) -> Seq<u32> {
    chunks.update((idx / 32) as int, chunks[(idx / 32) as int] | (1u32 << ((idx % 32) as u32)))
}

/// The chunks with bit `idx` cleared to zero.
pub open spec fn with_bit_cleared(chunks: Seq<u32>, idx: nat) -> Seq<u32> {
    chunks.update((idx / 32) as int, chunks[(idx / 32) as int] & !(1u32 << ((idx % 32) as u32)))
}

/// `n` chunks all equal to `c`.
pub open spec fn filled(n: nat, c: u32) -> Seq<u32> {
    Seq::new(n, |_i: int| c)
}

/// `n` chunks of all ones, but for the last one, which is `tail_mask(num_bits)`.
pub open spec fn filled_with_tail(n: nat, num_bits: nat) -> Seq<u32> {
    filled(n, u32::MAX).update(n - 1, tail_mask(num_bits))
}

proof fn lemma_single_bit(c: u32, p: u32, j: u32)
    requires
        p < 32,
        j < 32,
    ensures
        bit_of(c | (1u32 << p), j) == (j == p || bit_of(c, j)),
        bit_of(c & !(1u32 << p), j) == (j != p && bit_of(c, j)),
{
    assert(((c | (1u32 << p)) >> j) & 1u32 == 1u32 <==> (j == p || (c >> j) & 1u32 == 1u32))
        by (bit_vector)
        requires
            p < 32,
            j < 32,
    ;
    assert(((c & !(1u32 << p)) >> j) & 1u32 == 1u32 <==> (j != p && (c >> j) & 1u32 == 1u32))
        by (bit_vector)
        requires
            p < 32,
            j < 32,
    ;
}

proof fn lemma_mask_bits(s: u32, j: u32)
    requires
        s < 32,
        j < 32,
    ensures
        bit_of(u32::MAX >> (31 - s) as u32, j) == (j <= s),
        bit_of(u32::MAX, j),
        !bit_of(0u32, j),
{
    assert(((u32::MAX >> (31 - s) as u32) >> j) & 1u32 == 1u32 <==> j <= s) by (bit_vector)
        requires
            s < 32,
            j < 32,
    ;
    assert((u32::MAX >> j) & 1u32 == 1u32) by (bit_vector)
        requires
            j < 32,
    ;
    assert((0u32 >> j) & 1u32 != 1u32) by (bit_vector);
}

/// Where bit `idx` of a `num_bits`-bit set lies among its chunks.
pub proof fn lemma_last_index(num_bits: nat, idx: nat)
    requires
        num_bits >= 1,
        idx < num_bits,
    ensures
        chunk_count(num_bits) == (num_bits - 1) / 32 + 1,
        idx / 32 < chunk_count(num_bits),
        idx / 32 == chunk_count(num_bits) - 1 ==> idx % 32 <= (num_bits - 1) % 32,
{
}

/// Setting or clearing one bit changes that bit alone, and keeps the chunks
/// valid: afterwards bit `idx` reads one (resp. zero), and every other bit
/// reads as before, also across a chunk boundary.
pub proof fn lemma_set_reset_round_trip(chunks: Seq<u32>, num_bits: nat, idx: nat, j: nat)
    requires
        valid_chunks(chunks, num_bits),
        idx < num_bits,
        j < num_bits,
    ensures
        valid_chunks(with_bit_set(chunks, idx), num_bits),
        valid_chunks(with_bit_cleared(chunks, idx), num_bits),
        bit_at(with_bit_set(chunks, idx), j) == (j == idx || bit_at(chunks, j)),
        bit_at(with_bit_cleared(chunks, idx), j) == (j != idx && bit_at(chunks, j)),
{
    lemma_last_index(num_bits, idx);
    lemma_last_index(num_bits, j);
    let k = (idx / 32) as int;
    let p = (idx % 32) as u32;
    let last = chunks.len() - 1;
    let s = ((num_bits - 1) % 32) as u32;
    let m = tail_mask(num_bits);
    let c = chunks[k];
    lemma_single_bit(c, p, (j % 32) as u32);
    if k == last {
        assert(p <= s);
        assert(c & !m == 0);
        assert((c | (1u32 << p)) & !(u32::MAX >> (31 - s) as u32) == 0) by (bit_vector)
            requires
                p <= s,
                s < 32,
                c & !(u32::MAX >> (31 - s) as u32) == 0,
        ;
        assert((c & !(1u32 << p)) & !(u32::MAX >> (31 - s) as u32) == 0) by (bit_vector)
            requires
                c & !(u32::MAX >> (31 - s) as u32) == 0,
        ;
    }
    if j / 32 != idx / 32 {
        assert(j != idx);
    } else if j % 32 == idx % 32 {
        assert(j == idx);
    } else {
        assert(j != idx);
    }
}

/// Every bit `0 .. num_bits` of a valid all-ones-but-tail chunk sequence
/// reads one.
pub proof fn lemma_filled_with_tail_bits(num_bits: nat)
    requires
        num_bits >= 1,
    ensures
        valid_chunks(filled_with_tail(chunk_count(num_bits), num_bits), num_bits),
        bits_of(filled_with_tail(chunk_count(num_bits), num_bits), num_bits)
            == Seq::new(num_bits, |_i: int| true),
{
    let n = chunk_count(num_bits);
    let cs = filled_with_tail(n, num_bits);
    let s = ((num_bits - 1) % 32) as u32;
    lemma_last_index(num_bits, 0);
    assert((u32::MAX >> (31 - s) as u32) & !(u32::MAX >> (31 - s) as u32) == 0) by (bit_vector);
    assert forall|i: int| 0 <= i < num_bits implies #[trigger] bit_at(cs, i as nat) by {
        lemma_last_index(num_bits, i as nat);
        lemma_mask_bits(s, (i % 32) as u32);
    }
    assert(bits_of(cs, num_bits) =~= Seq::new(num_bits, |_i: int| true));
}

/// Every bit of an all-zero chunk sequence reads zero, and it is valid.
pub proof fn lemma_zero_bits(num_bits: nat)
    requires
        num_bits >= 1,
    ensures
        valid_chunks(filled(chunk_count(num_bits), 0), num_bits),
        bits_of(filled(chunk_count(num_bits), 0), num_bits) == Seq::new(num_bits, |_i: int| false),
{
    let cs = filled(chunk_count(num_bits), 0);
    lemma_last_index(num_bits, 0);
    assert forall|i: int| 0 <= i < num_bits implies !#[trigger] bit_at(cs, i as nat) by {
        lemma_last_index(num_bits, i as nat);
        lemma_mask_bits(0, (i % 32) as u32);
    }
    assert(0u32 & !tail_mask(num_bits) == 0) by (bit_vector);
    assert(bits_of(cs, num_bits) =~= Seq::new(num_bits, |_i: int| false));
}

/// When the size is not a multiple of 32, the last-chunk mask is
/// `(1 << (num_bits % 32)) - 1` and never all ones; when it is a multiple of
/// 32, the mask is all ones.
pub proof fn lemma_tail_mask_value(num_bits: nat)
    requires
        num_bits >= 1,
    ensures
        num_bits % 32 != 0 ==> tail_mask(num_bits) == ((1u32 << (num_bits % 32) as u32) - 1) as u32,
        num_bits % 32 != 0 ==> tail_mask(num_bits) != u32::MAX,
        num_bits % 32 == 0 ==> tail_mask(num_bits) == u32::MAX,
{
    let s = ((num_bits - 1) % 32) as u32;
    let r = (num_bits % 32) as u32;
    if num_bits % 32 != 0 {
        assert(r == s + 1);
        assert(u32::MAX >> (31 - s) as u32 == ((1u32 << r) - 1) as u32) by (bit_vector)
            requires
                s < 31,
                r == s + 1,
        ;
        assert(u32::MAX >> (31 - s) as u32 != u32::MAX) by (bit_vector)
            requires
                s < 31,
        ;
    } else {
        assert(s == 31);
        assert(u32::MAX >> 0u32 == u32::MAX) by (bit_vector);
    }
}

} // verus!
