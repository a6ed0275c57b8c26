//! The calculator's object checksum: a nibble-wise 16-bit mix, seeded with 0.

use vstd::prelude::*;

verus! {

/// One step of the checksum: shift the accumulator right by a nibble and mix
/// in `0x1081` times the low nibble of `acc ^ nibble`.
pub open spec fn crc_step(acc: u32, nibble: u8) -> u32 {
    (acc >> 4) ^ ((((acc ^ (nibble as u32)) & 0xFu32) * 0x1081u32) as u32)
}

/// The checksum of a nibble sequence: `crc_step` folded over it from seed 0.
pub open spec fn spec_checksum(s: Seq<u8>) -> u32
    decreases s.len(),
{
    if s.len() == 0 {
        0
    } else {
        crc_step(spec_checksum(s.drop_last()), s.last())
    }
}

/// A step keeps a 16-bit accumulator within 16 bits.
pub proof fn lemma_crc_step_16_bit(acc: u32, nibble: u8)
    requires
        acc < 0x10000,
    ensures
        crc_step(acc, nibble) < 0x10000,
{
    assert(((acc >> 4) ^ ((((acc ^ (nibble as u32)) & 0xFu32) * 0x1081u32) as u32)) < 0x10000)
        by (bit_vector)
        requires
            acc < 0x10000,
    ;
}

/// The checksum of any sequence is a 16-bit value.
pub proof fn lemma_checksum_16_bit(s: Seq<u8>)
    ensures
        spec_checksum(s) < 0x10000,
    decreases s.len(),
{
    if s.len() > 0 {
        lemma_checksum_16_bit(s.drop_last());
        lemma_crc_step_16_bit(spec_checksum(s.drop_last()), s.last());
    }
}

/// The checksum of the first `n` nibbles of a buffer depends on those
/// nibbles alone: two buffers that agree on their first `n` nibbles have the
/// same checksum there, whatever follows.
pub proof fn lemma_checksum_ignores_rest(a: Seq<u8>, b: Seq<u8>, n: int)
    requires
        0 <= n <= a.len(),
        n <= b.len(),
        forall|i: int| 0 <= i < n ==> a[i] == b[i],
    ensures
        spec_checksum(a.take(n)) == spec_checksum(b.take(n)),
{
    assert(a.take(n) =~= b.take(n));
}

/// Advances the checksum in `crc` by one nibble.
pub fn calc_crc(crc: &mut u32, nibble: u8)
    ensures
        *final(crc) == crc_step(*old(crc), nibble),
{
    let acc: u32 = *crc;
    let low: u32 = (acc ^ nibble as u32) & 0xFu32;
    assert(low <= 15) by (bit_vector)
        requires
            low == (acc ^ nibble as u32) & 0xFu32,
    ;
    *crc = (acc >> 4) ^ (low * 0x1081u32);
}

/// The checksum of the first `length` nibbles of `nibs`.
pub fn checksum(nibs: &[u8], length: usize) -> (crc: u32)
    requires
        length <= nibs.len(),
    ensures
        crc == spec_checksum(nibs@.take(length as int)),
        crc < 0x10000,
{
    let mut crc: u32 = 0;
    let mut i: usize = 0;
    while i < length
        invariant
            i <= length <= nibs.len(),
            crc == spec_checksum(nibs@.take(i as int)),
        decreases length - i,
    {
        proof {
            let next = nibs@.take(i + 1);
            assert(next.drop_last() == nibs@.take(i as int));
            assert(next.last() == nibs@[i as int]);
        }
        calc_crc(&mut crc, nibs[i]);
        i += 1;
    }
    proof {
        lemma_checksum_16_bit(nibs@.take(length as int));
    }
    crc
}

} // verus!
