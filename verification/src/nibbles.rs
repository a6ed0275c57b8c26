//! Sequences of 4-bit values, the unit in which the calculator stores objects.
//!
//! A byte sequence is linearised low nibble first: byte `k` becomes the
//! nibbles at positions `2k` (low half) and `2k + 1` (high half).

use vstd::prelude::*;

verus! {

/// Every element of `s` is a 4-bit value.
pub open spec fn is_nibble_seq(s: Seq<u8>) -> bool {
    forall|i: int| 0 <= i < s.len() ==> #[trigger] s[i] < 16
}

/// The nibble at position `i` of the nibble sequence of `bytes`.
pub open spec fn nibble_at(bytes: Seq<u8>, i: int) -> u8 {
    if i % 2 == 0 {
        bytes[i / 2] % 16
    } else {
        bytes[i / 2] / 16
    }
}

/// The nibble sequence of a byte sequence, low nibble of each byte first.
pub open spec fn bytes_to_nibbles(bytes: Seq<u8>) -> Seq<u8> {
    Seq::new(2 * bytes.len(), |i: int| nibble_at(bytes, i))
}

/// The byte whose low half is `lo` and whose high half is `hi`.
pub open spec fn byte_of(lo: u8, hi: u8) -> int {
    lo + 16 * hi
}

/// The value of the five-nibble field that starts at `at`, least significant
/// nibble first.
pub open spec fn field_value(s: Seq<u8>, at: int) -> int {
    s[at] + 16 * s[at + 1] + 256 * s[at + 2] + 4096 * s[at + 3] + 65536 * s[at + 4]
}

/// A nibble sequence of a byte sequence holds 4-bit values only, and splitting
/// distributes over appending a byte.
pub proof fn lemma_bytes_to_nibbles(bytes: Seq<u8>)
    ensures
        is_nibble_seq(bytes_to_nibbles(bytes)),
        bytes_to_nibbles(bytes).len() == 2 * bytes.len(),
        bytes.len() > 0 ==> bytes_to_nibbles(bytes) == bytes_to_nibbles(bytes.drop_last()).push(
            bytes.last() % 16,
        ).push(bytes.last() / 16),
{
    if bytes.len() > 0 {
        let whole = bytes_to_nibbles(bytes);
        let built = bytes_to_nibbles(bytes.drop_last()).push(bytes.last() % 16).push(
            bytes.last() / 16,
        );
        assert(whole.len() == built.len());
        assert forall|i: int| 0 <= i < whole.len() implies whole[i] == built[i] by {
            if i < 2 * (bytes.len() - 1) {
                assert(bytes.drop_last()[i / 2] == bytes[i / 2]);
            }
        }
        assert(whole =~= built);
    }
}

/// Whether every element of `nibs` is a 4-bit value.
pub fn is_nibble_slice(nibs: &[u8]) -> (b: bool)
    ensures
        b == is_nibble_seq(nibs@),
{
    let mut i: usize = 0;
    while i < nibs.len()
        invariant
            i <= nibs.len(),
            forall|k: int| 0 <= k < i ==> #[trigger] nibs@[k] < 16,
        decreases nibs.len() - i,
    {
        if nibs[i] >= 16 {
            return false;
        }
        i += 1;
    }
    true
}

/// Splits each byte into its low nibble followed by its high nibble.
pub fn to_nibbles(bytes: &[u8]) -> (nibs: Vec<u8>)
    ensures
        nibs@ == bytes_to_nibbles(bytes@),
        is_nibble_seq(nibs@),
        nibs@.len() == 2 * bytes@.len(),
{
    let mut nibs: Vec<u8> = Vec::new();
    let mut i: usize = 0;
    while i < bytes.len()
        invariant
            i <= bytes.len(),
            nibs@ == bytes_to_nibbles(bytes@.take(i as int)),
        decreases bytes.len() - i,
    {
        let b: u8 = bytes[i];
        proof {
            let next = bytes@.take(i + 1);
            assert(next.drop_last() == bytes@.take(i as int));
            assert(next.last() == b);
            lemma_bytes_to_nibbles(next);
            assert(b & 0xf == b % 16) by (bit_vector);
            assert(b >> 4 == b / 16) by (bit_vector);
        }
        nibs.push(b & 0xf);
        nibs.push(b >> 4);
        i += 1;
    }
    proof {
        assert(bytes@.take(bytes.len() as int) == bytes@);
        lemma_bytes_to_nibbles(bytes@);
    }
    nibs
}

} // verus!
