//! Machine words as bytes, in the byte order of the machine.
use vstd::prelude::*;

verus! {

/// Bytes in a machine word.
pub const WORD: usize = 8;

/// The bytes of `x` as they lie in memory: least significant byte first on a
/// little-endian machine, in the opposite order on a big-endian one.
pub open spec fn word_bytes(x: usize) -> Seq<u8> {
    if vstd::endian::endianness() is Little {
        vstd::bytes::spec_u64_to_le_bytes(x as u64)
    } else {
        vstd::bytes::spec_u64_to_le_bytes(x as u64).reverse()
    }
}

/// The word whose bytes in memory are `s`.
pub open spec fn word_value(s: Seq<u8>) -> usize {
    if vstd::endian::endianness() is Little {
        vstd::bytes::spec_u64_from_le_bytes(s) as usize
    } else {
        vstd::bytes::spec_u64_from_le_bytes(s.reverse()) as usize
    }
}

/// A word takes [`WORD`] bytes, and reading them gives the word back.
pub proof fn law_word_round_trip(x: usize)
    ensures
        word_bytes(x).len() == WORD,
        word_value(word_bytes(x)) == x,
{
    vstd::bytes::lemma_auto_spec_u64_to_from_le_bytes();
    let le = vstd::bytes::spec_u64_to_le_bytes(x as u64);
    assert(le.reverse().reverse() =~= le);
}

/// Calls `usize::to_ne_bytes`: the result holds the bytes of `x` in the byte
/// order of the machine.
#[verifier::external_body]
pub(crate) fn word_to_bytes(x: usize) -> (r: [u8; 8])
    ensures
        r@ == word_bytes(x),
{
    x.to_ne_bytes()
}

/// Calls `usize::from_ne_bytes`: the result is the word whose bytes, in the byte
/// order of the machine, are `bytes`.
#[verifier::external_body]
pub(crate) fn word_from_bytes(bytes: [u8; 8]) -> (r: usize)
    ensures
        r == word_value(bytes@),
{
    usize::from_ne_bytes(bytes)
}

} // verus!
