//! The 64-bit FNV-1a hash.
use vstd::prelude::*;
use vstd::string::*;
use vstd::utf8::*;

verus! {

/// The hash of nothing.
pub const FNV_OFFSET: u64 = 0xcbf29ce484222325;

/// The multiplier of each step.
pub const FNV_PRIME: u64 = 0x100000001b3;

/// The hash after one more byte.
pub open spec fn step(hash: u64, byte: u8) -> u64 {
    (hash ^ (byte as u64)).wrapping_mul(FNV_PRIME)
}

/// The hash after more bytes.
pub open spec fn over(hash: u64, bytes: Seq<u8>) -> u64
    decreases bytes.len(),
{
    if bytes.len() == 0 {
        hash
    } else {
        step(over(hash, bytes.drop_last()), bytes.last())
    }
}

/// The hash of a text's UTF-8 bytes.
pub open spec fn of_text(s: Seq<char>) -> u64 {
    over(FNV_OFFSET, encode_utf8(s))
}

/// The hash after one more byte.
pub fn hash_byte(hash: u64, byte: u8) -> (r: u64)
    ensures
        r == step(hash, byte),
{
    (hash ^ (byte as u64)).wrapping_mul(FNV_PRIME)
}

/// The hash after more bytes.
pub fn hash_bytes(hash: u64, bytes: &[u8]) -> (r: u64)
    ensures
        r == over(hash, bytes@),
{
    let mut h: u64 = hash;
    let mut i: usize = 0;
    while i < bytes.len()
        invariant
            i <= bytes@.len(),
            h == over(hash, bytes@.take(i as int)),
        decreases bytes@.len() - i,
    {
        h = hash_byte(h, bytes[i]);
        assert(bytes@.take(i + 1).drop_last() =~= bytes@.take(i as int));
        i += 1;
    }
    assert(bytes@.take(bytes@.len() as int) =~= bytes@);
    h
}

/// The hash of a text's UTF-8 bytes.
pub fn hash_text(s: &str) -> (r: u64)
    ensures
        r == of_text(s@),
{
    hash_bytes(FNV_OFFSET, s.as_bytes())
}

/// Hashing goes byte by byte: what comes later continues the hash of what came
/// before. One byte is mixed in by an exclusive or and one multiplication.
pub proof fn law_hashes_continue(hash: u64, a: Seq<u8>, b: Seq<u8>, byte: u8)
    ensures
        over(hash, a + b) == over(over(hash, a), b),
        over(hash, seq![byte]) == (hash ^ (byte as u64)).wrapping_mul(0x100_0000_01b3),
        over(hash, Seq::empty()) == hash,
    decreases b.len(),
{
    assert(seq![byte].drop_last() =~= Seq::<u8>::empty());
    assert(over(hash, seq![byte].drop_last()) == hash);
    assert(seq![byte].last() == byte);
    if b.len() == 0 {
        assert(a + b =~= a);
    } else {
        law_hashes_continue(hash, a, b.drop_last(), byte);
        assert((a + b).drop_last() =~= a + b.drop_last());
        assert((a + b).last() == b.last());
    }
}

}
