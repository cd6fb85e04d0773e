//! FNV-1a hashing of index values, used to spread chosen key indices over
//! the key space.
use vstd::prelude::*;

verus! {

/// Offset basis of 64-bit FNV-1a.
pub const FNV_INITIAL_STATE: u64 = 0xcbf2_9ce4_8422_2325;

/// Prime of 64-bit FNV-1a.
pub const FNV_PRIME: u64 = 0x0100_0000_01b3;

/// FNV-1a over a byte sequence, starting from the state `hash`.
pub open spec fn fnv1a(hash: u64, s: Seq<u8>) -> u64
    decreases s.len(),
{
    if s.len() == 0 {
        hash
    } else {
        fnv1a((hash ^ (s[0] as u64)).wrapping_mul(FNV_PRIME), s.drop_first())
    }
}

/// Byte `i` of the 64 bytes that are hashed for the value `x`: its eight
/// little-endian bytes followed by zero bytes.
pub open spec fn padded_byte(x: u64, i: int) -> u8 {
    if 0 <= i < 8 {
        ((x >> ((8 * i) as u64)) & 0xff) as u8
    } else {
        0
    }
}

/// The 64 bytes that are hashed for the value `x`.
pub open spec fn padded_bytes(x: u64) -> Seq<u8> {
    Seq::new(64, |i: int| padded_byte(x, i))
}

/// The hash of `x`: FNV-1a over its padded little-endian bytes.
pub open spec fn spec_fnv_hash(x: u64) -> u64 {
    fnv1a(FNV_INITIAL_STATE, padded_bytes(x))
}

proof fn lemma_shift_step(x: u64, i: u64)
    requires
        i < 8,
    ensures
        (x >> (8 * i)) & 0xff == ((x >> (8 * i)) & 0xff) as u8 as u64,
        i + 1 < 8 ==> (x >> (8 * i)) >> 8 == x >> (8 * (i + 1)),
        i + 1 == 8 ==> (x >> (8 * i)) >> 8 == 0,
{
    assert((x >> (8 * i)) & 0xff == ((x >> (8 * i)) & 0xff) as u8 as u64) by (bit_vector)
        requires
            i < 8,
    ;
    assert(i + 1 < 8 ==> (x >> (8 * i)) >> 8 == x >> (8 * (i + 1))) by (bit_vector)
        requires
            i < 8,
    ;
    assert(i + 1 == 8 ==> (x >> (8 * i)) >> 8 == 0) by (bit_vector)
        requires
            i < 8,
    ;
}

/// FNV-1a hash of the 64 bytes made of the little-endian bytes of `bytes`
/// followed by zero bytes.
pub fn fnv_hash(bytes: u64) -> (r: u64)
    ensures
        r == spec_fnv_hash(bytes),
{
    let ghost orig = bytes;
    let mut bytes = bytes;
    let mut hash = FNV_INITIAL_STATE;
    let mut i: u32 = 0;
    assert(padded_bytes(orig).skip(0) =~= padded_bytes(orig));
    assert(bytes == bytes >> (8 * 0u64)) by (bit_vector);
    while i < u64::BITS
        invariant
            i <= 64,
            fnv1a(hash, padded_bytes(orig).skip(i as int)) == spec_fnv_hash(orig),
            i < 8 ==> bytes == orig >> (8 * (i as u64)),
            i >= 8 ==> bytes == 0,
        decreases 64 - i,
    {
        let ghost s = padded_bytes(orig).skip(i as int);
        proof {
            if i < 8 {
                lemma_shift_step(orig, i as u64);
                assert((8 * i) as u64 == 8 * (i as u64));
            }
            assert(s.drop_first() =~= padded_bytes(orig).skip(i + 1));
            assert(s[0] == padded_byte(orig, i as int));
            assert((bytes & 0xff) == (s[0] as u64)) by {
                if i >= 8 {
                    assert(bytes & 0xff == 0) by (bit_vector)
                        requires
                            bytes == 0,
                    ;
                }
            }
        }
        hash ^= bytes & 0xFF;
        hash = hash.wrapping_mul(FNV_PRIME);
        proof {
            if i >= 8 {
                assert(bytes >> 8 == 0) by (bit_vector)
                    requires
                        bytes == 0,
                ;
            }
        }
        bytes >>= 8;
        i += 1;
    }
    assert(padded_bytes(orig).skip(64) =~= Seq::<u8>::empty());
    hash
}

/// Spreads an index over `0..len` by hashing it.
pub open spec fn spec_unbiased_index(idx: usize, len: usize) -> usize
    recommends
        len > 0,
{
    (spec_fnv_hash(idx as u64) as usize) % len
}

/// Spreads key indices over `0..len` through hashing.
pub fn unbiased_index(idx: usize, len: usize) -> (r: usize)
    requires
        len > 0,
    ensures
        r == spec_unbiased_index(idx, len),
        r < len,
{
    (fnv_hash(idx as u64) as usize) % len
}

} // verus!
