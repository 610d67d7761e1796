//! Checksums for keys of a hash map: the Adler-32 rolling checksum and a
//! shift-xor hash code, each computed byte by byte.
use vstd::prelude::*;

verus! {

/// A value of the location cache that the hash map carried.
#[allow(dead_code)]
#[derive(Clone, Debug, PartialEq)]
pub struct LocationInformation {
    name: String,
    opened: String,
    address: String,
    security_group_name: String,
}

/// The Adler-32 modulus.
pub const MOD_ADLER: u32 = 65521;

/// The two Adler-32 sums after the given bytes: the rolling byte sum and
/// the rolling sum of sums, both reduced by the modulus.
pub open spec fn adler_pair(bytes: Seq<u8>) -> (int, int)
    decreases bytes.len(),
{
    if bytes.len() == 0 {
        (1int, 0int)
    } else {
        let p = adler_pair(bytes.drop_last());
        let a = (p.0 + bytes.last()) % (MOD_ADLER as int);
        (a, (p.1 + a) % (MOD_ADLER as int))
    }
}

/// The Adler-32 checksum: the sum of sums in the high half, the byte sum
/// in the low half.
pub open spec fn adler32_of(bytes: Seq<u8>) -> int {
    adler_pair(bytes).1 * 0x10000 + adler_pair(bytes).0
}

/// The Adler-32 checksum of `bytes`.
pub fn adler32(bytes: &[u8]) -> (r: u32)
    ensures
        r == adler32_of(bytes@),
{
    let mut a = 1_u32;
    let mut b = 0_u32;

    let n = bytes.len();
    let mut i: usize = 0;
    while i < n
        invariant
            n == bytes@.len(),
            i <= n,
            a < MOD_ADLER,
            b < MOD_ADLER,
            (a as int, b as int) == adler_pair(bytes@.take(i as int)),
        decreases n - i,
    {
        let byte = bytes[i];
        a = (a + byte as u32) % MOD_ADLER;
        b = (b + a) % MOD_ADLER;
        proof {
            assert(bytes@.take(i + 1).drop_last() =~= bytes@.take(i as int));
            assert(bytes@.take(i + 1).last() == bytes@[i as int]);
        }
        i = i + 1;
    }
    proof {
        assert(bytes@.take(n as int) =~= bytes@);
        assert((b << 16) | a == b * 0x10000 + a) by (bit_vector)
            requires
                a < 65521u32 && b < 65521u32,
        ;
    }
    (b << 16) | a
}

/// The hash code after the first `n` bytes: xor the byte in, then shift
/// left by the byte's position modulo four.
pub open spec fn hash_upto(bytes: Seq<u8>, n: int) -> u32
    decreases n,
{
    if n <= 0 {
        0u32
    } else {
        (hash_upto(bytes, n - 1) ^ (bytes[n - 1] as u32)) << ((n - 1) % 4) as u32
    }
}

/// The shift-xor hash code of all of `bytes`.
pub open spec fn hashcode_of(bytes: Seq<u8>) -> u32 {
    hash_upto(bytes, bytes.len() as int)
}

/// The shift-xor hash code of `bytes`.
pub fn hashcode(bytes: &[u8]) -> (r: u32)
    ensures
        r == hashcode_of(bytes@),
{
    let mut a = 0_u32;
    let n = bytes.len();
    let mut i: usize = 0;
    while i < n
        invariant
            n == bytes@.len(),
            i <= n,
            a == hash_upto(bytes@, i as int),
        decreases n - i,
    {
        let b = bytes[i];
        a = a ^ (b as u32);
        a = a << ((i % 4) as u32);
        i = i + 1;
    }
    a
}

} // verus!
