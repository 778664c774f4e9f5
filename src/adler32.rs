//! Adler-32 checksum whose two accumulators start from a caller-supplied
//! eight-byte initializer.
use vstd::prelude::*;

use vstd::arithmetic::div_mod::{
    lemma_add_mod_noop_right, lemma_mod_add_multiples_vanish, lemma_small_mod, lemma_sub_mod_noop,
};

use crate::license_error::LicenseError;
use crate::license_serializer::byte_sum;

verus! {

/// The Adler-32 modulus, the largest prime below 2^16.
pub const ADLER32_MOD: u64 = 0xFFF1;

/// The big-endian unsigned integer held by four bytes.
pub open spec fn be_u32(b: Seq<u8>) -> int {
    b[0] * 0x1000000 + b[1] * 0x10000 + b[2] * 0x100 + b[3]
}

/// The four big-endian bytes of a 32-bit word.
pub open spec fn be_bytes(w: u32) -> Seq<u8> {
    seq![(w >> 24u32) as u8, (w >> 16u32) as u8, (w >> 8u32) as u8, w as u8]
}

/// The accumulators `(a, b)` after running over `data`, starting from `(a0, b0)`:
/// for each byte `x`, `a = (a + x) mod M` and then `b = (b + a) mod M`.
pub open spec fn adler32_state(data: Seq<u8>, a0: int, b0: int) -> (int, int)
    decreases data.len(),
{
    if data.len() == 0 {
        (a0, b0)
    } else {
        let prev = adler32_state(data.drop_last(), a0, b0);
        let a = (prev.0 + data.last()) % (ADLER32_MOD as int);
        (a, (prev.1 + a) % (ADLER32_MOD as int))
    }
}

/// The checksum word `(b << 16) | a` over `data`, with the accumulators
/// initialized from the two big-endian halves of an eight-byte `init`.
pub open spec fn adler32_word(data: Seq<u8>, init: Seq<u8>) -> u32 {
    let s = adler32_state(data, be_u32(init.subrange(0, 4)), be_u32(init.subrange(4, 8)));
    ((s.1 as u32) << 16u32) | (s.0 as u32)
}

/// The four checksum bytes over `data` under the initializer `init`.
pub open spec fn adler32_spec(data: Seq<u8>, init: Seq<u8>) -> Seq<u8> {
    be_bytes(adler32_word(data, init))
}

/// Reads a big-endian `u32` from four bytes of `b` starting at `at`.
fn read_be_u32(b: &[u8], at: usize) -> (r: u32)
    requires
        at + 4 <= b@.len(),
    ensures
        r as int == be_u32(b@.subrange(at as int, at + 4)),
{
    let r: u64 = (b[at] as u64) * 0x1000000 + (b[at + 1] as u64) * 0x10000 + (b[at + 2] as u64)
        * 0x100 + (b[at + 3] as u64);
    r as u32
}

/// Once data has been consumed, `a` is the initial value plus the sum of the
/// bytes, modulo M.
proof fn lemma_state_a(data: Seq<u8>, a0: int, b0: int)
    requires
        data.len() > 0,
        a0 >= 0,
    ensures
        adler32_state(data, a0, b0).0 == (a0 + byte_sum(data)) % (ADLER32_MOD as int),
    decreases data.len(),
{
    let m = ADLER32_MOD as int;
    let x = data.last() as int;
    let prev = adler32_state(data.drop_last(), a0, b0);
    let rest = byte_sum(data.drop_last());
    assert(byte_sum(data) == rest + x);
    assert(adler32_state(data, a0, b0).0 == (prev.0 + x) % m);
    if data.len() == 1 {
        assert(data.drop_last() =~= Seq::<u8>::empty());
        assert(rest == 0);
        assert(prev.0 == a0);
    } else {
        lemma_state_a(data.drop_last(), a0, b0);
        lemma_add_mod_noop_right(x, a0 + rest, m);
        assert((x + (a0 + rest) % m) % m == (x + (a0 + rest)) % m);
        assert(prev.0 + x == x + (a0 + rest) % m);
        assert(x + (a0 + rest) == a0 + (rest + x));
    }
}

/// Replacing one byte shifts the byte sum by the difference.
proof fn lemma_byte_sum_update(s: Seq<u8>, i: int, v: u8)
    requires
        0 <= i < s.len(),
    ensures
        byte_sum(s.update(i, v)) == byte_sum(s) - s[i] + v,
    decreases s.len(),
{
    if i == s.len() - 1 {
        assert(s.update(i, v).drop_last() =~= s.drop_last());
    } else {
        assert(s.update(i, v).drop_last() =~= s.drop_last().update(i, v));
        lemma_byte_sum_update(s.drop_last(), i, v);
    }
}

/// Adding a nonzero amount smaller than the modulus changes the residue.
proof fn lemma_mod_shift(x: int, d: int, m: int)
    requires
        0 < m,
        d != 0,
        -m < d < m,
    ensures
        (x + d) % m != x % m,
{
    if (x + d) % m == x % m {
        lemma_sub_mod_noop(x + d, x, m);
        assert((x + d) - x == d);
        assert(((x + d) % m - x % m) == 0);
        lemma_small_mod(0, m as nat);
        assert(d % m == 0);
        if d > 0 {
            lemma_small_mod(d as nat, m as nat);
        } else {
            lemma_mod_add_multiples_vanish(d, m);
            lemma_small_mod((m + d) as nat, m as nat);
        }
    }
}

/// The two low bytes of `(b << 16) | a` determine `a` when `a` fits in 16 bits.
proof fn lemma_low_bytes(a1: u32, b1: u32, a2: u32, b2: u32)
    requires
        a1 < 0x10000,
        a2 < 0x10000,
        (((b1 << 16u32) | a1) >> 8u32) as u8 == (((b2 << 16u32) | a2) >> 8u32) as u8,
        ((b1 << 16u32) | a1) as u8 == ((b2 << 16u32) | a2) as u8,
    ensures
        a1 == a2,
{
    assert(a1 == a2) by (bit_vector)
        requires
            a1 < 0x10000,
            a2 < 0x10000,
            (((b1 << 16u32) | a1) >> 8u32) as u8 == (((b2 << 16u32) | a2) >> 8u32) as u8,
            ((b1 << 16u32) | a1) as u8 == ((b2 << 16u32) | a2) as u8,
    ;
}

/// Changing any single byte of the data changes the checksum: the `a`
/// accumulator moves by the byte's difference, which is smaller than the
/// modulus.
pub proof fn lemma_single_byte_change_detected(data: Seq<u8>, init: Seq<u8>, i: int, v: u8)
    requires
        init.len() == 8,
        0 <= i < data.len(),
        v != data[i],
    ensures
        adler32_spec(data.update(i, v), init) != adler32_spec(data, init),
{
    let a0 = be_u32(init.subrange(0, 4));
    let b0 = be_u32(init.subrange(4, 8));
    let changed = data.update(i, v);
    let m = ADLER32_MOD as int;
    lemma_state_a(data, a0, b0);
    lemma_state_a(changed, a0, b0);
    lemma_byte_sum_update(data, i, v);
    lemma_mod_shift(a0 + byte_sum(data), v - data[i], m);
    let s1 = adler32_state(data, a0, b0);
    let s2 = adler32_state(changed, a0, b0);
    lemma_state_bounds(data, a0, b0);
    lemma_state_bounds(changed, a0, b0);
    if adler32_spec(changed, init) == adler32_spec(data, init) {
        let w1 = adler32_word(data, init);
        let w2 = adler32_word(changed, init);
        assert(be_bytes(w1)[2] == be_bytes(w2)[2]);
        assert(be_bytes(w1)[3] == be_bytes(w2)[3]);
        lemma_low_bytes(s1.0 as u32, s1.1 as u32, s2.0 as u32, s2.1 as u32);
    }
}

/// Once data has been consumed, both accumulators lie below the modulus.
proof fn lemma_state_bounds(data: Seq<u8>, a0: int, b0: int)
    requires
        data.len() > 0,
    ensures
        0 <= adler32_state(data, a0, b0).0 < ADLER32_MOD,
        0 <= adler32_state(data, a0, b0).1 < ADLER32_MOD,
{
}

/// Adler-32 over `hash`, with the left and right accumulators initialized from
/// the two big-endian halves of the eight-byte `init`; the result is the
/// big-endian word `(b << 16) | a`.
pub fn adler32_checksum(hash: &[u8], init: &[u8]) -> (r: Result<Vec<u8>, LicenseError>)
    ensures
        init@.len() == 8 ==> (r matches Ok(v) && v@ == adler32_spec(hash@, init@)),
        init@.len() != 8 ==> r == Err::<Vec<u8>, LicenseError>(
            LicenseError::InvalidChecksumInit { count: init@.len() as usize },
        ),
{
    if init.len() != 8 {
        return Err(LicenseError::InvalidChecksumInit { count: init.len() });
    }
    let left = read_be_u32(init, 0);
    let right = read_be_u32(init, 4);
    let ghost a0 = left as int;
    let ghost b0 = right as int;
    let mut a: u64 = left as u64;
    let mut b: u64 = right as u64;
    let mut i: usize = 0;
    while i < hash.len()
        invariant
            i <= hash@.len(),
            (a as int, b as int) == adler32_state(hash@.subrange(0, i as int), a0, b0),
            a <= u32::MAX,
            b <= u32::MAX,
        decreases hash@.len() - i,
    {
        proof {
            assert(hash@.subrange(0, i + 1).drop_last() =~= hash@.subrange(0, i as int));
        }
        a = (a + hash[i] as u64) % ADLER32_MOD;
        b = (b + a) % ADLER32_MOD;
        i = i + 1;
    }
    proof {
        assert(hash@.subrange(0, i as int) =~= hash@);
    }
    let word: u32 = ((b as u32) << 16u32) | (a as u32);
    let mut out: Vec<u8> = Vec::new();
    out.push((word >> 24u32) as u8);
    out.push((word >> 16u32) as u8);
    out.push((word >> 8u32) as u8);
    out.push(word as u8);
    proof {
        assert(out@ =~= be_bytes(word));
    }
    Ok(out)
}

} // verus!
