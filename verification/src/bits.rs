//! Bit-level access to MSB-first packed byte buffers, and conversion between
//! packed buffers and arrays of single-bit values.
use crate::constants::FTX_LDPC_K_BYTES;
use crate::constants::FTX_LDPC_N;
use crate::constants::FTX_LDPC_N_BYTES;
use vstd::arithmetic::div_mod::lemma_fundamental_div_mod;
use vstd::prelude::*;

verus! {

/// Bit `k` of a byte, counting the most significant bit as bit 0.
pub open spec fn byte_bit(b: u8, k: u8) -> u8 {
    (b >> ((7 - k) as u8)) & 1
}

/// Bit `i` of an MSB-first packed buffer.
pub open spec fn bit_of(s: Seq<u8>, i: int) -> u8 {
    byte_bit(s[i / 8], (i % 8) as u8)
}

/// Number of set bits in a byte, as a sum over the eight bit positions.
pub open spec fn count_ones_u8(x: u8) -> int {
    ((x >> 7) & 1) + ((x >> 6) & 1) + ((x >> 5) & 1) + ((x >> 4) & 1) + ((x >> 3) & 1) + ((x
        >> 2) & 1) + ((x >> 1) & 1) + (x & 1)
}

proof fn lemma_set_bit_byte(b: u8, k: u8, t: u8)
    by (bit_vector)
    requires
        k < 8,
        t < 8,
    ensures
        ((b | (0x80u8 >> t)) >> ((7 - k) as u8)) & 1 == if k == t {
            1u8
        } else {
            (b >> ((7 - k) as u8)) & 1
        },
{
}

pub proof fn lemma_same_byte_same_offset(i: int, j: int)
    requires
        0 <= i,
        0 <= j,
        i / 8 == j / 8,
        i % 8 == j % 8,
    ensures
        i == j,
{
    lemma_fundamental_div_mod(i, 8);
    lemma_fundamental_div_mod(j, 8);
}

/// Set bit `i` (MSB-first) of a packed buffer, leaving every other bit as it was.
pub fn set_bit_n(buf: &mut [u8; FTX_LDPC_N_BYTES], i: usize)
    requires
        i < 8 * FTX_LDPC_N_BYTES,
    ensures
        bit_of(final(buf)@, i as int) == 1,
        forall|j: int| 0 <= j < 8 * FTX_LDPC_N_BYTES && j != i ==> bit_of(final(buf)@, j)
            == bit_of(old(buf)@, j),
        forall|j: int|
            0 <= j < FTX_LDPC_N_BYTES && j != i / 8 ==> final(buf)@[j] == old(buf)@[j],
{
    let idx = i / 8;
    let off = (i % 8) as u8;
    buf[idx] = buf[idx] | (0x80u8 >> off);
    proof {
        lemma_set_bit_byte(old(buf)@[i as int / 8], (i % 8) as u8, (i % 8) as u8);
        assert forall|j: int| 0 <= j < 8 * FTX_LDPC_N_BYTES && j != i implies bit_of(
            buf@,
            j,
        ) == bit_of(old(buf)@, j) by {
            if j / 8 == i / 8 {
                if j % 8 == i % 8 {
                    lemma_same_byte_same_offset(i as int, j);
                }
                lemma_set_bit_byte(old(buf)@[j / 8], (j % 8) as u8, (i % 8) as u8);
            }
        }
    }
}

/// Read bit `i` (MSB-first) of a packed buffer.
pub fn get_bit_n(buf: &[u8; FTX_LDPC_N_BYTES], i: usize) -> (r: u8)
    requires
        i < 8 * FTX_LDPC_N_BYTES,
    ensures
        r == bit_of(buf@, i as int),
{
    (buf[i / 8] >> (7 - (i % 8) as u8) as u8) & 1
}

/// Pack the first `num_bits` entries of a bit array (any nonzero value counts
/// as a one) MSB-first into bytes; the tail of each touched byte is zero.
pub fn pack_bits(
    bit_array: &[u8; FTX_LDPC_N],
    num_bits: usize,
    packed: &mut [u8; FTX_LDPC_K_BYTES],
)
    requires
        num_bits <= 8 * FTX_LDPC_K_BYTES,
    ensures
        forall|i: int| 0 <= i < num_bits ==> bit_of(final(packed)@, i) == (if bit_array@[i]
            != 0 {
            1u8
        } else {
            0u8
        }),
        forall|i: int| num_bits <= i < 8 * ((num_bits + 7) / 8) ==> bit_of(final(packed)@, i)
            == 0,
        forall|j: int| (num_bits + 7) / 8 <= j < FTX_LDPC_K_BYTES ==> final(packed)@[j]
            == old(packed)@[j],
{
    let num_bytes = (num_bits + 7) / 8;
    for b in 0..num_bytes
        invariant
            num_bytes == (num_bits + 7) / 8,
            num_bytes <= FTX_LDPC_K_BYTES,
            forall|j: int| 0 <= j < b ==> packed@[j] == 0,
            forall|j: int| num_bytes <= j < FTX_LDPC_K_BYTES ==> packed@[j] == old(packed)@[j],
    {
        packed[b] = 0;
    }

    proof {
        assert forall|i: int| 0 <= i < 8 * num_bytes implies bit_of(packed@, i) == 0 by {
            let k = (i % 8) as u8;
            assert((0u8 >> ((7 - k) as u8)) & 1 == 0) by (bit_vector);
        }
    }

    let mut i: usize = 0;
    while i < num_bits
        invariant
            num_bits <= 8 * FTX_LDPC_K_BYTES,
            i <= num_bits,
            forall|j: int| 0 <= j < i ==> bit_of(packed@, j) == (if bit_array@[j] != 0 {
                1u8
            } else {
                0u8
            }),
            forall|j: int| i <= j < 8 * ((num_bits + 7) / 8) ==> bit_of(packed@, j) == 0,
            forall|j: int| (num_bits + 7) / 8 <= j < FTX_LDPC_K_BYTES ==> packed@[j]
                == old(packed)@[j],
        decreases num_bits - i,
    {
        if bit_array[i] != 0 {
            set_bit_k(packed, i);
        }
        i += 1;
    }
}

/// Set bit `i` (MSB-first) of a 12-byte buffer, leaving every other bit as it was.
pub fn set_bit_k(buf: &mut [u8; FTX_LDPC_K_BYTES], i: usize)
    requires
        i < 8 * FTX_LDPC_K_BYTES,
    ensures
        bit_of(final(buf)@, i as int) == 1,
        forall|j: int| 0 <= j < 8 * FTX_LDPC_K_BYTES && j != i ==> bit_of(final(buf)@, j)
            == bit_of(old(buf)@, j),
        forall|j: int|
            0 <= j < FTX_LDPC_K_BYTES && j != i / 8 ==> final(buf)@[j] == old(buf)@[j],
        final(buf)@[i as int / 8] == (old(buf)@[i as int / 8] | (0x80u8 >> ((i % 8) as u8))),
{
    let idx = i / 8;
    let off = (i % 8) as u8;
    buf[idx] = buf[idx] | (0x80u8 >> off);
    proof {
        lemma_set_bit_byte(old(buf)@[i as int / 8], (i % 8) as u8, (i % 8) as u8);
        assert forall|j: int| 0 <= j < 8 * FTX_LDPC_K_BYTES && j != i implies bit_of(
            buf@,
            j,
        ) == bit_of(old(buf)@, j) by {
            if j / 8 == i / 8 {
                if j % 8 == i % 8 {
                    lemma_same_byte_same_offset(i as int, j);
                }
                lemma_set_bit_byte(old(buf)@[j / 8], (j % 8) as u8, (i % 8) as u8);
            }
        }
    }
}

/// Spread the 174 codeword bits of a packed buffer into an array of 0/1 bytes.
pub fn unpack_bits(codeward: &[u8; FTX_LDPC_N_BYTES], codeword_bits: &mut [u8; FTX_LDPC_N])
    ensures
        forall|i: int| 0 <= i < FTX_LDPC_N ==> final(codeword_bits)@[i] == bit_of(
            codeward@,
            i,
        ),
{
    for i in 0..FTX_LDPC_N
        invariant
            forall|j: int| 0 <= j < i ==> codeword_bits@[j] == bit_of(codeward@, j),
    {
        codeword_bits[i] = get_bit_n(codeward, i);
    }
}

/// XOR facts the proofs lean on: zero is the identity and XOR of single
/// bits stays a single bit.
pub proof fn lemma_xor_facts(a: u8, b: u8)
    by (bit_vector)
    ensures
        a ^ 0 == a,
        0u8 ^ a == a,
        a <= 1 && b <= 1 ==> (a ^ b) <= 1,
        (a ^ b) ^ a == b,
{
}

/// XOR of four single values regroups freely.
pub proof fn lemma_xor_regroup(a1: u8, a2: u8, b1: u8, b2: u8)
    by (bit_vector)
    ensures
        (a1 ^ a2) ^ (b1 ^ b2) == (a1 ^ b1) ^ (a2 ^ b2),
{
}

/// A bit of the zero byte is zero, and any extracted bit is at most one.
pub proof fn lemma_bit_facts(k: u8)
    by (bit_vector)
    ensures
        (0u8 >> ((7 - k) as u8)) & 1 == 0,
        forall|b: u8| ((#[trigger] (b >> ((7 - k) as u8))) & 1) <= 1,
{
}

} // verus!
