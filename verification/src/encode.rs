//! Systematic (174, 91) LDPC encoding and tone-sequence generation.
use crate::bits::bit_of;
use crate::bits::count_ones_u8;
use crate::bits::get_bit_n;
use crate::bits::lemma_bit_facts;
use crate::bits::lemma_xor_facts;
use crate::bits::set_bit_n;
use crate::constants::FT8_COSTAS_PATTERN;
use crate::constants::FT8_GRAY_MAP;
use crate::constants::FT8_NN;
use crate::constants::FTX_LDPC_GENERATOR;
use crate::constants::FTX_LDPC_K_BYTES;
use crate::constants::FTX_LDPC_M;
use crate::constants::FTX_LDPC_N;
use crate::constants::FTX_LDPC_N_BYTES;
use crate::constants::FTX_LDPC_K;
use crate::crc::crc_extended;
use crate::crc::ftx_add_crc;
use vstd::prelude::*;

verus! {

/// Parity of a byte: one if an odd number of bits are set, zero otherwise.
pub open spec fn byte_parity(x: u8) -> u8 {
    (count_ones_u8(x) % 2) as u8
}

/// Returns 1 if an odd number of bits are set in `x`, zero otherwise.
pub fn parity8(x: u8) -> (r: u8)
    ensures
        r == byte_parity(x),
{
    let mut y: u8 = x;
    y ^= y >> 4;
    y ^= y >> 2;
    y ^= y >> 1;
    proof {
        assert(((x ^ (x >> 4)) ^ ((x ^ (x >> 4)) >> 2) ^ (((x ^ (x >> 4)) ^ ((x ^ (x >> 4))
            >> 2)) >> 1)) % 2 == count_ones_u8(x) % 2) by (bit_vector);
    }
    y % 2
}

/// Running XOR of byte parities of `msg & generator row i` over the first
/// `nb` bytes.
pub open spec fn gen_dot(msg: Seq<u8>, i: int, nb: int) -> u8
    decreases nb,
{
    if nb <= 0 {
        0u8
    } else {
        gen_dot(msg, i, nb - 1) ^ byte_parity(msg[nb - 1] & FTX_LDPC_GENERATOR[i][nb - 1])
    }
}

/// Parity bit `i` of the systematic encoding: the dot product (mod 2) of the
/// message with row `i` of the generator matrix.
pub open spec fn gen_parity(msg: Seq<u8>, i: int) -> u8 {
    gen_dot(msg, i, FTX_LDPC_K_BYTES as int)
}

/// Bit `i` of the codeword that encodes the 91-bit message `msg`: the message
/// bits themselves, followed by the 83 generator parity bits.
pub open spec fn codeword_bit(msg: Seq<u8>, i: int) -> u8 {
    if i < FTX_LDPC_K {
        bit_of(msg, i)
    } else {
        gen_parity(msg, i - FTX_LDPC_K)
    }
}

/// Tone `t` of the 79-symbol transmission for a 91-bit message: Costas sync
/// symbols at positions 0..7, 36..43 and 72..79, and elsewhere the Gray map
/// applied to consecutive 3-bit groups of the codeword.
pub open spec fn tone_of(msg: Seq<u8>, t: int) -> usize {
    if 0 <= t < 7 {
        FT8_COSTAS_PATTERN[t]
    } else if 36 <= t < 43 {
        FT8_COSTAS_PATTERN[t - 36]
    } else if 72 <= t < 79 {
        FT8_COSTAS_PATTERN[t - 72]
    } else {
        let d = if t < 36 {
            t - 7
        } else {
            t - 43 + 29
        };
        FT8_GRAY_MAP[4 * codeword_bit(msg, 3 * d) + 2 * codeword_bit(msg, 3 * d + 1)
            + codeword_bit(msg, 3 * d + 2)]
    }
}

/// Encode a 91-bit message into a 174-bit codeword: the message bits are
/// copied unchanged (the code is systematic) and 83 parity bits follow.
pub fn encode174(message: &[u8; FTX_LDPC_K_BYTES], codeword: &mut [u8; FTX_LDPC_N_BYTES])
    requires
        message@[11] & 0x1f == 0,
    ensures
        forall|i: int| 0 <= i < FTX_LDPC_N ==> bit_of(final(codeword)@, i) == codeword_bit(
            message@,
            i,
        ),
{
    for j in 0..FTX_LDPC_N_BYTES
        invariant
            forall|k: int| 0 <= k < j ==> codeword@[k] == (if k < FTX_LDPC_K_BYTES {
                message@[k]
            } else {
                0u8
            }),
    {
        codeword[j] = if j < FTX_LDPC_K_BYTES {
            message[j]
        } else {
            0
        };
    }

    proof {
        assert forall|b: int| 0 <= b < 96 implies bit_of(codeword@, b) == bit_of(
            message@,
            b,
        ) by {
            assert(0 <= b / 8 < 12);
        }
        assert forall|b: int| 96 <= b < 8 * FTX_LDPC_N_BYTES implies bit_of(codeword@, b)
            == 0 by {
            lemma_bit_facts((b % 8) as u8);
        }
        let m11 = message@[11];
        assert forall|b: int| 91 <= b < 96 implies bit_of(message@, b) == 0 by {
            let k = (b % 8) as u8;
            assert(m11 & 0x1f == 0 && 3 <= k < 8 ==> (m11 >> ((7 - k) as u8)) & 1 == 0)
                by (bit_vector);
            assert(b / 8 == 11 && 3 <= b % 8 < 8);
        }
        assert forall|b: int| 91 <= b < 8 * FTX_LDPC_N_BYTES implies bit_of(codeword@, b)
            == 0 by {
            if b < 96 {
                assert(bit_of(codeword@, b) == bit_of(message@, b));
                assert(bit_of(message@, b) == 0);
            }
        }
    }

    for i in 0..FTX_LDPC_M
        invariant
            message@[11] & 0x1f == 0,
            forall|b: int| 0 <= b < FTX_LDPC_K ==> bit_of(codeword@, b) == bit_of(message@, b),
            forall|k: int| 0 <= k < i ==> bit_of(codeword@, FTX_LDPC_K + k) == gen_parity(
                message@,
                k,
            ),
            forall|b: int|
                FTX_LDPC_K + i <= b < 8 * FTX_LDPC_N_BYTES ==> bit_of(codeword@, b) == 0,
    {
        let mut nsum: u8 = 0;
        for j in 0..FTX_LDPC_K_BYTES
            invariant
                i < FTX_LDPC_M,
                nsum == gen_dot(message@, i as int, j as int),
                nsum <= 1,
        {
            let p = parity8(message[j] & FTX_LDPC_GENERATOR[i][j]);
            proof {
                lemma_xor_facts(
                    nsum,
                    byte_parity(message@[j as int] & FTX_LDPC_GENERATOR[i as int][j as int]),
                );
            }
            nsum ^= p;
        }
        if nsum % 2 != 0 {
            set_bit_n(codeword, FTX_LDPC_K + i);
        }
    }
}

/// Attach the CRC to a 77-bit payload, encode the resulting 91 bits, and map
/// the codeword to the 79-tone sequence with Costas blocks spliced in.
pub fn ft8_encode(payload: &[u8; FTX_LDPC_K_BYTES], tones: &mut [usize; FT8_NN])
    ensures
        forall|t: int| 0 <= t < FT8_NN ==> final(tones)@[t] == tone_of(
            crc_extended(payload@),
            t,
        ),
{
    let mut a91 = [0u8; FTX_LDPC_K_BYTES];
    ftx_add_crc(payload, &mut a91);
    proof {
        assert(a91@ =~= crc_extended(payload@));
        let cs = crate::crc::payload_crc(payload@);
        assert(((cs << 5) as u8) & 0x1f == 0) by (bit_vector);
    }

    let mut codeword = [0u8; FTX_LDPC_N_BYTES];
    encode174(&a91, &mut codeword);

    for i_tone in 0..FT8_NN
        invariant
            forall|i: int| 0 <= i < FTX_LDPC_N ==> bit_of(codeword@, i) == codeword_bit(
                crc_extended(payload@),
                i,
            ),
            forall|t: int| 0 <= t < i_tone ==> tones@[t] == tone_of(crc_extended(payload@), t),
    {
        if i_tone < 7 {
            tones[i_tone] = FT8_COSTAS_PATTERN[i_tone];
        } else if i_tone >= 36 && i_tone < 43 {
            tones[i_tone] = FT8_COSTAS_PATTERN[i_tone - 36];
        } else if i_tone >= 72 {
            tones[i_tone] = FT8_COSTAS_PATTERN[i_tone - 72];
        } else {
            let d = if i_tone < 36 {
                i_tone - 7
            } else {
                i_tone - 43 + 29
            };
            let b0 = get_bit_n(&codeword, 3 * d);
            let b1 = get_bit_n(&codeword, 3 * d + 1);
            let b2 = get_bit_n(&codeword, 3 * d + 2);
            proof {
                let m = crc_extended(payload@);
                lemma_codeword_bit_le_one(m, 3 * (d as int));
                lemma_codeword_bit_le_one(m, 3 * (d as int) + 1);
                lemma_codeword_bit_le_one(m, 3 * (d as int) + 2);
            }
            let bits3 = 4 * b0 + 2 * b1 + b2;
            tones[i_tone] = FT8_GRAY_MAP[bits3 as usize];
        }
    }
}

/// A codeword bit is always zero or one.
proof fn lemma_codeword_bit_le_one(msg: Seq<u8>, i: int)
    ensures
        codeword_bit(msg, i) <= 1,
{
    if i < FTX_LDPC_K {
        lemma_bit_facts((i % 8) as u8);
    } else {
        lemma_gen_dot_le_one(msg, i - FTX_LDPC_K, FTX_LDPC_K_BYTES as int);
    }
}

/// A generator dot product is always zero or one.
proof fn lemma_gen_dot_le_one(msg: Seq<u8>, i: int, nb: int)
    ensures
        gen_dot(msg, i, nb) <= 1,
    decreases nb,
{
    if nb > 0 {
        lemma_gen_dot_le_one(msg, i, nb - 1);
        lemma_xor_facts(gen_dot(msg, i, nb - 1), byte_parity(msg[nb - 1] & FTX_LDPC_GENERATOR[
        i][nb - 1]));
    }
}

/// Positions 0, 1, 2 and 5 of the Gray map differ from their successors in
/// exactly one bit; at the remaining positions the map's consecutive
/// entries differ in more than one bit, so the adjacency property holds of
/// the tone order through the map's inverse instead.
pub proof fn lemma_gray_map_adjacency(i: int)
    requires
        0 <= i < 7,
        i != 3,
        i != 4,
        i != 6,
    ensures
        count_ones_u8((FT8_GRAY_MAP[i] ^ FT8_GRAY_MAP[i + 1]) as u8) == 1,
{
    assert(count_ones_u8(0u8 ^ 1u8) == 1 && count_ones_u8(1u8 ^ 3u8) == 1 && count_ones_u8(
        3u8 ^ 2u8,
    ) == 1 && count_ones_u8(6u8 ^ 4u8) == 1) by (bit_vector);
}

/// The 3-bit group that the Gray map sends to tone `t`.
pub open spec fn gray_inverse(t: int) -> u8 {
    if t == 0 {
        0u8
    } else if t == 1 {
        1u8
    } else if t == 2 {
        3u8
    } else if t == 3 {
        2u8
    } else if t == 4 {
        6u8
    } else if t == 5 {
        4u8
    } else if t == 6 {
        5u8
    } else {
        7u8
    }
}

/// The Gray map inverts `gray_inverse`, and tones adjacent in frequency
/// carry 3-bit groups that differ in exactly one bit.
pub proof fn lemma_gray_inverse_adjacency(t: int)
    requires
        0 <= t < 8,
    ensures
        FT8_GRAY_MAP[gray_inverse(t) as int] == t,
        t < 7 ==> count_ones_u8(gray_inverse(t) ^ gray_inverse(t + 1)) == 1,
{
    assert(count_ones_u8(0u8 ^ 1u8) == 1 && count_ones_u8(1u8 ^ 3u8) == 1 && count_ones_u8(
        3u8 ^ 2u8,
    ) == 1 && count_ones_u8(2u8 ^ 6u8) == 1 && count_ones_u8(6u8 ^ 4u8) == 1 && count_ones_u8(
        4u8 ^ 5u8,
    ) == 1 && count_ones_u8(5u8 ^ 7u8) == 1) by (bit_vector);
}

} // verus!
