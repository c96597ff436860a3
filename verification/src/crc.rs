//! CRC-14 checksum over the zero-extended 77-bit payload: computation,
//! extraction from a packed 91-bit buffer, and attachment to a payload.
use crate::constants::FT8_CRC_POLYNOMIAL;
use crate::constants::FTX_LDPC_K_BYTES;
use vstd::prelude::*;

verus! {

/// Remainder of the bitwise CRC division after feeding the first `i` bits of
/// `message`: on each byte boundary the next byte enters the register shifted
/// to the top of the 14-bit width, then the register shifts left once per bit,
/// folding in the polynomial whenever the top bit was set.
pub open spec fn crc_remainder(message: Seq<u8>, i: nat) -> u16
    decreases i,
{
    if i == 0 {
        0u16
    } else {
        let prev = crc_remainder(message, (i - 1) as nat);
        let fed = if (i - 1) % 8 == 0 {
            prev ^ ((message[(i - 1) as int / 8] as u16) << 6)
        } else {
            prev
        };
        if fed & 0x2000 != 0 {
            (fed << 1) ^ FT8_CRC_POLYNOMIAL
        } else {
            fed << 1
        }
    }
}

/// The checksum over the first `num_bits` bits, masked to 14 bits.
pub open spec fn crc_value(message: Seq<u8>, num_bits: nat) -> u16 {
    crc_remainder(message, num_bits) & 0x3fff
}

/// The 14 CRC bits as stored at bit position 77 of a packed 91-bit buffer.
pub open spec fn extracted_crc(s: Seq<u8>) -> u16 {
    (((s[9] & 0x07) as u16) << 11) | ((s[10] as u16) << 3) | ((s[11] as u16) >> 5)
}

/// The payload with the five bits after the 77-bit message zeroed and the CRC
/// field cleared, as handed to the checksum computation.
pub open spec fn zero_extended(p: Seq<u8>) -> Seq<u8> {
    p.update(9, (p[9] & 0xf8) as u8).update(10, 0u8)
}

/// The checksum that belongs to a payload: CRC over its zero-extended 82 bits.
pub open spec fn payload_crc(p: Seq<u8>) -> u16 {
    crc_value(zero_extended(p), 82)
}

/// The 12-byte buffer that `ftx_add_crc` produces for a payload: the payload
/// with the checksum stored in the 14 bits that follow the 77-bit message.
pub open spec fn crc_extended(p: Seq<u8>) -> Seq<u8> {
    let cs = payload_crc(p);
    p.update(9, ((p[9] & 0xf8) | ((cs >> 11) as u8)) as u8).update(10, (cs >> 3) as u8).update(
        11,
        (cs << 5) as u8,
    )
}

/// The CRC remainder reads only the bytes that the first `i` bits occupy.
pub proof fn lemma_crc_remainder_depends_on_prefix(s1: Seq<u8>, s2: Seq<u8>, i: nat)
    requires
        s1.len() >= (i + 7) / 8,
        s2.len() >= (i + 7) / 8,
        forall|j: int| 0 <= j < (i + 7) / 8 ==> s1[j] == s2[j],
    ensures
        crc_remainder(s1, i) == crc_remainder(s2, i),
    decreases i,
{
    if i > 0 {
        lemma_crc_remainder_depends_on_prefix(s1, s2, (i - 1) as nat);
        if (i - 1) % 8 == 0 {
            assert((i - 1) / 8 < (i + 7) / 8);
        }
    }
}

/// Bitwise CRC with polynomial 0x2757, width 14, zero initial remainder,
/// no reflection and no final XOR, over the first `num_bits` bits.
pub fn ftx_compute_crc(message: &[u8; FTX_LDPC_K_BYTES], num_bits: usize) -> (r: u16)
    requires
        num_bits <= 96,
    ensures
        r == crc_value(message@, num_bits as nat),
        r < 0x4000,
{
    let mut remainder: u16 = 0;
    let mut idx_byte: usize = 0;

    for idx_bit in 0..num_bits
        invariant
            num_bits <= 96,
            remainder == crc_remainder(message@, idx_bit as nat),
            idx_byte == (idx_bit + 7) / 8,
    {
        if idx_bit % 8 == 0 {
            assert(idx_byte == idx_bit / 8);
            remainder ^= (message[idx_byte] as u16) << 6;
            idx_byte += 1;
        }

        if (remainder & 0x2000) != 0 {
            remainder = (remainder << 1) ^ FT8_CRC_POLYNOMIAL;
        } else {
            remainder = remainder << 1;
        }
    }
    proof {
        assert(remainder & 0x3fff < 0x4000) by (bit_vector);
    }
    remainder & 0x3fff
}

/// Read the 14 CRC bits that start at bit position 77.
pub fn ftx_extract_crc(a91: &[u8; FTX_LDPC_K_BYTES]) -> (r: u16)
    ensures
        r == extracted_crc(a91@),
{
    (((a91[9] & 0x07) as u16) << 11) | ((a91[10] as u16) << 3) | ((a91[11] as u16) >> 5)
}

/// Copy the 77 payload bits, zero-extend to 82 bits, and store the computed
/// checksum in the 14 bits that follow the payload. Reading the checksum back
/// with `ftx_extract_crc` returns exactly the computed value.
pub fn ftx_add_crc(payload: &[u8; FTX_LDPC_K_BYTES], a91: &mut [u8; FTX_LDPC_K_BYTES])
    ensures
        forall|i: int| 0 <= i < 9 ==> final(a91)@[i] == payload@[i],
        final(a91)@[9] == ((payload@[9] & 0xf8) | ((payload_crc(payload@) >> 11) as u8)),
        final(a91)@[10] == (payload_crc(payload@) >> 3) as u8,
        final(a91)@[11] == (payload_crc(payload@) << 5) as u8,
        extracted_crc(final(a91)@) == payload_crc(payload@),
        final(a91)@ == crc_extended(payload@),
{
    for i in 0..10
        invariant
            forall|j: int| 0 <= j < i ==> a91@[j] == payload@[j],
    {
        a91[i] = payload[i];
    }
    a91[9] = a91[9] & 0xf8;
    a91[10] = 0;

    proof {
        lemma_crc_remainder_depends_on_prefix(a91@, zero_extended(payload@), 82);
    }
    let checksum = ftx_compute_crc(a91, 96 - 14);

    a91[9] = a91[9] | (checksum >> 11) as u8;
    a91[10] = (checksum >> 3) as u8;
    a91[11] = (checksum << 5) as u8;

    proof {
        let cs = payload_crc(payload@);
        let q = payload@[9];
        assert(cs < 0x4000 ==> (((((q & 0xf8) | ((cs >> 11) as u8)) & 0x07) as u16) << 11) | ((((
        cs >> 3) as u8) as u16) << 3) | ((((cs << 5) as u8) as u16) >> 5) == cs)
            by (bit_vector);
        assert(a91@ =~= crc_extended(payload@));
    }
}

} // verus!
