//! Soft-symbol extraction from the waterfall and the candidate decode
//! driver: likelihoods, hard-decision decoding, checksum verification, and
//! message deduplication.
use crate::bits::bit_of;
use crate::bits::byte_bit;
use crate::bits::pack_bits;
use crate::constants::FT8_GRAY_MAP;
use crate::constants::FTX_LDPC_K;
use crate::constants::FTX_LDPC_K_BYTES;
use crate::constants::FTX_LDPC_N;
use crate::crc::extracted_crc;
use crate::crc::ftx_compute_crc;
use crate::crc::ftx_extract_crc;
use crate::crc::lemma_crc_remainder_depends_on_prefix;
use crate::crc::payload_crc;
use crate::crc::zero_extended;
use crate::ldpc::hard_bits;
use crate::ldpc::ldpc_decode;
use crate::ldpc::syndrome_weight;
use crate::unpack::unpack77;
use crate::unpack::unpacked_message;
use crate::waterfall::Candidate;
use crate::waterfall::Waterfall;
use vstd::prelude::*;

verus! {

/// A decoded message: its text, the checksum that identifies it, and the
/// candidate positions at which it was received.
pub struct Message {
    /// The candidate positions at which the message was decoded.
    pub df: Vec<Candidate>,
    /// The decoded text.
    pub text: String,
    /// The message checksum, used as its identity for deduplication.
    pub hash: u16,
}

impl Message {
    /// An empty message with no detections.
    pub fn new() -> (m: Message)
        ensures
            m.df@.len() == 0,
            m.text@.len() == 0,
            m.hash == 0,
    {
        proof {
            reveal_strlit("");
        }
        Message { df: Vec::new(), text: String::from_str(""), hash: 0 }
    }
}

/// The larger of two values.
pub open spec fn max2(a: int, b: int) -> int {
    if a >= b {
        a
    } else {
        b
    }
}

/// The largest of four values.
pub open spec fn max4(a: int, b: int, c: int, d: int) -> int {
    max2(max2(a, b), max2(c, d))
}

/// Data symbol `k`'s position in the transmission, skipping the Costas
/// blocks.
pub open spec fn sym_of(k: int) -> int {
    k + if k < 29 {
        7int
    } else {
        14int
    }
}

/// Magnitude of tone `j` of data symbol `k` at a candidate's position.
pub open spec fn tone_mag(w: &Waterfall, c: Candidate, k: int, j: int) -> int {
    let p = (c.time_offset + sym_of(k)) * w.block_stride + w.sub_index_of(c);
    w.mag@[p + FT8_GRAY_MAP[j]] as int
}

/// Log-likelihood ratio of codeword bit `i` at a candidate's position: the
/// best magnitude among the tones whose Gray-coded bit is one against the
/// best among those where it is zero; zero outside the filled blocks.
pub open spec fn llr_spec(w: &Waterfall, c: Candidate, i: int) -> int {
    let k = i / 3;
    let r = i % 3;
    let block = c.time_offset + sym_of(k);
    if !(0 <= block < w.num_blocks) {
        0
    } else {
        let s0 = tone_mag(w, c, k, 0);
        let s1 = tone_mag(w, c, k, 1);
        let s2 = tone_mag(w, c, k, 2);
        let s3 = tone_mag(w, c, k, 3);
        let s4 = tone_mag(w, c, k, 4);
        let s5 = tone_mag(w, c, k, 5);
        let s6 = tone_mag(w, c, k, 6);
        let s7 = tone_mag(w, c, k, 7);
        if r == 0 {
            max4(s4, s5, s6, s7) - max4(s0, s1, s2, s3)
        } else if r == 1 {
            max4(s2, s3, s6, s7) - max4(s0, s1, s5, s4)
        } else {
            max4(s1, s3, s5, s7) - max4(s0, s2, s6, s4)
        }
    }
}

/// All 174 log-likelihood ratios at a candidate's position.
pub open spec fn llrs_of(w: &Waterfall, c: Candidate) -> Seq<i32> {
    Seq::new(174, |i: int| llr_spec(w, c, i) as i32)
}

/// The larger of two values.
pub fn max2i(a: i32, b: i32) -> (r: i32)
    ensures
        r == max2(a as int, b as int),
{
    if a >= b {
        a
    } else {
        b
    }
}

/// The largest of four values.
pub fn max4i(a: i32, b: i32, c: i32, d: i32) -> (r: i32)
    ensures
        r == max4(a as int, b as int, c as int, d as int),
{
    max2i(max2i(a, b), max2i(c, d))
}

impl Waterfall {
    /// Extract the 174 log-likelihood ratios for a candidate from the
    /// magnitudes at its position.
    #[verifier::rlimit(100)]
    pub fn ft8_extract_likelihood(&self, c: &Candidate, log174: &mut [i32; FTX_LDPC_N])
        requires
            self.inv(),
            self.valid_candidate(*c),
        ensures
            forall|i: int| 0 <= i < FTX_LDPC_N ==> final(log174)@[i] == llr_spec(self, *c, i),
    {
        let idx = self.get_index(c);
        for k in 0..58usize
            invariant
                self.inv(),
                self.valid_candidate(*c),
                idx == self.index_of(*c),
                forall|i: int| 0 <= i < 3 * k ==> log174@[i] == llr_spec(self, *c, i),
        {
            let sym_idx: usize = k + if k < 29 {
                7
            } else {
                14
            };
            let bit_idx = 3 * k;

            let block = c.time_offset + sym_idx as i32;
            proof {
                self.lemma_index_split(*c);
                assert((3 * (k as int)) / 3 == k && (3 * (k as int)) % 3 == 0 && (3 * (k as int)
                    + 1) / 3 == k && (3 * (k as int) + 1) % 3 == 1 && (3 * (k as int) + 2) / 3
                    == k && (3 * (k as int) + 2) % 3 == 2) by (nonlinear_arith)
                    requires
                        0 <= k,
                ;
            }
            if block < 0 || block >= self.num_blocks as i32 {
                log174[bit_idx] = 0;
                log174[bit_idx + 1] = 0;
                log174[bit_idx + 2] = 0;
            } else {
                let ba = block as usize;
                let sub = idx - c.time_offset * (self.block_stride as i32);
                proof {
                    let bai = ba as int;
                    let ss = self.block_stride as int;
                    let nb = self.num_blocks as int;
                    assert(sub == self.sub_index_of(*c));
                    assert(0 <= bai * ss && (bai + 1) * ss <= nb * ss) by (nonlinear_arith)
                        requires
                            0 <= bai < nb && ss >= 0,
                    ;
                    assert(nb * ss <= self.max_blocks * ss) by (nonlinear_arith)
                        requires
                            nb <= self.max_blocks && ss >= 0,
                    ;
                    assert(bai * ss <= (bai + 1) * ss) by (nonlinear_arith)
                        requires
                            ss >= 0 && 0 <= bai,
                    ;
                    assert(self.sub_index_of(*c) + 8 <= ss) by (nonlinear_arith)
                        requires
                            self.sub_index_of(*c) == ((c.time_sub * self.freq_osr + c.freq_sub)
                                * self.num_bins + c.freq_offset) && c.time_sub < self.time_osr
                                && c.freq_sub < self.freq_osr && c.freq_offset + 8
                                <= self.num_bins && ss == self.time_osr * self.freq_osr
                                * self.num_bins && self.freq_osr >= 1 && self.num_bins >= 8
                                && self.time_osr >= 1,
                    ;
                }
                let p = ba * self.block_stride + (sub as usize);
                proof {
                    assert(p + 8 <= (ba + 1) * self.block_stride) by (nonlinear_arith)
                        requires
                            p == ba * self.block_stride + self.sub_index_of(*c)
                                && self.sub_index_of(*c) + 8 <= self.block_stride,
                    ;
                    assert(p + 8 <= self.mag@.len());
                }

                let s0 = self.mag[p + FT8_GRAY_MAP[0]] as i32;
                let s1 = self.mag[p + FT8_GRAY_MAP[1]] as i32;
                let s2 = self.mag[p + FT8_GRAY_MAP[2]] as i32;
                let s3 = self.mag[p + FT8_GRAY_MAP[3]] as i32;
                let s4 = self.mag[p + FT8_GRAY_MAP[4]] as i32;
                let s5 = self.mag[p + FT8_GRAY_MAP[5]] as i32;
                let s6 = self.mag[p + FT8_GRAY_MAP[6]] as i32;
                let s7 = self.mag[p + FT8_GRAY_MAP[7]] as i32;

                log174[bit_idx] = max4i(s4, s5, s6, s7) - max4i(s0, s1, s2, s3);
                log174[bit_idx + 1] = max4i(s2, s3, s6, s7) - max4i(s0, s1, s5, s4);
                log174[bit_idx + 2] = max4i(s1, s3, s5, s7) - max4i(s0, s2, s6, s4);
            }
        }
    }
}

/// The 0/1 value of entry `i` of a bit array, for the first 91 entries.
pub open spec fn bitv91(bits: Seq<u8>, i: int) -> int {
    if 0 <= i < FTX_LDPC_K && bits[i] != 0 {
        1
    } else {
        0
    }
}

/// The packed payload with its 14 checksum bits cleared: the form in which
/// the text is unpacked and over which the checksum is recomputed.
pub open spec fn crc_masked(a: Seq<u8>) -> Seq<u8> {
    a.update(9, (a[9] & 0xf8) as u8).update(10, 0u8)
}

/// The 12-byte buffer that packs the first 91 entries of a bit array,
/// most significant bit first.
pub open spec fn packed_91(bits: Seq<u8>) -> Seq<u8> {
    Seq::new(
        12,
        |j: int|
            (bitv91(bits, 8 * j) * 128 + bitv91(bits, 8 * j + 1) * 64 + bitv91(bits, 8 * j + 2)
                * 32 + bitv91(bits, 8 * j + 3) * 16 + bitv91(bits, 8 * j + 4) * 8 + bitv91(
                bits,
                8 * j + 5,
            ) * 4 + bitv91(bits, 8 * j + 6) * 2 + bitv91(bits, 8 * j + 7)) as u8,
    )
}

/// A byte is the weighted sum of its bits.
proof fn lemma_byte_recompose(b: u8)
    by (bit_vector)
    ensures
        b == ((b >> 7u8) & 1) * 128 + ((b >> 6u8) & 1) * 64 + ((b >> 5u8) & 1) * 32 + ((b
            >> 4u8) & 1) * 16 + ((b >> 3u8) & 1) * 8 + ((b >> 2u8) & 1) * 4 + ((b >> 1u8) & 1)
            * 2 + ((b >> 0u8) & 1),
{
}

/// A buffer whose bits agree with the first 91 entries of a bit array, and
/// whose five trailing bits are zero, is exactly the packed form of the
/// array.
proof fn lemma_packed_bytes(bits: Seq<u8>, packed: Seq<u8>)
    requires
        packed.len() == 12,
        forall|i: int| 0 <= i < FTX_LDPC_K ==> bit_of(packed, i) == (if bits[i] != 0 {
            1u8
        } else {
            0u8
        }),
        forall|i: int| FTX_LDPC_K <= i < 96 ==> bit_of(packed, i) == 0,
    ensures
        packed =~= packed_91(bits),
{
    assert forall|j: int| 0 <= j < 12 implies packed[j] == packed_91(bits)[j] by {
        lemma_byte_recompose(packed[j]);
        assert forall|o: int| 0 <= o < 8 implies ((packed[j] >> ((7 - o) as u8)) & 1)
            == #[trigger] bitv91(bits, 8 * j + o) by {
            assert(bit_of(packed, 8 * j + o) == byte_bit(packed[(8 * j + o) / 8], ((8 * j + o)
                % 8) as u8));
            assert((8 * j + o) / 8 == j && (8 * j + o) % 8 == o) by (nonlinear_arith)
                requires
                    0 <= o < 8 && 0 <= j,
            ;
        }
    }
}

impl Waterfall {
    /// Decode one candidate: extract its likelihoods, run the
    /// hard-decision decoder, verify the checksum, and unpack the text.
    /// On success the text and the candidate are appended to the message
    /// and its hash is the verified checksum; on failure the message is
    /// untouched. When the hard decisions at the position already satisfy
    /// every parity check, the outcome is exactly the checksum and unpack
    /// verdict on those bits.
    pub fn ft8_decode(&self, c: &Candidate, max_iterations: i32, message: &mut Message) -> (r:
        bool)
        requires
            self.inv(),
            self.valid_candidate(*c),
        ensures
            !r ==> final(message).text@ == old(message).text@,
            !r ==> final(message).df@ == old(message).df@,
            !r ==> final(message).hash == old(message).hash,
            r ==> exists|bits: Seq<u8>|
                {
                    &&& syndrome_weight(bits) == 0
                    &&& #[trigger] payload_crc(packed_91(bits)) == extracted_crc(
                        packed_91(bits),
                    )
                    &&& unpacked_message(crc_masked(packed_91(bits))) is Some
                    &&& final(message).hash == payload_crc(packed_91(bits))
                    &&& final(message).text@ == old(message).text@ + unpacked_message(
                        crc_masked(packed_91(bits)),
                    ).unwrap()
                },
            r ==> final(message).df@ == old(message).df@.push(*c),
            syndrome_weight(hard_bits(llrs_of(self, *c))) == 0 ==> {
                let hb = hard_bits(llrs_of(self, *c));
                &&& (r <==> (payload_crc(packed_91(hb)) == extracted_crc(packed_91(hb))
                    && unpacked_message(crc_masked(packed_91(hb))) is Some))
                &&& (r ==> final(message).hash == payload_crc(packed_91(hb)))
                &&& (r ==> final(message).text@ == old(message).text@ + unpacked_message(
                    crc_masked(packed_91(hb)),
                ).unwrap())
            },
    {
        let mut log174: [i32; FTX_LDPC_N] = [0i32; FTX_LDPC_N];
        self.ft8_extract_likelihood(c, &mut log174);
        proof {
            assert(log174@ =~= llrs_of(self, *c));
        }

        let mut plain174: [u8; FTX_LDPC_N] = [0u8; FTX_LDPC_N];
        let ldpc_errors = ldpc_decode(&log174, max_iterations, &mut plain174);

        if ldpc_errors > 0 {
            return false;
        }

        let mut a91 = [0u8; FTX_LDPC_K_BYTES];
        pack_bits(&plain174, FTX_LDPC_K, &mut a91);
        proof {
            lemma_packed_bytes(plain174@, a91@);
        }

        let crc_extracted = ftx_extract_crc(&a91);

        let ghost before_mask = a91@;
        a91[9] = a91[9] & 0xf8;
        a91[10] = 0;
        proof {
            assert(a91@ =~= crc_masked(before_mask));
            lemma_crc_remainder_depends_on_prefix(a91@, zero_extended(before_mask), 82);
        }
        let crc_calculated = ftx_compute_crc(&a91, 96 - 14);
        proof {
            assert(crc_calculated == payload_crc(before_mask));
        }

        if crc_extracted != crc_calculated {
            return false;
        }

        if unpack77(&a91, &mut message.text) < 0 {
            return false;
        }

        message.hash = crc_calculated;
        message.df.push(*c);
        true
    }
}

/// Merge a decoded message into the accumulated list, keyed by checksum:
/// a message whose hash is already present only adds its detections to the
/// first entry that carries that hash; a new hash appends a new entry.
pub fn merge_message(messages: &mut Vec<Message>, message: Message)
    ensures
        (forall|j: int|
            0 <= j < old(messages)@.len() ==> old(messages)@[j].hash != message.hash)
            ==> final(messages)@ == old(messages)@.push(message),
        (exists|j: int| 0 <= j < old(messages)@.len() && old(messages)@[j].hash == message.hash)
            ==> exists|j: int|
            {
                &&& 0 <= j < old(messages)@.len()
                &&& #[trigger] old(messages)@[j].hash == message.hash
                &&& forall|j2: int| 0 <= j2 < j ==> old(messages)@[j2].hash != message.hash
                &&& final(messages)@.len() == old(messages)@.len()
                &&& forall|i: int|
                    0 <= i < old(messages)@.len() && i != j ==> final(messages)@[i]
                        == old(messages)@[i]
                &&& final(messages)@[j].hash == old(messages)@[j].hash
                &&& final(messages)@[j].text@ == old(messages)@[j].text@
                &&& final(messages)@[j].df@ == old(messages)@[j].df@ + message.df@
            },
{
    let h = message.hash;
    let n = messages.len();
    let mut i: usize = 0;
    while i < n
        invariant
            n == messages@.len(),
            messages@ == old(messages)@,
            0 <= i <= n,
            forall|j: int| 0 <= j < i ==> old(messages)@[j].hash != h,
            h == message.hash,
        decreases n - i,
    {
        if messages[i].hash == h {
            let mut existing = messages.remove(i);
            let mut k: usize = 0;
            let m = message.df.len();
            while k < m
                invariant
                    m == message.df@.len(),
                    0 <= k <= m,
                    existing.df@ == old(messages)@[i as int].df@ + message.df@.take(k as int),
                    existing.hash == old(messages)@[i as int].hash,
                    existing.text@ == old(messages)@[i as int].text@,
                decreases m - k,
            {
                proof {
                    assert((old(messages)@[i as int].df@ + message.df@.take(k as int)).push(
                        message.df@[k as int],
                    ) =~= old(messages)@[i as int].df@ + message.df@.take(k + 1));
                }
                existing.df.push(message.df[k]);
                k += 1;
            }
            proof {
                assert(message.df@.take(m as int) =~= message.df@);
            }
            messages.insert(i, existing);
            proof {
                assert forall|i2: int|
                    0 <= i2 < old(messages)@.len() && i2 != i implies messages@[i2] == old(
                    messages,
                )@[i2] by {
                    assert(messages@[i2] == old(messages)@.remove(i as int).insert(
                        i as int,
                        existing,
                    )[i2]);
                }
            }
            return ;
        }
        i += 1;
    }
    messages.push(message);
}

} // verus!
