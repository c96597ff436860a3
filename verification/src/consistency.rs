//! Parity-check consistency: every encoded codeword satisfies every parity
//! check, proved from the checks holding on the ninety-one single-bit
//! messages, which a verified runtime check establishes for the tables.
use crate::bits::bit_of;
use crate::bits::byte_bit;
use crate::bits::count_ones_u8;
use crate::bits::lemma_bit_facts;
use crate::bits::lemma_xor_facts;
use crate::bits::lemma_xor_regroup;
use crate::bits::set_bit_k;
use crate::bits::unpack_bits;
use crate::constants::FTX_LDPC_GENERATOR;
use crate::constants::FTX_LDPC_K;
use crate::constants::FTX_LDPC_K_BYTES;
use crate::constants::FTX_LDPC_M;
use crate::constants::FTX_LDPC_N;
use crate::constants::FTX_LDPC_N_BYTES;
use crate::encode::byte_parity;
use crate::encode::codeword_bit;
use crate::encode::encode174;
use crate::encode::gen_dot;
use crate::ldpc::check_errors;
use crate::ldpc::check_xor;
use crate::ldpc::ldpc_check;
use crate::ldpc::syndrome_weight;
use vstd::prelude::*;

verus! {

/// The codeword bits of a message, as a bit array.
pub open spec fn codeword_bits(m: Seq<u8>) -> Seq<u8> {
    Seq::new(FTX_LDPC_N as nat, |i: int| codeword_bit(m, i))
}

/// Every parity check accepts the codeword of `m`.
pub open spec fn all_checks_pass(m: Seq<u8>) -> bool {
    forall|c: int| 0 <= c < FTX_LDPC_M ==> check_xor(codeword_bits(m), c, 7) == 0
}

/// The message whose only set bit is bit `j`.
pub open spec fn basis_msg(j: int) -> Seq<u8> {
    Seq::new(
        FTX_LDPC_K_BYTES as nat,
        |b: int|
            if b == j / 8 {
                0x80u8 >> ((j % 8) as u8)
            } else {
                0u8
            },
    )
}

/// The tables are consistent on the basis: every single-bit message encodes
/// to a codeword that passes every parity check.
pub open spec fn tables_consistent() -> bool {
    forall|j: int| 0 <= j < FTX_LDPC_K ==> all_checks_pass(#[trigger] basis_msg(j))
}

/// The bytewise XOR of two 12-byte messages.
pub open spec fn xor12(a: Seq<u8>, b: Seq<u8>) -> Seq<u8> {
    Seq::new(FTX_LDPC_K_BYTES as nat, |i: int| a[i] ^ b[i])
}

proof fn lemma_byte_parity_linear(x: u8, y: u8, g: u8)
    by (bit_vector)
    ensures
        ((count_ones_u8((x ^ y) & g) % 2) as u8) == (((count_ones_u8(x & g) % 2) as u8) ^ ((
        count_ones_u8(y & g) % 2) as u8)),
        ((count_ones_u8(x & g) % 2) as u8) <= 1,
{
}

proof fn lemma_gen_dot_linear(m1: Seq<u8>, m2: Seq<u8>, i: int, nb: int)
    requires
        m1.len() == 12,
        m2.len() == 12,
        nb <= 12,
    ensures
        gen_dot(xor12(m1, m2), i, nb) == gen_dot(m1, i, nb) ^ gen_dot(m2, i, nb),
    decreases nb,
{
    if nb <= 0 {
        lemma_xor_facts(0u8, 0u8);
    } else {
        lemma_gen_dot_linear(m1, m2, i, nb - 1);
        let g = FTX_LDPC_GENERATOR[i][nb - 1];
        lemma_byte_parity_linear(m1[nb - 1], m2[nb - 1], g);
        let a1 = gen_dot(m1, i, nb - 1);
        let a2 = gen_dot(m2, i, nb - 1);
        let b1 = byte_parity(m1[nb - 1] & g);
        let b2 = byte_parity(m2[nb - 1] & g);
        lemma_xor_regroup(a1, a2, b1, b2);
    }
}

proof fn lemma_bit_of_linear(m1: Seq<u8>, m2: Seq<u8>, i: int)
    requires
        m1.len() == 12,
        m2.len() == 12,
        0 <= i < 96,
    ensures
        bit_of(xor12(m1, m2), i) == bit_of(m1, i) ^ bit_of(m2, i),
{
    let x = m1[i / 8];
    let y = m2[i / 8];
    let k = (i % 8) as u8;
    assert(byte_bit(x ^ y, k) == byte_bit(x, k) ^ byte_bit(y, k)) by (bit_vector);
}

proof fn lemma_codeword_bit_linear(m1: Seq<u8>, m2: Seq<u8>, i: int)
    requires
        m1.len() == 12,
        m2.len() == 12,
        0 <= i < FTX_LDPC_N,
    ensures
        codeword_bit(xor12(m1, m2), i) == codeword_bit(m1, i) ^ codeword_bit(m2, i),
{
    if i < FTX_LDPC_K {
        lemma_bit_of_linear(m1, m2, i);
    } else {
        lemma_gen_dot_linear(m1, m2, i - FTX_LDPC_K, FTX_LDPC_K_BYTES as int);
    }
}

proof fn lemma_check_xor_linear(m1: Seq<u8>, m2: Seq<u8>, c: int, k: int)
    requires
        m1.len() == 12,
        m2.len() == 12,
        0 <= c < FTX_LDPC_M,
        0 <= k <= 7,
    ensures
        check_xor(codeword_bits(xor12(m1, m2)), c, k) == check_xor(codeword_bits(m1), c, k)
            ^ check_xor(codeword_bits(m2), c, k),
    decreases k,
{
    if k <= 0 {
        lemma_xor_facts(0u8, 0u8);
    } else {
        lemma_check_xor_linear(m1, m2, c, k - 1);
        let e = crate::constants::FTX_LDPC_NM[c][k - 1];
        let a1 = check_xor(codeword_bits(m1), c, k - 1);
        let a2 = check_xor(codeword_bits(m2), c, k - 1);
        if 1 <= e <= FTX_LDPC_N {
            lemma_codeword_bit_linear(m1, m2, e - 1);
            let b1 = codeword_bits(m1)[e - 1];
            let b2 = codeword_bits(m2)[e - 1];
            lemma_xor_regroup(a1, a2, b1, b2);
        } else {
            lemma_xor_facts(a1 ^ a2, 0u8);
            lemma_xor_facts(a1, 0u8);
            lemma_xor_facts(a2, 0u8);
        }
    }
}

/// Checks passing is closed under message XOR.
proof fn lemma_checks_pass_xor(m1: Seq<u8>, m2: Seq<u8>)
    requires
        m1.len() == 12,
        m2.len() == 12,
        all_checks_pass(m1),
        all_checks_pass(m2),
    ensures
        all_checks_pass(xor12(m1, m2)),
{
    assert forall|c: int| 0 <= c < FTX_LDPC_M implies check_xor(
        codeword_bits(xor12(m1, m2)),
        c,
        7,
    ) == 0 by {
        lemma_check_xor_linear(m1, m2, c, 7);
        lemma_xor_facts(0u8, 0u8);
    }
}

/// The all-zero message encodes to the all-zero codeword, which every check
/// accepts.
proof fn lemma_zero_checks_pass()
    ensures
        all_checks_pass(Seq::new(FTX_LDPC_K_BYTES as nat, |i: int| 0u8)),
{
    let z = Seq::new(FTX_LDPC_K_BYTES as nat, |i: int| 0u8);
    assert forall|i: int| 0 <= i < FTX_LDPC_N implies codeword_bits(z)[i] == 0u8 by {
        if i < FTX_LDPC_K {
            lemma_bit_facts((i % 8) as u8);
        } else {
            lemma_gen_dot_zero(z, i - FTX_LDPC_K, FTX_LDPC_K_BYTES as int);
        }
    }
    assert forall|c: int| 0 <= c < FTX_LDPC_M implies check_xor(codeword_bits(z), c, 7)
        == 0 by {
        lemma_check_xor_zero(codeword_bits(z), c, 7);
    }
}

/// A byte whose eight bits are all clear is zero.
proof fn lemma_zero_byte(m: Seq<u8>, b: int)
    requires
        0 <= b < m.len(),
        forall|k: int| 8 * b <= k < 8 * b + 8 ==> bit_of(m, k) == 0,
    ensures
        m[b] == 0u8,
{
    let x = m[b];
    assert forall|o: int| 0 <= o < 8 implies #[trigger] ((8 * b + o) / 8) == b && (8 * b + o)
        % 8 == o by {
        assert((8 * b + o) / 8 == b && (8 * b + o) % 8 == o) by (nonlinear_arith)
            requires
                0 <= o < 8 && 0 <= b,
        ;
    }
    assert(bit_of(m, 8 * b + 0) == 0 && bit_of(m, 8 * b + 1) == 0 && bit_of(m, 8 * b + 2) == 0
        && bit_of(m, 8 * b + 3) == 0 && bit_of(m, 8 * b + 4) == 0 && bit_of(m, 8 * b + 5) == 0
        && bit_of(m, 8 * b + 6) == 0 && bit_of(m, 8 * b + 7) == 0);
    assert(byte_bit(x, 0u8) == 0 && byte_bit(x, 1u8) == 0 && byte_bit(x, 2u8) == 0 && byte_bit(
        x,
        3u8,
    ) == 0 && byte_bit(x, 4u8) == 0 && byte_bit(x, 5u8) == 0 && byte_bit(x, 6u8) == 0
        && byte_bit(x, 7u8) == 0);
    assert(byte_bit(x, 0u8) == 0 && byte_bit(x, 1u8) == 0 && byte_bit(x, 2u8) == 0 && byte_bit(
        x,
        3u8,
    ) == 0 && byte_bit(x, 4u8) == 0 && byte_bit(x, 5u8) == 0 && byte_bit(x, 6u8) == 0
        && byte_bit(x, 7u8) == 0 ==> x == 0) by (bit_vector);
}

proof fn lemma_gen_dot_zero(z: Seq<u8>, i: int, nb: int)
    requires
        forall|j: int| 0 <= j < z.len() ==> z[j] == 0u8,
        nb <= z.len(),
    ensures
        gen_dot(z, i, nb) == 0,
    decreases nb,
{
    if nb > 0 {
        lemma_gen_dot_zero(z, i, nb - 1);
        let g = FTX_LDPC_GENERATOR[i][nb - 1];
        assert(((count_ones_u8(0u8 & g) % 2) as u8) == 0 && (0u8 ^ 0u8) == 0u8) by (bit_vector);
    }
}

proof fn lemma_check_xor_zero(bits: Seq<u8>, c: int, k: int)
    requires
        bits.len() == FTX_LDPC_N,
        forall|i: int| 0 <= i < bits.len() ==> bits[i] == 0u8,
        k <= 7,
    ensures
        check_xor(bits, c, k) == 0,
    decreases k,
{
    if k > 0 {
        lemma_check_xor_zero(bits, c, k - 1);
        lemma_xor_facts(0u8, 0u8);
    }
}

/// Any message whose bits at and above position `i` are clear passes every
/// check, given the basis does.
proof fn lemma_checks_pass_below(m: Seq<u8>, i: int)
    requires
        tables_consistent(),
        m.len() == 12,
        0 <= i <= FTX_LDPC_K,
        forall|k: int| i <= k < 96 ==> bit_of(m, k) == 0,
    ensures
        all_checks_pass(m),
    decreases i,
{
    if i == 0 {
        let z = Seq::new(FTX_LDPC_K_BYTES as nat, |b: int| 0u8);
        assert forall|b: int| 0 <= b < 12 implies m[b] == 0u8 by {
            lemma_zero_byte(m, b);
        }
        assert(m =~= z);
        lemma_zero_checks_pass();
    } else {
        let j = i - 1;
        if bit_of(m, j) == 0 {
            lemma_checks_pass_below(m, j);
        } else {
            let mask = 0x80u8 >> ((j % 8) as u8);
            let mp = m.update(j / 8, (m[j / 8] & !mask) as u8);
            let x = m[j / 8];
            let k = (j % 8) as u8;
            assert((x >> ((7 - k) as u8)) & 1 == 1) by (bit_vector)
                requires
                    (x >> ((7 - k) as u8)) & 1 != 0,
            ;
            assert forall|o: u8| o < 8 implies #[trigger] byte_bit(
                (x & !(0x80u8 >> k)) as u8,
                o,
            ) == (if o == k {
                0u8
            } else {
                byte_bit(x, o)
            }) by {
                assert(k < 8 && o < 8 ==> (((x & !(0x80u8 >> k)) as u8) >> ((7 - o) as u8)) & 1
                    == (if o == k {
                    0u8
                } else {
                    (x >> ((7 - o) as u8)) & 1
                })) by (bit_vector);
            }
            assert forall|k2: int| j <= k2 < 96 implies bit_of(mp, k2) == 0 by {
                if k2 / 8 == j / 8 {
                    assert(byte_bit(mp[k2 / 8], (k2 % 8) as u8) == (if ((k2 % 8) as u8) == k {
                        0u8
                    } else {
                        byte_bit(x, (k2 % 8) as u8)
                    }));
                    if k2 % 8 == j % 8 {
                        crate::bits::lemma_same_byte_same_offset(j, k2);
                    } else {
                        assert(k2 > j);
                        assert(bit_of(m, k2) == 0);
                    }
                } else {
                    assert(k2 > j);
                    assert(bit_of(m, k2) == 0);
                }
            }
            lemma_checks_pass_below(mp, j);
            assert(all_checks_pass(basis_msg(j)));
            lemma_checks_pass_xor(mp, basis_msg(j));
            assert forall|b: int| 0 <= b < 12 implies xor12(mp, basis_msg(j))[b] == m[b] by {
                if b == j / 8 {
                    assert(((x & !(0x80u8 >> k)) ^ (0x80u8 >> k)) == x) by (bit_vector)
                        requires
                            (x >> ((7 - k) as u8)) & 1 == 1 && k < 8,
                    ;
                } else {
                    lemma_xor_facts(mp[b], 0u8);
                }
            }
            assert(xor12(mp, basis_msg(j)) =~= m);
        }
    }
}

/// Parity-check consistency: when the tables agree on the basis, every
/// encoded codeword satisfies every parity check.
pub proof fn lemma_encoded_codeword_checks(m: Seq<u8>)
    requires
        tables_consistent(),
        m.len() == 12,
        forall|k: int| FTX_LDPC_K <= k < 96 ==> bit_of(m, k) == 0,
    ensures
        syndrome_weight(codeword_bits(m)) == 0,
{
    lemma_checks_pass_below(m, FTX_LDPC_K as int);
    lemma_no_errors(codeword_bits(m), FTX_LDPC_M as int);
}

proof fn lemma_no_errors(bits: Seq<u8>, c: int)
    requires
        forall|c2: int| 0 <= c2 < FTX_LDPC_M ==> check_xor(bits, c2, 7) == 0,
        c <= FTX_LDPC_M,
    ensures
        check_errors(bits, c) == 0,
    decreases c,
{
    if c > 0 {
        lemma_no_errors(bits, c - 1);
    }
}

proof fn lemma_some_error(bits: Seq<u8>, c: int, m: int)
    requires
        0 <= c < m,
        check_xor(bits, c, 7) != 0,
    ensures
        check_errors(bits, m) >= 1,
    decreases m,
{
    if c == m - 1 {
        lemma_errors_nonneg(bits, m - 1);
    } else {
        lemma_some_error(bits, c, m - 1);
    }
}

proof fn lemma_errors_nonneg(bits: Seq<u8>, m: int)
    ensures
        check_errors(bits, m) >= 0,
    decreases m,
{
    if m > 0 {
        lemma_errors_nonneg(bits, m - 1);
    }
}

/// Check at runtime that the tables are consistent on the basis: every
/// single-bit message encodes to a codeword that every parity check
/// accepts. The consistency law rests on this returning true, which a test
/// exercises.
pub fn ldpc_tables_consistent() -> (r: bool)
    ensures
        r == tables_consistent(),
{
    let mut j: usize = 0;
    while j < FTX_LDPC_K
        invariant
            j <= FTX_LDPC_K,
            forall|j2: int| 0 <= j2 < j ==> all_checks_pass(#[trigger] basis_msg(j2)),
        decreases FTX_LDPC_K - j,
    {
        let mut e = [0u8; FTX_LDPC_K_BYTES];
        set_bit_k(&mut e, j);
        proof {
            assert(0u8 | (0x80u8 >> ((j % 8) as u8)) == 0x80u8 >> ((j % 8) as u8))
                by (bit_vector);
            assert(e@ =~= basis_msg(j as int));
            let m11 = e@[11];
            if j / 8 == 11 {
                assert(j % 8 <= 2);
                assert(((0x80u8 >> ((j % 8) as u8)) & 0x1f) == 0 ==> m11 & 0x1f == 0);
                assert(j % 8 <= 2 ==> ((0x80u8 >> ((j % 8) as u8)) & 0x1f) == 0)
                    by (bit_vector);
            } else {
                assert(m11 == 0);
                assert(0u8 & 0x1f == 0) by (bit_vector);
            }
        }
        let mut cw = [0u8; FTX_LDPC_N_BYTES];
        encode174(&e, &mut cw);
        let mut bits = [0u8; FTX_LDPC_N];
        unpack_bits(&cw, &mut bits);
        proof {
            assert(bits@ =~= codeword_bits(e@));
        }
        let errors = ldpc_check(&bits);
        if errors != 0 {
            proof {
                lemma_syndrome_some_check(bits@);
            }
            return false;
        }
        proof {
            assert forall|c: int| 0 <= c < FTX_LDPC_M implies check_xor(
                codeword_bits(basis_msg(j as int)),
                c,
                7,
            ) == 0 by {
                if check_xor(bits@, c, 7) != 0 {
                    lemma_some_error(bits@, c, FTX_LDPC_M as int);
                }
            }
        }
        j += 1;
    }
    true
}

/// A nonzero syndrome names a failing check.
proof fn lemma_syndrome_some_check(bits: Seq<u8>)
    requires
        syndrome_weight(bits) != 0,
    ensures
        exists|c: int| 0 <= c < FTX_LDPC_M && check_xor(bits, c, 7) != 0,
    decreases FTX_LDPC_M as int,
{
    lemma_syndrome_some_check_rec(bits, FTX_LDPC_M as int);
}

proof fn lemma_syndrome_some_check_rec(bits: Seq<u8>, m: int)
    requires
        check_errors(bits, m) != 0,
        m <= FTX_LDPC_M,
    ensures
        exists|c: int| 0 <= c < m && check_xor(bits, c, 7) != 0,
    decreases m,
{
    if m > 0 {
        if check_xor(bits, m - 1, 7) != 0 {
        } else {
            lemma_syndrome_some_check_rec(bits, m - 1);
        }
    }
}

} // verus!
