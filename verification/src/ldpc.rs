//! Parity-check evaluation and hard-decision decoding of (174, 91) codewords
//! from integer log-likelihood ratios.
use crate::constants::FTX_LDPC_M;
use crate::constants::FTX_LDPC_N;
use crate::constants::FTX_LDPC_NM;
use vstd::prelude::*;

verus! {

/// XOR of the codeword bits covered by the first `k` entries of parity check
/// `m`; zero entries pad short rows and entries out of range contribute nothing.
pub open spec fn check_xor(bits: Seq<u8>, m: int, k: int) -> u8
    decreases k,
{
    if k <= 0 {
        0u8
    } else {
        let e = FTX_LDPC_NM[m][k - 1];
        check_xor(bits, m, k - 1) ^ (if 1 <= e <= FTX_LDPC_N {
            bits[e - 1]
        } else {
            0u8
        })
    }
}

/// Number of unsatisfied parity checks among the first `m`.
pub open spec fn check_errors(bits: Seq<u8>, m: int) -> int
    decreases m,
{
    if m <= 0 {
        0
    } else {
        check_errors(bits, m - 1) + (if check_xor(bits, m - 1, 7) != 0 {
            1int
        } else {
            0int
        })
    }
}

/// Number of unsatisfied parity checks of a 174-bit codeword; zero means the
/// codeword satisfies the parity-check matrix.
pub open spec fn syndrome_weight(bits: Seq<u8>) -> int {
    check_errors(bits, FTX_LDPC_M as int)
}

/// Count the parity checks that the given bit values leave unsatisfied.
pub fn ldpc_check(codeword: &[u8; FTX_LDPC_N]) -> (errors: usize)
    ensures
        errors == syndrome_weight(codeword@),
        errors <= FTX_LDPC_M,
{
    let mut errors: usize = 0;

    for m in 0..FTX_LDPC_M
        invariant
            errors == check_errors(codeword@, m as int),
            errors <= m,
    {
        let mut x: u8 = 0;
        for k in 0..7
            invariant
                m < FTX_LDPC_M,
                x == check_xor(codeword@, m as int, k as int),
        {
            let i = FTX_LDPC_NM[m][k];
            if i >= 1 && i <= FTX_LDPC_N {
                x ^= codeword[i - 1];
            } else {
                proof {
                    crate::bits::lemma_xor_facts(x, 0u8);
                }
            }
        }
        if x != 0 {
            errors += 1;
        }
    }
    errors
}

/// The hard decision for one log-likelihood ratio: one when the ratio favors
/// a one bit, zero otherwise.
pub open spec fn hard_bit(l: i32) -> u8 {
    if l > 0 {
        1u8
    } else {
        0u8
    }
}

/// The hard decisions for a whole codeword of log-likelihood ratios.
pub open spec fn hard_bits(llrs: Seq<i32>) -> Seq<u8> {
    Seq::new(llrs.len(), |i: int| hard_bit(llrs[i]))
}

/// Every entry is zero or one.
pub open spec fn all_binary(bits: Seq<u8>) -> bool {
    forall|i: int| 0 <= i < bits.len() ==> bits[i] <= 1
}

/// Hard-decision bit-flip decoding: start from the signs of the
/// log-likelihood ratios and repeatedly flip each bit that a majority of its
/// parity checks votes against, up to `max_iters` rounds. Returns the
/// smallest number of unsatisfied checks seen, which is zero exactly when the
/// returned bits satisfy every check; the hard decisions of a clean codeword
/// are returned unchanged with no iteration at all.
pub fn ldpc_decode(
    codeword: &[i32; FTX_LDPC_N],
    max_iters: i32,
    plain: &mut [u8; FTX_LDPC_N],
) -> (errors: usize)
    ensures
        (errors == 0) <==> syndrome_weight(final(plain)@) == 0,
        errors <= syndrome_weight(hard_bits(codeword@)),
        syndrome_weight(hard_bits(codeword@)) == 0 ==> final(plain)@ == hard_bits(codeword@),
        all_binary(final(plain)@),
{
    for n in 0..FTX_LDPC_N
        invariant
            forall|j: int| 0 <= j < n ==> plain@[j] == hard_bit(codeword@[j]),
    {
        plain[n] = if codeword[n] > 0 {
            1
        } else {
            0
        };
    }
    proof {
        assert(plain@ =~= hard_bits(codeword@));
    }

    let mut min_errors = ldpc_check(plain);
    if min_errors == 0 {
        return 0;
    }

    let mut it: i32 = 0;
    while it < max_iters
        invariant
            all_binary(plain@),
            0 < min_errors <= syndrome_weight(hard_bits(codeword@)),
            syndrome_weight(plain@) != 0,
        decreases max_iters - it,
    {
        let mut votes0 = [0u32; FTX_LDPC_N];
        let mut votes1 = [0u32; FTX_LDPC_N];

        for m in 0..FTX_LDPC_M
            invariant
                all_binary(plain@),
                forall|j: int| 0 <= j < FTX_LDPC_N ==> votes0@[j] <= 7 * m,
                forall|j: int| 0 <= j < FTX_LDPC_N ==> votes1@[j] <= 7 * m,
        {
            for ki in 0..7
                invariant
                    m < FTX_LDPC_M,
                    all_binary(plain@),
                    forall|j: int| 0 <= j < FTX_LDPC_N ==> votes0@[j] <= 7 * m + ki,
                    forall|j: int| 0 <= j < FTX_LDPC_N ==> votes1@[j] <= 7 * m + ki,
            {
                let bi = FTX_LDPC_NM[m][ki];
                if bi >= 1 && bi <= FTX_LDPC_N {
                    let mut x: u8 = 0;
                    for kj in 0..7
                        invariant
                            m < FTX_LDPC_M,
                            bi >= 1 && bi <= FTX_LDPC_N,
                            all_binary(plain@),
                            x <= 1,
                    {
                        let i = FTX_LDPC_NM[m][kj];
                        if i >= 1 && i <= FTX_LDPC_N && i != bi {
                            let b = plain[i - 1];
                            proof {
                                crate::bits::lemma_xor_facts(x, b);
                            }
                            x ^= b;
                        }
                    }
                    if x == 0 {
                        votes0[bi - 1] = votes0[bi - 1] + 1;
                    } else {
                        votes1[bi - 1] = votes1[bi - 1] + 1;
                    }
                }
            }
        }

        for i in 0..FTX_LDPC_N
            invariant
                all_binary(plain@),
        {
            if plain[i] == 0 && votes1[i] > votes0[i] {
                plain[i] = 1;
            } else if plain[i] == 1 && votes0[i] > votes1[i] {
                plain[i] = 0;
            }
        }

        let errors = ldpc_check(plain);
        if errors == 0 {
            return 0;
        }
        if errors < min_errors {
            min_errors = errors;
        }
        it += 1;
    }
    min_errors
}

} // verus!
