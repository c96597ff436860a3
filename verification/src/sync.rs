//! Costas-pattern correlation scoring and candidate search over the
//! waterfall.
use crate::constants::FT8_COSTAS_PATTERN;
use crate::waterfall::Candidate;
use crate::waterfall::Waterfall;
use vstd::prelude::*;

verus! {

/// Signed division truncating toward zero, as machine division does.
pub open spec fn div_trunc(a: int, b: int) -> int {
    if a < 0 {
        -((-a) / b)
    } else {
        a / b
    }
}

/// The magnitude cell read for Costas symbol `k` of block `m`, at tone
/// offset `d` from the expected tone.
pub open spec fn costas_cell(w: &Waterfall, c: Candidate, m: int, k: int, d: int) -> int {
    let ba = c.time_offset + 36 * m + k;
    let p8 = ba * w.block_stride + w.sub_index_of(c);
    w.mag@[p8 + FT8_COSTAS_PATTERN[k] + d] as int
}

/// Contrast contribution of Costas symbol `k` of block `m`: the expected
/// tone's magnitude against its neighbours in frequency and time, where
/// those neighbours exist; zero outside the filled blocks.
pub open spec fn contrib_sum(w: &Waterfall, c: Candidate, m: int, k: int) -> int {
    let ba = c.time_offset + 36 * m + k;
    let sm = FT8_COSTAS_PATTERN[k];
    if 0 <= ba < w.num_blocks {
        (if sm > 0 {
            costas_cell(w, c, m, k, 0) - costas_cell(w, c, m, k, -1)
        } else {
            0
        }) + (if sm < 7 {
            costas_cell(w, c, m, k, 0) - costas_cell(w, c, m, k, 1)
        } else {
            0
        }) + (if k > 0 && ba > 0 {
            costas_cell(w, c, m, k, 0) - costas_cell(w, c, m, k, -(w.block_stride as int))
        } else {
            0
        }) + (if k < 6 && ba + 1 < w.num_blocks {
            costas_cell(w, c, m, k, 0) - costas_cell(w, c, m, k, w.block_stride as int)
        } else {
            0
        })
    } else {
        0
    }
}

/// Number of contrast terms contributed by Costas symbol `k` of block `m`.
pub open spec fn contrib_cnt(w: &Waterfall, c: Candidate, m: int, k: int) -> int {
    let ba = c.time_offset + 36 * m + k;
    let sm = FT8_COSTAS_PATTERN[k];
    if 0 <= ba < w.num_blocks {
        (if sm > 0 {
            1int
        } else {
            0int
        }) + (if sm < 7 {
            1int
        } else {
            0int
        }) + (if k > 0 && ba > 0 {
            1int
        } else {
            0int
        }) + (if k < 6 && ba + 1 < w.num_blocks {
            1int
        } else {
            0int
        })
    } else {
        0
    }
}

/// Sum of the contrast contributions of the first `i` Costas symbols, in
/// block-major order over the three sync blocks.
pub open spec fn acc_sum(w: &Waterfall, c: Candidate, i: int) -> int
    decreases i,
{
    if i <= 0 {
        0
    } else {
        acc_sum(w, c, i - 1) + contrib_sum(w, c, (i - 1) / 7, (i - 1) % 7)
    }
}

/// Number of contrast terms among the first `i` Costas symbols.
pub open spec fn acc_cnt(w: &Waterfall, c: Candidate, i: int) -> int
    decreases i,
{
    if i <= 0 {
        0
    } else {
        acc_cnt(w, c, i - 1) + contrib_cnt(w, c, (i - 1) / 7, (i - 1) % 7)
    }
}

/// The sync score of a candidate: the mean contrast between the Costas
/// tones expected at its position and their neighbours.
pub open spec fn sync_score_spec(w: &Waterfall, c: Candidate) -> int {
    let s = acc_sum(w, c, 21);
    let n = acc_cnt(w, c, 21);
    if n > 0 {
        div_trunc(s, n)
    } else {
        s
    }
}

impl Waterfall {
    /// Score a candidate position by the contrast between the Costas tones
    /// it predicts and their neighbours in time and frequency.
    #[verifier::rlimit(100)]
    pub fn ft8_sync_score(&self, candidate: &Candidate) -> (score: i32)
        requires
            self.inv(),
            self.valid_candidate(*candidate),
        ensures
            score == sync_score_spec(self, *candidate),
    {
        let mut score: i32 = 0;
        let mut num_average: i32 = 0;
        let idx = self.get_index(candidate);

        for m in 0..3usize
            invariant
                self.inv(),
                self.valid_candidate(*candidate),
                idx == self.index_of(*candidate),
                score == acc_sum(self, *candidate, 7 * m),
                num_average == acc_cnt(self, *candidate, 7 * m),
                num_average >= 0,
                num_average <= 28 * m,
                -255 * num_average <= score,
                score <= 255 * num_average,
        {
            for k in 0..7usize
                invariant
                    self.inv(),
                    self.valid_candidate(*candidate),
                    idx == self.index_of(*candidate),
                    m < 3,
                    score == acc_sum(self, *candidate, 7 * m + k),
                    num_average == acc_cnt(self, *candidate, 7 * m + k),
                    num_average >= 0,
                    num_average <= 28 * m + 4 * k,
                    -255 * num_average <= score,
                    score <= 255 * num_average,
            {
                proof {
                    self.lemma_index_split(*candidate);
                    assert((7 * (m as int) + k) / 7 == m && (7 * (m as int) + k) % 7 == k)
                        by (nonlinear_arith)
                        requires
                            0 <= k < 7 && 0 <= m,
                    ;
                }
                let block = 36 * m + k;
                let block_abs_i = candidate.time_offset + block as i32;
                if block_abs_i >= 0 && (block_abs_i as usize) < self.num_blocks {
                    let block_abs = block_abs_i as usize;
                    proof {
                        let ba = block_abs as int;
                        let ss = self.block_stride as int;
                        let nb = self.num_blocks as int;
                        assert(0 <= ba * ss && (ba + 1) * ss <= nb * ss && (ba - 1) * ss >= 0
                            - ss) by (nonlinear_arith)
                            requires
                                0 <= ba < nb && ss >= 0,
                        ;
                        assert(nb * ss <= self.max_blocks * ss) by (nonlinear_arith)
                            requires
                                nb <= self.max_blocks && ss >= 0,
                        ;
                        assert(self.sub_index_of(*candidate) + 8 <= ss) by (nonlinear_arith)
                            requires
                                self.sub_index_of(*candidate) == ((candidate.time_sub
                                    * self.freq_osr + candidate.freq_sub) * self.num_bins
                                    + candidate.freq_offset) && candidate.time_sub
                                    < self.time_osr && candidate.freq_sub < self.freq_osr
                                    && candidate.freq_offset + 8 <= self.num_bins && ss
                                    == self.time_osr * self.freq_osr * self.num_bins
                                    && self.freq_osr >= 1 && self.num_bins >= 8
                                    && self.time_osr >= 1,
                        ;
                    }
                    let sub = idx - candidate.time_offset * (self.block_stride as i32);
                    proof {
                        let ba = block_abs as int;
                        let ss = self.block_stride as int;
                        assert(sub == self.sub_index_of(*candidate));
                        assert(ba * ss <= (ba + 1) * ss) by (nonlinear_arith)
                            requires
                                ss >= 0 && 0 <= ba,
                        ;
                    }
                    let p8 = block_abs * self.block_stride + (sub as usize);
                    proof {
                        let ba = block_abs as int;
                        let ss = self.block_stride as int;
                        assert(p8 == ba * ss + self.sub_index_of(*candidate));
                        assert(p8 + 8 <= (ba + 1) * ss) by (nonlinear_arith)
                            requires
                                p8 == ba * ss + self.sub_index_of(*candidate)
                                    && self.sub_index_of(*candidate) + 8 <= ss,
                        ;
                        assert(p8 + 8 <= self.mag@.len());
                        let nb = self.num_blocks as int;
                        assert(ba >= 1 ==> ss <= ba * ss) by (nonlinear_arith)
                            requires
                                ss >= 0 && 0 <= ba,
                        ;
                        assert(ba + 2 <= nb ==> (ba + 2) * ss <= nb * ss) by (nonlinear_arith)
                            requires
                                ss >= 0,
                        ;
                        assert((ba + 1) * ss + ss == (ba + 2) * ss) by (nonlinear_arith);
                        assert(nb * ss <= self.max_blocks * ss) by (nonlinear_arith)
                            requires
                                nb <= self.max_blocks && ss >= 0,
                        ;
                    }
                    let sm = FT8_COSTAS_PATTERN[k];

                    if sm > 0 {
                        score += self.mag[p8 + sm] as i32 - self.mag[p8 + sm - 1] as i32;
                        num_average += 1;
                    }
                    if sm < 7 {
                        score += self.mag[p8 + sm] as i32 - self.mag[p8 + sm + 1] as i32;
                        num_average += 1;
                    }
                    if k > 0 && block_abs > 0 {
                        score += self.mag[p8 + sm] as i32 - self.mag[p8 + sm
                            - self.block_stride] as i32;
                        num_average += 1;
                    }
                    if k + 1 < 7 && block_abs + 1 < self.num_blocks {
                        score += self.mag[p8 + sm] as i32 - self.mag[p8 + sm
                            + self.block_stride] as i32;
                        num_average += 1;
                    }
                }
            }
        }

        if num_average > 0 {
            if score < 0 {
                score = -((-score) / num_average);
            } else {
                score = score / num_average;
            }
        }
        score
    }
}

/// The sync score of a position does not depend on the score field the
/// candidate happens to carry.
proof fn lemma_acc_score_irrelevant(w: &Waterfall, c1: Candidate, c2: Candidate, i: int)
    requires
        c1.time_offset == c2.time_offset,
        c1.freq_offset == c2.freq_offset,
        c1.time_sub == c2.time_sub,
        c1.freq_sub == c2.freq_sub,
    ensures
        acc_sum(w, c1, i) == acc_sum(w, c2, i),
        acc_cnt(w, c1, i) == acc_cnt(w, c2, i),
    decreases i,
{
    if i > 0 {
        lemma_acc_score_irrelevant(w, c1, c2, i - 1);
        assert(contrib_sum(w, c1, (i - 1) / 7, (i - 1) % 7) == contrib_sum(
            w,
            c2,
            (i - 1) / 7,
            (i - 1) % 7,
        ));
        assert(contrib_cnt(w, c1, (i - 1) / 7, (i - 1) % 7) == contrib_cnt(
            w,
            c2,
            (i - 1) / 7,
            (i - 1) % 7,
        ));
    }
}

/// Scores are nonincreasing along the list.
pub open spec fn sorted_desc(s: Seq<Candidate>) -> bool {
    forall|i: int, j: int| 0 <= i < j < s.len() ==> #[trigger] s[i].score >= #[trigger] s[j].score
}

/// A candidate that the search over the given ranges keeps: coordinates
/// inside the scan rectangle, the score the waterfall assigns to its
/// position, and that score at or above the threshold.
pub open spec fn qualifies(
    w: &Waterfall,
    c: Candidate,
    freq_from: int,
    freq_to: int,
    min_score: int,
) -> bool {
    &&& c.time_sub < w.time_osr
    &&& c.freq_sub < w.freq_osr
    &&& -12 <= c.time_offset < 24
    &&& freq_from <= c.freq_offset < freq_to
    &&& c.score == sync_score_spec(w, c)
    &&& c.score >= min_score
}

/// Lexicographic order of scan positions: time subdivision, then frequency
/// subdivision, then time offset, then frequency offset.
pub open spec fn scanned_before(c: Candidate, ts: int, fs: int, t: int, f: int) -> bool {
    ||| c.time_sub < ts
    ||| (c.time_sub == ts && c.freq_sub < fs)
    ||| (c.time_sub == ts && c.freq_sub == fs && c.time_offset < t)
    ||| (c.time_sub == ts && c.freq_sub == fs && c.time_offset == t && c.freq_offset < f)
}

proof fn lemma_insert_contains(s: Seq<Candidate>, pos: int, v: Candidate)
    requires
        0 <= pos <= s.len(),
    ensures
        forall|x: Candidate| s.insert(pos, v).contains(x) <==> (s.contains(x) || x == v),
{
    s.insert_ensures(pos, v);
    let t = s.insert(pos, v);
    assert forall|x: Candidate| t.contains(x) implies (s.contains(x) || x == v) by {
        let i = choose|i: int| 0 <= i < t.len() && t[i] == x;
        if i < pos {
            assert(s[i] == x);
        } else if i > pos {
            assert(s[i - 1] == x);
        }
    }
    assert forall|x: Candidate| s.contains(x) || x == v implies t.contains(x) by {
        if x == v {
            assert(t[pos] == x);
        } else {
            let i = choose|i: int| 0 <= i < s.len() && s[i] == x;
            if i < pos {
                assert(t[i] == x);
            } else {
                assert(t[i + 1] == x);
            }
        }
    }
}

impl Waterfall {
    /// Insert a candidate at its place in a score-sorted list, keeping the
    /// list sorted in descending score order.
    fn insert_sorted(candidates: &mut Vec<Candidate>, c: Candidate)
        requires
            sorted_desc(old(candidates)@),
        ensures
            sorted_desc(final(candidates)@),
            final(candidates)@.len() == old(candidates)@.len() + 1,
            forall|x: Candidate| final(candidates)@.contains(x) <==> (old(
                candidates,
            )@.contains(x) || x == c),
    {
        let n = candidates.len();
        let mut pos: usize = 0;
        while pos < n && candidates[pos].score >= c.score
            invariant
                n == candidates@.len(),
                0 <= pos <= n,
                forall|j: int| 0 <= j < pos ==> candidates@[j].score >= c.score,
            decreases n - pos,
        {
            pos += 1;
        }
        proof {
            lemma_insert_contains(candidates@, pos as int, c);
            candidates@.insert_ensures(pos as int, c);
        }
        candidates.insert(pos, c);
        proof {
            let v = candidates@;
            assert forall|i: int, j: int| 0 <= i < j < v.len() implies #[trigger] v[i].score
                >= #[trigger] v[j].score by {
                if i == pos && j > pos {
                    assert(v[j] == old(candidates)@[j - 1]);
                    if pos < old(candidates)@.len() {
                        assert(old(candidates)@[pos as int].score < c.score);
                    }
                } else if j == pos && i < pos {
                    assert(v[i] == old(candidates)@[i]);
                }
            }
        }
    }

    /// Scan the rectangle of time and frequency offsets over the given
    /// frequency bins, score every position, and return how many
    /// candidates reached the threshold. The list then holds exactly the
    /// qualifying positions, sorted by descending score.
    pub fn ft8_find_sync(
        &self,
        freq_from: usize,
        freq_to: usize,
        min_score: i32,
        candidates: &mut Vec<Candidate>,
    ) -> (n: usize)
        requires
            self.inv(),
            self.max_blocks >= 24,
            freq_from <= freq_to,
            freq_to + 7 <= self.num_bins,
            old(candidates)@.len() == 0,
        ensures
            n == final(candidates)@.len(),
            sorted_desc(final(candidates)@),
            forall|x: Candidate| final(candidates)@.contains(x) <==> qualifies(
                self,
                x,
                freq_from as int,
                freq_to as int,
                min_score as int,
            ),
    {
        for time_sub in 0..self.time_osr
            invariant
                self.inv(),
                self.max_blocks >= 24,
                freq_from <= freq_to,
                freq_to + 7 <= self.num_bins,
                sorted_desc(candidates@),
                forall|x: Candidate| candidates@.contains(x) <==> (qualifies(
                    self,
                    x,
                    freq_from as int,
                    freq_to as int,
                    min_score as int,
                ) && scanned_before(x, time_sub as int, 0, -12, freq_from as int)),
        {
            for freq_sub in 0..self.freq_osr
                invariant
                    self.inv(),
                    self.max_blocks >= 24,
                    freq_from <= freq_to,
                    freq_to + 7 <= self.num_bins,
                    time_sub < self.time_osr,
                    sorted_desc(candidates@),
                    forall|x: Candidate| candidates@.contains(x) <==> (qualifies(
                        self,
                        x,
                        freq_from as int,
                        freq_to as int,
                        min_score as int,
                    ) && scanned_before(x, time_sub as int, freq_sub as int, -12,
                    freq_from as int)),
            {
                for toff in 0..36usize
                    invariant
                        self.inv(),
                        self.max_blocks >= 24,
                        freq_from <= freq_to,
                        freq_to + 7 <= self.num_bins,
                        time_sub < self.time_osr,
                        freq_sub < self.freq_osr,
                        sorted_desc(candidates@),
                        forall|x: Candidate| candidates@.contains(x) <==> (qualifies(
                            self,
                            x,
                            freq_from as int,
                            freq_to as int,
                            min_score as int,
                        ) && scanned_before(x, time_sub as int, freq_sub as int, toff - 12,
                        freq_from as int)),
                {
                    let time_offset: i32 = toff as i32 - 12;
                    for freq_offset in freq_from..freq_to
                        invariant
                            self.inv(),
                            self.max_blocks >= 24,
                            freq_from <= freq_to,
                            freq_to + 7 <= self.num_bins,
                            time_sub < self.time_osr,
                            freq_sub < self.freq_osr,
                            toff < 36,
                            time_offset == toff - 12,
                            sorted_desc(candidates@),
                            forall|x: Candidate| candidates@.contains(x) <==> (qualifies(
                                self,
                                x,
                                freq_from as int,
                                freq_to as int,
                                min_score as int,
                            ) && scanned_before(x, time_sub as int, freq_sub as int, toff - 12,
                            freq_offset as int)),
                    {
                        let mut c = Candidate {
                            score: 0,
                            time_offset,
                            freq_offset,
                            time_sub,
                            freq_sub,
                        };
                        let ghost c0 = c;
                        let score = self.ft8_sync_score(&c);
                        if score >= min_score {
                            c.score = score;
                            Self::insert_sorted(candidates, c);
                        }
                        proof {
                            let ff = freq_from as int;
                            let ft = freq_to as int;
                            let ms = min_score as int;
                            let ts = time_sub as int;
                            let fs = freq_sub as int;
                            let t = toff - 12;
                            let f = freq_offset as int;
                            assert forall|x: Candidate| qualifies(self, x, ff, ft, ms)
                                && scanned_before(x, ts, fs, t, f + 1) && !scanned_before(
                                x,
                                ts,
                                fs,
                                t,
                                f,
                            ) implies x == c && score >= ms by {
                                lemma_acc_score_irrelevant(self, x, c0, 21);
                            }
                            if score >= min_score {
                                lemma_acc_score_irrelevant(self, c, c0, 21);
                                assert(qualifies(self, c, ff, ft, ms));
                            }
                        }
                    }
                }
            }
        }
        candidates.len()
    }

    /// Split the searchable frequency bins into contiguous ranges, one per
    /// worker: range `i` runs from `i·limit/n` to `(i+1)·limit/n`, so the
    /// ranges are disjoint, consecutive, and together cover every bin.
    pub fn decode_frequencies(&self, num_threads: usize) -> (r: Vec<(usize, usize)>)
        requires
            self.inv(),
            1 <= num_threads <= 64,
        ensures
            r@.len() == num_threads,
            forall|i: int| 0 <= i < num_threads ==> #[trigger] r@[i] == (((i * (self.num_bins
                - 7)) / (num_threads as int)) as usize, (((i + 1) * (self.num_bins - 7)) / (
            num_threads as int)) as usize),
            r@[0].0 == 0,
            r@[num_threads - 1].1 == self.num_bins - 7,
    {
        let limit = self.num_bins - 7;
        let mut r: Vec<(usize, usize)> = Vec::new();
        for i in 0..num_threads
            invariant
                limit == self.num_bins - 7,
                limit <= 4096,
                1 <= num_threads <= 64,
                r@.len() == i,
                forall|j: int| 0 <= j < i ==> #[trigger] r@[j] == (((j * limit) / (num_threads
                    as int)) as usize, (((j + 1) * limit) / (num_threads as int)) as usize),
        {
            proof {
                assert((i + 1) * limit <= 64 * 4096) by (nonlinear_arith)
                    requires
                        i < 64 && limit <= 4096,
                ;
                assert(i * limit <= (i + 1) * limit) by (nonlinear_arith)
                    requires
                        i >= 0 && limit >= 0,
                ;
            }
            let lo = (i * limit) / num_threads;
            let hi = ((i + 1) * limit) / num_threads;
            r.push((lo, hi));
        }
        proof {
            let n = num_threads as int;
            let lm = limit as int;
            vstd::arithmetic::div_mod::lemma_div_multiples_vanish(lm, n);
            assert(r@[n - 1].1 == (n * lm) / n);
        }
        r
    }
}

} // verus!
