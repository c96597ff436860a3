//! The spectrogram magnitude grid, decoder configuration, and signal
//! candidates located on the grid.
use vstd::prelude::*;

verus! {

/// Decoder configuration: sample rate, the two oversampling factors, the
/// candidate score threshold, the worker count, and the decoder iteration
/// bound.
pub struct Config {
    /// Input sample rate in hertz.
    pub sample_rate: u32,
    /// Number of time subdivisions per symbol.
    pub time_osr: usize,
    /// Number of frequency subdivisions per bin.
    pub freq_osr: usize,
    /// Smallest sync score kept by the candidate search.
    pub sync_min_score: i32,
    /// Number of parallel workers.
    pub num_threads: usize,
    /// Iteration bound for the belief decoder.
    pub ldpc_max_iteration: i32,
}

/// A hypothesized signal position on the waterfall.
#[derive(Clone, Copy, PartialEq, Eq, Structural, Debug)]
pub struct Candidate {
    /// Sync score of the position.
    pub score: i32,
    /// Signed symbol index of the first symbol.
    pub time_offset: i32,
    /// Frequency bin of the lowest tone.
    pub freq_offset: usize,
    /// Time subdivision index.
    pub time_sub: usize,
    /// Frequency subdivision index.
    pub freq_sub: usize,
}

/// Time-frequency magnitude grid: one byte per cell, indexed by block, time
/// subdivision, frequency subdivision, and bin.
pub struct Waterfall {
    /// Number of blocks the grid has room for.
    pub max_blocks: usize,
    /// Number of blocks filled so far.
    pub num_blocks: usize,
    /// Number of frequency bins.
    pub num_bins: usize,
    /// Number of time subdivisions per block.
    pub time_osr: usize,
    /// Number of frequency subdivisions per bin.
    pub freq_osr: usize,
    /// The magnitudes, one byte per cell.
    pub mag: Vec<u8>,
    /// Cells per block: time_osr · freq_osr · num_bins.
    pub block_stride: usize,
}

impl Waterfall {
    /// Shape invariant: the stride matches the dimensions, the buffer holds
    /// exactly the allocated blocks, the filled prefix fits, and the sizes
    /// stay small enough for index arithmetic.
    pub open spec fn inv(&self) -> bool {
        &&& self.block_stride == self.time_osr * self.freq_osr * self.num_bins
        &&& self.num_blocks <= self.max_blocks
        &&& self.mag@.len() == self.max_blocks * self.block_stride
        &&& 1 <= self.time_osr <= 64
        &&& 1 <= self.freq_osr <= 64
        &&& 8 <= self.num_bins <= 4096
        &&& 1 <= self.max_blocks <= 1024
        &&& self.max_blocks * self.block_stride <= 0x1000_0000
    }

    /// A candidate whose coordinates lie on this grid, with room for the
    /// eight tones above its frequency offset.
    pub open spec fn valid_candidate(&self, c: Candidate) -> bool {
        &&& c.time_sub < self.time_osr
        &&& c.freq_sub < self.freq_osr
        &&& c.freq_offset + 8 <= self.num_bins
        &&& -(self.max_blocks as int) <= c.time_offset <= self.max_blocks as int
    }

    /// Offset of a candidate's first cell relative to the start of the
    /// buffer, in cells; negative for a candidate that starts before the
    /// first block.
    pub open spec fn index_of(&self, c: Candidate) -> int {
        ((c.time_offset * self.time_osr + c.time_sub) * self.freq_osr + c.freq_sub)
            * self.num_bins + c.freq_offset
    }

    /// The candidate's offset within its own block: its index with the
    /// block part removed, always inside one stride.
    pub open spec fn sub_index_of(&self, c: Candidate) -> int {
        (c.time_sub * self.freq_osr + c.freq_sub) * self.num_bins + c.freq_offset
    }

    /// Allocate a zeroed grid with the given dimensions.
    pub fn new(max_blocks: usize, num_bins: usize, time_osr: usize, freq_osr: usize) -> (w:
        Waterfall)
        requires
            1 <= time_osr <= 64,
            1 <= freq_osr <= 64,
            8 <= num_bins <= 4096,
            1 <= max_blocks <= 1024,
            max_blocks * (time_osr * freq_osr * num_bins) <= 0x1000_0000,
        ensures
            w.inv(),
            w.max_blocks == max_blocks,
            w.num_blocks == 0,
            w.num_bins == num_bins,
            w.time_osr == time_osr,
            w.freq_osr == freq_osr,
            forall|i: int| 0 <= i < w.mag@.len() ==> w.mag@[i] == 0,
    {
        proof {
            assert(time_osr * freq_osr * num_bins <= 64 * 64 * 4096) by (nonlinear_arith)
                requires
                    1 <= time_osr <= 64 && 1 <= freq_osr <= 64 && 8 <= num_bins <= 4096,
            ;
            assert(max_blocks * (time_osr * freq_osr * num_bins) >= time_osr * freq_osr
                * num_bins) by (nonlinear_arith)
                requires
                    max_blocks >= 1 && time_osr * freq_osr * num_bins >= 0,
            ;
            assert(time_osr * freq_osr <= 4096) by (nonlinear_arith)
                requires
                    1 <= time_osr <= 64 && 1 <= freq_osr <= 64,
            ;
        }
        let block_stride = time_osr * freq_osr * num_bins;
        let mag_size = max_blocks * block_stride;
        let mut mag: Vec<u8> = Vec::new();
        let mut i: usize = 0;
        while i < mag_size
            invariant
                mag@.len() == i,
                i <= mag_size,
                forall|j: int| 0 <= j < i ==> mag@[j] == 0,
            decreases mag_size - i,
        {
            mag.push(0);
            i += 1;
        }
        Waterfall { max_blocks, num_blocks: 0, num_bins, time_osr, freq_osr, mag, block_stride }
    }

    /// The candidate's index splits into its block part and its in-block
    /// offset, and the in-block offset lies inside one stride.
    pub proof fn lemma_index_split(&self, c: Candidate)
        requires
            self.inv(),
            self.valid_candidate(c),
        ensures
            self.index_of(c) == c.time_offset * self.block_stride + self.sub_index_of(c),
            0 <= self.sub_index_of(c) < self.block_stride,
            -0x1000_0000 <= c.time_offset * self.block_stride <= 0x1000_0000,
            self.block_stride <= 0x1000_0000,
    {
        assert(self.block_stride <= self.max_blocks * self.block_stride) by (nonlinear_arith)
            requires
                self.max_blocks >= 1 && self.block_stride >= 0,
        ;
        let t = c.time_offset as int;
        let ts = c.time_sub as int;
        let fs = c.freq_sub as int;
        let fo = c.freq_offset as int;
        let tt = self.time_osr as int;
        let ff = self.freq_osr as int;
        let nn = self.num_bins as int;
        assert(((t * tt + ts) * ff + fs) * nn + fo == t * (tt * ff * nn) + ((ts * ff + fs) * nn
            + fo)) by (nonlinear_arith);
        assert((ts * ff + fs) * nn + fo < tt * ff * nn) by (nonlinear_arith)
            requires
                0 <= ts < tt && 0 <= fs < ff && 0 <= fo < nn && nn >= 1 && ff >= 1,
        ;
        assert((ts * ff + fs) * nn + fo >= 0) by (nonlinear_arith)
            requires
                ts >= 0 && fs >= 0 && fo >= 0 && nn >= 1 && ff >= 1,
        ;
        let bb = self.max_blocks as int;
        let ss = self.block_stride as int;
        assert(-(bb * ss) <= t * ss <= bb * ss) by (nonlinear_arith)
            requires
                -bb <= t <= bb && ss >= 0,
        ;
    }

    /// Offset of a candidate's first cell, in cells, relative to the start
    /// of the buffer.
    pub fn get_index(&self, candidate: &Candidate) -> (r: i32)
        requires
            self.inv(),
            self.valid_candidate(*candidate),
        ensures
            r == self.index_of(*candidate),
    {
        proof {
            self.lemma_index_split(*candidate);
            let t = candidate.time_offset as int;
            let tt = self.time_osr as int;
            let ff = self.freq_osr as int;
            assert(-0x10000 <= t * tt <= 0x10000) by (nonlinear_arith)
                requires
                    -1024 <= t <= 1024 && 1 <= tt <= 64,
            ;
            assert(-0x410000 <= (t * tt + candidate.time_sub) * ff <= 0x410000)
                by (nonlinear_arith)
                requires
                    -0x10000 <= t * tt <= 0x10000 && 0 <= candidate.time_sub < 64 && 1 <= ff
                        <= 64,
            ;
            assert(-0x1041000000 <= ((t * tt + candidate.time_sub) * ff + candidate.freq_sub)
                * self.num_bins <= 0x1041000000) by (nonlinear_arith)
                requires
                    -0x410000 <= (t * tt + candidate.time_sub) * ff + candidate.freq_sub
                        <= 0x410040 && 0 <= self.num_bins <= 4096,
            ;
        }
        let mut offset: i64 = candidate.time_offset as i64;
        offset = (offset * self.time_osr as i64) + candidate.time_sub as i64;
        offset = (offset * self.freq_osr as i64) + candidate.freq_sub as i64;
        offset = (offset * self.num_bins as i64) + candidate.freq_offset as i64;
        proof {
            assert(offset == self.index_of(*candidate));
        }
        offset as i32
    }
}

} // verus!
