//! A stateful linear-interpolation sample-rate converter. The fractional
//! read position is carried across batches exactly, as an integer numerator
//! over the output rate, so batch boundaries introduce no seams and the
//! phase cannot drift.

use vstd::prelude::*;

use vstd::arithmetic::div_mod::{
    lemma_div_pos_is_pos, lemma_fundamental_div_mod_converse, lemma_multiply_divide_lt,
};
use crate::dspmath::{div_trunc, lemma_div_at_most, spec_tdiv};

verus! {

/// Highest sample rate the resampler accepts, comfortably above the highest
/// rate the tuner can deliver.
pub const MAX_RESAMPLER_RATE: u32 = 16_000_000;

/// A linear-interpolation resampler at the fixed ratio
/// `output_rate / input_rate`. The only persistent state is `phase_num`: the
/// fractional input-sample position, in units of `1 / output_rate` of an
/// input sample, carried over from the previous batch.
pub struct Resampler {
    /// Input sample rate in Hz.
    pub input_rate: u32,
    /// Output sample rate in Hz.
    pub output_rate: u32,
    /// The carried fractional position times `output_rate`.
    pub phase_num: u64,
}

/// The position one past the last input sample the interpolator may read
/// from, times `output_rate`.
pub open spec fn spec_limit(len: int, out_rate: int) -> int {
    (len - 1) * out_rate
}

/// How many output samples one `resample` call over `len` input samples
/// yields, starting from phase numerator `phase`.
pub open spec fn spec_output_count(phase: int, len: int, in_rate: int, out_rate: int) -> int {
    if len == 0 || phase >= spec_limit(len, out_rate) {
        0
    } else {
        (spec_limit(len, out_rate) - phase + in_rate - 1) / in_rate
    }
}

/// The `k`-th output sample: the input is read at fractional position
/// `(phase + k * in_rate) / out_rate` and linearly interpolated between the
/// two neighboring input samples.
pub open spec fn spec_resampled(
    input: Seq<i32>,
    phase: int,
    in_rate: int,
    out_rate: int,
    k: int,
) -> int {
    let pos = phase + k * in_rate;
    let idx = pos / out_rate;
    let f = pos % out_rate;
    input[idx] + spec_tdiv((input[idx + 1] - input[idx]) * f, out_rate)
}

impl Resampler {
    /// The rates are valid and the carried phase is less than one output
    /// step, so it never drifts without bound.
    pub open spec fn wf(self) -> bool {
        &&& 1 <= self.input_rate <= MAX_RESAMPLER_RATE
        &&& 1 <= self.output_rate <= MAX_RESAMPLER_RATE
        &&& self.phase_num < self.input_rate
    }

    /// A fresh resampler at the ratio `output_rate / input_rate`, with no
    /// carried phase.
    pub fn new(input_rate: u32, output_rate: u32) -> (r: Self)
        requires
            1 <= input_rate <= MAX_RESAMPLER_RATE,
            1 <= output_rate <= MAX_RESAMPLER_RATE,
        ensures
            r.input_rate == input_rate,
            r.output_rate == output_rate,
            r.phase_num == 0,
            r.wf(),
    {
        Resampler { input_rate, output_rate, phase_num: 0 }
    }

    /// Resample one batch. Each output sample is the linear interpolation of
    /// the two input samples around the current fractional position; the
    /// position advances by `input_rate / output_rate` input samples per
    /// output sample, and its remainder past the end of the batch is carried
    /// to the next call.
    pub fn resample(&mut self, input: &Vec<i32>) -> (r: Vec<i32>)
        requires
            old(self).wf(),
            input@.len() < 0x1000_0000,
        ensures
            final(self).wf(),
            final(self).input_rate == old(self).input_rate,
            final(self).output_rate == old(self).output_rate,
            r@.len() == spec_output_count(
                old(self).phase_num as int,
                input@.len() as int,
                old(self).input_rate as int,
                old(self).output_rate as int,
            ),
            forall|k: int| 0 <= k < r@.len() ==> #[trigger] r@[k] == spec_resampled(
                input@,
                old(self).phase_num as int,
                old(self).input_rate as int,
                old(self).output_rate as int,
                k,
            ),
            input@.len() == 0 ==> final(self).phase_num == old(self).phase_num,
            input@.len() > 0 ==> {
                let moved = old(self).phase_num + r@.len() * old(self).input_rate;
                let limit = spec_limit(input@.len() as int, old(self).output_rate as int);
                final(self).phase_num == if moved >= limit {
                    moved - limit
                } else {
                    0
                }
            },
    {
        let len = input.len();
        if len == 0 {
            return Vec::new();
        }
        let in_rate = self.input_rate as u64;
        let out_rate = self.output_rate as u64;
        proof {
            assert((len - 1) * (out_rate as int) <= 0x1000_0000 * 16_000_000) by (nonlinear_arith)
                requires 1 <= len < 0x1000_0000, 1 <= out_rate <= 16_000_000;
        }
        let limit: u64 = (len as u64 - 1) * out_rate;
        let ghost phase0 = self.phase_num as int;

        let mut pos: u64 = self.phase_num;
        let mut r: Vec<i32> = Vec::new();
        proof {
            assert(r@.len() == 0);
            assert(pos == phase0 + r@.len() * in_rate);
        }
        while pos < limit
            invariant
                self.phase_num == old(self).phase_num,
                self.input_rate == old(self).input_rate,
                self.output_rate == old(self).output_rate,
                1 <= in_rate <= MAX_RESAMPLER_RATE,
                1 <= out_rate <= MAX_RESAMPLER_RATE,
                in_rate == old(self).input_rate,
                out_rate == old(self).output_rate,
                1 <= len < 0x1000_0000,
                len == input@.len(),
                limit == spec_limit(len as int, out_rate as int),
                limit <= 0x1000_0000 * 16_000_000,
                pos == phase0 + r@.len() * in_rate,
                0 <= phase0 < in_rate,
                r@.len() > 0 ==> phase0 + (r@.len() - 1) * in_rate < limit,
                forall|k: int| 0 <= k < r@.len() ==> #[trigger] r@[k] == spec_resampled(
                    input@,
                    phase0,
                    in_rate as int,
                    out_rate as int,
                    k,
                ),
            decreases (if pos < limit { limit - pos } else { 0 }) as int,
        {
            let idx64 = pos / out_rate;
            let f = pos % out_rate;
            proof {
                assert(pos < (len - 1) * out_rate);
                lemma_multiply_divide_lt(pos as int, out_rate as int, (len - 1) as int);
                lemma_div_pos_is_pos(pos as int, out_rate as int);
            }
            let idx = idx64 as usize;
            let a = input[idx];
            let b = input[idx + 1];
            let diff: i64 = (b as i64) - (a as i64);
            proof {
                assert(-(0x1_0000_0000i64 * 16_000_000) <= diff * (f as i64) <= 0x1_0000_0000i64
                    * 16_000_000) by (nonlinear_arith)
                    requires -0x1_0000_0000 <= diff <= 0x1_0000_0000, 0 <= f < 16_000_000;
            }
            let scaled: i64 = diff * (f as i64);
            let interp = div_trunc(scaled, out_rate as i64);
            proof {
                if diff >= 0 {
                    assert(0 <= scaled <= (out_rate as int) * diff) by (nonlinear_arith)
                        requires scaled == diff * f, 0 <= f < out_rate, diff >= 0;
                    lemma_div_at_most(scaled as int, out_rate as int, diff as int);
                    assert(0 <= interp <= diff);
                } else {
                    assert(0 <= -scaled <= (out_rate as int) * (-diff)) by (nonlinear_arith)
                        requires scaled == diff * f, 0 <= f < out_rate, diff < 0;
                    lemma_div_at_most((-scaled) as int, out_rate as int, (-diff) as int);
                    assert(diff <= interp <= 0);
                }
            }
            let sample = ((a as i64) + interp) as i32;
            r.push(sample);
            proof {
                assert(phase0 + ((r@.len() - 1) * in_rate) + in_rate == phase0 + r@.len()
                    * in_rate) by (nonlinear_arith);
                assert(r@[r@.len() - 1] == spec_resampled(
                    input@,
                    phase0,
                    in_rate as int,
                    out_rate as int,
                    r@.len() - 1,
                ));
            }
            pos = pos + in_rate;
        }

        proof {
            let k = r@.len() as int;
            let d = limit - phase0;
            if d > 0 {
                assert(pos == phase0 + k * in_rate);
                assert(phase0 + k * in_rate >= limit);
                assert(k > 0);
                let r0 = d + in_rate - 1 - k * in_rate;
                assert(phase0 + (k - 1) * in_rate < limit);
                assert(0 <= r0 < in_rate && d + in_rate - 1 == k * in_rate + r0) by (nonlinear_arith)
                    requires
                        r0 == d + in_rate - 1 - k * in_rate,
                        phase0 + k * in_rate >= limit,
                        phase0 + (k - 1) * in_rate < limit,
                        d == limit - phase0,
                        in_rate >= 1,
                ;
                lemma_fundamental_div_mod_converse(d + in_rate - 1, in_rate as int, k, r0);
                assert(k == spec_output_count(phase0, len as int, in_rate as int, out_rate as int));
                assert(pos - limit < in_rate) by (nonlinear_arith)
                    requires
                        pos == phase0 + k * in_rate,
                        phase0 + (k - 1) * in_rate < limit,
                        pos >= limit,
                ;
            } else {
                assert(k == 0);
            }
        }

        self.phase_num = pos - limit;
        r
    }

    /// Drop the carried phase.
    pub fn reset(&mut self)
        ensures
            final(self).input_rate == old(self).input_rate,
            final(self).output_rate == old(self).output_rate,
            final(self).phase_num == 0,
            old(self).wf() ==> final(self).wf(),
    {
        self.phase_num = 0;
    }

    /// The resampling ratio `output_rate / input_rate`, in thousandths.
    pub fn ratio(&self) -> (r: u64)
        requires
            self.wf(),
        ensures
            r == 1000 * (self.output_rate as int) / (self.input_rate as int),
    {
        (1000 * (self.output_rate as u64)) / (self.input_rate as u64)
    }

    /// Change the rates; changing rates drops the carried phase.
    pub fn set_rates(&mut self, input_rate: u32, output_rate: u32)
        requires
            1 <= input_rate <= MAX_RESAMPLER_RATE,
            1 <= output_rate <= MAX_RESAMPLER_RATE,
        ensures
            final(self).input_rate == input_rate,
            final(self).output_rate == output_rate,
            final(self).phase_num == 0,
            final(self).wf(),
    {
        self.input_rate = input_rate;
        self.output_rate = output_rate;
        self.phase_num = 0;
    }
}

} // verus!
