//! The demodulator set: pure functions from one IQ batch to one audio batch
//! for FM (narrow and wide), AM, and single sideband, plus the shared
//! moving-average lowpass and de-emphasis filters. All samples are Q15
//! fixed point ([-32768, 32768] is [-1, 1]).

use vstd::prelude::*;

use crate::dspmath::{
    atan2_q, cos_full, div_trunc, isqrt, lemma_div_at_most, lemma_isqrt_unique, lemma_seq_sum_bound,
    lemma_seq_sum_push, lemma_seq_sum_shift, seq_sum, sin_full, spec_atan2_q, spec_cos_full,
    spec_isqrt, spec_sin_full, spec_tdiv,
};
use crate::sample::{audio_in_range, iq_batch_in_range, iq_in_range, IqSample};
use vstd::arithmetic::div_mod::{lemma_div_by_self, lemma_div_is_ordered, lemma_div_pos_is_pos};

verus! {

/// A batch of values all within `[-b, b]`.
pub open spec fn bounded_by(s: Seq<int>, b: int) -> bool {
    forall|i: int| 0 <= i < s.len() ==> -b <= #[trigger] s[i] <= b
}

/// The view of an audio batch as mathematical integers.
pub open spec fn to_ints(s: Seq<i32>) -> Seq<int> {
    s.map_values(|x: i32| x as int)
}

/// The imaginary part of `cur * conj(prev)`: the cross product of the two
/// samples as vectors, which carries the sign and sine of the phase advance.
pub open spec fn spec_cross(prev: IqSample, cur: IqSample) -> int {
    cur.im * prev.re - cur.re * prev.im
}

/// The real part of `cur * conj(prev)`: the dot product of the two samples,
/// which carries the cosine of the phase advance.
pub open spec fn spec_dot(prev: IqSample, cur: IqSample) -> int {
    cur.re * prev.re + cur.im * prev.im
}

/// The polar discriminator over a batch: for each adjacent pair, the angle
/// of `cur * conj(prev)` normalized by pi, in Q15. One sample shorter than
/// the input; empty when fewer than two samples arrive.
pub open spec fn spec_discriminated(s: Seq<IqSample>) -> Seq<int> {
    if s.len() < 2 {
        Seq::empty()
    } else {
        Seq::new((s.len() - 1) as nat, |i: int| spec_atan2_q(
            spec_cross(s[i], s[i + 1]),
            spec_dot(s[i], s[i + 1]),
        ))
    }
}

/// The polar discriminator, executable: instantaneous frequency per pair of
/// adjacent samples, each value in [-32768, 32768].
pub fn discriminate(samples: &Vec<IqSample>) -> (r: Vec<i32>)
    requires
        iq_batch_in_range(samples@),
    ensures
        r@.len() == spec_discriminated(samples@).len(),
        forall|k: int| 0 <= k < r@.len() ==> #[trigger] r@[k] as int == spec_discriminated(
            samples@,
        )[k],
        audio_in_range(r@),
{
    let len = samples.len();
    let mut r: Vec<i32> = Vec::new();
    if len < 2 {
        return r;
    }
    let mut k: usize = 0;
    while k < len - 1
        invariant
            2 <= len == samples@.len(),
            k <= len - 1,
            iq_batch_in_range(samples@),
            r@.len() == k,
            forall|j: int| 0 <= j < k ==> #[trigger] r@[j] as int == spec_discriminated(
                samples@,
            )[j],
            audio_in_range(r@),
        decreases len - 1 - k,
    {
        let prev = samples[k];
        let cur = samples[k + 1];
        proof {
            assert(iq_in_range(samples@[k as int]));
            assert(iq_in_range(samples@[k + 1]));
            assert(-0x4000_0000 <= (cur.im as int) * (prev.re as int) <= 0x4000_0000
                && -0x4000_0000 <= (cur.re as int) * (prev.im as int) <= 0x4000_0000
                && -0x4000_0000 <= (cur.re as int) * (prev.re as int) <= 0x4000_0000
                && -0x4000_0000 <= (cur.im as int) * (prev.im as int) <= 0x4000_0000)
                by (nonlinear_arith)
                requires
                    iq_in_range(prev),
                    iq_in_range(cur),
            ;
        }
        let cross: i64 = (cur.im as i64) * (prev.re as i64) - (cur.re as i64) * (prev.im as i64);
        let dot: i64 = (cur.re as i64) * (prev.re as i64) + (cur.im as i64) * (prev.im as i64);
        let angle = atan2_q(cross, dot);
        r.push(angle);
        k = k + 1;
    }
    r
}

/// The average of the window of width `w` centered on position `i` (clipped
/// to the ends of the batch), rounded toward zero.
pub open spec fn spec_window_avg(s: Seq<int>, w: int, i: int) -> int {
    let start = if i - w / 2 >= 0 {
        i - w / 2
    } else {
        0
    };
    let end = if i + w / 2 + 1 <= s.len() {
        i + w / 2 + 1
    } else {
        s.len() as int
    };
    spec_tdiv(seq_sum(s.subrange(start, end)), end - start)
}

/// The moving-average lowpass of a batch: every position is replaced by the
/// average of the window around it; a window of one (or zero) leaves the
/// batch unchanged.
pub open spec fn spec_lowpassed(s: Seq<int>, w: int) -> Seq<int> {
    if w <= 1 {
        s
    } else {
        Seq::new(s.len(), |i: int| spec_window_avg(s, w, i))
    }
}

/// A windowed average of values within `[-b, b]` stays within `[-b, b]`.
pub proof fn lemma_window_avg_bound(s: Seq<int>, w: int, i: int, b: int)
    requires
        bounded_by(s, b),
        b >= 0,
        w >= 2,
        0 <= i < s.len(),
    ensures
        -b <= spec_window_avg(s, w, i) <= b,
{
    let start = if i - w / 2 >= 0 {
        i - w / 2
    } else {
        0
    };
    let end = if i + w / 2 + 1 <= s.len() {
        i + w / 2 + 1
    } else {
        s.len() as int
    };
    let win = s.subrange(start, end);
    let cnt = end - start;
    lemma_div_pos_is_pos(w, 2);
    assert(start <= i < end);
    assert(forall|j: int| 0 <= j < win.len() ==> -b <= #[trigger] win[j] <= b);
    lemma_seq_sum_bound(win, b);
    let total = seq_sum(win);
    if total >= 0 {
        lemma_div_at_most(total, cnt, b);
        lemma_div_pos_is_pos(total, cnt);
    } else {
        lemma_div_at_most(-total, cnt, b);
        lemma_div_pos_is_pos(-total, cnt);
    }
}

/// Every element of a moving-average lowpass of values within `[-b, b]`
/// stays within `[-b, b]`.
pub proof fn lemma_lowpass_bound(s: Seq<int>, w: int, b: int)
    requires
        bounded_by(s, b),
        b >= 0,
    ensures
        bounded_by(spec_lowpassed(s, w), b),
{
    if w >= 2 {
        assert forall|i: int| 0 <= i < spec_lowpassed(s, w).len() implies -b <= #[trigger]
        spec_lowpassed(s, w)[i] <= b by {
            lemma_window_avg_bound(s, w, i, b);
        }
    }
}

/// Moving-average lowpass: each output sample is the average of the window
/// of `window_size` input samples centered on it, clipped at the batch ends.
pub fn lowpass_filter(input: &Vec<i32>, window_size: usize) -> (r: Vec<i32>)
    requires
        input@.len() < 0x1000_0000,
        window_size <= 1024,
        bounded_by(to_ints(input@), 65536),
    ensures
        r@.len() == input@.len(),
        forall|k: int| 0 <= k < r@.len() ==> #[trigger] r@[k] as int == spec_lowpassed(
            to_ints(input@),
            window_size as int,
        )[k],
        bounded_by(to_ints(r@), 65536),
{
    let ghost ints = to_ints(input@);
    let len = input.len();
    if window_size <= 1 {
        let r = crate::state::copy_row(input);
        return r;
    }
    let half = window_size / 2;
    let mut r: Vec<i32> = Vec::new();
    let mut i: usize = 0;
    while i < len
        invariant
            ints == to_ints(input@),
            len == input@.len(),
            len < 0x1000_0000,
            2 <= window_size <= 1024,
            half == window_size / 2,
            bounded_by(ints, 65536),
            i <= len,
            r@.len() == i,
            forall|k: int| 0 <= k < i ==> #[trigger] r@[k] as int == spec_lowpassed(
                ints,
                window_size as int,
            )[k],
            bounded_by(to_ints(r@), 65536),
        decreases len - i,
    {
        let start = if i >= half {
            i - half
        } else {
            0
        };
        let end = if i + half + 1 <= len {
            i + half + 1
        } else {
            len
        };
        let mut acc: i64 = 0;
        let mut j: usize = start;
        proof {
            assert(ints.subrange(start as int, start as int) =~= Seq::<int>::empty());
        }
        while j < end
            invariant
                ints == to_ints(input@),
                len == input@.len(),
                bounded_by(ints, 65536),
                start <= j <= end <= len,
                end - start <= 1025,
                acc == seq_sum(ints.subrange(start as int, j as int)),
                -(1025 * 65536) <= acc <= 1025 * 65536,
            decreases end - j,
        {
            proof {
                assert(ints.subrange(start as int, j + 1) =~= ints.subrange(
                    start as int,
                    j as int,
                ).push(ints[j as int]));
                lemma_seq_sum_push(ints.subrange(start as int, j as int), ints[j as int]);
                lemma_seq_sum_bound(ints.subrange(start as int, j + 1), 65536);
                assert(ints.subrange(start as int, j + 1).len() * 65536 <= 1025 * 65536)
                    by (nonlinear_arith)
                    requires ints.subrange(start as int, j + 1).len() <= 1025;
            }
            acc = acc + (input[j] as i64);
            j = j + 1;
        }
        let cnt = (end - start) as i64;
        let avg = div_trunc(acc, cnt);
        proof {
            let win = ints.subrange(start as int, end as int);
            lemma_seq_sum_bound(win, 65536);
            if acc >= 0 {
                lemma_div_at_most(acc as int, cnt as int, 65536);
            } else {
                lemma_div_at_most(-acc as int, cnt as int, 65536);
            }
            assert(avg as int == spec_window_avg(ints, window_size as int, i as int));
        }
        let ghost r_before = r@;
        r.push(avg as i32);
        proof {
            assert(to_ints(r@) =~= to_ints(r_before).push(avg as int));
        }
        i = i + 1;
    }
    r
}

/// The de-emphasis coefficient for a time constant of `tau_us` microseconds
/// at the fixed 48 kHz audio rate: `1 / (1 + 2 pi tau f)` in Q15, using
/// 301593 for `2 pi * 48000 * 1e-6` in millionths.
pub open spec fn spec_deemph_alpha(tau_us: int) -> int {
    32768000000int / (1000000 + 301593 * tau_us)
}

/// The de-emphasis coefficient, executable; always in [1, 32768].
pub fn deemph_alpha(tau_us: u32) -> (a: u32)
    requires
        tau_us <= 100_000,
    ensures
        a == spec_deemph_alpha(tau_us as int),
        1 <= a <= 32768,
{
    let den: u64 = 1_000_000 + 301_593 * (tau_us as u64);
    proof {
        lemma_div_at_most(32768000000, den as int, 32768);
        lemma_div_is_ordered(den as int, 32768000000, den as int);
        lemma_div_by_self(den as int);
    }
    (32_768_000_000u64 / den) as u32
}

/// The de-emphasis coefficient lies in [1, 32768] for any time constant up
/// to 100000 microseconds.
pub proof fn lemma_deemph_alpha_bounds(tau_us: int)
    requires
        0 <= tau_us <= 100_000,
    ensures
        1 <= spec_deemph_alpha(tau_us) <= 32768,
{
    let den = 1000000 + 301593 * tau_us;
    lemma_div_at_most(32768000000, den, 32768);
    lemma_div_is_ordered(den, 32768000000, den);
    lemma_div_by_self(den);
}

/// The de-emphasis filter state after the sample at position `k`: a
/// single-pole IIR lowpass `y = (alpha x + (32768 - alpha) y_prev) / 32768`,
/// whose state starts at the first sample of the batch (so the first output
/// equals the first input).
pub open spec fn spec_deemph_at(s: Seq<int>, alpha: int, k: int) -> int
    decreases k,
{
    let prev = if k <= 0 {
        s[0]
    } else {
        spec_deemph_at(s, alpha, k - 1)
    };
    spec_tdiv(alpha * s[k] + (32768 - alpha) * prev, 32768)
}

/// De-emphasis output of values within `[-b, b]` stays within `[-b, b]`.
pub proof fn lemma_deemph_bound(s: Seq<int>, alpha: int, b: int, k: int)
    requires
        bounded_by(s, b),
        b >= 0,
        0 <= alpha <= 32768,
        0 <= k < s.len(),
    ensures
        -b <= spec_deemph_at(s, alpha, k) <= b,
    decreases k,
{
    let prev = if k <= 0 {
        s[0]
    } else {
        spec_deemph_at(s, alpha, k - 1)
    };
    if k > 0 {
        lemma_deemph_bound(s, alpha, b, k - 1);
    }
    assert(-b <= prev <= b);
    let num = alpha * s[k] + (32768 - alpha) * prev;
    assert(-(32768 * b) <= num <= 32768 * b) by (nonlinear_arith)
        requires
            num == alpha * s[k] + (32768 - alpha) * prev,
            0 <= alpha <= 32768,
            -b <= s[k] <= b,
            -b <= prev <= b,
    ;
    if num >= 0 {
        lemma_div_at_most(num, 32768, b);
        lemma_div_pos_is_pos(num, 32768);
    } else {
        lemma_div_at_most(-num, 32768, b);
        lemma_div_pos_is_pos(-num, 32768);
    }
}

/// Single-pole de-emphasis over one batch, with the filter state seeded from
/// the first sample: restores the flat frequency response that the
/// transmitter's pre-emphasis boosted. The time constant is 50 us for
/// wideband broadcast and 75 us for narrowband.
pub fn apply_deemphasis(input: &Vec<i32>, wideband: bool) -> (r: Vec<i32>)
    requires
        input@.len() < 0x1000_0000,
        bounded_by(to_ints(input@), 65536),
    ensures
        r@.len() == input@.len(),
        forall|k: int| 0 <= k < r@.len() ==> #[trigger] r@[k] as int == spec_deemph_at(
            to_ints(input@),
            spec_deemph_alpha(if wideband { 50int } else { 75int }),
            k,
        ),
        bounded_by(to_ints(r@), 65536),
{
    let ghost ints = to_ints(input@);
    let len = input.len();
    let mut r: Vec<i32> = Vec::new();
    if len == 0 {
        return r;
    }
    let tau: u32 = if wideband {
        50
    } else {
        75
    };
    let alpha = deemph_alpha(tau) as i64;
    proof {
        assert(ints[0] == input@[0] as int);
    }
    let mut prev: i64 = input[0] as i64;
    let mut k: usize = 0;
    while k < len
        invariant
            ints == to_ints(input@),
            len == input@.len(),
            0 < len < 0x1000_0000,
            bounded_by(ints, 65536),
            1 <= alpha <= 32768,
            alpha == spec_deemph_alpha(if wideband { 50int } else { 75int }),
            k <= len,
            r@.len() == k,
            -65536 <= prev <= 65536,
            k == 0 ==> prev == ints[0],
            k > 0 ==> prev == spec_deemph_at(ints, alpha as int, k - 1),
            forall|j: int| 0 <= j < k ==> #[trigger] r@[j] as int == spec_deemph_at(
                ints,
                alpha as int,
                j,
            ),
            bounded_by(to_ints(r@), 65536),
        decreases len - k,
    {
        let x = input[k] as i64;
        proof {
            assert(ints[k as int] == input@[k as int] as int);
            assert(-(32768 * 65536) <= alpha * x && alpha * x <= 32768 * 65536
                && -(32768 * 65536) <= (32768 - alpha) * prev
                && (32768 - alpha) * prev <= 32768 * 65536
                && -(32768 * 65536) <= alpha * x + (32768 - alpha) * prev
                && alpha * x + (32768 - alpha) * prev <= 32768 * 65536)
                by (nonlinear_arith)
                requires
                    1 <= alpha <= 32768,
                    -65536 <= x <= 65536,
                    -65536 <= prev <= 65536,
            ;
        }
        let num = alpha * x + (32768 - alpha) * prev;
        let filtered = div_trunc(num, 32768);
        proof {
            if num >= 0 {
                lemma_div_at_most(num as int, 32768, 65536);
            } else {
                lemma_div_at_most(-num as int, 32768, 65536);
            }
            assert(filtered as int == spec_deemph_at(ints, alpha as int, k as int));
        }
        let ghost r_before = r@;
        r.push(filtered as i32);
        proof {
            assert(to_ints(r@) =~= to_ints(r_before).push(filtered as int));
        }
        prev = filtered;
        k = k + 1;
    }
    r
}

/// FM demodulation of one batch: polar discriminator, moving-average lowpass
/// (window 8 wideband, 4 narrowband), then de-emphasis. The output is one
/// sample shorter than the input (empty for fewer than two samples) and
/// bounded by [-1, 1] in Q15.
pub fn demodulate_fm(samples: &Vec<IqSample>, wideband: bool) -> (r: Vec<i32>)
    requires
        iq_batch_in_range(samples@),
        samples@.len() < 0x1000_0000,
    ensures
        samples@.len() < 2 ==> r@.len() == 0,
        samples@.len() >= 2 ==> r@.len() == samples@.len() - 1,
        forall|k: int| 0 <= k < r@.len() ==> #[trigger] r@[k] as int == spec_deemph_at(
            spec_lowpassed(spec_discriminated(samples@), if wideband { 8int } else { 4int }),
            spec_deemph_alpha(if wideband { 50int } else { 75int }),
            k,
        ),
        audio_in_range(r@),
{
    if samples.len() < 2 {
        return Vec::new();
    }
    let audio = discriminate(samples);
    let window: usize = if wideband {
        8
    } else {
        4
    };
    proof {
        assert(to_ints(audio@) =~= spec_discriminated(samples@));
        assert(bounded_by(to_ints(audio@), 65536));
    }
    let filtered = lowpass_filter(&audio, window);
    proof {
        assert(to_ints(filtered@) =~= spec_lowpassed(spec_discriminated(samples@), window as int));
    }
    let out = apply_deemphasis(&filtered, wideband);
    proof {
        lemma_lowpass_bound(spec_discriminated(samples@), window as int, 32768);
        lemma_deemph_alpha_bounds(if wideband { 50int } else { 75int });
        assert forall|k: int| 0 <= k < out@.len() implies -32768 <= #[trigger] out@[k] <= 32768 by {
            lemma_deemph_bound(
                spec_lowpassed(spec_discriminated(samples@), window as int),
                spec_deemph_alpha(if wideband { 50int } else { 75int }),
                32768,
                k,
            );
        }
    }
    out
}


/// The polar discriminator with a carried phase reference: position `k` of
/// the batch is discriminated against the sample before it, and position 0
/// against the reference carried from the previous batch, so no sample is
/// lost at a batch boundary.
pub open spec fn spec_pdisc(s: Seq<IqSample>, prev0: IqSample) -> Seq<int> {
    Seq::new(s.len(), |k: int| {
        let prev = if k == 0 {
            prev0
        } else {
            s[k - 1]
        };
        spec_atan2_q(spec_cross(prev, s[k]), spec_dot(prev, s[k]))
    })
}

/// The carried-reference discriminator output is within [-1, 1] in Q15 at
/// every position.
pub proof fn lemma_pdisc_bound(s: Seq<IqSample>, prev0: IqSample)
    ensures
        bounded_by(spec_pdisc(s, prev0), 32768),
{
    assert forall|k: int| 0 <= k < spec_pdisc(s, prev0).len() implies -32768 <= #[trigger]
    spec_pdisc(s, prev0)[k] <= 32768 by {
        let prev = if k == 0 {
            prev0
        } else {
            s[k - 1]
        };
        crate::dspmath::lemma_atan2_q_range(spec_cross(prev, s[k]), spec_dot(prev, s[k]));
    }
}

/// The de-emphasis filter state after position `k`, advanced from a carried
/// initial state: `y = ((32768 - alpha) y_prev + alpha x) / 32768`.
pub open spec fn spec_deemph_carried(x: Seq<int>, state0: int, alpha: int, k: int) -> int
    decreases k,
{
    let prev = if k <= 0 {
        state0
    } else {
        spec_deemph_carried(x, state0, alpha, k - 1)
    };
    spec_tdiv(prev * (32768 - alpha) + x[k] * alpha, 32768)
}

/// De-emphasis from a carried state within `[-b, b]` over inputs within
/// `[-b, b]` stays within `[-b, b]`.
pub proof fn lemma_deemph_carried_bound(x: Seq<int>, state0: int, alpha: int, b: int, k: int)
    requires
        bounded_by(x, b),
        -b <= state0 <= b,
        b >= 0,
        0 <= alpha <= 32768,
        0 <= k < x.len(),
    ensures
        -b <= spec_deemph_carried(x, state0, alpha, k) <= b,
    decreases k,
{
    let prev = if k <= 0 {
        state0
    } else {
        spec_deemph_carried(x, state0, alpha, k - 1)
    };
    if k > 0 {
        lemma_deemph_carried_bound(x, state0, alpha, b, k - 1);
    }
    assert(-b <= prev <= b);
    let num = prev * (32768 - alpha) + x[k] * alpha;
    assert(-(32768 * b) <= num <= 32768 * b) by (nonlinear_arith)
        requires
            num == prev * (32768 - alpha) + x[k] * alpha,
            0 <= alpha <= 32768,
            -b <= x[k] <= b,
            -b <= prev <= b,
    ;
    if num >= 0 {
        lemma_div_at_most(num, 32768, b);
        lemma_div_pos_is_pos(num, 32768);
    } else {
        lemma_div_at_most(-num, 32768, b);
        lemma_div_pos_is_pos(-num, 32768);
    }
}

/// What the persistent demodulator produces at position `k` of a batch:
/// discriminate against the carried reference, smooth with the moving
/// average, then de-emphasize from the carried filter state.
pub open spec fn spec_fm_chain(
    s: Seq<IqSample>,
    prev0: IqSample,
    state0: int,
    alpha: int,
    window: int,
    k: int,
) -> int {
    spec_deemph_carried(spec_lowpassed(spec_pdisc(s, prev0), window), state0, alpha, k)
}

/// The production FM demodulator: it carries the previous sample and the
/// de-emphasis state across batches, so batch boundaries lose no samples and
/// the discriminator reference and filter memory stay continuous. (The
/// stateless [`demodulate_fm`] resets its phase reference every batch and
/// loses one sample per batch; it is kept as the legacy simplified mode.)
pub struct FmDemodulator {
    /// The last sample of the previous batch, the phase reference for the
    /// first sample of the next one.
    pub prev_sample: IqSample,
    /// The de-emphasis filter state.
    pub deemph_state: i32,
    /// The de-emphasis coefficient in Q15.
    pub deemph_alpha: i32,
    /// The moving-average window: 8 for wideband, 4 for narrowband.
    pub lowpass_window: usize,
}

impl FmDemodulator {
    /// The carried state is a valid sample and a valid Q15 audio value, and
    /// the smoothing window is one of the two the receiver uses.
    pub open spec fn wf(self) -> bool {
        &&& iq_in_range(self.prev_sample)
        &&& -32768 <= self.deemph_state <= 32768
        &&& 0 <= self.deemph_alpha <= 32768
        &&& (self.lowpass_window == 4 || self.lowpass_window == 8)
    }

    /// A demodulator for the given de-emphasis time constant in microseconds:
    /// 75 for the narrowband default, 50 for wideband, which also selects the
    /// wider smoothing window. The coefficient is `1 / (1 + 2 pi tau f)` at
    /// the fixed 48 kHz downstream audio rate, whatever IQ sample rate the
    /// instance serves (the rate is accepted for symmetry with the rest of
    /// the receiver but does not enter the coefficient).
    pub fn new(_sample_rate: u32, tau_us: u32) -> (r: Self)
        requires
            tau_us <= 100_000,
        ensures
            r.prev_sample == (IqSample { re: 32768i32, im: 0i32 }),
            r.deemph_state == 0,
            r.deemph_alpha == spec_deemph_alpha(tau_us as int),
            r.lowpass_window == (if tau_us == 50 {
                8usize
            } else {
                4usize
            }),
            r.wf(),
    {
        let alpha = deemph_alpha(tau_us) as i32;
        let window: usize = if tau_us == 50 {
            8
        } else {
            4
        };
        FmDemodulator {
            prev_sample: IqSample { re: 32768, im: 0 },
            deemph_state: 0,
            deemph_alpha: alpha,
            lowpass_window: window,
        }
    }

    /// Demodulate one batch: polar discriminator against the carried
    /// reference (so every input sample yields one output sample),
    /// moving-average lowpass, then de-emphasis from the carried filter
    /// state, each output clamped to the Q15 audio range.
    pub fn demodulate(&mut self, samples: &Vec<IqSample>) -> (r: Vec<i32>)
        requires
            old(self).wf(),
            iq_batch_in_range(samples@),
            samples@.len() < 0x1000_0000,
        ensures
            final(self).wf(),
            final(self).deemph_alpha == old(self).deemph_alpha,
            final(self).lowpass_window == old(self).lowpass_window,
            r@.len() == samples@.len(),
            forall|k: int| 0 <= k < r@.len() ==> #[trigger] r@[k] as int == spec_fm_chain(
                samples@,
                old(self).prev_sample,
                old(self).deemph_state as int,
                old(self).deemph_alpha as int,
                old(self).lowpass_window as int,
                k,
            ),
            audio_in_range(r@),
            samples@.len() == 0 ==> final(self).prev_sample == old(self).prev_sample
                && final(self).deemph_state == old(self).deemph_state,
            samples@.len() > 0 ==> final(self).prev_sample == samples@.last()
                && final(self).deemph_state as int == spec_fm_chain(
                samples@,
                old(self).prev_sample,
                old(self).deemph_state as int,
                old(self).deemph_alpha as int,
                old(self).lowpass_window as int,
                samples@.len() - 1,
            ),
    {
        let ghost prev0 = self.prev_sample;
        let ghost state0 = self.deemph_state as int;
        let ghost lp = spec_lowpassed(
            spec_pdisc(samples@, prev0),
            self.lowpass_window as int,
        );
        let len = samples.len();
        if len == 0 {
            return Vec::new();
        }

        // Discriminate every sample against the one before it, the first
        // against the carried reference.
        let mut disc: Vec<i32> = Vec::new();
        let mut prev = self.prev_sample;
        let mut k: usize = 0;
        while k < len
            invariant
                iq_batch_in_range(samples@),
                len == samples@.len(),
                0 < len < 0x1000_0000,
                prev0 == old(self).prev_sample,
                iq_in_range(prev0),
                k <= len,
                disc@.len() == k,
                prev == (if k == 0 {
                    prev0
                } else {
                    samples@[k - 1]
                }),
                iq_in_range(prev),
                forall|j: int| 0 <= j < k ==> #[trigger] disc@[j] as int == spec_pdisc(
                    samples@,
                    prev0,
                )[j],
                audio_in_range(disc@),
            decreases len - k,
        {
            let cur = samples[k];
            proof {
                assert(iq_in_range(samples@[k as int]));
                assert(-0x4000_0000 <= (cur.im as int) * (prev.re as int) <= 0x4000_0000
                    && -0x4000_0000 <= (cur.re as int) * (prev.im as int) <= 0x4000_0000
                    && -0x4000_0000 <= (cur.re as int) * (prev.re as int) <= 0x4000_0000
                    && -0x4000_0000 <= (cur.im as int) * (prev.im as int) <= 0x4000_0000)
                    by (nonlinear_arith)
                    requires
                        iq_in_range(prev),
                        iq_in_range(cur),
                ;
            }
            let cross: i64 = (cur.im as i64) * (prev.re as i64) - (cur.re as i64) * (prev.im
                as i64);
            let dot: i64 = (cur.re as i64) * (prev.re as i64) + (cur.im as i64) * (prev.im
                as i64);
            let angle = atan2_q(cross, dot);
            disc.push(angle);
            prev = cur;
            k = k + 1;
        }
        self.prev_sample = prev;

        // Smooth with the moving average.
        proof {
            assert(to_ints(disc@) =~= spec_pdisc(samples@, prev0));
            assert(bounded_by(to_ints(disc@), 65536));
        }
        let filtered = lowpass_filter(&disc, self.lowpass_window);
        proof {
            assert(to_ints(filtered@) =~= lp);
            lemma_pdisc_bound(samples@, prev0);
            lemma_lowpass_bound(spec_pdisc(samples@, prev0), self.lowpass_window as int, 32768);
            assert(forall|j: int| 0 <= j < len ==> -32768 <= #[trigger] filtered@[j] <= 32768);
        }

        // De-emphasize from the carried filter state.
        let alpha = self.deemph_alpha;
        let a64 = alpha as i64;
        let mut st: i64 = self.deemph_state as i64;
        let mut r: Vec<i32> = Vec::new();
        let mut i: usize = 0;
        while i < len
            invariant
                len == filtered@.len(),
                0 < len < 0x1000_0000,
                a64 == old(self).deemph_alpha,
                0 <= a64 <= 32768,
                state0 == old(self).deemph_state as int,
                -32768 <= state0 <= 32768,
                forall|j: int| 0 <= j < len ==> -32768 <= #[trigger] filtered@[j] <= 32768,
                forall|j: int| 0 <= j < len ==> #[trigger] filtered@[j] as int == lp[j],
                i <= len,
                r@.len() == i,
                -32768 <= st <= 32768,
                i == 0 ==> st == state0,
                i > 0 ==> st == spec_deemph_carried(lp, state0, a64 as int, i - 1),
                forall|j: int| 0 <= j < i ==> #[trigger] r@[j] as int == spec_deemph_carried(
                    lp,
                    state0,
                    a64 as int,
                    j,
                ),
                audio_in_range(r@),
            decreases len - i,
        {
            let x = filtered[i] as i64;
            proof {
                assert(-(32768 * 32768) <= st * (32768 - a64) && st * (32768 - a64) <= 32768
                    * 32768 && -(32768 * 32768) <= x * a64 && x * a64 <= 32768 * 32768
                    && -(32768 * 32768) <= st * (32768 - a64) + x * a64
                    && st * (32768 - a64) + x * a64 <= 32768 * 32768) by (nonlinear_arith)
                    requires
                        -32768 <= st <= 32768,
                        -32768 <= x <= 32768,
                        0 <= a64 <= 32768,
                ;
            }
            let num = st * (32768 - a64) + x * a64;
            let stepped = div_trunc(num, 32768);
            proof {
                if num >= 0 {
                    lemma_div_at_most(num as int, 32768, 32768);
                    lemma_div_pos_is_pos(num as int, 32768);
                } else {
                    lemma_div_at_most(-num as int, 32768, 32768);
                    lemma_div_pos_is_pos(-num as int, 32768);
                }
                assert(stepped as int == spec_deemph_carried(lp, state0, a64 as int, i as int));
            }
            st = stepped;
            r.push(crate::clamp_audio(stepped));
            i = i + 1;
        }
        self.deemph_state = st as i32;
        r
    }

    /// Forget the carried state: the phase reference returns to the unit
    /// sample and the de-emphasis state to silence.
    pub fn reset(&mut self)
        ensures
            final(self).prev_sample == (IqSample { re: 32768i32, im: 0i32 }),
            final(self).deemph_state == 0,
            final(self).deemph_alpha == old(self).deemph_alpha,
            final(self).lowpass_window == old(self).lowpass_window,
            old(self).wf() ==> final(self).wf(),
    {
        self.prev_sample = IqSample { re: 32768, im: 0 };
        self.deemph_state = 0;
    }
}

impl Default for FmDemodulator {
    /// The demodulator at the default tuner rate of 2.048 MHz with the
    /// North-American narrowband 75 us de-emphasis.
    fn default() -> (r: Self)
        ensures
            r.prev_sample == (IqSample { re: 32768i32, im: 0i32 }),
            r.deemph_state == 0,
            r.deemph_alpha == spec_deemph_alpha(75),
            r.lowpass_window == 4,
            r.wf(),
    {
        FmDemodulator::new(2_048_000, 75)
    }
}

/// What one `demodulate` call on the persistent demodulator promises: one
/// output per input through the carried-reference chain, and the carried
/// state advanced to the end of the batch.
pub open spec fn spec_fm_persistent(
    s: Seq<IqSample>,
    pre: FmDemodulator,
    post: FmDemodulator,
    out: Seq<i32>,
) -> bool {
    &&& out.len() == s.len()
    &&& forall|k: int| 0 <= k < out.len() ==> #[trigger] out[k] as int == spec_fm_chain(
        s,
        pre.prev_sample,
        pre.deemph_state as int,
        pre.deemph_alpha as int,
        pre.lowpass_window as int,
        k,
    )
    &&& post.deemph_alpha == pre.deemph_alpha
    &&& post.lowpass_window == pre.lowpass_window
    &&& s.len() == 0 ==> post.prev_sample == pre.prev_sample && post.deemph_state
        == pre.deemph_state
    &&& s.len() > 0 ==> post.prev_sample == s.last() && post.deemph_state as int == spec_fm_chain(
        s,
        pre.prev_sample,
        pre.deemph_state as int,
        pre.deemph_alpha as int,
        pre.lowpass_window as int,
        s.len() - 1,
    )
}

/// The envelope of a batch: the integer magnitude of each sample.
pub open spec fn spec_envelope(s: Seq<IqSample>) -> Seq<int> {
    Seq::new(s.len(), |k: int| spec_isqrt(s[k].re * s[k].re + s[k].im * s[k].im))
}

/// AM demodulation of one batch: envelope detection followed by removal of
/// the DC offset (the batch mean). The mean of the output is zero to within
/// one Q15 unit: the sum of all output samples lies in `[0, len)`.
pub fn demodulate_am(samples: &Vec<IqSample>) -> (r: Vec<i32>)
    requires
        iq_batch_in_range(samples@),
        samples@.len() < 0x1000_0000,
    ensures
        r@.len() == samples@.len(),
        samples@.len() > 0 ==> forall|k: int| 0 <= k < r@.len() ==> #[trigger] r@[k] as int
            == spec_envelope(samples@)[k] - seq_sum(spec_envelope(samples@)) / (
            samples@.len() as int),
        samples@.len() > 0 ==> 0 <= seq_sum(to_ints(r@)) < samples@.len(),
        bounded_by(to_ints(r@), 65536),
{
    let len = samples.len();
    let mut r: Vec<i32> = Vec::new();
    if len == 0 {
        return r;
    }
    let ghost env = spec_envelope(samples@);

    let mut magnitudes: Vec<i32> = Vec::new();
    let mut acc: i64 = 0;
    let mut k: usize = 0;
    while k < len
        invariant
            iq_batch_in_range(samples@),
            len == samples@.len(),
            0 < len < 0x1000_0000,
            env == spec_envelope(samples@),
            k <= len,
            magnitudes@.len() == k,
            forall|j: int| 0 <= j < k ==> #[trigger] magnitudes@[j] as int == env[j],
            forall|j: int| 0 <= j < k ==> 0 <= #[trigger] magnitudes@[j] <= 46340,
            acc == seq_sum(to_ints(magnitudes@)),
            0 <= acc <= (k as int) * 46340,
        decreases len - k,
    {
        let cur = samples[k];
        proof {
            assert(iq_in_range(samples@[k as int]));
            assert(0 <= (cur.re as int) * (cur.re as int) <= 0x4000_0000
                && 0 <= (cur.im as int) * (cur.im as int) <= 0x4000_0000)
                by (nonlinear_arith)
                requires iq_in_range(cur),
            ;
        }
        let magsq: u64 = ((cur.re as i64) * (cur.re as i64) + (cur.im as i64) * (cur.im as i64))
            as u64;
        let e = isqrt(magsq);
        proof {
            lemma_isqrt_unique(magsq as int, e as int);
            assert((e as int) * (e as int) <= 0x8000_0000);
            assert(e <= 46340) by (nonlinear_arith)
                requires (e as int) * (e as int) <= 0x8000_0000, e >= 0;
            let ghost m_before = to_ints(magnitudes@);
            assert(to_ints(magnitudes@.push(e as i32)) =~= m_before.push(e as int));
            lemma_seq_sum_push(m_before, e as int);
            assert((k as int) * 46340 + 46340 == (k + 1) * 46340) by (nonlinear_arith);
        }
        magnitudes.push(e as i32);
        acc = acc + (e as i64);
        k = k + 1;
    }

    proof {
        assert(to_ints(magnitudes@) =~= env);
    }
    let mean = div_trunc(acc, len as i64);
    proof {
        lemma_div_at_most(acc as int, len as int, 46340);
    }

    let ghost total = seq_sum(env);
    let mut i: usize = 0;
    while i < len
        invariant
            len == samples@.len(),
            0 < len < 0x1000_0000,
            env == spec_envelope(samples@),
            magnitudes@.len() == len,
            forall|j: int| 0 <= j < len ==> #[trigger] magnitudes@[j] as int == env[j],
            forall|j: int| 0 <= j < len ==> 0 <= #[trigger] magnitudes@[j] <= 46340,
            0 <= mean <= 46340,
            mean == total / (len as int),
            total == seq_sum(env),
            i <= len,
            r@.len() == i,
            forall|j: int| 0 <= j < i ==> #[trigger] r@[j] as int == env[j] - mean,
            bounded_by(to_ints(r@), 65536),
        decreases len - i,
    {
        let out = ((magnitudes[i] as i64) - mean) as i32;
        let ghost r_before = r@;
        r.push(out);
        proof {
            assert(to_ints(r@) =~= to_ints(r_before).push(out as int));
        }
        i = i + 1;
    }

    proof {
        assert(to_ints(r@) =~= env.map_values(|x: int| x - (total / (len as int))));
        lemma_seq_sum_shift(env, total / (len as int));
        vstd::arithmetic::div_mod::lemma_fundamental_div_mod(total, len as int);
        vstd::arithmetic::div_mod::lemma_mod_division_less_than_divisor(total, len as int);
        assert(seq_sum(to_ints(r@)) == total - (len as int) * (total / (len as int)));
    }
    r
}

/// The beat-frequency-oscillator phase at sample `k`: the BFO runs at 1.5
/// kHz over the assumed 48 kHz audio rate, one thirty-second of a turn
/// (2048 angle units) per sample.
pub open spec fn spec_bfo_phase(k: int) -> int {
    (2048 * k) % 65536
}

/// The SSB mix of a batch: each sample beaten against the oscillator. The
/// upper sideband takes `re cos - im sin`, the lower `re cos + im sin`.
pub open spec fn spec_ssb_mixed(s: Seq<IqSample>, upper: bool) -> Seq<int> {
    Seq::new(s.len(), |k: int| {
        let c = spec_cos_full(spec_bfo_phase(k));
        let sn = spec_sin_full(spec_bfo_phase(k));
        if upper {
            spec_tdiv(s[k].re * c - s[k].im * sn, 32768)
        } else {
            spec_tdiv(s[k].re * c + s[k].im * sn, 32768)
        }
    })
}

/// SSB demodulation of one batch: mix with the 1.5 kHz beat-frequency
/// oscillator (upper or lower sideband), then the moving-average lowpass of
/// window 4. One output sample per input sample.
pub fn demodulate_ssb(samples: &Vec<IqSample>, upper: bool) -> (r: Vec<i32>)
    requires
        iq_batch_in_range(samples@),
        samples@.len() < 0x1000_0000,
    ensures
        r@.len() == samples@.len(),
        forall|k: int| 0 <= k < r@.len() ==> #[trigger] r@[k] as int == spec_lowpassed(
            spec_ssb_mixed(samples@, upper),
            4,
        )[k],
        bounded_by(to_ints(r@), 65536),
{
    let len = samples.len();
    let mut mixed: Vec<i32> = Vec::new();
    let mut phase: u32 = 0;
    let mut k: usize = 0;
    while k < len
        invariant
            iq_batch_in_range(samples@),
            len == samples@.len(),
            len < 0x1000_0000,
            k <= len,
            mixed@.len() == k,
            phase < 65536,
            phase as int == spec_bfo_phase(k as int),
            forall|j: int| 0 <= j < k ==> #[trigger] mixed@[j] as int == spec_ssb_mixed(
                samples@,
                upper,
            )[j],
            bounded_by(to_ints(mixed@), 65536),
        decreases len - k,
    {
        let cur = samples[k];
        let c = cos_full(phase) as i64;
        let sn = sin_full(phase) as i64;
        proof {
            assert(iq_in_range(samples@[k as int]));
            assert(-0x4000_0000 <= (cur.re as int) * c <= 0x4000_0000 && -0x4000_0000 <= (
            cur.im as int) * sn <= 0x4000_0000) by (nonlinear_arith)
                requires
                    iq_in_range(cur),
                    -32768 <= c <= 32768,
                    -32768 <= sn <= 32768,
            ;
        }
        let num: i64 = if upper {
            (cur.re as i64) * c - (cur.im as i64) * sn
        } else {
            (cur.re as i64) * c + (cur.im as i64) * sn
        };
        let m = div_trunc(num, 32768);
        proof {
            if num >= 0 {
                lemma_div_at_most(num as int, 32768, 65536);
            } else {
                lemma_div_at_most(-num as int, 32768, 65536);
            }
            assert(m as int == spec_ssb_mixed(samples@, upper)[k as int]);
            let ghost m_before = mixed@;
            assert(to_ints(m_before.push(m as i32)) =~= to_ints(m_before).push(m as int));
        }
        mixed.push(m as i32);
        proof {
            vstd::arithmetic::div_mod::lemma_add_mod_noop(2048 * (k as int), 2048, 65536);
            vstd::arithmetic::div_mod::lemma_small_mod(2048nat, 65536nat);
            assert(2048 * (k + 1) == 2048 * (k as int) + 2048) by (nonlinear_arith);
            assert(((phase + 2048) as int) % 65536 == spec_bfo_phase(k + 1));
        }
        phase = (phase + 2048) % 65536;
        k = k + 1;
    }
    proof {
        assert(to_ints(mixed@) =~= spec_ssb_mixed(samples@, upper));
    }
    lowpass_filter(&mixed, 4)
}


/// Over a concatenation, the carried-reference discriminator factors
/// exactly: the first batch discriminates against the carried reference and
/// the second against the last sample of the first, so nothing is lost at
/// the seam.
pub proof fn lemma_pdisc_continuity(a: Seq<IqSample>, b: Seq<IqSample>, prev0: IqSample)
    requires
        a.len() > 0,
    ensures
        spec_pdisc(a + b, prev0) == spec_pdisc(a, prev0) + spec_pdisc(b, a.last()),
{
    let n = a.len() as int;
    assert forall|k: int| 0 <= k < n + b.len() implies spec_pdisc(a + b, prev0)[k] == (spec_pdisc(
        a,
        prev0,
    ) + spec_pdisc(b, a.last()))[k] by {
        if k < n {
            assert((a + b)[k] == a[k]);
            if k > 0 {
                assert((a + b)[k - 1] == a[k - 1]);
            }
        } else {
            assert((a + b)[k] == b[k - n]);
            if k == n {
                assert((a + b)[k - 1] == a[n - 1]);
            } else {
                assert((a + b)[k - 1] == b[k - n - 1]);
            }
        }
    }
    assert(spec_pdisc(a + b, prev0) =~= spec_pdisc(a, prev0) + spec_pdisc(b, a.last()));
}

/// Over a concatenation, the de-emphasis states inside the first batch
/// depend on the first batch alone.
pub proof fn lemma_deemph_carried_prefix(x: Seq<int>, y: Seq<int>, state0: int, alpha: int, k: int)
    requires
        0 <= k < x.len(),
    ensures
        spec_deemph_carried(x + y, state0, alpha, k) == spec_deemph_carried(x, state0, alpha, k),
    decreases k,
{
    assert((x + y)[k] == x[k]);
    if k > 0 {
        lemma_deemph_carried_prefix(x, y, state0, alpha, k - 1);
    }
}

/// The carried filter memory makes batch boundaries seamless for the
/// de-emphasis stage: filtering a second batch from the state the first one
/// left gives exactly the states of the two batches' concatenation. Losing
/// the carried state would break this continuity. (The moving average is
/// windowed within each batch, so continuity across calls is carried by the
/// discriminator reference and this filter memory.)
pub proof fn lemma_deemph_carried_continuity(
    x: Seq<int>,
    y: Seq<int>,
    state0: int,
    alpha: int,
    k: int,
)
    requires
        x.len() > 0,
        0 <= k < y.len(),
    ensures
        spec_deemph_carried(x + y, state0, alpha, x.len() + k) == spec_deemph_carried(
            y,
            spec_deemph_carried(x, state0, alpha, x.len() - 1),
            alpha,
            k,
        ),
    decreases k,
{
    let n = x.len() as int;
    assert((x + y)[n + k] == y[k]);
    if k == 0 {
        lemma_deemph_carried_prefix(x, y, state0, alpha, n - 1);
    } else {
        lemma_deemph_carried_continuity(x, y, state0, alpha, k - 1);
    }
}

} // verus!


