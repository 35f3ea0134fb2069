//! The spectral transform: a Hann window, a forward discrete Fourier
//! transform of fixed size, per-bin magnitude in hundredths of a dB with a
//! floor of -100 dB, and a shift that centers the zero-frequency bin.
//!
//! The transform length is fixed per instance; a shorter batch is
//! zero-padded and a longer one truncated, so the output row always has
//! exactly `size` bins.

use vstd::prelude::*;

use vstd::arithmetic::div_mod::{
    lemma_div_of0, lemma_div_pos_is_pos, lemma_fundamental_div_mod,
    lemma_mod_division_less_than_divisor,
};
use vstd::arithmetic::power2::{lemma2_to64, pow2};
use crate::dspmath::{
    cos_full, div_trunc, lemma_div_at_most, sin_full, spec_cos_full, spec_sin_full, spec_tdiv,
};
use crate::sample::{iq_batch_in_range, iq_in_range, IqSample};

verus! {

/// The magnitude floor: -100 dB, in hundredths of a dB.
pub const DB_FLOOR_CENTI: i32 = -10000;

/// Two to the power `e` (1 for nonpositive `e`).
pub open spec fn spec_pow2(e: int) -> int
    decreases e,
{
    if e <= 0 {
        1
    } else {
        2 * spec_pow2(e - 1)
    }
}

/// The floor of the base-two logarithm (0 for values below 2).
pub open spec fn spec_log2(n: int) -> int
    decreases n,
{
    if n < 2 {
        0
    } else {
        1 + spec_log2(n / 2)
    }
}

/// `spec_pow2` agrees with the library power-of-two function.
pub proof fn lemma_spec_pow2_is_pow2(e: nat)
    ensures
        spec_pow2(e as int) == pow2(e),
    decreases e,
{
    if e == 0 {
        lemma2_to64();
    } else {
        lemma_spec_pow2_is_pow2((e - 1) as nat);
        assert(pow2(e) == 2 * pow2((e - 1) as nat)) by {
            vstd::arithmetic::power2::lemma_pow2_adds(1, (e - 1) as nat);
            lemma2_to64();
        }
    }
}

/// The floor logarithm is the unique `b` with `2^b <= n < 2^(b+1)`.
pub proof fn lemma_log2_unique(n: int, b: int)
    requires
        b >= 0,
        spec_pow2(b) <= n < 2 * spec_pow2(b),
    ensures
        spec_log2(n) == b,
    decreases b,
{
    if b == 0 {
        assert(n == 1);
    } else {
        assert(spec_pow2(b) == 2 * spec_pow2(b - 1));
        assert(n >= 2);
        lemma_fundamental_div_mod(n, 2);
        lemma_mod_division_less_than_divisor(n, 2);
        assert(spec_pow2(b - 1) <= n / 2 < 2 * spec_pow2(b - 1));
        lemma_log2_unique(n / 2, b - 1);
    }
}

/// Magnitude squared to hundredths of a dB: `10 log10` approximated through
/// the binary logarithm with a linear correction between powers of two
/// (`10 log10(2) = 3.01`), referenced so that a magnitude of 1.0 in Q15
/// (squared: 2^30) is 0 dB; zero magnitude is the -100 dB floor.
pub open spec fn spec_db_centi(m: int) -> int {
    if m <= 0 {
        -10000
    } else {
        let b = spec_log2(m);
        let p = spec_pow2(b);
        301 * b + (301 * (m - p)) / p - 9030
    }
}

/// Magnitude squared to hundredths of a dB, executable. Always within
/// [-10000, 10240], and exactly the floor for zero magnitude.
pub fn db_centi(m: u64) -> (d: i32)
    ensures
        d == spec_db_centi(m as int),
        -10000 <= d <= 12000,
        m == 0 ==> d == -10000,
{
    if m == 0 {
        return -10000;
    }
    let mut b: u32 = 0;
    let mut p: u64 = 1;
    while p <= m / 2
        invariant
            m >= 1,
            p == spec_pow2(b as int),
            1 <= p <= m,
            b <= 63,
        decreases m - p,
    {
        proof {
            lemma_fundamental_div_mod(m as int, 2);
            lemma_mod_division_less_than_divisor(m as int, 2);
            if b >= 63 {
                lemma_spec_pow2_is_pow2(63);
                vstd::arithmetic::power2::lemma2_to64_rest();
                vstd::arithmetic::div_mod::lemma_div_is_ordered(
                    m as int,
                    0xffff_ffff_ffff_ffff,
                    2,
                );
                vstd::arithmetic::div_mod::lemma_fundamental_div_mod_converse(
                    0xffff_ffff_ffff_ffff,
                    2,
                    0x7fff_ffff_ffff_ffff,
                    1,
                );
                assert(false);
            }
        }
        p = 2 * p;
        b = b + 1;
    }
    proof {
        lemma_fundamental_div_mod(m as int, 2);
        lemma_mod_division_less_than_divisor(m as int, 2);
        assert(m < 2 * p);
        lemma_log2_unique(m as int, b as int);
    }
    let rem = m - p;
    let fracnum: u128 = 301u128 * (rem as u128);
    proof {
        assert(301 * (rem as int) <= (p as int) * 301) by (nonlinear_arith)
            requires 0 <= rem < p;
        lemma_div_at_most(301 * (rem as int), p as int, 301);
        lemma_div_pos_is_pos(301 * (rem as int), p as int);
    }
    let frac = (fracnum / (p as u128)) as u32;
    let d = 301 * (b as i32) + (frac as i32) - 9030;
    d
}

/// The Hann window coefficient at position `i` of a window of length `size`,
/// in Q15: `(1 - cos(2 pi i / (size - 1))) / 2`.
pub open spec fn spec_hann(size: int, i: int) -> int {
    ((32768 - spec_cos_full(((65536 * i) / (size - 1)) % 65536)) / 2)
}

/// The batch windowed to exactly `size` entries: each sample scaled by its
/// Hann coefficient, zero-padded past the end of the batch.
pub open spec fn spec_windowed(s: Seq<IqSample>, w: Seq<i32>, size: int) -> Seq<(int, int)> {
    Seq::new(size as nat, |j: int| if j < s.len() {
        (spec_tdiv(s[j].re * w[j], 32768), spec_tdiv(s[j].im * w[j], 32768))
    } else {
        (0int, 0int)
    })
}

/// The twiddle angle of input position `j` and bin `k`, in full-turn units:
/// `2 pi j k / size`.
pub open spec fn spec_twiddle_angle(size: int, j: int, k: int) -> int {
    (65536 * ((j * k) % size)) / size
}

/// The real part of bin `k`, summed over the first `n` windowed entries:
/// the dot product with `e^{-i 2 pi j k / size}`.
pub open spec fn spec_bin_re(x: Seq<(int, int)>, size: int, k: int, n: int) -> int
    decreases n,
{
    if n <= 0 {
        0
    } else {
        spec_bin_re(x, size, k, n - 1) + x[n - 1].0 * spec_cos_full(
            spec_twiddle_angle(size, n - 1, k),
        ) + x[n - 1].1 * spec_sin_full(spec_twiddle_angle(size, n - 1, k))
    }
}

/// The imaginary part of bin `k`, summed over the first `n` windowed entries.
pub open spec fn spec_bin_im(x: Seq<(int, int)>, size: int, k: int, n: int) -> int
    decreases n,
{
    if n <= 0 {
        0
    } else {
        spec_bin_im(x, size, k, n - 1) + x[n - 1].1 * spec_cos_full(
            spec_twiddle_angle(size, n - 1, k),
        ) - x[n - 1].0 * spec_sin_full(spec_twiddle_angle(size, n - 1, k))
    }
}

/// The level of bin `k` in hundredths of a dB: the bin sums normalized by
/// the transform length, squared and taken to the dB scale.
pub open spec fn spec_bin_db(x: Seq<(int, int)>, size: int, k: int) -> int {
    let re = spec_tdiv(spec_bin_re(x, size, k, size), size);
    let im = spec_tdiv(spec_bin_im(x, size, k, size), size);
    spec_db_centi(re * re + im * im)
}

/// A batch whose samples are all exactly zero.
pub open spec fn all_zero(s: Seq<IqSample>) -> bool {
    forall|j: int| 0 <= j < s.len() ==> (#[trigger] s[j]).re == 0 && s[j].im == 0
}

/// Windowing an all-zero batch gives all-zero entries.
pub proof fn lemma_windowed_zero(s: Seq<IqSample>, w: Seq<i32>, size: int)
    requires
        all_zero(s),
        size >= 0,
    ensures
        forall|j: int| 0 <= j < size ==> #[trigger] spec_windowed(s, w, size)[j] == (0int, 0int),
{
    assert forall|j: int| 0 <= j < size implies #[trigger] spec_windowed(s, w, size)[j] == (
    0int,
    0int,
    ) by {
        if j < s.len() {
            assert(s[j].re == 0 && s[j].im == 0);
            assert(s[j].re * w[j] == 0) by (nonlinear_arith)
                requires s[j].re == 0;
            assert(s[j].im * w[j] == 0) by (nonlinear_arith)
                requires s[j].im == 0;
            lemma_div_of0(32768);
        }
    }
}

/// Every bin sum over all-zero entries is zero.
pub proof fn lemma_bin_zero(x: Seq<(int, int)>, size: int, k: int, n: int)
    requires
        forall|j: int| 0 <= j < n ==> #[trigger] x[j] == (0int, 0int),
    ensures
        spec_bin_re(x, size, k, n) == 0,
        spec_bin_im(x, size, k, n) == 0,
    decreases n,
{
    if n > 0 {
        lemma_bin_zero(x, size, k, n - 1);
        let c = spec_cos_full(spec_twiddle_angle(size, n - 1, k));
        let sn = spec_sin_full(spec_twiddle_angle(size, n - 1, k));
        assert(x[n - 1].0 == 0 && x[n - 1].1 == 0);
        assert(x[n - 1].0 * c == 0 && x[n - 1].1 * sn == 0 && x[n - 1].1 * c == 0 && x[n - 1].0
            * sn == 0) by (nonlinear_arith)
            requires x[n - 1].0 == 0 && x[n - 1].1 == 0;
    }
}

/// The spectral transform of a fixed size: scratch state is just the
/// precomputed Hann window; each call runs a fresh forward transform.
pub struct FftProcessor {
    /// The transform length (number of bins); fixed per instance, even.
    pub size: usize,
    /// The precomputed Hann window coefficients, in Q15.
    pub window: Vec<i32>,
}

impl FftProcessor {
    /// The window matches the transform length and holds Q15 Hann
    /// coefficients.
    pub open spec fn wf(self) -> bool {
        &&& 2 <= self.size <= 8192
        &&& self.size % 2 == 0
        &&& self.window@.len() == self.size
        &&& forall|i: int| 0 <= i < self.size ==> 0 <= #[trigger] self.window@[i] <= 32768
        &&& forall|i: int| 0 <= i < self.size ==> #[trigger] self.window@[i] as int == spec_hann(
            self.size as int,
            i,
        )
    }

    /// A transform of length `size` (even, at most 8192), with its Hann
    /// window precomputed.
    pub fn new(size: usize) -> (r: Self)
        requires
            2 <= size <= 8192,
            size % 2 == 0,
        ensures
            r.size == size,
            r.wf(),
    {
        let mut window: Vec<i32> = Vec::new();
        let mut i: usize = 0;
        while i < size
            invariant
                2 <= size <= 8192,
                size % 2 == 0,
                i <= size,
                window@.len() == i,
                forall|j: int| 0 <= j < i ==> 0 <= #[trigger] window@[j] <= 32768,
                forall|j: int| 0 <= j < i ==> #[trigger] window@[j] as int == spec_hann(
                    size as int,
                    j,
                ),
            decreases size - i,
        {
            let a = ((65536u64 * (i as u64)) / ((size - 1) as u64)) % 65536;
            let c = cos_full(a as u32);
            let w = ((32768 - c) as u32) / 2;
            proof {
                lemma_div_pos_is_pos((32768 - c) as int, 2);
                lemma_div_at_most((32768 - c) as int, 2, 32768);
            }
            window.push(w as i32);
            i = i + 1;
        }
        FftProcessor { size, window }
    }

    /// The transform length.
    pub fn size(&self) -> (r: usize)
        ensures
            r == self.size,
    {
        self.size
    }

    /// Run the transform over one batch and return the magnitude row in
    /// hundredths of a dB, bins reordered so zero frequency is centered
    /// (bin `k` of the row is transform bin `(k + size/2) mod size`).
    ///
    /// The row always has exactly `size` entries, whatever the batch length;
    /// an all-zero batch yields a row entirely at the -100 dB floor.
    pub fn process(&self, samples: &Vec<IqSample>) -> (r: Vec<i32>)
        requires
            self.wf(),
            iq_batch_in_range(samples@),
        ensures
            r@.len() == self.size,
            forall|k: int| 0 <= k < self.size / 2 ==> #[trigger] r@[k] as int == spec_bin_db(
                spec_windowed(samples@, self.window@, self.size as int),
                self.size as int,
                k + self.size / 2,
            ),
            forall|k: int| self.size / 2 <= k < self.size ==> #[trigger] r@[k] as int
                == spec_bin_db(
                spec_windowed(samples@, self.window@, self.size as int),
                self.size as int,
                k - self.size / 2,
            ),
            forall|k: int| 0 <= k < self.size ==> -10000 <= #[trigger] r@[k] <= 12000,
            all_zero(samples@) ==> forall|k: int| 0 <= k < self.size ==> #[trigger] r@[k]
                == DB_FLOOR_CENTI,
    {
        let size = self.size;
        let ghost xs = spec_windowed(samples@, self.window@, size as int);

        // Window the first `size` samples, zero-padding past the batch end.
        let count = if samples.len() < size {
            samples.len()
        } else {
            size
        };
        let mut windowed: Vec<IqSample> = Vec::new();
        let mut j: usize = 0;
        while j < size
            invariant
                self.wf(),
                iq_batch_in_range(samples@),
                size == self.size,
                xs == spec_windowed(samples@, self.window@, size as int),
                count == if samples@.len() < size {
                    samples@.len() as int
                } else {
                    size as int
                },
                j <= size,
                windowed@.len() == j,
                forall|t: int| 0 <= t < j ==> #[trigger] windowed@[t].re as int == xs[t].0
                    && windowed@[t].im as int == xs[t].1,
                forall|t: int| 0 <= t < j ==> iq_in_range(#[trigger] windowed@[t]),
            decreases size - j,
        {
            if j < count {
                let s = samples[j];
                let w = self.window[j] as i64;
                proof {
                    assert(iq_in_range(samples@[j as int]));
                    assert(-(32768 * 32768) <= (s.re as int) * w && (s.re as int) * w <= 32768
                        * 32768 && -(32768 * 32768) <= (s.im as int) * w && (s.im as int) * w
                        <= 32768 * 32768) by (nonlinear_arith)
                        requires iq_in_range(s), 0 <= w <= 32768,
                    ;
                }
                let re = div_trunc((s.re as i64) * w, 32768);
                let im = div_trunc((s.im as i64) * w, 32768);
                proof {
                    if (s.re as i64) * w >= 0 {
                        lemma_div_at_most(((s.re as i64) * w) as int, 32768, 32768);
                    } else {
                        lemma_div_at_most((-((s.re as i64) * w)) as int, 32768, 32768);
                    }
                    if (s.im as i64) * w >= 0 {
                        lemma_div_at_most(((s.im as i64) * w) as int, 32768, 32768);
                    } else {
                        lemma_div_at_most((-((s.im as i64) * w)) as int, 32768, 32768);
                    }
                }
                windowed.push(IqSample { re: re as i32, im: im as i32 });
            } else {
                windowed.push(IqSample { re: 0, im: 0 });
            }
            j = j + 1;
        }

        // One bin at a time: correlate against the twiddle factors, scale by
        // the transform length, square, and take the dB scale.
        let mut bins: Vec<i32> = Vec::new();
        let mut k: usize = 0;
        while k < size
            invariant
                size == self.size,
                2 <= size <= 8192,
                xs == spec_windowed(samples@, self.window@, size as int),
                windowed@.len() == size,
                forall|t: int| 0 <= t < size ==> #[trigger] windowed@[t].re as int == xs[t].0
                    && windowed@[t].im as int == xs[t].1,
                forall|t: int| 0 <= t < size ==> iq_in_range(#[trigger] windowed@[t]),
                k <= size,
                bins@.len() == k,
                forall|t: int| 0 <= t < k ==> #[trigger] bins@[t] as int == spec_bin_db(
                    xs,
                    size as int,
                    t,
                ),
                forall|t: int| 0 <= t < k ==> -10000 <= #[trigger] bins@[t] <= 12000,
            decreases size - k,
        {
            let mut acc_re: i64 = 0;
            let mut acc_im: i64 = 0;
            let mut j2: usize = 0;
            while j2 < size
                invariant
                    size <= 8192,
                    xs == spec_windowed(samples@, self.window@, size as int),
                    windowed@.len() == size,
                    forall|t: int| 0 <= t < size ==> #[trigger] windowed@[t].re as int == xs[t].0
                        && windowed@[t].im as int == xs[t].1,
                    forall|t: int| 0 <= t < size ==> iq_in_range(#[trigger] windowed@[t]),
                    k < size,
                    j2 <= size,
                    acc_re == spec_bin_re(xs, size as int, k as int, j2 as int),
                    acc_im == spec_bin_im(xs, size as int, k as int, j2 as int),
                    -(j2 as int) * 0x8000_0000 <= acc_re <= (j2 as int) * 0x8000_0000,
                    -(j2 as int) * 0x8000_0000 <= acc_im <= (j2 as int) * 0x8000_0000,
                decreases size - j2,
            {
                proof {
                    assert((j2 as int) * (k as int) <= 8192 * 8192) by (nonlinear_arith)
                        requires 0 <= j2 <= 8192, 0 <= k <= 8192;
                }
                let jk = ((j2 as u64) * (k as u64)) % (size as u64);
                let a = (65536u64 * jk) / (size as u64);
                proof {
                    assert(65536 * (jk as int) < 65536 * (size as int)) by (nonlinear_arith)
                        requires jk < size;
                    vstd::arithmetic::div_mod::lemma_multiply_divide_lt(
                        65536 * (jk as int),
                        size as int,
                        65536,
                    );
                    lemma_div_pos_is_pos(65536 * (jk as int), size as int);
                }
                let c = cos_full(a as u32) as i64;
                let sn = sin_full(a as u32) as i64;
                let x = windowed[j2];
                proof {
                    assert(-0x4000_0000 <= (x.re as int) * c && (x.re as int) * c <= 0x4000_0000
                        && -0x4000_0000 <= (x.im as int) * sn && (x.im as int) * sn
                        <= 0x4000_0000 && -0x4000_0000 <= (x.im as int) * c && (x.im as int) * c
                        <= 0x4000_0000 && -0x4000_0000 <= (x.re as int) * sn && (x.re as int)
                        * sn <= 0x4000_0000) by (nonlinear_arith)
                        requires
                            iq_in_range(x),
                            -32768 <= c <= 32768,
                            -32768 <= sn <= 32768,
                    ;
                    assert((j2 as int) * 0x8000_0000 + 0x8000_0000 == (j2 + 1) * 0x8000_0000)
                        by (nonlinear_arith);
                }
                acc_re = acc_re + ((x.re as i64) * c + (x.im as i64) * sn);
                acc_im = acc_im + ((x.im as i64) * c - (x.re as i64) * sn);
                j2 = j2 + 1;
            }
            proof {
                assert((size as int) * 0x8000_0000 <= 8192 * 0x8000_0000) by (nonlinear_arith)
                    requires size <= 8192;
            }
            let m_re = div_trunc(acc_re, size as i64);
            let m_im = div_trunc(acc_im, size as i64);
            proof {
                assert((size as int) * 0x8000_0000 >= (j2 as int) * 0x8000_0000)
                    by (nonlinear_arith)
                    requires j2 <= size;
                if acc_re >= 0 {
                    lemma_div_at_most(acc_re as int, size as int, 0x8000_0000int);
                } else {
                    lemma_div_at_most((-acc_re) as int, size as int, 0x8000_0000int);
                }
                if acc_im >= 0 {
                    lemma_div_at_most(acc_im as int, size as int, 0x8000_0000int);
                } else {
                    lemma_div_at_most((-acc_im) as int, size as int, 0x8000_0000int);
                }
                assert(0 <= m_re * m_re <= 0x4000_0000_0000_0000 && 0 <= m_im * m_im
                    <= 0x4000_0000_0000_0000) by (nonlinear_arith)
                    requires
                        -0x8000_0000 <= m_re <= 0x8000_0000,
                        -0x8000_0000 <= m_im <= 0x8000_0000,
                ;
            }
            let magsq: u64 = ((m_re * m_re) as u64) + ((m_im * m_im) as u64);
            let d = db_centi(magsq);
            bins.push(d);
            k = k + 1;
        }

        // Shift: the second half of the bins (negative frequencies) comes
        // first, so zero frequency sits at the center of the row.
        let half = size / 2;
        let mut r: Vec<i32> = Vec::new();
        let mut t: usize = half;
        while t < size
            invariant
                size == self.size,
                2 <= size <= 8192,
                size % 2 == 0,
                half == size / 2,
                bins@.len() == size,
                forall|u: int| 0 <= u < size ==> #[trigger] bins@[u] as int == spec_bin_db(
                    xs,
                    size as int,
                    u,
                ),
                forall|u: int| 0 <= u < size ==> -10000 <= #[trigger] bins@[u] <= 12000,
                half <= t <= size,
                r@.len() == t - half,
                forall|u: int| 0 <= u < t - half ==> #[trigger] r@[u] == bins@[u + half],
            decreases size - t,
        {
            r.push(bins[t]);
            t = t + 1;
        }
        let mut t2: usize = 0;
        while t2 < half
            invariant
                size == self.size,
                2 <= size <= 8192,
                size % 2 == 0,
                half == size / 2,
                bins@.len() == size,
                forall|u: int| 0 <= u < size ==> #[trigger] bins@[u] as int == spec_bin_db(
                    xs,
                    size as int,
                    u,
                ),
                forall|u: int| 0 <= u < size ==> -10000 <= #[trigger] bins@[u] <= 12000,
                t2 <= half,
                r@.len() == size - half + t2,
                forall|u: int| 0 <= u < size - half ==> #[trigger] r@[u] == bins@[u + half],
                forall|u: int| size - half <= u < size - half + t2 ==> #[trigger] r@[u] == bins@[
                    u - (size - half)],
            decreases half - t2,
        {
            r.push(bins[t2]);
            t2 = t2 + 1;
        }

        proof {
            lemma_fundamental_div_mod(size as int, 2);
            assert(size - half == half);
            if all_zero(samples@) {
                lemma_windowed_zero(samples@, self.window@, size as int);
                assert forall|u: int| 0 <= u < size implies #[trigger] bins@[u]
                    == DB_FLOOR_CENTI by {
                    lemma_bin_zero(xs, size as int, u, size as int);
                    lemma_div_of0(size as int);
                    assert(spec_tdiv(0, size as int) == 0);
                    assert(spec_bin_db(xs, size as int, u) == spec_db_centi(0));
                }
            }
        }
        r
    }
}

/// Normalize a dB row into Q15 fractions of the display range: each value is
/// clamped to `[min_db, max_db]` and scaled so the bottom of the range is 0
/// and the top is 32768.
pub fn normalize_fft(data: &Vec<i32>, min_db: i32, max_db: i32) -> (r: Vec<i32>)
    requires
        -100_000 <= min_db < max_db <= 100_000,
    ensures
        r@.len() == data@.len(),
        forall|k: int| 0 <= k < r@.len() ==> #[trigger] r@[k] as int == {
            let clamped = if data@[k] < min_db {
                min_db as int
            } else if data@[k] > max_db {
                max_db as int
            } else {
                data@[k] as int
            };
            ((clamped - min_db) * 32768) / (max_db - min_db)
        },
        forall|k: int| 0 <= k < r@.len() ==> 0 <= #[trigger] r@[k] <= 32768,
{
    let mut r: Vec<i32> = Vec::new();
    let mut k: usize = 0;
    let span = (max_db as i64) - (min_db as i64);
    while k < data.len()
        invariant
            -100_000 <= min_db < max_db <= 100_000,
            span == max_db - min_db,
            k <= data@.len(),
            r@.len() == k,
            forall|j: int| 0 <= j < k ==> #[trigger] r@[j] as int == {
                let clamped = if data@[j] < min_db {
                    min_db as int
                } else if data@[j] > max_db {
                    max_db as int
                } else {
                    data@[j] as int
                };
                ((clamped - min_db) * 32768) / (max_db - min_db)
            },
            forall|j: int| 0 <= j < k ==> 0 <= #[trigger] r@[j] <= 32768,
        decreases data@.len() - k,
    {
        let v = data[k];
        let clamped: i64 = if v < min_db {
            min_db as i64
        } else if v > max_db {
            max_db as i64
        } else {
            v as i64
        };
        let scalednum = (clamped - (min_db as i64)) * 32768;
        proof {
            assert(0 <= (clamped - min_db) * 32768 <= span * 32768) by (nonlinear_arith)
                requires 0 <= clamped - min_db <= span;
            lemma_div_at_most(((clamped - (min_db as int)) * 32768) as int, span as int, 32768);
            lemma_div_pos_is_pos(((clamped - (min_db as int)) * 32768) as int, span as int);
        }
        let out = (scalednum / span) as i32;
        r.push(out);
        k = k + 1;
    }
    r
}

} // verus!
