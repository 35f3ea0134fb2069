//! The processing stage's per-batch work, the bounded audio-delivery ring,
//! and the network audio path (PCM encoding and batch buffering).
//!
//! The caller's threads own the channel ends; everything here is the
//! decision and computation layer between them: what each batch becomes for
//! each mode, and how audio moves through a fixed-capacity buffer that drops
//! the newest sample rather than grow or block.

use vstd::prelude::*;

use crate::commands::DemodMode;
use crate::demod::{
    demodulate_am, demodulate_ssb, spec_envelope, spec_fm_persistent, spec_lowpassed,
    spec_ssb_mixed, FmDemodulator,
};
use crate::dspmath::{div_trunc, seq_sum, spec_tdiv};
use crate::sample::{audio_in_range, iq_batch_in_range, IqSample};
use crate::spectrum::{spec_bin_db, spec_windowed, FftProcessor};
use crate::{clamp_audio, spec_clamp_audio};

verus! {

/// What AM demodulation promises of its output batch.
pub open spec fn spec_am_output(s: Seq<IqSample>, out: Seq<i32>) -> bool {
    &&& out.len() == s.len()
    &&& s.len() > 0 ==> forall|k: int| 0 <= k < out.len() ==> #[trigger] out[k] as int
        == spec_envelope(s)[k] - seq_sum(spec_envelope(s)) / (s.len() as int)
}

/// What SSB demodulation promises of its output batch.
pub open spec fn spec_ssb_output(s: Seq<IqSample>, upper: bool, out: Seq<i32>) -> bool {
    &&& out.len() == s.len()
    &&& forall|k: int| 0 <= k < out.len() ==> #[trigger] out[k] as int == spec_lowpassed(
        spec_ssb_mixed(s, upper),
        4,
    )[k]
}

/// Demodulate one batch according to the current mode: the persistent FM
/// demodulators (narrowband for the narrow and packet modes, wideband for
/// wide FM) carry their state across batches; AM and the two sidebands are
/// pure per batch; raw visualization produces no audio. The demodulator the
/// mode does not use is left untouched.
pub fn demodulate_for_mode(
    samples: &Vec<IqSample>,
    mode: DemodMode,
    fm_narrow: &mut FmDemodulator,
    fm_wide: &mut FmDemodulator,
) -> (r: Option<Vec<i32>>)
    requires
        old(fm_narrow).wf(),
        old(fm_wide).wf(),
        iq_batch_in_range(samples@),
        samples@.len() < 0x1000_0000,
    ensures
        final(fm_narrow).wf(),
        final(fm_wide).wf(),
        r is None <==> mode == DemodMode::Raw,
        mode == DemodMode::FmNarrow || mode == DemodMode::Aprs || mode == DemodMode::Adsb
            ==> (r matches Some(a) && spec_fm_persistent(
            samples@,
            *old(fm_narrow),
            *final(fm_narrow),
            a@,
        ) && *final(fm_wide) == *old(fm_wide)),
        mode == DemodMode::FmWide ==> (r matches Some(a) && spec_fm_persistent(
            samples@,
            *old(fm_wide),
            *final(fm_wide),
            a@,
        ) && *final(fm_narrow) == *old(fm_narrow)),
        !matches!(mode, DemodMode::FmNarrow | DemodMode::Aprs | DemodMode::Adsb
            | DemodMode::FmWide) ==> *final(fm_narrow) == *old(fm_narrow) && *final(fm_wide)
            == *old(fm_wide),
        mode == DemodMode::Am ==> (r matches Some(a) && spec_am_output(samples@, a@)),
        mode == DemodMode::Usb ==> (r matches Some(a) && spec_ssb_output(samples@, true, a@)),
        mode == DemodMode::Lsb ==> (r matches Some(a) && spec_ssb_output(samples@, false, a@)),
{
    match mode {
        DemodMode::FmNarrow => Some(fm_narrow.demodulate(samples)),
        DemodMode::FmWide => Some(fm_wide.demodulate(samples)),
        DemodMode::Am => Some(demodulate_am(samples)),
        DemodMode::Usb => Some(demodulate_ssb(samples, true)),
        DemodMode::Lsb => Some(demodulate_ssb(samples, false)),
        DemodMode::Aprs => Some(fm_narrow.demodulate(samples)),
        DemodMode::Adsb => Some(fm_narrow.demodulate(samples)),
        DemodMode::Raw => None,
    }
}

/// One processing cycle's computation: the spectral row for the waterfall
/// and, for every mode but raw, the demodulated audio batch, advancing the
/// persistent demodulator the mode uses.
pub fn process_iq_batch(
    fft: &FftProcessor,
    fm_narrow: &mut FmDemodulator,
    fm_wide: &mut FmDemodulator,
    samples: &Vec<IqSample>,
    mode: DemodMode,
) -> (r: (Vec<i32>, Option<Vec<i32>>))
    requires
        fft.wf(),
        old(fm_narrow).wf(),
        old(fm_wide).wf(),
        iq_batch_in_range(samples@),
        samples@.len() < 0x1000_0000,
    ensures
        final(fm_narrow).wf(),
        final(fm_wide).wf(),
        r.0@.len() == fft.size,
        forall|k: int| 0 <= k < fft.size / 2 ==> #[trigger] r.0@[k] as int == spec_bin_db(
            spec_windowed(samples@, fft.window@, fft.size as int),
            fft.size as int,
            k + fft.size / 2,
        ),
        forall|k: int| fft.size / 2 <= k < fft.size ==> #[trigger] r.0@[k] as int == spec_bin_db(
            spec_windowed(samples@, fft.window@, fft.size as int),
            fft.size as int,
            k - fft.size / 2,
        ),
        r.1 is None <==> mode == DemodMode::Raw,
        mode == DemodMode::FmNarrow || mode == DemodMode::Aprs || mode == DemodMode::Adsb
            ==> (r.1 matches Some(a) && spec_fm_persistent(
            samples@,
            *old(fm_narrow),
            *final(fm_narrow),
            a@,
        ) && *final(fm_wide) == *old(fm_wide)),
        mode == DemodMode::FmWide ==> (r.1 matches Some(a) && spec_fm_persistent(
            samples@,
            *old(fm_wide),
            *final(fm_wide),
            a@,
        ) && *final(fm_narrow) == *old(fm_narrow)),
        mode == DemodMode::Am ==> (r.1 matches Some(a) && spec_am_output(samples@, a@)),
        mode == DemodMode::Usb ==> (r.1 matches Some(a) && spec_ssb_output(samples@, true, a@)),
        mode == DemodMode::Lsb ==> (r.1 matches Some(a) && spec_ssb_output(samples@, false, a@)),
{
    let row = fft.process(samples);
    let audio = demodulate_for_mode(samples, mode, fm_narrow, fm_wide);
    (row, audio)
}

/// Clamp a whole audio batch into the Q15 audio range before it is handed to
/// any sink.
pub fn clamp_audio_batch(samples: &Vec<i32>) -> (r: Vec<i32>)
    ensures
        r@.len() == samples@.len(),
        forall|k: int| 0 <= k < r@.len() ==> #[trigger] r@[k] as int == spec_clamp_audio(
            samples@[k] as int,
        ),
        audio_in_range(r@),
{
    let mut r: Vec<i32> = Vec::new();
    let mut k: usize = 0;
    while k < samples.len()
        invariant
            k <= samples@.len(),
            r@.len() == k,
            forall|j: int| 0 <= j < k ==> #[trigger] r@[j] as int == spec_clamp_audio(
                samples@[j] as int,
            ),
            audio_in_range(r@),
        decreases samples@.len() - k,
    {
        r.push(clamp_audio(samples[k] as i64));
        k = k + 1;
    }
    r
}

/// The fixed-capacity audio-delivery buffer between the processing stage and
/// the audio collaborator. It is first-in-first-out, never holds more than
/// its capacity, and when full it drops the offered sample (counting the
/// drop) rather than grow or block; an empty buffer hands out silence.
pub struct AudioRing {
    /// The buffered samples, oldest first.
    pub buf: Vec<i32>,
    /// The fixed capacity.
    pub capacity: usize,
    /// How many samples have been dropped against a full buffer.
    pub dropped: u64,
}

impl AudioRing {
    /// The buffer never exceeds its capacity.
    pub open spec fn inv(self) -> bool {
        &&& self.capacity >= 1
        &&& self.buf@.len() <= self.capacity
    }

    /// An empty buffer of the given fixed capacity.
    pub fn new(capacity: usize) -> (r: Self)
        requires
            capacity >= 1,
        ensures
            r.capacity == capacity,
            r.buf@.len() == 0,
            r.dropped == 0,
            r.inv(),
    {
        AudioRing { buf: Vec::new(), capacity, dropped: 0 }
    }

    /// Offer one sample: it is appended unless the buffer is full, in which
    /// case it is dropped and counted. The buffer never grows past its
    /// capacity.
    pub fn try_push(&mut self, sample: i32) -> (accepted: bool)
        requires
            old(self).inv(),
            old(self).dropped < u64::MAX,
        ensures
            final(self).inv(),
            final(self).capacity == old(self).capacity,
            accepted <==> old(self).buf@.len() < old(self).capacity,
            accepted ==> final(self).buf@ == old(self).buf@.push(sample) && final(self).dropped
                == old(self).dropped,
            !accepted ==> final(self).buf@ == old(self).buf@ && final(self).dropped == old(
                self,
            ).dropped + 1,
    {
        if self.buf.len() < self.capacity {
            self.buf.push(sample);
            true
        } else {
            self.dropped = self.dropped + 1;
            false
        }
    }

    /// Take the oldest sample, if any.
    pub fn try_pop(&mut self) -> (r: Option<i32>)
        requires
            old(self).inv(),
        ensures
            final(self).inv(),
            final(self).capacity == old(self).capacity,
            final(self).dropped == old(self).dropped,
            old(self).buf@.len() == 0 ==> r is None && final(self).buf@ == old(self).buf@,
            old(self).buf@.len() > 0 ==> r == Some(old(self).buf@[0]) && final(self).buf@ == old(
                self,
            ).buf@.drop_first(),
    {
        if self.buf.len() == 0 {
            None
        } else {
            let v = self.buf.remove(0);
            proof {
                assert(self.buf@ =~= old(self).buf@.drop_first());
            }
            Some(v)
        }
    }

    /// One sample for the audio collaborator: the oldest buffered sample, or
    /// silence when none is ready. Never blocks.
    pub fn pop_or_silence(&mut self) -> (r: i32)
        requires
            old(self).inv(),
        ensures
            final(self).inv(),
            final(self).capacity == old(self).capacity,
            old(self).buf@.len() == 0 ==> r == 0 && final(self).buf@ == old(self).buf@,
            old(self).buf@.len() > 0 ==> r == old(self).buf@[0] && final(self).buf@ == old(
                self,
            ).buf@.drop_first(),
    {
        match self.try_pop() {
            Some(v) => v,
            None => 0,
        }
    }

    /// How many samples are buffered.
    pub fn len(&self) -> (r: usize)
        ensures
            r == self.buf@.len(),
    {
        self.buf.len()
    }
}

/// A 16-bit PCM code for a Q15 audio value: clamped to [-1, 1] and scaled by
/// 32767; always within [-32767, 32767].
pub open spec fn spec_pcm16(x: int) -> int {
    spec_tdiv(spec_clamp_audio(x) * 32767, 32768)
}

/// Encode an audio batch as 16-bit signed little-endian PCM: two bytes per
/// sample, low byte first, each sample clamped before scaling.
pub fn pcm_encode(samples: &Vec<i32>) -> (r: Vec<u8>)
    requires
        samples@.len() < 0x1000_0000,
    ensures
        r@.len() == 2 * samples@.len(),
        forall|k: int| 0 <= k < samples@.len() ==> #[trigger] r@[2 * k] == (((spec_pcm16(
            samples@[k] as int,
        ) as i16) as u16) % 256) as u8 && r@[2 * k + 1] == (((spec_pcm16(samples@[k] as int)
            as i16) as u16) / 256) as u8,
{
    let mut r: Vec<u8> = Vec::new();
    let mut k: usize = 0;
    while k < samples.len()
        invariant
            samples@.len() < 0x1000_0000,
            k <= samples@.len(),
            r@.len() == 2 * k,
            forall|j: int| 0 <= j < k ==> #[trigger] r@[2 * j] == (((spec_pcm16(
                samples@[j] as int,
            ) as i16) as u16) % 256) as u8 && r@[2 * j + 1] == (((spec_pcm16(samples@[j] as int)
                as i16) as u16) / 256) as u8,
        decreases samples@.len() - k,
    {
        let clamped = clamp_audio(samples[k] as i64) as i64;
        let scaled = div_trunc(clamped * 32767, 32768);
        proof {
            if clamped >= 0 {
                crate::dspmath::lemma_div_at_most((clamped * 32767) as int, 32768, 32767);
            } else {
                crate::dspmath::lemma_div_at_most((-(clamped * 32767)) as int, 32768, 32767);
            }
            assert(-(32768 * 32767) <= clamped * 32767 <= 32768 * 32767) by (nonlinear_arith)
                requires -32768 <= clamped <= 32768;
        }
        let code = scaled as i16;
        let u = code as u16;
        r.push((u % 256) as u8);
        r.push((u / 256) as u8);
        k = k + 1;
    }
    r
}

/// The sink that feeds the network distribution channel: audio samples are
/// gathered into batches of a fixed size; a full batch is handed back to the
/// caller to send (non-blocking, drop-if-full) to the listeners.
pub struct StreamingSink {
    /// The samples gathered since the last batch was handed out.
    pub buffer: Vec<i32>,
    /// How many samples make a batch.
    pub batch_size: usize,
}

impl StreamingSink {
    /// An empty sink gathering batches of `batch_size` samples.
    pub fn new(batch_size: usize) -> (r: Self)
        requires
            batch_size >= 1,
        ensures
            r.batch_size == batch_size,
            r.buffer@.len() == 0,
    {
        StreamingSink { buffer: Vec::new(), batch_size }
    }

    /// Gather one sample; when it completes a batch, the whole batch is
    /// returned and the sink starts gathering the next one.
    pub fn push(&mut self, sample: i32) -> (r: Option<Vec<i32>>)
        requires
            old(self).buffer@.len() < old(self).batch_size,
        ensures
            final(self).batch_size == old(self).batch_size,
            old(self).buffer@.len() + 1 >= old(self).batch_size ==> (r matches Some(b)
                && b@ == old(self).buffer@.push(sample) && final(self).buffer@.len() == 0),
            old(self).buffer@.len() + 1 < old(self).batch_size ==> (r is None
                && final(self).buffer@ == old(self).buffer@.push(sample)),
            final(self).buffer@.len() < final(self).batch_size,
    {
        self.buffer.push(sample);
        if self.buffer.len() >= self.batch_size {
            let mut out: Vec<i32> = Vec::new();
            core::mem::swap(&mut out, &mut self.buffer);
            Some(out)
        } else {
            None
        }
    }

    /// Hand out whatever has been gathered, if anything; used at shutdown so
    /// no audio is stranded.
    pub fn flush(&mut self) -> (r: Option<Vec<i32>>)
        ensures
            final(self).batch_size == old(self).batch_size,
            final(self).buffer@.len() == 0,
            old(self).buffer@.len() == 0 ==> r is None,
            old(self).buffer@.len() > 0 ==> r == Some(old(self).buffer),
    {
        if self.buffer.len() == 0 {
            None
        } else {
            let mut out: Vec<i32> = Vec::new();
            core::mem::swap(&mut out, &mut self.buffer);
            Some(out)
        }
    }
}

} // verus!
