//! The shared receiver state: device configuration, spectrum display and
//! waterfall history, decode state, recording state, and interface state.
//!
//! One value of [`AppState`] is shared by every stage of the receiver behind
//! a single exclusive lock owned by the caller; the lock is held only for the
//! duration of a single read or write, and no signal processing happens while
//! it is held.

use vstd::prelude::*;
use vstd::pervasive::VecAdditionalExecFns;

use crate::clock::now_unix_millis;
use crate::commands::DemodMode;
use crate::types::DecodedMessage;

verus! {

/// Tuner device state, mirrored from the hardware after each successful
/// configuration call.
pub struct SdrState {
    /// Center frequency in Hz.
    pub frequency: u32,
    /// Sample rate in Hz.
    pub sample_rate: u32,
    /// Tuner gain in tenths of dB; -1 selects automatic gain.
    pub tuner_gain: i32,
    /// Whether automatic gain control is active.
    pub auto_gain: bool,
    /// Frequency correction in parts per million.
    pub ppm_error: i32,
    /// Whether acquisition is running.
    pub is_running: bool,
    /// Serial number of the opened device, if known.
    pub device_serial: Option<String>,
}

impl Default for SdrState {
    /// Hardware-safe startup defaults.
    fn default() -> (r: Self)
        ensures
            r.frequency == crate::config::DEFAULT_FREQUENCY,
            r.sample_rate == crate::config::DEFAULT_SAMPLE_RATE,
            r.tuner_gain == crate::config::AUTO_GAIN,
            r.auto_gain == true,
            r.ppm_error == 0,
            r.is_running == false,
            r.device_serial is None,
    {
        SdrState {
            frequency: 144_390_000,
            sample_rate: 2_048_000,
            tuner_gain: -1,
            auto_gain: true,
            ppm_error: 0,
            is_running: false,
            device_serial: None,
        }
    }
}

/// The waterfall rows of `w` as mathematical sequences.
pub open spec fn rows_of(w: Seq<Vec<i32>>) -> Seq<Seq<i32>> {
    Seq::new(w.len(), |i: int| w[i]@)
}

/// Appending a row to the waterfall appends its sequence to the model.
pub proof fn lemma_rows_of_push(w: Seq<Vec<i32>>, x: Vec<i32>)
    ensures
        rows_of(w.push(x)) == rows_of(w).push(x@),
{
    assert(rows_of(w.push(x)) =~= rows_of(w).push(x@));
}

/// Overwriting a waterfall slot updates the same slot of the model.
pub proof fn lemma_rows_of_update(w: Seq<Vec<i32>>, i: int, x: Vec<i32>)
    requires
        0 <= i < w.len(),
    ensures
        rows_of(w.update(i, x)) == rows_of(w).update(i, x@),
{
    assert(rows_of(w.update(i, x)) =~= rows_of(w).update(i, x@));
}

/// A waterfall row of `width` silent bins.
pub open spec fn zero_row(width: nat) -> Seq<i32> {
    Seq::new(width, |j: int| 0i32)
}

/// The waterfall a fresh ring starts from: `cap` rows of `width` silent bins.
pub open spec fn seeded_rows(cap: nat, width: nat) -> Seq<Seq<i32>> {
    Seq::new(cap, |i: int| zero_row(width))
}

/// The rows of a ring in display order (oldest first): everything from the
/// next-write index to the end, then everything before the next-write index.
pub open spec fn ring_display(rows: Seq<Seq<i32>>, idx: int) -> Seq<Seq<i32>> {
    rows.subrange(idx, rows.len() as int) + rows.subrange(0, idx)
}

/// The ring contents and next-write index after the rows of `history` have
/// been added, oldest first, to a fresh ring of capacity `cap` seeded with
/// silent rows of width `width`.
pub open spec fn ring_state(cap: nat, width: nat, history: Seq<Seq<i32>>) -> (Seq<Seq<i32>>, int)
    decreases history.len(),
{
    if history.len() == 0 {
        (seeded_rows(cap, width), 0)
    } else {
        let prev = ring_state(cap, width, history.drop_last());
        (prev.0.update(prev.1, history.last()), (prev.1 + 1) % (cap as int))
    }
}

/// Spectrum analyzer and waterfall state. The waterfall is a fixed-capacity
/// circular history of magnitude rows with a next-write index; the newest
/// row always overwrites the oldest.
pub struct SpectrumState {
    /// The latest magnitude row, in hundredths of a dB.
    pub fft_data: Vec<i32>,
    /// The circular waterfall history.
    pub waterfall: Vec<Vec<i32>>,
    /// The slot the next row will be written to.
    pub waterfall_index: usize,
    /// The fixed capacity of the waterfall history.
    pub max_waterfall_history: usize,
}

impl Default for SpectrumState {
    /// An empty spectrum with an unallocated waterfall of capacity 500.
    fn default() -> (r: Self)
        ensures
            r.fft_data@.len() == 0,
            r.rows().len() == 0,
            r.waterfall_index == 0,
            r.max_waterfall_history == 500,
            r.inv(),
    {
        SpectrumState {
            fft_data: Vec::new(),
            waterfall: Vec::new(),
            waterfall_index: 0,
            max_waterfall_history: 500,
        }
    }
}

impl SpectrumState {
    /// The waterfall rows as mathematical sequences.
    pub open spec fn rows(self) -> Seq<Seq<i32>> {
        rows_of(self.waterfall@)
    }

    /// Well-formedness: the ring is either still unallocated, or it holds
    /// exactly its capacity in rows and the write index is a valid slot.
    pub open spec fn inv(self) -> bool {
        (self.rows().len() == 0 && self.waterfall_index == 0) || (self.rows().len()
            == self.max_waterfall_history && self.waterfall_index < self.rows().len())
    }

    /// The waterfall in display order, oldest row first.
    pub open spec fn display(self) -> Seq<Seq<i32>> {
        ring_display(self.rows(), self.waterfall_index as int)
    }

    /// Record a new magnitude row: it becomes the latest row and overwrites
    /// the oldest waterfall slot. On the first row the ring is allocated at
    /// its full capacity, seeded with silent rows.
    pub fn add_fft_data(&mut self, data: Vec<i32>)
        requires
            old(self).inv(),
        ensures
            final(self).inv(),
            final(self).fft_data@ == data@,
            final(self).max_waterfall_history == old(self).max_waterfall_history,
            old(self).max_waterfall_history == 0 && old(self).rows().len() == 0
                ==> final(self).rows().len() == 0 && final(self).waterfall_index == 0,
            old(self).max_waterfall_history > 0 || old(self).rows().len() > 0 ==> {
                let base = if old(self).rows().len() == 0 {
                    seeded_rows(old(self).max_waterfall_history as nat, data@.len())
                } else {
                    old(self).rows()
                };
                &&& final(self).rows() == base.update(old(self).waterfall_index as int, data@)
                &&& final(self).waterfall_index == (old(self).waterfall_index + 1) % (
                base.len() as int)
            },
    {
        let ghost base: Seq<Seq<i32>> = if old(self).rows().len() == 0 {
            seeded_rows(old(self).max_waterfall_history as nat, data@.len())
        } else {
            old(self).rows()
        };
        let width = data.len();
        let row = copy_row(&data);
        self.fft_data = data;

        if self.waterfall.is_empty() {
            let mut fresh: Vec<Vec<i32>> = Vec::new();
            let mut i: usize = 0;
            while i < self.max_waterfall_history
                invariant
                    i <= self.max_waterfall_history,
                    rows_of(fresh@) == seeded_rows(i as nat, width as nat),
                decreases self.max_waterfall_history - i,
            {
                let mut z: Vec<i32> = Vec::new();
                let mut j: usize = 0;
                while j < width
                    invariant
                        j <= width,
                        z@ == zero_row(j as nat),
                    decreases width - j,
                {
                    z.push(0);
                    proof {
                        assert(z@ =~= zero_row((j + 1) as nat));
                    }
                    j = j + 1;
                }
                proof {
                    lemma_rows_of_push(fresh@, z);
                    assert(rows_of(fresh@).push(z@) =~= seeded_rows((i + 1) as nat, width as nat));
                }
                fresh.push(z);
                i = i + 1;
            }
            self.waterfall = fresh;
        }
        proof {
            assert(self.rows() == base);
        }

        if self.waterfall_index < self.waterfall.len() {
            let idx = self.waterfall_index;
            proof {
                lemma_rows_of_update(self.waterfall@, idx as int, row);
            }
            self.waterfall.set(idx, row);
            self.waterfall_index = (idx + 1) % self.waterfall.len();
        }
    }

    /// The waterfall in display order, oldest row first: rows from the
    /// next-write slot to the end, then rows from the start up to the
    /// next-write slot.
    pub fn get_waterfall_display(&self) -> (r: Vec<Vec<i32>>)
        requires
            self.inv(),
        ensures
            rows_of(r@) == self.display(),
    {
        let mut result: Vec<Vec<i32>> = Vec::new();
        let n = self.waterfall.len();
        let mut i: usize = self.waterfall_index;
        while i < n
            invariant
                self.inv(),
                n == self.rows().len(),
                self.waterfall_index <= i <= n,
                rows_of(result@) == self.rows().subrange(self.waterfall_index as int, i as int),
            decreases n - i,
        {
            let r2 = copy_row(&self.waterfall[i]);
            proof {
                lemma_rows_of_push(result@, r2);
                assert(rows_of(result@).push(r2@) =~= self.rows().subrange(
                    self.waterfall_index as int,
                    (i + 1) as int,
                ));
            }
            result.push(r2);
            i = i + 1;
        }
        let mut k: usize = 0;
        while k < self.waterfall_index
            invariant
                self.inv(),
                n == self.rows().len(),
                k <= self.waterfall_index,
                rows_of(result@) == self.rows().subrange(
                    self.waterfall_index as int,
                    n as int,
                ) + self.rows().subrange(0, k as int),
            decreases self.waterfall_index - k,
        {
            let r2 = copy_row(&self.waterfall[k]);
            proof {
                lemma_rows_of_push(result@, r2);
                assert(rows_of(result@).push(r2@) =~= self.rows().subrange(
                    self.waterfall_index as int,
                    n as int,
                ) + self.rows().subrange(0, (k + 1) as int));
            }
            result.push(r2);
            k = k + 1;
        }
        proof {
            assert(rows_of(result@) =~= self.display());
        }
        result
    }
}

/// An element-for-element copy of a magnitude row.
pub fn copy_row(v: &Vec<i32>) -> (r: Vec<i32>)
    ensures
        r@ == v@,
{
    let mut r: Vec<i32> = Vec::new();
    let mut i: usize = 0;
    while i < v.len()
        invariant
            i <= v@.len(),
            r@ =~= v@.subrange(0, i as int),
        decreases v@.len() - i,
    {
        r.push(v[i]);
        proof {
            assert(r@ =~= v@.subrange(0, (i + 1) as int));
        }
        i = i + 1;
    }
    proof {
        assert(r@ =~= v@);
    }
    r
}

/// After one row is added to a full ring, the display order drops its oldest
/// row and gains the new row at the end.
pub proof fn lemma_ring_step(rows: Seq<Seq<i32>>, idx: int, row: Seq<i32>)
    requires
        0 <= idx < rows.len(),
    ensures
        ring_display(rows.update(idx, row), (idx + 1) % (rows.len() as int)) == ring_display(
            rows,
            idx,
        ).drop_first().push(row),
{
    let n = rows.len() as int;
    let updated = rows.update(idx, row);
    if idx + 1 == n {
        assert((idx + 1) % n == 0) by (nonlinear_arith)
            requires idx + 1 == n && n > 0;
        assert(ring_display(updated, 0) =~~= ring_display(rows, idx).drop_first().push(row));
    } else {
        assert((idx + 1) % n == idx + 1) by (nonlinear_arith)
            requires 0 <= idx + 1 < n;
        assert(ring_display(updated, idx + 1) =~~= ring_display(rows, idx).drop_first().push(row));
    }
}

/// After the rows of `history` are added, oldest first, to a fresh ring of
/// capacity `cap`, the display order is the last `cap` rows of the seeded
/// rows followed by `history`.
pub proof fn lemma_ring_history(cap: nat, width: nat, history: Seq<Seq<i32>>)
    requires
        cap > 0,
    ensures
        ring_state(cap, width, history).0.len() == cap,
        0 <= ring_state(cap, width, history).1 < cap,
        ring_display(ring_state(cap, width, history).0, ring_state(cap, width, history).1) == (
        seeded_rows(cap, width) + history).subrange(
            history.len() as int,
            history.len() + cap as int,
        ),
    decreases history.len(),
{
    if history.len() == 0 {
        assert(ring_display(seeded_rows(cap, width), 0) =~~= (seeded_rows(cap, width)
            + history).subrange(0, cap as int));
    } else {
        let h = history.drop_last();
        lemma_ring_history(cap, width, h);
        let prev = ring_state(cap, width, history.drop_last());
        lemma_ring_step(prev.0, prev.1, history.last());
        assert(ring_display(prev.0, prev.1).drop_first().push(history.last()) =~~= (seeded_rows(
            cap,
            width,
        ) + history).subrange(history.len() as int, history.len() + cap as int));
    }
}

/// The waterfall ring, after receiving at least `cap` rows, retains exactly
/// the `cap` most recent rows, oldest discarded first, in insertion order.
pub proof fn lemma_waterfall_retains_recent(cap: nat, width: nat, history: Seq<Seq<i32>>)
    requires
        cap > 0,
        history.len() >= cap,
    ensures
        ring_display(ring_state(cap, width, history).0, ring_state(cap, width, history).1)
            == history.subrange(history.len() - cap, history.len() as int),
{
    lemma_ring_history(cap, width, history);
    assert((seeded_rows(cap, width) + history).subrange(
        history.len() as int,
        history.len() + cap as int,
    ) =~~= history.subrange(history.len() - cap, history.len() as int));
}

/// Digital decode state: the current mode and a bounded list of decoded
/// messages, oldest evicted first once capacity is reached.
pub struct DecoderState {
    /// The current demodulation mode.
    pub mode: DemodMode,
    /// The most recent decoded messages, oldest first.
    pub messages: Vec<DecodedMessage>,
    /// How many messages are kept before the oldest is evicted.
    pub max_messages: usize,
}

impl Default for DecoderState {
    fn default() -> (r: Self)
        ensures
            r.mode == DemodMode::FmNarrow,
            r.messages@.len() == 0,
            r.max_messages == 100,
    {
        DecoderState { mode: DemodMode::FmNarrow, messages: Vec::new(), max_messages: 100 }
    }
}

impl DecoderState {
    /// Append a decoded message; if the list would exceed its capacity, the
    /// oldest message is evicted.
    pub fn add_message(&mut self, message: DecodedMessage)
        requires
            old(self).messages@.len() < usize::MAX,
        ensures
            final(self).mode == old(self).mode,
            final(self).max_messages == old(self).max_messages,
            final(self).messages@ == if old(self).messages@.len() + 1 > old(self).max_messages {
                old(self).messages@.push(message).drop_first()
            } else {
                old(self).messages@.push(message)
            },
    {
        self.messages.push(message);
        if self.messages.len() > self.max_messages {
            self.messages.remove(0);
            proof {
                assert(self.messages@ =~= old(self).messages@.push(message).drop_first());
            }
        }
    }

    /// Discard every decoded message.
    pub fn clear_messages(&mut self)
        ensures
            final(self).mode == old(self).mode,
            final(self).max_messages == old(self).max_messages,
            final(self).messages@.len() == 0,
    {
        self.messages.clear();
    }
}

/// Raw-capture recording state.
pub struct RecordingState {
    /// Whether recording is active.
    pub is_recording: bool,
    /// The capture file path while recording.
    pub file_path: Option<String>,
    /// How many samples have been written so far.
    pub samples_recorded: u64,
    /// When recording started, in milliseconds since the Unix epoch.
    pub start_time: Option<i64>,
}

impl Default for RecordingState {
    fn default() -> (r: Self)
        ensures
            r.is_recording == false,
            r.file_path is None,
            r.samples_recorded == 0,
            r.start_time is None,
    {
        RecordingState {
            is_recording: false,
            file_path: None,
            samples_recorded: 0,
            start_time: None,
        }
    }
}

impl RecordingState {
    /// Begin recording to `path`, resetting the sample counter and stamping
    /// the start time from the wall clock.
    pub fn start(&mut self, path: String)
        ensures
            final(self).is_recording == true,
            final(self).file_path == Some(path),
            final(self).samples_recorded == 0,
            final(self).start_time is Some,
    {
        self.is_recording = true;
        self.file_path = Some(path);
        self.samples_recorded = 0;
        self.start_time = Some(now_unix_millis());
    }

    /// Stop recording; the sample counter keeps its final value.
    pub fn stop(&mut self)
        ensures
            final(self).is_recording == false,
            final(self).file_path is None,
            final(self).start_time is None,
            final(self).samples_recorded == old(self).samples_recorded,
    {
        self.is_recording = false;
        self.file_path = None;
        self.start_time = None;
    }
}

/// Interface state.
pub struct UiState {
    /// The control the interface currently has selected.
    pub selected_control: ControlId,
    /// The status-bar text.
    pub status_message: String,
    /// Whether the application should exit.
    pub should_quit: bool,
}

impl Default for UiState {
    fn default() -> (r: Self)
        ensures
            r.selected_control == ControlId::Frequency,
            r.status_message@ == "Ready"@,
            r.should_quit == false,
    {
        UiState {
            selected_control: ControlId::Frequency,
            status_message: String::from_str("Ready"),
            should_quit: false,
        }
    }
}

/// The controls the interface can select, in cycling order.
#[derive(Debug, Clone, Copy, PartialEq, Eq, Structural)]
pub enum ControlId {
    Frequency,
    Mode,
    Gain,
    SampleRate,
    Record,
}

/// The control after `c` in the cycle.
pub open spec fn spec_next_control(c: ControlId) -> ControlId {
    match c {
        ControlId::Frequency => ControlId::Mode,
        ControlId::Mode => ControlId::Gain,
        ControlId::Gain => ControlId::SampleRate,
        ControlId::SampleRate => ControlId::Record,
        ControlId::Record => ControlId::Frequency,
    }
}

impl ControlId {
    /// Every control, in cycling order.
    pub fn all() -> (r: Vec<ControlId>)
        ensures
            r@ == seq![
                ControlId::Frequency, ControlId::Mode, ControlId::Gain, ControlId::SampleRate,
                ControlId::Record,
            ],
    {
        let mut v: Vec<ControlId> = Vec::new();
        v.push(ControlId::Frequency);
        v.push(ControlId::Mode);
        v.push(ControlId::Gain);
        v.push(ControlId::SampleRate);
        v.push(ControlId::Record);
        proof {
            assert(v@ =~= seq![
                ControlId::Frequency, ControlId::Mode, ControlId::Gain, ControlId::SampleRate,
                ControlId::Record,
            ]);
        }
        v
    }

    /// The next control in the cycle.
    pub fn next(&self) -> (r: Self)
        ensures
            r == spec_next_control(*self),
    {
        match self {
            ControlId::Frequency => ControlId::Mode,
            ControlId::Mode => ControlId::Gain,
            ControlId::Gain => ControlId::SampleRate,
            ControlId::SampleRate => ControlId::Record,
            ControlId::Record => ControlId::Frequency,
        }
    }

    /// The previous control in the cycle; the inverse of `next`.
    pub fn prev(&self) -> (r: Self)
        ensures
            spec_next_control(r) == *self,
    {
        match self {
            ControlId::Frequency => ControlId::Record,
            ControlId::Mode => ControlId::Frequency,
            ControlId::Gain => ControlId::Mode,
            ControlId::SampleRate => ControlId::Gain,
            ControlId::Record => ControlId::SampleRate,
        }
    }
}

/// No control is its own successor and no two controls share one, so with
/// the contract of `prev` (whose result's successor is its argument), `prev`
/// inverts `next` and cycling visits every control.
pub proof fn lemma_control_cycle_round_trip(c: ControlId)
    ensures
        spec_next_control(c) != c,
        forall|d: ControlId| spec_next_control(d) == spec_next_control(c) ==> d == c,
{
}

/// The whole shared receiver state: one record, one lock (owned by the
/// caller), mutated by the control path and read by every stage.
pub struct AppState {
    pub sdr: SdrState,
    pub spectrum: SpectrumState,
    pub decoder: DecoderState,
    pub recording: RecordingState,
    pub ui: UiState,
}

impl Default for AppState {
    fn default() -> (r: Self)
        ensures
            r.sdr.frequency == crate::config::DEFAULT_FREQUENCY,
            r.sdr.sample_rate == crate::config::DEFAULT_SAMPLE_RATE,
            r.spectrum.inv(),
            r.decoder.mode == DemodMode::FmNarrow,
            r.recording.is_recording == false,
            r.ui.should_quit == false,
    {
        AppState {
            sdr: SdrState::default(),
            spectrum: SpectrumState::default(),
            decoder: DecoderState::default(),
            recording: RecordingState::default(),
            ui: UiState::default(),
        }
    }
}

} // verus!
