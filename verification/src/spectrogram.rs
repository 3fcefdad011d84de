//! The spectrogram's ring of columns.
//!
//! Each column holds [`NUM_SPECTRO_BINS`] normalized magnitudes, kept as
//! single-precision bit patterns. Columns are written round the ring; what was
//! written since the last upload is handed out as at most two contiguous spans.
use std::sync::Arc;
use std::sync::atomic::{AtomicU32, Ordering};

use vstd::prelude::*;

use crate::float_order::{clamp_unit, is_above64};
#[allow(unused_imports)]
use crate::float_order::{above64, unit_clamped};
#[allow(unused_imports)]
use crate::stereo::frame_pair;
use crate::stereo::stereo_frame;

verus! {

pub const NUM_SPECTRO_BINS: usize = 1024;

pub const DEFAULT_SPECTRO_COLS: usize = 2048;

pub const MIN_SPECTRO_COLS: usize = 128;

pub const MAX_SPECTRO_COLS: usize = 8192;

/// Samples per transform.
pub const FFT_SIZE: usize = 4096;

/// How long a new width has to stay before the ring follows it: 150 ms.
pub const RESIZE_SETTLE_NANOS: u64 = 150_000_000;

/// A column count that waits to be adopted, and since when.
#[derive(Debug, Clone, Copy, PartialEq, Eq, Structural)]
pub struct PendingResize {
    pub cols: usize,
    pub since: u64,
}

/// What a [`SpectrogramState`] holds, as mathematical values.
pub struct SpectrogramModel {
    /// All magnitudes, column after column.
    pub cells: Seq<u32>,
    /// The column that the next push overwrites: the oldest one.
    pub write_index: int,
    pub num_cols: int,
    pub pending: Option<PendingResize>,
    /// Whether the whole buffer has to be uploaded.
    pub full_upload: bool,
    /// Columns written since the last drain, `num_cols` at most.
    pub dirty: int,
}

/// The column count that fits a viewport of `px` pixels.
pub open spec fn cols_for_width(px: u32) -> int {
    if px < MIN_SPECTRO_COLS {
        MIN_SPECTRO_COLS as int
    } else if px > MAX_SPECTRO_COLS {
        MAX_SPECTRO_COLS as int
    } else {
        px as int
    }
}

/// The column that the cell at `i` belongs to.
pub open spec fn col_of(i: int) -> int {
    i / NUM_SPECTRO_BINS as int
}

/// The place of the cell at `i` in its column.
pub open spec fn bin_of(i: int) -> int {
    i % NUM_SPECTRO_BINS as int
}

impl SpectrogramModel {
    pub open spec fn wf(self) -> bool {
        &&& self.num_cols > 0
        &&& self.cells.len() == self.num_cols * NUM_SPECTRO_BINS <= usize::MAX
        &&& 0 <= self.write_index < self.num_cols
        &&& 0 <= self.dirty <= self.num_cols
    }

    /// The magnitudes of the column at `c` in the ring.
    pub open spec fn column(self, c: int) -> Seq<u32> {
        self.cells.subrange(c * NUM_SPECTRO_BINS, (c + 1) * NUM_SPECTRO_BINS)
    }

    /// Where the column stands that is `k` columns younger than the oldest.
    pub open spec fn slot(self, k: int) -> int {
        (self.write_index + k) % self.num_cols
    }

    /// All columns, oldest first.
    pub open spec fn history(self) -> Seq<Seq<u32>> {
        Seq::new(self.num_cols as nat, |k: int| self.column(self.slot(k)))
    }

    /// The state after `column` was written.
    pub open spec fn pushed(self, column: Seq<u32>) -> SpectrogramModel {
        SpectrogramModel {
            cells: Seq::new(
                self.cells.len(),
                |i: int|
                    if col_of(i) == self.write_index {
                        column[bin_of(i)]
                    } else {
                        self.cells[i]
                    },
            ),
            write_index: (self.write_index + 1) % self.num_cols,
            dirty: if self.dirty + 1 < self.num_cols {
                self.dirty + 1
            } else {
                self.num_cols
            },
            ..self
        }
    }

    /// The state with silence in every column.
    pub open spec fn cleared(self) -> SpectrogramModel {
        SpectrogramModel {
            cells: Seq::new(self.cells.len(), |i: int| 0u32),
            write_index: 0,
            full_upload: true,
            dirty: 0,
            ..self
        }
    }

    /// How many columns outlast a change to `new_cols` columns.
    pub open spec fn kept(self, new_cols: int) -> int {
        if self.num_cols < new_cols {
            self.num_cols
        } else {
            new_cols
        }
    }

    /// The state after a change to `new_cols` columns: the youngest columns
    /// that fit stand at the front, oldest first, and silence behind them.
    pub open spec fn resized(self, new_cols: int) -> SpectrogramModel {
        let keep = self.kept(new_cols);
        SpectrogramModel {
            cells: Seq::new(
                (new_cols * NUM_SPECTRO_BINS) as nat,
                |i: int|
                    if col_of(i) < keep {
                        self.column(self.slot(self.num_cols - keep + col_of(i)))[bin_of(i)]
                    } else {
                        0u32
                    },
            ),
            write_index: keep % new_cols,
            num_cols: new_cols,
            full_upload: true,
            dirty: 0,
            ..self
        }
    }

    /// Whether a change to `cols` columns is pending.
    pub open spec fn awaits(self, cols: int) -> bool {
        self.pending matches Some(pending) && pending.cols == cols
    }

    /// Whether a change to `cols` columns has been pending for long enough.
    pub open spec fn settled(self, cols: int, now: u64) -> bool {
        self.pending matches Some(pending) && pending.cols == cols && now - pending.since
            >= RESIZE_SETTLE_NANOS
    }

    /// The state after a poll that observed `px` pixels at time `now`.
    pub open spec fn polled(self, px: u32, now: u64) -> SpectrogramModel {
        let desired = cols_for_width(px);
        SpectrogramModel {
            pending: if px == 0 {
                self.pending
            } else if desired == self.num_cols || self.settled(desired, now) {
                None
            } else if self.awaits(desired) {
                self.pending
            } else {
                Some(PendingResize { cols: desired as usize, since: now })
            },
            ..self
        }
    }

    /// What a poll that observed `px` pixels at time `now` answers.
    pub open spec fn settled_cols(self, px: u32, now: u64) -> Option<usize> {
        let desired = cols_for_width(px);
        if px != 0 && desired != self.num_cols && self.settled(desired, now) {
            Some(desired as usize)
        } else {
            None
        }
    }

    /// The state after the dirty columns were drained.
    pub open spec fn drained(self) -> SpectrogramModel {
        SpectrogramModel {
            full_upload: self.full_upload || self.dirty == self.num_cols,
            dirty: 0,
            ..self
        }
    }

    /// The first dirty column in the ring.
    pub open spec fn dirty_start(self) -> int {
        self.slot(self.num_cols - self.dirty)
    }

    /// The spans that cover the dirty columns, each as its first column and its
    /// magnitudes: none when the backlog fills the ring, two when it wraps.
    pub open spec fn dirty_spans(self) -> Seq<(int, Seq<u32>)> {
        let start = self.dirty_start();
        let bins = NUM_SPECTRO_BINS as int;
        if self.dirty == 0 || self.dirty == self.num_cols {
            seq![]
        } else if start + self.dirty <= self.num_cols {
            seq![(start, self.cells.subrange(start * bins, (start + self.dirty) * bins))]
        } else {
            let second = start + self.dirty - self.num_cols;
            seq![
                (start, self.cells.subrange(start * bins, self.num_cols * bins)),
                (0, self.cells.subrange(0, second * bins)),
            ]
        }
    }
}

/// Magnitudes of consecutive columns that have to be uploaded.
#[derive(Debug, Clone)]
pub struct DirtySpan {
    pub start_col: usize,
    pub data: Vec<u32>,
}

impl View for DirtySpan {
    type V = (int, Seq<u32>);

    open spec fn view(&self) -> (int, Seq<u32>) {
        (self.start_col as int, self.data@)
    }
}

/// The views of the spans of a vector.
pub open spec fn span_views(spans: Seq<DirtySpan>) -> Seq<(int, Seq<u32>)> {
    Seq::new(spans.len(), |i: int| spans[i]@)
}

pub struct SpectrogramState {
    magnitudes: Vec<u32>,
    write_index: usize,
    num_cols: usize,
    observed_width_px: Arc<AtomicU32>,
    pending_resize: Option<PendingResize>,
    full_upload_needed: bool,
    dirty_count: usize,
}

impl View for SpectrogramState {
    type V = SpectrogramModel;

    closed spec fn view(&self) -> SpectrogramModel {
        SpectrogramModel {
            cells: self.magnitudes@,
            write_index: self.write_index as int,
            num_cols: self.num_cols as int,
            pending: self.pending_resize,
            full_upload: self.full_upload_needed,
            dirty: self.dirty_count as int,
        }
    }
}

proof fn lemma_wrap(a: int, n: int)
    requires
        0 <= a < 2 * n,
    ensures
        a % n == (if a < n {
            a
        } else {
            a - n
        }),
{
    if a < n {
        vstd::arithmetic::div_mod::lemma_small_mod(a as nat, n as nat);
    } else {
        vstd::arithmetic::div_mod::lemma_mod_sub_multiples_vanish(a, n);
        vstd::arithmetic::div_mod::lemma_small_mod((a - n) as nat, n as nat);
    }
}

/// A copy of `cells[from..to]`.
fn copy_range(cells: &Vec<u32>, from: usize, to: usize) -> (copy: Vec<u32>)
    requires
        from <= to <= cells@.len(),
    ensures
        copy@ == cells@.subrange(from as int, to as int),
{
    let mut copy: Vec<u32> = Vec::new();
    let mut i: usize = from;
    while i < to
        invariant
            from <= i <= to <= cells@.len(),
            copy@ == cells@.subrange(from as int, i as int),
        decreases to - i,
    {
        copy.push(cells[i]);
        i += 1;
        assert(copy@ == cells@.subrange(from as int, i as int));
    }
    copy
}

impl SpectrogramState {
    /// The handle through which the renderer reports the viewport's width.
    pub closed spec fn width_handle(&self) -> Arc<AtomicU32> {
        self.observed_width_px
    }

    /// A silent ring of the default size that has to be uploaded in full.
    pub fn new() -> (state: SpectrogramState)
        ensures
            state@ == (SpectrogramModel {
                cells: Seq::new(
                    (DEFAULT_SPECTRO_COLS * NUM_SPECTRO_BINS) as nat,
                    |i: int| 0u32,
                ),
                write_index: 0,
                num_cols: DEFAULT_SPECTRO_COLS as int,
                pending: None,
                full_upload: true,
                dirty: 0,
            }),
            state@.wf(),
    {
        let magnitudes: Vec<u32> = vec![0u32; DEFAULT_SPECTRO_COLS * NUM_SPECTRO_BINS];
        assert(magnitudes@ == Seq::new(
            (DEFAULT_SPECTRO_COLS * NUM_SPECTRO_BINS) as nat,
            |i: int| 0u32,
        ));
        SpectrogramState {
            magnitudes,
            write_index: 0,
            num_cols: DEFAULT_SPECTRO_COLS,
            observed_width_px: Arc::new(AtomicU32::new(0)),
            pending_resize: None,
            full_upload_needed: true,
            dirty_count: 0,
        }
    }

    /// Silences every column.
    pub fn clear(&mut self)
        requires
            old(self)@.wf(),
        ensures
            final(self)@ == old(self)@.cleared(),
            final(self)@.wf(),
            final(self).width_handle() == old(self).width_handle(),
    {
        let count: usize = self.magnitudes.len();
        let mut i: usize = 0;
        while i < count
            invariant
                i <= count == self.magnitudes@.len() == old(self)@.cells.len(),
                forall|j: int| 0 <= j < i ==> self.magnitudes@[j] == 0u32,
                self.write_index == old(self).write_index,
                self.num_cols == old(self).num_cols,
                self.observed_width_px == old(self).observed_width_px,
                self.pending_resize == old(self).pending_resize,
            decreases count - i,
        {
            self.magnitudes[i] = 0;
            i += 1;
        }
        self.write_index = 0;
        self.full_upload_needed = true;
        self.dirty_count = 0;
        assert(self@.cells == old(self)@.cleared().cells);
    }

    pub fn magnitudes(&self) -> (cells: &[u32])
        ensures
            cells@ == self@.cells,
    {
        self.magnitudes.as_slice()
    }

    pub fn write_index(&self) -> (index: usize)
        ensures
            index == self@.write_index,
    {
        self.write_index
    }

    pub fn num_cols(&self) -> (cols: usize)
        ensures
            cols == self@.num_cols,
    {
        self.num_cols
    }

    /// Returns `true`, and forgets it, if the full buffer needs uploading.
    pub fn take_full_upload_needed(&mut self) -> (needed: bool)
        ensures
            needed == old(self)@.full_upload,
            final(self)@ == (SpectrogramModel { full_upload: false, ..old(self)@ }),
            final(self).width_handle() == old(self).width_handle(),
    {
        let needed = self.full_upload_needed;
        self.full_upload_needed = false;
        needed
    }

    /// The handle through which the renderer reports the viewport's width.
    pub fn observed_width_handle(&self) -> (handle: Arc<AtomicU32>)
        ensures
            handle == self.width_handle(),
    {
        share_handle(&self.observed_width_px)
    }

    /// Writes the column of one transform and moves on to the next.
    ///
    /// `waveform_len` is the number of interleaved stereo samples that were
    /// transformed; with fewer than four frames of them nothing happens. Each of
    /// `levels` is limited to the range from `0.0` to `1.0`.
    pub fn push_fft(&mut self, waveform_len: usize, levels: &[u32])
        requires
            old(self)@.wf(),
            fft_frames(waveform_len) is Some ==> levels@.len() == NUM_SPECTRO_BINS,
        ensures
            final(self)@ == (if fft_frames(waveform_len) is Some {
                old(self)@.pushed(clamped_column(levels@))
            } else {
                old(self)@
            }),
            final(self)@.wf(),
            final(self).width_handle() == old(self).width_handle(),
    {
        if fft_input_frames(waveform_len).is_none() {
            return ;
        }
        let start: usize = self.write_index * NUM_SPECTRO_BINS;
        let ghost before = self.magnitudes@;
        let mut bin: usize = 0;
        while bin < NUM_SPECTRO_BINS
            invariant
                bin <= NUM_SPECTRO_BINS == levels@.len(),
                start == self.write_index * NUM_SPECTRO_BINS,
                start + NUM_SPECTRO_BINS <= before.len() == self.magnitudes@.len() <= usize::MAX,
                forall|i: int|
                    0 <= i < before.len() ==> self.magnitudes@[i] == (if start <= i < start + bin {
                        unit_clamped(levels@[i - start])
                    } else {
                        before[i]
                    }),
                self.write_index == old(self).write_index,
                self.num_cols == old(self).num_cols,
                self.observed_width_px == old(self).observed_width_px,
                self.pending_resize == old(self).pending_resize,
                self.full_upload_needed == old(self).full_upload_needed,
                self.dirty_count == old(self).dirty_count,
            decreases NUM_SPECTRO_BINS - bin,
        {
            self.magnitudes[start + bin] = clamp_unit(levels[bin]);
            bin += 1;
        }
        proof {
            let column = clamped_column(levels@);
            assert forall|i: int| 0 <= i < before.len() implies self.magnitudes@[i] == (if col_of(i)
                == self.write_index {
                column[bin_of(i)]
            } else {
                before[i]
            }) by {}
            assert(self.magnitudes@ == old(self)@.pushed(column).cells);
        }
        self.write_index = (self.write_index + 1) % self.num_cols;
        let dirty: usize = self.dirty_count + 1;
        self.dirty_count = if dirty < self.num_cols {
            dirty
        } else {
            self.num_cols
        };
    }

    /// Checks the observed viewport width. If it has settled on a new value, returns
    /// the new column count; otherwise returns `None`.
    ///
    /// `now` is a monotonic clock's reading in nanoseconds. The width is whatever
    /// the renderer reported last.
    pub fn poll_desired_cols(&mut self, now: u64) -> (desired: Option<usize>)
        ensures
            exists|px: u32|
                #![trigger cols_for_width(px)]
                final(self)@ == old(self)@.polled(px, now) && desired == old(self)@.settled_cols(
                    px,
                    now,
                ),
            final(self).width_handle() == old(self).width_handle(),
    {
        let px: u32 = self.observed_width_px.load(Ordering::Relaxed);
        let desired = self.poll_width(px, now);
        proof {
            let _ = cols_for_width(px);
        }
        desired
    }

    /// Checks a viewport width of `px` pixels; a width of 0 was never observed.
    pub fn poll_width(&mut self, px: u32, now: u64) -> (desired: Option<usize>)
        ensures
            final(self)@ == old(self)@.polled(px, now),
            desired == old(self)@.settled_cols(px, now),
            final(self).width_handle() == old(self).width_handle(),
    {
        if px == 0 {
            return None;
        }
        let px: usize = px as usize;
        let desired: usize = if px < MIN_SPECTRO_COLS {
            MIN_SPECTRO_COLS
        } else if px > MAX_SPECTRO_COLS {
            MAX_SPECTRO_COLS
        } else {
            px
        };
        if desired == self.num_cols {
            self.pending_resize = None;
            return None;
        }
        match self.pending_resize {
            Some(pending) if pending.cols == desired => {
                if now >= pending.since && now - pending.since >= RESIZE_SETTLE_NANOS {
                    self.pending_resize = None;
                    Some(desired)
                } else {
                    None
                }
            },
            _ => {
                self.pending_resize = Some(PendingResize { cols: desired, since: now });
                None
            },
        }
    }

    /// Resizes the ring to `new_cols` columns, preserving the most recent history.
    pub fn resize(&mut self, new_cols: usize)
        requires
            old(self)@.wf(),
            new_cols * NUM_SPECTRO_BINS <= usize::MAX,
        ensures
            final(self)@ == (if new_cols == old(self)@.num_cols || new_cols == 0 {
                old(self)@
            } else {
                old(self)@.resized(new_cols as int)
            }),
            final(self)@.wf(),
            final(self).width_handle() == old(self).width_handle(),
    {
        if new_cols == self.num_cols || new_cols == 0 {
            return ;
        }
        let old_cols: usize = self.num_cols;
        let keep: usize = if old_cols < new_cols {
            old_cols
        } else {
            new_cols
        };
        let ghost target = self@.resized(new_cols as int).cells;
        let mut cells: Vec<u32> = Vec::new();
        let mut col: usize = 0;
        while col < new_cols
            invariant
                *self == *old(self),
                self@.wf(),
                col <= new_cols,
                new_cols > 0,
                new_cols * NUM_SPECTRO_BINS <= usize::MAX,
                old_cols == self.num_cols,
                keep == self@.kept(new_cols as int),
                target == self@.resized(new_cols as int).cells,
                cells@ == target.subrange(0, col * NUM_SPECTRO_BINS),
            decreases new_cols - col,
        {
            let src_col: usize = if col < keep {
                (self.write_index + (old_cols - keep) + col) % old_cols
            } else {
                0
            };
            let mut bin: usize = 0;
            while bin < NUM_SPECTRO_BINS
                invariant
                    *self == *old(self),
                    self@.wf(),
                    col < new_cols,
                    bin <= NUM_SPECTRO_BINS,
                    keep == self@.kept(new_cols as int),
                    0 <= src_col < self@.num_cols,
                    col < keep ==> src_col == self@.slot(self@.num_cols - keep + col),
                    target == self@.resized(new_cols as int).cells,
                    cells@ == target.subrange(0, col * NUM_SPECTRO_BINS + bin),
                decreases NUM_SPECTRO_BINS - bin,
            {
                proof {
                    let i = col * NUM_SPECTRO_BINS + bin;
                    assert(col_of(i) == col && bin_of(i) == bin);
                    if col < keep {
                        assert(target[i] == self@.column(src_col as int)[bin as int]);
                    }
                    assert(target.subrange(0, i + 1) == target.subrange(0, i).push(target[i]));
                }
                if col < keep {
                    cells.push(self.magnitudes[src_col * NUM_SPECTRO_BINS + bin]);
                } else {
                    cells.push(0);
                }
                bin += 1;
            }
            col += 1;
        }
        assert(cells@ == target);
        self.magnitudes = cells;
        self.num_cols = new_cols;
        self.write_index = keep % new_cols;
        self.full_upload_needed = true;
        self.dirty_count = 0;
    }

    /// The column that was written last.
    pub fn latest_column_index(&self) -> (index: usize)
        requires
            self@.wf(),
        ensures
            index == self@.slot(self@.num_cols - 1),
    {
        proof {
            lemma_wrap(self@.write_index + self@.num_cols - 1, self@.num_cols);
        }
        if self.write_index == 0 {
            self.num_cols - 1
        } else {
            self.write_index - 1
        }
    }

    /// The magnitudes of the column that was written last.
    pub fn latest_column(&self) -> (column: &[u32])
        requires
            self@.wf(),
        ensures
            column@ == self@.history().last(),
    {
        let col: usize = self.latest_column_index();
        proof {
            lemma_wrap(self@.write_index + self@.num_cols - 1, self@.num_cols);
        }
        let start: usize = col * NUM_SPECTRO_BINS;
        &self.magnitudes.as_slice()[start..start + NUM_SPECTRO_BINS]
    }

    /// Drains the pending-column counter and returns up to two contiguous spans
    /// covering every column written since the last drain. If the backlog grew to
    /// `num_cols`, asks for a full upload instead and returns nothing.
    pub fn take_dirty_spans(&mut self) -> (spans: Vec<DirtySpan>)
        requires
            old(self)@.wf(),
        ensures
            span_views(spans@) == old(self)@.dirty_spans(),
            final(self)@ == old(self)@.drained(),
            final(self)@.wf(),
            final(self).width_handle() == old(self).width_handle(),
    {
        let count: usize = self.dirty_count;
        let num: usize = self.num_cols;
        let bins: usize = NUM_SPECTRO_BINS;
        self.dirty_count = 0;
        let mut spans: Vec<DirtySpan> = Vec::new();
        if count == 0 {
            assert(span_views(spans@) == old(self)@.dirty_spans());
            return spans;
        }
        if count >= num {
            // The backlog outran the ring, so every column may be stale: the
            // next frame uploads everything.
            self.full_upload_needed = true;
            assert(span_views(spans@) == old(self)@.dirty_spans());
            return spans;
        }
        let start: usize = (self.write_index + (num - count)) % num;
        if count <= num - start {
            let data = copy_range(&self.magnitudes, start * bins, (start + count) * bins);
            spans.push(DirtySpan { start_col: start, data });
        } else {
            let second: usize = count - (num - start);
            let tail = copy_range(&self.magnitudes, start * bins, num * bins);
            let head = copy_range(&self.magnitudes, 0, second * bins);
            spans.push(DirtySpan { start_col: start, data: tail });
            spans.push(DirtySpan { start_col: 0, data: head });
        }
        assert(span_views(spans@) == old(self)@.dirty_spans());
        spans
    }
}

/// The frames of a stereo waveform of `waveform_len` samples that enter a
/// transform; `None` if they are too few for one.
pub open spec fn fft_frames(waveform_len: usize) -> Option<int> {
    let frames = waveform_len as int / 2;
    if frames < 4 {
        None
    } else if frames > FFT_SIZE {
        Some(FFT_SIZE as int)
    } else {
        Some(frames)
    }
}

/// The frames of a stereo waveform of `waveform_len` samples that enter a
/// transform; the rest of its input is silence. `None` below four frames.
pub fn fft_input_frames(waveform_len: usize) -> (frames: Option<usize>)
    ensures
        (frames matches Some(n) ==> fft_frames(waveform_len) == Some(n as int)),
        frames is None ==> fft_frames(waveform_len) is None,
{
    let frames: usize = waveform_len / 2;
    if frames < 4 {
        None
    } else if frames > FFT_SIZE {
        Some(FFT_SIZE)
    } else {
        Some(frames)
    }
}

/// The input of a transform: the frames of the waveform that enter it, and silence
/// behind them.
pub open spec fn fft_frame_pairs<T>(waveform: Seq<T>, frames: int, silence: T) -> Seq<(T, T)> {
    Seq::new(
        FFT_SIZE as nat,
        |i: int|
            if i < frames {
                frame_pair(waveform, i)
            } else {
                (silence, silence)
            },
    )
}

/// The left and right samples that enter a transform, taken from an interleaved
/// stereo waveform and filled up with silence; `None` below four frames.
pub fn fft_input<T: Copy>(waveform: &[T], silence: T) -> (input: Option<Vec<(T, T)>>)
    ensures
        input is Some <==> fft_frames(waveform@.len() as usize) is Some,
        input matches Some(pairs) ==> pairs@ == fft_frame_pairs(
            waveform@,
            fft_frames(waveform@.len() as usize)->0,
            silence,
        ),
{
    let frames: usize = match fft_input_frames(waveform.len()) {
        Some(frames) => frames,
        None => {
            return None;
        },
    };
    let ghost all = fft_frame_pairs(waveform@, frames as int, silence);
    let mut pairs: Vec<(T, T)> = Vec::with_capacity(FFT_SIZE);
    let mut i: usize = 0;
    while i < FFT_SIZE
        invariant
            i <= FFT_SIZE,
            2 * frames <= waveform@.len(),
            all == fft_frame_pairs(waveform@, frames as int, silence),
            pairs@ == all.take(i as int),
        decreases FFT_SIZE - i,
    {
        if i < frames {
            pairs.push(stereo_frame(waveform, i));
        } else {
            pairs.push((silence, silence));
        }
        i += 1;
        assert(pairs@ =~= all.take(i as int));
    }
    assert(pairs@ =~= all);
    Some(pairs)
}

/// `1e-12` as a double: no bin is louder than this in a silent column.
pub const SILENT_MAGNITUDE: u64 = 0x3d71_9799_812d_ea11;

/// The louder of two magnitudes; a NaN is never the louder one.
pub open spec fn louder(peak: u64, magnitude: u64) -> u64 {
    if above64(magnitude, peak) {
        magnitude
    } else {
        peak
    }
}

/// The loudest magnitude of the two transform bins behind a spectrogram bin, if it
/// is audible.
pub open spec fn bin_peak(magnitudes: Seq<u64>, bin: int) -> Option<u64> {
    let peak = louder(louder(0, magnitudes[2 * bin]), magnitudes[2 * bin + 1]);
    if above64(peak, SILENT_MAGNITUDE) {
        Some(peak)
    } else {
        None
    }
}

/// Takes the loudest of each two neighboring magnitudes of a transform, which are
/// doubles; `None` stands for silence.
pub fn bin_peaks(magnitudes: &[u64]) -> (peaks: Vec<Option<u64>>)
    requires
        magnitudes@.len() >= FFT_SIZE / 2,
    ensures
        peaks@ == Seq::new(NUM_SPECTRO_BINS as nat, |bin: int| bin_peak(magnitudes@, bin)),
{
    let downsample: usize = FFT_SIZE / 2 / NUM_SPECTRO_BINS;
    let ghost all = Seq::new(NUM_SPECTRO_BINS as nat, |bin: int| bin_peak(magnitudes@, bin));
    let mut peaks: Vec<Option<u64>> = Vec::with_capacity(NUM_SPECTRO_BINS);
    let mut bin: usize = 0;
    while bin < NUM_SPECTRO_BINS
        invariant
            bin <= NUM_SPECTRO_BINS,
            downsample == 2,
            magnitudes@.len() >= FFT_SIZE / 2,
            all == Seq::new(NUM_SPECTRO_BINS as nat, |b: int| bin_peak(magnitudes@, b)),
            peaks@ == all.take(bin as int),
        decreases NUM_SPECTRO_BINS - bin,
    {
        let mut peak: u64 = 0;
        let mut j: usize = 0;
        while j < downsample
            invariant
                j <= downsample == 2,
                bin < NUM_SPECTRO_BINS,
                magnitudes@.len() >= FFT_SIZE / 2,
                peak == (if j == 0 {
                    0
                } else if j == 1 {
                    louder(0, magnitudes@[2 * bin])
                } else {
                    louder(louder(0, magnitudes@[2 * bin]), magnitudes@[2 * bin + 1])
                }),
            decreases downsample - j,
        {
            let magnitude: u64 = magnitudes[bin * downsample + j];
            if is_above64(magnitude, peak) {
                peak = magnitude;
            }
            j += 1;
        }
        if is_above64(peak, SILENT_MAGNITUDE) {
            peaks.push(Some(peak));
        } else {
            peaks.push(None);
        }
        bin += 1;
        assert(peaks@ =~= all.take(bin as int));
    }
    assert(peaks@ =~= all);
    peaks
}

/// A column with every level limited to the range from `0.0` to `1.0`.
pub open spec fn clamped_column(levels: Seq<u32>) -> Seq<u32> {
    Seq::new(levels.len(), |i: int| unit_clamped(levels[i]))
}

/// `Arc::clone`: another handle on the same counter.
#[verifier::external_body]
pub(crate) fn share_handle(handle: &Arc<AtomicU32>) -> (shared: Arc<AtomicU32>)
    ensures
        shared == *handle,
{
    Arc::clone(handle)
}

/// A column of silence.
pub open spec fn silent_column() -> Seq<u32> {
    Seq::new(NUM_SPECTRO_BINS as nat, |i: int| 0u32)
}

impl SpectrogramModel {
    /// Whether the column at `c` was written since the last drain.
    pub open spec fn is_dirty(self, c: int) -> bool {
        let start = self.dirty_start();
        if start + self.dirty <= self.num_cols {
            start <= c < start + self.dirty
        } else {
            c >= start || c < start + self.dirty - self.num_cols
        }
    }

    /// Whether `copy` agrees with the ring on every column that is not dirty.
    pub open spec fn mirrored_by(self, copy: Seq<u32>) -> bool {
        &&& copy.len() == self.cells.len()
        &&& forall|i: int|
            0 <= i < copy.len() && !self.is_dirty(col_of(i)) ==> copy[i] == self.cells[i]
    }
}

/// `copy` with the magnitudes of `span` written over it.
pub open spec fn with_span(copy: Seq<u32>, span: (int, Seq<u32>)) -> Seq<u32> {
    let offset = span.0 * NUM_SPECTRO_BINS;
    Seq::new(
        copy.len(),
        |i: int|
            if offset <= i < offset + span.1.len() {
                span.1[i - offset]
            } else {
                copy[i]
            },
    )
}

/// `copy` with all of `spans` written over it, in order.
pub open spec fn with_spans(copy: Seq<u32>, spans: Seq<(int, Seq<u32>)>) -> Seq<u32>
    decreases spans.len(),
{
    if spans.len() == 0 {
        copy
    } else {
        with_span(with_spans(copy, spans.drop_last()), spans.last())
    }
}

/// Writing a column drops the oldest one and appends the new one as the youngest.
pub proof fn law_push_appends(model: SpectrogramModel, column: Seq<u32>)
    requires
        model.wf(),
        column.len() == NUM_SPECTRO_BINS,
    ensures
        model.pushed(column).wf(),
        model.pushed(column).history() == model.history().drop_first().push(column),
{
    let after = model.pushed(column);
    let n = model.num_cols;
    lemma_wrap(model.write_index + 1, n);
    assert forall|k: int| 0 <= k < n implies after.history()[k]
        == model.history().drop_first().push(column)[k] by {
        lemma_wrap(after.write_index + k, n);
        if k < n - 1 {
            lemma_wrap(model.write_index + k + 1, n);
            assert(after.slot(k) == model.slot(k + 1));
            assert(after.slot(k) != model.write_index);
            assert(after.column(after.slot(k)) =~= model.column(model.slot(k + 1)));
        } else {
            assert(after.slot(k) == model.write_index);
            assert(after.column(after.slot(k)) =~= column);
        }
    }
    assert(after.history() =~= model.history().drop_first().push(column));
}

/// A resize keeps the youngest columns that fit, in their order; what is gained
/// counts as silence older than all of them.
pub proof fn law_resize_keeps_history(model: SpectrogramModel, new_cols: int)
    requires
        model.wf(),
        0 < new_cols,
        new_cols * NUM_SPECTRO_BINS <= usize::MAX,
    ensures
        model.resized(new_cols).wf(),
        model.resized(new_cols).history() == Seq::new(
            (new_cols - model.kept(new_cols)) as nat,
            |k: int| silent_column(),
        ) + model.history().skip(model.num_cols - model.kept(new_cols)),
{
    let after = model.resized(new_cols);
    let keep = model.kept(new_cols);
    let n = model.num_cols;
    let expected = Seq::new((new_cols - keep) as nat, |k: int| silent_column())
        + model.history().skip(n - keep);
    lemma_wrap(keep, new_cols);
    assert forall|k: int| 0 <= k < new_cols implies after.history()[k] == expected[k] by {
        lemma_wrap(after.write_index + k, new_cols);
        let c = after.slot(k);
        if k < new_cols - keep {
            assert(c == keep + k);
            assert(after.column(c) =~= silent_column());
        } else {
            let j = k - (new_cols - keep);
            assert(c == j);
            lemma_wrap(model.write_index + n - keep + j, n);
            assert(after.column(c) =~= model.column(model.slot(n - keep + j)));
        }
    }
    assert(after.history() =~= expected);
}

/// The most recent column survives every resize.
pub proof fn law_resize_keeps_latest(model: SpectrogramModel, new_cols: int)
    requires
        model.wf(),
        0 < new_cols,
        new_cols * NUM_SPECTRO_BINS <= usize::MAX,
    ensures
        model.resized(new_cols).history().last() == model.history().last(),
{
    law_resize_keeps_history(model, new_cols);
}

/// After a clear every column is silent and the ring is as long as before.
pub proof fn law_clear_silences(model: SpectrogramModel)
    requires
        model.wf(),
    ensures
        model.cleared().wf(),
        model.cleared().history() == Seq::new(model.num_cols as nat, |k: int| silent_column()),
{
    let after = model.cleared();
    assert forall|k: int| 0 <= k < model.num_cols implies after.history()[k]
        == silent_column() by {
        lemma_wrap(after.write_index + k, model.num_cols);
        assert(after.column(after.slot(k)) =~= silent_column());
    }
    assert(after.history() =~= Seq::new(model.num_cols as nat, |k: int| silent_column()));
}

/// A write makes exactly the written column dirty, and a copy that mirrored the
/// ring before still does.
pub proof fn law_push_marks_dirty(model: SpectrogramModel, column: Seq<u32>, copy: Seq<u32>)
    requires
        model.wf(),
        column.len() == NUM_SPECTRO_BINS,
        model.mirrored_by(copy),
    ensures
        forall|c: int|
            0 <= c < model.num_cols ==> (model.pushed(column).is_dirty(c) <==> model.is_dirty(c)
                || c == model.write_index),
        model.pushed(column).mirrored_by(copy),
{
    let after = model.pushed(column);
    let n = model.num_cols;
    lemma_wrap(model.write_index + 1, n);
    lemma_wrap(model.write_index + n - model.dirty, n);
    lemma_wrap(after.write_index + n - after.dirty, n);
}

/// Draining covers every column written since the last drain: unless the backlog
/// filled the ring, writing the spans over a copy that mirrored the ring makes it
/// equal to the ring; otherwise a full upload is asked for.
pub proof fn law_spans_refresh(model: SpectrogramModel, copy: Seq<u32>)
    requires
        model.wf(),
        model.mirrored_by(copy),
    ensures
        model.dirty < model.num_cols ==> with_spans(copy, model.dirty_spans()) == model.cells,
        model.dirty < model.num_cols ==> model.drained().mirrored_by(
            with_spans(copy, model.dirty_spans()),
        ),
        model.dirty == model.num_cols ==> model.dirty_spans().len() == 0
            && model.drained().full_upload,
{
    let n = model.num_cols;
    let spans = model.dirty_spans();
    lemma_wrap(model.write_index + n - model.dirty, n);
    if model.dirty < n {
        if spans.len() == 0 {
            assert(copy =~= model.cells);
        } else if spans.len() == 1 {
            assert(spans.drop_last() =~= seq![]);
            reveal_with_fuel(with_spans, 2);
            assert(with_spans(copy, spans) =~= model.cells);
        } else {
            assert(spans.drop_last() =~= seq![spans[0]]);
            assert(spans.drop_last().drop_last() =~= seq![]);
            reveal_with_fuel(with_spans, 3);
            assert(with_spans(copy, spans) =~= model.cells);
        }
        assert(with_spans(copy, spans) == model.cells);
    }
}

/// Every span lies inside the ring, no two overlap, there are at most two, and
/// together they hold as many columns as were written since the last drain.
pub proof fn law_spans_fit(model: SpectrogramModel)
    requires
        model.wf(),
    ensures
        model.dirty_spans().len() <= 2,
        forall|i: int|
            0 <= i < model.dirty_spans().len() ==> {
                let span = #[trigger] model.dirty_spans()[i];
                &&& 0 <= span.0
                &&& 0 < span.1.len()
                &&& span.0 * NUM_SPECTRO_BINS + span.1.len() <= model.cells.len()
            },
        model.dirty < model.num_cols && model.dirty_spans().len() == 1
            ==> model.dirty_spans()[0].1.len() == model.dirty * NUM_SPECTRO_BINS,
        model.dirty_spans().len() == 2 ==> {
            let (head, tail) = (model.dirty_spans()[1], model.dirty_spans()[0]);
            &&& head.0 * NUM_SPECTRO_BINS + head.1.len() <= tail.0 * NUM_SPECTRO_BINS
            &&& head.1.len() + tail.1.len() == model.dirty * NUM_SPECTRO_BINS
        },
{
    lemma_wrap(model.write_index + model.num_cols - model.dirty, model.num_cols);
}

/// Once a width is being waited for, polls that keep observing it answer nothing
/// until it has stayed for the settling time, and then its column count once.
pub proof fn law_poll_debounces(model: SpectrogramModel, px: u32, start: u64, now: u64)
    requires
        px != 0,
        cols_for_width(px) != model.num_cols,
        !model.awaits(cols_for_width(px)),
        start <= now,
    ensures
        model.settled_cols(px, start) is None,
        ({
            let armed = model.polled(px, start);
            &&& armed.settled_cols(px, now) == (if now - start >= RESIZE_SETTLE_NANOS {
                Some(cols_for_width(px) as usize)
            } else {
                None
            })
            &&& armed.settled_cols(px, now) is None ==> armed.polled(px, now) == armed
            &&& armed.settled_cols(px, now) is Some ==> armed.polled(px, now).pending is None
        }),
{
}

/// A column count is only ever offered inside the allowed range, and never the one
/// in use.
pub proof fn law_poll_clamps(model: SpectrogramModel, px: u32, now: u64)
    ensures
        model.settled_cols(px, now) matches Some(cols) ==> MIN_SPECTRO_COLS <= cols
            <= MAX_SPECTRO_COLS && cols != model.num_cols,
{
}

/// The peak of a bin is the louder one of the two magnitudes behind it: neither is
/// above it. A bin is silent exactly if neither is above `1e-12`.
pub proof fn law_bin_peak_is_the_louder(magnitudes: Seq<u64>, bin: int)
    requires
        0 <= 2 * bin < magnitudes.len() - 1,
    ensures
        ({
            let (first, second) = (magnitudes[2 * bin], magnitudes[2 * bin + 1]);
            match bin_peak(magnitudes, bin) {
                Some(peak) => {
                    &&& peak == first || peak == second
                    &&& above64(peak, 0x3d71_9799_812d_ea11)
                    &&& !above64(first, peak)
                    &&& !above64(second, peak)
                },
                None => !above64(first, 0x3d71_9799_812d_ea11) && !above64(
                    second,
                    0x3d71_9799_812d_ea11,
                ),
            }
        }),
{
}

/// The order of the two magnitudes does not matter to how loud their peak is.
pub proof fn law_bin_peak_ignores_order(magnitudes: Seq<u64>, swapped: Seq<u64>, bin: int)
    requires
        0 <= 2 * bin < magnitudes.len() - 1,
        swapped.len() == magnitudes.len(),
        swapped[2 * bin] == magnitudes[2 * bin + 1],
        swapped[2 * bin + 1] == magnitudes[2 * bin],
    ensures
        bin_peak(magnitudes, bin) == bin_peak(swapped, bin),
{
}

/// A transform takes as many whole frames as the waveform has, up to its length, and
/// happens exactly from four frames on.
pub proof fn law_frames_of_a_transform(waveform_len: usize)
    ensures
        match fft_frames(waveform_len) {
            Some(frames) => {
                &&& waveform_len >= 8
                &&& 4 <= frames <= 4096
                &&& 2 * frames <= waveform_len
                &&& frames < 4096 ==> waveform_len < 2 * (frames + 1)
            },
            None => waveform_len < 8,
        },
{
}

/// The input of a transform is the waveform's frames in order, left and right, and
/// silence behind them.
pub proof fn law_input_of_a_transform<T>(waveform: Seq<T>, frames: int, silence: T, i: int)
    requires
        0 <= 2 * frames <= waveform.len(),
        0 <= i < FFT_SIZE,
    ensures
        fft_frame_pairs(waveform, frames, silence).len() == 4096,
        i < frames ==> fft_frame_pairs(waveform, frames, silence)[i] == (
            waveform[2 * i],
            waveform[2 * i + 1],
        ),
        i >= frames ==> fft_frame_pairs(waveform, frames, silence)[i] == (silence, silence),
{
}

/// A column holds its levels as they are where they lie from `0.0` to `1.0`, and the
/// nearer end of that range where they do not.
pub proof fn law_column_holds_levels(levels: Seq<u32>, i: int)
    requires
        0 <= i < levels.len(),
    ensures
        clamped_column(levels).len() == levels.len(),
        levels[i] <= 0x3f80_0000 ==> clamped_column(levels)[i] == levels[i],
        0x3f80_0000 < levels[i] <= 0x7f80_0000 ==> clamped_column(levels)[i] == 0x3f80_0000,
        0x8000_0000 < levels[i] <= 0xff80_0000 ==> clamped_column(levels)[i] == 0,
{
}

/// What each operation leaves as it is, and where the next column goes.
pub proof fn law_operations_leave_the_rest(
    model: SpectrogramModel,
    column: Seq<u32>,
    new_cols: int,
    px: u32,
    now: u64,
)
    requires
        model.wf(),
        0 < new_cols,
    ensures
        ({
            let after = model.pushed(column);
            &&& after.num_cols == model.num_cols && after.pending == model.pending
            &&& after.full_upload == model.full_upload
            &&& model.write_index + 1 < model.num_cols ==> after.write_index == model.write_index
                + 1
            &&& model.write_index + 1 == model.num_cols ==> after.write_index == 0
            &&& model.dirty < model.num_cols ==> after.dirty == model.dirty + 1
            &&& model.dirty == model.num_cols ==> after.dirty == model.num_cols
        }),
        ({
            let after = model.cleared();
            &&& after.num_cols == model.num_cols && after.pending == model.pending
            &&& after.write_index == 0 && after.full_upload && after.dirty == 0
        }),
        ({
            let after = model.resized(new_cols);
            &&& after.num_cols == new_cols && after.pending == model.pending
            &&& after.full_upload && after.dirty == 0
            &&& after.cells.len() == new_cols * 1024
        }),
        ({
            let after = model.polled(px, now);
            &&& after.cells == model.cells && after.num_cols == model.num_cols
            &&& after.write_index == model.write_index
            &&& after.full_upload == model.full_upload && after.dirty == model.dirty
        }),
        ({
            let after = model.drained();
            &&& after.cells == model.cells && after.num_cols == model.num_cols
            &&& after.write_index == model.write_index && after.pending == model.pending
            &&& after.dirty == 0
            &&& after.full_upload <==> model.full_upload || model.dirty == model.num_cols
        }),
{
    lemma_wrap(model.write_index + 1, model.num_cols);
}

/// A write changes the column that it goes to and no other.
pub proof fn law_push_writes_one_column(model: SpectrogramModel, column: Seq<u32>, i: int)
    requires
        model.wf(),
        0 <= i < model.cells.len(),
        column.len() == NUM_SPECTRO_BINS,
    ensures
        model.write_index * 1024 <= i < (model.write_index + 1) * 1024 ==> model.pushed(
            column,
        ).cells[i] == column[i - model.write_index * 1024],
        !(model.write_index * 1024 <= i < (model.write_index + 1) * 1024) ==> model.pushed(
            column,
        ).cells[i] == model.cells[i],
{
}

/// A poll answers exactly if the observed width, inside the limits, is another one than
/// that in use and has been waited for at least 150 ms; the answer is that width.
pub proof fn law_poll_answers(model: SpectrogramModel, px: u32, now: u64, cols: usize)
    requires
        if px < 128 {
            cols == 128
        } else if px > 8192 {
            cols == 8192
        } else {
            cols == px
        },
    ensures
        ({
            let waited = model.pending matches Some(pending) && pending.cols == cols;
            let long = model.pending matches Some(pending) && now >= pending.since + 150_000_000;
            let answers = px != 0 && cols != model.num_cols && waited && long;
            &&& answers ==> model.settled_cols(px, now) == Some(cols)
            &&& !answers ==> model.settled_cols(px, now) is None
            &&& px == 0 ==> model.polled(px, now).pending == model.pending
            &&& px != 0 && cols == model.num_cols ==> model.polled(px, now).pending is None
            &&& answers ==> model.polled(px, now).pending is None
            &&& px != 0 && cols != model.num_cols && waited && !long ==> model.polled(
                px,
                now,
            ).pending == model.pending
            &&& px != 0 && cols != model.num_cols && !waited ==> (model.polled(
                px,
                now,
            ).pending matches Some(pending) && pending.cols == cols && pending.since == now)
        }),
{
}

} // verus!
