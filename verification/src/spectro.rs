//! The spectrogram display.
use std::sync::Arc;
use std::sync::atomic::AtomicU32;

use vstd::prelude::*;

use crate::spectrogram::{DirtySpan, NUM_SPECTRO_BINS, share_handle};
#[allow(unused_imports)]
use crate::spectrogram::{
    SpectrogramModel, law_spans_fit, law_spans_refresh, span_views, with_span, with_spans,
};
use crate::upload::{UploadStep, memory_of};
#[allow(unused_imports)]
use crate::upload::{PlannedStep, follows, storage_after, storage_after_step, writes_fit};

verus! {

/// Bytes of the uniform buffer: eight words.
pub const SPECTRO_UNIFORM_BYTES: u64 = 32;

/// Bytes of one column in the storage buffer.
pub const COLUMN_BYTES: usize = 4096;

/// The shader's parameters; `width`, `height` and `sample_rate` are
/// single-precision bit patterns.
#[derive(Debug, Clone, Copy)]
pub struct SpectroUniforms {
    pub width: u32,
    pub height: u32,
    pub num_bins: u32,
    pub num_columns: u32,
    pub write_index: u32,
    pub sample_rate: u32,
}

impl View for SpectroUniforms {
    type V = Seq<u32>;

    /// The words of the uniform buffer, padded to eight.
    open spec fn view(&self) -> Seq<u32> {
        seq![
            self.width,
            self.height,
            self.num_bins,
            self.num_columns,
            self.write_index,
            self.sample_rate,
            0u32,
            0u32,
        ]
    }
}

/// A frame of the spectrogram: the whole ring, or the spans that changed.
#[derive(Debug)]
pub struct SpectroPrimitive {
    pub uniforms: SpectroUniforms,
    pub dirty: Vec<DirtySpan>,
    pub num_cols: usize,
    pub full_upload: Option<Vec<u32>>,
    pub observed_width_px: Arc<AtomicU32>,
}

/// What the spectrogram shows; the sample rate and the magnitudes are
/// single-precision bit patterns.
#[derive(Debug)]
pub struct SpectroProgram {
    pub dirty: Vec<DirtySpan>,
    pub write_index: usize,
    pub sample_rate: u32,
    pub full_upload: Option<Vec<u32>>,
    pub num_cols: usize,
    pub observed_width_px: Arc<AtomicU32>,
}

/// The magnitudes of a full upload, if there is one.
pub open spec fn full_view(full_upload: Option<Vec<u32>>) -> Option<Seq<u32>> {
    match full_upload {
        Some(cells) => Some(cells@),
        None => None,
    }
}

fn copy_spans(spans: &Vec<DirtySpan>) -> (copy: Vec<DirtySpan>)
    ensures
        span_views(copy@) == span_views(spans@),
{
    let mut copy: Vec<DirtySpan> = Vec::new();
    let mut i: usize = 0;
    while i < spans.len()
        invariant
            i <= spans@.len(),
            copy@.len() == i,
            forall|j: int| 0 <= j < i ==> copy@[j]@ == spans@[j]@,
        decreases spans@.len() - i,
    {
        let data = spans[i].data.clone();
        assert(data@ =~= spans@[i as int].data@);
        copy.push(DirtySpan { start_col: spans[i].start_col, data });
        i += 1;
    }
    assert(span_views(copy@) =~= span_views(spans@));
    copy
}

impl SpectroProgram {
    /// The shader's parameters for bounds of `width` by `height`.
    pub open spec fn uniforms(self, width: u32, height: u32) -> SpectroUniforms {
        SpectroUniforms {
            width,
            height,
            num_bins: NUM_SPECTRO_BINS as u32,
            num_columns: self.num_cols as u32,
            write_index: self.write_index as u32,
            sample_rate: self.sample_rate,
        }
    }

    /// The frame for bounds of `width` by `height`.
    pub fn draw(&self, width: u32, height: u32) -> (primitive: SpectroPrimitive)
        ensures
            primitive.uniforms == self.uniforms(width, height),
            span_views(primitive.dirty@) == span_views(self.dirty@),
            primitive.num_cols == self.num_cols,
            full_view(primitive.full_upload) == full_view(self.full_upload),
            primitive.observed_width_px == self.observed_width_px,
    {
        let full_upload = match &self.full_upload {
            Some(cells) => {
                let copy = cells.clone();
                assert(copy@ =~= cells@);
                Some(copy)
            },
            None => None,
        };
        SpectroPrimitive {
            uniforms: SpectroUniforms {
                width,
                height,
                num_bins: NUM_SPECTRO_BINS as u32,
                num_columns: self.num_cols as u32,
                write_index: self.write_index as u32,
                sample_rate: self.sample_rate,
            },
            dirty: copy_spans(&self.dirty),
            num_cols: self.num_cols,
            full_upload,
            observed_width_px: share_handle(&self.observed_width_px),
        }
    }
}

/// The write that brings a span's columns up to date.
pub open spec fn span_write(span: (int, Seq<u32>)) -> PlannedStep {
    PlannedStep::WriteStorage { offset: span.0 * COLUMN_BYTES, words: span.1 }
}

/// The step that makes the storage buffer fit `num_cols` columns, given how many
/// columns the one in place has room for: none if it fits already.
pub open spec fn storage_setup(capacity: Option<usize>, num_cols: int) -> Seq<PlannedStep> {
    let storage_bytes = num_cols * COLUMN_BYTES;
    match capacity {
        None => seq![
            PlannedStep::BuildPipeline {
                uniform_bytes: SPECTRO_UNIFORM_BYTES as int,
                storage_bytes,
            },
        ],
        Some(cols) => if cols == num_cols {
            seq![]
        } else {
            seq![PlannedStep::ReplaceStorage { storage_bytes }]
        },
    }
}

/// The writes of a frame: the whole ring if it is given, else span by span.
pub open spec fn cell_writes(
    full: Option<Seq<u32>>,
    spans: Seq<(int, Seq<u32>)>,
) -> Seq<PlannedStep> {
    match full {
        Some(cells) => seq![PlannedStep::WriteStorage { offset: 0, words: cells }],
        None => Seq::new(spans.len(), |i: int| span_write(spans[i])),
    }
}

impl SpectroPrimitive {
    /// The steps that a frame takes.
    pub open spec fn plan(self, observed_px: u32, capacity: Option<usize>) -> Seq<PlannedStep> {
        seq![PlannedStep::ReportWidth { px: observed_px as int }] + storage_setup(
            capacity,
            self.num_cols as int,
        ) + seq![
            PlannedStep::WriteUniforms { words: self.uniforms@ },
        ] + cell_writes(full_view(self.full_upload), span_views(self.dirty@))
    }

    /// Lists the steps that a frame takes. `observed_px` is the width of the display in
    /// physical pixels, to be stored in the handle; `capacity` is the number of columns
    /// that the storage buffer has room for, `None` while there is no pipeline.
    pub fn prepare(&self, observed_px: u32, capacity: Option<usize>) -> (steps: Vec<
        UploadStep,
    >)
        requires
            capacity != Some(self.num_cols) ==> self.num_cols * COLUMN_BYTES <= usize::MAX,
            self.full_upload is None ==> forall|i: int|
                0 <= i < self.dirty@.len() ==> (#[trigger] self.dirty@[i]).start_col * COLUMN_BYTES
                    <= usize::MAX,
        ensures
            follows(steps@, self.plan(observed_px, capacity)),
    {
        let mut steps: Vec<UploadStep> = Vec::new();
        steps.push(UploadStep::ReportWidth { px: observed_px });
        match capacity {
            None => {
                steps.push(
                    UploadStep::BuildPipeline {
                        uniform_bytes: SPECTRO_UNIFORM_BYTES,
                        storage_bytes: (self.num_cols * COLUMN_BYTES) as u64,
                    },
                );
            },
            Some(cols) => {
                if cols != self.num_cols {
                    steps.push(
                        UploadStep::ReplaceStorage {
                            storage_bytes: (self.num_cols * COLUMN_BYTES) as u64,
                        },
                    );
                }
            },
        }
        let uniforms = [
            self.uniforms.width,
            self.uniforms.height,
            self.uniforms.num_bins,
            self.uniforms.num_columns,
            self.uniforms.write_index,
            self.uniforms.sample_rate,
            0u32,
            0u32,
        ];
        assert(uniforms@ =~= self.uniforms@);
        steps.push(UploadStep::WriteUniforms { data: memory_of(uniforms.as_slice()) });
        let ghost head = seq![PlannedStep::ReportWidth { px: observed_px as int }] + storage_setup(
            capacity,
            self.num_cols as int,
        ) + seq![
            PlannedStep::WriteUniforms { words: self.uniforms@ },
        ];
        assert(follows(steps@, head));
        match &self.full_upload {
            Some(cells) => {
                steps.push(
                    UploadStep::WriteStorage { offset: 0, data: memory_of(cells.as_slice()) },
                );
            },
            None => {
                let ghost writes = cell_writes(None, span_views(self.dirty@));
                let mut i: usize = 0;
                while i < self.dirty.len()
                    invariant
                        i <= self.dirty@.len(),
                        forall|j: int|
                            0 <= j < self.dirty@.len() ==> (#[trigger] self.dirty@[j]).start_col
                                * COLUMN_BYTES <= usize::MAX,
                        writes == cell_writes(None, span_views(self.dirty@)),
                        follows(steps@, head + writes.subrange(0, i as int)),
                    decreases self.dirty@.len() - i,
                {
                    let span = &self.dirty[i];
                    let ghost before = steps@;
                    let offset: u64 = (span.start_col * COLUMN_BYTES) as u64;
                    let data = memory_of(span.data.as_slice());
                    steps.push(UploadStep::WriteStorage { offset, data });
                    proof {
                        let planned = head + writes.subrange(0, i + 1);
                        assert(planned =~= (head + writes.subrange(0, i as int)).push(
                            writes[i as int],
                        ));
                        assert(steps@.last().does(writes[i as int]));
                        assert forall|j: int| 0 <= j < steps@.len() implies (
                        #[trigger] steps@[j]).does(planned[j]) by {
                            if j < before.len() {
                                assert(before[j].does(planned[j]));
                            }
                        }
                    }
                    i += 1;
                }
                assert(head + writes.subrange(0, i as int) =~= self.plan(observed_px, capacity));
            },
        }
        steps
    }
}

proof fn lemma_storage_after_concat(
    storage: Seq<u32>,
    first: Seq<PlannedStep>,
    second: Seq<PlannedStep>,
)
    ensures
        storage_after(storage, first + second) == storage_after(
            storage_after(storage, first),
            second,
        ),
    decreases second.len(),
{
    if second.len() == 0 {
        assert(first + second =~= first);
    } else {
        assert((first + second).drop_last() =~= first + second.drop_last());
        lemma_storage_after_concat(storage, first, second.drop_last());
    }
}

proof fn lemma_span_writes(storage: Seq<u32>, spans: Seq<(int, Seq<u32>)>)
    ensures
        storage_after(storage, cell_writes(None, spans)) == with_spans(storage, spans),
    decreases spans.len(),
{
    let writes = cell_writes(None, spans);
    if spans.len() > 0 {
        assert(writes.drop_last() =~= cell_writes(None, spans.drop_last()));
        lemma_span_writes(storage, spans.drop_last());
        let before = with_spans(storage, spans.drop_last());
        assert((spans.last().0 * COLUMN_BYTES) / 4 == spans.last().0 * NUM_SPECTRO_BINS);
        assert(storage_after_step(before, span_write(spans.last())) =~= with_span(
            before,
            spans.last(),
        ));
    }
}

/// A frame with the drained spans of a ring stays inside a storage buffer of the
/// ring's size and, if the buffer mirrored the ring and the backlog did not fill
/// it, leaves the buffer equal to the ring.
pub proof fn law_display_follows_spans(
    model: SpectrogramModel,
    primitive: SpectroPrimitive,
    observed_px: u32,
    storage: Seq<u32>,
)
    requires
        model.wf(),
        model.mirrored_by(storage),
        model.dirty < model.num_cols,
        primitive.num_cols == model.num_cols,
        primitive.full_upload is None,
        span_views(primitive.dirty@) == model.dirty_spans(),
    ensures
        writes_fit(primitive.plan(observed_px, Some(primitive.num_cols)), model.num_cols * COLUMN_BYTES),
        storage_after(storage, primitive.plan(observed_px, Some(primitive.num_cols))) == model.cells,
{
    let spans = model.dirty_spans();
    let plan = primitive.plan(observed_px, Some(primitive.num_cols));
    let head = seq![
        PlannedStep::ReportWidth { px: observed_px as int },
        PlannedStep::WriteUniforms { words: primitive.uniforms@ },
    ];
    let writes = cell_writes(None, spans);
    assert(plan =~= head + writes);
    law_spans_fit(model);
    assert forall|i: int| 0 <= i < plan.len() implies ((
    #[trigger] plan[i]) matches PlannedStep::WriteStorage { offset, words } ==> 0 <= offset && offset
        % 4 == 0 && offset + 4 * words.len() <= model.num_cols * COLUMN_BYTES) by {
        if i > 1 {
            let span = spans[i - 2];
            assert(plan[i] == span_write(span));
        }
    }
    lemma_storage_after_concat(storage, head, writes);
    reveal_with_fuel(storage_after, 3);
    assert(storage_after(storage, head) == storage);
    lemma_span_writes(storage, spans);
    law_spans_refresh(model, storage);
}

/// A frame with the whole ring leaves a storage buffer of the ring's size equal to
/// the ring, whatever the buffer held.
pub proof fn law_display_follows_full_upload(
    model: SpectrogramModel,
    primitive: SpectroPrimitive,
    observed_px: u32,
    capacity: Option<usize>,
    storage: Seq<u32>,
)
    requires
        model.wf(),
        storage.len() == model.cells.len(),
        primitive.num_cols == model.num_cols,
        full_view(primitive.full_upload) == Some(model.cells),
    ensures
        writes_fit(primitive.plan(observed_px, capacity), model.num_cols * COLUMN_BYTES),
        storage_after(storage, primitive.plan(observed_px, capacity)) == model.cells,
{
    let plan = primitive.plan(observed_px, capacity);
    reveal_with_fuel(storage_after, 2);
    assert(plan.last() == PlannedStep::WriteStorage { offset: 0, words: model.cells });
    let before = storage_after(storage, plan.drop_last());
    lemma_storage_len(storage, plan.drop_last());
    assert(storage_after_step(before, plan.last()) =~= model.cells);
}

proof fn lemma_storage_len(storage: Seq<u32>, plan: Seq<PlannedStep>)
    ensures
        storage_after(storage, plan).len() == storage.len(),
    decreases plan.len(),
{
    if plan.len() > 0 {
        lemma_storage_len(storage, plan.drop_last());
    }
}

/// A frame first reports the width; then it makes the storage buffer fit, with four
/// bytes for each of 1024 magnitudes a column, unless it fits already; then it writes
/// the uniforms; and then the whole ring if it is given, or else each span where its
/// columns stand.
pub proof fn law_spectro_steps(
    primitive: SpectroPrimitive,
    observed_px: u32,
    capacity: Option<usize>,
)
    ensures
        ({
            let plan = primitive.plan(observed_px, capacity);
            let bytes = primitive.num_cols * 4096;
            let fits = capacity == Some(primitive.num_cols);
            let at = if fits {
                1int
            } else {
                2
            };
            let spans = primitive.dirty@;
            &&& plan[0] == (PlannedStep::ReportWidth { px: observed_px as int })
            &&& capacity is None ==> plan[1] == (PlannedStep::BuildPipeline {
                uniform_bytes: 32,
                storage_bytes: bytes,
            })
            &&& capacity is Some && !fits ==> plan[1] == (PlannedStep::ReplaceStorage {
                storage_bytes: bytes,
            })
            &&& plan[at] == (PlannedStep::WriteUniforms { words: primitive.uniforms@ })
            &&& match primitive.full_upload {
                Some(cells) => plan.len() == at + 2 && plan[at + 1] == (PlannedStep::WriteStorage {
                    offset: 0,
                    words: cells@,
                }),
                None => plan.len() == at + 1 + spans.len() && forall|i: int|
                    0 <= i < spans.len() ==> plan[at + 1 + i] == (PlannedStep::WriteStorage {
                        offset: (#[trigger] spans[i]).start_col * 4096,
                        words: spans[i].data@,
                    }),
            }
        }),
{
}

/// What the shader is told.
pub proof fn law_spectro_uniforms(program: SpectroProgram, width: u32, height: u32)
    ensures
        ({
            let words = program.uniforms(width, height)@;
            &&& words.len() == 8
            &&& words[0] == width && words[1] == height && words[2] == 1024
            &&& program.num_cols <= u32::MAX ==> words[3] == program.num_cols
            &&& program.write_index <= u32::MAX ==> words[4] == program.write_index
            &&& words[5] == program.sample_rate && words[6] == 0 && words[7] == 0
        }),
{
}

} // verus!
