//! What has to be done to bring a display's buffers up to date.
//!
//! A display has a small uniform buffer and a storage buffer, both of 32-bit
//! words. Each frame it lists the steps that the renderer then carries out.
use vstd::prelude::*;

verus! {

/// One step of bringing a display's buffers up to date.
#[derive(Debug)]
pub enum UploadStep {
    /// Tell the display's state its width in physical pixels.
    ReportWidth { px: u32 },
    /// Create the pipeline with both buffers.
    BuildPipeline { uniform_bytes: u64, storage_bytes: u64 },
    /// Replace the storage buffer by one of another size.
    ReplaceStorage { storage_bytes: u64 },
    /// Overwrite the uniform buffer.
    WriteUniforms { data: Vec<u8> },
    /// Overwrite part of the storage buffer.
    WriteStorage { offset: u64, data: Vec<u8> },
}

/// A step as it is meant: sizes as numbers, data as words.
pub enum PlannedStep {
    ReportWidth { px: int },
    BuildPipeline { uniform_bytes: int, storage_bytes: int },
    ReplaceStorage { storage_bytes: int },
    WriteUniforms { words: Seq<u32> },
    WriteStorage { offset: int, words: Seq<u32> },
}

/// The `k`th byte of a word, counted from the least significant one.
pub open spec fn byte_of(word: u32, k: int) -> int {
    if k == 0 {
        word as int % 256
    } else if k == 1 {
        (word as int / 256) % 256
    } else if k == 2 {
        (word as int / 65536) % 256
    } else {
        word as int / 16777216
    }
}

/// Whether `bytes` are the words in memory: four bytes each, one after the other,
/// in the one or the other byte order throughout.
pub open spec fn in_memory(words: Seq<u32>, bytes: Seq<u8>) -> bool {
    &&& bytes.len() == 4 * words.len()
    &&& {
        ||| forall|i: int, k: int|
            #![trigger byte_of(words[i], k)]
            0 <= i < words.len() && 0 <= k < 4 ==> bytes[4 * i + k] == byte_of(words[i], k)
        ||| forall|i: int, k: int|
            #![trigger byte_of(words[i], k)]
            0 <= i < words.len() && 0 <= k < 4 ==> bytes[4 * i + 3 - k] == byte_of(words[i], k)
    }
}

impl UploadStep {
    /// Whether this step does what was planned.
    pub open spec fn does(self, planned: PlannedStep) -> bool {
        match (self, planned) {
            (UploadStep::ReportWidth { px }, PlannedStep::ReportWidth { px: reported }) => px
                == reported,
            (
                UploadStep::BuildPipeline { uniform_bytes, storage_bytes },
                PlannedStep::BuildPipeline { uniform_bytes: uniform, storage_bytes: storage },
            ) => uniform_bytes == uniform && storage_bytes == storage,
            (
                UploadStep::ReplaceStorage { storage_bytes },
                PlannedStep::ReplaceStorage { storage_bytes: storage },
            ) => storage_bytes == storage,
            (UploadStep::WriteUniforms { data }, PlannedStep::WriteUniforms { words }) => in_memory(
                words,
                data@,
            ),
            (
                UploadStep::WriteStorage { offset, data },
                PlannedStep::WriteStorage { offset: at, words },
            ) => offset == at && in_memory(words, data@),
            _ => false,
        }
    }
}

/// Whether the steps do what was planned, one by one.
pub open spec fn follows(steps: Seq<UploadStep>, plan: Seq<PlannedStep>) -> bool {
    &&& steps.len() == plan.len()
    &&& forall|i: int| 0 <= i < steps.len() ==> (#[trigger] steps[i]).does(plan[i])
}

/// Whether every write of the plan stays inside a storage buffer of `bytes` bytes
/// and starts at a word.
pub open spec fn writes_fit(plan: Seq<PlannedStep>, bytes: int) -> bool {
    forall|i: int|
        0 <= i < plan.len() ==> ((#[trigger] plan[i]) matches PlannedStep::WriteStorage {
            offset,
            words,
        } ==> 0 <= offset && offset % 4 == 0 && offset + 4 * words.len() <= bytes)
}

/// The words of the storage buffer after `step`, which overwrites part of it or
/// leaves it as it is.
pub open spec fn storage_after_step(storage: Seq<u32>, step: PlannedStep) -> Seq<u32> {
    match step {
        PlannedStep::WriteStorage { offset, words } => Seq::new(
            storage.len(),
            |i: int|
                if offset / 4 <= i < offset / 4 + words.len() {
                    words[i - offset / 4]
                } else {
                    storage[i]
                },
        ),
        _ => storage,
    }
}

/// The words of the storage buffer after all steps of a plan that keeps the buffer.
pub open spec fn storage_after(storage: Seq<u32>, plan: Seq<PlannedStep>) -> Seq<u32>
    decreases plan.len(),
{
    if plan.len() == 0 {
        storage
    } else {
        storage_after_step(storage_after(storage, plan.drop_last()), plan.last())
    }
}

/// `bytemuck::cast_slice` from words to bytes, copied: the words as they lie in
/// memory. Which byte order that is depends on the machine.
#[verifier::external_body]
pub(crate) fn memory_of(words: &[u32]) -> (bytes: Vec<u8>)
    ensures
        in_memory(words@, bytes@),
{
    bytemuck::cast_slice::<u32, u8>(words).to_vec()
}

/// The step that creates the pipeline, if it is not there yet; then the step that
/// writes the uniforms; then the one that writes the storage from its start, if
/// there is anything to write.
pub open spec fn frame_plan(
    ready: bool,
    uniform_bytes: int,
    storage_bytes: int,
    uniforms: Seq<u32>,
    storage: Seq<u32>,
) -> Seq<PlannedStep> {
    (if ready {
        seq![]
    } else {
        seq![PlannedStep::BuildPipeline { uniform_bytes, storage_bytes }]
    }) + seq![PlannedStep::WriteUniforms { words: uniforms }] + (if storage.len() == 0 {
        seq![]
    } else {
        seq![PlannedStep::WriteStorage { offset: 0, words: storage }]
    })
}

/// Lists the steps of a frame whose storage is written as a whole.
pub(crate) fn frame_steps(
    ready: bool,
    uniform_bytes: u64,
    storage_bytes: u64,
    uniforms: &[u32],
    storage: &[u32],
) -> (steps: Vec<UploadStep>)
    ensures
        follows(
            steps@,
            frame_plan(
                ready,
                uniform_bytes as int,
                storage_bytes as int,
                uniforms@,
                storage@,
            ),
        ),
{
    let mut steps: Vec<UploadStep> = Vec::new();
    if !ready {
        steps.push(UploadStep::BuildPipeline { uniform_bytes, storage_bytes });
    }
    steps.push(UploadStep::WriteUniforms { data: memory_of(uniforms) });
    if storage.len() != 0 {
        steps.push(UploadStep::WriteStorage { offset: 0, data: memory_of(storage) });
    }
    steps
}

/// A frame that is written as a whole stays inside the buffer if its words do, and
/// leaves them at the buffer's start.
pub proof fn law_frame_is_stored(
    ready: bool,
    uniform_bytes: int,
    storage_bytes: int,
    uniforms: Seq<u32>,
    words: Seq<u32>,
    storage: Seq<u32>,
)
    requires
        4 * words.len() <= storage_bytes,
        storage.len() == storage_bytes / 4,
    ensures
        writes_fit(
            frame_plan(ready, uniform_bytes, storage_bytes, uniforms, words),
            storage_bytes,
        ),
        storage_after(
            storage,
            frame_plan(ready, uniform_bytes, storage_bytes, uniforms, words),
        ) == words + storage.skip(words.len() as int),
{
    let plan = frame_plan(ready, uniform_bytes, storage_bytes, uniforms, words);
    reveal_with_fuel(storage_after, 4);
    if words.len() == 0 {
        assert(words + storage.skip(0) =~= storage);
    }
    assert(storage_after(storage, plan) =~= words + storage.skip(words.len() as int));
}

/// A frame builds the pipeline exactly if there is none, and first; it always writes
/// the uniforms, once; and it writes the storage, last and from its start, exactly if
/// there is anything to write.
pub proof fn law_frame_steps(
    ready: bool,
    uniform_bytes: int,
    storage_bytes: int,
    uniforms: Seq<u32>,
    storage: Seq<u32>,
)
    ensures
        ({
            let plan = frame_plan(ready, uniform_bytes, storage_bytes, uniforms, storage);
            let first = if ready {
                0int
            } else {
                1
            };
            &&& plan.len() == first + 1 + (if storage.len() == 0 {
                0int
            } else {
                1
            })
            &&& !ready ==> plan[0] == (PlannedStep::BuildPipeline { uniform_bytes, storage_bytes })
            &&& plan[first] == (PlannedStep::WriteUniforms { words: uniforms })
            &&& storage.len() > 0 ==> plan[first + 1] == (PlannedStep::WriteStorage {
                offset: 0,
                words: storage,
            })
        }),
{
}

/// The bytes of a word make up the word.
pub proof fn law_bytes_make_the_word(word: u32)
    ensures
        word == byte_of(word, 0) + 256 * byte_of(word, 1) + 65536 * byte_of(word, 2) + 16777216
            * byte_of(word, 3),
        0 <= byte_of(word, 0) < 256,
        0 <= byte_of(word, 1) < 256,
        0 <= byte_of(word, 2) < 256,
        0 <= byte_of(word, 3) < 256,
{
}

/// Steps that follow a plan do what it says, one by one: the same sizes, the same
/// place, and as many bytes as the words have.
pub proof fn law_steps_do_the_plan(steps: Seq<UploadStep>, plan: Seq<PlannedStep>, i: int)
    requires
        follows(steps, plan),
        0 <= i < plan.len(),
    ensures
        steps.len() == plan.len(),
        match plan[i] {
            PlannedStep::ReportWidth { px } => steps[i] matches UploadStep::ReportWidth {
                px: reported,
            } && reported == px,
            PlannedStep::BuildPipeline { uniform_bytes, storage_bytes } => steps[i]
                matches UploadStep::BuildPipeline { uniform_bytes: uniform, storage_bytes: storage }
                && uniform == uniform_bytes && storage == storage_bytes,
            PlannedStep::ReplaceStorage { storage_bytes } => steps[i]
                matches UploadStep::ReplaceStorage { storage_bytes: storage } && storage
                == storage_bytes,
            PlannedStep::WriteUniforms { words } => steps[i] matches UploadStep::WriteUniforms {
                data,
            } && data@.len() == 4 * words.len() && in_memory(words, data@),
            PlannedStep::WriteStorage { offset, words } => steps[i]
                matches UploadStep::WriteStorage { offset: at, data } && at == offset
                && data@.len() == 4 * words.len() && in_memory(words, data@),
        },
{
}

/// Words in memory can be read back: each from its own four bytes, and all of them in
/// the same byte order.
pub proof fn law_memory_reads_back(words: Seq<u32>, bytes: Seq<u8>)
    requires
        in_memory(words, bytes),
    ensures
        bytes.len() == 4 * words.len(),
        (forall|i: int|
            0 <= i < words.len() ==> #[trigger] words[i] == bytes[4 * i] + 256 * bytes[4 * i + 1]
                + 65536 * bytes[4 * i + 2] + 16777216 * bytes[4 * i + 3]) || (forall|i: int|
            0 <= i < words.len() ==> #[trigger] words[i] == bytes[4 * i + 3] + 256 * bytes[4 * i
                + 2] + 65536 * bytes[4 * i + 1] + 16777216 * bytes[4 * i]),
{
    assert forall|i: int| 0 <= i < words.len() implies #[trigger] words[i] == byte_of(words[i], 0)
        + 256 * byte_of(words[i], 1) + 65536 * byte_of(words[i], 2) + 16777216 * byte_of(
        words[i],
        3,
    ) by {
        law_bytes_make_the_word(words[i]);
    }
    if forall|i: int, k: int|
        #![trigger byte_of(words[i], k)]
        0 <= i < words.len() && 0 <= k < 4 ==> bytes[4 * i + k] == byte_of(words[i], k) {
        assert forall|i: int| 0 <= i < words.len() implies #[trigger] words[i] == bytes[4 * i] + 256
            * bytes[4 * i + 1] + 65536 * bytes[4 * i + 2] + 16777216 * bytes[4 * i + 3] by {
            assert(bytes[4 * i + 0] == byte_of(words[i], 0));
            assert(bytes[4 * i + 1] == byte_of(words[i], 1));
        }
    } else {
        assert forall|i: int| 0 <= i < words.len() implies #[trigger] words[i] == bytes[4 * i + 3]
            + 256 * bytes[4 * i + 2] + 65536 * bytes[4 * i + 1] + 16777216 * bytes[4 * i] by {
            assert(bytes[4 * i + 3 - 0] == byte_of(words[i], 0));
            assert(bytes[4 * i + 3 - 1] == byte_of(words[i], 1));
        }
    }
}

} // verus!
