//! What the GPU is told to do for a frame, one step after the other.
use crate::backdrop::BackdropScratch;
use crate::pipelines::PipelineKind;
use crate::scene::AtlasTextureId;
use crate::uniforms::{align_up, lemma_align_up, UniformLayout};
use vstd::prelude::*;

verus! {

/// The parameters of the frame that shaders see: those of paths differ.
#[derive(Clone, Copy, Debug, PartialEq, Eq, Structural)]
pub enum Globals {
    Main,
    Path,
}

/// A texture that primitives are drawn from.
#[derive(Clone, Copy, Debug, PartialEq, Eq, Structural)]
pub enum TextureSource {
    Atlas(AtlasTextureId),
    PathIntermediate,
}

/// A texture that a step of a blur reads.
#[derive(Clone, Copy, Debug, PartialEq, Eq, Structural)]
pub enum BackdropSource {
    /// The copy of the frame.
    Snapshot,
    /// What the horizontal pass has drawn.
    Horizontal,
    /// What the vertical pass has drawn.
    Vertical,
}

/// One step of drawing a frame. A pass lasts until the next one begins, or a
/// copy, or the end of the frame.
#[derive(Debug)]
pub enum Command {
    /// Begins drawing to the cleared frame.
    BeginMainPass,
    /// Goes on drawing to the frame, over what is there.
    ContinueMainPass,
    /// Begins drawing paths to their cleared texture, through the one with
    /// several samples per pixel if `msaa` is set.
    BeginPathPass { msaa: bool },
    /// Begins one pass of a blur, to its cleared texture.
    BeginBlurPass { vertical: bool },
    /// Replaces the textures of blurs.
    CreateScratch { scratch: BackdropScratch },
    /// Copies a part of the frame over the whole snapshot.
    CopyToSnapshot { x: u32, y: u32, width: u32, height: u32 },
    /// Writes words into the uniforms of blurs.
    WriteBackdropUniform { offset: u64, words: Vec<u32> },
    /// Writes words into the instance buffer.
    WriteInstances { offset: u64, words: Vec<u32> },
    SetPipeline { kind: PipelineKind },
    /// Binds the globals and a part of the instance buffer, with a texture if
    /// there is one.
    BindInstances {
        globals: Globals,
        offset: u64,
        size: u64,
        texture: Option<TextureSource>,
    },
    /// Binds the main globals and a uniform of a blur with the texture it reads.
    BindBackdrop { offset: u64, size: u64, source: BackdropSource },
    SetScissor { x: u32, y: u32, width: u32, height: u32 },
    Draw { vertices: u32, instances: u32 },
}

/// A command, with what it writes as a sequence.
pub enum Step {
    BeginMainPass,
    ContinueMainPass,
    BeginPathPass { msaa: bool },
    BeginBlurPass { vertical: bool },
    CreateScratch { scratch: BackdropScratch },
    CopyToSnapshot { left: int, top: int, width: u32, height: u32 },
    WriteBackdropUniform { offset: int, words: Seq<u32> },
    WriteInstances { offset: int, words: Seq<u32> },
    SetPipeline { kind: PipelineKind },
    BindInstances { globals: Globals, offset: int, size: int, texture: Option<TextureSource> },
    BindBackdrop { offset: int, size: int, source: BackdropSource },
    SetScissor { x: u32, y: u32, width: u32, height: u32 },
    Draw { vertices: u32, instances: u32 },
}

impl View for Command {
    type V = Step;

    open spec fn view(&self) -> Step {
        match *self {
            Command::BeginMainPass => Step::BeginMainPass,
            Command::ContinueMainPass => Step::ContinueMainPass,
            Command::BeginPathPass { msaa } => Step::BeginPathPass { msaa },
            Command::BeginBlurPass { vertical } => Step::BeginBlurPass { vertical },
            Command::CreateScratch { scratch } => Step::CreateScratch { scratch },
            Command::CopyToSnapshot { x, y, width, height } => Step::CopyToSnapshot {
                left: x as int,
                top: y as int,
                width,
                height,
            },
            Command::WriteBackdropUniform { offset, words } => Step::WriteBackdropUniform {
                offset: offset as int,
                words: words@,
            },
            Command::WriteInstances { offset, words } => Step::WriteInstances {
                offset: offset as int,
                words: words@,
            },
            Command::SetPipeline { kind } => Step::SetPipeline { kind },
            Command::BindInstances { globals, offset, size, texture } => Step::BindInstances {
                globals,
                offset: offset as int,
                size: size as int,
                texture,
            },
            Command::BindBackdrop { offset, size, source } => Step::BindBackdrop {
                offset: offset as int,
                size: size as int,
                source,
            },
            Command::SetScissor { x, y, width, height } => Step::SetScissor { x, y, width, height },
            Command::Draw { vertices, instances } => Step::Draw { vertices, instances },
        }
    }
}

/// What a sequence of commands does.
pub open spec fn steps_of(commands: Seq<Command>) -> Seq<Step> {
    commands.map_values(|c: Command| c@)
}

/// What stays the same while a frame is recorded.
#[derive(Clone, Copy, Debug, PartialEq, Eq, Structural)]
pub struct FrameParams {
    /// Size of the instance buffer in bytes.
    pub capacity: u64,
    /// What offsets into the instance buffer are multiples of.
    pub alignment: u64,
    pub width: u32,
    pub height: u32,
    /// Whether the adapter is a processor that draws by itself.
    pub software: bool,
    /// Whether there is a texture that paths are drawn to.
    pub path_intermediate: bool,
    /// Whether there is a texture with several samples per pixel for paths.
    pub path_msaa: bool,
    /// Whether there is a pipeline for subpixel text.
    pub subpixel_pipeline: bool,
    /// Whether the frame can be copied from.
    pub backdrop_blur_supported: bool,
    pub uniforms: UniformLayout,
}

impl FrameParams {
    /// The parameters of a device: alignments are positive, and the uniforms of
    /// blurs are inside their buffer.
    pub open spec fn valid(self) -> bool {
        &&& self.alignment > 0
        &&& crate::uniforms::BLUR_PASS_SIZE <= self.uniforms.backdrop_slot_stride
        &&& self.uniforms.backdrop_slot_stride * crate::uniforms::BACKDROP_MAX_BLURS * 3 <= u64::MAX
    }

    pub open spec fn viewport(self) -> Seq<u32> {
        seq![self.width, self.height]
    }
}

/// How far a frame is recorded.
pub struct Progress {
    pub steps: Seq<Step>,
    /// Number of bytes of the instance buffer in use.
    pub offset: int,
    pub scratch: Option<BackdropScratch>,
    /// The first blur that is not dealt with yet.
    pub next_blur: int,
}

impl Progress {
    pub open spec fn then_do(self, step: Step) -> Progress {
        Progress { steps: self.steps.push(step), ..self }
    }
}

/// The size that data takes up in the instance buffer: at least sixteen bytes.
pub open spec fn instance_size(words: Seq<u32>) -> int {
    if 4 * words.len() < 16 {
        16
    } else {
        4 * words.len() as int
    }
}

/// Where data goes in the instance buffer if the first `offset` bytes are taken.
pub open spec fn instance_offset(params: FrameParams, offset: int) -> int {
    align_up(offset, params.alignment as int)
}

/// Whether data still fits into the instance buffer.
pub open spec fn instances_fit(params: FrameParams, offset: int, words: Seq<u32>) -> bool {
    instance_offset(params, offset) + instance_size(words) <= params.capacity
}

impl Progress {
    /// After data was written to the instance buffer.
    pub open spec fn with_instances(self, params: FrameParams, words: Seq<u32>) -> Progress {
        let offset = instance_offset(params, self.offset);
        Progress {
            steps: self.steps.push(Step::WriteInstances { offset, words }),
            offset: offset + instance_size(words),
            ..self
        }
    }

    /// After data was written to the instance buffer and bound for drawing.
    pub open spec fn with_bound_instances(
        self,
        params: FrameParams,
        words: Seq<u32>,
        globals: Globals,
        texture: Option<TextureSource>,
    ) -> Progress {
        self.with_instances(params, words).then_do(
            bind_instances(params, self.offset, words, globals, texture),
        )
    }
}

/// Binding what was just written to the instance buffer.
pub open spec fn bind_instances(
    params: FrameParams,
    offset: int,
    words: Seq<u32>,
    globals: Globals,
    texture: Option<TextureSource>,
) -> Step {
    Step::BindInstances {
        globals,
        offset: instance_offset(params, offset),
        size: instance_size(words),
        texture,
    }
}

/// A frame being recorded.
pub struct Recorder {
    pub commands: Vec<Command>,
    pub offset: u64,
    pub scratch: Option<BackdropScratch>,
    pub next_blur: usize,
}

impl View for Recorder {
    type V = Progress;

    open spec fn view(&self) -> Progress {
        Progress {
            steps: steps_of(self.commands@),
            offset: self.offset as int,
            scratch: self.scratch,
            next_blur: self.next_blur as int,
        }
    }
}

impl Recorder {
    pub fn new(scratch: Option<BackdropScratch>) -> (r: Recorder)
        ensures
            r@ == (Progress { steps: seq![], offset: 0, scratch, next_blur: 0 }),
    {
        let r = Recorder { commands: Vec::new(), offset: 0, scratch, next_blur: 0 };
        assert(steps_of(r.commands@) =~= seq![]);
        r
    }

    pub fn emit(&mut self, command: Command)
        ensures
            final(self)@ == old(self)@.then_do(command@),
    {
        let ghost before = self.commands@;
        self.commands.push(command);
        assert(steps_of(self.commands@) =~= steps_of(before).push(command@));
    }

    /// Writes data to the instance buffer, if it fits: gives where it went and
    /// the size that it takes up.
    pub fn write_to_instance_buffer(&mut self, params: &FrameParams, words: Vec<u32>) -> (r: Option<
        (u64, u64),
    >)
        requires
            params.valid(),
        ensures
            r is Some <==> instances_fit(*params, old(self)@.offset, words@),
            r matches Some((offset, size)) ==> {
                &&& offset == instance_offset(*params, old(self)@.offset)
                &&& size == instance_size(words@)
                &&& final(self)@ == old(self)@.with_instances(*params, words@)
            },
            r is None ==> final(self)@ == old(self)@,
    {
        proof {
            lemma_align_up(self.offset as int, params.alignment as int);
        }
        let rest: u64 = self.offset % params.alignment;
        let offset: u128 = if rest == 0 {
            self.offset as u128
        } else {
            self.offset as u128 + (params.alignment - rest) as u128
        };
        let length: u128 = 4 * (words.len() as u128);
        let size: u128 = if length < 16 {
            16
        } else {
            length
        };
        if offset + size > params.capacity as u128 {
            return None;
        }
        self.emit(Command::WriteInstances { offset: offset as u64, words });
        self.offset = (offset + size) as u64;
        Some((offset as u64, size as u64))
    }
}

/// Every command says what its step says.
pub proof fn law_commands_are_steps(command: Command)
    ensures
        match command {
            Command::BeginMainPass => command@ is BeginMainPass,
            Command::ContinueMainPass => command@ is ContinueMainPass,
            Command::BeginPathPass { msaa } => command@ matches Step::BeginPathPass { msaa: m }
                && m == msaa,
            Command::BeginBlurPass { vertical } => command@ matches Step::BeginBlurPass {
                vertical: v,
            } && v == vertical,
            Command::CreateScratch { scratch } => command@ matches Step::CreateScratch {
                scratch: s,
            } && s == scratch,
            Command::CopyToSnapshot { x, y, width, height } => command@
                matches Step::CopyToSnapshot { left, top, width: w, height: h } && left == x && top
                == y && w == width && h == height,
            Command::WriteBackdropUniform { offset, words } => command@
                matches Step::WriteBackdropUniform { offset: o, words: w } && o == offset && w
                == words@,
            Command::WriteInstances { offset, words } => command@ matches Step::WriteInstances {
                offset: o,
                words: w,
            } && o == offset && w == words@,
            Command::SetPipeline { kind } => command@ matches Step::SetPipeline { kind: k } && k
                == kind,
            Command::BindInstances { globals, offset, size, texture } => command@
                matches Step::BindInstances { globals: g, offset: o, size: s, texture: t } && g
                == globals && o == offset && s == size && t == texture,
            Command::BindBackdrop { offset, size, source } => command@ matches Step::BindBackdrop {
                offset: o,
                size: s,
                source: t,
            } && o == offset && s == size && t == source,
            Command::SetScissor { x, y, width, height } => command@ matches Step::SetScissor {
                x: a,
                y: b,
                width: w,
                height: h,
            } && a == x && b == y && w == width && h == height,
            Command::Draw { vertices, instances } => command@ matches Step::Draw {
                vertices: v,
                instances: n,
            } && v == vertices && n == instances,
        },
{
}

/// What is recorded is what the commands say, in order, and nothing else.
pub proof fn law_recordings_are_commands(recorder: Recorder, i: int)
    ensures
        recorder@.steps.len() == recorder.commands@.len(),
        0 <= i < recorder.commands@.len() ==> recorder@.steps[i] == recorder.commands@[i]@,
        recorder@.offset == recorder.offset,
        recorder@.scratch == recorder.scratch,
        recorder@.next_blur == recorder.next_blur,
{
}

} // verus!
