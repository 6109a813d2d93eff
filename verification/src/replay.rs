//! What the GPU does with the commands of a frame: which textures are cleared,
//! copied and painted, with which data.
use crate::backdrop::BackdropScratch;
use crate::commands::{BackdropSource, Globals, Progress, Step, TextureSource};
use crate::pipelines::PipelineKind;
use vstd::prelude::*;

verus! {

/// What a pass draws to.
pub enum Canvas {
    Frame,
    Paths { msaa: bool },
    /// The product of the horizontal pass of a blur.
    Horizontal,
    /// The product of the vertical pass of a blur.
    Vertical,
}

/// What shaders read: the contents of the part of a buffer that is bound.
pub enum Data {
    Instances { globals: Globals, words: Seq<u32>, texture: Option<TextureSource> },
    Backdrop { words: Seq<u32>, source: BackdropSource },
}

/// Something that changes a texture.
pub enum Effect {
    Clear { canvas: Canvas },
    /// The textures of blurs are replaced.
    Replace { scratch: BackdropScratch },
    /// A part of the frame is copied to the snapshot.
    Copy { left: int, top: int, width: u32, height: u32 },
    Paint {
        canvas: Canvas,
        pipeline: PipelineKind,
        data: Data,
        scissor: Option<(u32, u32, u32, u32)>,
        vertices: u32,
        instances: u32,
    },
    /// A draw call outside of a pass, without a pipeline, or without data.
    Fault,
}

/// The state of the GPU, with the effects so far.
pub struct Gpu {
    pub canvas: Option<Canvas>,
    pub pipeline: Option<PipelineKind>,
    pub data: Option<Data>,
    pub scissor: Option<(u32, u32, u32, u32)>,
    /// What was written to the instance buffer, by offset.
    pub instances: Map<int, Seq<u32>>,
    /// What was written to the uniforms of blurs, by offset.
    pub uniforms: Map<int, Seq<u32>>,
    pub effects: Seq<Effect>,
}

impl Gpu {
    pub open spec fn idle() -> Gpu {
        Gpu {
            canvas: None,
            pipeline: None,
            data: None,
            scissor: None,
            instances: Map::empty(),
            uniforms: Map::empty(),
            effects: seq![],
        }
    }

    /// A new pass has neither a pipeline nor data nor a scissor.
    pub open spec fn in_pass(self, canvas: Canvas, clear: bool) -> Gpu {
        Gpu {
            canvas: Some(canvas),
            pipeline: None,
            data: None,
            scissor: None,
            effects: if clear {
                self.effects.push(Effect::Clear { canvas })
            } else {
                self.effects
            },
            ..self
        }
    }

    /// Outside of passes.
    pub open spec fn between_passes(self, effect: Effect) -> Gpu {
        Gpu {
            canvas: None,
            pipeline: None,
            data: None,
            scissor: None,
            effects: self.effects.push(effect),
            ..self
        }
    }

    /// After one more step.
    pub open spec fn after(self, step: Step) -> Gpu {
        match step {
            Step::BeginMainPass => self.in_pass(Canvas::Frame, true),
            Step::ContinueMainPass => self.in_pass(Canvas::Frame, false),
            Step::BeginPathPass { msaa } => self.in_pass(Canvas::Paths { msaa }, true),
            Step::BeginBlurPass { vertical } => self.in_pass(
                if vertical {
                    Canvas::Vertical
                } else {
                    Canvas::Horizontal
                },
                true,
            ),
            Step::CreateScratch { scratch } => self.between_passes(Effect::Replace { scratch }),
            Step::CopyToSnapshot { left, top, width, height } => self.between_passes(
                Effect::Copy { left, top, width, height },
            ),
            Step::WriteBackdropUniform { offset, words } => Gpu {
                uniforms: self.uniforms.insert(offset, words),
                ..self
            },
            Step::WriteInstances { offset, words } => Gpu {
                instances: self.instances.insert(offset, words),
                ..self
            },
            Step::SetPipeline { kind } => Gpu { pipeline: Some(kind), ..self },
            Step::BindInstances { globals, offset, size, texture } => Gpu {
                data: if self.instances.contains_key(offset) && size >= 4
                    * self.instances[offset].len() {
                    Some(Data::Instances { globals, words: self.instances[offset], texture })
                } else {
                    None
                },
                ..self
            },
            Step::BindBackdrop { offset, size, source } => Gpu {
                data: if self.uniforms.contains_key(offset) && size == 4
                    * self.uniforms[offset].len() {
                    Some(Data::Backdrop { words: self.uniforms[offset], source })
                } else {
                    None
                },
                ..self
            },
            Step::SetScissor { x, y, width, height } => Gpu {
                scissor: Some((x, y, width, height)),
                ..self
            },
            Step::Draw { vertices, instances } => Gpu {
                effects: self.effects.push(self.painting(vertices, instances)),
                ..self
            },
        }
    }

    /// The effect of a draw call.
    pub open spec fn painting(self, vertices: u32, instances: u32) -> Effect {
        if self.canvas is Some && self.pipeline is Some && self.data is Some {
            Effect::Paint {
                canvas: self.canvas->0,
                pipeline: self.pipeline->0,
                data: self.data->0,
                scissor: self.scissor,
                vertices,
                instances,
            }
        } else {
            Effect::Fault
        }
    }

    /// In a pass to the frame, with all of its pixels open to drawing.
    pub open spec fn open_frame(self, width: u32, height: u32) -> bool {
        &&& self.canvas == Some(Canvas::Frame)
        &&& self.scissor is None || self.scissor == Some((0u32, 0u32, width, height))
    }
}

/// The GPU after all of these steps.
pub open spec fn replay(steps: Seq<Step>) -> Gpu
    decreases steps.len(),
{
    if steps.len() == 0 {
        Gpu::idle()
    } else {
        replay(steps.drop_last()).after(steps.last())
    }
}

/// One step more goes on from the state before it.
pub proof fn lemma_replay_push(steps: Seq<Step>, step: Step)
    ensures
        replay(steps.push(step)) == replay(steps).after(step),
{
    assert(steps.push(step).drop_last() =~= steps);
}

/// The same for a frame being recorded.
pub proof fn lemma_replay_then(p: Progress, step: Step)
    ensures
        replay(p.then_do(step).steps) == replay(p.steps).after(step),
{
    lemma_replay_push(p.steps, step);
}

} // verus!
