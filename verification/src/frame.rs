//! Recording a whole frame: batches in their order, with backdrop blurs between
//! them.
use crate::backdrop::process_backdrop_blur;
use crate::blur_kernel::{kernel_radius, MAX_KERNEL_RADIUS};
use crate::commands::{
    BackdropSource, Command, FrameParams, Progress, Recorder, Step, TextureSource,
};
use crate::drawing::{
    instances_drawn, interior_drawn, lemma_run_end, paths_drawn, paths_rasterized,
    polychrome_drawn, primitives_drawn, quad_pipeline, quads_drawn, quads_words, run_end,
    runs_drawn, strip_drawn, subpixel_kind,
};
use crate::float::Float32;
use crate::pipelines::PipelineKind;
use crate::scene::{
    BackdropBlur, DrawOrder, Path, PolychromeSprite, Primitive, PrimitiveBatch, Quad, Scene,
};
use crate::uniforms::{BACKDROP_MAX_BLURS, BACKDROP_SIZE, BLUR_PASS_SIZE};
use vstd::prelude::*;

verus! {

/// The draw orders of primitives.
pub open spec fn primitive_orders(primitives: Seq<Primitive>) -> Seq<DrawOrder> {
    primitives.map_values(|p: Primitive| p.order)
}

impl PrimitiveBatch {
    /// The positions that the batch covers.
    pub open spec fn span(self) -> (int, int) {
        match self {
            PrimitiveBatch::Shadows(range) => (range.start as int, range.end as int),
            PrimitiveBatch::Quads(range) => (range.start as int, range.end as int),
            PrimitiveBatch::Paths(range) => (range.start as int, range.end as int),
            PrimitiveBatch::Underlines(range) => (range.start as int, range.end as int),
            PrimitiveBatch::MonochromeSprites { range, .. } => {
                (range.start as int, range.end as int)
            },
            PrimitiveBatch::SubpixelSprites { range, .. } => {
                (range.start as int, range.end as int)
            },
            PrimitiveBatch::PolychromeSprites { range, .. } => {
                (range.start as int, range.end as int)
            },
            PrimitiveBatch::Surfaces(range) => (range.start as int, range.end as int),
        }
    }

    /// The draw orders of the list that the batch is part of.
    pub open spec fn orders(self, scene: Scene) -> Seq<DrawOrder> {
        match self {
            PrimitiveBatch::Shadows(_) => primitive_orders(scene.shadows@),
            PrimitiveBatch::Quads(_) => scene.quads@.map_values(|q: Quad| q.order),
            PrimitiveBatch::Paths(_) => scene.paths@.map_values(|p: Path| p.order),
            PrimitiveBatch::Underlines(_) => primitive_orders(scene.underlines@),
            PrimitiveBatch::MonochromeSprites { .. } => {
                primitive_orders(scene.monochrome_sprites@)
            },
            PrimitiveBatch::SubpixelSprites { .. } => primitive_orders(scene.subpixel_sprites@),
            PrimitiveBatch::PolychromeSprites { .. } => scene.polychrome_sprites@.map_values(
                |p: PolychromeSprite| p.order,
            ),
            PrimitiveBatch::Surfaces(_) => primitive_orders(scene.surfaces@),
        }
    }

    /// The batch is a part of its list.
    pub open spec fn within(self, scene: Scene) -> bool {
        0 <= self.span().0 <= self.span().1 <= self.orders(scene).len()
    }

    /// The draw order of the first primitive of the batch.
    pub open spec fn first_order(self, scene: Scene) -> DrawOrder {
        self.orders(scene)[self.span().0]
    }
}

/// The draw order of a batch's first primitive, where the check whether a
/// backdrop blur comes before it anchors.
pub fn batch_first_order(scene: &Scene, batch: &PrimitiveBatch) -> (r: DrawOrder)
    requires
        batch.span().0 < batch.orders(*scene).len(),
    ensures
        r == batch.first_order(*scene),
{
    match batch {
        PrimitiveBatch::Shadows(range) => scene.shadows[range.start].order,
        PrimitiveBatch::Quads(range) => scene.quads[range.start].order,
        PrimitiveBatch::Paths(range) => scene.paths[range.start].order,
        PrimitiveBatch::Underlines(range) => scene.underlines[range.start].order,
        PrimitiveBatch::MonochromeSprites { range, .. } => {
            scene.monochrome_sprites[range.start].order
        },
        PrimitiveBatch::SubpixelSprites { range, .. } => scene.subpixel_sprites[range.start].order,
        PrimitiveBatch::PolychromeSprites { range, .. } => {
            scene.polychrome_sprites[range.start].order
        },
        PrimitiveBatch::Surfaces(range) => scene.surfaces[range.start].order,
    }
}


/// Whether there are exponentials for every texel that the kernel of a blur
/// reaches, or the kernel needs none.
pub open spec fn enough_samples(blur: BackdropBlur, samples: Seq<Float32>) -> bool {
    kernel_radius(blur.texel_sigma()) <= MAX_KERNEL_RADIUS ==> samples.len() > kernel_radius(
        blur.texel_sigma(),
    )
}

/// After one pass of a blur.
pub open spec fn pass_drawn(
    p: Progress,
    vertical: bool,
    offset: int,
    source: BackdropSource,
    region: Seq<u32>,
) -> Progress {
    strip_drawn(
        p.then_do(Step::BeginBlurPass { vertical }).then_do(
            Step::SetPipeline { kind: PipelineKind::BackdropBlurPass },
        ).then_do(Step::BindBackdrop { offset, size: BLUR_PASS_SIZE as int, source }),
        region,
    )
}

/// After blurring what is behind a region: a copy of the frame, its two passes,
/// and painting the result over the region without blending.
#[verifier::opaque]
pub open spec fn blur_drawn(
    params: FrameParams,
    p: Progress,
    blur: BackdropBlur,
    slot: int,
    samples: Seq<Float32>,
) -> Progress {
    if !blur.on_screen(params.width, params.height) {
        p.then_do(Step::ContinueMainPass)
    } else {
        let s = blur.steps(p.scratch, params.width, params.height, samples);
        let horizontal = params.uniforms.slot_offset(slot, 0);
        let vertical = params.uniforms.slot_offset(slot, 1);
        let composite = params.uniforms.slot_offset(slot, 2);
        let ready = Progress {
            scratch: Some(s.scratch),
            ..(if s.create {
                p.then_do(Step::CreateScratch { scratch: s.scratch })
            } else {
                p
            })
        };
        let copied = ready.then_do(
            Step::CopyToSnapshot {
                left: s.copy_x,
                top: s.copy_y,
                width: s.scratch.width,
                height: s.scratch.height,
            },
        );
        let written = copied.then_do(
            Step::WriteBackdropUniform { offset: horizontal, words: s.horizontal_words },
        ).then_do(
            Step::WriteBackdropUniform { offset: vertical, words: s.vertical_words },
        ).then_do(Step::WriteBackdropUniform { offset: composite, words: s.composite_words });
        let first = pass_drawn(
            written,
            false,
            horizontal,
            BackdropSource::Snapshot,
            s.horizontal_region,
        );
        let second = pass_drawn(
            first,
            true,
            vertical,
            BackdropSource::Horizontal,
            s.vertical_region,
        );
        second.then_do(Step::ContinueMainPass).then_do(
            Step::SetPipeline { kind: PipelineKind::BackdropComposite },
        ).then_do(
            Step::BindBackdrop {
                offset: composite,
                size: BACKDROP_SIZE as int,
                source: BackdropSource::Vertical,
            },
        ).then_do(Step::Draw { vertices: 4, instances: 1 })
    }
}

/// After the blurs that come before a batch with this draw order: the next ones,
/// as long as their order is not above it. Blurs beyond the limit are left out.
pub open spec fn blurs_drawn(
    params: FrameParams,
    p: Progress,
    blurs: Seq<BackdropBlur>,
    kernels: Seq<Vec<Float32>>,
    order: DrawOrder,
) -> Progress
    decreases blurs.len() - p.next_blur,
{
    if params.backdrop_blur_supported && 0 <= p.next_blur < blurs.len() && blurs[p.next_blur].order
        <= order {
        blurs_drawn(
            params,
            blur_passed(params, p, blurs[p.next_blur], kernels),
            blurs,
            kernels,
            order,
        )
    } else {
        p
    }
}

/// After the next blur was drawn, or left out beyond the limit.
pub open spec fn blur_passed(
    params: FrameParams,
    p: Progress,
    blur: BackdropBlur,
    kernels: Seq<Vec<Float32>>,
) -> Progress {
    let drawn = if p.next_blur < BACKDROP_MAX_BLURS {
        blur_drawn(params, p, blur, p.next_blur, kernels[p.next_blur]@)
    } else {
        p
    };
    Progress { next_blur: p.next_blur + 1, ..drawn }
}

/// After drawing one batch, and whether there was room for it. Surfaces are not
/// drawn here.
pub open spec fn batch_drawn(
    params: FrameParams,
    p: Progress,
    scene: Scene,
    batch: PrimitiveBatch,
) -> (Progress, bool) {
    let (first, last) = batch.span();
    match batch {
        PrimitiveBatch::Quads(_) => quads_drawn(params, p, scene.quads@.subrange(first, last)),
        PrimitiveBatch::Shadows(_) => primitives_drawn(
            params,
            p,
            scene.shadows@.subrange(first, last),
            PipelineKind::Shadows,
            None,
        ),
        PrimitiveBatch::Paths(_) => paths_drawn(params, p, scene.paths@.subrange(first, last)),
        PrimitiveBatch::Underlines(_) => primitives_drawn(
            params,
            p,
            scene.underlines@.subrange(first, last),
            PipelineKind::Underlines,
            None,
        ),
        PrimitiveBatch::MonochromeSprites { texture_id, .. } => primitives_drawn(
            params,
            p,
            scene.monochrome_sprites@.subrange(first, last),
            PipelineKind::MonoSprites,
            Some(TextureSource::Atlas(texture_id)),
        ),
        PrimitiveBatch::SubpixelSprites { texture_id, .. } => primitives_drawn(
            params,
            p,
            scene.subpixel_sprites@.subrange(first, last),
            subpixel_kind(params),
            Some(TextureSource::Atlas(texture_id)),
        ),
        PrimitiveBatch::PolychromeSprites { texture_id, .. } => polychrome_drawn(
            params,
            p,
            scene.polychrome_sprites@.subrange(first, last),
            texture_id,
        ),
        PrimitiveBatch::Surfaces(_) => (p, true),
    }
}

/// After the batches from `i` on, each after the blurs that come before it, and
/// whether there was room for all.
pub open spec fn batches_drawn(
    params: FrameParams,
    p: Progress,
    scene: Scene,
    batches: Seq<PrimitiveBatch>,
    kernels: Seq<Vec<Float32>>,
    i: int,
) -> (Progress, bool)
    decreases batches.len() - i,
{
    if i >= batches.len() {
        (p, true)
    } else {
        let blurred = blurs_drawn(
            params,
            p,
            scene.backdrop_blurs@,
            kernels,
            batches[i].first_order(scene),
        );
        let (next, ok) = batch_drawn(params, blurred, scene, batches[i]);
        if ok {
            batches_drawn(params, next, scene, batches, kernels, i + 1)
        } else {
            (next, false)
        }
    }
}

/// A whole frame that starts with these textures for blurs.
pub open spec fn frame_drawn(
    params: FrameParams,
    scratch: Option<crate::backdrop::BackdropScratch>,
    scene: Scene,
    batches: Seq<PrimitiveBatch>,
    kernels: Seq<Vec<Float32>>,
) -> (Progress, bool) {
    let start = Progress { steps: seq![Step::BeginMainPass], offset: 0, scratch, next_blur: 0 };
    batches_drawn(params, start, scene, batches, kernels, 0)
}

/// Whether a blur is left when batch `i` is reached: one above all batches before.
pub open spec fn blur_pending(scene: Scene, batches: Seq<PrimitiveBatch>, i: int) -> bool {
    exists|j: int|
        0 <= j < scene.backdrop_blurs@.len() && above_batches(
            #[trigger] scene.backdrop_blurs@[j],
            scene,
            batches,
            i,
        )
}

/// Whether a blur comes after the first primitives of the first `i` batches.
pub open spec fn above_batches(
    blur: BackdropBlur,
    scene: Scene,
    batches: Seq<PrimitiveBatch>,
    i: int,
) -> bool {
    forall|k: int| 0 <= k < i ==> (#[trigger] batches[k]).first_order(scene) < blur.order
}

/// The batches are parts of the lists of the scene, but for surfaces, which are
/// not drawn. As long as a blur is left to draw, each batch has a first primitive
/// that the blur is compared with.
pub open spec fn batches_match(
    params: FrameParams,
    scene: Scene,
    batches: Seq<PrimitiveBatch>,
) -> bool {
    forall|i: int|
        0 <= i < batches.len() ==> {
            &&& (#[trigger] batches[i]) is Surfaces || batches[i].within(scene)
            &&& params.backdrop_blur_supported && blur_pending(scene, batches, i)
                ==> batches[i].span().0 < batches[i].orders(scene).len()
        }
}

/// Drawing quads does not look at blurs.
proof fn lemma_runs_next(params: FrameParams, p: Progress, quads: Seq<Quad>, start: int)
    requires
        start >= 0,
    ensures
        runs_drawn(params, p, quads, start).0.next_blur == p.next_blur,
    decreases quads.len() - start,
{
    if start < quads.len() {
        match quads[start].interior(params.viewport()) {
            Some(interior) => {
                let (next, ok) = interior_drawn(params, p, quads[start], interior);
                assert(next.next_blur == p.next_blur) by {
                    reveal(interior_drawn);
                }
                if ok {
                    lemma_runs_next(params, next, quads, start + 1);
                }
            },
            None => {
                let end = run_end(params, quads, start, start + 1);
                lemma_run_end(params, quads, start, start + 1);
                let (next, ok) = instances_drawn(
                    params,
                    p,
                    quads_words(quads.subrange(start, end)),
                    (end - start) as u32,
                    quad_pipeline(quads[start].kind()),
                    None,
                );
                assert(next.next_blur == p.next_blur) by {
                    reveal(instances_drawn);
                }
                if ok {
                    lemma_runs_next(params, next, quads, end);
                }
            },
        }
    }
}

/// Drawing a batch does not look at blurs.
pub(crate) proof fn lemma_batch_next(
    params: FrameParams,
    p: Progress,
    scene: Scene,
    batch: PrimitiveBatch,
)
    ensures
        batch_drawn(params, p, scene, batch).0.next_blur == p.next_blur,
{
    reveal(instances_drawn);
    reveal(paths_rasterized);
    let (first, last) = batch.span();
    if batch is Quads && params.software {
        lemma_runs_next(params, p, scene.quads@.subrange(first, last), 0);
    }
}

/// The blur that is next after those before a batch is above that batch, and
/// above all batches that it was above before.
proof fn lemma_next_is_above(
    params: FrameParams,
    p: Progress,
    scene: Scene,
    batches: Seq<PrimitiveBatch>,
    kernels: Seq<Vec<Float32>>,
    i: int,
)
    requires
        params.backdrop_blur_supported,
        0 <= i < batches.len(),
        0 <= p.next_blur <= scene.backdrop_blurs@.len(),
        p.next_blur < scene.backdrop_blurs@.len() ==> above_batches(
            scene.backdrop_blurs@[p.next_blur],
            scene,
            batches,
            i,
        ),
    ensures
        ({
            let blurs = scene.backdrop_blurs@;
            let order = batches[i].first_order(scene);
            let next = blurs_drawn(params, p, blurs, kernels, order).next_blur;
            &&& 0 <= next <= blurs.len()
            &&& next < blurs.len() ==> above_batches(blurs[next], scene, batches, i + 1)
        }),
{
    let blurs = scene.backdrop_blurs@;
    let order = batches[i].first_order(scene);
    crate::paint_order::law_blurs_come_first(params, p, blurs, kernels, order);
    let next = blurs_drawn(params, p, blurs, kernels, order).next_blur;
    if next < blurs.len() {
        assert forall|k: int| 0 <= k < i + 1 implies (#[trigger] batches[k]).first_order(scene)
            < blurs[next].order by {
            if k < i {
                assert(batches[k].first_order(scene) < blurs[p.next_blur].order);
            }
        }
    }
}

/// There are exponentials for every blur that is drawn.
pub open spec fn kernels_match(scene: Scene, kernels: Seq<Vec<Float32>>) -> bool {
    forall|i: int|
        0 <= i < scene.backdrop_blurs@.len() && i < BACKDROP_MAX_BLURS ==> i < kernels.len()
            && enough_samples(#[trigger] scene.backdrop_blurs@[i], kernels[i]@)
}

impl Recorder {
    fn draw_pass(&mut self, vertical: bool, offset: u64, source: BackdropSource, region: [u32; 4])
        ensures
            final(self)@ == pass_drawn(old(self)@, vertical, offset as int, source, region@),
    {
        self.emit(Command::BeginBlurPass { vertical });
        self.emit(Command::SetPipeline { kind: PipelineKind::BackdropBlurPass });
        self.emit(Command::BindBackdrop { offset, size: BLUR_PASS_SIZE, source });
        self.draw_strip(region);
    }

    /// Blurs what is behind a region and goes on with the main pass.
    pub fn draw_backdrop_blur(
        &mut self,
        params: &FrameParams,
        blur: &BackdropBlur,
        slot: usize,
        samples: &Vec<Float32>,
    )
        requires
            params.valid(),
            slot < BACKDROP_MAX_BLURS,
            enough_samples(*blur, samples@),
        ensures
            final(self)@ == blur_drawn(*params, old(self)@, *blur, slot as int, samples@),
    {
        proof {
            reveal(blur_drawn);
        }
        let current = self.scratch;
        match process_backdrop_blur(blur, current, params.width, params.height, samples) {
            None => {
                self.emit(Command::ContinueMainPass);
            },
            Some(plan) => {
                let horizontal: u64 = params.uniforms.slot(slot, 0);
                let vertical: u64 = params.uniforms.slot(slot, 1);
                let composite: u64 = params.uniforms.slot(slot, 2);
                if plan.create {
                    self.emit(Command::CreateScratch { scratch: plan.scratch });
                }
                self.scratch = Some(plan.scratch);
                self.emit(
                    Command::CopyToSnapshot {
                        x: plan.copy_x,
                        y: plan.copy_y,
                        width: plan.scratch.width,
                        height: plan.scratch.height,
                    },
                );
                self.emit(
                    Command::WriteBackdropUniform {
                        offset: horizontal,
                        words: plan.horizontal_words,
                    },
                );
                self.emit(
                    Command::WriteBackdropUniform { offset: vertical, words: plan.vertical_words },
                );
                self.emit(
                    Command::WriteBackdropUniform {
                        offset: composite,
                        words: plan.composite_words,
                    },
                );
                self.draw_pass(
                    false,
                    horizontal,
                    BackdropSource::Snapshot,
                    plan.horizontal_region,
                );
                self.draw_pass(true, vertical, BackdropSource::Horizontal, plan.vertical_region);
                self.emit(Command::ContinueMainPass);
                self.draw_backdrop_composite(composite);
            },
        }
    }

    /// Paints a blurred part of the frame over the region of its blur, without
    /// blending: it replaces what is there.
    pub fn draw_backdrop_composite(&mut self, offset: u64)
        ensures
            final(self)@ == old(self)@.then_do(
                Step::SetPipeline { kind: PipelineKind::BackdropComposite },
            ).then_do(
                Step::BindBackdrop {
                    offset: offset as int,
                    size: BACKDROP_SIZE as int,
                    source: BackdropSource::Vertical,
                },
            ).then_do(Step::Draw { vertices: 4, instances: 1 }),
    {
        self.emit(Command::SetPipeline { kind: PipelineKind::BackdropComposite });
        self.emit(
            Command::BindBackdrop {
                offset,
                size: BACKDROP_SIZE,
                source: BackdropSource::Vertical,
            },
        );
        self.emit(Command::Draw { vertices: 4, instances: 1 });
    }
}


impl Recorder {
    fn pass_blur(&mut self, params: &FrameParams, scene: &Scene, kernels: &Vec<Vec<Float32>>)
        requires
            params.valid(),
            kernels_match(*scene, kernels@),
            old(self).next_blur < scene.backdrop_blurs.len(),
        ensures
            final(self)@ == blur_passed(
                *params,
                old(self)@,
                scene.backdrop_blurs@[old(self)@.next_blur],
                kernels@,
            ),
    {
        let index: usize = self.next_blur;
        if index < BACKDROP_MAX_BLURS {
            assert(enough_samples(scene.backdrop_blurs@[index as int], kernels@[index as int]@));
            self.draw_backdrop_blur(params, &scene.backdrop_blurs[index], index, &kernels[index]);
        }
        self.next_blur = index + 1;
    }

    /// Draws the blurs that come before a batch.
    fn draw_blurs_before(
        &mut self,
        params: &FrameParams,
        scene: &Scene,
        batch: &PrimitiveBatch,
        kernels: &Vec<Vec<Float32>>,
    )
        requires
            params.valid(),
            kernels_match(*scene, kernels@),
            params.backdrop_blur_supported && old(self).next_blur < scene.backdrop_blurs@.len()
                ==> batch.span().0 < batch.orders(*scene).len(),
        ensures
            final(self)@ == blurs_drawn(
                *params,
                old(self)@,
                scene.backdrop_blurs@,
                kernels@,
                batch.first_order(*scene),
            ),
    {
        if !params.backdrop_blur_supported || self.next_blur >= scene.backdrop_blurs.len() {
            return;
        }
        let order: DrawOrder = batch_first_order(scene, batch);
        let ghost start = self@;
        while self.next_blur < scene.backdrop_blurs.len()
            && scene.backdrop_blurs[self.next_blur].order <= order
            invariant
                params.valid(),
                params.backdrop_blur_supported,
                kernels_match(*scene, kernels@),
                blurs_drawn(*params, self@, scene.backdrop_blurs@, kernels@, order) == blurs_drawn(
                    *params,
                    start,
                    scene.backdrop_blurs@,
                    kernels@,
                    order,
                ),
            decreases scene.backdrop_blurs.len() - self.next_blur,
        {
            let ghost before = self@;
            self.pass_blur(params, scene, kernels);
            assert(self@.next_blur == before.next_blur + 1);
        }
    }

    /// Draws one batch; false if there is no room for it.
    fn draw_batch(&mut self, params: &FrameParams, scene: &Scene, batch: &PrimitiveBatch) -> (ok:
        bool)
        requires
            params.valid(),
            batch is Surfaces || batch.within(*scene),
        ensures
            (final(self)@, ok) == batch_drawn(*params, old(self)@, *scene, *batch),
    {
        match batch {
            PrimitiveBatch::Quads(range) => {
                self.draw_quads(params, &scene.quads, range.start, range.end)
            },
            PrimitiveBatch::Shadows(range) => {
                self.draw_shadows(params, &scene.shadows, range.start, range.end)
            },
            PrimitiveBatch::Paths(range) => {
                self.draw_paths(params, &scene.paths, range.start, range.end)
            },
            PrimitiveBatch::Underlines(range) => {
                self.draw_underlines(params, &scene.underlines, range.start, range.end)
            },
            PrimitiveBatch::MonochromeSprites { texture_id, range } => {
                self.draw_monochrome_sprites(
                    params,
                    &scene.monochrome_sprites,
                    range.start,
                    range.end,
                    *texture_id,
                )
            },
            PrimitiveBatch::SubpixelSprites { texture_id, range } => {
                self.draw_subpixel_sprites(
                    params,
                    &scene.subpixel_sprites,
                    range.start,
                    range.end,
                    *texture_id,
                )
            },
            PrimitiveBatch::PolychromeSprites { texture_id, range } => {
                self.draw_polychrome_sprites(
                    params,
                    &scene.polychrome_sprites,
                    range.start,
                    range.end,
                    *texture_id,
                )
            },
            PrimitiveBatch::Surfaces(_) => true,
        }
    }

    /// Records a whole frame; false if there is no room for all of it.
    pub fn record_frame(
        &mut self,
        params: &FrameParams,
        scene: &Scene,
        batches: &Vec<PrimitiveBatch>,
        kernels: &Vec<Vec<Float32>>,
    ) -> (ok: bool)
        requires
            params.valid(),
            batches_match(*params, *scene, batches@),
            kernels_match(*scene, kernels@),
            old(self)@ == (Progress {
                steps: seq![],
                offset: 0,
                scratch: old(self).scratch,
                next_blur: 0,
            }),
        ensures
            (final(self)@, ok) == frame_drawn(
                *params,
                old(self).scratch,
                *scene,
                batches@,
                kernels@,
            ),
    {
        self.emit(Command::BeginMainPass);
        let ghost start = self@;
        assert(start.steps =~= seq![Step::BeginMainPass]);
        let mut i: usize = 0;
        while i < batches.len()
            invariant
                params.valid(),
                batches_match(*params, *scene, batches@),
                kernels_match(*scene, kernels@),
                i <= batches.len(),
                self.next_blur <= scene.backdrop_blurs.len(),
                params.backdrop_blur_supported && self.next_blur < scene.backdrop_blurs.len()
                    ==> above_batches(
                    scene.backdrop_blurs@[self.next_blur as int],
                    *scene,
                    batches@,
                    i as int,
                ),
                batches_drawn(*params, self@, *scene, batches@, kernels@, i as int)
                    == batches_drawn(*params, start, *scene, batches@, kernels@, 0),
                frame_drawn(*params, old(self).scratch, *scene, batches@, kernels@)
                    == batches_drawn(*params, start, *scene, batches@, kernels@, 0),
            decreases batches.len() - i,
        {
            assert(batches@[i as int] is Surfaces || batches@[i as int].within(*scene));
            proof {
                if params.backdrop_blur_supported {
                    lemma_next_is_above(*params, self@, *scene, batches@, kernels@, i as int);
                }
            }
            self.draw_blurs_before(params, scene, &batches[i], kernels);
            proof {
                lemma_batch_next(*params, self@, *scene, batches@[i as int]);
            }
            if !self.draw_batch(params, scene, &batches[i]) {
                return false;
            }
            i = i + 1;
        }
        true
    }
}

} // verus!
