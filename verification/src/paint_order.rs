//! Proof that primitives are drawn in their paint order, each of them once, and
//! that nothing of how they were drawn is left over.
use crate::commands::{
    bind_instances, instances_fit, FrameParams, Globals, Progress, Step, TextureSource,
};
use crate::drawing::{
    interior_drawn, instances_drawn, lemma_run_end, path_sprites, paths_rasterized,
    primitives_drawn, primitives_words, quad_pipeline, quads_drawn, quads_words, run_end,
    runs_drawn, scissor, sprites_words, strip_drawn, subpixel_kind,
};
use crate::float::Float32;
use crate::frame::{batch_drawn, blur_passed, blurs_drawn};
use crate::pipelines::PipelineKind;
use crate::quads::{strip_above, strip_below, strip_left, strip_right};
use crate::scene::{BackdropBlur, DrawOrder, Primitive, PrimitiveBatch, Quad, Scene};
use vstd::prelude::*;

verus! {

/// All that was written to the instance buffer, in order.
pub open spec fn written(steps: Seq<Step>) -> Seq<u32>
    decreases steps.len(),
{
    if steps.len() == 0 {
        seq![]
    } else {
        match steps.last() {
            Step::WriteInstances { words, .. } => written(steps.drop_last()) + words,
            _ => written(steps.drop_last()),
        }
    }
}

/// The scissor that is in force, if one was set since the last pass began.
pub open spec fn open_scissor(steps: Seq<Step>) -> Option<(u32, u32, u32, u32)>
    decreases steps.len(),
{
    if steps.len() == 0 {
        None
    } else {
        match steps.last() {
            Step::SetScissor { x, y, width, height } => Some((x, y, width, height)),
            Step::BeginMainPass => None,
            Step::ContinueMainPass => None,
            Step::BeginPathPass { .. } => None,
            Step::BeginBlurPass { .. } => None,
            _ => open_scissor(steps.drop_last()),
        }
    }
}

/// Nothing is cut off: there is no scissor, or it is the whole viewport.
pub open spec fn scissor_open(params: FrameParams, steps: Seq<Step>) -> bool {
    match open_scissor(steps) {
        None => true,
        Some(rectangle) => rectangle == (0u32, 0u32, params.width, params.height),
    }
}

proof fn lemma_then(p: Progress, step: Step)
    ensures
        written(p.then_do(step).steps) == match step {
            Step::WriteInstances { words, .. } => written(p.steps) + words,
            _ => written(p.steps),
        },
        open_scissor(p.then_do(step).steps) == match step {
            Step::SetScissor { x, y, width, height } => Some((x, y, width, height)),
            Step::BeginMainPass => None,
            Step::ContinueMainPass => None,
            Step::BeginPathPass { .. } => None,
            Step::BeginBlurPass { .. } => None,
            _ => open_scissor(p.steps),
        },
{
    let q = p.then_do(step);
    assert(q.steps.drop_last() =~= p.steps);
    assert(q.steps.last() == step);
}

proof fn lemma_with_instances(params: FrameParams, p: Progress, words: Seq<u32>)
    ensures
        written(p.with_instances(params, words).steps) == written(p.steps) + words,
        open_scissor(p.with_instances(params, words).steps) == open_scissor(p.steps),
{
    let q = p.with_instances(params, words);
    assert(q.steps.drop_last() =~= p.steps);
}

/// Drawing instances writes their words once and leaves the scissor alone.
pub proof fn law_instances_are_written(
    params: FrameParams,
    p: Progress,
    words: Seq<u32>,
    count: u32,
    kind: PipelineKind,
    texture: Option<TextureSource>,
)
    ensures
        ({
            let (next, ok) = instances_drawn(params, p, words, count, kind, texture);
            &&& open_scissor(next.steps) == open_scissor(p.steps)
            &&& ok && count != 0 ==> written(next.steps) == written(p.steps) + words
            &&& ok == (count == 0 || instances_fit(params, p.offset, words))
        }),
{
    reveal(instances_drawn);
    lemma_with_instances(params, p, words);
    let a = p.with_instances(params, words);
    let pipeline = Step::SetPipeline { kind };
    let bind = bind_instances(params, p.offset, words, Globals::Main, texture);
    lemma_then(a, pipeline);
    lemma_then(a.then_do(pipeline), bind);
    lemma_then(
        a.then_do(pipeline).then_do(bind),
        Step::Draw { vertices: 4, instances: count },
    );
}

proof fn lemma_strip(p: Progress, strip: Seq<u32>)
    ensures
        written(strip_drawn(p, strip).steps) == written(p.steps),
{
    lemma_then(p, scissor(strip));
    lemma_then(p.then_do(scissor(strip)), Step::Draw { vertices: 4, instances: 1 });
}

proof fn lemma_interior(params: FrameParams, p: Progress, quad: Quad, interior: Seq<u32>)
    ensures
        ({
            let (next, ok) = interior_drawn(params, p, quad, interior);
            &&& ok ==> written(next.steps) == written(p.steps) + quad.words()
            &&& ok ==> scissor_open(params, next.steps)
            &&& !ok ==> next == p
        }),
{
    reveal(interior_drawn);
    let words = quad.words();
    lemma_with_instances(params, p, words);
    let a = p.with_instances(params, words);
    let bind = bind_instances(params, p.offset, words, Globals::Main, None);
    lemma_then(a, bind);
    let b = a.then_do(bind);
    let pipeline = Step::SetPipeline { kind: PipelineKind::Quads };
    lemma_then(b, pipeline);
    let v = params.viewport();
    let c = b.then_do(pipeline);
    lemma_strip(c, strip_left(interior, v));
    let d = strip_drawn(c, strip_left(interior, v));
    lemma_strip(d, strip_right(interior, v));
    let e = strip_drawn(d, strip_right(interior, v));
    lemma_strip(e, strip_above(interior, v));
    let f = strip_drawn(e, strip_above(interior, v));
    lemma_strip(f, strip_below(interior, v));
    let g = strip_drawn(f, strip_below(interior, v));
    let kind = if quad.fully_opaque() {
        PipelineKind::OpaqueSolidQuads
    } else {
        PipelineKind::SolidQuads
    };
    lemma_then(g, Step::SetPipeline { kind });
    let h = g.then_do(Step::SetPipeline { kind });
    lemma_then(h, scissor(interior));
    let i = h.then_do(scissor(interior));
    let draw = Step::Draw { vertices: 4, instances: 1 };
    lemma_then(i, draw);
    lemma_then(i.then_do(draw), scissor(seq![0, 0, params.width, params.height]));
}

/// The words of quads are those of a first part and of the rest.
proof fn lemma_quads_words(a: Seq<Quad>, b: Seq<Quad>)
    ensures
        quads_words(a + b) == quads_words(a) + quads_words(b),
    decreases b.len(),
{
    if b.len() == 0 {
        assert(a + b =~= a);
        assert(quads_words(a) + quads_words(b) =~= quads_words(a));
    } else {
        lemma_quads_words(a, b.drop_last());
        assert((a + b).drop_last() =~= a + b.drop_last());
        assert((a + b).last() == b.last());
        assert(quads_words(a) + (quads_words(b.drop_last()) + b.last().words()) =~= (quads_words(a)
            + quads_words(b.drop_last())) + b.last().words());
    }
}

proof fn lemma_runs(params: FrameParams, p: Progress, quads: Seq<Quad>, start: int)
    requires
        0 <= start <= quads.len() <= u32::MAX,
    ensures
        ({
            let (next, ok) = runs_drawn(params, p, quads, start);
            ok ==> written(next.steps) == written(p.steps) + quads_words(
                quads.subrange(start, quads.len() as int),
            )
        }),
        scissor_open(params, p.steps) ==> scissor_open(
            params,
            runs_drawn(params, p, quads, start).0.steps,
        ),
    decreases quads.len() - start,
{
    let whole = quads.subrange(start, quads.len() as int);
    if start >= quads.len() {
        assert(whole =~= seq![]);
        assert(written(p.steps) + quads_words(whole) =~= written(p.steps));
    } else {
        let interior = quads[start].interior(params.viewport());
        let end = if interior is Some {
            start + 1
        } else {
            run_end(params, quads, start, start + 1)
        };
        lemma_run_end(params, quads, start, start + 1);
        let part = quads.subrange(start, end);
        let rest = quads.subrange(end, quads.len() as int);
        assert(whole =~= part + rest);
        lemma_quads_words(part, rest);
        if interior is Some {
            lemma_interior(params, p, quads[start], interior->0);
            assert(part.drop_last() =~= seq![]);
            assert(part.last() == quads[start]);
            assert(quads_words(part.drop_last()) =~= seq![]);
            assert(quads_words(part) =~= quads[start].words());
            let (next, ok) = interior_drawn(params, p, quads[start], interior->0);
            if ok {
                lemma_runs(params, next, quads, end);
            }
        } else {
            let count = (end - start) as u32;
            let kind = quad_pipeline(quads[start].kind());
            law_instances_are_written(params, p, quads_words(part), count, kind, None);
            let (next, ok) = instances_drawn(params, p, quads_words(part), count, kind, None);
            if ok {
                lemma_runs(params, next, quads, end);
            }
        }
        assert((written(p.steps) + quads_words(part)) + quads_words(rest) =~= written(p.steps) + (
        quads_words(part) + quads_words(rest)));
    }
}

/// Quads keep their paint order, whatever runs and parts they are drawn in: if
/// there is room for a batch, each of its quads is written once, one after the
/// other. No scissor stays behind.
pub proof fn law_quads_keep_paint_order(params: FrameParams, p: Progress, quads: Seq<Quad>)
    requires
        quads.len() <= u32::MAX,
    ensures
        ({
            let (next, ok) = quads_drawn(params, p, quads);
            &&& ok ==> written(next.steps) == written(p.steps) + quads_words(quads)
            &&& scissor_open(params, p.steps) ==> scissor_open(params, next.steps)
        }),
{
    if params.software {
        lemma_runs(params, p, quads, 0);
        assert(quads.subrange(0, quads.len() as int) =~= quads);
    } else {
        law_instances_are_written(
            params,
            p,
            quads_words(quads),
            quads.len() as u32,
            crate::drawing::batch_pipeline(quads),
            None,
        );
        if quads.len() == 0 {
            reveal(instances_drawn);
            assert(written(p.steps) + quads_words(quads) =~= written(p.steps));
        }
    }
}

/// Before a batch is drawn, all blurs up to its draw order are dealt with, and
/// none beyond it.
pub proof fn law_blurs_come_first(
    params: FrameParams,
    p: Progress,
    blurs: Seq<BackdropBlur>,
    kernels: Seq<Vec<Float32>>,
    order: DrawOrder,
)
    requires
        params.backdrop_blur_supported,
        0 <= p.next_blur <= blurs.len(),
    ensures
        ({
            let next = blurs_drawn(params, p, blurs, kernels, order).next_blur;
            &&& p.next_blur <= next <= blurs.len()
            &&& forall|i: int|
                p.next_blur <= i < next ==> (#[trigger] blurs[i]).order <= order
            &&& next < blurs.len() ==> blurs[next].order > order
        }),
    decreases blurs.len() - p.next_blur,
{
    if p.next_blur < blurs.len() && blurs[p.next_blur].order <= order {
        let q = blur_passed(params, p, blurs[p.next_blur], kernels);
        law_blurs_come_first(params, q, blurs, kernels, order);
    }
}

/// A batch that starts without a scissor in force ends without one.
pub proof fn law_scissor_is_reset(
    params: FrameParams,
    p: Progress,
    scene: Scene,
    batch: PrimitiveBatch,
)
    requires
        batch is Surfaces || (batch.within(scene) && batch.span().1 - batch.span().0 <= u32::MAX),
        scissor_open(params, p.steps),
    ensures
        scissor_open(params, batch_drawn(params, p, scene, batch).0.steps),
{
    let (first, last) = batch.span();
    match batch {
        PrimitiveBatch::Quads(_) => {
            law_quads_keep_paint_order(params, p, scene.quads@.subrange(first, last));
        },
        PrimitiveBatch::Shadows(_) => {
            let part = scene.shadows@.subrange(first, last);
            lemma_primitives(params, p, part, PipelineKind::Shadows, None);
        },
        PrimitiveBatch::Paths(_) => {
            let paths = scene.paths@.subrange(first, last);
            if paths.len() > 0 {
                let (rasterized, ok) = paths_rasterized(params, p, paths);
                lemma_then(rasterized, Step::ContinueMainPass);
                let resumed = rasterized.then_do(Step::ContinueMainPass);
                let (words, count) = path_sprites(paths);
                law_instances_are_written(
                    params,
                    resumed,
                    words,
                    count as u32,
                    PipelineKind::Paths,
                    Some(TextureSource::PathIntermediate),
                );
            }
        },
        PrimitiveBatch::Underlines(_) => {
            let part = scene.underlines@.subrange(first, last);
            lemma_primitives(params, p, part, PipelineKind::Underlines, None);
        },
        PrimitiveBatch::MonochromeSprites { texture_id, .. } => {
            let part = scene.monochrome_sprites@.subrange(first, last);
            let texture = Some(TextureSource::Atlas(texture_id));
            lemma_primitives(params, p, part, PipelineKind::MonoSprites, texture);
        },
        PrimitiveBatch::SubpixelSprites { texture_id, .. } => {
            let part = scene.subpixel_sprites@.subrange(first, last);
            let texture = Some(TextureSource::Atlas(texture_id));
            lemma_primitives(params, p, part, subpixel_kind(params), texture);
        },
        PrimitiveBatch::PolychromeSprites { texture_id, .. } => {
            let part = scene.polychrome_sprites@.subrange(first, last);
            law_instances_are_written(
                params,
                p,
                sprites_words(part),
                part.len() as u32,
                PipelineKind::PolySprites,
                Some(TextureSource::Atlas(texture_id)),
            );
        },
        PrimitiveBatch::Surfaces(_) => {},
    }
}

proof fn lemma_primitives(
    params: FrameParams,
    p: Progress,
    primitives: Seq<Primitive>,
    kind: PipelineKind,
    texture: Option<TextureSource>,
)
    ensures
        open_scissor(primitives_drawn(params, p, primitives, kind, texture).0.steps)
            == open_scissor(p.steps),
{
    law_instances_are_written(
        params,
        p,
        primitives_words(primitives),
        primitives.len() as u32,
        kind,
        texture,
    );
}

} // verus!
