//! What holds of every recorded frame.
use crate::backdrop::BackdropScratch;
use crate::commands::{
    bind_instances, instance_offset, instance_size, instances_fit, BackdropSource, FrameParams,
    Globals, Progress, Step, TextureSource,
};
use crate::drawing::{
    batch_pipeline, interior_drawn, instances_drawn, lemma_run_end, path_sprites, paths_drawn,
    paths_rasterized, paths_words, primitives_words, quad_pipeline, quads_drawn, quads_words,
    run_end, runs_drawn, scissor, sprites_words, strip_drawn, subpixel_kind, vertex_count,
};
use crate::float::Float32;
use crate::frame::{
    batch_drawn, batches_drawn, blur_drawn, blur_passed, blurs_drawn, frame_drawn, pass_drawn,
};
use crate::pipelines::PipelineKind;
use crate::quads::{strip_above, strip_below, strip_left, strip_right};
use crate::scene::{BackdropBlur, DrawOrder, Path, PrimitiveBatch, Quad, Scene};
use crate::uniforms::{lemma_align_up, BACKDROP_MAX_BLURS, BACKDROP_SIZE, BLUR_PASS_SIZE};
use vstd::prelude::*;

verus! {

/// What holds of a single step of a frame.
pub open spec fn step_sound(params: FrameParams, p: Progress, step: Step) -> bool {
    match step {
        Step::WriteInstances { offset, words } => {
            &&& 0 <= offset
            &&& offset % (params.alignment as int) == 0
            &&& offset + instance_size(words) <= p.offset
        },
        Step::WriteBackdropUniform { offset, words } => {
            &&& 0 <= offset
            &&& 4 * words.len() <= BLUR_PASS_SIZE
            &&& offset + BLUR_PASS_SIZE <= params.uniforms.slot_offset(p.next_blur, 0)
        },
        Step::CopyToSnapshot { left, top, width, height } => {
            &&& 0 <= left && left + width <= params.width
            &&& 0 <= top && top + height <= params.height
        },
        Step::CreateScratch { scratch } => scratch.valid(),
        _ => true,
    }
}

/// What is written by two steps of a frame, one after the other, does not
/// overlap.
pub open spec fn steps_apart(first: Step, second: Step) -> bool {
    match (first, second) {
        (
            Step::WriteInstances { offset: a, words },
            Step::WriteInstances { offset: b, .. },
        ) => a + instance_size(words) <= b,
        (
            Step::WriteBackdropUniform { offset: a, .. },
            Step::WriteBackdropUniform { offset: b, .. },
        ) => a + BLUR_PASS_SIZE <= b,
        _ => true,
    }
}

/// Whether a step writes just what another one binds.
pub open spec fn writes_for(write: Step, bind: Step) -> bool {
    match (write, bind) {
        (
            Step::WriteInstances { offset, words },
            Step::BindInstances { offset: bound, size, .. },
        ) => offset == bound && instance_size(words) == size,
        (
            Step::WriteBackdropUniform { offset, words },
            Step::BindBackdrop { offset: bound, size, .. },
        ) => offset == bound && 4 * words.len() == size,
        _ => false,
    }
}

/// Whether a step binds a part of a buffer.
pub open spec fn binds(step: Step) -> bool {
    step is BindInstances || step is BindBackdrop
}

/// Every part of a buffer that is bound was written before.
pub open spec fn binds_sound(steps: Seq<Step>) -> bool {
    forall|i: int|
        0 <= i < steps.len() && binds(#[trigger] steps[i]) ==> exists|j: int|
            0 <= j < i && writes_for(#[trigger] steps[j], steps[i])
}

/// What holds of a frame as far as it is recorded.
pub open spec fn sound(params: FrameParams, p: Progress) -> bool {
    &&& 0 <= p.offset <= params.capacity
    &&& forall|i: int| 0 <= i < p.steps.len() ==> step_sound(params, p, #[trigger] p.steps[i])
    &&& forall|i: int, j: int|
        0 <= i < j < p.steps.len() ==> steps_apart(#[trigger] p.steps[i], #[trigger] p.steps[j])
    &&& binds_sound(p.steps)
    &&& p.scratch is Some ==> p.scratch->0.valid()
    &&& 0 <= p.next_blur
}

/// Whether a step neither writes nor binds nor copies anything.
pub open spec fn plain(step: Step) -> bool {
    match step {
        Step::WriteInstances { .. } => false,
        Step::WriteBackdropUniform { .. } => false,
        Step::CopyToSnapshot { .. } => false,
        Step::CreateScratch { .. } => false,
        Step::BindInstances { .. } => false,
        Step::BindBackdrop { .. } => false,
        _ => true,
    }
}

proof fn lemma_then_plain(params: FrameParams, p: Progress, step: Step)
    requires
        sound(params, p),
        plain(step),
    ensures
        sound(params, p.then_do(step)),
{
    lemma_then_sound(params, p, step);
}

/// A step that is sound itself, keeps clear of those before and binds what was
/// written keeps a frame sound.
proof fn lemma_then_sound(params: FrameParams, p: Progress, step: Step)
    requires
        sound(params, p),
        step_sound(params, p, step),
        forall|i: int| 0 <= i < p.steps.len() ==> steps_apart(#[trigger] p.steps[i], step),
        binds(step) ==> exists|j: int|
            0 <= j < p.steps.len() && writes_for(#[trigger] p.steps[j], step),
    ensures
        sound(params, p.then_do(step)),
{
    let q = p.then_do(step);
    assert forall|i: int| 0 <= i < q.steps.len() implies step_sound(
        params,
        q,
        #[trigger] q.steps[i],
    ) by {
        if i < p.steps.len() {
            assert(step_sound(params, p, p.steps[i]));
        }
    }
    assert forall|i: int, j: int| 0 <= i < j < q.steps.len() implies steps_apart(
        #[trigger] q.steps[i],
        #[trigger] q.steps[j],
    ) by {
        if j < p.steps.len() {
            assert(steps_apart(p.steps[i], p.steps[j]));
        } else {
            assert(steps_apart(p.steps[i], step));
        }
    }
    assert forall|i: int| 0 <= i < q.steps.len() && binds(#[trigger] q.steps[i]) implies exists|
        j: int,
    |
        0 <= j < i && writes_for(#[trigger] q.steps[j], q.steps[i]) by {
        let j = choose|j: int|
            0 <= j < i && j < p.steps.len() && writes_for(#[trigger] p.steps[j], q.steps[i]);
        if i < p.steps.len() {
            assert(binds(p.steps[i]));
        }
        assert(writes_for(q.steps[j], q.steps[i]));
    }
}


/// Writing what fits keeps a frame sound, and what was written can be bound.
proof fn lemma_with_instances(params: FrameParams, p: Progress, words: Seq<u32>)
    requires
        params.valid(),
        sound(params, p),
        instances_fit(params, p.offset, words),
    ensures
        sound(params, p.with_instances(params, words)),
        ({
            let q = p.with_instances(params, words);
            &&& q.steps.len() == p.steps.len() + 1
            &&& forall|globals: Globals, texture: Option<TextureSource>|
                writes_for(
                    q.steps[q.steps.len() - 1],
                    #[trigger] bind_instances(params, p.offset, words, globals, texture),
                )
        }),
{
    lemma_align_up(p.offset, params.alignment as int);
    let q = p.with_instances(params, words);
    let wide = Progress { offset: q.offset, ..p };
    assert forall|i: int| 0 <= i < wide.steps.len() implies step_sound(
        params,
        wide,
        #[trigger] wide.steps[i],
    ) by {
        assert(step_sound(params, p, p.steps[i]));
    }
    let step = Step::WriteInstances { offset: instance_offset(params, p.offset), words };
    assert forall|i: int| 0 <= i < wide.steps.len() implies steps_apart(
        #[trigger] wide.steps[i],
        step,
    ) by {
        assert(step_sound(params, p, p.steps[i]));
    }
    assert(sound(params, wide));
    lemma_then_sound(params, wide, step);
    assert(q == wide.then_do(step));
}

/// Binding what was written some steps ago.
proof fn lemma_then_bind(params: FrameParams, p: Progress, j: int, bind: Step)
    requires
        sound(params, p),
        binds(bind),
        0 <= j < p.steps.len(),
        writes_for(p.steps[j], bind),
    ensures
        sound(params, p.then_do(bind)),
{
    lemma_then_sound(params, p, bind);
}

proof fn lemma_instances_drawn(
    params: FrameParams,
    p: Progress,
    words: Seq<u32>,
    count: u32,
    kind: PipelineKind,
    texture: Option<TextureSource>,
)
    requires
        params.valid(),
        sound(params, p),
    ensures
        sound(params, instances_drawn(params, p, words, count, kind, texture).0),
        instances_drawn(params, p, words, count, kind, texture).0.next_blur == p.next_blur,
{
    reveal(instances_drawn);
    if count != 0 && instances_fit(params, p.offset, words) {
        lemma_with_instances(params, p, words);
        let a = p.with_instances(params, words);
        let b = a.then_do(Step::SetPipeline { kind });
        lemma_then_plain(params, a, Step::SetPipeline { kind });
        let bind = bind_instances(params, p.offset, words, Globals::Main, texture);
        assert(b.steps[a.steps.len() - 1] == a.steps[a.steps.len() - 1]);
        lemma_then_bind(params, b, a.steps.len() - 1, bind);
        lemma_then_plain(params, b.then_do(bind), Step::Draw { vertices: 4, instances: count });
    }
}

proof fn lemma_strip_drawn(params: FrameParams, p: Progress, strip: Seq<u32>)
    requires
        sound(params, p),
    ensures
        sound(params, strip_drawn(p, strip)),
        strip_drawn(p, strip).next_blur == p.next_blur,
        strip_drawn(p, strip).scratch == p.scratch,
        p.steps.is_prefix_of(strip_drawn(p, strip).steps),
{
    let s = scissor(strip);
    lemma_then_plain(params, p, s);
    lemma_then_plain(params, p.then_do(s), Step::Draw { vertices: 4, instances: 1 });
}

proof fn lemma_interior_drawn(params: FrameParams, p: Progress, quad: Quad, interior: Seq<u32>)
    requires
        params.valid(),
        sound(params, p),
    ensures
        sound(params, interior_drawn(params, p, quad, interior).0),
        interior_drawn(params, p, quad, interior).0.next_blur == p.next_blur,
{
    reveal(interior_drawn);
    let words = quad.words();
    if instances_fit(params, p.offset, words) {
        lemma_with_instances(params, p, words);
        let a = p.with_instances(params, words);
        let bind = bind_instances(params, p.offset, words, Globals::Main, None);
        lemma_then_bind(params, a, a.steps.len() - 1, bind);
        let b = a.then_do(bind);
        let pipeline = Step::SetPipeline { kind: PipelineKind::Quads };
        lemma_then_plain(params, b, pipeline);
        let v = params.viewport();
        let c = b.then_do(pipeline);
        let left = strip_left(interior, v);
        let right = strip_right(interior, v);
        let above = strip_above(interior, v);
        let below = strip_below(interior, v);
        lemma_strip_drawn(params, c, left);
        let d = strip_drawn(c, left);
        lemma_strip_drawn(params, d, right);
        let e = strip_drawn(d, right);
        lemma_strip_drawn(params, e, above);
        let f = strip_drawn(e, above);
        lemma_strip_drawn(params, f, below);
        let g = strip_drawn(f, below);
        let kind = if quad.fully_opaque() {
            PipelineKind::OpaqueSolidQuads
        } else {
            PipelineKind::SolidQuads
        };
        lemma_then_plain(params, g, Step::SetPipeline { kind });
        let h = g.then_do(Step::SetPipeline { kind });
        lemma_strip_end(params, h, interior);
    }
}

proof fn lemma_strip_end(params: FrameParams, h: Progress, interior: Seq<u32>)
    requires
        sound(params, h),
    ensures
        sound(
            params,
            h.then_do(scissor(interior)).then_do(
                Step::Draw { vertices: 4, instances: 1 },
            ).then_do(scissor(seq![0, 0, params.width, params.height])),
        ),
{
    let s = scissor(interior);
    lemma_then_plain(params, h, s);
    let i = h.then_do(s);
    let draw = Step::Draw { vertices: 4, instances: 1 };
    lemma_then_plain(params, i, draw);
    lemma_then_plain(
        params,
        i.then_do(draw),
        scissor(seq![0, 0, params.width, params.height]),
    );
}

proof fn lemma_runs_drawn(params: FrameParams, p: Progress, quads: Seq<Quad>, start: int)
    requires
        params.valid(),
        sound(params, p),
        start >= 0,
    ensures
        sound(params, runs_drawn(params, p, quads, start).0),
        runs_drawn(params, p, quads, start).0.next_blur == p.next_blur,
    decreases quads.len() - start,
{
    if start < quads.len() {
        match quads[start].interior(params.viewport()) {
            Some(interior) => {
                lemma_interior_drawn(params, p, quads[start], interior);
                let (next, ok) = interior_drawn(params, p, quads[start], interior);
                if ok {
                    lemma_runs_drawn(params, next, quads, start + 1);
                }
            },
            None => {
                let end = run_end(params, quads, start, start + 1);
                lemma_run_end(params, quads, start, start + 1);
                let words = quads_words(quads.subrange(start, end));
                let kind = quad_pipeline(quads[start].kind());
                lemma_instances_drawn(params, p, words, (end - start) as u32, kind, None);
                let (next, ok) = instances_drawn(
                    params,
                    p,
                    words,
                    (end - start) as u32,
                    kind,
                    None,
                );
                if ok {
                    lemma_runs_drawn(params, next, quads, end);
                }
            },
        }
    }
}

proof fn lemma_paths_drawn(params: FrameParams, p: Progress, paths: Seq<Path>)
    requires
        params.valid(),
        sound(params, p),
    ensures
        sound(params, paths_drawn(params, p, paths).0),
        paths_drawn(params, p, paths).0.next_blur == p.next_blur,
{
    if paths.len() > 0 {
        lemma_paths_rasterized(params, p, paths);
        let (rasterized, ok) = paths_rasterized(params, p, paths);
        lemma_then_plain(params, rasterized, Step::ContinueMainPass);
        let resumed = rasterized.then_do(Step::ContinueMainPass);
        if ok && params.path_intermediate {
            let (words, count) = path_sprites(paths);
            lemma_instances_drawn(
                params,
                resumed,
                words,
                count as u32,
                PipelineKind::Paths,
                Some(TextureSource::PathIntermediate),
            );
        }
    }
}

proof fn lemma_paths_rasterized(params: FrameParams, p: Progress, paths: Seq<Path>)
    requires
        params.valid(),
        sound(params, p),
    ensures
        sound(params, paths_rasterized(params, p, paths).0),
        paths_rasterized(params, p, paths).0.next_blur == p.next_blur,
{
    reveal(paths_rasterized);
    let words = paths_words(paths);
    if words.len() > 0 && instances_fit(params, p.offset, words) {
        lemma_with_instances(params, p, words);
        if params.path_intermediate {
            let a = p.with_instances(params, words);
            let pass = Step::BeginPathPass { msaa: params.path_msaa };
            lemma_then_plain(params, a, pass);
            let b = a.then_do(pass);
            let pipeline = Step::SetPipeline { kind: PipelineKind::PathRasterization };
            lemma_then_plain(params, b, pipeline);
            let c = b.then_do(pipeline);
            let bind = bind_instances(params, p.offset, words, Globals::Path, None);
            assert(c.steps[a.steps.len() - 1] == a.steps[a.steps.len() - 1]);
            lemma_then_bind(params, c, a.steps.len() - 1, bind);
            lemma_then_plain(
                params,
                c.then_do(bind),
                Step::Draw { vertices: vertex_count(paths) as u32, instances: 1 },
            );
        }
    }
}


/// The uniforms of the blurs before this one do not reach its slots.
spec fn slots_free(params: FrameParams, p: Progress, slot: int) -> bool {
    forall|i: int|
        0 <= i < p.steps.len() ==> match #[trigger] p.steps[i] {
            Step::WriteBackdropUniform { offset, .. } => offset + BLUR_PASS_SIZE
                <= params.uniforms.slot_offset(slot, 0),
            _ => true,
        }
}

proof fn lemma_slot_offsets(params: FrameParams, slot: int)
    requires
        params.valid(),
        0 <= slot,
    ensures
        0 <= params.uniforms.slot_offset(slot, 0),
        params.uniforms.slot_offset(slot, 0) + BLUR_PASS_SIZE <= params.uniforms.slot_offset(
            slot,
            1,
        ),
        params.uniforms.slot_offset(slot, 1) + BLUR_PASS_SIZE <= params.uniforms.slot_offset(
            slot,
            2,
        ),
        params.uniforms.slot_offset(slot, 2) + BLUR_PASS_SIZE <= params.uniforms.slot_offset(
            slot + 1,
            0,
        ),
{
    let s = params.uniforms.backdrop_slot_stride as int;
    assert(s * (3 * slot + 1) == s * (3 * slot + 0) + s) by (nonlinear_arith);
    assert(s * (3 * slot + 2) == s * (3 * slot + 0) + 2 * s) by (nonlinear_arith);
    assert(s * (3 * (slot + 1) + 0) == s * (3 * slot + 0) + 3 * s) by (nonlinear_arith);
    assert(s * (3 * slot + 0) >= 0) by (nonlinear_arith)
        requires
            s >= 0,
            slot >= 0,
    ;
}

proof fn lemma_pass_drawn(
    params: FrameParams,
    p: Progress,
    vertical: bool,
    offset: int,
    source: BackdropSource,
    region: Seq<u32>,
    j: int,
)
    requires
        sound(params, p),
        0 <= j < p.steps.len(),
        writes_for(
            p.steps[j],
            Step::BindBackdrop { offset, size: BLUR_PASS_SIZE as int, source },
        ),
    ensures
        sound(params, pass_drawn(p, vertical, offset, source, region)),
        pass_drawn(p, vertical, offset, source, region).next_blur == p.next_blur,
        pass_drawn(p, vertical, offset, source, region).scratch == p.scratch,
        p.steps.is_prefix_of(pass_drawn(p, vertical, offset, source, region).steps),
{
    let begin = Step::BeginBlurPass { vertical };
    let pipeline = Step::SetPipeline { kind: PipelineKind::BackdropBlurPass };
    let bind = Step::BindBackdrop { offset, size: BLUR_PASS_SIZE as int, source };
    lemma_then_plain(params, p, begin);
    lemma_then_plain(params, p.then_do(begin), pipeline);
    let q = p.then_do(begin).then_do(pipeline);
    assert(q.steps[j] == p.steps[j]);
    lemma_then_bind(params, q, j, bind);
    lemma_strip_drawn(params, q.then_do(bind), region);
    assert(p.steps.is_prefix_of(q.then_do(bind).steps));
}

/// Writing the next uniform of a blur.
proof fn lemma_then_uniform(params: FrameParams, p: Progress, offset: int, words: Seq<u32>)
    requires
        sound(params, p),
        0 <= offset,
        4 * words.len() <= BLUR_PASS_SIZE,
        offset + BLUR_PASS_SIZE <= params.uniforms.slot_offset(p.next_blur, 0),
        forall|i: int|
            0 <= i < p.steps.len() ==> match #[trigger] p.steps[i] {
                Step::WriteBackdropUniform { offset: before, .. } => before + BLUR_PASS_SIZE
                    <= offset,
                _ => true,
            },
    ensures
        sound(params, p.then_do(Step::WriteBackdropUniform { offset, words })),
{
    let step = Step::WriteBackdropUniform { offset, words };
    assert forall|i: int| 0 <= i < p.steps.len() implies steps_apart(
        #[trigger] p.steps[i],
        step,
    ) by {}
    lemma_then_sound(params, p, step);
}

proof fn lemma_blur_drawn(
    params: FrameParams,
    p: Progress,
    blur: BackdropBlur,
    slot: int,
    samples: Seq<Float32>,
)
    requires
        params.valid(),
        sound(params, p),
        0 <= slot,
        p.next_blur == slot + 1,
        slots_free(params, p, slot),
    ensures
        sound(params, blur_drawn(params, p, blur, slot, samples)),
        blur_drawn(params, p, blur, slot, samples).next_blur == p.next_blur,
{
    reveal(blur_drawn);
    if !blur.on_screen(params.width, params.height) {
        lemma_then_plain(params, p, Step::ContinueMainPass);
    } else {
        crate::backdrop::law_blur_stays_inside(
            blur,
            p.scratch,
            params.width,
            params.height,
            samples,
        );
        lemma_slot_offsets(params, slot);
        let s = blur.steps(p.scratch, params.width, params.height, samples);
        let horizontal = params.uniforms.slot_offset(slot, 0);
        let vertical = params.uniforms.slot_offset(slot, 1);
        let composite = params.uniforms.slot_offset(slot, 2);
        let create = Step::CreateScratch { scratch: s.scratch };
        let made = if s.create {
            p.then_do(create)
        } else {
            p
        };
        if s.create {
            lemma_then_sound(params, p, create);
        }
        let ready = Progress { scratch: Some(s.scratch), ..made };
        assert forall|i: int| 0 <= i < ready.steps.len() implies step_sound(
            params,
            ready,
            #[trigger] ready.steps[i],
        ) by {
            assert(step_sound(params, made, made.steps[i]));
        }
        assert(sound(params, ready));
        let copy = Step::CopyToSnapshot {
            left: s.copy_x,
            top: s.copy_y,
            width: s.scratch.width,
            height: s.scratch.height,
        };
        lemma_then_sound(params, ready, copy);
        let a = ready.then_do(copy);
        lemma_then_uniform(params, a, horizontal, s.horizontal_words);
        let b = a.then_do(
            Step::WriteBackdropUniform { offset: horizontal, words: s.horizontal_words },
        );
        lemma_then_uniform(params, b, vertical, s.vertical_words);
        let c = b.then_do(
            Step::WriteBackdropUniform { offset: vertical, words: s.vertical_words },
        );
        lemma_then_uniform(params, c, composite, s.composite_words);
        let d = c.then_do(
            Step::WriteBackdropUniform { offset: composite, words: s.composite_words },
        );
        lemma_blur_passes(
            params,
            d,
            horizontal,
            vertical,
            composite,
            s.horizontal_region,
            s.vertical_region,
            a.steps.len() as int,
        );
    }
}

proof fn lemma_blur_passes(
    params: FrameParams,
    d: Progress,
    horizontal: int,
    vertical: int,
    composite: int,
    horizontal_region: Seq<u32>,
    vertical_region: Seq<u32>,
    k: int,
)
    requires
        sound(params, d),
        0 <= k,
        k + 2 < d.steps.len(),
        writes_for(
            d.steps[k],
            Step::BindBackdrop {
                offset: horizontal,
                size: BLUR_PASS_SIZE as int,
                source: BackdropSource::Snapshot,
            },
        ),
        writes_for(
            d.steps[k + 1],
            Step::BindBackdrop {
                offset: vertical,
                size: BLUR_PASS_SIZE as int,
                source: BackdropSource::Horizontal,
            },
        ),
        writes_for(
            d.steps[k + 2],
            Step::BindBackdrop {
                offset: composite,
                size: BACKDROP_SIZE as int,
                source: BackdropSource::Vertical,
            },
        ),
    ensures
        ({
            let first = pass_drawn(
                d,
                false,
                horizontal,
                BackdropSource::Snapshot,
                horizontal_region,
            );
            let second = pass_drawn(
                first,
                true,
                vertical,
                BackdropSource::Horizontal,
                vertical_region,
            );
            let end = second.then_do(Step::ContinueMainPass).then_do(
                Step::SetPipeline { kind: PipelineKind::BackdropComposite },
            ).then_do(
                Step::BindBackdrop {
                    offset: composite,
                    size: BACKDROP_SIZE as int,
                    source: BackdropSource::Vertical,
                },
            ).then_do(Step::Draw { vertices: 4, instances: 1 });
            &&& sound(params, end)
            &&& end.next_blur == d.next_blur
        }),
{
    lemma_pass_drawn(
        params,
        d,
        false,
        horizontal,
        BackdropSource::Snapshot,
        horizontal_region,
        k,
    );
    let first = pass_drawn(
        d,
        false,
        horizontal,
        BackdropSource::Snapshot,
        horizontal_region,
    );
    lemma_pass_drawn(
        params,
        first,
        true,
        vertical,
        BackdropSource::Horizontal,
        vertical_region,
        k + 1,
    );
    let second = pass_drawn(
        first,
        true,
        vertical,
        BackdropSource::Horizontal,
        vertical_region,
    );
    lemma_then_plain(params, second, Step::ContinueMainPass);
    let e = second.then_do(Step::ContinueMainPass);
    let pipeline = Step::SetPipeline { kind: PipelineKind::BackdropComposite };
    lemma_then_plain(params, e, pipeline);
    let f = e.then_do(pipeline);
    let bind = Step::BindBackdrop {
        offset: composite,
        size: BACKDROP_SIZE as int,
        source: BackdropSource::Vertical,
    };
    assert(f.steps[k + 2] == d.steps[k + 2]);
    lemma_then_bind(params, f, k + 2, bind);
    lemma_then_plain(params, f.then_do(bind), Step::Draw { vertices: 4, instances: 1 });
}


/// Drawing a blur does not look at which one comes next.
proof fn lemma_blur_drawn_next(
    params: FrameParams,
    p: Progress,
    blur: BackdropBlur,
    slot: int,
    samples: Seq<Float32>,
    next_blur: int,
)
    ensures
        blur_drawn(params, Progress { next_blur, ..p }, blur, slot, samples) == (Progress {
            next_blur,
            ..blur_drawn(params, p, blur, slot, samples)
        }),
{
    reveal(blur_drawn);
}

proof fn lemma_blur_passed(
    params: FrameParams,
    p: Progress,
    blur: BackdropBlur,
    kernels: Seq<Vec<Float32>>,
)
    requires
        params.valid(),
        sound(params, p),
    ensures
        sound(params, blur_passed(params, p, blur, kernels)),
        blur_passed(params, p, blur, kernels).next_blur == p.next_blur + 1,
{
    let q = Progress { next_blur: p.next_blur + 1, ..p };
    lemma_slot_offsets(params, p.next_blur);
    assert forall|i: int| 0 <= i < q.steps.len() implies step_sound(
        params,
        q,
        #[trigger] q.steps[i],
    ) by {
        assert(step_sound(params, p, p.steps[i]));
    }
    assert(sound(params, q));
    if p.next_blur < BACKDROP_MAX_BLURS {
        let samples = kernels[p.next_blur]@;
        assert forall|i: int| 0 <= i < q.steps.len() implies match #[trigger] q.steps[i] {
            Step::WriteBackdropUniform { offset, .. } => offset + BLUR_PASS_SIZE
                <= params.uniforms.slot_offset(p.next_blur, 0),
            _ => true,
        } by {
            assert(step_sound(params, p, p.steps[i]));
        }
        lemma_blur_drawn(params, q, blur, p.next_blur, samples);
        lemma_blur_drawn_next(params, p, blur, p.next_blur, samples, p.next_blur + 1);
    }
}

proof fn lemma_blurs_drawn(
    params: FrameParams,
    p: Progress,
    blurs: Seq<BackdropBlur>,
    kernels: Seq<Vec<Float32>>,
    order: DrawOrder,
)
    requires
        params.valid(),
        sound(params, p),
    ensures
        sound(params, blurs_drawn(params, p, blurs, kernels, order)),
    decreases blurs.len() - p.next_blur,
{
    if params.backdrop_blur_supported && 0 <= p.next_blur < blurs.len() && blurs[p.next_blur].order
        <= order {
        lemma_blur_passed(params, p, blurs[p.next_blur], kernels);
        lemma_blurs_drawn(
            params,
            blur_passed(params, p, blurs[p.next_blur], kernels),
            blurs,
            kernels,
            order,
        );
    }
}

proof fn lemma_quads_drawn(params: FrameParams, p: Progress, quads: Seq<Quad>)
    requires
        params.valid(),
        sound(params, p),
    ensures
        sound(params, quads_drawn(params, p, quads).0),
        quads_drawn(params, p, quads).0.next_blur == p.next_blur,
{
    if params.software {
        lemma_runs_drawn(params, p, quads, 0);
    } else {
        lemma_instances_drawn(
            params,
            p,
            quads_words(quads),
            quads.len() as u32,
            batch_pipeline(quads),
            None,
        );
    }
}

proof fn lemma_batch_drawn(params: FrameParams, p: Progress, scene: Scene, batch: PrimitiveBatch)
    requires
        params.valid(),
        sound(params, p),
    ensures
        sound(params, batch_drawn(params, p, scene, batch).0),
        batch_drawn(params, p, scene, batch).0.next_blur == p.next_blur,
{
    let (first, last) = batch.span();
    match batch {
        PrimitiveBatch::Quads(_) => {
            lemma_quads_drawn(params, p, scene.quads@.subrange(first, last));
        },
        PrimitiveBatch::Shadows(_) => {
            let part = scene.shadows@.subrange(first, last);
            lemma_instances_drawn(
                params,
                p,
                primitives_words(part),
                part.len() as u32,
                PipelineKind::Shadows,
                None,
            );
        },
        PrimitiveBatch::Paths(_) => {
            lemma_paths_drawn(params, p, scene.paths@.subrange(first, last));
        },
        PrimitiveBatch::Underlines(_) => {
            let part = scene.underlines@.subrange(first, last);
            lemma_instances_drawn(
                params,
                p,
                primitives_words(part),
                part.len() as u32,
                PipelineKind::Underlines,
                None,
            );
        },
        PrimitiveBatch::MonochromeSprites { texture_id, .. } => {
            let part = scene.monochrome_sprites@.subrange(first, last);
            lemma_instances_drawn(
                params,
                p,
                primitives_words(part),
                part.len() as u32,
                PipelineKind::MonoSprites,
                Some(TextureSource::Atlas(texture_id)),
            );
        },
        PrimitiveBatch::SubpixelSprites { texture_id, .. } => {
            let part = scene.subpixel_sprites@.subrange(first, last);
            lemma_instances_drawn(
                params,
                p,
                primitives_words(part),
                part.len() as u32,
                subpixel_kind(params),
                Some(TextureSource::Atlas(texture_id)),
            );
        },
        PrimitiveBatch::PolychromeSprites { texture_id, .. } => {
            let part = scene.polychrome_sprites@.subrange(first, last);
            lemma_instances_drawn(
                params,
                p,
                sprites_words(part),
                part.len() as u32,
                PipelineKind::PolySprites,
                Some(TextureSource::Atlas(texture_id)),
            );
        },
        PrimitiveBatch::Surfaces(_) => {},
    }
}

proof fn lemma_batches_drawn(
    params: FrameParams,
    p: Progress,
    scene: Scene,
    batches: Seq<PrimitiveBatch>,
    kernels: Seq<Vec<Float32>>,
    i: int,
)
    requires
        params.valid(),
        sound(params, p),
        0 <= i,
    ensures
        sound(params, batches_drawn(params, p, scene, batches, kernels, i).0),
    decreases batches.len() - i,
{
    if i < batches.len() {
        let order = batches[i].first_order(scene);
        lemma_blurs_drawn(params, p, scene.backdrop_blurs@, kernels, order);
        let blurred = blurs_drawn(params, p, scene.backdrop_blurs@, kernels, order);
        lemma_batch_drawn(params, blurred, scene, batches[i]);
        let (next, ok) = batch_drawn(params, blurred, scene, batches[i]);
        if ok {
            lemma_batches_drawn(params, next, scene, batches, kernels, i + 1);
        }
    }
}

/// A recorded frame, whether or not there was room for all of it, is sound: what
/// is written to the instance buffer is aligned, stays within its capacity and
/// never overlaps; every uniform of a blur has a slot of its own; only what was
/// written is bound; and only parts of the drawable are copied.
pub proof fn law_frame_is_sound(
    params: FrameParams,
    scratch: Option<BackdropScratch>,
    scene: Scene,
    batches: Seq<PrimitiveBatch>,
    kernels: Seq<Vec<Float32>>,
)
    requires
        params.valid(),
        scratch is Some ==> scratch->0.valid(),
    ensures
        sound(params, frame_drawn(params, scratch, scene, batches, kernels).0),
{
    let start = Progress { steps: seq![Step::BeginMainPass], offset: 0, scratch, next_blur: 0 };
    lemma_batches_drawn(params, start, scene, batches, kernels, 0);
}

/// The textures of blurs fit each other after a frame as before it.
pub proof fn lemma_scratch_stays_valid(
    params: FrameParams,
    scratch: Option<BackdropScratch>,
    scene: Scene,
    batches: Seq<PrimitiveBatch>,
    kernels: Seq<Vec<Float32>>,
)
    requires
        params.valid(),
        scratch is Some ==> scratch->0.valid(),
    ensures
        ({
            let after = frame_drawn(params, scratch, scene, batches, kernels).0.scratch;
            after is Some ==> after->0.valid()
        }),
{
    law_frame_is_sound(params, scratch, scene, batches, kernels);
}

} // verus!
