//! What batches of quads paint: at every pixel, each quad once and in order, with
//! a shader that shows all there is to see of it.
use crate::commands::{bind_instances, FrameParams, Globals, Progress, Step};
use crate::drawing::{
    batch_pipeline, instances_drawn, interior_drawn, lemma_run_end, quad_pipeline, quads_drawn,
    quads_words, run_end, runs_drawn, scissor, strip_drawn,
};
use crate::drawing_laws::{
    batch_painted, law_instances_are_painted, law_quads_follow_each_other,
};
use crate::pipelines::PipelineKind;
use crate::quad_laws::{
    hides, law_interior_clears_effects, law_plain_shaders_need_plain_quads, plain_part, unclipped,
    undecorated,
};
use crate::quads::{
    covers, law_exterior_partitions_viewport, strip_above, strip_below, strip_left, strip_right,
};
use crate::replay::{lemma_replay_push, lemma_replay_then, replay, Canvas, Data, Effect, Gpu};
use crate::scene::Quad;
use vstd::prelude::*;

verus! {

/// The words of quads, one after the other.
pub open spec fn words_of(quads: Seq<Quad>) -> Seq<u32> {
    quads.map_values(|q: Quad| q.words()).flatten()
}

/// The instances that one effect shows at a pixel.
pub open spec fn shows(effect: Effect, px: int, py: int) -> Seq<u32> {
    match effect {
        Effect::Paint { data: Data::Instances { words, .. }, scissor, .. } => match scissor {
            None => words,
            Some((x, y, width, height)) => if x <= px < x + width && y <= py < y + height {
                words
            } else {
                seq![]
            },
        },
        _ => seq![],
    }
}

/// The instances that are shown at a pixel, in the order in which they are
/// painted.
pub open spec fn shown_at(effects: Seq<Effect>, px: int, py: int) -> Seq<u32>
    decreases effects.len(),
{
    if effects.len() == 0 {
        seq![]
    } else {
        shown_at(effects.drop_last(), px, py) + shows(effects.last(), px, py)
    }
}

proof fn lemma_shown_push(effects: Seq<Effect>, effect: Effect, px: int, py: int)
    ensures
        shown_at(effects.push(effect), px, py) == shown_at(effects, px, py) + shows(
            effect,
            px,
            py,
        ),
{
    assert(effects.push(effect).drop_last() =~= effects);
}

/// Whether a shader shows all there is to see of these quads, and is the cheapest
/// one to do so. Software draws quads apart that need different shaders.
#[verifier::opaque]
pub open spec fn shader_fits(
    part: Seq<Quad>,
    pipeline: PipelineKind,
    scissor: Option<(u32, u32, u32, u32)>,
    software: bool,
) -> bool {
    match pipeline {
        PipelineKind::Quads => {
            &&& exists|i: int| 0 <= i < part.len() && !undecorated(#[trigger] part[i])
            &&& software ==> forall|i: int| 0 <= i < part.len() ==> !undecorated(#[trigger] part[i])
        },
        PipelineKind::SolidQuads => {
            ||| {
                &&& forall|i: int| 0 <= i < part.len() ==> undecorated(#[trigger] part[i])
                &&& exists|i: int|
                    0 <= i < part.len() && !(hides(#[trigger] part[i]) && unclipped(part[i]))
                &&& software ==> forall|i: int|
                    0 <= i < part.len() ==> !(hides(#[trigger] part[i]) && unclipped(part[i]))
            }
            ||| {
                &&& part.len() == 1 && scissor is Some
                &&& plain_part(part[0], scissor->0)
                &&& !hides(part[0])
            }
        },
        PipelineKind::OpaqueSolidQuads => {
            ||| forall|i: int|
                0 <= i < part.len() ==> undecorated(#[trigger] part[i]) && hides(part[i])
                    && unclipped(part[i])
            ||| {
                &&& part.len() == 1 && scissor is Some
                &&& plain_part(part[0], scissor->0)
                &&& hides(part[0])
            }
        },
        _ => false,
    }
}

/// Whether an effect paints the quads from `a` up to `b`, all of them.
#[verifier::opaque]
pub open spec fn paints_run(
    effect: Effect,
    quads: Seq<Quad>,
    software: bool,
    a: int,
    b: int,
) -> bool {
    match effect {
        Effect::Paint {
            canvas: Canvas::Frame,
            pipeline,
            data: Data::Instances { globals: Globals::Main, words, texture: None },
            scissor,
            vertices,
            instances,
        } => {
            &&& 0 <= a < b <= quads.len()
            &&& vertices == 4 && instances == b - a
            &&& words == words_of(quads.subrange(a, b))
            &&& shader_fits(quads.subrange(a, b), pipeline, scissor, software)
        },
        _ => false,
    }
}

/// Whether an effect paints some of the quads.
#[verifier::opaque]
pub open spec fn paints_some(effect: Effect, quads: Seq<Quad>, software: bool) -> bool {
    exists|a: int, b: int| paints_run(effect, quads, software, a, b)
}

proof fn lemma_paints_some(effect: Effect, quads: Seq<Quad>, software: bool, a: int, b: int)
    requires
        paints_run(effect, quads, software, a, b),
    ensures
        paints_some(effect, quads, software),
{
    reveal(paints_some);
}

/// Whether every effect from number `start` on paints some of the quads.
pub open spec fn all_paint_runs(
    effects: Seq<Effect>,
    start: int,
    quads: Seq<Quad>,
    software: bool,
) -> bool {
    forall|i: int|
        start <= i < effects.len() ==> paints_some(#[trigger] effects[i], quads, software)
}

proof fn lemma_all_push(
    effects: Seq<Effect>,
    effect: Effect,
    start: int,
    quads: Seq<Quad>,
    software: bool,
)
    requires
        0 <= start,
        all_paint_runs(effects, start, quads, software),
        paints_some(effect, quads, software),
    ensures
        all_paint_runs(effects.push(effect), start, quads, software),
{
    let after = effects.push(effect);
    assert forall|i: int| start <= i < after.len() implies paints_some(
        #[trigger] after[i],
        quads,
        software,
    ) by {
        if i < effects.len() {
            assert(after[i] == effects[i]);
        }
    }
}

/// Effects with one more that paints a rectangle, unless that is empty.
spec fn with_strip(
    effects: Seq<Effect>,
    words: Seq<u32>,
    kind: PipelineKind,
    strip: Seq<u32>,
) -> Seq<Effect> {
    if strip[2] > 0 && strip[3] > 0 {
        effects.push(part_painted(words, kind, strip))
    } else {
        effects
    }
}

spec fn part_painted(words: Seq<u32>, kind: PipelineKind, strip: Seq<u32>) -> Effect {
    Effect::Paint {
        canvas: Canvas::Frame,
        pipeline: kind,
        data: Data::Instances { globals: Globals::Main, words, texture: None },
        scissor: Some((strip[0], strip[1], strip[2], strip[3])),
        vertices: 4,
        instances: 1,
    }
}

/// The GPU is about to draw these words with this pipeline to the frame.
spec fn bound(gpu: Gpu, words: Seq<u32>, kind: PipelineKind) -> bool {
    &&& gpu.canvas == Some(Canvas::Frame)
    &&& gpu.pipeline == Some(kind)
    &&& gpu.data == Some(Data::Instances { globals: Globals::Main, words, texture: None })
}

proof fn lemma_strip(p: Progress, strip: Seq<u32>, words: Seq<u32>, kind: PipelineKind)
    requires
        bound(replay(p.steps), words, kind),
    ensures
        bound(replay(strip_drawn(p, strip).steps), words, kind),
        replay(strip_drawn(p, strip).steps).effects == with_strip(
            replay(p.steps).effects,
            words,
            kind,
            strip,
        ),
{
    lemma_replay_then(p, scissor(strip));
    lemma_replay_then(p.then_do(scissor(strip)), Step::Draw { vertices: 4, instances: 1 });
}

/// The effects of drawing a quad in five parts.
spec fn five_parts(effects: Seq<Effect>, quad: Quad, interior: Seq<u32>, v: Seq<u32>) -> Seq<
    Effect,
> {
    let words = quad.words();
    let kind = if quad.fully_opaque() {
        PipelineKind::OpaqueSolidQuads
    } else {
        PipelineKind::SolidQuads
    };
    let quads = PipelineKind::Quads;
    let left = with_strip(effects, words, quads, strip_left(interior, v));
    let right = with_strip(left, words, quads, strip_right(interior, v));
    let above = with_strip(right, words, quads, strip_above(interior, v));
    let below = with_strip(above, words, quads, strip_below(interior, v));
    below.push(part_painted(words, kind, interior))
}

proof fn lemma_interior(params: FrameParams, p: Progress, quad: Quad, interior: Seq<u32>)
    requires
        replay(p.steps).canvas == Some(Canvas::Frame),
    ensures
        ({
            let (next, ok) = interior_drawn(params, p, quad, interior);
            let before = replay(p.steps);
            let after = replay(next.steps);
            &&& !ok ==> next == p
            &&& ok ==> after.open_frame(params.width, params.height)
            &&& ok ==> after.effects == five_parts(
                before.effects,
                quad,
                interior,
                params.viewport(),
            )
        }),
{
    reveal(interior_drawn);
    let (next, ok) = interior_drawn(params, p, quad, interior);
    if ok {
        let words = quad.words();
        let offset = crate::commands::instance_offset(params, p.offset);
        lemma_replay_push(p.steps, Step::WriteInstances { offset, words });
        let a = p.with_instances(params, words);
        let bind = bind_instances(params, p.offset, words, Globals::Main, None);
        lemma_replay_then(a, bind);
        let b = a.then_do(bind);
        let pipeline = Step::SetPipeline { kind: PipelineKind::Quads };
        lemma_replay_then(b, pipeline);
        let c = b.then_do(pipeline);
        let v = params.viewport();
        let quads = PipelineKind::Quads;
        lemma_strip(c, strip_left(interior, v), words, quads);
        let d = strip_drawn(c, strip_left(interior, v));
        lemma_strip(d, strip_right(interior, v), words, quads);
        let e = strip_drawn(d, strip_right(interior, v));
        lemma_strip(e, strip_above(interior, v), words, quads);
        let f = strip_drawn(e, strip_above(interior, v));
        lemma_strip(f, strip_below(interior, v), words, quads);
        let g = strip_drawn(f, strip_below(interior, v));
        let kind = if quad.fully_opaque() {
            PipelineKind::OpaqueSolidQuads
        } else {
            PipelineKind::SolidQuads
        };
        lemma_replay_then(g, Step::SetPipeline { kind });
        let h = g.then_do(Step::SetPipeline { kind });
        lemma_replay_then(h, scissor(interior));
        let i = h.then_do(scissor(interior));
        let draw = Step::Draw { vertices: 4, instances: 1 };
        lemma_replay_then(i, draw);
        lemma_replay_then(i.then_do(draw), scissor(seq![0, 0, params.width, params.height]));
    }
}

proof fn lemma_strip_shown(
    effects: Seq<Effect>,
    words: Seq<u32>,
    kind: PipelineKind,
    strip: Seq<u32>,
    px: int,
    py: int,
)
    ensures
        shown_at(with_strip(effects, words, kind, strip), px, py) == shown_at(effects, px, py)
            + if covers(strip, px, py) {
            words
        } else {
            seq![]
        },
{
    lemma_shown_push(effects, part_painted(words, kind, strip), px, py);
    assert(shown_at(effects, px, py) + seq![] =~= shown_at(effects, px, py));
}

/// At every pixel just one of the five parts shows the quad.
proof fn lemma_five_shown(
    effects: Seq<Effect>,
    quad: Quad,
    interior: Seq<u32>,
    v: Seq<u32>,
    px: int,
    py: int,
)
    requires
        interior.len() == 4,
        v.len() == 2,
        interior[0] + interior[2] <= v[0],
        interior[1] + interior[3] <= v[1],
        0 <= px < v[0],
        0 <= py < v[1],
    ensures
        shown_at(five_parts(effects, quad, interior, v), px, py) == shown_at(effects, px, py)
            + quad.words(),
{
    let words = quad.words();
    let quads = PipelineKind::Quads;
    law_exterior_partitions_viewport(interior, v);
    assert(covers(interior, px, py) || true);
    lemma_strip_shown(effects, words, quads, strip_left(interior, v), px, py);
    let left = with_strip(effects, words, quads, strip_left(interior, v));
    lemma_strip_shown(left, words, quads, strip_right(interior, v), px, py);
    let right = with_strip(left, words, quads, strip_right(interior, v));
    lemma_strip_shown(right, words, quads, strip_above(interior, v), px, py);
    let above = with_strip(right, words, quads, strip_above(interior, v));
    lemma_strip_shown(above, words, quads, strip_below(interior, v), px, py);
    let below = with_strip(above, words, quads, strip_below(interior, v));
    let kind = if quad.fully_opaque() {
        PipelineKind::OpaqueSolidQuads
    } else {
        PipelineKind::SolidQuads
    };
    lemma_shown_push(below, part_painted(words, kind, interior), px, py);
    let s = shown_at(effects, px, py);
    assert(s + seq![] =~= s);
    assert((s + words) + seq![] =~= s + words);
}

/// All quads of a run need the same shader, and none has an interior.
proof fn lemma_run_kinds(params: FrameParams, quads: Seq<Quad>, start: int, end: int, i: int)
    requires
        0 <= start < end <= quads.len(),
        end <= i < run_end(params, quads, start, end),
    ensures
        i < quads.len(),
        quads[i].kind() == quads[start].kind(),
    decreases quads.len() - end,
{
    lemma_run_end(params, quads, start, end);
    if i > end {
        lemma_run_kinds(params, quads, start, end + 1, i);
    }
}

proof fn lemma_run_fits(params: FrameParams, quads: Seq<Quad>, start: int)
    requires
        0 <= start < quads.len(),
    ensures
        ({
            let end = run_end(params, quads, start, start + 1);
            shader_fits(
                quads.subrange(start, end),
                quad_pipeline(quads[start].kind()),
                None,
                true,
            )
        }),
{
    let end = run_end(params, quads, start, start + 1);
    let part = quads.subrange(start, end);
    lemma_run_end(params, quads, start, start + 1);
    law_plain_shaders_need_plain_quads(quads[start]);
    assert(part[0] == quads[start]);
    assert forall|i: int| 0 <= i < part.len() implies (#[trigger] part[i]).kind()
        == quads[start].kind() && (part[i].kind() is General <==> !undecorated(part[i])) && (
    part[i].kind() is Opaque <==> undecorated(part[i]) && hides(part[i]) && unclipped(part[i])) by {
        assert(part[i] == quads[start + i]);
        if i > 0 {
            lemma_run_kinds(params, quads, start, start + 1, start + i);
        }
        law_plain_shaders_need_plain_quads(part[i]);
    }
    reveal(shader_fits);
    match quads[start].kind() {
        crate::quads::SimpleQuadKind::General => {
            assert(!undecorated(part[0]));
        },
        crate::quads::SimpleQuadKind::Solid => {
            assert(!(hides(part[0]) && unclipped(part[0])));
        },
        crate::quads::SimpleQuadKind::Opaque => {},
    }
}

/// The five parts of a quad all paint that quad.
#[verifier::rlimit(40)]
proof fn lemma_five_fit(
    effects: Seq<Effect>,
    quads: Seq<Quad>,
    start: int,
    v: Seq<u32>,
    first: int,
)
    requires
        0 <= start < quads.len(),
        v.len() == 2,
        quads[start].interior(v) is Some,
        0 <= first <= effects.len(),
        all_paint_runs(effects, first, quads, true),
    ensures
        ({
            let after = five_parts(effects, quads[start], quads[start].interior(v)->0, v);
            &&& effects.is_prefix_of(after)
            &&& all_paint_runs(after, first, quads, true)
        }),
{
    let quad = quads[start];
    let interior = quad.interior(v)->0;
    law_interior_clears_effects(quad, v);
    law_plain_shaders_need_plain_quads(quad);
    let part = quads.subrange(start, start + 1);
    assert(part[0] == quad);
    lemma_words_single(quads, start);
    let words = quad.words();
    let kind = PipelineKind::Quads;
    let left = with_strip(effects, words, kind, strip_left(interior, v));
    let right = with_strip(left, words, kind, strip_right(interior, v));
    let above = with_strip(right, words, kind, strip_above(interior, v));
    let below = with_strip(above, words, kind, strip_below(interior, v));
    lemma_strip_fits(quads, start, strip_left(interior, v));
    lemma_all_push(effects, part_painted(words, kind, strip_left(interior, v)), first, quads, true);
    lemma_strip_fits(quads, start, strip_right(interior, v));
    lemma_all_push(left, part_painted(words, kind, strip_right(interior, v)), first, quads, true);
    lemma_strip_fits(quads, start, strip_above(interior, v));
    lemma_all_push(right, part_painted(words, kind, strip_above(interior, v)), first, quads, true);
    lemma_strip_fits(quads, start, strip_below(interior, v));
    lemma_all_push(above, part_painted(words, kind, strip_below(interior, v)), first, quads, true);
    let solid = if quad.fully_opaque() {
        PipelineKind::OpaqueSolidQuads
    } else {
        PipelineKind::SolidQuads
    };
    let last = part_painted(words, solid, interior);
    assert(paints_run(last, quads, true, start, start + 1)) by {
        reveal(paints_run);
        reveal(shader_fits);
    }
    lemma_paints_some(last, quads, true, start, start + 1);
    lemma_all_push(below, last, first, quads, true);
    assert(effects.is_prefix_of(left));
    assert(left.is_prefix_of(right));
    assert(right.is_prefix_of(above));
    assert(above.is_prefix_of(below));
    assert(below.is_prefix_of(below.push(last)));
}

/// The general shader can draw any part of a decorated quad.
proof fn lemma_strip_fits(quads: Seq<Quad>, start: int, strip: Seq<u32>)
    requires
        0 <= start < quads.len(),
        !undecorated(quads[start]),
    ensures
        paints_some(
            part_painted(quads[start].words(), PipelineKind::Quads, strip),
            quads,
            true,
        ),
{
    let effect = part_painted(quads[start].words(), PipelineKind::Quads, strip);
    lemma_words_single(quads, start);
    let part = quads.subrange(start, start + 1);
    assert(!undecorated(part[0]));
    assert(paints_run(effect, quads, true, start, start + 1)) by {
        reveal(paints_run);
        reveal(shader_fits);
    }
    lemma_paints_some(effect, quads, true, start, start + 1);
}

proof fn lemma_words_single(quads: Seq<Quad>, start: int)
    requires
        0 <= start < quads.len(),
    ensures
        words_of(quads.subrange(start, start + 1)) == quads[start].words(),
{
    let part = quads.subrange(start, start + 1);
    assert(part.map_values(|q: Quad| q.words()) =~= seq![quads[start].words()]);
    seq![quads[start].words()].lemma_flatten_one_element();
}

proof fn lemma_words_split(quads: Seq<Quad>, start: int, end: int)
    requires
        0 <= start <= end <= quads.len(),
    ensures
        words_of(quads.subrange(start, quads.len() as int)) == words_of(
            quads.subrange(start, end),
        ) + words_of(quads.subrange(end, quads.len() as int)),
{
    let f = |q: Quad| q.words();
    let a = quads.subrange(start, end).map_values(f);
    let b = quads.subrange(end, quads.len() as int).map_values(f);
    assert(quads.subrange(start, quads.len() as int).map_values(f) =~= a + b);
    vstd::seq_lib::lemma_flatten_concat(a, b);
}

#[verifier::rlimit(40)]
proof fn lemma_runs(
    params: FrameParams,
    p: Progress,
    quads: Seq<Quad>,
    start: int,
    first: int,
    px: int,
    py: int,
)
    requires
        0 <= start <= quads.len() <= u32::MAX,
        replay(p.steps).open_frame(params.width, params.height),
        0 <= px < params.width,
        0 <= py < params.height,
        0 <= first <= replay(p.steps).effects.len(),
        all_paint_runs(replay(p.steps).effects, first, quads, true),
    ensures
        ({
            let (next, ok) = runs_drawn(params, p, quads, start);
            let before = replay(p.steps);
            let after = replay(next.steps);
            &&& after.open_frame(params.width, params.height)
            &&& before.effects.is_prefix_of(after.effects)
            &&& all_paint_runs(after.effects, first, quads, true)
            &&& ok ==> shown_at(after.effects, px, py) == shown_at(before.effects, px, py)
                + words_of(quads.subrange(start, quads.len() as int))
        }),
    decreases quads.len() - start,
{
    let n = quads.len() as int;
    let before = replay(p.steps);
    let s = shown_at(before.effects, px, py);
    if start >= n {
        assert(quads.subrange(start, n).map_values(|q: Quad| q.words()) =~= seq![]);
        assert(s + words_of(quads.subrange(start, n)) =~= s);
    } else {
        let v = params.viewport();
        let interior = quads[start].interior(v);
        let end = if interior is Some {
            start + 1
        } else {
            run_end(params, quads, start, start + 1)
        };
        lemma_run_end(params, quads, start, start + 1);
        lemma_words_split(quads, start, end);
        let part = quads.subrange(start, end);
        if interior is Some {
            lemma_interior(params, p, quads[start], interior->0);
            law_interior_clears_effects(quads[start], v);
            lemma_five_shown(before.effects, quads[start], interior->0, v, px, py);
            lemma_five_fit(before.effects, quads, start, v, first);
            lemma_words_single(quads, start);
            let (next, ok) = interior_drawn(params, p, quads[start], interior->0);
            if ok {
                lemma_runs(params, next, quads, end, first, px, py);
            }
        } else {
            let count = (end - start) as u32;
            let kind = quad_pipeline(quads[start].kind());
            law_quads_follow_each_other(part);
            law_instances_are_painted(params, p, quads_words(part), count, kind, None);
            let (next, ok) = instances_drawn(params, p, quads_words(part), count, kind, None);
            if ok {
                let effects = replay(next.steps).effects;
                lemma_run_fits(params, quads, start);
                let effect = effects[effects.len() - 1];
                assert(paints_run(effect, quads, true, start, end)) by {
                    lemma_scissor_fits(part, kind, before.scissor);
                    reveal(paints_run);
                }
                lemma_paints_some(effect, quads, true, start, end);
                lemma_all_push(before.effects, effect, first, quads, true);
                lemma_shown_push(before.effects, effect, px, py);
                lemma_runs(params, next, quads, end, first, px, py);
            }
        }
        assert((s + words_of(part)) + words_of(quads.subrange(end, n)) =~= s + (words_of(part)
            + words_of(quads.subrange(end, n))));
    }
}

/// A shader that fits whole quads fits any part of them.
proof fn lemma_scissor_fits(
    part: Seq<Quad>,
    kind: PipelineKind,
    scissor: Option<(u32, u32, u32, u32)>,
)
    requires
        shader_fits(part, kind, None, true),
    ensures
        shader_fits(part, kind, scissor, true),
{
    reveal(shader_fits);
}

/// At every pixel of the frame, a batch of quads shows each of them once and in
/// order, if there is room for the batch. Every draw call has a shader that shows
/// all there is to see of its quads at the pixels that it is open to, and the
/// cheapest one to do so. Drawing stays on the frame, open to all of it.
pub proof fn law_quads_are_painted(
    params: FrameParams,
    p: Progress,
    quads: Seq<Quad>,
    px: int,
    py: int,
)
    requires
        quads.len() <= u32::MAX,
        replay(p.steps).open_frame(params.width, params.height),
        0 <= px < params.width,
        0 <= py < params.height,
    ensures
        ({
            let (next, ok) = quads_drawn(params, p, quads);
            let before = replay(p.steps);
            let after = replay(next.steps);
            &&& ok ==> shown_at(after.effects, px, py) == shown_at(before.effects, px, py)
                + quads.map_values(|q: Quad| q.words()).flatten()
            &&& before.effects.is_prefix_of(after.effects)
            &&& all_paint_runs(
                after.effects,
                before.effects.len() as int,
                quads,
                params.software,
            )
            &&& after.open_frame(params.width, params.height)
        }),
{
    let before = replay(p.steps);
    if params.software {
        assert(quads.subrange(0, quads.len() as int) =~= quads);
        lemma_runs(params, p, quads, 0, before.effects.len() as int, px, py);
    } else {
        law_hardware_draws_batches_at_once(params, p, quads);
        let (next, ok) = quads_drawn(params, p, quads);
        let after = replay(next.steps);
        let s = shown_at(before.effects, px, py);
        law_quads_follow_each_other(quads);
        if quads.len() == 0 {
            assert(quads.map_values(|q: Quad| q.words()) =~= seq![]);
            assert(s + words_of(quads) =~= s);
        } else if ok {
            let effect = after.effects[after.effects.len() - 1];
            lemma_shown_push(before.effects, effect, px, py);
            assert(quads.subrange(0, quads.len() as int) =~= quads);
            assert(paints_run(effect, quads, false, 0, quads.len() as int)) by {
                reveal(paints_run);
            }
            lemma_paints_some(effect, quads, false, 0, quads.len() as int);
        }
    }
}

/// Hardware draws a batch of quads in one call: without blending if all quads
/// hide what is below them, as plain colors if there is nothing else to see of
/// any, and with the general shader otherwise.
pub proof fn law_hardware_draws_batches_at_once(params: FrameParams, p: Progress, quads: Seq<Quad>)
    requires
        !params.software,
        quads.len() <= u32::MAX,
        replay(p.steps).canvas == Some(Canvas::Frame),
    ensures
        ({
            let (next, ok) = quads_drawn(params, p, quads);
            let before = replay(p.steps);
            let after = replay(next.steps);
            &&& !ok ==> next == p
            &&& quads.len() == 0 ==> ok
            &&& ok ==> exists|kind: PipelineKind|
                after.effects == #[trigger] batch_painted(
                    before,
                    words_of(quads),
                    quads.len() as int,
                    kind,
                    None,
                ) && (quads.len() > 0 ==> shader_fits(quads, kind, before.scissor, false))
            &&& after.canvas == before.canvas
            &&& after.scissor == before.scissor
        }),
{
    let before = replay(p.steps);
    let kind = batch_pipeline(quads);
    law_quads_follow_each_other(quads);
    law_instances_are_painted(params, p, quads_words(quads), quads.len() as u32, kind, None);
    assert forall|i: int| 0 <= i < quads.len() implies ((#[trigger] quads[i]).simple_solid()
        <==> undecorated(quads[i])) && (quads[i].unclipped_opaque() <==> undecorated(quads[i])
        && hides(quads[i]) && unclipped(quads[i])) by {
        law_plain_shaders_need_plain_quads(quads[i]);
    }
    let (next, ok) = quads_drawn(params, p, quads);
    assert(quads.len() > 0 ==> shader_fits(quads, kind, before.scissor, false)) by {
        reveal(shader_fits);
    }
    if ok {
        assert(replay(next.steps).effects == batch_painted(
            before,
            words_of(quads),
            quads.len() as int,
            kind,
            None,
        ));
    }
}

/// On a software adapter the interior of a quad is painted by a shader for plain
/// colors, just where it is.
pub proof fn law_interiors_are_painted_plain(params: FrameParams, p: Progress, quad: Quad)
    requires
        params.software,
        replay(p.steps).canvas == Some(Canvas::Frame),
        quad.interior(params.viewport()) is Some,
    ensures
        ({
            let (next, ok) = quads_drawn(params, p, seq![quad]);
            let r = quad.interior(params.viewport())->0;
            ok ==> match replay(next.steps).effects.last() {
                Effect::Paint { pipeline, scissor, .. } => {
                    &&& pipeline is SolidQuads || pipeline is OpaqueSolidQuads
                    &&& scissor == Some((r[0], r[1], r[2], r[3]))
                },
                _ => false,
            }
        }),
{
    let quads = seq![quad];
    let interior = quad.interior(params.viewport())->0;
    lemma_interior(params, p, quad, interior);
    let (next, ok) = interior_drawn(params, p, quad, interior);
    assert(quads[0] == quad);
    assert(runs_drawn(params, next, quads, 1) == (next, true));
}

} // verus!
