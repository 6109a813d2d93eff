//! What a whole frame paints: everything in it, in order, with blurs in between.
use crate::backdrop::BackdropScratch;
use crate::blur_laws::{blur_painted, law_blur_is_painted, pass_painted};
use crate::commands::{FrameParams, Progress, Step};
use crate::drawing::{paths_hull, vertices_words};
use crate::drawing_laws::{
    law_batches_are_painted, law_paths_are_painted, rectangle_words, seen, triangles_painted,
};
use crate::float::Float32;
use crate::frame::{batch_drawn, batches_drawn, blur_passed, blurs_drawn, frame_drawn};
use crate::pipelines::PipelineKind;
use crate::quad_painting::{
    all_paint_runs, law_quads_are_painted, paints_run, paints_some, shown_at, shows,
};
use crate::replay::{lemma_replay_push, replay, Canvas, Data, Effect};
use crate::scene::{
    BackdropBlur, DrawOrder, Path, PolychromeSprite, Primitive, PrimitiveBatch, Quad, Scene,
};
use vstd::prelude::*;

verus! {

/// The place of a batch in the draw order is that of its first primitive.
pub proof fn law_first_order(scene: Scene, batch: PrimitiveBatch)
    requires
        batch.span().0 < batch.orders(scene).len(),
    ensures
        batch.first_order(scene) == match batch {
            PrimitiveBatch::Shadows(r) => scene.shadows@[r.start as int].order,
            PrimitiveBatch::Quads(r) => scene.quads@[r.start as int].order,
            PrimitiveBatch::Paths(r) => scene.paths@[r.start as int].order,
            PrimitiveBatch::Underlines(r) => scene.underlines@[r.start as int].order,
            PrimitiveBatch::MonochromeSprites { range: r, .. } => {
                scene.monochrome_sprites@[r.start as int].order
            },
            PrimitiveBatch::SubpixelSprites { range: r, .. } => {
                scene.subpixel_sprites@[r.start as int].order
            },
            PrimitiveBatch::PolychromeSprites { range: r, .. } => {
                scene.polychrome_sprites@[r.start as int].order
            },
            PrimitiveBatch::Surfaces(r) => scene.surfaces@[r.start as int].order,
        },
{
}

/// Everything about the primitives of a batch that shaders read, in order. Paths
/// are read twice: as triangles, and as the rectangles that are put on the frame.
pub open spec fn batch_words(scene: Scene, batch: PrimitiveBatch) -> Seq<u32> {
    let words = |p: Primitive| p.words@;
    match batch {
        PrimitiveBatch::Shadows(r) => scene.shadows@.subrange(
            r.start as int,
            r.end as int,
        ).map_values(words).flatten(),
        PrimitiveBatch::Quads(r) => scene.quads@.subrange(r.start as int, r.end as int).map_values(
            |q: Quad| q.words(),
        ).flatten(),
        PrimitiveBatch::Paths(r) => path_words(
            scene.paths@.subrange(r.start as int, r.end as int),
        ),
        PrimitiveBatch::Underlines(r) => scene.underlines@.subrange(
            r.start as int,
            r.end as int,
        ).map_values(words).flatten(),
        PrimitiveBatch::MonochromeSprites { range: r, .. } => scene.monochrome_sprites@.subrange(
            r.start as int,
            r.end as int,
        ).map_values(words).flatten(),
        PrimitiveBatch::SubpixelSprites { range: r, .. } => scene.subpixel_sprites@.subrange(
            r.start as int,
            r.end as int,
        ).map_values(words).flatten(),
        PrimitiveBatch::PolychromeSprites { range: r, .. } => scene.polychrome_sprites@.subrange(
            r.start as int,
            r.end as int,
        ).map_values(|s: PolychromeSprite| s.words()).flatten(),
        PrimitiveBatch::Surfaces(_) => seq![],
    }
}

/// What shaders read of paths.
pub open spec fn path_words(paths: Seq<Path>) -> Seq<u32> {
    if paths.len() == 0 {
        seq![]
    } else {
        paths.map_values(|p: Path| vertices_words(p, p.vertices@)).flatten() + if paths[0].order
            == paths[paths.len() - 1].order {
            paths.map_values(|p: Path| rectangle_words(seen(p))).flatten()
        } else {
            rectangle_words(paths_hull(paths))
        }
    }
}

proof fn lemma_shown_push(effects: Seq<Effect>, effect: Effect, px: int, py: int)
    ensures
        shown_at(effects.push(effect), px, py) == shown_at(effects, px, py) + shows(
            effect,
            px,
            py,
        ),
{
    assert(effects.push(effect).drop_last() =~= effects);
}

/// At every pixel of the frame, a batch shows each of its primitives once, in
/// order, if there is room for the batch. Drawing stays on the frame, open to all
/// of it.
pub proof fn law_batch_shows_primitives(
    params: FrameParams,
    p: Progress,
    scene: Scene,
    batch: PrimitiveBatch,
    px: int,
    py: int,
)
    requires
        batch is Surfaces || batch.within(scene),
        batch.span().1 - batch.span().0 <= u32::MAX,
        replay(p.steps).open_frame(params.width, params.height),
        params.path_intermediate,
        0 <= px < params.width,
        0 <= py < params.height,
    ensures
        ({
            let (next, ok) = batch_drawn(params, p, scene, batch);
            let before = replay(p.steps);
            let after = replay(next.steps);
            &&& after.open_frame(params.width, params.height)
            &&& ok ==> shown_at(after.effects, px, py) == shown_at(before.effects, px, py)
                + batch_words(scene, batch)
        }),
{
    let (first, last) = batch.span();
    let (next, ok) = batch_drawn(params, p, scene, batch);
    let before = replay(p.steps);
    let after = replay(next.steps);
    let s = shown_at(before.effects, px, py);
    match batch {
        PrimitiveBatch::Quads(_) => {
            law_quads_are_painted(params, p, scene.quads@.subrange(first, last), px, py);
        },
        PrimitiveBatch::Paths(_) => {
            let paths = scene.paths@.subrange(first, last);
            if paths.len() == 0 {
                assert(s + batch_words(scene, batch) =~= s);
            } else {
                law_paths_are_painted(params, p, paths);
                if ok {
                    lemma_paths_shown(before.effects, after.effects, paths, params, px, py);
                }
            }
        },
        PrimitiveBatch::Surfaces(_) => {
            law_batches_are_painted(params, p, scene, batch);
            assert(s + seq![] =~= s);
        },
        _ => {
            law_batches_are_painted(params, p, scene, batch);
            if ok {
                if first == last {
                    assert(batch_words(scene, batch) =~= seq![]);
                    assert(s + seq![] =~= s);
                } else {
                    let effect = after.effects[after.effects.len() - 1];
                    lemma_shown_push(before.effects, effect, px, py);
                }
            }
        },
    }
}

proof fn lemma_paths_shown(
    before: Seq<Effect>,
    after: Seq<Effect>,
    paths: Seq<Path>,
    params: FrameParams,
    px: int,
    py: int,
)
    requires
        paths.len() > 0,
        after.len() > 0,
        after == triangles_painted(before, paths, params.path_msaa).push(after.last()),
        shows(after.last(), px, py) == if paths[0].order == paths[paths.len() - 1].order {
            paths.map_values(|p: Path| rectangle_words(seen(p))).flatten()
        } else {
            rectangle_words(paths_hull(paths))
        },
    ensures
        shown_at(after, px, py) == shown_at(before, px, py) + path_words(paths),
{
    let triangles = triangles_painted(before, paths, params.path_msaa);
    let words = paths.map_values(|p: Path| vertices_words(p, p.vertices@)).flatten();
    lemma_shown_push(triangles, after.last(), px, py);
    let s = shown_at(before, px, py);
    assert(shown_at(triangles, px, py) == s + words) by {
        if words.len() == 0 {
            assert(s + words =~= s);
        } else {
            let clear = Effect::Clear { canvas: Canvas::Paths { msaa: params.path_msaa } };
            lemma_shown_push(before, clear, px, py);
            assert(s + seq![] =~= s);
            let cleared = before.push(clear);
            lemma_shown_push(cleared, triangles.last(), px, py);
            assert(triangles == cleared.push(triangles.last()));
        }
    }
    let rest = shows(after.last(), px, py);
    assert((s + words) + rest =~= s + (words + rest));
}

/// The words that the composites of blurs begin with, in the order in which they
/// are painted: the bounds of each blur, its corners and its clip rectangle.
pub open spec fn blurs_shown(effects: Seq<Effect>) -> Seq<Seq<u32>>
    decreases effects.len(),
{
    if effects.len() == 0 {
        seq![]
    } else {
        let rest = blurs_shown(effects.drop_last());
        match effects.last() {
            Effect::Paint {
                canvas: Canvas::Frame,
                pipeline: PipelineKind::BackdropComposite,
                data: Data::Backdrop { words, .. },
                ..
            } => rest.push(words.subrange(0, 12)),
            _ => rest,
        }
    }
}

/// What the composite of a blur begins with.
pub open spec fn blur_mark(blur: BackdropBlur) -> Seq<u32> {
    let radii = blur.corner_radii;
    rectangle_words(blur.bounds) + seq![
        radii.top_left.0.bits,
        radii.top_right.0.bits,
        radii.bottom_right.0.bits,
        radii.bottom_left.0.bits,
    ] + rectangle_words(blur.content_mask.bounds)
}

/// The blurs from `first` up to `last` that are painted on a frame: those on
/// screen, of the first 32.
pub open spec fn blur_marks(
    blurs: Seq<BackdropBlur>,
    first: int,
    last: int,
    width: u32,
    height: u32,
) -> Seq<Seq<u32>>
    decreases last - first,
{
    if first >= last {
        seq![]
    } else {
        let rest = blur_marks(blurs, first, last - 1, width, height);
        if last - 1 < 32 && blurs[last - 1].on_screen(width, height) {
            rest.push(blur_mark(blurs[last - 1]))
        } else {
            rest
        }
    }
}

proof fn lemma_blurs_push(effects: Seq<Effect>, effect: Effect)
    ensures
        blurs_shown(effects.push(effect)) == match effect {
            Effect::Paint {
                canvas: Canvas::Frame,
                pipeline: PipelineKind::BackdropComposite,
                data: Data::Backdrop { words, .. },
                ..
            } => blurs_shown(effects).push(words.subrange(0, 12)),
            _ => blurs_shown(effects),
        },
{
    assert(effects.push(effect).drop_last() =~= effects);
}

/// The next blur is painted with its own kernel, if it is on screen and one of the
/// first 32; otherwise it is passed over.
pub proof fn law_next_blur_is_painted(
    params: FrameParams,
    p: Progress,
    blur: BackdropBlur,
    kernels: Seq<Vec<Float32>>,
)
    requires
        params.valid(),
        p.scratch is Some ==> p.scratch->0.valid(),
        replay(p.steps).open_frame(params.width, params.height),
    ensures
        ({
            let next = blur_passed(params, p, blur, kernels);
            let before = replay(p.steps);
            let after = replay(next.steps);
            let (width, height) = (params.width, params.height);
            &&& next.next_blur == p.next_blur + 1
            &&& next.offset == p.offset
            &&& next.scratch is Some ==> next.scratch->0.valid()
            &&& after.open_frame(width, height)
            &&& after.effects == if p.next_blur < 32 && blur.on_screen(width, height) {
                blur_painted(
                    before.effects,
                    blur,
                    p.scratch,
                    width,
                    height,
                    kernels[p.next_blur]@,
                )
            } else {
                before.effects
            }
            &&& blurs_shown(after.effects) == if p.next_blur < 32 && blur.on_screen(
                width,
                height,
            ) {
                blurs_shown(before.effects).push(blur_mark(blur))
            } else {
                blurs_shown(before.effects)
            }
        }),
{
    let before = replay(p.steps);
    if p.next_blur < 32 {
        let samples = kernels[p.next_blur]@;
        law_blur_is_painted(params, p, blur, p.next_blur, samples);
        if blur.on_screen(params.width, params.height) {
            crate::backdrop::law_blur_stays_inside(
                blur,
                p.scratch,
                params.width,
                params.height,
                samples,
            );
            lemma_blur_shown(before.effects, blur, p.scratch, params, samples);
        }
    }
}

proof fn lemma_blur_shown(
    effects: Seq<Effect>,
    blur: BackdropBlur,
    scratch: Option<BackdropScratch>,
    params: FrameParams,
    samples: Seq<Float32>,
)
    ensures
        blurs_shown(
            blur_painted(effects, blur, scratch, params.width, params.height, samples),
        ) == blurs_shown(effects).push(blur_mark(blur)),
{
    let s = blur.steps(scratch, params.width, params.height, samples);
    let replace = Effect::Replace { scratch: s.scratch };
    lemma_blurs_push(effects, replace);
    let ready = if scratch == Some(s.scratch) {
        effects
    } else {
        effects.push(replace)
    };
    let copy = Effect::Copy {
        left: s.copy_x,
        top: s.copy_y,
        width: s.scratch.width,
        height: s.scratch.height,
    };
    lemma_blurs_push(ready, copy);
    let copied = ready.push(copy);
    let snapshot = crate::commands::BackdropSource::Snapshot;
    let horizontal = crate::commands::BackdropSource::Horizontal;
    lemma_pass_shown(
        copied,
        Canvas::Horizontal,
        s.horizontal_words,
        snapshot,
        s.horizontal_region,
    );
    let rows = pass_painted(
        copied,
        Canvas::Horizontal,
        s.horizontal_words,
        snapshot,
        s.horizontal_region,
    );
    lemma_pass_shown(rows, Canvas::Vertical, s.vertical_words, horizontal, s.vertical_region);
    let columns = pass_painted(
        rows,
        Canvas::Vertical,
        s.vertical_words,
        horizontal,
        s.vertical_region,
    );
    let all = blur_painted(effects, blur, scratch, params.width, params.height, samples);
    lemma_blurs_push(columns, all.last());
    assert(all == columns.push(all.last()));
    assert(s.composite_words.subrange(0, 12) =~= blur_mark(blur)) by {
        reveal(crate::backdrop::composite_words);
    }
}

proof fn lemma_pass_shown(
    effects: Seq<Effect>,
    canvas: Canvas,
    words: Seq<u32>,
    source: crate::commands::BackdropSource,
    region: Seq<u32>,
)
    requires
        !(canvas is Frame),
    ensures
        blurs_shown(pass_painted(effects, canvas, words, source, region)) == blurs_shown(effects),
{
    let clear = Effect::Clear { canvas };
    lemma_blurs_push(effects, clear);
    let all = pass_painted(effects, canvas, words, source, region);
    if region[2] > 0 && region[3] > 0 {
        lemma_blurs_push(effects.push(clear), all.last());
        assert(all == effects.push(clear).push(all.last()));
    }
}

/// Before a batch, all blurs up to its place in the draw order are painted, one
/// after the other, but for those off screen or beyond the first 32. Nothing else
/// changes what is shown. Without support for blurs none is painted.
pub proof fn law_blurs_before_batch(
    params: FrameParams,
    p: Progress,
    blurs: Seq<BackdropBlur>,
    kernels: Seq<Vec<Float32>>,
    order: DrawOrder,
    px: int,
    py: int,
)
    requires
        params.valid(),
        p.scratch is Some ==> p.scratch->0.valid(),
        0 <= p.next_blur <= blurs.len(),
        replay(p.steps).open_frame(params.width, params.height),
    ensures
        ({
            let q = blurs_drawn(params, p, blurs, kernels, order);
            let before = replay(p.steps);
            let after = replay(q.steps);
            &&& !params.backdrop_blur_supported ==> q == p
            &&& p.next_blur <= q.next_blur <= blurs.len()
            &&& params.backdrop_blur_supported ==> {
                &&& forall|i: int|
                    p.next_blur <= i < q.next_blur ==> (#[trigger] blurs[i]).order <= order
                &&& q.next_blur < blurs.len() ==> blurs[q.next_blur].order > order
            }
            &&& blurs_shown(after.effects) == blurs_shown(before.effects) + blur_marks(
                blurs,
                p.next_blur,
                q.next_blur,
                params.width,
                params.height,
            )
            &&& shown_at(after.effects, px, py) == shown_at(before.effects, px, py)
            &&& after.open_frame(params.width, params.height)
            &&& q.scratch is Some ==> q.scratch->0.valid()
            &&& q.offset == p.offset
        }),
    decreases blurs.len() - p.next_blur,
{
    let before = replay(p.steps);
    let shown = blurs_shown(before.effects);
    if params.backdrop_blur_supported && p.next_blur < blurs.len() && blurs[p.next_blur].order
        <= order {
        let blur = blurs[p.next_blur];
        let next = blur_passed(params, p, blur, kernels);
        law_next_blur_is_painted(params, p, blur, kernels);
        law_blurs_before_batch(params, next, blurs, kernels, order, px, py);
        let q = blurs_drawn(params, p, blurs, kernels, order);
        lemma_marks_first(blurs, p.next_blur, q.next_blur, params.width, params.height);
        let rest = blur_marks(blurs, next.next_blur, q.next_blur, params.width, params.height);
        if p.next_blur < 32 && blur.on_screen(params.width, params.height) {
            lemma_blur_unseen(
                before.effects,
                blur,
                p.scratch,
                params,
                kernels[p.next_blur]@,
                px,
                py,
            );
            assert(shown.push(blur_mark(blur)) + rest =~= shown + (seq![blur_mark(blur)] + rest));
        }
    } else {
        assert(shown + seq![] =~= shown);
    }
}

/// The first of a row of blurs comes first.
proof fn lemma_marks_first(
    blurs: Seq<BackdropBlur>,
    first: int,
    last: int,
    width: u32,
    height: u32,
)
    requires
        first < last,
    ensures
        blur_marks(blurs, first, last, width, height) == if first < 32 && blurs[first].on_screen(
            width,
            height,
        ) {
            seq![blur_mark(blurs[first])] + blur_marks(blurs, first + 1, last, width, height)
        } else {
            blur_marks(blurs, first + 1, last, width, height)
        },
    decreases last - first,
{
    let all = blur_marks(blurs, first, last, width, height);
    if first + 1 < last {
        lemma_marks_first(blurs, first, last - 1, width, height);
        let rest = blur_marks(blurs, first + 1, last - 1, width, height);
        let mark = blur_mark(blurs[last - 1]);
        assert((seq![blur_mark(blurs[first])] + rest).push(mark) =~= seq![blur_mark(blurs[first])]
            + rest.push(mark));
    } else {
        let none = Seq::<Seq<u32>>::empty();
        assert(blur_marks(blurs, first, first, width, height) == none);
        assert(blur_marks(blurs, first + 1, last, width, height) == none);
        assert(none.push(blur_mark(blurs[first])) =~= seq![blur_mark(blurs[first])] + none);
    }
}

/// Blurs show no primitives.
proof fn lemma_blur_unseen(
    effects: Seq<Effect>,
    blur: BackdropBlur,
    scratch: Option<BackdropScratch>,
    params: FrameParams,
    samples: Seq<Float32>,
    px: int,
    py: int,
)
    ensures
        shown_at(
            blur_painted(effects, blur, scratch, params.width, params.height, samples),
            px,
            py,
        ) == shown_at(effects, px, py),
{
    let s = blur.steps(scratch, params.width, params.height, samples);
    let seen = shown_at(effects, px, py);
    assert(seen + seq![] =~= seen);
    let replace = Effect::Replace { scratch: s.scratch };
    lemma_shown_push(effects, replace, px, py);
    let ready = if scratch == Some(s.scratch) {
        effects
    } else {
        effects.push(replace)
    };
    let copy = Effect::Copy {
        left: s.copy_x,
        top: s.copy_y,
        width: s.scratch.width,
        height: s.scratch.height,
    };
    lemma_shown_push(ready, copy, px, py);
    let copied = ready.push(copy);
    let snapshot = crate::commands::BackdropSource::Snapshot;
    let horizontal = crate::commands::BackdropSource::Horizontal;
    lemma_pass_unseen(
        copied,
        Canvas::Horizontal,
        s.horizontal_words,
        snapshot,
        s.horizontal_region,
        px,
        py,
    );
    let rows = pass_painted(
        copied,
        Canvas::Horizontal,
        s.horizontal_words,
        snapshot,
        s.horizontal_region,
    );
    lemma_pass_unseen(
        rows,
        Canvas::Vertical,
        s.vertical_words,
        horizontal,
        s.vertical_region,
        px,
        py,
    );
    let columns = pass_painted(
        rows,
        Canvas::Vertical,
        s.vertical_words,
        horizontal,
        s.vertical_region,
    );
    let all = blur_painted(effects, blur, scratch, params.width, params.height, samples);
    lemma_shown_push(columns, all.last(), px, py);
    assert(all == columns.push(all.last()));
}

proof fn lemma_pass_unseen(
    effects: Seq<Effect>,
    canvas: Canvas,
    words: Seq<u32>,
    source: crate::commands::BackdropSource,
    region: Seq<u32>,
    px: int,
    py: int,
)
    ensures
        shown_at(pass_painted(effects, canvas, words, source, region), px, py) == shown_at(
            effects,
            px,
            py,
        ),
{
    let seen = shown_at(effects, px, py);
    assert(seen + seq![] =~= seen);
    let clear = Effect::Clear { canvas };
    lemma_shown_push(effects, clear, px, py);
    let all = pass_painted(effects, canvas, words, source, region);
    if region[2] > 0 && region[3] > 0 {
        lemma_shown_push(effects.push(clear), all.last(), px, py);
        assert(all == effects.push(clear).push(all.last()));
    }
}

/// A frame without batches clears the frame and does nothing else. One more batch
/// at the end is drawn after all others, if there was room for them, and after
/// the blurs up to its place in the draw order.
pub proof fn law_frame_grows(
    params: FrameParams,
    scratch: Option<BackdropScratch>,
    scene: Scene,
    batches: Seq<PrimitiveBatch>,
    batch: PrimitiveBatch,
    kernels: Seq<Vec<Float32>>,
)
    ensures
        ({
            let (empty, done) = frame_drawn(params, scratch, scene, seq![], kernels);
            &&& done
            &&& empty.steps == seq![Step::BeginMainPass]
            &&& replay(empty.steps).effects == seq![Effect::Clear { canvas: Canvas::Frame }]
            &&& empty.offset == 0 && empty.next_blur == 0 && empty.scratch == scratch
        }),
        ({
            let (so_far, ok) = frame_drawn(params, scratch, scene, batches, kernels);
            let more = frame_drawn(params, scratch, scene, batches.push(batch), kernels);
            let blurred = blurs_drawn(
                params,
                so_far,
                scene.backdrop_blurs@,
                kernels,
                batch.first_order(scene),
            );
            &&& !ok ==> more == (so_far, false)
            &&& ok ==> more == batch_drawn(params, blurred, scene, batch)
        }),
{
    let start = Progress { steps: seq![Step::BeginMainPass], offset: 0, scratch, next_blur: 0 };
    lemma_replay_push(seq![], Step::BeginMainPass);
    assert(Seq::<Step>::empty().push(Step::BeginMainPass) =~= seq![Step::BeginMainPass]);
    assert(Seq::<Effect>::empty().push(Effect::Clear { canvas: Canvas::Frame }) =~= seq![
        Effect::Clear { canvas: Canvas::Frame },
    ]);
    lemma_batches_push(params, start, scene, batches, batch, kernels, 0);
}

proof fn lemma_batches_push(
    params: FrameParams,
    p: Progress,
    scene: Scene,
    batches: Seq<PrimitiveBatch>,
    batch: PrimitiveBatch,
    kernels: Seq<Vec<Float32>>,
    i: int,
)
    requires
        0 <= i <= batches.len(),
    ensures
        ({
            let (so_far, ok) = batches_drawn(params, p, scene, batches, kernels, i);
            let more = batches_drawn(params, p, scene, batches.push(batch), kernels, i);
            let blurred = blurs_drawn(
                params,
                so_far,
                scene.backdrop_blurs@,
                kernels,
                batch.first_order(scene),
            );
            &&& !ok ==> more == (so_far, false)
            &&& ok ==> more == batch_drawn(params, blurred, scene, batch)
        }),
    decreases batches.len() - i,
{
    let all = batches.push(batch);
    if i < batches.len() {
        assert(all[i] == batches[i]);
        let blurred = blurs_drawn(
            params,
            p,
            scene.backdrop_blurs@,
            kernels,
            batches[i].first_order(scene),
        );
        let (next, ok) = batch_drawn(params, blurred, scene, batches[i]);
        if ok {
            lemma_batches_push(params, next, scene, batches, batch, kernels, i + 1);
        }
    } else {
        assert(all[i] == batch);
        let blurred = blurs_drawn(
            params,
            p,
            scene.backdrop_blurs@,
            kernels,
            batch.first_order(scene),
        );
        let (next, ok) = batch_drawn(params, blurred, scene, batch);
        assert(batches_drawn(params, next, scene, all, kernels, i + 1) == (next, true));
    }
}

/// Whether a batch is a part of its list, and not too large for one draw call.
pub open spec fn batch_usable(scene: Scene, batch: PrimitiveBatch) -> bool {
    (batch is Surfaces || batch.within(scene)) && batch.span().1 - batch.span().0 <= u32::MAX
}

/// Before each batch, the blurs up to its place in the draw order have been
/// painted, and those above all batches so far have not: the number of blurs
/// that are dealt with before a frame goes on with batch number `n`.
pub open spec fn blurs_due(scene: Scene, batches: Seq<PrimitiveBatch>, n: int) -> int
    decreases n,
{
    if n <= 0 {
        0
    } else {
        due_at(
            scene.backdrop_blurs@,
            blurs_due(scene, batches, n - 1),
            batches[n - 1].first_order(scene),
        )
    }
}

/// The first blur from number `i` on that is above a place in the draw order.
pub open spec fn due_at(blurs: Seq<BackdropBlur>, i: int, order: DrawOrder) -> int
    decreases blurs.len() - i,
{
    if 0 <= i < blurs.len() && blurs[i].order <= order {
        due_at(blurs, i + 1, order)
    } else {
        i
    }
}

proof fn lemma_due(blurs: Seq<BackdropBlur>, i: int, next: int, order: DrawOrder)
    requires
        0 <= i <= next <= blurs.len(),
        forall|j: int| i <= j < next ==> (#[trigger] blurs[j]).order <= order,
        next < blurs.len() ==> blurs[next].order > order,
    ensures
        due_at(blurs, i, order) == next,
    decreases next - i,
{
    if i < next {
        assert(blurs[i].order <= order);
        lemma_due(blurs, i + 1, next, order);
    }
}

/// A frame that there is room for shows, at every pixel, each primitive of its
/// batches once, batch after batch. It paints each blur up to the place of some
/// batch in the draw order, but for those off screen or beyond the first 32, and
/// no other.
pub proof fn law_frame_shows_everything(
    params: FrameParams,
    scratch: Option<BackdropScratch>,
    scene: Scene,
    batches: Seq<PrimitiveBatch>,
    kernels: Seq<Vec<Float32>>,
    px: int,
    py: int,
)
    requires
        params.valid(),
        scratch is Some ==> scratch->0.valid(),
        params.path_intermediate,
        0 <= px < params.width,
        0 <= py < params.height,
        forall|i: int| 0 <= i < batches.len() ==> batch_usable(scene, #[trigger] batches[i]),
    ensures
        ({
            let (p, ok) = frame_drawn(params, scratch, scene, batches, kernels);
            let gpu = replay(p.steps);
            let n = batches.len() as int;
            &&& gpu.open_frame(params.width, params.height)
            &&& ok ==> shown_at(gpu.effects, px, py) == batches.map_values(
                |b: PrimitiveBatch| batch_words(scene, b),
            ).flatten()
            &&& ok ==> blurs_shown(gpu.effects) == blur_marks(
                scene.backdrop_blurs@,
                0,
                if params.backdrop_blur_supported {
                    blurs_due(scene, batches, n)
                } else {
                    0
                },
                params.width,
                params.height,
            )
        }),
{
    lemma_frame_shows(params, scratch, scene, batches, kernels, px, py);
}

#[verifier::rlimit(40)]
proof fn lemma_frame_shows(
    params: FrameParams,
    scratch: Option<BackdropScratch>,
    scene: Scene,
    batches: Seq<PrimitiveBatch>,
    kernels: Seq<Vec<Float32>>,
    px: int,
    py: int,
)
    requires
        params.valid(),
        scratch is Some ==> scratch->0.valid(),
        params.path_intermediate,
        0 <= px < params.width,
        0 <= py < params.height,
        forall|i: int| 0 <= i < batches.len() ==> batch_usable(scene, #[trigger] batches[i]),
    ensures
        ({
            let (p, ok) = frame_drawn(params, scratch, scene, batches, kernels);
            let gpu = replay(p.steps);
            let n = batches.len() as int;
            let blurs = scene.backdrop_blurs@;
            let due = if params.backdrop_blur_supported {
                blurs_due(scene, batches, n)
            } else {
                0
            };
            &&& gpu.open_frame(params.width, params.height)
            &&& p.scratch is Some ==> p.scratch->0.valid()
            &&& ok ==> {
                &&& shown_at(gpu.effects, px, py) == batches.map_values(
                    |b: PrimitiveBatch| batch_words(scene, b),
                ).flatten()
                &&& p.next_blur == due && 0 <= due <= blurs.len()
                &&& blurs_shown(gpu.effects) == blur_marks(
                    blurs,
                    0,
                    due,
                    params.width,
                    params.height,
                )
            }
        }),
    decreases batches.len(),
{
    let f = |b: PrimitiveBatch| batch_words(scene, b);
    let blurs = scene.backdrop_blurs@;
    crate::frame_laws::lemma_scratch_stays_valid(params, scratch, scene, batches, kernels);
    if batches.len() == 0 {
        assert(batches =~= seq![]);
        law_frame_grows(params, scratch, scene, seq![], PrimitiveBatch::Surfaces(0..0), kernels);
        let clear = Effect::Clear { canvas: Canvas::Frame };
        let none = Seq::<Effect>::empty();
        assert(none.push(clear) =~= seq![clear]);
        lemma_shown_push(none, clear, px, py);
        lemma_blurs_push(none, clear);
        assert(shown_at(none, px, py) + shows(clear, px, py) =~= seq![]);
        assert(blurs_shown(none) =~= seq![]);
        assert(batches.map_values(f) =~= seq![]);
        lemma_replay_push(seq![], Step::BeginMainPass);
        assert(Seq::<Step>::empty().push(Step::BeginMainPass) =~= seq![Step::BeginMainPass]);
    } else {
        let rest = batches.drop_last();
        let batch = batches.last();
        let n = batches.len() as int;
        assert forall|i: int| 0 <= i < rest.len() implies batch_usable(
            scene,
            #[trigger] rest[i],
        ) by {
            assert(rest[i] == batches[i]);
        }
        lemma_frame_shows(params, scratch, scene, rest, kernels, px, py);
        law_frame_grows(params, scratch, scene, rest, batch, kernels);
        assert(rest.push(batch) =~= batches);
        let (so_far, ok) = frame_drawn(params, scratch, scene, rest, kernels);
        if ok {
            let order = batch.first_order(scene);
            let blurred = blurs_drawn(params, so_far, blurs, kernels, order);
            law_blurs_before_batch(params, so_far, blurs, kernels, order, px, py);
            assert(batch_usable(scene, batches[n - 1]));
            law_batch_shows_primitives(params, blurred, scene, batch, px, py);
            let (next, drawn) = batch_drawn(params, blurred, scene, batch);
            rest.map_values(f).lemma_flatten_push(f(batch));
            assert(batches.map_values(f) =~= rest.map_values(f).push(f(batch)));
            lemma_batch_keeps_blurs(params, blurred, scene, batch);
            lemma_due_same(scene, rest, batches, n - 1);
            if params.backdrop_blur_supported {
                lemma_due(blurs, so_far.next_blur, blurred.next_blur, order);
                lemma_marks_concat(
                    blurs,
                    0,
                    so_far.next_blur,
                    blurred.next_blur,
                    params.width,
                    params.height,
                );
            } else {
                let none = Seq::<Seq<u32>>::empty();
                assert(blur_marks(blurs, 0, 0, params.width, params.height) == none);
                assert(none + none =~= none);
            }
        }
    }
}

/// Batches of primitives paint no blurs.
#[verifier::rlimit(40)]
proof fn lemma_batch_keeps_blurs(
    params: FrameParams,
    p: Progress,
    scene: Scene,
    batch: PrimitiveBatch,
)
    requires
        batch_usable(scene, batch),
        params.path_intermediate,
        params.width > 0 && params.height > 0,
        replay(p.steps).open_frame(params.width, params.height),
    ensures
        ({
            let (next, ok) = batch_drawn(params, p, scene, batch);
            &&& next.next_blur == p.next_blur
            &&& ok ==> blurs_shown(replay(next.steps).effects) == blurs_shown(
                replay(p.steps).effects,
            )
        }),
{
    crate::frame::lemma_batch_next(params, p, scene, batch);
    let (first, last) = batch.span();
    let (next, ok) = batch_drawn(params, p, scene, batch);
    let before = replay(p.steps);
    let after = replay(next.steps);
    match batch {
        PrimitiveBatch::Quads(_) => {
            let quads = scene.quads@.subrange(first, last);
            law_quads_are_painted(params, p, quads, 0, 0);
            lemma_runs_keep_blurs(before.effects, after.effects, quads, params.software);
        },
        PrimitiveBatch::Paths(_) => {
            let paths = scene.paths@.subrange(first, last);
            if paths.len() > 0 {
                law_paths_are_painted(params, p, paths);
                if ok {
                    let clear = Effect::Clear { canvas: Canvas::Paths { msaa: params.path_msaa } };
                    lemma_blurs_push(before.effects, clear);
                    let triangles = triangles_painted(before.effects, paths, params.path_msaa);
                    lemma_blurs_push(before.effects.push(clear), triangles.last());
                    lemma_blurs_push(triangles, after.effects.last());
                    assert(after.effects == triangles.push(after.effects.last()));
                    assert(triangles == before.effects || triangles == before.effects.push(
                        clear,
                    ).push(triangles.last()));
                }
            }
        },
        _ => {
            law_batches_are_painted(params, p, scene, batch);
            if ok && !(batch is Surfaces) && first != last {
                lemma_blurs_push(before.effects, after.effects.last());
                assert(after.effects == before.effects.push(after.effects.last()));
            }
        },
    }
}

proof fn lemma_runs_keep_blurs(
    before: Seq<Effect>,
    after: Seq<Effect>,
    quads: Seq<Quad>,
    software: bool,
)
    requires
        before.is_prefix_of(after),
        all_paint_runs(after, before.len() as int, quads, software),
    ensures
        blurs_shown(after) == blurs_shown(before),
    decreases after.len(),
{
    if before.len() == after.len() {
        assert(before =~= after);
    } else {
        let rest = after.drop_last();
        assert(before.is_prefix_of(rest)) by {
            assert(before =~= rest.subrange(0, before.len() as int));
        }
        assert forall|i: int| before.len() <= i < rest.len() implies paints_some(
            #[trigger] rest[i],
            quads,
            software,
        ) by {
            assert(rest[i] == after[i]);
        }
        lemma_runs_keep_blurs(before, rest, quads, software);
        let last = after[after.len() - 1];
        assert(paints_some(last, quads, software));
        reveal(paints_some);
        reveal(paints_run);
    }
}

proof fn lemma_due_same(scene: Scene, rest: Seq<PrimitiveBatch>, all: Seq<PrimitiveBatch>, n: int)
    requires
        0 <= n <= rest.len(),
        rest == all.drop_last(),
        all.len() > 0,
    ensures
        blurs_due(scene, rest, n) == blurs_due(scene, all, n),
    decreases n,
{
    if n > 0 {
        assert(rest[n - 1] == all[n - 1]);
        lemma_due_same(scene, rest, all, n - 1);
    }
}

proof fn lemma_marks_concat(
    blurs: Seq<BackdropBlur>,
    a: int,
    b: int,
    c: int,
    width: u32,
    height: u32,
)
    requires
        a <= b <= c,
    ensures
        blur_marks(blurs, a, c, width, height) == blur_marks(blurs, a, b, width, height)
            + blur_marks(blurs, b, c, width, height),
    decreases c - b,
{
    let left = blur_marks(blurs, a, b, width, height);
    if b == c {
        assert(left + blur_marks(blurs, b, c, width, height) =~= left);
    } else {
        lemma_marks_concat(blurs, a, b, c - 1, width, height);
        let right = blur_marks(blurs, b, c - 1, width, height);
        let mark = blur_mark(blurs[c - 1]);
        assert((left + right).push(mark) =~= left + right.push(mark));
    }
}

} // verus!
