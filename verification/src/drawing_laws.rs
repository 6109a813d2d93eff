//! What batches of primitives paint.
use crate::commands::{bind_instances, FrameParams, Globals, Progress, Step, TextureSource};
use crate::drawing::{
    instances_drawn, lemma_vertex_count, path_sprites, paths_bounds, paths_drawn, paths_hull,
    paths_rasterized, paths_words, primitives_words, quads_words, sprites_words, vertex_count,
    vertices_words,
};
use crate::frame::batch_drawn;
use crate::geometry::{Bounds, ScaledPixels};
use crate::geometry_laws::{greatest, has_edges, law_whole_rectangles, least};
use crate::layout::vertex_words;
use crate::pipelines::PipelineKind;
use crate::replay::{lemma_replay_push, lemma_replay_then, replay, Canvas, Data, Effect, Gpu};
use crate::scene::{
    Path, PathVertex, PolychromeSprite, Primitive, PrimitiveBatch, Quad, Scene,
};
use crate::uniforms::{align_up, lemma_align_up};
use vstd::prelude::*;

verus! {

/// The words of primitives are those of each of them, one after the other.
pub proof fn law_primitives_follow_each_other(primitives: Seq<Primitive>)
    ensures
        primitives_words(primitives) == primitives.map_values(|p: Primitive| p.words@).flatten(),
    decreases primitives.len(),
{
    let f = |p: Primitive| p.words@;
    if primitives.len() > 0 {
        law_primitives_follow_each_other(primitives.drop_last());
        let rest = primitives.drop_last().map_values(f);
        rest.lemma_flatten_push(primitives.last().words@);
        assert(primitives.map_values(f) =~= rest.push(primitives.last().words@));
    }
}

/// The words of quads are those of each of them, one after the other.
pub proof fn law_quads_follow_each_other(quads: Seq<Quad>)
    ensures
        quads_words(quads) == quads.map_values(|q: Quad| q.words()).flatten(),
    decreases quads.len(),
{
    let f = |q: Quad| q.words();
    if quads.len() > 0 {
        law_quads_follow_each_other(quads.drop_last());
        let rest = quads.drop_last().map_values(f);
        rest.lemma_flatten_push(quads.last().words());
        assert(quads.map_values(f) =~= rest.push(quads.last().words()));
    }
}

/// The words of colored sprites are those of each of them, one after the other.
pub proof fn law_sprites_follow_each_other(sprites: Seq<PolychromeSprite>)
    ensures
        sprites_words(sprites) == sprites.map_values(|s: PolychromeSprite| s.words()).flatten(),
    decreases sprites.len(),
{
    let f = |s: PolychromeSprite| s.words();
    if sprites.len() > 0 {
        law_sprites_follow_each_other(sprites.drop_last());
        let rest = sprites.drop_last().map_values(f);
        rest.lemma_flatten_push(sprites.last().words());
        assert(sprites.map_values(f) =~= rest.push(sprites.last().words()));
    }
}

/// The words of the vertices of a path hold 26 words for each vertex, in order,
/// beginning with its two positions. All are followed by the color of the path
/// and by what can be seen of it.
pub proof fn law_vertices_follow_each_other(path: Path, vertices: Seq<PathVertex>, i: int)
    requires
        0 <= i < vertices.len(),
    ensures
        vertices_words(path, vertices).len() == 26 * vertices.len(),
        ({
            let words = vertices_words(path, vertices);
            let clip = path.bounds.common_part(path.content_mask.bounds);
            &&& words[26 * i] == vertices[i].xy_position.x.0.bits
            &&& words[26 * i + 1] == vertices[i].xy_position.y.0.bits
            &&& words[26 * i + 2] == vertices[i].st_position.x.bits
            &&& words[26 * i + 3] == vertices[i].st_position.y.bits
            &&& words.subrange(26 * i + 4, 26 * i + 22) == path.color.words()
            &&& words[26 * i + 22] == clip.origin.x.0.bits
            &&& words[26 * i + 23] == clip.origin.y.0.bits
            &&& words[26 * i + 24] == clip.size.width.0.bits
            &&& words[26 * i + 25] == clip.size.height.0.bits
        }),
    decreases vertices.len(),
{
    let n = vertices.len() as int;
    let before = vertices_words(path, vertices.drop_last());
    let last = vertex_words(vertices.last(), path.color, path.visible_bounds());
    let words = vertices_words(path, vertices);
    assert(words == before + last);
    assert(before.len() == 26 * (n - 1)) by {
        if n > 1 {
            law_vertices_follow_each_other(path, vertices.drop_last(), 0);
        }
    }
    if i < n - 1 {
        law_vertices_follow_each_other(path, vertices.drop_last(), i);
        assert(words.subrange(26 * i + 4, 26 * i + 22) =~= before.subrange(
            26 * i + 4,
            26 * i + 22,
        ));
    } else {
        assert(words.subrange(26 * i + 4, 26 * i + 22) =~= path.color.words());
    }
}

/// The words of the vertices of paths are those of each path, one after the
/// other.
pub proof fn law_paths_follow_each_other(paths: Seq<Path>)
    ensures
        paths_words(paths) == paths.map_values(
            |p: Path| vertices_words(p, p.vertices@),
        ).flatten(),
    decreases paths.len(),
{
    let f = |p: Path| vertices_words(p, p.vertices@);
    if paths.len() > 0 {
        law_paths_follow_each_other(paths.drop_last());
        let rest = paths.drop_last().map_values(f);
        rest.lemma_flatten_push(f(paths.last()));
        assert(paths.map_values(f) =~= rest.push(f(paths.last())));
    }
}

/// Data is written exactly if there is an aligned place for it behind what is in
/// use, with at least sixteen bytes. It then takes the first such place.
pub proof fn law_room_is_used(
    params: FrameParams,
    p: Progress,
    words: Seq<u32>,
    count: u32,
    kind: PipelineKind,
    texture: Option<TextureSource>,
)
    requires
        params.alignment > 0,
        p.offset >= 0,
        count > 0,
    ensures
        ({
            let (next, ok) = instances_drawn(params, p, words, count, kind, texture);
            let size = if words.len() < 4 {
                16
            } else {
                4 * words.len() as int
            };
            let place = next.offset - size;
            &&& ok <==> exists|place: int|
                p.offset <= place && #[trigger] (place % params.alignment as int) == 0 && place
                    + size <= params.capacity
            &&& ok ==> p.offset <= place < p.offset + params.alignment
            &&& ok ==> place % params.alignment as int == 0
            &&& !ok ==> next == p
        }),
{
    reveal(instances_drawn);
    let (next, ok) = instances_drawn(params, p, words, count, kind, texture);
    let a = params.alignment as int;
    let size = if words.len() < 4 {
        16
    } else {
        4 * words.len() as int
    };
    lemma_align_up(p.offset, a);
    let least = align_up(p.offset, a);
    assert(ok ==> least % a == 0 && p.offset <= least && least + size <= params.capacity);
    if exists|place: int|
        p.offset <= place && #[trigger] (place % a) == 0 && place + size <= params.capacity {
        let place = choose|place: int|
            p.offset <= place && #[trigger] (place % a) == 0 && place + size <= params.capacity;
        if place < least {
            vstd::arithmetic::div_mod::lemma_fundamental_div_mod(place, a);
            vstd::arithmetic::div_mod::lemma_fundamental_div_mod(least, a);
            let i = place / a;
            let j = least / a;
            assert(false) by (nonlinear_arith)
                requires
                    place == a * i,
                    least == a * j,
                    place < least,
                    least < place + a,
                    a > 0,
            ;
        }
    }
}

/// What a draw call of instances paints.
pub open spec fn instances_painted(
    gpu: Gpu,
    words: Seq<u32>,
    count: int,
    kind: PipelineKind,
    texture: Option<TextureSource>,
) -> Effect {
    Effect::Paint {
        canvas: gpu.canvas->0,
        pipeline: kind,
        data: Data::Instances { globals: Globals::Main, words, texture },
        scissor: gpu.scissor,
        vertices: 4,
        instances: count as u32,
    }
}

/// Drawing instances is one draw call with just these words. It goes where
/// drawing went before, and leaves that as it is.
pub proof fn law_instances_are_painted(
    params: FrameParams,
    p: Progress,
    words: Seq<u32>,
    count: u32,
    kind: PipelineKind,
    texture: Option<TextureSource>,
)
    requires
        replay(p.steps).canvas is Some,
    ensures
        ({
            let (next, ok) = instances_drawn(params, p, words, count, kind, texture);
            let before = replay(p.steps);
            let after = replay(next.steps);
            &&& count == 0 ==> ok && next == p
            &&& !ok ==> next == p
            &&& ok && count > 0 ==> after.effects == before.effects.push(
                instances_painted(before, words, count as int, kind, texture),
            )
            &&& after.canvas == before.canvas
            &&& after.scissor == before.scissor
            &&& next.next_blur == p.next_blur
            &&& next.scratch == p.scratch
        }),
{
    reveal(instances_drawn);
    let (next, ok) = instances_drawn(params, p, words, count, kind, texture);
    if ok && count > 0 {
        let a = p.with_instances(params, words);
        let offset = crate::commands::instance_offset(params, p.offset);
        lemma_replay_push(p.steps, Step::WriteInstances { offset, words });
        let pipeline = Step::SetPipeline { kind };
        let bind = bind_instances(params, p.offset, words, Globals::Main, texture);
        lemma_replay_then(a, pipeline);
        lemma_replay_then(a.then_do(pipeline), bind);
        lemma_replay_then(
            a.then_do(pipeline).then_do(bind),
            Step::Draw { vertices: 4, instances: count },
        );
    }
}

/// What one draw call for a whole batch paints; nothing for an empty batch.
pub open spec fn batch_painted(
    gpu: Gpu,
    words: Seq<u32>,
    count: int,
    kind: PipelineKind,
    texture: Option<TextureSource>,
) -> Seq<Effect> {
    if count == 0 {
        gpu.effects
    } else {
        gpu.effects.push(instances_painted(gpu, words, count, kind, texture))
    }
}

/// A batch of shadows, underlines or sprites is painted by one draw call that
/// has every primitive of the batch once, in order, with the pipeline of its kind
/// and the texture that its sprites are in. Subpixel text is painted as ordinary
/// text where there is no pipeline for it. Surfaces are not painted. If there is
/// no room, nothing is.
pub proof fn law_batches_are_painted(
    params: FrameParams,
    p: Progress,
    scene: Scene,
    batch: PrimitiveBatch,
)
    requires
        batch is Surfaces || batch.within(scene),
        batch.span().1 - batch.span().0 <= u32::MAX,
        replay(p.steps).canvas is Some,
    ensures
        ({
            let (next, ok) = batch_drawn(params, p, scene, batch);
            let before = replay(p.steps);
            let after = replay(next.steps);
            let words = |p: Primitive| p.words@;
            match batch {
                PrimitiveBatch::Shadows(r) => ok ==> after.effects == batch_painted(
                    before,
                    scene.shadows@.subrange(r.start as int, r.end as int).map_values(
                        words,
                    ).flatten(),
                    r.end - r.start,
                    PipelineKind::Shadows,
                    None,
                ),
                PrimitiveBatch::Underlines(r) => ok ==> after.effects == batch_painted(
                    before,
                    scene.underlines@.subrange(r.start as int, r.end as int).map_values(
                        words,
                    ).flatten(),
                    r.end - r.start,
                    PipelineKind::Underlines,
                    None,
                ),
                PrimitiveBatch::MonochromeSprites { texture_id, range: r } => ok ==> after.effects
                    == batch_painted(
                    before,
                    scene.monochrome_sprites@.subrange(r.start as int, r.end as int).map_values(
                        words,
                    ).flatten(),
                    r.end - r.start,
                    PipelineKind::MonoSprites,
                    Some(TextureSource::Atlas(texture_id)),
                ),
                PrimitiveBatch::SubpixelSprites { texture_id, range: r } => ok ==> after.effects
                    == batch_painted(
                    before,
                    scene.subpixel_sprites@.subrange(r.start as int, r.end as int).map_values(
                        words,
                    ).flatten(),
                    r.end - r.start,
                    if params.subpixel_pipeline {
                        PipelineKind::SubpixelSprites
                    } else {
                        PipelineKind::MonoSprites
                    },
                    Some(TextureSource::Atlas(texture_id)),
                ),
                PrimitiveBatch::PolychromeSprites { texture_id, range: r } => ok ==> after.effects
                    == batch_painted(
                    before,
                    scene.polychrome_sprites@.subrange(r.start as int, r.end as int).map_values(
                        |s: PolychromeSprite| s.words(),
                    ).flatten(),
                    r.end - r.start,
                    PipelineKind::PolySprites,
                    Some(TextureSource::Atlas(texture_id)),
                ),
                PrimitiveBatch::Surfaces(_) => ok && next == p,
                _ => true,
            }
        }),
        ({
            let (next, ok) = batch_drawn(params, p, scene, batch);
            let before = replay(p.steps);
            let after = replay(next.steps);
            !(batch is Quads || batch is Paths) ==> {
                &&& !ok ==> next == p
                &&& batch.span().0 == batch.span().1 ==> ok
                &&& after.canvas == before.canvas
                &&& after.scissor == before.scissor
            }
        }),
{
    let (first, last) = batch.span();
    let n = (last - first) as u32;
    match batch {
        PrimitiveBatch::Shadows(_) => {
            let part = scene.shadows@.subrange(first, last);
            law_primitives_follow_each_other(part);
            let words = primitives_words(part);
            law_instances_are_painted(params, p, words, n, PipelineKind::Shadows, None);
        },
        PrimitiveBatch::Underlines(_) => {
            let part = scene.underlines@.subrange(first, last);
            law_primitives_follow_each_other(part);
            let words = primitives_words(part);
            law_instances_are_painted(params, p, words, n, PipelineKind::Underlines, None);
        },
        PrimitiveBatch::MonochromeSprites { texture_id, .. } => {
            let part = scene.monochrome_sprites@.subrange(first, last);
            law_primitives_follow_each_other(part);
            let texture = Some(TextureSource::Atlas(texture_id));
            let words = primitives_words(part);
            law_instances_are_painted(params, p, words, n, PipelineKind::MonoSprites, texture);
        },
        PrimitiveBatch::SubpixelSprites { texture_id, .. } => {
            let part = scene.subpixel_sprites@.subrange(first, last);
            law_primitives_follow_each_other(part);
            let texture = Some(TextureSource::Atlas(texture_id));
            let kind = crate::drawing::subpixel_kind(params);
            law_instances_are_painted(params, p, primitives_words(part), n, kind, texture);
        },
        PrimitiveBatch::PolychromeSprites { texture_id, .. } => {
            let part = scene.polychrome_sprites@.subrange(first, last);
            law_sprites_follow_each_other(part);
            let texture = Some(TextureSource::Atlas(texture_id));
            let words = sprites_words(part);
            law_instances_are_painted(params, p, words, n, PipelineKind::PolySprites, texture);
        },
        _ => {},
    }
}

/// The corner and the size of a rectangle.
pub open spec fn rectangle_words(r: Bounds<ScaledPixels>) -> Seq<u32> {
    seq![r.origin.x.0.bits, r.origin.y.0.bits, r.size.width.0.bits, r.size.height.0.bits]
}

/// What can be seen of a path: the part of its bounds in its clip rectangle.
pub open spec fn seen(path: Path) -> Bounds<ScaledPixels> {
    path.bounds.common_part(path.content_mask.bounds)
}

proof fn lemma_bounds_follow(paths: Seq<Path>)
    ensures
        paths_bounds(paths) == paths.map_values(|p: Path| rectangle_words(seen(p))).flatten(),
    decreases paths.len(),
{
    let f = |p: Path| rectangle_words(seen(p));
    if paths.len() > 0 {
        lemma_bounds_follow(paths.drop_last());
        let rest = paths.drop_last().map_values(f);
        rest.lemma_flatten_push(f(paths.last()));
        assert(paths.map_values(f) =~= rest.push(f(paths.last())));
        assert(paths.last().visible_bounds().words() =~= f(paths.last()));
    }
}

/// The effects of drawing paths to their own texture: it is cleared, and all
/// triangles are painted at once, with the parameters of paths.
pub open spec fn triangles_painted(effects: Seq<Effect>, paths: Seq<Path>, msaa: bool) -> Seq<
    Effect,
> {
    let words = paths.map_values(|p: Path| vertices_words(p, p.vertices@)).flatten();
    if words.len() == 0 {
        effects
    } else {
        effects.push(Effect::Clear { canvas: Canvas::Paths { msaa } }).push(
            Effect::Paint {
                canvas: Canvas::Paths { msaa },
                pipeline: PipelineKind::PathRasterization,
                data: Data::Instances { globals: Globals::Path, words, texture: None },
                scissor: None,
                vertices: (words.len() / 26) as u32,
                instances: 1,
            },
        )
    }
}

/// A batch of paths is painted in two steps. First its triangles go to a texture
/// of their own. Then that is put on the frame: through what can be seen of each
/// path if the first and the last have the same place in the draw order, or else
/// through one rectangle around them all. Drawing goes on at the frame, open to
/// all of it.
#[verifier::rlimit(40)]
pub proof fn law_paths_are_painted(params: FrameParams, p: Progress, paths: Seq<Path>)
    requires
        0 < paths.len() <= u32::MAX,
    ensures
        ({
            let (next, ok) = paths_drawn(params, p, paths);
            let before = replay(p.steps);
            let after = replay(next.steps);
            let alone = paths[0].order == paths[paths.len() - 1].order;
            let words = if alone {
                paths.map_values(|p: Path| rectangle_words(seen(p))).flatten()
            } else {
                rectangle_words(paths_hull(paths))
            };
            &&& after.canvas == Some(Canvas::Frame)
            &&& after.scissor is None
            &&& ok && params.path_intermediate ==> after.effects == triangles_painted(
                before.effects,
                paths,
                params.path_msaa,
            ).push(
                Effect::Paint {
                    canvas: Canvas::Frame,
                    pipeline: PipelineKind::Paths,
                    data: Data::Instances {
                        globals: Globals::Main,
                        words,
                        texture: Some(TextureSource::PathIntermediate),
                    },
                    scissor: None,
                    vertices: 4,
                    instances: if alone {
                        paths.len() as u32
                    } else {
                        1
                    },
                },
            )
            &&& !params.path_intermediate ==> after.effects == before.effects
        }),
{
    let (rasterized, drawn) = paths_rasterized(params, p, paths);
    let words = paths_words(paths);
    law_paths_follow_each_other(paths);
    lemma_vertex_count(paths);
    lemma_bounds_follow(paths);
    assert(rectangle_words(paths_hull(paths)) =~= paths_hull(paths).words());
    let before = replay(p.steps);
    assert({
        let after = replay(rasterized.steps);
        &&& drawn && params.path_intermediate ==> after.effects == triangles_painted(
            before.effects,
            paths,
            params.path_msaa,
        )
        &&& !params.path_intermediate ==> after.effects == before.effects
    }) by {
        reveal(paths_rasterized);
        if words.len() > 0 && drawn {
            let offset = crate::commands::instance_offset(params, p.offset);
            lemma_replay_push(p.steps, Step::WriteInstances { offset, words });
            if params.path_intermediate {
                let a = p.with_instances(params, words);
                let pass = Step::BeginPathPass { msaa: params.path_msaa };
                lemma_replay_then(a, pass);
                let b = a.then_do(pass);
                let pipeline = Step::SetPipeline { kind: PipelineKind::PathRasterization };
                lemma_replay_then(b, pipeline);
                let c = b.then_do(pipeline);
                let bind = bind_instances(params, p.offset, words, Globals::Path, None);
                lemma_replay_then(c, bind);
                lemma_replay_then(
                    c.then_do(bind),
                    Step::Draw { vertices: vertex_count(paths) as u32, instances: 1 },
                );
            }
        }
    }
    let resumed = rasterized.then_do(Step::ContinueMainPass);
    lemma_replay_then(rasterized, Step::ContinueMainPass);
    let (sprites, count) = path_sprites(paths);
    law_instances_are_painted(
        params,
        resumed,
        sprites,
        count as u32,
        PipelineKind::Paths,
        Some(TextureSource::PathIntermediate),
    );
}

/// The rectangle around paths with whole edges is the least that holds what can
/// be seen of each of them.
#[verifier::rlimit(40)]
pub proof fn law_paths_hull(paths: Seq<Path>, edges: Seq<(int, int, int, int)>)
    requires
        paths.len() > 0,
        edges.len() == paths.len(),
        forall|i: int|
            0 <= i < paths.len() ==> {
                let (left, top, right, bottom) = #[trigger] edges[i];
                &&& has_edges(seen(paths[i]), left, top, right, bottom)
                &&& -0x40_0000 <= left <= 0x40_0000 && -0x40_0000 <= top <= 0x40_0000
                &&& -0x40_0000 <= right <= 0x40_0000 && -0x40_0000 <= bottom <= 0x40_0000
            },
    ensures
        exists|left: int, top: int, right: int, bottom: int|
            #[trigger] has_edges(paths_hull(paths), left, top, right, bottom) && around(
                edges,
                left,
                top,
                right,
                bottom,
            ),
    decreases paths.len(),
{
    let n = paths.len() - 1;
    let (l, t, r, b) = edges[n];
    if n == 0 {
        assert(edges[0] == (l, t, r, b));
        assert(around(edges, l, t, r, b)) by {
            reveal(around);
        }
        assert(has_edges(paths_hull(paths), l, t, r, b));
    } else {
        let rest = paths.drop_last();
        let rest_edges = edges.drop_last();
        assert forall|i: int| 0 <= i < rest.len() implies {
            let (left, top, right, bottom) = #[trigger] rest_edges[i];
            &&& has_edges(seen(rest[i]), left, top, right, bottom)
            &&& -0x40_0000 <= left <= 0x40_0000 && -0x40_0000 <= top <= 0x40_0000
            &&& -0x40_0000 <= right <= 0x40_0000 && -0x40_0000 <= bottom <= 0x40_0000
        } by {
            assert(rest_edges[i] == edges[i]);
        }
        law_paths_hull(rest, rest_edges);
        let (left, top, right, bottom) = choose|left: int, top: int, right: int, bottom: int|
            #[trigger] has_edges(paths_hull(rest), left, top, right, bottom) && around(
                rest_edges,
                left,
                top,
                right,
                bottom,
            );
        lemma_around_limits(rest_edges, left, top, right, bottom);
        law_whole_rectangles(
            paths_hull(rest),
            seen(paths.last()),
            (left, top, right, bottom),
            (l, t, r, b),
        );
        let (left2, top2) = (least(left, l), least(top, t));
        let (right2, bottom2) = (greatest(right, r), greatest(bottom, b));
        assert(has_edges(paths_hull(paths), left2, top2, right2, bottom2));
        assert(rest_edges.push((l, t, r, b)) =~= edges);
        lemma_around_push(rest_edges, (left, top, right, bottom), (l, t, r, b));
    }
}

/// A rectangle around one more.
proof fn lemma_around_push(
    edges: Seq<(int, int, int, int)>,
    hull: (int, int, int, int),
    more: (int, int, int, int),
)
    requires
        around(edges, hull.0, hull.1, hull.2, hull.3),
    ensures
        around(
            edges.push(more),
            least(hull.0, more.0),
            least(hull.1, more.1),
            greatest(hull.2, more.2),
            greatest(hull.3, more.3),
        ),
{
    reveal(around);
    let all = edges.push(more);
    let n = edges.len() as int;
    assert(all[n] == more);
    assert forall|i: int| 0 <= i < all.len() implies {
        let (l, t, r, b) = #[trigger] all[i];
        &&& least(hull.0, more.0) <= l && least(hull.1, more.1) <= t
        &&& r <= greatest(hull.2, more.2) && b <= greatest(hull.3, more.3)
    } by {
        if i < n {
            assert(all[i] == edges[i]);
        }
    }
    let i0 = choose|i: int| 0 <= i < edges.len() && (#[trigger] edges[i]).0 == hull.0;
    let i1 = choose|i: int| 0 <= i < edges.len() && (#[trigger] edges[i]).1 == hull.1;
    let i2 = choose|i: int| 0 <= i < edges.len() && (#[trigger] edges[i]).2 == hull.2;
    let i3 = choose|i: int| 0 <= i < edges.len() && (#[trigger] edges[i]).3 == hull.3;
    assert(all[i0].0 == hull.0 && all[i1].1 == hull.1);
    assert(all[i2].2 == hull.2 && all[i3].3 == hull.3);
}

/// Whether a rectangle holds others, and each of its edges is one of theirs.
#[verifier::opaque]
pub open spec fn around(
    edges: Seq<(int, int, int, int)>,
    left: int,
    top: int,
    right: int,
    bottom: int,
) -> bool {
    &&& forall|i: int|
        0 <= i < edges.len() ==> {
            let (l, t, r, b) = #[trigger] edges[i];
            left <= l && top <= t && r <= right && b <= bottom
        }
    &&& exists|i: int| 0 <= i < edges.len() && (#[trigger] edges[i]).0 == left
    &&& exists|i: int| 0 <= i < edges.len() && (#[trigger] edges[i]).1 == top
    &&& exists|i: int| 0 <= i < edges.len() && (#[trigger] edges[i]).2 == right
    &&& exists|i: int| 0 <= i < edges.len() && (#[trigger] edges[i]).3 == bottom
}

proof fn lemma_around_limits(
    edges: Seq<(int, int, int, int)>,
    left: int,
    top: int,
    right: int,
    bottom: int,
)
    requires
        around(edges, left, top, right, bottom),
        forall|i: int|
            0 <= i < edges.len() ==> {
                let (l, t, r, b) = #[trigger] edges[i];
                &&& -0x40_0000 <= l <= 0x40_0000 && -0x40_0000 <= t <= 0x40_0000
                &&& -0x40_0000 <= r <= 0x40_0000 && -0x40_0000 <= b <= 0x40_0000
            },
    ensures
        -0x40_0000 <= left <= 0x40_0000 && -0x40_0000 <= top <= 0x40_0000,
        -0x40_0000 <= right <= 0x40_0000 && -0x40_0000 <= bottom <= 0x40_0000,
{
    reveal(around);
}

/// Whether there is an aligned place for data behind what is in use.
pub open spec fn has_room(params: FrameParams, offset: int, words: Seq<u32>) -> bool {
    let size = if words.len() < 4 {
        16
    } else {
        4 * words.len() as int
    };
    exists|place: int|
        offset <= place && #[trigger] (place % params.alignment as int) == 0 && place + size
            <= params.capacity
}

proof fn lemma_room(params: FrameParams, offset: int, words: Seq<u32>)
    requires
        params.alignment > 0,
        offset >= 0,
    ensures
        crate::commands::instances_fit(params, offset, words) == has_room(params, offset, words),
{
    let p = Progress { steps: seq![], offset, scratch: None, next_blur: 0 };
    law_room_is_used(params, p, words, 1, PipelineKind::Quads, None);
    reveal(instances_drawn);
}

/// Paths that cannot be drawn lack room, either for their triangles or, behind
/// those, for the rectangles that are put on the frame.
pub proof fn law_paths_fail_for_room(params: FrameParams, p: Progress, paths: Seq<Path>)
    requires
        params.alignment > 0,
        p.offset >= 0,
        0 < paths.len() <= u32::MAX,
    ensures
        ({
            let (next, ok) = paths_drawn(params, p, paths);
            let triangles = paths.map_values(|p: Path| vertices_words(p, p.vertices@)).flatten();
            let rectangles = if paths[0].order == paths[paths.len() - 1].order {
                paths.map_values(|p: Path| rectangle_words(seen(p))).flatten()
            } else {
                rectangle_words(paths_hull(paths))
            };
            let behind = paths_rasterized(params, p, paths).0.offset;
            let drawn = triangles.len() == 0 || has_room(params, p.offset, triangles);
            &&& behind >= p.offset
            &&& triangles.len() == 0 ==> behind == p.offset
            &&& drawn ==> behind < p.offset + params.alignment + 4 * triangles.len() + 16
            &&& ok <==> drawn && (params.path_intermediate ==> has_room(
                params,
                behind,
                rectangles,
            ))
        }),
{
    law_paths_follow_each_other(paths);
    lemma_bounds_follow(paths);
    lemma_room(params, p.offset, paths_words(paths));
    lemma_align_up(p.offset, params.alignment as int);
    reveal(paths_rasterized);
    let (rasterized, drawn) = paths_rasterized(params, p, paths);
    let (words, count) = path_sprites(paths);
    assert(rectangle_words(paths_hull(paths)) =~= paths_hull(paths).words());
    lemma_room(params, rasterized.offset, words);
    reveal(instances_drawn);
}

} // verus!
