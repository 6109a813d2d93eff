//! Recording the primitives of a frame.
use crate::commands::{
    bind_instances, instances_fit, Command, FrameParams, Globals, Progress, Recorder, Step,
    TextureSource,
};
use crate::geometry::{Bounds, ScaledPixels};
use crate::layout::{vertex_words, Words};
use crate::pipelines::PipelineKind;
use crate::quads::{
    exterior_scissors, has_opaque_color, is_simple_solid_quad, is_unclipped_opaque_quad,
    simple_quad_kind, solid_quad_interior, strip_above, strip_below, strip_left, strip_right,
    SimpleQuadKind,
};
use crate::scene::{AtlasTextureId, Path, PathVertex, PolychromeSprite, Primitive, Quad};
use vstd::prelude::*;

verus! {

/// The words of quads, one after the other.
pub open spec fn quads_words(quads: Seq<Quad>) -> Seq<u32>
    decreases quads.len(),
{
    if quads.len() == 0 {
        seq![]
    } else {
        quads_words(quads.drop_last()) + quads.last().words()
    }
}

/// The words of primitives, one after the other.
pub open spec fn primitives_words(primitives: Seq<Primitive>) -> Seq<u32>
    decreases primitives.len(),
{
    if primitives.len() == 0 {
        seq![]
    } else {
        primitives_words(primitives.drop_last()) + primitives.last().words@
    }
}

/// The words of sprites, one after the other.
pub open spec fn sprites_words(sprites: Seq<PolychromeSprite>) -> Seq<u32>
    decreases sprites.len(),
{
    if sprites.len() == 0 {
        seq![]
    } else {
        sprites_words(sprites.drop_last()) + sprites.last().words()
    }
}

/// The words of the vertices of one path, one after the other.
pub open spec fn vertices_words(path: Path, vertices: Seq<PathVertex>) -> Seq<u32>
    decreases vertices.len(),
{
    if vertices.len() == 0 {
        seq![]
    } else {
        vertices_words(path, vertices.drop_last()) + vertex_words(
            vertices.last(),
            path.color,
            path.visible_bounds(),
        )
    }
}

/// The words of the vertices of paths, one after the other.
pub open spec fn paths_words(paths: Seq<Path>) -> Seq<u32>
    decreases paths.len(),
{
    if paths.len() == 0 {
        seq![]
    } else {
        paths_words(paths.drop_last()) + vertices_words(paths.last(), paths.last().vertices@)
    }
}

/// The number of vertices of paths.
pub open spec fn vertex_count(paths: Seq<Path>) -> int
    decreases paths.len(),
{
    if paths.len() == 0 {
        0
    } else {
        vertex_count(paths.drop_last()) + paths.last().vertices@.len()
    }
}

fn collect_quads(quads: &Vec<Quad>, start: usize, end: usize) -> (r: Vec<u32>)
    requires
        start <= end <= quads.len(),
    ensures
        r@ == quads_words(quads@.subrange(start as int, end as int)),
{
    let mut w = Words::new();
    let mut i: usize = start;
    while i < end
        invariant
            start <= i <= end <= quads.len(),
            w@ == quads_words(quads@.subrange(start as int, i as int)),
        decreases end - i,
    {
        w.push_quad(&quads[i]);
        proof {
            let next = quads@.subrange(start as int, i + 1);
            assert(next.drop_last() =~= quads@.subrange(start as int, i as int));
            assert(next.last() == quads@[i as int]);
        }
        i = i + 1;
    }
    w.words
}

fn collect_primitives(primitives: &Vec<Primitive>, start: usize, end: usize) -> (r: Vec<u32>)
    requires
        start <= end <= primitives.len(),
    ensures
        r@ == primitives_words(primitives@.subrange(start as int, end as int)),
{
    let mut w = Words::new();
    let mut i: usize = start;
    while i < end
        invariant
            start <= i <= end <= primitives.len(),
            w@ == primitives_words(primitives@.subrange(start as int, i as int)),
        decreases end - i,
    {
        w.push_all(&primitives[i].words);
        proof {
            let next = primitives@.subrange(start as int, i + 1);
            assert(next.drop_last() =~= primitives@.subrange(start as int, i as int));
            assert(next.last() == primitives@[i as int]);
        }
        i = i + 1;
    }
    w.words
}

fn collect_sprites(sprites: &Vec<PolychromeSprite>, start: usize, end: usize) -> (r: Vec<u32>)
    requires
        start <= end <= sprites.len(),
    ensures
        r@ == sprites_words(sprites@.subrange(start as int, end as int)),
{
    let mut w = Words::new();
    let mut i: usize = start;
    while i < end
        invariant
            start <= i <= end <= sprites.len(),
            w@ == sprites_words(sprites@.subrange(start as int, i as int)),
        decreases end - i,
    {
        w.push_polychrome_sprite(&sprites[i]);
        proof {
            let next = sprites@.subrange(start as int, i + 1);
            assert(next.drop_last() =~= sprites@.subrange(start as int, i as int));
            assert(next.last() == sprites@[i as int]);
        }
        i = i + 1;
    }
    w.words
}

fn push_vertices(w: &mut Words, path: &Path)
    ensures
        final(w)@ == old(w)@ + vertices_words(*path, path.vertices@),
{
    let bounds = path.clipped_bounds();
    let ghost before = w@;
    let mut i: usize = 0;
    assert(path.vertices@.subrange(0, 0) =~= seq![]);
    while i < path.vertices.len()
        invariant
            i <= path.vertices.len(),
            bounds == path.visible_bounds(),
            w@ == before + vertices_words(*path, path.vertices@.subrange(0, i as int)),
        decreases path.vertices.len() - i,
    {
        w.push_vertex(&path.vertices[i], &path.color, &bounds);
        proof {
            let next = path.vertices@.subrange(0, i + 1);
            assert(next.drop_last() =~= path.vertices@.subrange(0, i as int));
            assert(next.last() == path.vertices@[i as int]);
        }
        i = i + 1;
    }
    assert(path.vertices@.subrange(0, path.vertices.len() as int) =~= path.vertices@);
}

fn collect_vertices(paths: &Vec<Path>, start: usize, end: usize) -> (r: Vec<u32>)
    requires
        start <= end <= paths.len(),
    ensures
        r@ == paths_words(paths@.subrange(start as int, end as int)),
{
    let mut w = Words::new();
    let mut i: usize = start;
    while i < end
        invariant
            start <= i <= end <= paths.len(),
            w@ == paths_words(paths@.subrange(start as int, i as int)),
        decreases end - i,
    {
        push_vertices(&mut w, &paths[i]);
        proof {
            let next = paths@.subrange(start as int, i + 1);
            assert(next.drop_last() =~= paths@.subrange(start as int, i as int));
            assert(next.last() == paths@[i as int]);
        }
        i = i + 1;
    }
    w.words
}


/// After drawing instances from data, and whether there was room for it. No
/// instances need no room.
#[verifier::opaque]
pub open spec fn instances_drawn(
    params: FrameParams,
    p: Progress,
    words: Seq<u32>,
    count: u32,
    kind: PipelineKind,
    texture: Option<TextureSource>,
) -> (Progress, bool) {
    if count == 0 {
        (p, true)
    } else if !instances_fit(params, p.offset, words) {
        (p, false)
    } else {
        (
            p.with_instances(params, words).then_do(Step::SetPipeline { kind }).then_do(
                bind_instances(params, p.offset, words, Globals::Main, texture),
            ).then_do(Step::Draw { vertices: 4, instances: count }),
            true,
        )
    }
}

/// Drawing one rectangle through a scissor, unless that is empty.
pub open spec fn strip_drawn(p: Progress, strip: Seq<u32>) -> Progress {
    if strip[2] > 0 && strip[3] > 0 {
        p.then_do(scissor(strip)).then_do(Step::Draw { vertices: 4, instances: 1 })
    } else {
        p
    }
}

pub open spec fn scissor(rectangle: Seq<u32>) -> Step {
    Step::SetScissor {
        x: rectangle[0],
        y: rectangle[1],
        width: rectangle[2],
        height: rectangle[3],
    }
}

/// After drawing a quad in five parts: four strips around its interior with the
/// general shader, and the interior as a plain color.
#[verifier::opaque]
pub open spec fn interior_drawn(
    params: FrameParams,
    p: Progress,
    quad: Quad,
    interior: Seq<u32>,
) -> (Progress, bool) {
    if !instances_fit(params, p.offset, quad.words()) {
        (p, false)
    } else {
        let v = params.viewport();
        let bound = p.with_bound_instances(params, quad.words(), Globals::Main, None).then_do(
            Step::SetPipeline { kind: PipelineKind::Quads },
        );
        let left = strip_drawn(bound, strip_left(interior, v));
        let right = strip_drawn(left, strip_right(interior, v));
        let above = strip_drawn(right, strip_above(interior, v));
        let below = strip_drawn(above, strip_below(interior, v));
        let kind = if quad.fully_opaque() {
            PipelineKind::OpaqueSolidQuads
        } else {
            PipelineKind::SolidQuads
        };
        (
            below.then_do(Step::SetPipeline { kind }).then_do(scissor(interior)).then_do(
                Step::Draw { vertices: 4, instances: 1 },
            ).then_do(scissor(seq![0, 0, params.width, params.height])),
            true,
        )
    }
}

/// The pipeline that draws quads of this kind.
pub open spec fn quad_pipeline(kind: SimpleQuadKind) -> PipelineKind {
    match kind {
        SimpleQuadKind::Opaque => PipelineKind::OpaqueSolidQuads,
        SimpleQuadKind::Solid => PipelineKind::SolidQuads,
        SimpleQuadKind::General => PipelineKind::Quads,
    }
}

/// Where the run of quads that goes on at `end` ends: all have the kind of the
/// first one, and none has an interior of its own.
pub open spec fn run_end(params: FrameParams, quads: Seq<Quad>, start: int, end: int) -> int
    decreases quads.len() - end,
{
    if end < quads.len() && quads[end].kind() == quads[start].kind() && quads[end].interior(
        params.viewport(),
    ) is None {
        run_end(params, quads, start, end + 1)
    } else {
        end
    }
}

/// After drawing the quads from `start` on, in their order: those with an
/// interior one by one, the others in runs of the same kind.
pub open spec fn runs_drawn(params: FrameParams, p: Progress, quads: Seq<Quad>, start: int) -> (
    Progress,
    bool,
)
    decreases quads.len() - start,
{
    if start >= quads.len() {
        (p, true)
    } else {
        match quads[start].interior(params.viewport()) {
            Some(interior) => {
                let (next, ok) = interior_drawn(params, p, quads[start], interior);
                if ok {
                    runs_drawn(params, next, quads, start + 1)
                } else {
                    (next, false)
                }
            },
            None => {
                let end = run_end(params, quads, start, start + 1);
                let (next, ok) = instances_drawn(
                    params,
                    p,
                    quads_words(quads.subrange(start, end)),
                    (end - start) as u32,
                    quad_pipeline(quads[start].kind()),
                    None,
                );
                proof {
                    lemma_run_end(params, quads, start, start + 1);
                }
                if ok {
                    runs_drawn(params, next, quads, end)
                } else {
                    (next, false)
                }
            },
        }
    }
}

/// The pipeline that can draw all of these quads.
pub open spec fn batch_pipeline(quads: Seq<Quad>) -> PipelineKind {
    if forall|i: int| 0 <= i < quads.len() ==> (#[trigger] quads[i]).unclipped_opaque() {
        PipelineKind::OpaqueSolidQuads
    } else if forall|i: int| 0 <= i < quads.len() ==> (#[trigger] quads[i]).simple_solid() {
        PipelineKind::SolidQuads
    } else {
        PipelineKind::Quads
    }
}

/// After drawing a batch of quads. Hardware draws it at once; on a software
/// adapter large plain interiors are worth additional draw calls.
pub open spec fn quads_drawn(params: FrameParams, p: Progress, quads: Seq<Quad>) -> (
    Progress,
    bool,
) {
    if params.software {
        runs_drawn(params, p, quads, 0)
    } else {
        instances_drawn(
            params,
            p,
            quads_words(quads),
            quads.len() as u32,
            batch_pipeline(quads),
            None,
        )
    }
}

/// A run ends within the quads.
pub proof fn lemma_run_end(params: FrameParams, quads: Seq<Quad>, start: int, end: int)
    requires
        end <= quads.len(),
    ensures
        end <= run_end(params, quads, start, end) <= quads.len(),
    decreases quads.len() - end,
{
    if end < quads.len() {
        lemma_run_end(params, quads, start, end + 1);
    }
}

impl Recorder {
    /// Draws instances from data; false if there is no room for the data.
    pub fn draw_instances(
        &mut self,
        params: &FrameParams,
        words: Vec<u32>,
        instance_count: u32,
        kind: PipelineKind,
    ) -> (ok: bool)
        requires
            params.valid(),
        ensures
            (final(self)@, ok) == instances_drawn(
                *params,
                old(self)@,
                words@,
                instance_count,
                kind,
                None,
            ),
    {
        self.record_instances(params, words, instance_count, kind, None)
    }

    /// Draws instances from data and a texture; false if there is no room for
    /// the data.
    pub fn draw_instances_with_texture(
        &mut self,
        params: &FrameParams,
        words: Vec<u32>,
        instance_count: u32,
        texture: TextureSource,
        kind: PipelineKind,
    ) -> (ok: bool)
        requires
            params.valid(),
        ensures
            (final(self)@, ok) == instances_drawn(
                *params,
                old(self)@,
                words@,
                instance_count,
                kind,
                Some(texture),
            ),
    {
        self.record_instances(params, words, instance_count, kind, Some(texture))
    }

    fn record_instances(
        &mut self,
        params: &FrameParams,
        words: Vec<u32>,
        instance_count: u32,
        kind: PipelineKind,
        texture: Option<TextureSource>,
    ) -> (ok: bool)
        requires
            params.valid(),
        ensures
            (final(self)@, ok) == instances_drawn(
                *params,
                old(self)@,
                words@,
                instance_count,
                kind,
                texture,
            ),
    {
        proof {
            reveal(instances_drawn);
        }
        if instance_count == 0 {
            return true;
        }
        match self.write_to_instance_buffer(params, words) {
            None => false,
            Some((offset, size)) => {
                self.emit(Command::SetPipeline { kind });
                self.emit(Command::BindInstances { globals: Globals::Main, offset, size, texture });
                self.emit(Command::Draw { vertices: 4, instances: instance_count });
                true
            },
        }
    }

    fn set_scissor(&mut self, rectangle: [u32; 4])
        ensures
            final(self)@ == old(self)@.then_do(scissor(rectangle@)),
    {
        self.emit(
            Command::SetScissor {
                x: rectangle[0],
                y: rectangle[1],
                width: rectangle[2],
                height: rectangle[3],
            },
        );
    }

    pub(crate) fn draw_strip(&mut self, strip: [u32; 4])
        ensures
            final(self)@ == strip_drawn(old(self)@, strip@),
    {
        if strip[2] > 0 && strip[3] > 0 {
            self.set_scissor(strip);
            self.emit(Command::Draw { vertices: 4, instances: 1 });
        }
    }

    /// Draws a quad in five parts: four strips around its interior with the
    /// general shader, and the interior as a plain color; false if there is no
    /// room for the quad.
    pub fn draw_quad_interior(
        &mut self,
        params: &FrameParams,
        quad: &Quad,
        interior: [u32; 4],
    ) -> (ok: bool)
        requires
            params.valid(),
            interior[0] + interior[2] <= params.width,
            interior[1] + interior[3] <= params.height,
        ensures
            (final(self)@, ok) == interior_drawn(*params, old(self)@, *quad, interior@),
    {
        proof {
            reveal(interior_drawn);
        }
        let mut w = Words::new();
        w.push_quad(quad);
        assert(w@ =~= quad.words());
        match self.write_to_instance_buffer(params, w.words) {
            None => false,
            Some((offset, size)) => {
                self.emit(
                    Command::BindInstances {
                        globals: Globals::Main,
                        offset,
                        size,
                        texture: None,
                    },
                );
                self.emit(Command::SetPipeline { kind: PipelineKind::Quads });
                let viewport: [u32; 2] = [params.width, params.height];
                assert(viewport@ =~= params.viewport());
                let strips: [[u32; 4]; 4] = exterior_scissors(interior, viewport);
                self.draw_strip(strips[0]);
                self.draw_strip(strips[1]);
                self.draw_strip(strips[2]);
                self.draw_strip(strips[3]);
                self.emit(
                    Command::SetPipeline {
                        kind: if has_opaque_color(quad) {
                            PipelineKind::OpaqueSolidQuads
                        } else {
                            PipelineKind::SolidQuads
                        },
                    },
                );
                self.set_scissor(interior);
                self.emit(Command::Draw { vertices: 4, instances: 1 });
                let full: [u32; 4] = [0, 0, params.width, params.height];
                assert(full@ =~= seq![0, 0, params.width, params.height]);
                self.set_scissor(full);
                true
            },
        }
    }
}


fn find_run_end(
    params: &FrameParams,
    quads: &Vec<Quad>,
    first: usize,
    last: usize,
    start: usize,
) -> (r: usize)
    requires
        first <= start < last <= quads.len(),
    ensures
        start < r <= last,
        r - first == run_end(
            *params,
            quads@.subrange(first as int, last as int),
            start - first,
            start - first + 1,
        ),
{
    let ghost part = quads@.subrange(first as int, last as int);
    let kind = simple_quad_kind(&quads[start]);
    let viewport: [u32; 2] = [params.width, params.height];
    assert(viewport@ =~= params.viewport());
    let mut end: usize = start + 1;
    while end < last
        invariant
            first <= start < end <= last <= quads.len(),
            part == quads@.subrange(first as int, last as int),
            kind == part[start - first].kind(),
            viewport@ == params.viewport(),
            run_end(*params, part, start - first, end - first) == run_end(
                *params,
                part,
                start - first,
                start - first + 1,
            ),
        ensures
            run_end(*params, part, start - first, end - first) == end - first,
            start < end <= last,
        decreases last - end,
    {
        assert(part[end - first] == quads@[end as int]);
        let same = simple_quad_kind(&quads[end]) == kind && solid_quad_interior(
            &quads[end],
            viewport,
        ).is_none();
        if !same {
            break;
        }
        end = end + 1;
    }
    end
}

fn all_opaque(quads: &Vec<Quad>, first: usize, last: usize) -> (r: bool)
    requires
        first <= last <= quads.len(),
    ensures
        r == (forall|i: int|
            0 <= i < last - first ==> (#[trigger] quads@.subrange(
                first as int,
                last as int,
            )[i]).unclipped_opaque()),
{
    let ghost part = quads@.subrange(first as int, last as int);
    let mut i: usize = first;
    while i < last
        invariant
            first <= i <= last <= quads.len(),
            part == quads@.subrange(first as int, last as int),
            forall|j: int| 0 <= j < i - first ==> (#[trigger] part[j]).unclipped_opaque(),
        decreases last - i,
    {
        assert(part[i - first] == quads@[i as int]);
        if !is_unclipped_opaque_quad(&quads[i]) {
            return false;
        }
        i = i + 1;
    }
    true
}

fn all_simple(quads: &Vec<Quad>, first: usize, last: usize) -> (r: bool)
    requires
        first <= last <= quads.len(),
    ensures
        r == (forall|i: int|
            0 <= i < last - first ==> (#[trigger] quads@.subrange(
                first as int,
                last as int,
            )[i]).simple_solid()),
{
    let ghost part = quads@.subrange(first as int, last as int);
    let mut i: usize = first;
    while i < last
        invariant
            first <= i <= last <= quads.len(),
            part == quads@.subrange(first as int, last as int),
            forall|j: int| 0 <= j < i - first ==> (#[trigger] part[j]).simple_solid(),
        decreases last - i,
    {
        assert(part[i - first] == quads@[i as int]);
        if !is_simple_solid_quad(&quads[i]) {
            return false;
        }
        i = i + 1;
    }
    true
}

fn choose_batch_pipeline(quads: &Vec<Quad>, first: usize, last: usize) -> (r: PipelineKind)
    requires
        first <= last <= quads.len(),
    ensures
        r == batch_pipeline(quads@.subrange(first as int, last as int)),
{
    if all_opaque(quads, first, last) {
        PipelineKind::OpaqueSolidQuads
    } else if all_simple(quads, first, last) {
        PipelineKind::SolidQuads
    } else {
        PipelineKind::Quads
    }
}

impl Recorder {
    /// Draws one quad with an interior, or else the run of quads that starts
    /// here; gives where to go on, or nothing if there is no room.
    fn draw_run(
        &mut self,
        params: &FrameParams,
        quads: &Vec<Quad>,
        first: usize,
        last: usize,
        start: usize,
    ) -> (r: Option<usize>)
        requires
            params.valid(),
            first <= start < last <= quads.len(),
        ensures
            ({
                let part = quads@.subrange(first as int, last as int);
                let all = runs_drawn(*params, old(self)@, part, start - first);
                match r {
                    Some(next) => {
                        &&& start < next <= last
                        &&& all == runs_drawn(*params, final(self)@, part, next - first)
                    },
                    None => all == (final(self)@, false),
                }
            }),
    {
        let ghost part = quads@.subrange(first as int, last as int);
        assert(part[start - first] == quads@[start as int]);
        let viewport: [u32; 2] = [params.width, params.height];
        assert(viewport@ =~= params.viewport());
        if let Some(interior) = solid_quad_interior(&quads[start], viewport) {
            proof {
                crate::quads::law_interior_in_viewport(quads@[start as int], viewport@);
            }
            if self.draw_quad_interior(params, &quads[start], interior) {
                Some(start + 1)
            } else {
                None
            }
        } else {
            let end: usize = find_run_end(params, quads, first, last, start);
            let kind = match simple_quad_kind(&quads[start]) {
                SimpleQuadKind::Opaque => PipelineKind::OpaqueSolidQuads,
                SimpleQuadKind::Solid => PipelineKind::SolidQuads,
                SimpleQuadKind::General => PipelineKind::Quads,
            };
            let words = collect_quads(quads, start, end);
            assert(part.subrange(start - first, end - first) =~= quads@.subrange(
                start as int,
                end as int,
            ));
            if self.draw_instances(params, words, (end - start) as u32, kind) {
                Some(end)
            } else {
                None
            }
        }
    }

    /// Draws a batch of quads; false if there is no room for it.
    ///
    /// Additional draw calls trade command overhead for less fragment work.
    /// Hardware batches are kept intact; software adapters benefit from
    /// splitting large interiors because their fragment shaders consume the
    /// processor directly. Contiguous runs keep their paint order.
    pub fn draw_quads(
        &mut self,
        params: &FrameParams,
        quads: &Vec<Quad>,
        first: usize,
        last: usize,
    ) -> (ok: bool)
        requires
            params.valid(),
            first <= last <= quads.len(),
        ensures
            (final(self)@, ok) == quads_drawn(
                *params,
                old(self)@,
                quads@.subrange(first as int, last as int),
            ),
    {
        let ghost part = quads@.subrange(first as int, last as int);
        if !params.software {
            let kind = choose_batch_pipeline(quads, first, last);
            let words = collect_quads(quads, first, last);
            return self.draw_instances(params, words, (last - first) as u32, kind);
        }
        let mut start: usize = first;
        while start < last
            invariant
                params.valid(),
                first <= start <= last <= quads.len(),
                part == quads@.subrange(first as int, last as int),
                runs_drawn(*params, self@, part, start - first) == runs_drawn(
                    *params,
                    old(self)@,
                    part,
                    0,
                ),
                params.software,
            decreases last - start,
        {
            match self.draw_run(params, quads, first, last, start) {
                Some(next) => {
                    start = next;
                },
                None => {
                    return false;
                },
            }
        }
        true
    }
}


/// After drawing a batch of primitives of one pipeline.
pub open spec fn primitives_drawn(
    params: FrameParams,
    p: Progress,
    primitives: Seq<Primitive>,
    kind: PipelineKind,
    texture: Option<TextureSource>,
) -> (Progress, bool) {
    instances_drawn(
        params,
        p,
        primitives_words(primitives),
        primitives.len() as u32,
        kind,
        texture,
    )
}

/// The pipeline of subpixel text: that of ordinary text where there is no other.
pub open spec fn subpixel_kind(params: FrameParams) -> PipelineKind {
    if params.subpixel_pipeline {
        PipelineKind::SubpixelSprites
    } else {
        PipelineKind::MonoSprites
    }
}

/// After drawing a batch of polychrome sprites.
pub open spec fn polychrome_drawn(
    params: FrameParams,
    p: Progress,
    sprites: Seq<PolychromeSprite>,
    texture_id: AtlasTextureId,
) -> (Progress, bool) {
    instances_drawn(
        params,
        p,
        sprites_words(sprites),
        sprites.len() as u32,
        PipelineKind::PolySprites,
        Some(TextureSource::Atlas(texture_id)),
    )
}

impl Recorder {
    /// Draws a batch of shadows; false if there is no room for it.
    pub fn draw_shadows(
        &mut self,
        params: &FrameParams,
        shadows: &Vec<Primitive>,
        first: usize,
        last: usize,
    ) -> (ok: bool)
        requires
            params.valid(),
            first <= last <= shadows.len(),
        ensures
            (final(self)@, ok) == primitives_drawn(
                *params,
                old(self)@,
                shadows@.subrange(first as int, last as int),
                PipelineKind::Shadows,
                None,
            ),
    {
        let words = collect_primitives(shadows, first, last);
        self.draw_instances(params, words, (last - first) as u32, PipelineKind::Shadows)
    }

    /// Draws a batch of underlines; false if there is no room for it.
    pub fn draw_underlines(
        &mut self,
        params: &FrameParams,
        underlines: &Vec<Primitive>,
        first: usize,
        last: usize,
    ) -> (ok: bool)
        requires
            params.valid(),
            first <= last <= underlines.len(),
        ensures
            (final(self)@, ok) == primitives_drawn(
                *params,
                old(self)@,
                underlines@.subrange(first as int, last as int),
                PipelineKind::Underlines,
                None,
            ),
    {
        let words = collect_primitives(underlines, first, last);
        self.draw_instances(params, words, (last - first) as u32, PipelineKind::Underlines)
    }

    /// Draws a batch of sprites of one color; false if there is no room for it.
    pub fn draw_monochrome_sprites(
        &mut self,
        params: &FrameParams,
        sprites: &Vec<Primitive>,
        first: usize,
        last: usize,
        texture_id: AtlasTextureId,
    ) -> (ok: bool)
        requires
            params.valid(),
            first <= last <= sprites.len(),
        ensures
            (final(self)@, ok) == primitives_drawn(
                *params,
                old(self)@,
                sprites@.subrange(first as int, last as int),
                PipelineKind::MonoSprites,
                Some(TextureSource::Atlas(texture_id)),
            ),
    {
        let words = collect_primitives(sprites, first, last);
        self.draw_instances_with_texture(
            params,
            words,
            (last - first) as u32,
            TextureSource::Atlas(texture_id),
            PipelineKind::MonoSprites,
        )
    }

    /// Draws a batch of sprites of subpixel text; false if there is no room for
    /// it. Without dual source blending they are drawn as ordinary text.
    pub fn draw_subpixel_sprites(
        &mut self,
        params: &FrameParams,
        sprites: &Vec<Primitive>,
        first: usize,
        last: usize,
        texture_id: AtlasTextureId,
    ) -> (ok: bool)
        requires
            params.valid(),
            first <= last <= sprites.len(),
        ensures
            (final(self)@, ok) == primitives_drawn(
                *params,
                old(self)@,
                sprites@.subrange(first as int, last as int),
                subpixel_kind(*params),
                Some(TextureSource::Atlas(texture_id)),
            ),
    {
        let words = collect_primitives(sprites, first, last);
        let kind = if params.subpixel_pipeline {
            PipelineKind::SubpixelSprites
        } else {
            PipelineKind::MonoSprites
        };
        self.draw_instances_with_texture(
            params,
            words,
            (last - first) as u32,
            TextureSource::Atlas(texture_id),
            kind,
        )
    }

    /// Draws a batch of colored sprites; false if there is no room for it.
    pub fn draw_polychrome_sprites(
        &mut self,
        params: &FrameParams,
        sprites: &Vec<PolychromeSprite>,
        first: usize,
        last: usize,
        texture_id: AtlasTextureId,
    ) -> (ok: bool)
        requires
            params.valid(),
            first <= last <= sprites.len(),
        ensures
            (final(self)@, ok) == polychrome_drawn(
                *params,
                old(self)@,
                sprites@.subrange(first as int, last as int),
                texture_id,
            ),
    {
        let words = collect_sprites(sprites, first, last);
        self.draw_instances_with_texture(
            params,
            words,
            (last - first) as u32,
            TextureSource::Atlas(texture_id),
            PipelineKind::PolySprites,
        )
    }
}

/// After paths were drawn to their own texture, and whether there was room for
/// their vertices.
#[verifier::opaque]
pub open spec fn paths_rasterized(params: FrameParams, p: Progress, paths: Seq<Path>) -> (
    Progress,
    bool,
) {
    let words = paths_words(paths);
    if words.len() == 0 {
        (p, true)
    } else if !instances_fit(params, p.offset, words) {
        (p, false)
    } else if !params.path_intermediate {
        (p.with_instances(params, words), true)
    } else {
        (
            p.with_instances(params, words).then_do(
                Step::BeginPathPass { msaa: params.path_msaa },
            ).then_do(Step::SetPipeline { kind: PipelineKind::PathRasterization }).then_do(
                bind_instances(params, p.offset, words, Globals::Path, None),
            ).then_do(
                Step::Draw { vertices: vertex_count(paths) as u32, instances: 1 },
            ),
            true,
        )
    }
}

/// The smallest rectangle around what can be seen of paths.
pub open spec fn paths_hull(paths: Seq<Path>) -> Bounds<ScaledPixels>
    decreases paths.len(),
{
    if paths.len() <= 1 {
        paths[0].visible_bounds()
    } else {
        paths_hull(paths.drop_last()).hull(paths.last().visible_bounds())
    }
}

/// What can be seen of each path.
pub open spec fn paths_bounds(paths: Seq<Path>) -> Seq<u32>
    decreases paths.len(),
{
    if paths.len() == 0 {
        seq![]
    } else {
        paths_bounds(paths.drop_last()) + paths.last().visible_bounds().words()
    }
}

/// The rectangles through which paths are put on the frame: one for each path if
/// all have the same place in the draw order, so that none is under another, or
/// else one around them all.
pub open spec fn path_sprites(paths: Seq<Path>) -> (Seq<u32>, int) {
    if paths.last().order == paths[0].order {
        (paths_bounds(paths), paths.len() as int)
    } else {
        (paths_hull(paths).words(), 1)
    }
}

/// After paths were put on the frame, and whether there was room for that.
pub open spec fn paths_composited(params: FrameParams, p: Progress, paths: Seq<Path>) -> (
    Progress,
    bool,
) {
    if !params.path_intermediate {
        (p, true)
    } else {
        let (words, count) = path_sprites(paths);
        instances_drawn(
            params,
            p,
            words,
            count as u32,
            PipelineKind::Paths,
            Some(TextureSource::PathIntermediate),
        )
    }
}

/// After drawing a batch of paths: to their own texture, in a pass of its own,
/// and from there to the frame.
pub open spec fn paths_drawn(params: FrameParams, p: Progress, paths: Seq<Path>) -> (
    Progress,
    bool,
) {
    if paths.len() == 0 {
        (p, true)
    } else {
        let (rasterized, ok) = paths_rasterized(params, p, paths);
        let resumed = rasterized.then_do(Step::ContinueMainPass);
        if ok {
            paths_composited(params, resumed, paths)
        } else {
            (resumed, false)
        }
    }
}

/// The words of the vertices of paths tell how many there are.
pub proof fn lemma_vertex_count(paths: Seq<Path>)
    ensures
        paths_words(paths).len() == 26 * vertex_count(paths),
        vertex_count(paths) >= 0,
    decreases paths.len(),
{
    if paths.len() > 0 {
        lemma_vertex_count(paths.drop_last());
        lemma_vertices_words(paths.last(), paths.last().vertices@);
    }
}

proof fn lemma_vertices_words(path: Path, vertices: Seq<PathVertex>)
    ensures
        vertices_words(path, vertices).len() == 26 * vertices.len(),
    decreases vertices.len(),
{
    if vertices.len() > 0 {
        lemma_vertices_words(path, vertices.drop_last());
    }
}

fn collect_bounds(paths: &Vec<Path>, first: usize, last: usize) -> (r: Vec<u32>)
    requires
        first <= last <= paths.len(),
    ensures
        r@ == paths_bounds(paths@.subrange(first as int, last as int)),
{
    let mut w = Words::new();
    let mut i: usize = first;
    while i < last
        invariant
            first <= i <= last <= paths.len(),
            w@ == paths_bounds(paths@.subrange(first as int, i as int)),
        decreases last - i,
    {
        w.push_bounds(&paths[i].clipped_bounds());
        proof {
            let next = paths@.subrange(first as int, i + 1);
            assert(next.drop_last() =~= paths@.subrange(first as int, i as int));
            assert(next.last() == paths@[i as int]);
        }
        i = i + 1;
    }
    w.words
}

fn collect_hull(paths: &Vec<Path>, first: usize, last: usize) -> (r: Bounds<ScaledPixels>)
    requires
        first < last <= paths.len(),
    ensures
        r == paths_hull(paths@.subrange(first as int, last as int)),
{
    let mut bounds = paths[first].clipped_bounds();
    let mut i: usize = first + 1;
    assert(paths@.subrange(first as int, i as int)[0] == paths@[first as int]);
    while i < last
        invariant
            first < i <= last <= paths.len(),
            bounds == paths_hull(paths@.subrange(first as int, i as int)),
        decreases last - i,
    {
        bounds = bounds.union(&paths[i].clipped_bounds());
        proof {
            let next = paths@.subrange(first as int, i + 1);
            assert(next.drop_last() =~= paths@.subrange(first as int, i as int));
            assert(next.last() == paths@[i as int]);
        }
        i = i + 1;
    }
    bounds
}

impl Recorder {
    /// Draws paths to their own texture, in a pass of its own; false if there is
    /// no room for their vertices.
    pub fn draw_paths_to_intermediate(
        &mut self,
        params: &FrameParams,
        paths: &Vec<Path>,
        first: usize,
        last: usize,
    ) -> (ok: bool)
        requires
            params.valid(),
            first <= last <= paths.len(),
        ensures
            (final(self)@, ok) == paths_rasterized(
                *params,
                old(self)@,
                paths@.subrange(first as int, last as int),
            ),
    {
        let ghost part = paths@.subrange(first as int, last as int);
        proof {
            reveal(paths_rasterized);
            lemma_vertex_count(part);
        }
        let words = collect_vertices(paths, first, last);
        if words.len() == 0 {
            return true;
        }
        let count: usize = words.len() / 26;
        match self.write_to_instance_buffer(params, words) {
            None => false,
            Some((offset, size)) => {
                if params.path_intermediate {
                    self.emit(Command::BeginPathPass { msaa: params.path_msaa });
                    self.emit(Command::SetPipeline { kind: PipelineKind::PathRasterization });
                    self.emit(
                        Command::BindInstances {
                            globals: Globals::Path,
                            offset,
                            size,
                            texture: None,
                        },
                    );
                    self.emit(Command::Draw { vertices: count as u32, instances: 1 });
                }
                true
            },
        }
    }

    /// Puts paths that were drawn to their own texture on the frame; false if
    /// there is no room for that.
    pub fn draw_paths_from_intermediate(
        &mut self,
        params: &FrameParams,
        paths: &Vec<Path>,
        first: usize,
        last: usize,
    ) -> (ok: bool)
        requires
            params.valid(),
            first < last <= paths.len(),
        ensures
            (final(self)@, ok) == paths_composited(
                *params,
                old(self)@,
                paths@.subrange(first as int, last as int),
            ),
    {
        let ghost part = paths@.subrange(first as int, last as int);
        assert(part.last() == paths@[last - 1] && part[0] == paths@[first as int]);
        if !params.path_intermediate {
            return true;
        }
        if paths[last - 1].order == paths[first].order {
            let words = collect_bounds(paths, first, last);
            self.draw_instances_with_texture(
                params,
                words,
                (last - first) as u32,
                TextureSource::PathIntermediate,
                PipelineKind::Paths,
            )
        } else {
            let bounds = collect_hull(paths, first, last);
            let mut w = Words::new();
            w.push_bounds(&bounds);
            assert(w@ =~= bounds.words());
            self.draw_instances_with_texture(
                params,
                w.words,
                1,
                TextureSource::PathIntermediate,
                PipelineKind::Paths,
            )
        }
    }

    /// Draws a batch of paths; false if there is no room for it.
    pub fn draw_paths(
        &mut self,
        params: &FrameParams,
        paths: &Vec<Path>,
        first: usize,
        last: usize,
    ) -> (ok: bool)
        requires
            params.valid(),
            first <= last <= paths.len(),
        ensures
            (final(self)@, ok) == paths_drawn(
                *params,
                old(self)@,
                paths@.subrange(first as int, last as int),
            ),
    {
        if first == last {
            return true;
        }
        let ok = self.draw_paths_to_intermediate(params, paths, first, last);
        self.emit(Command::ContinueMainPass);
        if ok {
            self.draw_paths_from_intermediate(params, paths, first, last)
        } else {
            false
        }
    }
}

} // verus!
