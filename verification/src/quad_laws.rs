//! Which quads the cheaper shaders may draw, in terms of what a quad looks like.
use crate::float::{lemma_pow2_add, lemma_pow2_below, one, Float32, Value};
use crate::quads::{
    all_finite, all_within, end_pixel, first_pixel, interior_end, interior_start, largest,
    law_interior_is_plain, COORDINATE_LIMIT,
};
use crate::rounding;
use crate::scene::Quad;
use vstd::arithmetic::power2::lemma_pow2_pos;
use vstd::prelude::*;

verus! {

/// Whether this is zero, of either sign.
pub open spec fn is_zero(x: Float32) -> bool {
    x@ is Finite && x@.units() == 0
}

/// Whether this is a number that is not above zero.
pub open spec fn not_positive(x: Float32) -> bool {
    match x@ {
        Value::Nan => false,
        Value::Infinite { negative } => negative,
        Value::Finite { .. } => x@.units() <= 0,
    }
}

/// Whether all of a quad looks the same: it has a single color, and neither a
/// border along any edge, nor a round corner, nor a fade.
pub open spec fn undecorated(quad: Quad) -> bool {
    &&& quad.background.tag is Solid
    &&& is_zero(quad.border_widths.top.0) && is_zero(quad.border_widths.right.0)
    &&& is_zero(quad.border_widths.bottom.0) && is_zero(quad.border_widths.left.0)
    &&& is_zero(quad.corner_radii.top_left.0) && is_zero(quad.corner_radii.top_right.0)
    &&& is_zero(quad.corner_radii.bottom_left.0) && is_zero(quad.corner_radii.bottom_right.0)
    &&& not_positive(quad.fade.band_top) && not_positive(quad.fade.band_bottom)
    &&& not_positive(quad.fade.band_left) && not_positive(quad.fade.band_right)
}

/// Whether a color hides what is below it.
pub open spec fn hides(quad: Quad) -> bool {
    &&& quad.background.tag is Solid
    &&& quad.background.solid.a@ is Finite
    &&& quad.background.solid.a@.units() == one()
}

/// Whether a quad has an area, all of it within its clip rectangle.
pub open spec fn unclipped(quad: Quad) -> bool {
    let x = quad.bounds.origin.x.0@;
    let y = quad.bounds.origin.y.0@;
    let width = quad.bounds.size.width.0@;
    let height = quad.bounds.size.height.0@;
    let clip = quad.content_mask.bounds;
    let right = clip.origin.x.0@.plus(clip.size.width.0@);
    let bottom = clip.origin.y.0@.plus(clip.size.height.0@);
    &&& x is Finite && y is Finite && width is Finite && height is Finite
    &&& clip.origin.x.0@ is Finite && clip.origin.y.0@ is Finite
    &&& clip.size.width.0@ is Finite && clip.size.height.0@ is Finite
    &&& width.units() > 0 && height.units() > 0
    &&& clip.origin.x.0@.units() <= x.units()
    &&& clip.origin.y.0@.units() <= y.units()
    &&& !right.less(x.plus(width)) && !bottom.less(y.plus(height))
}

/// A quad with a border along any edge, with any round corner, with a fade or
/// with more than one color is never taken for a plain one, and all others are.
pub proof fn law_plain_quads(quad: Quad)
    ensures
        quad.simple_solid() <==> undecorated(quad),
        quad.fully_opaque() <==> hides(quad),
{
    lemma_pow2_pos(149);
    assert(1 * one() == one());
    lemma_zeros(quad.border_widths.top.0);
    lemma_zeros(quad.border_widths.right.0);
    lemma_zeros(quad.border_widths.bottom.0);
    lemma_zeros(quad.border_widths.left.0);
    lemma_zeros(quad.corner_radii.top_left.0);
    lemma_zeros(quad.corner_radii.top_right.0);
    lemma_zeros(quad.corner_radii.bottom_left.0);
    lemma_zeros(quad.corner_radii.bottom_right.0);
    lemma_zeros(quad.fade.band_top);
    lemma_zeros(quad.fade.band_bottom);
    lemma_zeros(quad.fade.band_left);
    lemma_zeros(quad.fade.band_right);
}

proof fn lemma_zeros(x: Float32)
    ensures
        x@.equals(Value::zero()) == is_zero(x),
        x@.at_most(Value::zero()) == not_positive(x),
{
}

/// A shader for plain colors draws whole quads only if there is nothing else to
/// see of them, and draws all of those. Blending is left out just for those that
/// hide all that is below them.
pub proof fn law_plain_shaders_need_plain_quads(quad: Quad)
    ensures
        quad.simple_solid() <==> undecorated(quad),
        quad.fully_opaque() <==> hides(quad),
        quad.unclipped_opaque() <==> undecorated(quad) && hides(quad) && unclipped(quad),
        quad.kind() is General <==> !undecorated(quad),
        quad.kind() is Opaque <==> undecorated(quad) && hides(quad) && unclipped(quad),
{
    law_plain_quads(quad);
    let plain = quad.simple_solid();
    let solid = quad.fully_opaque();
    assert(quad.unclipped_opaque() <==> plain && solid && unclipped(quad)) by {
        lemma_unclipped(quad);
    }
    reveal(Quad::kind);
}

/// Blending is left out only for plain quads that hide what is below them.
pub proof fn law_blending_is_left_out_for_opaque_quads(quad: Quad)
    ensures
        quad.kind() is Opaque ==> undecorated(quad) && hides(quad),
        quad.unclipped_opaque() ==> undecorated(quad) && hides(quad),
{
    let plain = undecorated(quad);
    let solid = hides(quad);
    assert(quad.simple_solid() == plain && quad.fully_opaque() == solid) by {
        law_plain_quads(quad);
    }
    reveal(Quad::kind);
}

#[verifier::rlimit(40)]
proof fn lemma_unclipped(quad: Quad)
    ensures
        quad.unclipped_opaque() <==> quad.simple_solid() && quad.fully_opaque() && unclipped(quad),
{
    let r = quad.rectangles();
    lemma_eight(r);
    assert(Value::zero().units() == 0);
    if all_finite(r) {
        lemma_finite_sum(r[0]@, r[2]@);
        lemma_finite_sum(r[1]@, r[3]@);
        lemma_finite_sum(r[4]@, r[6]@);
        lemma_finite_sum(r[5]@, r[7]@);
        lemma_not_above(r[0]@.plus(r[2]@), r[4]@.plus(r[6]@));
        lemma_not_above(r[1]@.plus(r[3]@), r[5]@.plus(r[7]@));
    }
}

proof fn lemma_not_above(a: Value, b: Value)
    requires
        !(a is Nan),
        !(b is Nan),
    ensures
        a.at_most(b) == !b.less(a),
{
}

proof fn lemma_finite_sum(a: Value, b: Value)
    requires
        a is Finite,
        b is Finite,
    ensures
        !(a.plus(b) is Nan),
{
    reveal(Value::plus);
}

/// A finite sum is off by at most two to the power -24 of the exact one.
proof fn lemma_plus_close(a: Value, b: Value)
    requires
        a is Finite,
        b is Finite,
        a.plus(b) is Finite,
    ensures
        ({
            let exact = a.units() + b.units();
            let off = a.plus(b).units() - exact;
            let size = if exact < 0 {
                -exact
            } else {
                exact
            };
            -size <= 0x100_0000 * off <= size
        }),
{
    reveal(Value::plus);
    let m1 = a->Finite_magnitude;
    let m2 = b->Finite_magnitude;
    let n: nat = if a->Finite_negative == b->Finite_negative {
        m1 + m2
    } else if m1 > m2 {
        (m1 - m2) as nat
    } else {
        (m2 - m1) as nat
    };
    rounding::lemma_nearest_magnitude_error(n, 1);
    let m = rounding::nearest_magnitude(n, 1);
    assert(m * 1 == m);
}

/// Whether the pixels from `start` up to `end` along one axis keep clear of what
/// is at the edges of a quad: a border or corner that reaches this far in.
pub open spec fn clear_of_reach(
    start: int,
    end: int,
    edge: Float32,
    length: Float32,
    reach: Float32,
) -> bool {
    &&& edge@.units() + reach@.units() <= start * one()
    &&& end * one() <= edge@.units() + length@.units() - reach@.units()
}

/// The same for all borders and corners of a quad, for its own edges, for the
/// bands of a fade, and for the clip rectangle.
pub open spec fn clear_of_effects(
    quad: Quad,
    start: int,
    end: int,
    edge: Float32,
    length: Float32,
    near_fade: (Float32, Float32),
    far_fade: (Float32, Float32),
    clip: (Float32, Float32),
) -> bool {
    let radii = quad.corner_radii;
    let borders = quad.border_widths;
    let clip_end = clip.0@.plus(clip.1@);
    &&& edge@.units() <= start * one()
    &&& end * one() <= edge@.units() + length@.units()
    &&& clear_of_reach(start, end, edge, length, radii.top_left.0)
    &&& clear_of_reach(start, end, edge, length, radii.top_right.0)
    &&& clear_of_reach(start, end, edge, length, radii.bottom_left.0)
    &&& clear_of_reach(start, end, edge, length, radii.bottom_right.0)
    &&& clear_of_reach(start, end, edge, length, borders.top.0)
    &&& clear_of_reach(start, end, edge, length, borders.right.0)
    &&& clear_of_reach(start, end, edge, length, borders.bottom.0)
    &&& clear_of_reach(start, end, edge, length, borders.left.0)
    &&& not_positive(near_fade.1) || near_fade.0@.units() + near_fade.1@.units() <= start * one()
    &&& not_positive(far_fade.1) || end * one() <= far_fade.0@.units() - far_fade.1@.units()
    &&& clip.0@.units() <= start * one()
    &&& clip_end is Finite ==> end * one() <= clip_end.units()
}

/// Whether a rectangle of pixels shows nothing of a quad but its color.
pub open spec fn plain_part(quad: Quad, rectangle: (u32, u32, u32, u32)) -> bool {
    let bounds = quad.bounds;
    let clip = quad.content_mask.bounds;
    let fade = quad.fade;
    let (x, y, width, height) = rectangle;
    &&& quad.background.tag is Solid
    &&& clear_of_effects(
        quad,
        x as int,
        x + width,
        bounds.origin.x.0,
        bounds.size.width.0,
        (fade.left_x, fade.band_left),
        (fade.right_x, fade.band_right),
        (clip.origin.x.0, clip.size.width.0),
    )
    &&& clear_of_effects(
        quad,
        y as int,
        y + height,
        bounds.origin.y.0,
        bounds.size.height.0,
        (fade.top_y, fade.band_top),
        (fade.bottom_y, fade.band_bottom),
        (clip.origin.y.0, clip.size.height.0),
    )
}

/// Every value is at most the largest.
proof fn lemma_largest_of(values: Seq<Float32>, i: int)
    requires
        all_finite(values),
        0 <= i < values.len(),
    ensures
        largest(values) is Finite,
        largest(values).units() >= 0,
        values[i]@.units() <= largest(values).units(),
    decreases values.len(),
{
    let rest = values.drop_last();
    assert forall|j: int| 0 <= j < rest.len() implies (#[trigger] rest[j])@.is_finite() by {
        assert(values[j]@.is_finite());
    }
    assert(values[values.len() - 1]@.is_finite());
    if rest.len() > 0 {
        lemma_largest_of(
            rest,
            if i < rest.len() {
                i
            } else {
                0
            },
        );
    }
}

/// A sum does not fall below numbers of moderate size.
proof fn lemma_positive_sum(a: Value, b: Value)
    requires
        a is Finite,
        b is Finite,
        a.units() >= -0x40_0000 * one(),
        b.units() >= 0,
    ensures
        a.plus(b) is Infinite ==> !a.plus(b)->Infinite_negative,
        a.negated().minus(b) is Infinite ==> a.negated().minus(b)->Infinite_negative,
        !(a.plus(b) is Nan),
        !(a.negated().minus(b) is Nan),
{
    lemma_pow2_pos(149);
    vstd::arithmetic::power2::lemma2_to64();
    lemma_pow2_add(24, 149);
    lemma_pow2_below(173, 276);
    if a.units() + b.units() <= 0 {
        crate::float::lemma_plus_error(a, b);
        crate::float::lemma_plus_error(a.negated(), b.negated());
    }
    reveal(Value::plus);
}

/// What the inner edges of one axis leave, without rounding errors.
#[verifier::rlimit(40)]
proof fn lemma_edges(
    edge: Value,
    length: Value,
    reach: Value,
    inset: Value,
    near_fade: (Value, Value),
    far_fade: (Value, Value),
    clip: (Value, Value),
    start: int,
    end: int,
)
    requires
        edge is Finite && length is Finite && reach is Finite,
        near_fade.0 is Finite && near_fade.1 is Finite,
        far_fade.0 is Finite && far_fade.1 is Finite,
        clip.0 is Finite && clip.1 is Finite,
        -0x10_0000 * one() <= edge.units() <= 0x10_0000 * one(),
        -0x10_0000 * one() <= length.units() <= 0x10_0000 * one(),
        -0x10_0000 * one() <= near_fade.0.units() <= 0x10_0000 * one(),
        -0x10_0000 * one() <= near_fade.1.units() <= 0x10_0000 * one(),
        -0x10_0000 * one() <= far_fade.0.units() <= 0x10_0000 * one(),
        -0x10_0000 * one() <= far_fade.1.units() <= 0x10_0000 * one(),
        reach.units() >= 0,
        inset == reach.plus(Value::whole(false, 1)),
        ({
            let low = interior_start(edge, inset, near_fade.0, near_fade.1, clip.0);
            let high = interior_end(
                edge.plus(length),
                inset,
                far_fade.0,
                far_fade.1,
                clip.0.plus(clip.1),
            );
            &&& low is Finite && high is Finite
            &&& low.units() <= start * one()
            &&& end * one() <= high.units()
        }),
        0 <= start < end,
    ensures
        edge.units() + reach.units() <= start * one(),
        end * one() <= edge.units() + length.units() - reach.units(),
        near_fade.1.units() > 0 ==> near_fade.0.units() + near_fade.1.units() <= start * one(),
        far_fade.1.units() > 0 ==> end * one() <= far_fade.0.units() - far_fade.1.units(),
        clip.0.units() <= start * one(),
        clip.0.plus(clip.1) is Finite ==> end * one() <= clip.0.plus(clip.1).units(),
{
    let u = one() as int;
    lemma_pow2_pos(149);
    vstd::arithmetic::power2::lemma2_to64();
    lemma_pow2_add(24, 149);
    lemma_pow2_below(173, 276);
    let unit = Value::whole(false, 1);
    assert(1 * one() == one());
    assert(unit.units() == u);
    assert(Value::zero().units() == 0);
    crate::float::lemma_plus_error(edge, length);
    let far = edge.plus(length);
    let low = interior_start(edge, inset, near_fade.0, near_fade.1, clip.0);
    let high = interior_end(far, inset, far_fade.0, far_fade.1, clip.0.plus(clip.1));
    assert(start * u + u <= end * u) by (nonlinear_arith)
        requires
            start + 1 <= end,
            u > 0,
    ;
    assert(start * u >= 0) by (nonlinear_arith)
        requires
            start >= 0,
            u > 0,
    ;
    let x = edge.plus(inset);
    let y = far.minus(inset);
    let near = near_fade.0.plus(near_fade.1).plus(unit);
    let back = far_fade.0.minus(far_fade.1).minus(unit);
    crate::float::lemma_plus_error(near_fade.0, near_fade.1);
    crate::float::lemma_plus_error(near_fade.0.plus(near_fade.1), unit);
    crate::float::lemma_plus_error(far_fade.0, far_fade.1.negated());
    crate::float::lemma_plus_error(far_fade.0.minus(far_fade.1), unit.negated());
    assert(inset is Finite || inset == (Value::Infinite { negative: false })) by {
        reveal(Value::plus);
    }
    assert(!(x is Nan) && !(y is Nan) && (x is Infinite ==> !x->Infinite_negative) && (
    y is Infinite ==> y->Infinite_negative) && (inset is Infinite ==> x is Infinite)) by {
        reveal(Value::plus);
        if inset is Finite {
            lemma_positive_sum(edge, inset);
            lemma_positive_sum(far.negated(), inset);
        }
    }
    assert(x is Finite && x.units() <= low.units()) by {
        reveal(interior_start);
    }
    assert(y is Finite && high.units() <= y.units()) by {
        reveal(interior_end);
    }
    assert(clip.0.units() <= low.units()) by {
        reveal(interior_start);
    }
    assert(clip.0.plus(clip.1) is Finite ==> high.units() <= clip.0.plus(clip.1).units()) by {
        reveal(interior_end);
    }
    assert(near_fade.1.units() > 0 ==> near.units() <= low.units()) by {
        reveal(interior_start);
    }
    assert(far_fade.1.units() > 0 ==> high.units() <= back.units()) by {
        reveal(interior_end);
    }
    lemma_plus_close(reach, unit);
    lemma_plus_close(edge, inset);
    lemma_plus_close(far, inset.negated());
}

/// Whether a number is finite, and at most 2^20 away from zero.
pub open spec fn moderate(x: Float32) -> bool {
    x@ is Finite && -0x10_0000 * one() <= x@.units() <= 0x10_0000 * one()
}

/// Whether the edges and fades of a quad are at positions of moderate size, and
/// everything else about its edges is finite.
pub open spec fn placed_moderately(quad: Quad) -> bool {
    let bounds = quad.bounds;
    let clip = quad.content_mask.bounds;
    let fade = quad.fade;
    let radii = quad.corner_radii;
    let borders = quad.border_widths;
    &&& moderate(bounds.origin.x.0) && moderate(bounds.origin.y.0)
    &&& moderate(bounds.size.width.0) && moderate(bounds.size.height.0)
    &&& moderate(fade.top_y) && moderate(fade.bottom_y)
    &&& moderate(fade.left_x) && moderate(fade.right_x)
    &&& moderate(fade.band_top) && moderate(fade.band_bottom)
    &&& moderate(fade.band_left) && moderate(fade.band_right)
    &&& clip.origin.x.0@ is Finite && clip.origin.y.0@ is Finite
    &&& clip.size.width.0@ is Finite && clip.size.height.0@ is Finite
    &&& radii.top_left.0@ is Finite && radii.top_right.0@ is Finite
    &&& radii.bottom_left.0@ is Finite && radii.bottom_right.0@ is Finite
    &&& borders.top.0@ is Finite && borders.right.0@ is Finite
    &&& borders.bottom.0@ is Finite && borders.left.0@ is Finite
}

/// The numbers that an interior needs to be finite and of moderate size.
#[verifier::rlimit(40)]
proof fn lemma_placement(quad: Quad)
    ensures
        (all_finite(quad.rectangles()) && all_finite(quad.placement()) && all_within(
            quad.placement(),
            Value::whole(false, COORDINATE_LIMIT as int),
        ) && all_finite(quad.reaches())) == placed_moderately(quad),
{
    let limit = Value::whole(false, COORDINATE_LIMIT as int);
    assert(limit.units() == 0x10_0000 * one());
    lemma_twelve(quad.placement(), limit);
    lemma_eight(quad.rectangles());
    lemma_eight(quad.reaches());
}

proof fn lemma_eight(v: Seq<Float32>)
    requires
        v.len() == 8,
    ensures
        all_finite(v) == (v[0]@ is Finite && v[1]@ is Finite && v[2]@ is Finite && v[3]@ is Finite
            && v[4]@ is Finite && v[5]@ is Finite && v[6]@ is Finite && v[7]@ is Finite),
{
    if all_finite(v) {
        assert(v[0]@.is_finite() && v[1]@.is_finite() && v[2]@.is_finite() && v[3]@.is_finite());
        assert(v[4]@.is_finite() && v[5]@.is_finite() && v[6]@.is_finite() && v[7]@.is_finite());
    }
}

proof fn lemma_moderate(x: Float32, limit: Value)
    requires
        limit == Value::whole(false, 0x10_0000),
        limit.units() == 0x10_0000 * one(),
    ensures
        (x@.is_finite() && !limit.less(x@.absolute())) == moderate(x),
{
}

proof fn lemma_twelve(v: Seq<Float32>, limit: Value)
    requires
        v.len() == 12,
        limit == Value::whole(false, 0x10_0000),
        limit.units() == 0x10_0000 * one(),
    ensures
        (all_finite(v) && all_within(v, limit)) == (moderate(v[0]) && moderate(v[1]) && moderate(
            v[2],
        ) && moderate(v[3]) && moderate(v[4]) && moderate(v[5]) && moderate(v[6]) && moderate(v[7])
            && moderate(v[8]) && moderate(v[9]) && moderate(v[10]) && moderate(v[11])),
{
    assert forall|i: int| 0 <= i < 12 implies (#[trigger] v[i])@.is_finite() && !limit.less(
        v[i]@.absolute(),
    ) == moderate(v[i]) || !v[i]@.is_finite() && !moderate(v[i]) by {
        lemma_moderate(v[i], limit);
    }
    if all_finite(v) && all_within(v, limit) {
        assert forall|i: int| 0 <= i < 12 implies moderate(#[trigger] v[i]) by {
            lemma_moderate(v[i], limit);
            assert(v[i]@.is_finite() && !limit.less(v[i]@.absolute()));
        }
    }
    if moderate(v[0]) && moderate(v[1]) && moderate(v[2]) && moderate(v[3]) && moderate(v[4])
        && moderate(v[5]) && moderate(v[6]) && moderate(v[7]) && moderate(v[8]) && moderate(v[9])
        && moderate(v[10]) && moderate(v[11]) {
        assert forall|i: int| 0 <= i < 12 implies (#[trigger] v[i])@.is_finite() && !limit.less(
            v[i]@.absolute(),
        ) by {
            lemma_moderate(v[i], limit);
        }
    }
}

/// The farthest that anything at the edges reaches in.
proof fn lemma_farthest(quad: Quad)
    requires
        placed_moderately(quad),
    ensures
        ({
            let reach = largest(quad.reaches());
            &&& reach is Finite && reach.units() >= 0
            &&& quad.corner_radii.top_left.0@.units() <= reach.units()
            &&& quad.corner_radii.top_right.0@.units() <= reach.units()
            &&& quad.corner_radii.bottom_left.0@.units() <= reach.units()
            &&& quad.corner_radii.bottom_right.0@.units() <= reach.units()
            &&& quad.border_widths.top.0@.units() <= reach.units()
            &&& quad.border_widths.right.0@.units() <= reach.units()
            &&& quad.border_widths.bottom.0@.units() <= reach.units()
            &&& quad.border_widths.left.0@.units() <= reach.units()
        }),
{
    let reaches = quad.reaches();
    lemma_eight(reaches);
    lemma_largest_of(reaches, 0);
    lemma_largest_of(reaches, 1);
    lemma_largest_of(reaches, 2);
    lemma_largest_of(reaches, 3);
    lemma_largest_of(reaches, 4);
    lemma_largest_of(reaches, 5);
    lemma_largest_of(reaches, 6);
    lemma_largest_of(reaches, 7);
}

/// The edges of an interior, by what they are made of.
proof fn lemma_interior_edges(quad: Quad)
    ensures
        quad.inset() == largest(quad.reaches()).plus(Value::whole(false, 1)),
        quad.interior_left() == interior_start(
            quad.bounds.origin.x.0@,
            quad.inset(),
            quad.fade.left_x@,
            quad.fade.band_left@,
            quad.content_mask.bounds.origin.x.0@,
        ),
        quad.interior_right() == interior_end(
            quad.bounds.origin.x.0@.plus(quad.bounds.size.width.0@),
            quad.inset(),
            quad.fade.right_x@,
            quad.fade.band_right@,
            quad.content_mask.bounds.origin.x.0@.plus(quad.content_mask.bounds.size.width.0@),
        ),
        quad.interior_top() == interior_start(
            quad.bounds.origin.y.0@,
            quad.inset(),
            quad.fade.top_y@,
            quad.fade.band_top@,
            quad.content_mask.bounds.origin.y.0@,
        ),
        quad.interior_bottom() == interior_end(
            quad.bounds.origin.y.0@.plus(quad.bounds.size.height.0@),
            quad.inset(),
            quad.fade.bottom_y@,
            quad.fade.band_bottom@,
            quad.content_mask.bounds.origin.y.0@.plus(quad.content_mask.bounds.size.height.0@),
        ),
{
    reveal(Quad::interior_left);
    reveal(Quad::interior_right);
    reveal(Quad::interior_top);
    reveal(Quad::interior_bottom);
    reveal(Quad::inset);
}

proof fn lemma_interior_some(quad: Quad, viewport: Seq<u32>)
    requires
        quad.interior(viewport) is Some,
    ensures
        quad.background.tag is Solid,
        !quad.simple_solid(),
        placed_moderately(quad),
        quad.interior_is_finite(),
{
    reveal(Quad::interior);
    lemma_placement(quad);
}

/// An interior that is drawn as a plain color keeps clear of everything else
/// that there is to see of the quad, exactly, although single precision rounds
/// every step that leads to it. It is a part of the viewport with 16384 pixels or
/// more, and only quads with some decoration have one.
#[verifier::rlimit(40)]
pub proof fn law_interior_clears_effects(quad: Quad, viewport: Seq<u32>)
    requires
        viewport.len() == 2,
        quad.interior(viewport) is Some,
    ensures
        ({
            let r = quad.interior(viewport)->0;
            &&& r.len() == 4
            &&& plain_part(quad, (r[0], r[1], r[2], r[3]))
            &&& r[0] + r[2] <= viewport[0]
            &&& r[1] + r[3] <= viewport[1]
            &&& r[2] * r[3] >= 16384
        }),
        !undecorated(quad),
{
    let r = quad.interior(viewport)->0;
    law_interior_is_plain(quad, viewport);
    crate::quads::law_interior_in_viewport(quad, viewport);
    lemma_interior_some(quad, viewport);
    assert(!undecorated(quad)) by {
        law_plain_quads(quad);
    }
    lemma_interior_edges(quad);
    lemma_farthest(quad);
    let reach = largest(quad.reaches());
    let bounds = quad.bounds;
    let clip = quad.content_mask.bounds;
    let fade = quad.fade;
    lemma_edges(
        bounds.origin.x.0@,
        bounds.size.width.0@,
        reach,
        quad.inset(),
        (fade.left_x@, fade.band_left@),
        (fade.right_x@, fade.band_right@),
        (clip.origin.x.0@, clip.size.width.0@),
        r[0] as int,
        r[0] + r[2],
    );
    lemma_edges(
        bounds.origin.y.0@,
        bounds.size.height.0@,
        reach,
        quad.inset(),
        (fade.top_y@, fade.band_top@),
        (fade.bottom_y@, fade.band_bottom@),
        (clip.origin.y.0@, clip.size.height.0@),
        r[1] as int,
        r[1] + r[3],
    );
}

/// Whether the pixels from `start` up to `end` along one axis are two pixels or
/// more away from everything that is at the edges of a quad.
pub open spec fn well_clear(
    quad: Quad,
    start: int,
    end: int,
    edge: Float32,
    length: Float32,
    near_fade: (Float32, Float32),
    far_fade: (Float32, Float32),
    clip: (Float32, Float32),
) -> bool {
    let radii = quad.corner_radii;
    let borders = quad.border_widths;
    &&& edge@.units() <= (start - 2) * one()
    &&& (end + 2) * one() <= edge@.units() + length@.units()
    &&& clear_of_reach(start - 2, end + 2, edge, length, radii.top_left.0)
    &&& clear_of_reach(start - 2, end + 2, edge, length, radii.top_right.0)
    &&& clear_of_reach(start - 2, end + 2, edge, length, radii.bottom_left.0)
    &&& clear_of_reach(start - 2, end + 2, edge, length, radii.bottom_right.0)
    &&& clear_of_reach(start - 2, end + 2, edge, length, borders.top.0)
    &&& clear_of_reach(start - 2, end + 2, edge, length, borders.right.0)
    &&& clear_of_reach(start - 2, end + 2, edge, length, borders.bottom.0)
    &&& clear_of_reach(start - 2, end + 2, edge, length, borders.left.0)
    &&& near_fade.1@.units() > 0 ==> near_fade.0@.units() + near_fade.1@.units() <= (start - 2)
        * one()
    &&& far_fade.1@.units() > 0 ==> (end + 2) * one() <= far_fade.0@.units()
        - far_fade.1@.units()
    &&& clip.0@.units() <= start * one()
    &&& !clip.0@.plus(clip.1@).less(Value::whole(false, end))
}

proof fn lemma_largest_within(values: Seq<Float32>, bound: int)
    requires
        all_finite(values),
        bound >= 0,
        forall|i: int| 0 <= i < values.len() ==> (#[trigger] values[i])@.units() <= bound,
    ensures
        largest(values) is Finite,
        0 <= largest(values).units() <= bound,
    decreases values.len(),
{
    if values.len() > 0 {
        let rest = values.drop_last();
        assert forall|j: int| 0 <= j < rest.len() implies (#[trigger] rest[j])@.is_finite()
            && rest[j]@.units() <= bound by {
            assert(values[j]@.is_finite());
        }
        lemma_largest_within(rest, bound);
        assert(values[values.len() - 1]@.is_finite());
    }
}

/// The pixels that are well clear along one axis are among those of the interior.
#[verifier::rlimit(40)]
proof fn lemma_axis_found(
    edge: Value,
    length: Value,
    reach: Value,
    inset: Value,
    near_fade: (Value, Value),
    far_fade: (Value, Value),
    clip: (Value, Value),
    start: int,
    end: int,
)
    requires
        edge is Finite && length is Finite && reach is Finite,
        near_fade.0 is Finite && near_fade.1 is Finite,
        far_fade.0 is Finite && far_fade.1 is Finite,
        clip.0 is Finite && clip.1 is Finite,
        -0x10_0000 * one() <= edge.units() <= 0x10_0000 * one(),
        -0x10_0000 * one() <= length.units() <= 0x10_0000 * one(),
        -0x10_0000 * one() <= near_fade.0.units() <= 0x10_0000 * one(),
        -0x10_0000 * one() <= near_fade.1.units() <= 0x10_0000 * one(),
        -0x10_0000 * one() <= far_fade.0.units() <= 0x10_0000 * one(),
        -0x10_0000 * one() <= far_fade.1.units() <= 0x10_0000 * one(),
        reach.units() >= 0,
        inset == reach.plus(Value::whole(false, 1)),
        0 <= start < end,
        edge.units() + reach.units() <= (start - 2) * one(),
        (end + 2) * one() <= edge.units() + length.units() - reach.units(),
        near_fade.1.units() > 0 ==> near_fade.0.units() + near_fade.1.units() <= (start - 2)
            * one(),
        far_fade.1.units() > 0 ==> (end + 2) * one() <= far_fade.0.units() - far_fade.1.units(),
        clip.0.units() <= start * one(),
        !clip.0.plus(clip.1).less(Value::whole(false, end)),
    ensures
        ({
            let low = interior_start(edge, inset, near_fade.0, near_fade.1, clip.0);
            let high = interior_end(
                edge.plus(length),
                inset,
                far_fade.0,
                far_fade.1,
                clip.0.plus(clip.1),
            );
            &&& low is Finite && high is Finite
            &&& low.units() <= start * one()
            &&& end * one() <= high.units()
        }),
{
    let u = one() as int;
    lemma_pow2_pos(149);
    vstd::arithmetic::power2::lemma2_to64();
    lemma_pow2_add(24, 149);
    lemma_pow2_below(173, 276);
    let unit = Value::whole(false, 1);
    assert(1 * one() == one());
    assert(unit.units() == u);
    assert(Value::zero().units() == 0);
    assert((start - 2) * u == start * u - 2 * u) by (nonlinear_arith);
    assert((end + 2) * u == end * u + 2 * u) by (nonlinear_arith);
    assert(start * u + u <= end * u) by (nonlinear_arith)
        requires
            start + 1 <= end,
            u > 0,
    ;
    assert(start * u >= 0) by (nonlinear_arith)
        requires
            start >= 0,
            u > 0,
    ;
    crate::float::lemma_plus_error(edge, length);
    let far = edge.plus(length);
    crate::float::lemma_plus_error(reach, unit);
    crate::float::lemma_plus_error(edge, inset);
    crate::float::lemma_plus_error(far, inset.negated());
    crate::float::lemma_plus_error(near_fade.0, near_fade.1);
    crate::float::lemma_plus_error(near_fade.0.plus(near_fade.1), unit);
    crate::float::lemma_plus_error(far_fade.0, far_fade.1.negated());
    crate::float::lemma_plus_error(far_fade.0.minus(far_fade.1), unit.negated());
    lemma_finite_sum(clip.0, clip.1);
    let low = interior_start(edge, inset, near_fade.0, near_fade.1, clip.0);
    let high = interior_end(far, inset, far_fade.0, far_fade.1, clip.0.plus(clip.1));
    assert(low is Finite && low.units() <= start * u) by {
        reveal(interior_start);
    }
    assert(Value::whole(false, end).units() == end * u);
    assert(high is Finite && end * u <= high.units()) by {
        reveal(interior_end);
    }
}

/// Pixels between two positions are among those from the first pixel behind the
/// one to the last before the other.
proof fn lemma_pixels_found(low: Value, high: Value, start: int, end: int, extent: u32)
    requires
        low is Finite,
        high is Finite,
        low.units() <= start * one(),
        end * one() <= high.units(),
        0 <= start < end <= extent,
        end <= 0x100_0000,
    ensures
        first_pixel(low, extent) <= start,
        end <= end_pixel(high, extent),
{
    let u = one() as int;
    lemma_pow2_pos(149);
    crate::float::lemma_floor_ceil_enclose(low);
    crate::float::lemma_floor_ceil_enclose(high);
    crate::quads::lemma_pixel(low.ceiled(), low.ceil_int(), extent);
    crate::quads::lemma_pixel(high.floored(), high.floor_int(), extent);
    let c = low.ceil_int();
    let f = high.floor_int();
    assert(c <= start) by (nonlinear_arith)
        requires
            (c - 1) * u < low.units(),
            low.units() <= start * u,
            u > 0,
    ;
    assert(end <= f) by (nonlinear_arith)
        requires
            high.units() < (f + 1) * u,
            end * u <= high.units(),
            u > 0,
    ;
    reveal(first_pixel);
    reveal(end_pixel);
}

/// The edges of the interior along one axis leave what is well clear.
proof fn lemma_axis_left(
    quad: Quad,
    start: int,
    end: int,
    edge: Float32,
    length: Float32,
    near_fade: (Float32, Float32),
    far_fade: (Float32, Float32),
    clip: (Float32, Float32),
    extent: u32,
)
    requires
        well_clear(quad, start, end, edge, length, near_fade, far_fade, clip),
        all_finite(quad.reaches()),
        moderate(edge) && moderate(length),
        moderate(near_fade.0) && moderate(near_fade.1),
        moderate(far_fade.0) && moderate(far_fade.1),
        clip.0@ is Finite && clip.1@ is Finite,
        0 <= start < end <= extent,
    ensures
        ({
            let inset = largest(quad.reaches()).plus(Value::whole(false, 1));
            let low = interior_start(edge@, inset, near_fade.0@, near_fade.1@, clip.0@);
            let high = interior_end(
                edge@.plus(length@),
                inset,
                far_fade.0@,
                far_fade.1@,
                clip.0@.plus(clip.1@),
            );
            &&& low is Finite && high is Finite
            &&& first_pixel(low, extent) <= start
            &&& end <= end_pixel(high, extent)
        }),
{
    let u = one() as int;
    lemma_pow2_pos(149);
    let reach = largest(quad.reaches());
    let inset = reach.plus(Value::whole(false, 1));
    lemma_largest_of(quad.reaches(), 0);
    lemma_reach_within(quad, start, end, edge, length);
    lemma_axis_found(
        edge@,
        length@,
        reach,
        inset,
        (near_fade.0@, near_fade.1@),
        (far_fade.0@, far_fade.1@),
        (clip.0@, clip.1@),
        start,
        end,
    );
    assert(end <= 0x100_0000) by (nonlinear_arith)
        requires
            (end + 2) * u <= 0x20_0000 * u,
            u > 0,
    ;
    lemma_pixels_found(
        interior_start(edge@, inset, near_fade.0@, near_fade.1@, clip.0@),
        interior_end(edge@.plus(length@), inset, far_fade.0@, far_fade.1@, clip.0@.plus(clip.1@)),
        start,
        end,
        extent,
    );
}

/// A large part of a decorated quad that is well clear of its edges is found: it
/// is inside of the interior that is drawn as a plain color.
#[verifier::rlimit(40)]
pub proof fn law_interior_is_found(
    quad: Quad,
    viewport: Seq<u32>,
    x: int,
    y: int,
    width: int,
    height: int,
)
    requires
        viewport.len() == 2,
        quad.background.tag is Solid,
        !undecorated(quad),
        placed_moderately(quad),
        0 <= x && x + width <= viewport[0],
        0 <= y && y + height <= viewport[1],
        width > 0 && height > 0,
        width * height >= 16384,
        well_clear(
            quad,
            x,
            x + width,
            quad.bounds.origin.x.0,
            quad.bounds.size.width.0,
            (quad.fade.left_x, quad.fade.band_left),
            (quad.fade.right_x, quad.fade.band_right),
            (quad.content_mask.bounds.origin.x.0, quad.content_mask.bounds.size.width.0),
        ),
        well_clear(
            quad,
            y,
            y + height,
            quad.bounds.origin.y.0,
            quad.bounds.size.height.0,
            (quad.fade.top_y, quad.fade.band_top),
            (quad.fade.bottom_y, quad.fade.band_bottom),
            (quad.content_mask.bounds.origin.y.0, quad.content_mask.bounds.size.height.0),
        ),
    ensures
        quad.interior(viewport) is Some,
        ({
            let r = quad.interior(viewport)->0;
            &&& r[0] <= x && x + width <= r[0] + r[2]
            &&& r[1] <= y && y + height <= r[1] + r[3]
        }),
{
    assert(!quad.simple_solid()) by {
        law_plain_quads(quad);
    }
    lemma_placement(quad);
    lemma_interior_edges(quad);
    let bounds = quad.bounds;
    let clip = quad.content_mask.bounds;
    let fade = quad.fade;
    lemma_axis_left(
        quad,
        x,
        x + width,
        bounds.origin.x.0,
        bounds.size.width.0,
        (fade.left_x, fade.band_left),
        (fade.right_x, fade.band_right),
        (clip.origin.x.0, clip.size.width.0),
        viewport[0],
    );
    lemma_axis_left(
        quad,
        y,
        y + height,
        bounds.origin.y.0,
        bounds.size.height.0,
        (fade.top_y, fade.band_top),
        (fade.bottom_y, fade.band_bottom),
        (clip.origin.y.0, clip.size.height.0),
        viewport[1],
    );
    lemma_interior_holds(quad, viewport, x, y, width, height);
}

/// An interior with enough pixels is found.
proof fn lemma_interior_holds(
    quad: Quad,
    viewport: Seq<u32>,
    x: int,
    y: int,
    width: int,
    height: int,
)
    requires
        viewport.len() == 2,
        quad.may_have_interior(),
        quad.interior_is_finite(),
        first_pixel(quad.interior_left(), viewport[0]) <= x,
        x + width <= end_pixel(quad.interior_right(), viewport[0]),
        first_pixel(quad.interior_top(), viewport[1]) <= y,
        y + height <= end_pixel(quad.interior_bottom(), viewport[1]),
        width > 0 && height > 0,
        width * height >= 16384,
    ensures
        quad.interior(viewport) is Some,
        ({
            let r = quad.interior(viewport)->0;
            &&& r[0] <= x && x + width <= r[0] + r[2]
            &&& r[1] <= y && y + height <= r[1] + r[3]
        }),
{
    let r = quad.interior_pixels(viewport);
    assert(r[2] * r[3] >= width * height) by (nonlinear_arith)
        requires
            r[2] >= width,
            r[3] >= height,
            width > 0,
            height > 0,
    ;
    reveal(Quad::interior);
}

/// What is well clear of all that reaches in is well clear of the farthest.
proof fn lemma_reach_within(quad: Quad, start: int, end: int, edge: Float32, length: Float32)
    requires
        all_finite(quad.reaches()),
        edge@.units() <= (start - 2) * one(),
        (end + 2) * one() <= edge@.units() + length@.units(),
        clear_of_reach(start - 2, end + 2, edge, length, quad.corner_radii.top_left.0),
        clear_of_reach(start - 2, end + 2, edge, length, quad.corner_radii.top_right.0),
        clear_of_reach(start - 2, end + 2, edge, length, quad.corner_radii.bottom_left.0),
        clear_of_reach(start - 2, end + 2, edge, length, quad.corner_radii.bottom_right.0),
        clear_of_reach(start - 2, end + 2, edge, length, quad.border_widths.top.0),
        clear_of_reach(start - 2, end + 2, edge, length, quad.border_widths.right.0),
        clear_of_reach(start - 2, end + 2, edge, length, quad.border_widths.bottom.0),
        clear_of_reach(start - 2, end + 2, edge, length, quad.border_widths.left.0),
    ensures
        ({
            let reach = largest(quad.reaches()).units();
            &&& edge@.units() + reach <= (start - 2) * one()
            &&& (end + 2) * one() <= edge@.units() + length@.units() - reach
        }),
{
    lemma_largest_within(quad.reaches(), (start - 2) * one() - edge@.units());
    lemma_largest_within(quad.reaches(), edge@.units() + length@.units() - (end + 2) * one());
}

} // verus!
