//! Which quads can be drawn by a cheaper shader, and where.
use crate::float::{one, Float32, Value};
use crate::scene::Quad;
use vstd::arithmetic::power2::pow2;
use vstd::prelude::*;

verus! {

/// How much of the general quad shader a quad needs.
#[derive(Clone, Copy, Debug, PartialEq, Eq, Structural)]
pub enum SimpleQuadKind {
    General,
    Solid,
    Opaque,
}

/// Interiors with fewer pixels than this are not drawn on their own.
pub const MIN_INTERIOR_PIXELS: u64 = 16_384;

/// Coordinates beyond this lose the precision of a pixel.
pub const COORDINATE_LIMIT: u32 = 1_048_576;

pub open spec fn all_finite(values: Seq<Float32>) -> bool {
    forall|i: int| 0 <= i < values.len() ==> (#[trigger] values[i])@.is_finite()
}

/// Whether none of the values is farther from zero than `limit`.
pub open spec fn all_within(values: Seq<Float32>, limit: Value) -> bool {
    forall|i: int|
        0 <= i < values.len() ==> !limit.less((#[trigger] values[i])@.absolute())
}

/// The largest of zero and the values.
pub open spec fn largest(values: Seq<Float32>) -> Value
    decreases values.len(),
{
    if values.len() == 0 {
        Value::zero()
    } else {
        largest(values.drop_last()).larger(values.last()@)
    }
}

/// The contents of a rectangle that may be missing.
pub open spec fn rectangle_view(r: Option<[u32; 4]>) -> Option<Seq<u32>> {
    match r {
        Some(rectangle) => Some(rectangle@),
        None => None,
    }
}

/// Where the plain interior begins along an axis: `inset` behind the edge of
/// the quad, one pixel behind the band of a fade, and not before the clip.
#[verifier::opaque]
pub open spec fn interior_start(
    edge: Value,
    inset: Value,
    fade_edge: Value,
    band: Value,
    clip: Value,
) -> Value {
    let plain = edge.plus(inset);
    let clear = if Value::zero().less(band) {
        plain.larger(fade_edge.plus(band).plus(Value::whole(false, 1)))
    } else {
        plain
    };
    clear.larger(clip)
}

/// Where the plain interior ends along an axis.
#[verifier::opaque]
pub open spec fn interior_end(
    edge: Value,
    inset: Value,
    fade_edge: Value,
    band: Value,
    clip: Value,
) -> Value {
    let plain = edge.minus(inset);
    let clear = if Value::zero().less(band) {
        plain.smaller(fade_edge.minus(band).minus(Value::whole(false, 1)))
    } else {
        plain
    };
    clear.smaller(clip)
}

/// The first pixel of `extent` pixels that is not before `position`.
#[verifier::opaque]
pub open spec fn first_pixel(position: Value, extent: u32) -> u32 {
    position.ceiled().clamped(Value::zero(), Value::from_nat(extent as nat)).saturated(
        0,
        u32::MAX as int,
    ) as u32
}

/// The end of those of `extent` pixels that do not reach beyond `position`.
#[verifier::opaque]
pub open spec fn end_pixel(position: Value, extent: u32) -> u32 {
    position.floored().clamped(Value::zero(), Value::from_nat(extent as nat)).saturated(
        0,
        u32::MAX as int,
    ) as u32
}

/// How many pixels there are from `start` up to `end`.
pub open spec fn distance(start: u32, end: u32) -> u32 {
    if end >= start {
        (end - start) as u32
    } else {
        0
    }
}

impl Quad {
    /// A single color, square corners, no border and no fade.
    pub open spec fn simple_solid(self) -> bool {
        let zero = Value::zero();
        &&& self.background.tag is Solid
        &&& self.corner_radii.top_left.0@.equals(zero)
        &&& self.corner_radii.top_right.0@.equals(zero)
        &&& self.corner_radii.bottom_right.0@.equals(zero)
        &&& self.corner_radii.bottom_left.0@.equals(zero)
        &&& self.border_widths.top.0@.equals(zero)
        &&& self.border_widths.right.0@.equals(zero)
        &&& self.border_widths.bottom.0@.equals(zero)
        &&& self.border_widths.left.0@.equals(zero)
        &&& self.fade.band_top@.at_most(zero)
        &&& self.fade.band_bottom@.at_most(zero)
        &&& self.fade.band_left@.at_most(zero)
        &&& self.fade.band_right@.at_most(zero)
    }

    /// The position and size, and those of the clip rectangle.
    pub open spec fn rectangles(self) -> Seq<Float32> {
        seq![
            self.bounds.origin.x.0,
            self.bounds.origin.y.0,
            self.bounds.size.width.0,
            self.bounds.size.height.0,
            self.content_mask.bounds.origin.x.0,
            self.content_mask.bounds.origin.y.0,
            self.content_mask.bounds.size.width.0,
            self.content_mask.bounds.size.height.0,
        ]
    }

    /// The position and size, and everything about the fade.
    pub open spec fn placement(self) -> Seq<Float32> {
        seq![
            self.bounds.origin.x.0,
            self.bounds.origin.y.0,
            self.bounds.size.width.0,
            self.bounds.size.height.0,
            self.fade.top_y,
            self.fade.bottom_y,
            self.fade.left_x,
            self.fade.right_x,
            self.fade.band_top,
            self.fade.band_bottom,
            self.fade.band_left,
            self.fade.band_right,
        ]
    }

    /// How far corners and borders reach into the quad.
    pub open spec fn reaches(self) -> Seq<Float32> {
        seq![
            self.corner_radii.top_left.0,
            self.corner_radii.top_right.0,
            self.corner_radii.bottom_left.0,
            self.corner_radii.bottom_right.0,
            self.border_widths.top.0,
            self.border_widths.right.0,
            self.border_widths.bottom.0,
            self.border_widths.left.0,
        ]
    }

    /// A single color with some effect at the edges, at coordinates that leave
    /// the precision of a pixel.
    pub open spec fn may_have_interior(self) -> bool {
        &&& self.background.tag is Solid
        &&& !self.simple_solid()
        &&& all_finite(self.rectangles())
        &&& all_finite(self.placement())
        &&& all_within(self.placement(), Value::whole(false, COORDINATE_LIMIT as int))
        &&& all_finite(self.reaches())
    }

    /// How far corners and borders reach at most, and one pixel to spare.
    #[verifier::opaque]
    pub open spec fn inset(self) -> Value {
        largest(self.reaches()).plus(Value::whole(false, 1))
    }

    #[verifier::opaque]
    pub open spec fn interior_left(self) -> Value {
        interior_start(
            self.bounds.origin.x.0@,
            self.inset(),
            self.fade.left_x@,
            self.fade.band_left@,
            self.content_mask.bounds.origin.x.0@,
        )
    }

    #[verifier::opaque]
    pub open spec fn interior_top(self) -> Value {
        interior_start(
            self.bounds.origin.y.0@,
            self.inset(),
            self.fade.top_y@,
            self.fade.band_top@,
            self.content_mask.bounds.origin.y.0@,
        )
    }

    #[verifier::opaque]
    pub open spec fn interior_right(self) -> Value {
        interior_end(
            self.bounds.origin.x.0@.plus(self.bounds.size.width.0@),
            self.inset(),
            self.fade.right_x@,
            self.fade.band_right@,
            self.content_mask.bounds.origin.x.0@.plus(self.content_mask.bounds.size.width.0@),
        )
    }

    #[verifier::opaque]
    pub open spec fn interior_bottom(self) -> Value {
        interior_end(
            self.bounds.origin.y.0@.plus(self.bounds.size.height.0@),
            self.inset(),
            self.fade.bottom_y@,
            self.fade.band_bottom@,
            self.content_mask.bounds.origin.y.0@.plus(self.content_mask.bounds.size.height.0@),
        )
    }

    /// The pixels of the viewport that lie completely in the plain interior, as
    /// position and size, whatever their number.
    pub open spec fn interior_pixels(self, viewport: Seq<u32>) -> Seq<u32> {
        let x = first_pixel(self.interior_left(), viewport[0]);
        let y = first_pixel(self.interior_top(), viewport[1]);
        let end_x = end_pixel(self.interior_right(), viewport[0]);
        let end_y = end_pixel(self.interior_bottom(), viewport[1]);
        seq![x, y, distance(x, end_x), distance(y, end_y)]
    }

    /// Whether all edges of the plain interior are at finite positions.
    pub open spec fn interior_is_finite(self) -> bool {
        &&& self.interior_left().is_finite()
        &&& self.interior_top().is_finite()
        &&& self.interior_right().is_finite()
        &&& self.interior_bottom().is_finite()
    }

    /// The interior that is worth drawing on its own.
    #[verifier::opaque]
    pub open spec fn interior(self, viewport: Seq<u32>) -> Option<Seq<u32>> {
        let pixels = self.interior_pixels(viewport);
        if self.may_have_interior() && self.interior_is_finite() && pixels[2] * pixels[3]
            >= MIN_INTERIOR_PIXELS {
            Some(pixels)
        } else {
            None
        }
    }

    /// The color covers every pixel of the quad completely.
    pub open spec fn fully_opaque(self) -> bool {
        self.background.tag is Solid && self.background.solid.a@.equals(Value::whole(false, 1))
    }

    /// A simple, fully opaque quad that has an area and lies within its clip
    /// rectangle.
    pub open spec fn unclipped_opaque(self) -> bool {
        let bounds = self.bounds;
        let mask = self.content_mask.bounds;
        &&& self.simple_solid()
        &&& self.fully_opaque()
        &&& all_finite(self.rectangles())
        &&& Value::zero().less(bounds.size.width.0@)
        &&& Value::zero().less(bounds.size.height.0@)
        &&& mask.origin.x.0@.at_most(bounds.origin.x.0@)
        &&& mask.origin.y.0@.at_most(bounds.origin.y.0@)
        &&& bounds.origin.x.0@.plus(bounds.size.width.0@).at_most(
            mask.origin.x.0@.plus(mask.size.width.0@),
        )
        &&& bounds.origin.y.0@.plus(bounds.size.height.0@).at_most(
            mask.origin.y.0@.plus(mask.size.height.0@),
        )
    }

    /// How much of the general quad shader the quad needs.
    #[verifier::opaque]
    pub open spec fn kind(self) -> SimpleQuadKind {
        if self.unclipped_opaque() {
            SimpleQuadKind::Opaque
        } else if self.simple_solid() {
            SimpleQuadKind::Solid
        } else {
            SimpleQuadKind::General
        }
    }
}

/// Whether the solid-color shader draws the quad as the general one does.
pub fn is_simple_solid_quad(quad: &Quad) -> (r: bool)
    ensures
        r == quad.simple_solid(),
{
    let zero = Float32::zero();
    quad.background.as_solid().is_some() && quad.corner_radii.top_left.0.equals(zero)
        && quad.corner_radii.top_right.0.equals(zero) && quad.corner_radii.bottom_right.0.equals(
        zero,
    ) && quad.corner_radii.bottom_left.0.equals(zero) && quad.border_widths.top.0.equals(zero)
        && quad.border_widths.right.0.equals(zero) && quad.border_widths.bottom.0.equals(zero)
        && quad.border_widths.left.0.equals(zero) && quad.fade.band_top.at_most(zero)
        && quad.fade.band_bottom.at_most(zero) && quad.fade.band_left.at_most(zero)
        && quad.fade.band_right.at_most(zero)
}

/// Whether every fragment of the quad is opaque, so that blending can be off.
pub fn is_unclipped_opaque_quad(quad: &Quad) -> (r: bool)
    ensures
        r == quad.unclipped_opaque(),
{
    if !is_simple_solid_quad(quad) || !has_opaque_color(quad) {
        return false;
    }
    let bounds = quad.bounds;
    let mask = quad.content_mask.bounds;
    if !rectangles_are_finite(quad) {
        return false;
    }
    let zero = Float32::zero();
    zero.less(bounds.size.width.0) && zero.less(bounds.size.height.0) && mask.origin.x.0.at_most(
        bounds.origin.x.0,
    ) && mask.origin.y.0.at_most(bounds.origin.y.0) && bounds.origin.x.0.plus(
        bounds.size.width.0,
    ).at_most(mask.origin.x.0.plus(mask.size.width.0)) && bounds.origin.y.0.plus(
        bounds.size.height.0,
    ).at_most(mask.origin.y.0.plus(mask.size.height.0))
}

/// Whether the quad has a single color without transparency.
pub fn has_opaque_color(quad: &Quad) -> (r: bool)
    ensures
        r == quad.fully_opaque(),
{
    match quad.background.as_solid() {
        Some(color) => color.a.equals(Float32::whole(1)),
        None => false,
    }
}

fn rectangles_are_finite(quad: &Quad) -> (r: bool)
    ensures
        r == all_finite(quad.rectangles()),
{
    let bounds = quad.bounds;
    let mask = quad.content_mask.bounds;
    let values = vec![
        bounds.origin.x.0,
        bounds.origin.y.0,
        bounds.size.width.0,
        bounds.size.height.0,
        mask.origin.x.0,
        mask.origin.y.0,
        mask.size.width.0,
        mask.size.height.0,
    ];
    assert(values@ =~= quad.rectangles());
    are_finite(&values)
}

fn are_finite(values: &Vec<Float32>) -> (r: bool)
    ensures
        r == all_finite(values@),
{
    for i in 0..values.len()
        invariant
            all_finite(values@.take(i as int)),
    {
        if !values[i].is_finite() {
            assert(!values@[i as int]@.is_finite());
            return false;
        }
        assert(values@.take(i + 1) =~= values@.take(i as int).push(values@[i as int]));
    }
    assert(values@.take(values.len() as int) =~= values@);
    true
}

fn are_within(values: &Vec<Float32>, limit: Float32) -> (r: bool)
    ensures
        r == all_within(values@, limit@),
{
    for i in 0..values.len()
        invariant
            all_within(values@.take(i as int), limit@),
    {
        if limit.less(values[i].absolute()) {
            assert(limit@.less(values@[i as int]@.absolute()));
            return false;
        }
        assert(values@.take(i + 1) =~= values@.take(i as int).push(values@[i as int]));
    }
    assert(values@.take(values.len() as int) =~= values@);
    true
}

fn largest_of(values: &Vec<Float32>) -> (r: Float32)
    ensures
        r@ == largest(values@),
{
    let mut r = Float32::zero();
    for i in 0..values.len()
        invariant
            r@ == largest(values@.take(i as int)),
    {
        assert(values@.take(i + 1).drop_last() =~= values@.take(i as int));
        r = r.larger(values[i]);
    }
    assert(values@.take(values.len() as int) =~= values@);
    r
}

fn reaches_of(quad: &Quad) -> (r: Vec<Float32>)
    ensures
        r@ == quad.reaches(),
{
    let radii = quad.corner_radii;
    let borders = quad.border_widths;
    vec![
        radii.top_left.0,
        radii.top_right.0,
        radii.bottom_left.0,
        radii.bottom_right.0,
        borders.top.0,
        borders.right.0,
        borders.bottom.0,
        borders.left.0,
    ]
}

fn can_have_interior(quad: &Quad) -> (r: bool)
    ensures
        r == quad.may_have_interior(),
{
    if is_simple_solid_quad(quad) || quad.background.as_solid().is_none() {
        return false;
    }
    let bounds = quad.bounds;
    let fade = quad.fade;
    let placement = vec![
        bounds.origin.x.0,
        bounds.origin.y.0,
        bounds.size.width.0,
        bounds.size.height.0,
        fade.top_y,
        fade.bottom_y,
        fade.left_x,
        fade.right_x,
        fade.band_top,
        fade.band_bottom,
        fade.band_left,
        fade.band_right,
    ];
    assert(placement@ =~= quad.placement());
    rectangles_are_finite(quad) && are_finite(&placement) && are_within(
        &placement,
        Float32::whole(COORDINATE_LIMIT),
    ) && are_finite(&reaches_of(quad))
}

fn find_interior_start(
    edge: Float32,
    inset: Float32,
    fade_edge: Float32,
    band: Float32,
    clip: Float32,
) -> (r: Float32)
    ensures
        r@ == interior_start(edge@, inset@, fade_edge@, band@, clip@),
{
    proof {
        reveal(interior_start);
    }
    let mut r = edge.plus(inset);
    if Float32::zero().less(band) {
        r = r.larger(fade_edge.plus(band).plus(Float32::whole(1)));
    }
    r.larger(clip)
}

fn find_interior_end(
    edge: Float32,
    inset: Float32,
    fade_edge: Float32,
    band: Float32,
    clip: Float32,
) -> (r: Float32)
    ensures
        r@ == interior_end(edge@, inset@, fade_edge@, band@, clip@),
{
    proof {
        reveal(interior_end);
    }
    let mut r = edge.minus(inset);
    if Float32::zero().less(band) {
        r = r.smaller(fade_edge.minus(band).minus(Float32::whole(1)));
    }
    r.smaller(clip)
}

fn find_first_pixel(position: Float32, extent: u32) -> (r: u32)
    ensures
        r == first_pixel(position@, extent),
{
    proof {
        reveal(first_pixel);
    }
    position.ceiled().clamped(Float32::zero(), Float32::from_u32(extent)).to_u32()
}

fn find_end_pixel(position: Float32, extent: u32) -> (r: u32)
    ensures
        r == end_pixel(position@, extent),
{
    proof {
        reveal(end_pixel);
    }
    position.floored().clamped(Float32::zero(), Float32::from_u32(extent)).to_u32()
}

fn find_inset(quad: &Quad) -> (r: Float32)
    ensures
        r@ == quad.inset(),
{
    proof {
        reveal(Quad::inset);
    }
    largest_of(&reaches_of(quad)).plus(Float32::whole(1))
}

fn find_left(quad: &Quad, inset: Float32) -> (r: Float32)
    requires
        inset@ == quad.inset(),
    ensures
        r@ == quad.interior_left(),
{
    proof {
        reveal(Quad::interior_left);
    }
    find_interior_start(
        quad.bounds.origin.x.0,
        inset,
        quad.fade.left_x,
        quad.fade.band_left,
        quad.content_mask.bounds.origin.x.0,
    )
}

fn find_top(quad: &Quad, inset: Float32) -> (r: Float32)
    requires
        inset@ == quad.inset(),
    ensures
        r@ == quad.interior_top(),
{
    proof {
        reveal(Quad::interior_top);
    }
    find_interior_start(
        quad.bounds.origin.y.0,
        inset,
        quad.fade.top_y,
        quad.fade.band_top,
        quad.content_mask.bounds.origin.y.0,
    )
}

fn find_right(quad: &Quad, inset: Float32) -> (r: Float32)
    requires
        inset@ == quad.inset(),
    ensures
        r@ == quad.interior_right(),
{
    proof {
        reveal(Quad::interior_right);
    }
    let bounds = quad.bounds;
    let mask = quad.content_mask.bounds;
    find_interior_end(
        bounds.origin.x.0.plus(bounds.size.width.0),
        inset,
        quad.fade.right_x,
        quad.fade.band_right,
        mask.origin.x.0.plus(mask.size.width.0),
    )
}

fn find_bottom(quad: &Quad, inset: Float32) -> (r: Float32)
    requires
        inset@ == quad.inset(),
    ensures
        r@ == quad.interior_bottom(),
{
    proof {
        reveal(Quad::interior_bottom);
    }
    let bounds = quad.bounds;
    let mask = quad.content_mask.bounds;
    find_interior_end(
        bounds.origin.y.0.plus(bounds.size.height.0),
        inset,
        quad.fade.bottom_y,
        quad.fade.band_bottom,
        mask.origin.y.0.plus(mask.size.height.0),
    )
}

/// The pixels of the viewport in the plain interior, where its edges are at
/// finite positions.
fn find_interior_pixels(quad: &Quad, viewport: [u32; 2]) -> (r: Option<[u32; 4]>)
    ensures
        rectangle_view(r) == if quad.interior_is_finite() {
            Some(quad.interior_pixels(viewport@))
        } else {
            None
        },
{
    let inset = find_inset(quad);
    let left = find_left(quad, inset);
    let top = find_top(quad, inset);
    let right = find_right(quad, inset);
    let bottom = find_bottom(quad, inset);
    if !(left.is_finite() && top.is_finite() && right.is_finite() && bottom.is_finite()) {
        return None;
    }
    let x: u32 = find_first_pixel(left, viewport[0]);
    let y: u32 = find_first_pixel(top, viewport[1]);
    let end_x: u32 = find_end_pixel(right, viewport[0]);
    let end_y: u32 = find_end_pixel(bottom, viewport[1]);
    let width: u32 = if end_x >= x {
        end_x - x
    } else {
        0
    };
    let height: u32 = if end_y >= y {
        end_y - y
    } else {
        0
    };
    let r: [u32; 4] = [x, y, width, height];
    assert(r@ =~= quad.interior_pixels(viewport@));
    Some(r)
}

/// The part of a quad with effects at its edges that is a plain color, as
/// position and size in pixels of the viewport.
///
/// It stays inside of corners, borders and fades by a pixel. Quads that are
/// plain everywhere have none, and small ones are not worth it.
pub fn solid_quad_interior(quad: &Quad, viewport: [u32; 2]) -> (r: Option<[u32; 4]>)
    ensures
        rectangle_view(r) == quad.interior(viewport@),
{
    proof {
        reveal(Quad::interior);
    }
    if !can_have_interior(quad) {
        return None;
    }
    match find_interior_pixels(quad, viewport) {
        Some(r) => {
            let width: u32 = r[2];
            let height: u32 = r[3];
            proof {
                assert(width as nat * height as nat <= u32::MAX * u32::MAX) by (nonlinear_arith)
                    requires
                        width <= u32::MAX,
                        height <= u32::MAX,
                ;
            }
            if width as u64 * height as u64 >= MIN_INTERIOR_PIXELS {
                Some(r)
            } else {
                None
            }
        },
        None => None,
    }
}

/// How much of the general quad shader the quad needs.
pub fn simple_quad_kind(quad: &Quad) -> (r: SimpleQuadKind)
    ensures
        r == quad.kind(),
{
    proof {
        reveal(Quad::kind);
    }
    if is_unclipped_opaque_quad(quad) {
        SimpleQuadKind::Opaque
    } else if is_simple_solid_quad(quad) {
        SimpleQuadKind::Solid
    } else {
        SimpleQuadKind::General
    }
}

/// Four strips that cover the viewport around an interior: left and right of
/// it in full height, then above and below it.
pub fn exterior_scissors(interior: [u32; 4], viewport: [u32; 2]) -> (r: [[u32; 4]; 4])
    requires
        interior[0] + interior[2] <= viewport[0],
        interior[1] + interior[3] <= viewport[1],
    ensures
        r[0]@ == strip_left(interior@, viewport@),
        r[1]@ == strip_right(interior@, viewport@),
        r[2]@ == strip_above(interior@, viewport@),
        r[3]@ == strip_below(interior@, viewport@),
{
    let x: u32 = interior[0];
    let y: u32 = interior[1];
    let width: u32 = interior[2];
    let height: u32 = interior[3];
    let left: [u32; 4] = [0, 0, x, viewport[1]];
    let right: [u32; 4] = [x + width, 0, viewport[0] - x - width, viewport[1]];
    let above: [u32; 4] = [x, 0, width, y];
    let below: [u32; 4] = [x, y + height, width, viewport[1] - y - height];
    assert(left@ =~= strip_left(interior@, viewport@));
    assert(right@ =~= strip_right(interior@, viewport@));
    assert(above@ =~= strip_above(interior@, viewport@));
    assert(below@ =~= strip_below(interior@, viewport@));
    [left, right, above, below]
}

/// Everything to the left of an interior.
pub open spec fn strip_left(interior: Seq<u32>, viewport: Seq<u32>) -> Seq<u32> {
    seq![0, 0, interior[0], viewport[1]]
}

/// Everything to the right of an interior.
pub open spec fn strip_right(interior: Seq<u32>, viewport: Seq<u32>) -> Seq<u32> {
    seq![
        (interior[0] + interior[2]) as u32,
        0,
        (viewport[0] - interior[0] - interior[2]) as u32,
        viewport[1],
    ]
}

/// What is straight above an interior.
pub open spec fn strip_above(interior: Seq<u32>, viewport: Seq<u32>) -> Seq<u32> {
    seq![interior[0], 0, interior[2], interior[1]]
}

/// What is straight below an interior.
pub open spec fn strip_below(interior: Seq<u32>, viewport: Seq<u32>) -> Seq<u32> {
    seq![
        interior[0],
        (interior[1] + interior[3]) as u32,
        interior[2],
        (viewport[1] - interior[1] - interior[3]) as u32,
    ]
}

/// Whether a pixel lies in a rectangle given by position and size.
pub open spec fn covers(rectangle: Seq<u32>, px: int, py: int) -> bool {
    &&& rectangle[0] <= px < rectangle[0] + rectangle[2]
    &&& rectangle[1] <= py < rectangle[1] + rectangle[3]
}

/// The number of pixels in a rectangle.
pub open spec fn area(rectangle: Seq<u32>) -> int {
    rectangle[2] * rectangle[3]
}

/// An interior and the four strips around it partition the viewport: each of
/// its pixels lies in exactly one of the five, none of them reaches beyond it,
/// and their areas add up.
pub proof fn law_exterior_partitions_viewport(interior: Seq<u32>, viewport: Seq<u32>)
    requires
        interior.len() == 4,
        viewport.len() == 2,
        interior[0] + interior[2] <= viewport[0],
        interior[1] + interior[3] <= viewport[1],
    ensures
        forall|px: int, py: int|
            {
                let inside = #[trigger] covers(interior, px, py);
                let left = covers(strip_left(interior, viewport), px, py);
                let right = covers(strip_right(interior, viewport), px, py);
                let above = covers(strip_above(interior, viewport), px, py);
                let below = covers(strip_below(interior, viewport), px, py);
                &&& (0 <= px < viewport[0] && 0 <= py < viewport[1]) == (inside || left || right
                    || above || below)
                &&& !(inside && (left || right || above || below))
                &&& !(left && (right || above || below))
                &&& !(right && (above || below))
                &&& !(above && below)
            },
        area(interior) + area(strip_left(interior, viewport)) + area(
            strip_right(interior, viewport),
        ) + area(strip_above(interior, viewport)) + area(strip_below(interior, viewport))
            == viewport[0] * viewport[1],
{
    let (x, y, w, h) = (
        interior[0] as int,
        interior[1] as int,
        interior[2] as int,
        interior[3] as int,
    );
    let (vw, vh) = (viewport[0] as int, viewport[1] as int);
    assert(w * h + x * vh + (vw - x - w) * vh + w * y + w * (vh - y - h) == vw * vh)
        by (nonlinear_arith);
}

proof fn lemma_smaller_bounded(a: Value, b: Value, bound: int)
    requires
        a.bounded_above(bound),
    ensures
        a.smaller(b).bounded_above(bound),
{
}

/// The plain interior ends within the coordinates of a significand.
proof fn lemma_interior_end_bounded(
    edge: Value,
    inset: Value,
    fade_edge: Value,
    band: Value,
    clip: Value,
)
    requires
        edge.bounded_above(pow2(170) as int),
        edge is Finite,
        inset is Finite ==> inset.units() >= 0,
        inset is Finite || inset == (Value::Infinite { negative: false }),
    ensures
        interior_end(edge, inset, fade_edge, band, clip).bounded_above(pow2(170) as int),
{
    reveal(interior_end);
    crate::float::lemma_plus_bounded(edge, inset.negated(), 170);
    let plain = edge.minus(inset);
    lemma_smaller_bounded(
        plain,
        fade_edge.minus(band).minus(Value::whole(false, 1)),
        pow2(170) as int,
    );
    let clear = if Value::zero().less(band) {
        plain.smaller(fade_edge.minus(band).minus(Value::whole(false, 1)))
    } else {
        plain
    };
    lemma_smaller_bounded(clear, clip, pow2(170) as int);
}

/// What a whole number of units becomes when it is moved into `extent` pixels.
pub(crate) proof fn lemma_pixel(v: Value, n: int, extent: u32)
    requires
        v is Finite,
        v.units() == n * one(),
    ensures
        ({
            let top = Value::from_nat(extent as nat);
            let pixel = v.clamped(Value::zero(), top).saturated(0, u32::MAX as int);
            let last = top.saturated(0, u32::MAX as int);
            &&& pixel == if n < 0 {
                0
            } else if n < last {
                n
            } else {
                last
            }
            &&& last >= 0
            &&& extent <= 0x100_0000 ==> last == extent
            &&& extent > 0x100_0000 ==> last >= 0x100_0000
        }),
{
    let top = Value::from_nat(extent as nat);
    let u = one() as int;
    vstd::arithmetic::power2::lemma_pow2_pos(149);
    if extent <= 0x100_0000 {
        crate::float::lemma_from_nat_exact(extent as nat);
    } else {
        crate::float::lemma_from_nat_large(extent as nat);
    }
    let m = top->Finite_magnitude as int;
    assert(top == Value::Finite { negative: false, magnitude: m as nat }) by {
        assert(extent as int * u >= 0) by (nonlinear_arith)
            requires
                u > 0,
                extent >= 0,
        ;
    }
    let t = m / u;
    vstd::arithmetic::div_mod::lemma_fundamental_div_mod(m, u);
    assert(m == u * t + m % u);
    assert(t >= 0) by (nonlinear_arith)
        requires
            m == u * t + m % u,
            m % u < u,
            u > 0,
            m >= 0,
    ;
    assert(n < 0 ==> n * u < 0) by (nonlinear_arith)
        requires
            u > 0,
    ;
    assert(n >= 0 ==> n * u >= 0) by (nonlinear_arith)
        requires
            u > 0,
    ;
    assert((n * u <= m) == (n <= t)) by (nonlinear_arith)
        requires
            m == u * t + m % u,
            0 <= m % u < u,
            u > 0,
    ;
    if extent <= 0x100_0000 {
        vstd::arithmetic::div_mod::lemma_fundamental_div_mod_converse(m, u, extent as int, 0);
    } else {
        assert(t >= 0x100_0000) by (nonlinear_arith)
            requires
                m == u * t + m % u,
                m % u < u,
                u > 0,
                m >= 0x100_0000 * u,
        ;
    }
    if n >= 0 && n * u <= m {
        vstd::arithmetic::div_mod::lemma_fundamental_div_mod_converse(n * u, u, n, 0);
    }
}

/// The reach of corners and borders is not negative.
proof fn lemma_largest(values: Seq<Float32>)
    requires
        all_finite(values),
    ensures
        largest(values) is Finite,
        largest(values).units() >= 0,
    decreases values.len(),
{
    if values.len() > 0 {
        let rest = values.drop_last();
        assert forall|i: int| 0 <= i < rest.len() implies (#[trigger] rest[i])@.is_finite() by {
            assert(values[i]@.is_finite());
        }
        lemma_largest(rest);
        assert(values[values.len() - 1]@.is_finite());
    }
}

proof fn lemma_inset(quad: Quad)
    requires
        quad.may_have_interior(),
    ensures
        quad.inset() is Finite ==> quad.inset().units() >= 0,
        quad.inset() is Finite || quad.inset() == (Value::Infinite { negative: false }),
{
    lemma_largest(quad.reaches());
    reveal(Quad::inset);
    reveal(Value::plus);
}

/// The far edge of a quad with coordinates in the limit.
proof fn lemma_far_edge(origin: Float32, extent: Float32)
    requires
        origin@.is_finite(),
        extent@.is_finite(),
        !Value::whole(false, COORDINATE_LIMIT as int).less(origin@.absolute()),
        !Value::whole(false, COORDINATE_LIMIT as int).less(extent@.absolute()),
    ensures
        origin@.plus(extent@) is Finite,
        origin@.plus(extent@).bounded_above(pow2(170) as int),
{
    vstd::arithmetic::power2::lemma2_to64();
    crate::float::lemma_pow2_add(20, 149);
    crate::float::lemma_pow2_add(21, 149);
    crate::float::lemma_pow2_below(171, 277);
    vstd::arithmetic::power2::lemma_pow2_unfold(171);
    vstd::arithmetic::power2::lemma_pow2_pos(149);
    crate::float::lemma_plus_bounded(origin@, extent@, 170);
    crate::float::lemma_plus_bounded(origin@.negated(), extent@.negated(), 170);
    reveal(Value::plus);
}

proof fn lemma_interior_in_axis(
    start: Value,
    end: Value,
    extent: u32,
)
    requires
        start is Finite,
        end is Finite,
        end.units() <= pow2(170),
        distance(first_pixel(start, extent), end_pixel(end, extent)) > 0,
    ensures
        first_pixel(start, extent) < end_pixel(end, extent) <= extent,
        start.units() <= first_pixel(start, extent) * one(),
        end_pixel(end, extent) * one() <= end.units(),
{
    reveal(first_pixel);
    reveal(end_pixel);
    crate::float::lemma_floor_ceil_enclose(start);
    crate::float::lemma_floor_ceil_enclose(end);
    lemma_pixel(start.ceiled(), start.ceil_int(), extent);
    lemma_pixel(end.floored(), end.floor_int(), extent);
    vstd::arithmetic::power2::lemma2_to64();
    crate::float::lemma_pow2_add(21, 149);
    vstd::arithmetic::power2::lemma_pow2_pos(149);
    let u = one() as int;
    let n1 = start.ceil_int();
    let n2 = end.floor_int();
    assert(n2 <= 0x20_0000) by (nonlinear_arith)
        requires
            n2 * u <= 0x20_0000 * u,
            u > 0,
    ;
    let p1 = first_pixel(start, extent) as int;
    let p2 = end_pixel(end, extent) as int;
    assert(p1 >= n1);
    assert(p2 <= n2);
    assert(n1 * u <= p1 * u) by (nonlinear_arith)
        requires
            n1 <= p1,
            u > 0,
    ;
    assert(p2 * u <= n2 * u) by (nonlinear_arith)
        requires
            p2 <= n2,
            u > 0,
    ;
}

/// An interior is a part of the viewport with at least the minimal number of
/// pixels.
pub proof fn law_interior_in_viewport(quad: Quad, viewport: Seq<u32>)
    requires
        viewport.len() == 2,
        quad.interior(viewport) is Some,
    ensures
        ({
            let r = quad.interior(viewport)->0;
            &&& r.len() == 4
            &&& r[0] + r[2] <= viewport[0]
            &&& r[1] + r[3] <= viewport[1]
            &&& r[2] > 0 && r[3] > 0
            &&& area(r) >= MIN_INTERIOR_PIXELS
        }),
{
    reveal(Quad::interior);
    law_interior_is_plain(quad, viewport);
}

/// An interior keeps clear of everything that is not plain color: it lies
/// between the inner edges that corners, borders, fades and the clip rectangle
/// leave.
pub proof fn law_interior_is_plain(quad: Quad, viewport: Seq<u32>)
    requires
        viewport.len() == 2,
        quad.interior(viewport) is Some,
    ensures
        ({
            let r = quad.interior(viewport)->0;
            &&& r.len() == 4
            &&& r[2] > 0 && r[3] > 0
            &&& r[0] + r[2] <= viewport[0]
            &&& r[1] + r[3] <= viewport[1]
            &&& quad.interior_left().units() <= r[0] * one()
            &&& quad.interior_top().units() <= r[1] * one()
            &&& (r[0] + r[2]) * one() <= quad.interior_right().units()
            &&& (r[1] + r[3]) * one() <= quad.interior_bottom().units()
        }),
{
    reveal(Quad::interior);
    reveal(Quad::interior_right);
    reveal(Quad::interior_bottom);
    let r = quad.interior(viewport)->0;
    let bounds = quad.bounds;
    let placement = quad.placement();
    lemma_inset(quad);
    assert(placement[0] == bounds.origin.x.0 && placement[1] == bounds.origin.y.0);
    assert(placement[2] == bounds.size.width.0 && placement[3] == bounds.size.height.0);
    lemma_far_edge(bounds.origin.x.0, bounds.size.width.0);
    lemma_far_edge(bounds.origin.y.0, bounds.size.height.0);
    let mask = quad.content_mask.bounds;
    lemma_interior_end_bounded(
        bounds.origin.x.0@.plus(bounds.size.width.0@),
        quad.inset(),
        quad.fade.right_x@,
        quad.fade.band_right@,
        mask.origin.x.0@.plus(mask.size.width.0@),
    );
    lemma_interior_end_bounded(
        bounds.origin.y.0@.plus(bounds.size.height.0@),
        quad.inset(),
        quad.fade.bottom_y@,
        quad.fade.band_bottom@,
        mask.origin.y.0@.plus(mask.size.height.0@),
    );
    assert(r[2] > 0 && r[3] > 0) by (nonlinear_arith)
        requires
            r[2] * r[3] >= MIN_INTERIOR_PIXELS,
            r[2] >= 0,
            r[3] >= 0,
    ;
    lemma_interior_in_axis(quad.interior_left(), quad.interior_right(), viewport[0]);
    lemma_interior_in_axis(quad.interior_top(), quad.interior_bottom(), viewport[1]);
}

/// The cheap shaders exclude each other: an opaque quad is a simple one, and
/// only a quad that is not simple has an interior.
pub proof fn law_quad_kinds(quad: Quad, viewport: Seq<u32>)
    ensures
        quad.unclipped_opaque() ==> quad.simple_solid(),
        quad.kind() is Opaque == quad.unclipped_opaque(),
        quad.kind() is General == !quad.simple_solid(),
        quad.interior(viewport) is Some ==> quad.kind() is General,
{
    reveal(Quad::interior);
    reveal(Quad::kind);
}

} // verus!
