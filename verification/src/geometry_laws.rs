//! What rectangles have in common, and what is around them.
use crate::float::{
    lemma_pow2_add, lemma_pow2_below, lemma_sum_value, one, Float32, Value,
};
use crate::geometry::{Bounds, ScaledPixels};
use crate::rounding;
use vstd::arithmetic::power2::lemma_pow2_pos;
use vstd::prelude::*;

verus! {

/// Whether `x` is off from `exact` units by at most two to the power -24 of it.
pub open spec fn close_to(x: Value, exact: int) -> bool {
    let size = if exact < 0 {
        -exact
    } else {
        exact
    };
    x is Finite && -size <= 0x100_0000 * (x.units() - exact) <= size
}

/// Whether everything about a rectangle is finite and at most 2^30 away from
/// zero.
pub open spec fn bounded(r: Bounds<ScaledPixels>) -> bool {
    let limit = 0x4000_0000 * one();
    &&& r.origin.x.0@ is Finite && -limit <= r.origin.x.0@.units() <= limit
    &&& r.origin.y.0@ is Finite && -limit <= r.origin.y.0@.units() <= limit
    &&& r.size.width.0@ is Finite && -limit <= r.size.width.0@.units() <= limit
    &&& r.size.height.0@ is Finite && -limit <= r.size.height.0@.units() <= limit
}

/// The lesser of two numbers.
pub open spec fn least(a: int, b: int) -> int {
    if a < b {
        a
    } else {
        b
    }
}

/// The greater of two numbers.
pub open spec fn greatest(a: int, b: int) -> int {
    if a > b {
        a
    } else {
        b
    }
}

proof fn lemma_sum_bounded(a: Float32, b: Float32, n: int)
    requires
        a@ is Finite,
        b@ is Finite,
        0 <= n <= 0x2_0000_0000,
        -n * one() <= a@.units() <= n * one(),
        -n * one() <= b@.units() <= n * one(),
    ensures
        a.sum(b)@ == a@.plus(b@),
        close_to(a@.plus(b@), a@.units() + b@.units()),
        -(3 * n) * one() <= a@.plus(b@).units() <= 3 * n * one(),
        a.difference(b)@ == a@.minus(b@),
        close_to(a@.minus(b@), a@.units() - b@.units()),
        a@.units() - b@.units() >= 0 ==> a@.minus(b@).units() >= 0,
{
    lemma_pow2_pos(149);
    vstd::arithmetic::power2::lemma2_to64();
    lemma_pow2_add(40, 149);
    lemma_pow2_below(189, 276);
    vstd::arithmetic::power2::lemma2_to64_rest();
    let u = one() as int;
    let limit = n * u;
    assert(0 <= limit <= 0x2_0000_0000 * u) by (nonlinear_arith)
        requires
            limit == n * u,
            0 <= n <= 0x2_0000_0000,
            u > 0,
    ;
    assert(-n * u == -limit && 3 * n * u == 3 * limit && -(3 * n) * u == -(3 * limit))
        by (nonlinear_arith)
        requires
            limit == n * u,
    ;
    lemma_sum_value(a, b);
    crate::float::lemma_plus_error(a@, b@);
    crate::float::lemma_plus_error(a@, b@.negated());
    crate::float::lemma_difference_value(a, b);
}

spec fn in_limit(x: Float32) -> bool {
    x@ is Finite && -0x4000_0000 * one() <= x@.units() <= 0x4000_0000 * one()
}

proof fn lemma_common_axis(a: Float32, a_length: Float32, b: Float32, b_length: Float32)
    requires
        in_limit(a) && in_limit(a_length) && in_limit(b) && in_limit(b_length),
    ensures
        ({
            let near = a.maximum(b);
            let far = a.sum(a_length).minimum(b.sum(b_length)).maximum(near);
            let start = greatest(a@.units(), b@.units());
            let end = least(a@.plus(a_length@).units(), b@.plus(b_length@).units());
            &&& near@ is Finite && near@.units() == start
            &&& close_to(far.difference(near)@, greatest(end - start, 0))
            &&& far.difference(near)@.units() >= 0
        }),
{
    lemma_pow2_pos(149);
    lemma_sum_bounded(a, a_length, 0x4000_0000);
    lemma_sum_bounded(b, b_length, 0x4000_0000);
    let near = a.maximum(b);
    let far = a.sum(a_length).minimum(b.sum(b_length)).maximum(near);
    lemma_sum_bounded(far, near, 0xc000_0000);
}

proof fn lemma_hull_axis(a: Float32, a_length: Float32, b: Float32, b_length: Float32)
    requires
        in_limit(a) && in_limit(a_length) && in_limit(b) && in_limit(b_length),
    ensures
        ({
            let near = a.minimum(b);
            let far = a.sum(a_length).maximum(b.sum(b_length));
            let start = least(a@.units(), b@.units());
            let end = greatest(a@.plus(a_length@).units(), b@.plus(b_length@).units());
            &&& near@ is Finite && near@.units() == start
            &&& close_to(far.difference(near)@, end - start)
        }),
{
    lemma_pow2_pos(149);
    lemma_sum_bounded(a, a_length, 0x4000_0000);
    lemma_sum_bounded(b, b_length, 0x4000_0000);
    let near = a.minimum(b);
    let far = a.sum(a_length).maximum(b.sum(b_length));
    lemma_sum_bounded(far, near, 0xc000_0000);
}

/// What two rectangles have in common begins where the later of them begins, and
/// ends where the first of them ends; if that is not behind the beginning, it is
/// empty. Sizes are rounded once.
pub proof fn law_common_part(a: Bounds<ScaledPixels>, b: Bounds<ScaledPixels>)
    requires
        bounded(a),
        bounded(b),
    ensures
        ({
            let r = a.common_part(b);
            let left = greatest(a.origin.x.0@.units(), b.origin.x.0@.units());
            let top = greatest(a.origin.y.0@.units(), b.origin.y.0@.units());
            let right = least(
                a.origin.x.0@.plus(a.size.width.0@).units(),
                b.origin.x.0@.plus(b.size.width.0@).units(),
            );
            let bottom = least(
                a.origin.y.0@.plus(a.size.height.0@).units(),
                b.origin.y.0@.plus(b.size.height.0@).units(),
            );
            &&& r.origin.x.0@ is Finite && r.origin.x.0@.units() == left
            &&& r.origin.y.0@ is Finite && r.origin.y.0@.units() == top
            &&& close_to(r.size.width.0@, greatest(right - left, 0))
            &&& close_to(r.size.height.0@, greatest(bottom - top, 0))
            &&& r.size.width.0@.units() >= 0 && r.size.height.0@.units() >= 0
        }),
{
    reveal(Bounds::<_>::common_part);
    lemma_common_axis(a.origin.x.0, a.size.width.0, b.origin.x.0, b.size.width.0);
    lemma_common_axis(a.origin.y.0, a.size.height.0, b.origin.y.0, b.size.height.0);
}

/// What is around two rectangles begins where the first of them begins, and ends
/// where the last of them ends. Sizes are rounded once.
pub proof fn law_hull(a: Bounds<ScaledPixels>, b: Bounds<ScaledPixels>)
    requires
        bounded(a),
        bounded(b),
    ensures
        ({
            let r = a.hull(b);
            let left = least(a.origin.x.0@.units(), b.origin.x.0@.units());
            let top = least(a.origin.y.0@.units(), b.origin.y.0@.units());
            let right = greatest(
                a.origin.x.0@.plus(a.size.width.0@).units(),
                b.origin.x.0@.plus(b.size.width.0@).units(),
            );
            let bottom = greatest(
                a.origin.y.0@.plus(a.size.height.0@).units(),
                b.origin.y.0@.plus(b.size.height.0@).units(),
            );
            &&& r.origin.x.0@ is Finite && r.origin.x.0@.units() == left
            &&& r.origin.y.0@ is Finite && r.origin.y.0@.units() == top
            &&& close_to(r.size.width.0@, right - left)
            &&& close_to(r.size.height.0@, bottom - top)
        }),
{
    reveal(Bounds::<_>::hull);
    lemma_hull_axis(a.origin.x.0, a.size.width.0, b.origin.x.0, b.size.width.0);
    lemma_hull_axis(a.origin.y.0, a.size.height.0, b.origin.y.0, b.size.height.0);
}

/// Whether this is the whole number `n`.
pub open spec fn is_whole(x: Float32, n: int) -> bool {
    x@ is Finite && x@.units() == n * one()
}

/// Whether a rectangle has these whole edges: left, top, right and bottom.
pub open spec fn has_edges(
    r: Bounds<ScaledPixels>,
    left: int,
    top: int,
    right: int,
    bottom: int,
) -> bool {
    &&& is_whole(r.origin.x.0, left) && is_whole(r.origin.y.0, top)
    &&& is_whole(r.size.width.0, right - left) && is_whole(r.size.height.0, bottom - top)
}

/// Sums of whole numbers that a significand holds are exact.
proof fn lemma_whole_sum(a: Value, b: Value, n: int, m: int)
    requires
        a is Finite,
        b is Finite,
        a.units() == n * one(),
        b.units() == m * one(),
        -0x100_0000 < n + m < 0x100_0000,
    ensures
        a.plus(b) is Finite,
        a.plus(b).units() == (n + m) * one(),
{
    reveal(Value::plus);
    let u = one() as int;
    lemma_pow2_pos(149);
    vstd::arithmetic::power2::lemma2_to64();
    lemma_pow2_add(24, 149);
    lemma_pow2_below(173, 277);
    let k = n + m;
    let size = (if k < 0 {
        -k
    } else {
        k
    }) as nat;
    assert(k * u == n * u + m * u) by (nonlinear_arith)
        requires
            k == n + m,
    ;
    assert((-k) * u == -(k * u)) by (nonlinear_arith);
    assert(k < 0 ==> k * u < 0) by (nonlinear_arith)
        requires
            u > 0,
    ;
    assert(k >= 0 ==> k * u >= 0) by (nonlinear_arith)
        requires
            u > 0,
    ;
    assert(size * one() < 0x100_0000 * one()) by (nonlinear_arith)
        requires
            size < 0x100_0000,
            one() > 0,
    ;
    rounding::lemma_nearest_magnitude_exact(size, 149);
    assert(k == 0 ==> k * u == 0);
}

/// Rectangles with whole edges have just the pixels in common that lie in both,
/// and what is around them is the least such rectangle.
#[verifier::rlimit(40)]
pub proof fn law_whole_rectangles(
    a: Bounds<ScaledPixels>,
    b: Bounds<ScaledPixels>,
    a_edges: (int, int, int, int),
    b_edges: (int, int, int, int),
)
    requires
        has_edges(a, a_edges.0, a_edges.1, a_edges.2, a_edges.3),
        has_edges(b, b_edges.0, b_edges.1, b_edges.2, b_edges.3),
        -0x40_0000 <= a_edges.0 <= 0x40_0000 && -0x40_0000 <= a_edges.1 <= 0x40_0000,
        -0x40_0000 <= a_edges.2 <= 0x40_0000 && -0x40_0000 <= a_edges.3 <= 0x40_0000,
        -0x40_0000 <= b_edges.0 <= 0x40_0000 && -0x40_0000 <= b_edges.1 <= 0x40_0000,
        -0x40_0000 <= b_edges.2 <= 0x40_0000 && -0x40_0000 <= b_edges.3 <= 0x40_0000,
    ensures
        ({
            let left = greatest(a_edges.0, b_edges.0);
            let top = greatest(a_edges.1, b_edges.1);
            let right = greatest(least(a_edges.2, b_edges.2), left);
            let bottom = greatest(least(a_edges.3, b_edges.3), top);
            has_edges(a.common_part(b), left, top, right, bottom)
        }),
        has_edges(
            a.hull(b),
            least(a_edges.0, b_edges.0),
            least(a_edges.1, b_edges.1),
            greatest(a_edges.2, b_edges.2),
            greatest(a_edges.3, b_edges.3),
        ),
{
    reveal(Bounds::<_>::common_part);
    reveal(Bounds::<_>::hull);
    lemma_whole_corner(a, a_edges);
    lemma_whole_corner(b, b_edges);
    let (al, at, ar, ab) = a_edges;
    let (bl, bt, br, bb) = b_edges;
    lemma_whole_order(al, bl);
    lemma_whole_order(at, bt);
    lemma_whole_order(ar, br);
    lemma_whole_order(ab, bb);
    let left = greatest(al, bl);
    let top = greatest(at, bt);
    lemma_whole_order(least(ar, br), left);
    lemma_whole_order(least(ab, bb), top);
    let upper_left = a.origin.highest(b.origin);
    let lower_right = a.far_corner().lowest(b.far_corner()).highest(upper_left);
    let right = greatest(least(ar, br), left);
    let bottom = greatest(least(ab, bb), top);
    assert(is_whole(upper_left.x.0, left) && is_whole(upper_left.y.0, top));
    assert(is_whole(lower_right.x.0, right) && is_whole(lower_right.y.0, bottom));
    lemma_whole_difference(lower_right.x.0, upper_left.x.0, right, left);
    lemma_whole_difference(lower_right.y.0, upper_left.y.0, bottom, top);
    let outer = a.origin.lowest(b.origin);
    let far = a.far_corner().highest(b.far_corner());
    assert(is_whole(outer.x.0, least(al, bl)) && is_whole(outer.y.0, least(at, bt)));
    assert(is_whole(far.x.0, greatest(ar, br)) && is_whole(far.y.0, greatest(ab, bb)));
    lemma_whole_difference(far.x.0, outer.x.0, greatest(ar, br), least(al, bl));
    lemma_whole_difference(far.y.0, outer.y.0, greatest(ab, bb), least(at, bt));
}

proof fn lemma_whole_order(n: int, m: int)
    ensures
        (n * one() < m * one()) == (n < m),
        (n * one() == m * one()) == (n == m),
{
    lemma_pow2_pos(149);
    let u = one() as int;
    assert((n * u < m * u) == (n < m)) by (nonlinear_arith)
        requires
            u > 0,
    ;
    assert((n * u == m * u) == (n == m)) by (nonlinear_arith)
        requires
            u > 0,
    ;
}

proof fn lemma_whole_corner(r: Bounds<ScaledPixels>, edges: (int, int, int, int))
    requires
        has_edges(r, edges.0, edges.1, edges.2, edges.3),
        -0x40_0000 <= edges.2 <= 0x40_0000 && -0x40_0000 <= edges.3 <= 0x40_0000,
    ensures
        is_whole(r.far_corner().x.0, edges.2),
        is_whole(r.far_corner().y.0, edges.3),
{
    lemma_sum_value(r.origin.x.0, r.size.width.0);
    lemma_sum_value(r.origin.y.0, r.size.height.0);
    lemma_whole_sum(r.origin.x.0@, r.size.width.0@, edges.0, edges.2 - edges.0);
    lemma_whole_sum(r.origin.y.0@, r.size.height.0@, edges.1, edges.3 - edges.1);
}

proof fn lemma_whole_difference(a: Float32, b: Float32, n: int, m: int)
    requires
        is_whole(a, n),
        is_whole(b, m),
        -0x40_0000 <= n <= 0x40_0000,
        -0x40_0000 <= m <= 0x40_0000,
    ensures
        is_whole(a.difference(b), n - m),
{
    crate::float::lemma_difference_value(a, b);
    assert((-m) * one() == -(m * one())) by (nonlinear_arith);
    lemma_whole_sum(a@, b@.negated(), n, -m);
}

} // verus!
