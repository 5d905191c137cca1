use vstd::prelude::*;

use crate::math::matrix::lemma_mul_bound;
use crate::math::vector::Vector;
use vstd::arithmetic::mul::{lemma_mul_basics_1, lemma_mul_basics_2, lemma_mul_is_associative, lemma_mul_is_commutative, lemma_mul_is_distributive_add_other_way};

verus! {

/// Coordinate bound under which the barycentric numerators cannot overflow.
pub const BARY_LIMIT: i64 = 500_000_000;

/// Twice the signed area of the triangle (a, b, c): the common denominator
/// of its barycentric coordinates.
pub open spec fn spec_bary_den(ax: int, ay: int, bx: int, by: int, cx: int, cy: int) -> int {
    (bx - ax) * (cy - ay) - (cx - ax) * (by - ay)
}

/// Numerator of the barycentric coordinate attached to vertex b for point p.
pub open spec fn spec_bary_n1(
    ax: int,
    ay: int,
    bx: int,
    by: int,
    cx: int,
    cy: int,
    px: int,
    py: int,
) -> int {
    (px - ax) * (cy - ay) - (cx - ax) * (py - ay)
}

/// Numerator of the barycentric coordinate attached to vertex c for point p.
pub open spec fn spec_bary_n2(
    ax: int,
    ay: int,
    bx: int,
    by: int,
    cx: int,
    cy: int,
    px: int,
    py: int,
) -> int {
    (bx - ax) * (py - ay) - (px - ax) * (by - ay)
}

impl Vector<2> {
    /// Both coordinates lie within the barycentric overflow bound.
    pub open spec fn bary_bounded(&self) -> bool {
        &&& -BARY_LIMIT <= self.at(0) <= BARY_LIMIT
        &&& -BARY_LIMIT <= self.at(1) <= BARY_LIMIT
    }
}

/// The barycentric coordinates of `point` with respect to `triangle`, as the
/// exact integer numerators over the signed-area denominator: coordinate k of
/// the point is numerator k divided by the denominator.  The three numerators
/// sum to the denominator, so the coordinates sum to one.
pub fn barycentric_coordinates(triangle: &[Vector<2>; 3], point: &Vector<2>) -> (r: (
    Vector<3>,
    i64,
))
    requires
        triangle[0].wf(),
        triangle[1].wf(),
        triangle[2].wf(),
        point.wf(),
        triangle[0].bary_bounded(),
        triangle[1].bary_bounded(),
        triangle[2].bary_bounded(),
        point.bary_bounded(),
    ensures
        r.0.wf(),
        r.1 == spec_bary_den(
            triangle[0].at(0) as int,
            triangle[0].at(1) as int,
            triangle[1].at(0) as int,
            triangle[1].at(1) as int,
            triangle[2].at(0) as int,
            triangle[2].at(1) as int,
        ),
        r.0.at(1) == spec_bary_n1(
            triangle[0].at(0) as int,
            triangle[0].at(1) as int,
            triangle[1].at(0) as int,
            triangle[1].at(1) as int,
            triangle[2].at(0) as int,
            triangle[2].at(1) as int,
            point.at(0) as int,
            point.at(1) as int,
        ),
        r.0.at(2) == spec_bary_n2(
            triangle[0].at(0) as int,
            triangle[0].at(1) as int,
            triangle[1].at(0) as int,
            triangle[1].at(1) as int,
            triangle[2].at(0) as int,
            triangle[2].at(1) as int,
            point.at(0) as int,
            point.at(1) as int,
        ),
        r.0.at(0) + r.0.at(1) + r.0.at(2) == r.1,
{
    let ax = triangle[0].get(0);
    let ay = triangle[0].get(1);
    let bx = triangle[1].get(0);
    let by = triangle[1].get(1);
    let cx = triangle[2].get(0);
    let cy = triangle[2].get(1);
    let px = point.get(0);
    let py = point.get(1);
    proof {
        let lim2 = 2 * BARY_LIMIT as int;
        lemma_mul_bound(bx - ax, cy - ay, lim2, lim2);
        lemma_mul_bound(cx - ax, by - ay, lim2, lim2);
        lemma_mul_bound(px - ax, cy - ay, lim2, lim2);
        lemma_mul_bound(cx - ax, py - ay, lim2, lim2);
        lemma_mul_bound(bx - ax, py - ay, lim2, lim2);
        lemma_mul_bound(px - ax, by - ay, lim2, lim2);
    }
    let den = (bx - ax) * (cy - ay) - (cx - ax) * (by - ay);
    let n1 = (px - ax) * (cy - ay) - (cx - ax) * (py - ay);
    let n2 = (bx - ax) * (py - ay) - (px - ax) * (by - ay);
    let n0 = den - n1 - n2;
    let mut nums: Vec<i64> = Vec::new();
    nums.push(n0);
    nums.push(n1);
    nums.push(n2);
    (Vector { data: nums }, den)
}

/// At the triangle's own vertices the barycentric numerators are exactly the
/// denominator times the standard basis vectors: vertex a has numerators
/// (den, 0, 0), vertex b has (0, den, 0), and vertex c has (0, 0, den).
pub proof fn lemma_barycentric_vertices(ax: int, ay: int, bx: int, by: int, cx: int, cy: int)
    ensures
        spec_bary_n1(ax, ay, bx, by, cx, cy, ax, ay) == 0,
        spec_bary_n2(ax, ay, bx, by, cx, cy, ax, ay) == 0,
        spec_bary_n1(ax, ay, bx, by, cx, cy, bx, by) == spec_bary_den(ax, ay, bx, by, cx, cy),
        spec_bary_n2(ax, ay, bx, by, cx, cy, bx, by) == 0,
        spec_bary_n1(ax, ay, bx, by, cx, cy, cx, cy) == 0,
        spec_bary_n2(ax, ay, bx, by, cx, cy, cx, cy) == spec_bary_den(ax, ay, bx, by, cx, cy),
{
    lemma_mul_basics_1(cy - ay);
    lemma_mul_basics_1(by - ay);
    lemma_mul_basics_2(cx - ax);
    lemma_mul_basics_2(bx - ax);
    assert((ax - ax) * (cy - ay) == 0 * (cy - ay));
    assert((cx - ax) * (ay - ay) == (cx - ax) * 0);
    assert((bx - ax) * (ay - ay) == (bx - ax) * 0);
    assert((ax - ax) * (by - ay) == 0 * (by - ay));
}

/// At the centroid -- any point p with 3 p == a + b + c componentwise -- all
/// three barycentric numerators are one third of the denominator, so the
/// coordinates are (1/3, 1/3, 1/3).
pub proof fn lemma_barycentric_centroid(
    ax: int,
    ay: int,
    bx: int,
    by: int,
    cx: int,
    cy: int,
    px: int,
    py: int,
)
    requires
        3 * px == ax + bx + cx,
        3 * py == ay + by + cy,
    ensures
        3 * spec_bary_n1(ax, ay, bx, by, cx, cy, px, py) == spec_bary_den(ax, ay, bx, by, cx, cy),
        3 * spec_bary_n2(ax, ay, bx, by, cx, cy, px, py) == spec_bary_den(ax, ay, bx, by, cx, cy),
        3 * (spec_bary_den(ax, ay, bx, by, cx, cy) - spec_bary_n1(ax, ay, bx, by, cx, cy, px, py)
            - spec_bary_n2(ax, ay, bx, by, cx, cy, px, py)) == spec_bary_den(
            ax,
            ay,
            bx,
            by,
            cx,
            cy,
        ),
{
    let u = cx - ax;
    let v = cy - ay;
    let s = bx - ax;
    let t = by - ay;
    let w = px - ax;
    let z = py - ay;
    assert(3 * (w * v) == (bx - ax) * v + (cx - ax) * v) by {
        lemma_mul_is_distributive_add_other_way(v, bx - ax, cx - ax);
        lemma_mul_is_associative(3, w, v);
        assert(((bx - ax) + (cx - ax)) * v == (3 * w) * v);
    }
    assert(3 * (u * z) == u * (by - ay) + u * (cy - ay)) by {
        lemma_mul_is_commutative(u, z);
        lemma_mul_is_associative(3, z, u);
        lemma_mul_is_distributive_add_other_way(u, by - ay, cy - ay);
        assert(((by - ay) + (cy - ay)) * u == (3 * z) * u);
        lemma_mul_is_commutative(u, by - ay);
        lemma_mul_is_commutative(u, cy - ay);
    }
    assert(3 * (s * z) == s * (by - ay) + s * (cy - ay)) by {
        lemma_mul_is_commutative(s, z);
        lemma_mul_is_associative(3, z, s);
        lemma_mul_is_distributive_add_other_way(s, by - ay, cy - ay);
        assert(((by - ay) + (cy - ay)) * s == (3 * z) * s);
        lemma_mul_is_commutative(s, by - ay);
        lemma_mul_is_commutative(s, cy - ay);
    }
    assert(3 * (w * t) == (bx - ax) * t + (cx - ax) * t) by {
        lemma_mul_is_distributive_add_other_way(t, bx - ax, cx - ax);
        lemma_mul_is_associative(3, w, t);
        assert(((bx - ax) + (cx - ax)) * t == (3 * w) * t);
    }
    assert((cx - ax) * (by - ay) == (by - ay) * (cx - ax)) by {
        lemma_mul_is_commutative(cx - ax, by - ay);
    }
    assert((bx - ax) * (cy - ay) == (cy - ay) * (bx - ax)) by {
        lemma_mul_is_commutative(bx - ax, cy - ay);
    }
}

} // verus!
