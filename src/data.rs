use vstd::prelude::*;
use vstd::arithmetic::div_mod::{lemma_fundamental_div_mod, lemma_mod_bound};
use crate::aabb::{Aabb, Point, box_ok, union_spec, point_box, lemma_union_ok};

verus! {

/// Bound on the magnitude of a body's center of mass on either axis: a grid
/// position plus a grid offset.
pub const COORD_BOUND: i128 = 0x1_0000;

/// The summary of a set of bodies: the box around their positions, their
/// total mass, and their first moments of mass (the mass-weighted sums of
/// their centers of mass) on each axis.
///
/// The center of mass is `moment / mass` on each axis; it is kept as a
/// moment so that merging summaries is exact.
#[derive(Clone, Copy, Debug, PartialEq, Eq, Structural)]
pub struct BvhData {
    pub bounds: Aabb,
    pub mass: u32,
    pub moment_x: i128,
    pub moment_y: i128,
}

/// The moments describe centers within `COORD_BOUND` of the origin.
pub open spec fn moments_bounded(d: BvhData) -> bool {
    -(d.mass * COORD_BOUND) <= d.moment_x <= d.mass * COORD_BOUND
        && -(d.mass * COORD_BOUND) <= d.moment_y <= d.mass * COORD_BOUND
}

/// A summary of at least one body.
pub open spec fn data_ok(d: BvhData) -> bool {
    d.mass > 0 && box_ok(d.bounds) && moments_bounded(d)
}

/// The summary of the union of two disjoint sets of bodies.
pub open spec fn data_union(a: BvhData, b: BvhData) -> BvhData {
    BvhData {
        bounds: union_spec(a.bounds, b.bounds),
        mass: (a.mass + b.mass) as u32,
        moment_x: (a.moment_x + b.moment_x) as i128,
        moment_y: (a.moment_y + b.moment_y) as i128,
    }
}

/// The summary of one body of mass `mass` at `position`, whose center of mass
/// is `(cx, cy)`.
pub open spec fn leaf_data(position: Point, mass: u32, cx: int, cy: int) -> BvhData {
    BvhData {
        bounds: point_box(position),
        mass,
        moment_x: (mass * cx) as i128,
        moment_y: (mass * cy) as i128,
    }
}

/// The center of mass on the x axis, rounded down to the grid.
pub open spec fn center_x(d: BvhData) -> int {
    (d.moment_x as int) / (d.mass as int)
}

/// The center of mass on the y axis, rounded down to the grid.
pub open spec fn center_y(d: BvhData) -> int {
    (d.moment_y as int) / (d.mass as int)
}

/// The x distance from the center of mass of `from` to that of `to`, scaled
/// by the product of their masses (exact, unlike `center_x`).
pub open spec fn scaled_offset_x(from: BvhData, to: BvhData) -> int {
    to.moment_x * from.mass - from.moment_x * to.mass
}

/// The y counterpart of `scaled_offset_x`.
pub open spec fn scaled_offset_y(from: BvhData, to: BvhData) -> int {
    to.moment_y * from.mass - from.moment_y * to.mass
}

proof fn lemma_floor_div_bounded(m: int, d: int, b: int)
    requires
        d > 0,
        b >= 0,
        -(d * b) <= m <= d * b,
    ensures
        -b <= m / d <= b,
{
    lemma_fundamental_div_mod(m, d);
    lemma_mod_bound(m, d);
    let q = m / d;
    let r = m % d;
    assert(-b <= q <= b) by (nonlinear_arith)
        requires
            m == d * q + r,
            0 <= r < d,
            -(d * b) <= m <= d * b,
            d > 0,
    ;
}

proof fn lemma_union_bounded(a: BvhData, b: BvhData)
    requires
        moments_bounded(a),
        moments_bounded(b),
        a.mass + b.mass <= u32::MAX,
    ensures
        moments_bounded(data_union(a, b)),
{
    assert((a.mass + b.mass) * COORD_BOUND == a.mass * COORD_BOUND + b.mass * COORD_BOUND)
        by (nonlinear_arith);
}

impl BvhData {
    /// The summary of one body at `position` of mass `mass`, whose center of
    /// mass lies at `position + local_center_of_mass`.
    pub fn for_body(position: Point, mass: u32, local_center_of_mass: Point) -> (r: BvhData)
        requires
            mass > 0,
        ensures
            r == leaf_data(
                position,
                mass,
                position.x + local_center_of_mass.x,
                position.y + local_center_of_mass.y,
            ),
            data_ok(r),
    {
        let cx = position.x as i128 + local_center_of_mass.x as i128;
        let cy = position.y as i128 + local_center_of_mass.y as i128;
        assert(-(mass * COORD_BOUND) <= mass * cx <= mass * COORD_BOUND) by (nonlinear_arith)
            requires
                -COORD_BOUND <= cx <= COORD_BOUND,
                mass > 0,
        ;
        assert(-(mass * COORD_BOUND) <= mass * cy <= mass * COORD_BOUND) by (nonlinear_arith)
            requires
                -COORD_BOUND <= cy <= COORD_BOUND,
                mass > 0,
        ;
        assert(mass * COORD_BOUND <= 0x1_0000_0000_0000) by (nonlinear_arith)
            requires
                mass <= u32::MAX,
        ;
        BvhData {
            bounds: Aabb::new(position, position),
            mass,
            moment_x: mass as i128 * cx,
            moment_y: mass as i128 * cy,
        }
    }

    /// The summary of both sets of bodies: the union of the boxes, the sum of
    /// the masses and the sum of the moments.
    pub fn union(&self, other: &BvhData) -> (r: BvhData)
        requires
            moments_bounded(*self),
            moments_bounded(*other),
            self.mass + other.mass <= u32::MAX,
        ensures
            r == data_union(*self, *other),
            moments_bounded(r),
            data_ok(*self) ==> data_ok(r),
    {
        proof {
            lemma_union_bounded(*self, *other);
            if data_ok(*self) {
                lemma_union_ok(self.bounds, other.bounds);
            }
            assert(self.mass * COORD_BOUND <= 0x1_0000_0000_0000) by (nonlinear_arith)
                requires
                    self.mass <= u32::MAX,
            ;
            assert(other.mass * COORD_BOUND <= 0x1_0000_0000_0000)
                by (nonlinear_arith)
                requires
                    other.mass <= u32::MAX,
            ;
        }
        BvhData {
            bounds: self.bounds.union(&other.bounds),
            mass: self.mass + other.mass,
            moment_x: self.moment_x + other.moment_x,
            moment_y: self.moment_y + other.moment_y,
        }
    }

    /// The center of mass, rounded down to the grid on each axis.
    pub fn center_of_mass(&self) -> (r: (i64, i64))
        requires
            data_ok(*self),
        ensures
            r.0 == center_x(*self),
            r.1 == center_y(*self),
            -COORD_BOUND <= r.0 <= COORD_BOUND,
            -COORD_BOUND <= r.1 <= COORD_BOUND,
    {
        let m = self.mass as i128;
        proof {
            lemma_floor_div_bounded(self.moment_x as int, m as int, COORD_BOUND as int);
            lemma_floor_div_bounded(self.moment_y as int, m as int, COORD_BOUND as int);
        }
        let qx = match self.moment_x.checked_div_euclid(m) {
            Some(q) => q,
            None => 0,
        };
        let qy = match self.moment_y.checked_div_euclid(m) {
            Some(q) => q,
            None => 0,
        };
        (qx as i64, qy as i64)
    }
}

/// Merging two summaries adds their masses, and the merged center of mass
/// lies on the segment between the two centers, at the fraction
/// `b.mass / (a.mass + b.mass)` of the way from `a`'s center to `b`'s, which
/// puts it at least as close to the center of the heavier of the two.
pub proof fn lemma_union_mass_and_center(a: BvhData, b: BvhData)
    requires
        data_ok(a),
        data_ok(b),
        a.mass + b.mass <= u32::MAX,
    ensures
        data_union(a, b).mass == a.mass + b.mass,
        // center(u) - center(a) == (b.mass / u.mass) * (center(b) - center(a))
        scaled_offset_x(a, data_union(a, b)) == scaled_offset_x(a, b),
        scaled_offset_y(a, data_union(a, b)) == scaled_offset_y(a, b),
        // center(u) - center(b) == (a.mass / u.mass) * (center(a) - center(b))
        scaled_offset_x(b, data_union(a, b)) == scaled_offset_x(b, a),
        scaled_offset_y(b, data_union(a, b)) == scaled_offset_y(b, a),
        // |center(u) - center(a)| <= |center(u) - center(b)| when a is heavier
        a.mass >= b.mass ==> {
            let u = data_union(a, b);
            let da = scaled_offset_x(a, u) * scaled_offset_x(a, u) + scaled_offset_y(a, u)
                * scaled_offset_y(a, u);
            let db = scaled_offset_x(b, u) * scaled_offset_x(b, u) + scaled_offset_y(b, u)
                * scaled_offset_y(b, u);
            da * (b.mass * b.mass) <= db * (a.mass * a.mass)
        },
{
    lemma_union_bounded(a, b);
    let u = data_union(a, b);
    let (ma, mb) = (a.mass as int, b.mass as int);
    assert(u.moment_x == a.moment_x + b.moment_x);
    assert(u.moment_y == a.moment_y + b.moment_y);
    assert(scaled_offset_x(a, u) == scaled_offset_x(a, b)) by (nonlinear_arith)
        requires
            u.moment_x == a.moment_x + b.moment_x,
            u.mass == ma + mb,
            a.mass == ma,
            b.mass == mb,
    ;
    assert(scaled_offset_y(a, u) == scaled_offset_y(a, b)) by (nonlinear_arith)
        requires
            u.moment_y == a.moment_y + b.moment_y,
            u.mass == ma + mb,
            a.mass == ma,
            b.mass == mb,
    ;
    assert(scaled_offset_x(b, u) == scaled_offset_x(b, a)) by (nonlinear_arith)
        requires
            u.moment_x == a.moment_x + b.moment_x,
            u.mass == ma + mb,
            a.mass == ma,
            b.mass == mb,
    ;
    assert(scaled_offset_y(b, u) == scaled_offset_y(b, a)) by (nonlinear_arith)
        requires
            u.moment_y == a.moment_y + b.moment_y,
            u.mass == ma + mb,
            a.mass == ma,
            b.mass == mb,
    ;
    if ma >= mb {
        let x = scaled_offset_x(a, b);
        let y = scaled_offset_y(a, b);
        assert(scaled_offset_x(b, a) == -x);
        assert(scaled_offset_y(b, a) == -y);
        assert((x * x + y * y) * (mb * mb) <= ((-x) * (-x) + (-y) * (-y)) * (ma * ma))
            by (nonlinear_arith)
            requires
                ma >= mb,
                mb > 0,
        ;
    }
}

} // verus!
