use vstd::prelude::*;

verus! {

/// A point on the integer grid of the simulation plane.
#[derive(Clone, Copy, Debug, PartialEq, Eq, Structural)]
pub struct Point {
    pub x: i16,
    pub y: i16,
}

impl Point {
    pub fn new(x: i16, y: i16) -> (r: Point)
        ensures
            r.x == x,
            r.y == y,
    {
        Point { x, y }
    }
}

pub open spec fn min_i(a: int, b: int) -> int {
    if a <= b {
        a
    } else {
        b
    }
}

pub open spec fn max_i(a: int, b: int) -> int {
    if a >= b {
        a
    } else {
        b
    }
}

fn min_i16(a: i16, b: i16) -> (r: i16)
    ensures
        r == min_i(a as int, b as int),
{
    if a <= b {
        a
    } else {
        b
    }
}

fn max_i16(a: i16, b: i16) -> (r: i16)
    ensures
        r == max_i(a as int, b as int),
{
    if a >= b {
        a
    } else {
        b
    }
}

/// An axis-aligned box given by its lower (`mins`) and upper (`maxs`) corners.
///
/// The empty box (see `default`) has its lower corner at the largest coordinate
/// and its upper corner at the smallest, so that it is the identity of `union`.
#[derive(Clone, Copy, Debug, PartialEq, Eq, Structural)]
pub struct Aabb {
    pub mins: Point,
    pub maxs: Point,
}

/// The box holds at least one point: its corners are ordered on both axes.
pub open spec fn box_ok(b: Aabb) -> bool {
    b.mins.x <= b.maxs.x && b.mins.y <= b.maxs.y
}

pub open spec fn union_spec(a: Aabb, b: Aabb) -> Aabb {
    Aabb {
        mins: Point {
            x: min_i(a.mins.x as int, b.mins.x as int) as i16,
            y: min_i(a.mins.y as int, b.mins.y as int) as i16,
        },
        maxs: Point {
            x: max_i(a.maxs.x as int, b.maxs.x as int) as i16,
            y: max_i(a.maxs.y as int, b.maxs.y as int) as i16,
        },
    }
}

pub open spec fn point_box(p: Point) -> Aabb {
    Aabb { mins: p, maxs: p }
}

/// Every point of `inner` lies in `outer` (trivially so when `inner` is empty
/// in the sense of the sentinel corners).
pub open spec fn covers(outer: Aabb, inner: Aabb) -> bool {
    outer.mins.x <= inner.mins.x && outer.mins.y <= inner.mins.y && inner.maxs.x <= outer.maxs.x
        && inner.maxs.y <= outer.maxs.y
}

pub open spec fn width(b: Aabb) -> int {
    b.maxs.x - b.mins.x
}

pub open spec fn height(b: Aabb) -> int {
    b.maxs.y - b.mins.y
}

pub open spec fn area_spec(b: Aabb) -> int {
    width(b) * height(b)
}

/// The empty box: its lower corner at the largest coordinates and its upper
/// corner at the smallest.
pub open spec fn empty_box() -> Aabb {
    Aabb { mins: Point { x: i16::MAX, y: i16::MAX }, maxs: Point { x: i16::MIN, y: i16::MIN } }
}

/// The box moved by `(dx, dy)`.
pub open spec fn shifted(b: Aabb, dx: int, dy: int) -> Aabb {
    Aabb {
        mins: Point { x: (b.mins.x + dx) as i16, y: (b.mins.y + dy) as i16 },
        maxs: Point { x: (b.maxs.x + dx) as i16, y: (b.maxs.y + dy) as i16 },
    }
}

/// The corners of `b` moved by `(dx, dy)` stay within `i16`.
pub open spec fn shift_fits(b: Aabb, dx: int, dy: int) -> bool {
    i16::MIN <= b.mins.x + dx <= i16::MAX && i16::MIN <= b.mins.y + dy <= i16::MAX
        && i16::MIN <= b.maxs.x + dx <= i16::MAX && i16::MIN <= b.maxs.y + dy <= i16::MAX
}

impl Aabb {
    pub fn new(mins: Point, maxs: Point) -> (r: Aabb)
        ensures
            r.mins == mins,
            r.maxs == maxs,
    {
        Aabb { mins, maxs }
    }

    /// The smallest box holding both boxes.
    pub fn union(&self, other: &Aabb) -> (r: Aabb)
        ensures
            r == union_spec(*self, *other),
    {
        Aabb {
            mins: Point {
                x: min_i16(self.mins.x, other.mins.x),
                y: min_i16(self.mins.y, other.mins.y),
            },
            maxs: Point {
                x: max_i16(self.maxs.x, other.maxs.x),
                y: max_i16(self.maxs.y, other.maxs.y),
            },
        }
    }

    /// The smallest box holding this box and `point`.
    pub fn extend(&self, point: Point) -> (r: Aabb)
        ensures
            r == union_spec(*self, point_box(point)),
    {
        Aabb {
            mins: Point { x: min_i16(self.mins.x, point.x), y: min_i16(self.mins.y, point.y) },
            maxs: Point { x: max_i16(self.maxs.x, point.x), y: max_i16(self.maxs.y, point.y) },
        }
    }

    /// Width times height; only meaningful for a box that holds a point.
    pub fn area(&self) -> (r: u64)
        requires
            box_ok(*self),
        ensures
            r == area_spec(*self),
    {
        let w = (self.maxs.x as i64 - self.mins.x as i64) as u64;
        let h = (self.maxs.y as i64 - self.mins.y as i64) as u64;
        assert(w * h <= 0xffff_ffff * 0xffff_ffffu64) by (nonlinear_arith)
            requires
                w <= 0xffff_ffff,
                h <= 0xffff_ffff,
        ;
        w * h
    }

    /// The larger of the two side lengths.
    pub fn max_side(&self) -> (r: u64)
        requires
            box_ok(*self),
        ensures
            r == max_i(width(*self), height(*self)),
    {
        let w = (self.maxs.x as i64 - self.mins.x as i64) as u64;
        let h = (self.maxs.y as i64 - self.mins.y as i64) as u64;
        if w >= h {
            w
        } else {
            h
        }
    }

    /// The box moved by `offset`.
    pub fn add(self, offset: Point) -> (r: Aabb)
        requires
            shift_fits(self, offset.x as int, offset.y as int),
        ensures
            r == shifted(self, offset.x as int, offset.y as int),
    {
        Aabb {
            mins: Point { x: self.mins.x + offset.x, y: self.mins.y + offset.y },
            maxs: Point { x: self.maxs.x + offset.x, y: self.maxs.y + offset.y },
        }
    }

    /// The box moved by the opposite of `offset`.
    pub fn sub(self, offset: Point) -> (r: Aabb)
        requires
            shift_fits(self, -offset.x, -offset.y),
        ensures
            r == shifted(self, -offset.x, -offset.y),
    {
        Aabb {
            mins: Point { x: self.mins.x - offset.x, y: self.mins.y - offset.y },
            maxs: Point { x: self.maxs.x - offset.x, y: self.maxs.y - offset.y },
        }
    }

    /// Moves the box by `offset` in place.
    pub fn add_assign(&mut self, offset: Point)
        requires
            shift_fits(*old(self), offset.x as int, offset.y as int),
        ensures
            *final(self) == shifted(*old(self), offset.x as int, offset.y as int),
    {
        *self = self.add(offset);
    }

    /// Moves the box by the opposite of `offset` in place.
    pub fn sub_assign(&mut self, offset: Point)
        requires
            shift_fits(*old(self), -offset.x, -offset.y),
        ensures
            *final(self) == shifted(*old(self), -offset.x, -offset.y),
    {
        *self = self.sub(offset);
    }
}

impl Default for Aabb {
    /// The empty box: the identity of `union`.
    fn default() -> (r: Aabb)
        ensures
            r == empty_box(),
    {
        Aabb { mins: Point { x: i16::MAX, y: i16::MAX }, maxs: Point { x: i16::MIN, y: i16::MIN } }
    }
}

/// Union of boxes is commutative, and the union covers both operands.
pub proof fn lemma_union_commutes_and_covers(a: Aabb, b: Aabb)
    ensures
        union_spec(a, b) == union_spec(b, a),
        covers(union_spec(a, b), a),
        covers(union_spec(a, b), b),
{
}

/// Union of boxes is associative.
pub proof fn lemma_union_associative(a: Aabb, b: Aabb, c: Aabb)
    ensures
        union_spec(union_spec(a, b), c) == union_spec(a, union_spec(b, c)),
{
}

/// The empty box is the identity of union.
pub proof fn lemma_union_identity(b: Aabb)
    ensures
        union_spec(empty_box(), b) == b,
{
}

/// A union with a box that holds a point holds a point.
pub proof fn lemma_union_ok(a: Aabb, b: Aabb)
    requires
        box_ok(a),
    ensures
        box_ok(union_spec(a, b)),
{
}

} // verus!
