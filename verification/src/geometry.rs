//! Lattice points, displacements and path sums.

use vstd::prelude::*;

verus! {

/// The largest step length and escape radius the engine accepts. A walker
/// inside the sphere has every coordinate within the radius, so one more
/// step keeps each coordinate in the range of `i64`.
pub const MAX_LENGTH: i64 = 0x3fff_ffff_ffff_ffff;

/// A point of the lattice with unbounded coordinates: the mathematical value
/// of a [`Vec3`].
pub struct Point {
    pub x: int,
    pub y: int,
    pub z: int,
}

impl Point {
    pub open spec fn origin() -> Point {
        Point { x: 0, y: 0, z: 0 }
    }

    /// Componentwise sum.
    pub open spec fn plus(self, other: Point) -> Point {
        Point { x: self.x + other.x, y: self.y + other.y, z: self.z + other.z }
    }

    /// The square of the Euclidean norm.
    pub open spec fn norm_sq(self) -> int {
        self.x * self.x + self.y * self.y + self.z * self.z
    }

    /// Whether the Euclidean norm exceeds `length`.
    pub open spec fn beyond(self, length: int) -> bool {
        length < 0 || self.norm_sq() > length * length
    }

    /// Whether every coordinate fits in an `i64`.
    pub open spec fn representable(self) -> bool {
        &&& i64::MIN <= self.x <= i64::MAX
        &&& i64::MIN <= self.y <= i64::MAX
        &&& i64::MIN <= self.z <= i64::MAX
    }
}

/// A point or a displacement in lattice units.
#[derive(Clone, Copy, Debug, PartialEq, Eq, Structural)]
pub struct Vec3 {
    pub x: i64,
    pub y: i64,
    pub z: i64,
}

impl View for Vec3 {
    type V = Point;

    open spec fn view(&self) -> Point {
        Point { x: self.x as int, y: self.y as int, z: self.z as int }
    }
}

/// The square of a 64-bit number, which always fits in 128 bits.
fn square(v: i64) -> (r: u128)
    ensures
        r == v * v,
        r <= 0x4000_0000_0000_0000_0000_0000_0000_0000,
{
    let w: i128 = v as i128;
    assert(0 <= w * w <= 0x4000_0000_0000_0000_0000_0000_0000_0000) by (nonlinear_arith)
        requires
            -0x8000_0000_0000_0000 <= w <= 0x7fff_ffff_ffff_ffff,
    ;
    (w * w) as u128
}

impl Vec3 {
    pub fn new(x: i64, y: i64, z: i64) -> (r: Vec3)
        ensures
            r == (Vec3 { x, y, z }),
    {
        Vec3 { x, y, z }
    }

    /// The centre of the sphere, where every walker starts.
    pub fn origin() -> (r: Vec3)
        ensures
            r@ == Point::origin(),
    {
        Vec3 { x: 0, y: 0, z: 0 }
    }

    /// The square of the Euclidean norm, computed exactly.
    pub fn norm_sq(&self) -> (r: u128)
        ensures
            r == self@.norm_sq(),
    {
        let xx: u128 = square(self.x);
        let yy: u128 = square(self.y);
        let zz: u128 = square(self.z);
        xx + yy + zz
    }

    /// Whether the Euclidean norm exceeds `length`, decided exactly on the
    /// squares.
    pub fn is_beyond(&self, length: i64) -> (r: bool)
        ensures
            r == self@.beyond(length as int),
    {
        if length < 0 {
            true
        } else {
            self.norm_sq() > square(length)
        }
    }

    /// The point reached from `self` by the displacement `step`.
    pub fn moved_by(&self, step: &Vec3) -> (r: Vec3)
        requires
            self@.plus(step@).representable(),
        ensures
            r@ == self@.plus(step@),
    {
        Vec3 { x: self.x + step.x, y: self.y + step.y, z: self.z + step.z }
    }
}

/// The mathematical value of a [`Segment`].
pub struct SegmentView {
    pub start: Point,
    pub end: Point,
}

/// The straight path of one completed macro-step.
#[derive(Clone, Copy, Debug, PartialEq, Eq, Structural)]
pub struct Segment {
    pub start: Vec3,
    pub end: Vec3,
}

impl View for Segment {
    type V = SegmentView;

    open spec fn view(&self) -> SegmentView {
        SegmentView { start: self.start@, end: self.end@ }
    }
}

/// The views of a sequence of segments, in the same order.
pub open spec fn segment_views(segments: Seq<Segment>) -> Seq<SegmentView> {
    Seq::new(segments.len(), |i: int| segments[i]@)
}

/// The sum of the first `n` displacements of `steps`.
pub open spec fn path_sum(steps: Seq<Vec3>, n: int) -> Point
    decreases n,
{
    if n <= 0 {
        Point::origin()
    } else {
        path_sum(steps, n - 1).plus(steps[n - 1]@)
    }
}

/// A point whose norm does not exceed `length` has every coordinate within
/// `length` of zero.
pub proof fn lemma_coordinates_within(p: Point, length: int)
    requires
        !p.beyond(length),
    ensures
        -length <= p.x <= length,
        -length <= p.y <= length,
        -length <= p.z <= length,
{
    assert(-length <= p.x <= length && -length <= p.y <= length && -length <= p.z <= length)
        by (nonlinear_arith)
        requires
            length >= 0,
            p.x * p.x + p.y * p.y + p.z * p.z <= length * length,
    ;
}

/// The first `k` displacements of a prefix are those of the whole sequence.
pub proof fn lemma_path_sum_take(steps: Seq<Vec3>, n: int, k: int)
    requires
        0 <= k <= n <= steps.len(),
    ensures
        path_sum(steps.take(n), k) == path_sum(steps, k),
    decreases k,
{
    if k > 0 {
        lemma_path_sum_take(steps, n, k - 1);
    }
}

/// A path sum splits at any point: the first `m` displacements, then `k` of
/// those that follow.
pub proof fn lemma_path_sum_skip(steps: Seq<Vec3>, m: int, k: int)
    requires
        0 <= m,
        0 <= k,
        m + k <= steps.len(),
    ensures
        path_sum(steps, m + k) == path_sum(steps, m).plus(path_sum(steps.skip(m), k)),
    decreases k,
{
    if k > 0 {
        lemma_path_sum_skip(steps, m, k - 1);
        assert(steps.skip(m)[k - 1] == steps[m + k - 1]);
    }
}

/// Path sums over a concatenation: within the first part they are its own,
/// and past it they continue with the second part.
pub proof fn lemma_path_sum_concat(first: Seq<Vec3>, second: Seq<Vec3>, k: int)
    requires
        0 <= k <= first.len() + second.len(),
    ensures
        k <= first.len() ==> path_sum(first + second, k) == path_sum(first, k),
        k >= first.len() ==> path_sum(first + second, k) == path_sum(first, first.len() as int).plus(
            path_sum(second, k - first.len()),
        ),
    decreases k,
{
    if k > 0 {
        lemma_path_sum_concat(first, second, k - 1);
        if k <= first.len() {
            assert((first + second)[k - 1] == first[k - 1]);
        } else {
            assert((first + second)[k - 1] == second[k - 1 - first.len()]);
        }
    }
}

} // verus!
