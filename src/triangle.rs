use vstd::prelude::*;

verus! {

/// A triangle given by its three vertices, in winding order.
#[derive(Clone, Copy, Debug, PartialEq, Eq)]
pub struct Triangle<V> {
    pub vertices: [V; 3],
}

impl<V> Triangle<V> {
    /// The triangle `(a, b, c)`.
    pub open spec fn spec_new(a: V, b: V, c: V) -> Triangle<V> {
        Triangle { vertices: [a, b, c] }
    }
}

impl<V: Copy> Triangle<V> {
    /// The triangle `(a, b, c)`.
    pub fn new(a: V, b: V, c: V) -> (r: Triangle<V>)
        ensures
            r == Self::spec_new(a, b, c),
            r.vertices@ == seq![a, b, c],
    {
        Triangle { vertices: [a, b, c] }
    }
}

/// A plane through `point` with unit normal `normal`. A point `p` lies on its
/// positive side when `dot(normal, p - point) >= 0`.
#[derive(Clone, Copy, Debug, PartialEq, Eq)]
pub struct Plane<V> {
    pub point: V,
    pub normal: V,
}

/// What becomes of one triangle cut by a plane.
#[derive(Clone, Copy, Debug, PartialEq, Eq)]
pub enum TriangleSliceResult<V> {
    /// The triangle lies wholly on one side and is kept as it is.
    Single(Triangle<V>),
    /// The triangle straddles the plane: the small piece around the lonely
    /// vertex, then the two pieces on the other side.
    Split(Triangle<V>, Triangle<V>, Triangle<V>),
}

/// What the caller's kernels reported while one triangle was cut: the side of
/// each vertex (`true` for the positive side, distance `>= 0`) and the points
/// where the edges from the lonely vertex to the one before it (`first`) and
/// to the one after it (`second`) meet the plane. The cut points matter only for a triangle that straddles the plane.
#[derive(Clone, Copy, Debug, PartialEq, Eq)]
pub struct CutRecord<V> {
    pub sides: [bool; 3],
    pub first_cut: V,
    pub second_cut: V,
}

/// All three vertices lie on the same side.
pub open spec fn one_sided(s: [bool; 3]) -> bool {
    s[0] == s[1] && s[1] == s[2]
}

/// The vertex whose side differs from the other two.
pub open spec fn lonely_index(s: [bool; 3]) -> int {
    if s[0] == s[1] {
        2
    } else if s[0] == s[2] {
        1
    } else {
        0
    }
}

/// The vertex that precedes the lonely one, cyclically.
pub open spec fn first_index(lonely: int) -> int {
    (lonely + 2) % 3
}

/// The vertex that follows the lonely one, cyclically.
pub open spec fn second_index(lonely: int) -> int {
    (lonely + 1) % 3
}

/// Whether `side` reported `c.sides` for the vertices of `t`, and, for a
/// straddling triangle, whether `intersect` returned the two cut points of `c`.
pub open spec fn cut_observed<V, S: Fn(Plane<V>, V) -> bool, X: Fn(Plane<V>, V, V) -> V>(
    side: S,
    intersect: X,
    plane: Plane<V>,
    t: Triangle<V>,
    c: CutRecord<V>,
) -> bool {
    &&& side.ensures((plane, t.vertices[0],), c.sides[0])
    &&& side.ensures((plane, t.vertices[1],), c.sides[1])
    &&& side.ensures((plane, t.vertices[2],), c.sides[2])
    &&& !one_sided(c.sides) ==> {
        let l = lonely_index(c.sides);
        &&& intersect.ensures((plane, t.vertices[l], t.vertices[first_index(l)]), c.first_cut)
        &&& intersect.ensures((plane, t.vertices[l], t.vertices[second_index(l)]), c.second_cut)
    }
}

/// The pieces of `t` under the sides and cut points of `c`, and the side they
/// are routed by: the side of the whole triangle when it is one-sided, else the
/// side of the lonely vertex.
pub open spec fn spec_triangle_slice<V>(t: Triangle<V>, c: CutRecord<V>) -> (TriangleSliceResult<V>, bool) {
    if one_sided(c.sides) {
        (TriangleSliceResult::Single(t), c.sides[0])
    } else {
        let l = lonely_index(c.sides);
        let lonely = t.vertices[l];
        let first = t.vertices[first_index(l)];
        let second = t.vertices[second_index(l)];
        (
            TriangleSliceResult::Split(
                Triangle { vertices: [lonely, c.second_cut, c.first_cut] },
                Triangle { vertices: [first, c.first_cut, second] },
                Triangle { vertices: [second, c.first_cut, c.second_cut] },
            ),
            c.sides[l],
        )
    }
}

/// `triangle_slice`, handing back also the record of what the kernels
/// reported.
pub(crate) fn triangle_slice_recorded<V: Copy, S: Fn(Plane<V>, V) -> bool, X: Fn(Plane<V>, V, V) -> V>(
    tri: Triangle<V>,
    plane: Plane<V>,
    side: &S,
    intersect: &X,
) -> (r: (TriangleSliceResult<V>, bool, Ghost<CutRecord<V>>))
    requires
        forall|v: V| side.requires((plane, v)),
        forall|a: V, b: V| intersect.requires((plane, a, b)),
    ensures
        cut_observed(*side, *intersect, plane, tri, r.2@),
        (r.0, r.1) == spec_triangle_slice(tri, r.2@),
{
    let s0 = side(plane, tri.vertices[0]);
    let s1 = side(plane, tri.vertices[1]);
    let s2 = side(plane, tri.vertices[2]);
    let ghost sides = [s0, s1, s2];
    if s0 && s1 && s2 {
        (TriangleSliceResult::Single(tri), true, Ghost(CutRecord { sides, first_cut: tri.vertices[0], second_cut: tri.vertices[0] }))
    } else if !s0 && !s1 && !s2 {
        (TriangleSliceResult::Single(tri), false, Ghost(CutRecord { sides, first_cut: tri.vertices[0], second_cut: tri.vertices[0] }))
    } else {
        let (lonely, first, second, lonely_side) = if s0 == s1 {
            (tri.vertices[2], tri.vertices[1], tri.vertices[0], s2)
        } else if s0 == s2 {
            (tri.vertices[1], tri.vertices[0], tri.vertices[2], s1)
        } else {
            (tri.vertices[0], tri.vertices[2], tri.vertices[1], s0)
        };
        let first_cut = intersect(plane, lonely, first);
        let second_cut = intersect(plane, lonely, second);
        let single = Triangle::new(lonely, second_cut, first_cut);
        let tri1 = Triangle::new(first, first_cut, second);
        let tri2 = Triangle::new(second, first_cut, second_cut);
        (TriangleSliceResult::Split(single, tri1, tri2), lonely_side, Ghost(CutRecord { sides, first_cut, second_cut }))
    }
}

/// Cuts one triangle by `plane`. `side(plane, p)` tells whether `p` lies on
/// the positive side (distance `>= 0`); `intersect(plane, a, b)` gives the
/// point where the edge from `a` to `b` meets the plane, and is asked only for
/// the two edges that leave the lonely vertex of a straddling triangle, whose
/// ends the side test put on opposite sides. The second value of the result
/// is the side of the whole triangle when it does not straddle the plane,
/// else the side of its lonely vertex.
pub fn triangle_slice<V: Copy, S: Fn(Plane<V>, V) -> bool, X: Fn(Plane<V>, V, V) -> V>(
    tri: Triangle<V>,
    plane: Plane<V>,
    side: &S,
    intersect: &X,
) -> (r: (TriangleSliceResult<V>, bool))
    requires
        forall|v: V| side.requires((plane, v)),
        forall|a: V, b: V| intersect.requires((plane, a, b)),
    ensures
        exists|c: CutRecord<V>| cut_observed(*side, *intersect, plane, tri, c) && r == spec_triangle_slice(tri, c),
{
    let (result, lonely_side, Ghost(c)) = triangle_slice_recorded(tri, plane, side, intersect);
    assert(cut_observed(*side, *intersect, plane, tri, c));
    (result, lonely_side)
}

} // verus!
