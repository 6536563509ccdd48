use vstd::prelude::*;

use crate::builder::TriangleMeshBuilder;
use crate::triangle::{
    cut_observed, spec_triangle_slice, triangle_slice_recorded, CutRecord, Plane, Triangle, TriangleSliceResult,
};

verus! {

/// The fan that closes a boundary loop: one triangle `(b[2i], b[2i+1], center)`
/// for each pair of consecutive points. A loop of fewer than three points
/// closes nothing.
pub open spec fn fan<P>(b: Seq<P>, center: P) -> Seq<Triangle<P>> {
    if b.len() < 3 {
        Seq::empty()
    } else {
        Seq::new(b.len() / 2, |i: int| Triangle::spec_new(b[2 * i], b[2 * i + 1], center))
    }
}

/// Whether `centroid` returned `c` for a list holding the points `b`.
pub open spec fn centered_on<P, C: Fn(&Vec<P>) -> P>(centroid: C, b: Seq<P>, c: P) -> bool {
    exists|v: Vec<P>| v@ == b && #[trigger] centroid.ensures((&v,), c)
}

/// The pieces of the triangles `ts`, cut with the records `cuts`, in the
/// order the slicer routes them: the positive pieces, the negative pieces,
/// and the boundary points. A straddling triangle adds its two cut points to
/// the boundary, in the order that winds the positive side's closing fan
/// outwards.
pub open spec fn routed<P>(ts: Seq<Triangle<P>>, cuts: Seq<CutRecord<P>>) -> (
    Seq<Triangle<P>>,
    Seq<Triangle<P>>,
    Seq<P>,
)
    decreases ts.len(),
{
    if ts.len() == 0 || cuts.len() == 0 {
        (Seq::empty(), Seq::empty(), Seq::empty())
    } else {
        let (pos, neg, b) = routed(ts.drop_last(), cuts.drop_last());
        let (res, positive) = spec_triangle_slice(ts.last(), cuts.last());
        match res {
            TriangleSliceResult::Single(t) => {
                if positive {
                    (pos.push(t), neg, b)
                } else {
                    (pos, neg.push(t), b)
                }
            },
            TriangleSliceResult::Split(single, t1, t2) => {
                if positive {
                    (pos.push(single), neg.push(t1).push(t2), b.push(single.vertices[2]).push(single.vertices[1]))
                } else {
                    (pos.push(t1).push(t2), neg.push(single), b.push(single.vertices[1]).push(single.vertices[2]))
                }
            },
        }
    }
}

/// The two halves of `ts` cut with the records `cuts`, each closed by the fan
/// of the boundary (reversed, for the negative half) around `pc` and `nc`; no
/// result when either half is empty.
pub open spec fn spec_slice<P>(ts: Seq<Triangle<P>>, cuts: Seq<CutRecord<P>>, pc: P, nc: P) -> Option<
    (Seq<Triangle<P>>, Seq<Triangle<P>>),
> {
    let (pos, neg, b) = routed(ts, cuts);
    let positive = pos + fan(b, pc);
    let negative = neg + fan(b.reverse(), nc);
    if positive.len() == 0 || negative.len() == 0 {
        None
    } else {
        Some((positive, negative))
    }
}

/// Whether the kernels reported `cuts` for the triangles `ts`, and the
/// centroids `pc` and `nc` for the boundary and its reverse.
pub open spec fn slice_observed<P, S: Fn(Plane<P>, P) -> bool, X: Fn(Plane<P>, P, P) -> P, C: Fn(&Vec<P>) -> P>(
    side: S,
    intersect: X,
    centroid: C,
    plane: Plane<P>,
    ts: Seq<Triangle<P>>,
    cuts: Seq<CutRecord<P>>,
    pc: P,
    nc: P,
) -> bool {
    let b = routed(ts, cuts).2;
    &&& cuts.len() == ts.len()
    &&& forall|i: int| 0 <= i < ts.len() ==> cut_observed(side, intersect, plane, #[trigger] ts[i], cuts[i])
    &&& b.len() >= 3 ==> centered_on(centroid, b, pc) && centered_on(centroid, b.reverse(), nc)
}

/// The triangle sequences of a pair of builders.
pub open spec fn halves_view<P>(r: Option<(TriangleMeshBuilder<P>, TriangleMeshBuilder<P>)>) -> Option<
    (Seq<Triangle<P>>, Seq<Triangle<P>>),
> {
    match r {
        None => None,
        Some((a, b)) => Some((a@, b@)),
    }
}

impl<P: Copy> TriangleMeshBuilder<P> {
    /// Closes a cut by fan-triangulating `boundary` to the point that
    /// `centroid` gives for it. The points are taken two at a time, as the
    /// slicer lays them out; fewer than three points close nothing.
    pub fn fill_boundary<C: Fn(&Vec<P>) -> P>(&mut self, boundary: &Vec<P>, centroid: &C) -> (r: &Self)
        requires
            boundary@.len() < 3 || boundary@.len() % 2 == 0,
            forall|v: &Vec<P>| centroid.requires((v,)),
        ensures
            *r == *final(self),
            boundary@.len() < 3 ==> final(self)@ == old(self)@,
            boundary@.len() >= 3 ==> exists|c: P|
                centered_on(*centroid, boundary@, c) && final(self)@ == old(self)@ + fan(boundary@, c),
    {
        if boundary.len() < 3 {
            return self;
        }
        let center = centroid(boundary);
        assert(centered_on(*centroid, boundary@, center));
        let ghost start = self@;
        let len = boundary.len();
        let mut i: usize = 0;
        while i < len
            invariant
                len == boundary@.len(),
                len >= 3,
                len % 2 == 0,
                i % 2 == 0,
                0 <= i <= len,
                self@.len() == start.len() + i / 2,
                forall|m: int| 0 <= m < start.len() ==> self@[m] == start[m],
                forall|m: int|
                    0 <= m < i / 2 ==> #[trigger] self@[start.len() + m] == Triangle::spec_new(
                        boundary@[2 * m],
                        boundary@[2 * m + 1],
                        center,
                    ),
            decreases len - i,
        {
            let a = boundary[i];
            let b = boundary[i + 1];
            self.add_triangle(Triangle::new(a, b, center));
            i = i + 2;
        }
        let ghost f = fan(boundary@, center);
        assert forall|k: int| start.len() <= k < self@.len() implies self@[k] == f[k - start.len()] by {
            let m = k - start.len();
            assert(self@[start.len() + m] == Triangle::spec_new(boundary@[2 * m], boundary@[2 * m + 1], center));
        }
        assert(self@ =~= start + f);
        self
    }

    /// Cuts the mesh by `plane` into its positive side (distance `>= 0`) and
    /// its negative side, each closed over the cut by a fan around the
    /// centroid of the boundary loop. `side` and `intersect` are as for
    /// `triangle_slice`; `centroid` gives the centre of a list of points. No
    /// result when either side ends up empty.
    pub fn slice<S: Fn(Plane<P>, P) -> bool, X: Fn(Plane<P>, P, P) -> P, C: Fn(&Vec<P>) -> P>(
        &self,
        plane: Plane<P>,
        side: &S,
        intersect: &X,
        centroid: &C,
    ) -> (r: Option<(Self, Self)>)
        requires
            forall|v: P| side.requires((plane, v)),
            forall|a: P, b: P| intersect.requires((plane, a, b)),
            forall|v: &Vec<P>| centroid.requires((v,)),
        ensures
            exists|cuts: Seq<CutRecord<P>>, pc: P, nc: P|
                slice_observed(*side, *intersect, *centroid, plane, self@, cuts, pc, nc) && halves_view(r) == spec_slice(
                    self@,
                    cuts,
                    pc,
                    nc,
                ),
            r matches Some((a, b)) ==> a@.len() > 0 && b@.len() > 0,
    {
        let mut positive: Self = TriangleMeshBuilder::new_empty();
        let mut negative: Self = TriangleMeshBuilder::new_empty();
        let mut boundary: Vec<P> = Vec::new();
        let ghost mut cuts: Seq<CutRecord<P>> = Seq::empty();
        let n = self.triangles.len();
        let mut i: usize = 0;
        while i < n
            invariant
                n == self@.len(),
                0 <= i <= n,
                forall|v: P| side.requires((plane, v)),
                forall|a: P, b: P| intersect.requires((plane, a, b)),
                cuts.len() == i,
                forall|j: int| 0 <= j < i ==> cut_observed(*side, *intersect, plane, #[trigger] self@[j], cuts[j]),
                (positive@, negative@, boundary@) == routed(self@.take(i as int), cuts),
                boundary@.len() % 2 == 0,
            decreases n - i,
        {
            let t = self.triangles[i];
            let (res, lonely_positive, Ghost(c)) = triangle_slice_recorded(t, plane, side, intersect);
            match res {
                TriangleSliceResult::Single(x) => {
                    if lonely_positive {
                        positive.triangles.push(x);
                    } else {
                        negative.triangles.push(x);
                    }
                },
                TriangleSliceResult::Split(single, first, second) => {
                    if lonely_positive {
                        boundary.push(single.vertices[2]);
                        boundary.push(single.vertices[1]);
                        positive.triangles.push(single);
                        negative.triangles.push(first);
                        negative.triangles.push(second);
                    } else {
                        boundary.push(single.vertices[1]);
                        boundary.push(single.vertices[2]);
                        negative.triangles.push(single);
                        positive.triangles.push(first);
                        positive.triangles.push(second);
                    }
                },
            }
            proof {
                assert(self@.take(i + 1).drop_last() =~= self@.take(i as int));
                assert(cuts.push(c).drop_last() =~= cuts);
                cuts = cuts.push(c);
            }
            i = i + 1;
        }
        assert(self@.take(n as int) =~= self@);
        let ghost b = boundary@;
        let mut reversed: Vec<P> = Vec::new();
        let mut j: usize = boundary.len();
        while j > 0
            invariant
                b == boundary@,
                0 <= j <= b.len(),
                reversed@ =~= b.reverse().take(b.len() - j),
            decreases j,
        {
            j = j - 1;
            reversed.push(boundary[j]);
        }
        assert(reversed@ =~= b.reverse());
        let ghost pos_open = positive@;
        let ghost neg_open = negative@;
        positive.fill_boundary(&boundary, centroid);
        negative.fill_boundary(&reversed, centroid);
        let ghost pc: P = if b.len() >= 3 {
            choose|c: P| centered_on(*centroid, b, c) && positive@ == pos_open + fan(b, c)
        } else {
            arbitrary()
        };
        let ghost nc: P = if b.len() >= 3 {
            choose|c: P| centered_on(*centroid, b.reverse(), c) && negative@ == neg_open + fan(b.reverse(), c)
        } else {
            arbitrary()
        };
        assert(slice_observed(*side, *intersect, *centroid, plane, self@, cuts, pc, nc));
        proof {
            if b.len() < 3 {
                assert(pos_open + fan(b, pc) =~= pos_open);
                assert(neg_open + fan(b.reverse(), nc) =~= neg_open);
            }
            assert(positive@ == pos_open + fan(b, pc));
            assert(negative@ == neg_open + fan(b.reverse(), nc));
        }
        let r = if positive.is_empty() || negative.is_empty() {
            None
        } else {
            Some((positive, negative))
        };
        assert(halves_view(r) == spec_slice(self@, cuts, pc, nc));
        r
    }
}

/// Routing triangles whose vertices all lie on side `s` adds no boundary
/// point and nothing to the other side.
proof fn lemma_routed_one_sided<P>(ts: Seq<Triangle<P>>, cuts: Seq<CutRecord<P>>, s: bool)
    requires
        cuts.len() == ts.len(),
        forall|i: int, k: int| 0 <= i < ts.len() && 0 <= k < 3 ==> #[trigger] cuts[i].sides[k] == s,
    ensures
        routed(ts, cuts).2.len() == 0,
        s ==> routed(ts, cuts).1.len() == 0,
        !s ==> routed(ts, cuts).0.len() == 0,
    decreases ts.len(),
{
    if ts.len() > 0 {
        let last = cuts.last();
        assert(last.sides[0] == s && last.sides[1] == s && last.sides[2] == s) by {
            assert(cuts[cuts.len() - 1].sides[0] == s);
            assert(cuts[cuts.len() - 1].sides[1] == s);
            assert(cuts[cuts.len() - 1].sides[2] == s);
        }
        assert forall|i: int, k: int| 0 <= i < ts.drop_last().len() && 0 <= k < 3 implies #[trigger] cuts.drop_last()[i].sides[k] == s by {
            assert(cuts.drop_last()[i] == cuts[i]);
        }
        lemma_routed_one_sided(ts.drop_last(), cuts.drop_last(), s);
    }
}

/// A mesh whose vertices all lie on one and the same side of the plane does
/// not slice: one of the two halves would be empty.
pub proof fn lemma_one_sided_mesh_does_not_slice<P>(
    ts: Seq<Triangle<P>>,
    cuts: Seq<CutRecord<P>>,
    s: bool,
    pc: P,
    nc: P,
)
    requires
        cuts.len() == ts.len(),
        forall|i: int, k: int| 0 <= i < ts.len() && 0 <= k < 3 ==> #[trigger] cuts[i].sides[k] == s,
    ensures
        spec_slice(ts, cuts, pc, nc) is None,
{
    lemma_routed_one_sided(ts, cuts, s);
    let (pos, neg, b) = routed(ts, cuts);
    assert(fan(b, pc).len() == 0);
    assert(b.reverse().len() == 0);
    assert(fan(b.reverse(), nc).len() == 0);
}

} // verus!
