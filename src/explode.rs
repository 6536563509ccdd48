use vstd::prelude::*;

use crate::builder::TriangleMeshBuilder;
use crate::slice::{slice_observed, spec_slice};
use crate::triangle::{CutRecord, Plane, Triangle};

verus! {

/// One piece of an exploded mesh, with the direction it flies off in: the
/// normal of the plane that cut it off, or its opposite.
#[derive(Clone, Debug)]
pub struct ExplodeFragment<P> {
    pub mesh: TriangleMeshBuilder<P>,
    pub direction: P,
}

/// Whether `pos` and `neg` are the two halves of `mesh` cut by the plane
/// through `origin` with normal `n`, under some reports of the kernels.
pub open spec fn halves_of<P, S: Fn(Plane<P>, P) -> bool, X: Fn(Plane<P>, P, P) -> P, C: Fn(&Vec<P>) -> P>(
    side: S,
    intersect: X,
    centroid: C,
    origin: P,
    n: P,
    mesh: Seq<Triangle<P>>,
    pos: Seq<Triangle<P>>,
    neg: Seq<Triangle<P>>,
) -> bool {
    exists|cuts: Seq<CutRecord<P>>, pc: P, nc: P|
        {
            &&& #[trigger] slice_observed(side, intersect, centroid, Plane { point: origin, normal: n }, mesh, cuts, pc, nc)
            &&& spec_slice(mesh, cuts, pc, nc) == Some((pos, neg))
        }
}

/// Whether no cut of `mesh` by the plane through `origin` with normal `n`
/// gives a result, under some reports of the kernels.
pub open spec fn cut_fails<P, S: Fn(Plane<P>, P) -> bool, X: Fn(Plane<P>, P, P) -> P, C: Fn(&Vec<P>) -> P>(
    side: S,
    intersect: X,
    centroid: C,
    origin: P,
    n: P,
    mesh: Seq<Triangle<P>>,
) -> bool {
    exists|cuts: Seq<CutRecord<P>>, pc: P, nc: P|
        {
            &&& #[trigger] slice_observed(side, intersect, centroid, Plane { point: origin, normal: n }, mesh, cuts, pc, nc)
            &&& spec_slice(mesh, cuts, pc, nc) is None
        }
}

/// The meshes of a list of fragments.
pub open spec fn meshes_of<P>(fs: Seq<ExplodeFragment<P>>) -> Seq<Seq<Triangle<P>>> {
    fs.map_values(|f: ExplodeFragment<P>| f.mesh@)
}

/// Whether `out` is the pass over the meshes `queue` with the plane normals
/// `normals`, one per mesh: in queue order, mesh `k` cut by the plane through
/// `origin` with normal `normals[k]` gives its positive half tagged
/// `normals[k]` then its negative half tagged with what `negate` returned for
/// `normals[k]`, or nothing when the cut gives no result.
#[verifier::opaque]
pub open spec fn pass_given<
    P,
    N: Fn(P) -> P,
    S: Fn(Plane<P>, P) -> bool,
    X: Fn(Plane<P>, P, P) -> P,
    C: Fn(&Vec<P>) -> P,
>(
    negate: N,
    side: S,
    intersect: X,
    centroid: C,
    origin: P,
    queue: Seq<Seq<Triangle<P>>>,
    normals: Seq<P>,
    out: Seq<ExplodeFragment<P>>,
) -> bool
    decreases queue.len(),
{
    if queue.len() == 0 {
        out.len() == 0
    } else {
        let k = queue.len() - 1;
        let n = normals[k];
        ||| cut_fails(side, intersect, centroid, origin, n, queue[k]) && pass_given(
            negate,
            side,
            intersect,
            centroid,
            origin,
            queue.drop_last(),
            normals.drop_last(),
            out,
        )
        ||| out.len() >= 2 && {
            let pos = out[out.len() - 2];
            let neg = out[out.len() - 1];
            &&& pos.direction == n
            &&& negate.ensures((n,), neg.direction)
            &&& halves_of(side, intersect, centroid, origin, n, queue[k], pos.mesh@, neg.mesh@)
            &&& pass_given(
                negate,
                side,
                intersect,
                centroid,
                origin,
                queue.drop_last(),
                normals.drop_last(),
                out.subrange(0, out.len() - 2),
            )
        }
    }
}

/// Whether `out` is a pass over the meshes `queue` with normals that
/// `random_normal` drew, one per mesh.
#[verifier::opaque]
pub open spec fn drawn_pass<
    P,
    D: Fn() -> P,
    N: Fn(P) -> P,
    S: Fn(Plane<P>, P) -> bool,
    X: Fn(Plane<P>, P, P) -> P,
    C: Fn(&Vec<P>) -> P,
>(
    random_normal: D,
    negate: N,
    side: S,
    intersect: X,
    centroid: C,
    origin: P,
    queue: Seq<Seq<Triangle<P>>>,
    out: Seq<ExplodeFragment<P>>,
) -> bool {
    exists|normals: Seq<P>|
        {
            &&& normals.len() == queue.len()
            &&& forall|k: int| 0 <= k < normals.len() ==> random_normal.ensures((), #[trigger] normals[k])
            &&& #[trigger] pass_given(negate, side, intersect, centroid, origin, queue, normals, out)
        }
}

/// A pass gives an even number of non-empty fragments, at most two per
/// queued mesh; it gives none only when the cut of every queued mesh failed.
pub proof fn lemma_pass_shape<
    P,
    N: Fn(P) -> P,
    S: Fn(Plane<P>, P) -> bool,
    X: Fn(Plane<P>, P, P) -> P,
    C: Fn(&Vec<P>) -> P,
>(
    negate: N,
    side: S,
    intersect: X,
    centroid: C,
    origin: P,
    queue: Seq<Seq<Triangle<P>>>,
    normals: Seq<P>,
    out: Seq<ExplodeFragment<P>>,
)
    requires
        normals.len() == queue.len(),
        pass_given(negate, side, intersect, centroid, origin, queue, normals, out),
    ensures
        out.len() % 2 == 0,
        out.len() <= 2 * queue.len(),
        forall|i: int| 0 <= i < out.len() ==> (#[trigger] out[i]).mesh@.len() > 0,
        out.len() == 0 ==> forall|k: int|
            0 <= k < queue.len() ==> cut_fails(side, intersect, centroid, origin, normals[k], #[trigger] queue[k]),
    decreases queue.len(),
{
    reveal(pass_given);
    if queue.len() > 0 {
        let k = queue.len() - 1;
        let n = normals[k];
        if cut_fails(side, intersect, centroid, origin, n, queue[k]) && pass_given(
            negate,
            side,
            intersect,
            centroid,
            origin,
            queue.drop_last(),
            normals.drop_last(),
            out,
        ) {
            lemma_pass_shape(negate, side, intersect, centroid, origin, queue.drop_last(), normals.drop_last(), out);
            if out.len() == 0 {
                assert forall|j: int| 0 <= j < queue.len() implies cut_fails(
                    side,
                    intersect,
                    centroid,
                    origin,
                    normals[j],
                    #[trigger] queue[j],
                ) by {
                    if j < k {
                        assert(queue.drop_last()[j] == queue[j]);
                        assert(normals.drop_last()[j] == normals[j]);
                    }
                }
            }
        } else {
            let front = out.subrange(0, out.len() - 2);
            lemma_pass_shape(negate, side, intersect, centroid, origin, queue.drop_last(), normals.drop_last(), front);
            assert forall|i: int| 0 <= i < out.len() implies (#[trigger] out[i]).mesh@.len() > 0 by {
                if i < out.len() - 2 {
                    assert(front[i] == out[i]);
                }
            }
        }
    }
}

/// One pass of the explosion with the given plane normals, one per queued
/// mesh: mesh `k`, in queue order, is cut by the plane through `origin` with
/// normal `normals[k]`. A cut that succeeds gives two fragments, the positive
/// half tagged with the normal and the negative half tagged with its
/// opposite; a mesh whose cut fails is dropped, and only such a mesh.
pub fn explode_pass_with<
    P: Copy,
    N: Fn(P) -> P,
    S: Fn(Plane<P>, P) -> bool,
    X: Fn(Plane<P>, P, P) -> P,
    C: Fn(&Vec<P>) -> P,
>(
    queue: &Vec<ExplodeFragment<P>>,
    normals: &Vec<P>,
    origin: P,
    negate: &N,
    side: &S,
    intersect: &X,
    centroid: &C,
) -> (r: Vec<ExplodeFragment<P>>)
    requires
        normals@.len() == queue@.len(),
        forall|p: P| negate.requires((p,)),
        forall|plane: Plane<P>, v: P| side.requires((plane, v)),
        forall|plane: Plane<P>, a: P, b: P| intersect.requires((plane, a, b)),
        forall|v: &Vec<P>| centroid.requires((v,)),
    ensures
        pass_given(*negate, *side, *intersect, *centroid, origin, meshes_of(queue@), normals@, r@),
{
    let mut fragments: Vec<ExplodeFragment<P>> = Vec::new();
    let n = queue.len();
    let mut k: usize = 0;
    assert(meshes_of(queue@).take(0) =~= Seq::<Seq<Triangle<P>>>::empty());
    proof {
        reveal(pass_given);
    }
    while k < n
        invariant
            n == queue@.len(),
            normals@.len() == n,
            0 <= k <= n,
                forall|p: P| negate.requires((p,)),
                forall|plane: Plane<P>, v: P| side.requires((plane, v)),
                forall|plane: Plane<P>, a: P, b: P| intersect.requires((plane, a, b)),
                forall|v: &Vec<P>| centroid.requires((v,)),
            pass_given(
                *negate,
                *side,
                *intersect,
                *centroid,
                origin,
                meshes_of(queue@).take(k as int),
                normals@.take(k as int),
                fragments@,
            ),
        decreases n - k,
    {
        let normal = normals[k];
        let plane = Plane { point: origin, normal };
        let ghost before = fragments@;
        let ghost q = meshes_of(queue@).take(k + 1);
        let ghost ns = normals@.take(k + 1);
        assert(q.drop_last() =~= meshes_of(queue@).take(k as int));
        assert(ns.drop_last() =~= normals@.take(k as int));
        assert(q[k as int] == queue@[k as int].mesh@);
        assert(ns[k as int] == normal);
        match queue[k].mesh.slice(plane, side, intersect, centroid) {
            Some((pos, neg)) => {
                let opposite = negate(normal);
                assert(halves_of(*side, *intersect, *centroid, origin, normal, q[k as int], pos@, neg@));
                fragments.push(ExplodeFragment { mesh: pos, direction: normal });
                fragments.push(ExplodeFragment { mesh: neg, direction: opposite });
                assert(fragments@.subrange(0, fragments@.len() - 2) =~= before);
            },
            None => {
                assert(cut_fails(*side, *intersect, *centroid, origin, normal, q[k as int]));
            },
        }
        proof {
            reveal(pass_given);
        }
        assert(pass_given(*negate, *side, *intersect, *centroid, origin, q, ns, fragments@));
        k = k + 1;
    }
    assert(meshes_of(queue@).take(n as int) =~= meshes_of(queue@));
    assert(normals@.take(n as int) =~= normals@);
    fragments
}

/// One pass of the explosion: a normal is drawn from `random_normal` for
/// each queued mesh, in order, and the pass is `explode_pass_with` those
/// normals.
pub fn explode_pass<
    P: Copy,
    D: Fn() -> P,
    N: Fn(P) -> P,
    S: Fn(Plane<P>, P) -> bool,
    X: Fn(Plane<P>, P, P) -> P,
    C: Fn(&Vec<P>) -> P,
>(
    queue: &Vec<ExplodeFragment<P>>,
    origin: P,
    random_normal: &D,
    negate: &N,
    side: &S,
    intersect: &X,
    centroid: &C,
) -> (r: Vec<ExplodeFragment<P>>)
    requires
        random_normal.requires(()),
        forall|p: P| negate.requires((p,)),
        forall|plane: Plane<P>, v: P| side.requires((plane, v)),
        forall|plane: Plane<P>, a: P, b: P| intersect.requires((plane, a, b)),
        forall|v: &Vec<P>| centroid.requires((v,)),
    ensures
        drawn_pass(*random_normal, *negate, *side, *intersect, *centroid, origin, meshes_of(queue@), r@),
{
    let mut normals: Vec<P> = Vec::new();
    let n = queue.len();
    let mut k: usize = 0;
    while k < n
        invariant
            n == queue@.len(),
            0 <= k <= n,
            random_normal.requires(()),
            normals@.len() == k,
            forall|j: int| 0 <= j < k ==> random_normal.ensures((), #[trigger] normals@[j]),
        decreases n - k,
    {
        let normal = random_normal();
        normals.push(normal);
        k = k + 1;
    }
    let r = explode_pass_with(queue, &normals, origin, negate, side, intersect, centroid);
    assert(meshes_of(queue@).len() == queue@.len());
    proof {
        reveal(drawn_pass);
    }
    r
}

/// The queue that pass `k` of `passes` works on: the whole mesh first, then
/// the fragments of the pass before.
pub open spec fn queue_before<P>(mesh: Seq<Triangle<P>>, passes: Seq<Seq<ExplodeFragment<P>>>, k: int) -> Seq<
    Seq<Triangle<P>>,
> {
    if k == 0 {
        seq![mesh]
    } else {
        meshes_of(passes[k - 1])
    }
}

/// The fragment list of an explosion result.
pub open spec fn fragments_view<P>(r: Option<Vec<ExplodeFragment<P>>>) -> Option<Seq<ExplodeFragment<P>>> {
    match r {
        None => None,
        Some(v) => Some(v@),
    }
}

/// Whether `r` is the outcome of the explosion of `mesh` whose passes were
/// `passes`: each pass works on the fragments of the one before with freshly
/// drawn normals, every pass but the last gave some fragments yet fewer than
/// `fragment_count`, and the last decided: enough fragments (the result),
/// none at all (no result), or too few with no pass left (no result).
pub open spec fn run_of<
    P,
    D: Fn() -> P,
    N: Fn(P) -> P,
    S: Fn(Plane<P>, P) -> bool,
    X: Fn(Plane<P>, P, P) -> P,
    C: Fn(&Vec<P>) -> P,
>(
    random_normal: D,
    negate: N,
    side: S,
    intersect: X,
    centroid: C,
    origin: P,
    mesh: Seq<Triangle<P>>,
    fragment_count: nat,
    max_iterations: nat,
    passes: Seq<Seq<ExplodeFragment<P>>>,
    r: Option<Seq<ExplodeFragment<P>>>,
) -> bool {
    &&& passes.len() <= max_iterations
    &&& forall|k: int|
        0 <= k < passes.len() ==> drawn_pass(
            random_normal,
            negate,
            side,
            intersect,
            centroid,
            origin,
            queue_before(mesh, passes, k),
            #[trigger] passes[k],
        )
    &&& forall|k: int| 0 <= k < passes.len() - 1 ==> 0 < (#[trigger] passes[k]).len() < fragment_count
    &&& match r {
        Some(fs) => passes.len() > 0 && fs == passes.last() && fs.len() >= fragment_count,
        None => {
            ||| passes.len() == 0 && max_iterations == 0
            ||| passes.len() > 0 && passes.last().len() == 0
            ||| passes.len() > 0 && passes.len() == max_iterations && passes.last().len() < fragment_count
        },
    }
}

/// A copy of `b`, triangle for triangle.
fn copy_of<P: Copy>(b: &TriangleMeshBuilder<P>) -> (r: TriangleMeshBuilder<P>)
    ensures
        r@ == b@,
{
    let mut triangles: Vec<Triangle<P>> = Vec::new();
    let mut i: usize = 0;
    while i < b.triangles.len()
        invariant
            0 <= i <= b@.len(),
            triangles@ =~= b@.take(i as int),
        decreases b@.len() - i,
    {
        triangles.push(b.triangles[i]);
        i = i + 1;
    }
    assert(b@.take(b@.len() as int) =~= b@);
    TriangleMeshBuilder { triangles }
}

/// Splits `original` into at least `fragment_count` pieces by repeated random
/// cuts through `origin`. The work queue starts as the whole mesh, tagged with
/// `origin`; each pass replaces it by `explode_pass` of it. The first pass
/// that gives `fragment_count` fragments or more is the result. No result when
/// a pass gives no fragment at all, or after `max_iterations` passes that
/// gave too few.
pub fn explode_mesh<
    P: Copy,
    D: Fn() -> P,
    N: Fn(P) -> P,
    S: Fn(Plane<P>, P) -> bool,
    X: Fn(Plane<P>, P, P) -> P,
    C: Fn(&Vec<P>) -> P,
>(
    original: &TriangleMeshBuilder<P>,
    origin: P,
    fragment_count: usize,
    max_iterations: usize,
    random_normal: &D,
    negate: &N,
    side: &S,
    intersect: &X,
    centroid: &C,
) -> (r: Option<Vec<ExplodeFragment<P>>>)
    requires
        fragment_count >= 1,
        random_normal.requires(()),
        forall|p: P| negate.requires((p,)),
        forall|plane: Plane<P>, v: P| side.requires((plane, v)),
        forall|plane: Plane<P>, a: P, b: P| intersect.requires((plane, a, b)),
        forall|v: &Vec<P>| centroid.requires((v,)),
    ensures
        exists|passes: Seq<Seq<ExplodeFragment<P>>>|
            run_of(
                *random_normal,
                *negate,
                *side,
                *intersect,
                *centroid,
                origin,
                original@,
                fragment_count as nat,
                max_iterations as nat,
                passes,
                fragments_view(r),
            ),
{
    let mut queue: Vec<ExplodeFragment<P>> = Vec::new();
    queue.push(ExplodeFragment { mesh: copy_of(original), direction: origin });
    assert(meshes_of(queue@) =~= seq![original@]);
    let ghost mut passes: Seq<Seq<ExplodeFragment<P>>> = Seq::empty();
    let mut iteration: usize = 0;
    while iteration < max_iterations
        invariant
            fragment_count >= 1,
            random_normal.requires(()),
            forall|p: P| negate.requires((p,)),
            forall|plane: Plane<P>, v: P| side.requires((plane, v)),
            forall|plane: Plane<P>, a: P, b: P| intersect.requires((plane, a, b)),
            forall|v: &Vec<P>| centroid.requires((v,)),
            0 <= iteration <= max_iterations,
            passes.len() == iteration,
            meshes_of(queue@) == queue_before(original@, passes, iteration as int),
            forall|k: int|
                0 <= k < passes.len() ==> drawn_pass(
                    *random_normal,
                    *negate,
                    *side,
                    *intersect,
                    *centroid,
                    origin,
                    queue_before(original@, passes, k),
                    #[trigger] passes[k],
                ),
            forall|k: int| 0 <= k < passes.len() ==> 0 < (#[trigger] passes[k]).len() < fragment_count,
        decreases max_iterations - iteration,
    {
        let fragments = explode_pass(&queue, origin, random_normal, negate, side, intersect, centroid);
        let ghost done = passes.push(fragments@);
        proof {
            assert forall|k: int| 0 <= k < done.len() implies drawn_pass(
                *random_normal,
                *negate,
                *side,
                *intersect,
                *centroid,
                origin,
                queue_before(original@, done, k),
                #[trigger] done[k],
            ) by {
                if k < passes.len() {
                    assert(done[k] == passes[k]);
                    assert(queue_before(original@, done, k) == queue_before(original@, passes, k));
                } else {
                    assert(queue_before(original@, done, k) == queue_before(original@, passes, k));
                }
            }
        }
        if fragments.len() >= fragment_count {
            let r = Some(fragments);
            assert(run_of(
                *random_normal,
                *negate,
                *side,
                *intersect,
                *centroid,
                origin,
                original@,
                fragment_count as nat,
                max_iterations as nat,
                done,
                fragments_view(r),
            ));
            return r;
        } else if fragments.len() == 0 {
            assert(run_of(
                *random_normal,
                *negate,
                *side,
                *intersect,
                *centroid,
                origin,
                original@,
                fragment_count as nat,
                max_iterations as nat,
                done,
                None,
            ));
            return None;
        }
        proof {
            passes = done;
        }
        queue = fragments;
        iteration = iteration + 1;
    }
    assert(run_of(
        *random_normal,
        *negate,
        *side,
        *intersect,
        *centroid,
        origin,
        original@,
        fragment_count as nat,
        max_iterations as nat,
        passes,
        None,
    ));
    None
}

/// An explosion either gives at least `fragment_count` fragments, none of
/// them empty, or gives no result after passes that all came short of
/// `fragment_count`: `max_iterations` of them, or fewer when the last one gave
/// no fragment at all, which happens only when the cut of every mesh it
/// worked on failed.
pub proof fn lemma_explode_outcome<
    P,
    D: Fn() -> P,
    N: Fn(P) -> P,
    S: Fn(Plane<P>, P) -> bool,
    X: Fn(Plane<P>, P, P) -> P,
    C: Fn(&Vec<P>) -> P,
>(
    random_normal: D,
    negate: N,
    side: S,
    intersect: X,
    centroid: C,
    origin: P,
    mesh: Seq<Triangle<P>>,
    fragment_count: nat,
    max_iterations: nat,
    passes: Seq<Seq<ExplodeFragment<P>>>,
    r: Option<Seq<ExplodeFragment<P>>>,
)
    requires
        fragment_count >= 1,
        run_of(
            random_normal,
            negate,
            side,
            intersect,
            centroid,
            origin,
            mesh,
            fragment_count,
            max_iterations,
            passes,
            r,
        ),
    ensures
        r matches Some(fs) ==> fs.len() >= fragment_count && forall|i: int|
            0 <= i < fs.len() ==> (#[trigger] fs[i]).mesh@.len() > 0,
        r is None ==> {
            &&& forall|k: int| 0 <= k < passes.len() ==> (#[trigger] passes[k]).len() < fragment_count
            &&& passes.len() == max_iterations || passes.last().len() == 0
        },
        r is None && passes.len() < max_iterations ==> {
            let q = queue_before(mesh, passes, passes.len() - 1);
            exists|normals: Seq<P>|
                {
                    &&& normals.len() == q.len()
                    &&& forall|k: int| 0 <= k < normals.len() ==> random_normal.ensures((), #[trigger] normals[k])
                    &&& forall|k: int|
                        0 <= k < q.len() ==> #[trigger] cut_fails(side, intersect, centroid, origin, normals[k], q[k])
                }
        },
{
    if passes.len() > 0 {
        let k = passes.len() - 1;
        let q = queue_before(mesh, passes, k);
        assert(drawn_pass(random_normal, negate, side, intersect, centroid, origin, q, passes[k]));
        reveal(drawn_pass);
        let normals = choose|normals: Seq<P>|
            {
                &&& normals.len() == q.len()
                &&& forall|j: int| 0 <= j < normals.len() ==> random_normal.ensures((), #[trigger] normals[j])
                &&& #[trigger] pass_given(negate, side, intersect, centroid, origin, q, normals, passes[k])
            };
        lemma_pass_shape(negate, side, intersect, centroid, origin, q, normals, passes[k]);
        if r is None && passes.len() < max_iterations {
            assert(passes.last().len() == 0);
            assert(forall|j: int|
                0 <= j < q.len() ==> #[trigger] cut_fails(side, intersect, centroid, origin, normals[j], q[j]));
        }
    }
}

} // verus!
