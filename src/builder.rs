use vstd::prelude::*;

use crate::triangle::Triangle;

verus! {

/// An ordered collection of independent triangles. No vertex is shared: each
/// triangle owns its three vertices.
#[derive(Clone, Debug)]
pub struct TriangleMeshBuilder<P> {
    pub triangles: Vec<Triangle<P>>,
}

impl<P> View for TriangleMeshBuilder<P> {
    type V = Seq<Triangle<P>>;

    open spec fn view(&self) -> Seq<Triangle<P>> {
        self.triangles@
    }
}

/// `4` to the power `n`.
pub open spec fn pow4(n: nat) -> nat
    decreases n,
{
    if n == 0 {
        1
    } else {
        4 * pow4((n - 1) as nat)
    }
}

/// Whether `tris` is the subdivision of face `(a, b, c)` to `depth` levels,
/// with the edge midpoints that `midpoint` returned: the face itself at depth
/// zero, else the subdivisions of `(a, ab, ca)`, `(b, bc, ab)`, `(c, ca, bc)`
/// and `(ab, bc, ca)` one level down, in that order.
pub open spec fn subdivision_of<P, M: Fn(P, P) -> P>(
    midpoint: M,
    a: P,
    b: P,
    c: P,
    depth: nat,
    tris: Seq<Triangle<P>>,
) -> bool
    decreases depth,
{
    if depth == 0 {
        tris == seq![Triangle { vertices: [a, b, c] }]
    } else {
        let q = pow4((depth - 1) as nat) as int;
        &&& tris.len() == 4 * q
        &&& exists|ab: P, bc: P, ca: P|
            {
                &&& #[trigger] midpoint.ensures((a, b), ab)
                &&& #[trigger] midpoint.ensures((b, c), bc)
                &&& #[trigger] midpoint.ensures((c, a), ca)
                &&& subdivision_of(midpoint, a, ab, ca, (depth - 1) as nat, tris.subrange(0, q))
                &&& subdivision_of(midpoint, b, bc, ab, (depth - 1) as nat, tris.subrange(q, 2 * q))
                &&& subdivision_of(midpoint, c, ca, bc, (depth - 1) as nat, tris.subrange(2 * q, 3 * q))
                &&& subdivision_of(midpoint, ab, bc, ca, (depth - 1) as nat, tris.subrange(3 * q, 4 * q))
            }
    }
}

/// The six apex points of an octahedron, one on each half-axis.
#[derive(Clone, Copy, Debug, PartialEq, Eq)]
pub struct OctahedronApexes<P> {
    pub up: P,
    pub down: P,
    pub left: P,
    pub right: P,
    pub forward: P,
    pub back: P,
}

/// The eight faces of the octahedron with apexes `x`, each wound outwards.
pub open spec fn octahedron_faces<P>(x: OctahedronApexes<P>) -> Seq<(P, P, P)> {
    seq![
        (x.up, x.back, x.left),
        (x.up, x.right, x.back),
        (x.up, x.forward, x.right),
        (x.up, x.left, x.forward),
        (x.down, x.left, x.back),
        (x.down, x.back, x.right),
        (x.down, x.right, x.forward),
        (x.down, x.forward, x.left),
    ]
}

/// The vertices of `ts` in order, three per triangle.
pub open spec fn flat_positions<P>(ts: Seq<Triangle<P>>) -> Seq<P> {
    Seq::new(3 * ts.len(), |j: int| ts[j / 3].vertices[j % 3])
}

/// The indices `0, 1, ..., 3 * n - 1`.
pub open spec fn flat_indices(n: nat) -> Seq<u32> {
    Seq::new(3 * n, |j: int| j as u32)
}

/// Whether `displace` moved `p` to `q` by a height that `noise` gave at `p`.
pub open spec fn displaced_by<P, H, N: Fn(P) -> H, D: Fn(P, H) -> P>(noise: N, displace: D, p: P, q: P) -> bool {
    exists|h: H| noise.ensures((p,), h) && displace.ensures((p, h), q)
}

/// Whether `ns` holds, for each triangle of `ts` in order, the normal that
/// `normal_of` returned for it, three times over (one per vertex).
pub open spec fn flat_normals_of<P, F: Fn(Triangle<P>) -> P>(normal_of: F, ts: Seq<Triangle<P>>, ns: Seq<P>) -> bool {
    &&& ns.len() == 3 * ts.len()
    &&& forall|i: int|
        0 <= i < ts.len() ==> {
            &&& normal_of.ensures((#[trigger] ts[i],), ns[3 * i])
            &&& ns[3 * i + 1] == ns[3 * i]
            &&& ns[3 * i + 2] == ns[3 * i]
        }
}

/// Whether `us` holds, for each triangle of `ts` in order, the three texture
/// coordinates that `uv_of` returned for it.
pub open spec fn flat_uvs_of<P, U, F: Fn(Triangle<P>) -> [U; 3]>(uv_of: F, ts: Seq<Triangle<P>>, us: Seq<U>) -> bool {
    &&& us.len() == 3 * ts.len()
    &&& forall|i: int|
        0 <= i < ts.len() ==> uv_of.ensures((#[trigger] ts[i],), [us[3 * i], us[3 * i + 1], us[3 * i + 2]])
}

impl<P: Copy> TriangleMeshBuilder<P> {
    /// A builder with no triangles.
    pub fn new_empty() -> (r: Self)
        ensures
            r@ == Seq::<Triangle<P>>::empty(),
    {
        TriangleMeshBuilder { triangles: Vec::new() }
    }

    /// Appends `t` and hands the builder back for chaining.
    pub fn add_triangle(&mut self, t: Triangle<P>) -> (r: &mut Self)
        ensures
            r@ == old(self)@.push(t),
            *final(self) == *final(r),
    {
        self.triangles.push(t);
        self
    }

    /// Whether the builder holds no triangle.
    pub fn is_empty(&self) -> (r: bool)
        ensures
            r == (self@.len() == 0),
    {
        self.triangles.len() == 0
    }

    /// Appends the subdivision of face `(a, b, c)` to `depth` levels.
    fn subdivide_face<M: Fn(P, P) -> P>(&mut self, a: P, b: P, c: P, depth: u32, midpoint: &M)
        requires
            forall|u: P, v: P| midpoint.requires((u, v)),
        ensures
            final(self)@.len() == old(self)@.len() + pow4(depth as nat),
            final(self)@.subrange(0, old(self)@.len() as int) == old(self)@,
            subdivision_of(
                *midpoint,
                a,
                b,
                c,
                depth as nat,
                final(self)@.subrange(old(self)@.len() as int, final(self)@.len() as int),
            ),
        decreases depth,
    {
        let ghost start = self@.len() as int;
        if depth == 0 {
            self.triangles.push(Triangle::new(a, b, c));
            assert(self@.subrange(start, self@.len() as int) =~= seq![Triangle { vertices: [a, b, c] }]);
            assert(self@.subrange(0, start) =~= old(self)@);
        } else {
            let ab = midpoint(a, b);
            let bc = midpoint(b, c);
            let ca = midpoint(c, a);
            let ghost q = pow4((depth - 1) as nat) as int;
            self.subdivide_face(a, ab, ca, depth - 1, midpoint);
            let ghost s1 = self@;
            self.subdivide_face(b, bc, ab, depth - 1, midpoint);
            let ghost s2 = self@;
            self.subdivide_face(c, ca, bc, depth - 1, midpoint);
            let ghost s3 = self@;
            self.subdivide_face(ab, bc, ca, depth - 1, midpoint);
            let ghost s4 = self@;
            proof {
                let whole = s4.subrange(start, s4.len() as int);
                assert(s2.subrange(0, s1.len() as int) == s1);
                assert(s3.subrange(0, s2.len() as int) == s2);
                assert(s4.subrange(0, s3.len() as int) == s3);
                assert(whole.subrange(0, q) =~= s1.subrange(start, s1.len() as int));
                assert(whole.subrange(q, 2 * q) =~= s2.subrange(s1.len() as int, s2.len() as int));
                assert(whole.subrange(2 * q, 3 * q) =~= s3.subrange(s2.len() as int, s3.len() as int));
                assert(whole.subrange(3 * q, 4 * q) =~= s4.subrange(s3.len() as int, s4.len() as int));
                assert(midpoint.ensures((a, b), ab));
                assert(midpoint.ensures((b, c), bc));
                assert(midpoint.ensures((c, a), ca));
                assert(s4.subrange(0, start) =~= old(self)@);
            }
        }
    }

    /// An octahedron with apexes `apexes`, each of its eight faces subdivided
    /// `resolution` times; `midpoint` gives the point between two vertices (on
    /// the sphere, for a geodesic approximation). The triangle count,
    /// `8 * 4^resolution`, must fit in a `usize`.
    pub fn new_octahedron<M: Fn(P, P) -> P>(resolution: u32, apexes: OctahedronApexes<P>, midpoint: &M) -> (r: Self)
        requires
            8 * pow4(resolution as nat) <= usize::MAX,
            forall|u: P, v: P| midpoint.requires((u, v)),
        ensures
            r@.len() == 8 * pow4(resolution as nat),
            forall|f: int|
                0 <= f < 8 ==> {
                    let q = pow4(resolution as nat) as int;
                    let (a, b, c) = #[trigger] octahedron_faces(apexes)[f];
                    subdivision_of(*midpoint, a, b, c, resolution as nat, r@.subrange(f * q, (f + 1) * q))
                },
    {
        let mut builder = TriangleMeshBuilder::new_empty();
        let x = apexes;
        let faces = [
            (x.up, x.back, x.left),
            (x.up, x.right, x.back),
            (x.up, x.forward, x.right),
            (x.up, x.left, x.forward),
            (x.down, x.left, x.back),
            (x.down, x.back, x.right),
            (x.down, x.right, x.forward),
            (x.down, x.forward, x.left),
        ];
        assert(faces@ =~= octahedron_faces(apexes));
        let ghost q = pow4(resolution as nat) as int;
        let mut i: usize = 0;
        while i < 8
            invariant
                0 <= i <= 8,
                faces@ == octahedron_faces(apexes),
                q == pow4(resolution as nat),
                forall|u: P, v: P| midpoint.requires((u, v)),
                builder@.len() == i * q,
                forall|f: int|
                    0 <= f < i ==> {
                        let (a, b, c) = #[trigger] octahedron_faces(apexes)[f];
                        subdivision_of(*midpoint, a, b, c, resolution as nat, builder@.subrange(f * q, (f + 1) * q))
                    },
            decreases 8 - i,
        {
            let (a, b, c) = faces[i];
            let ghost before = builder@;
            builder.subdivide_face(a, b, c, resolution, midpoint);
            proof {
                assert((i + 1) * q == i * q + q) by (nonlinear_arith);
                assert forall|f: int| 0 <= f < i + 1 implies {
                    let (a, b, c) = #[trigger] octahedron_faces(apexes)[f];
                    subdivision_of(*midpoint, a, b, c, resolution as nat, builder@.subrange(f * q, (f + 1) * q))
                } by {
                    if f < i {
                        assert(f * q + q == (f + 1) * q) by (nonlinear_arith);
                        assert((f + 1) * q <= i * q) by (nonlinear_arith)
                            requires f + 1 <= i, q >= 0;
                        assert(0 <= f * q) by (nonlinear_arith) requires f >= 0, q >= 0;
                        assert(builder@.subrange(f * q, (f + 1) * q) =~= before.subrange(f * q, (f + 1) * q));
                    } else {
                        assert(f == i);
                    }
                }
            }
            i = i + 1;
        }
        builder
    }

    /// The vertices of all triangles in order, three per triangle, with the
    /// index list of a renderer mesh: index `3 * i + k` names vertex `k` of
    /// triangle `i`, as no vertex is shared.
    pub fn vertices_and_indices(&self) -> (r: (Vec<P>, Vec<u32>))
        requires
            self@.len() * 3 <= 0x1_0000_0000,
        ensures
            r.0@ == flat_positions(self@),
            r.1@ == flat_indices(self@.len()),
    {
        let mut vertices: Vec<P> = Vec::new();
        let mut indices: Vec<u32> = Vec::new();
        let n = self.triangles.len();
        let mut i: usize = 0;
        while i < n
            invariant
                n == self@.len(),
                n * 3 <= 0x1_0000_0000,
                0 <= i <= n,
                vertices@.len() == 3 * i,
                indices@.len() == 3 * i,
                forall|j: int| 0 <= j < 3 * i ==> #[trigger] vertices@[j] == self@[j / 3].vertices[j % 3],
                forall|j: int| 0 <= j < 3 * i ==> #[trigger] indices@[j] == j,
            decreases n - i,
        {
            let t = self.triangles[i];
            let base: u32 = (3 * i) as u32;
            vertices.push(t.vertices[0]);
            vertices.push(t.vertices[1]);
            vertices.push(t.vertices[2]);
            indices.push(base);
            indices.push(base + 1);
            indices.push(base + 2);
            i = i + 1;
        }
        assert(vertices@ =~= flat_positions(self@));
        assert(indices@ =~= flat_indices(self@.len()));
        (vertices, indices)
    }

    /// One normal per vertex, flat-shaded: the normal that `normal_of`
    /// returned for a triangle, emitted once for each of its three vertices.
    pub fn normals<F: Fn(Triangle<P>) -> P>(&self, normal_of: &F) -> (r: Vec<P>)
        requires
            forall|t: Triangle<P>| normal_of.requires((t,)),
        ensures
            flat_normals_of(*normal_of, self@, r@),
    {
        let mut normals: Vec<P> = Vec::new();
        let n = self.triangles.len();
        let mut i: usize = 0;
        while i < n
            invariant
                n == self@.len(),
                0 <= i <= n,
                forall|t: Triangle<P>| normal_of.requires((t,)),
                normals@.len() == 3 * i,
                forall|m: int|
                    0 <= m < i ==> {
                        &&& normal_of.ensures((#[trigger] self@[m],), normals@[3 * m])
                        &&& normals@[3 * m + 1] == normals@[3 * m]
                        &&& normals@[3 * m + 2] == normals@[3 * m]
                    },
            decreases n - i,
        {
            let normal = normal_of(self.triangles[i]);
            let ghost before = normals@;
            normals.push(normal);
            normals.push(normal);
            normals.push(normal);
            assert forall|m: int| 0 <= m < i + 1 implies {
                &&& normal_of.ensures((#[trigger] self@[m],), normals@[3 * m])
                &&& normals@[3 * m + 1] == normals@[3 * m]
                &&& normals@[3 * m + 2] == normals@[3 * m]
            } by {
                if m < i {
                    assert(normal_of.ensures((self@[m],), before[3 * m]));
                    assert(normals@[3 * m] == before[3 * m]);
                    assert(normals@[3 * m + 1] == before[3 * m + 1]);
                    assert(normals@[3 * m + 2] == before[3 * m + 2]);
                } else {
                    assert(self@[m] == self.triangles[i as int]);
                    assert(normal_of.ensures((self@[m],), normal));
                    assert(normals@[3 * m] == normal);
                    assert(normals@[3 * m + 1] == normal);
                    assert(normals@[3 * m + 2] == normal);
                }
            }
            i = i + 1;
        }
        normals
    }

    /// Texture coordinates, three per triangle: those that `uv_of` returned
    /// for the triangle, in the order of its vertices.
    pub fn uvs<U: Copy, F: Fn(Triangle<P>) -> [U; 3]>(&self, uv_of: &F) -> (r: Vec<U>)
        requires
            forall|t: Triangle<P>| uv_of.requires((t,)),
        ensures
            flat_uvs_of(*uv_of, self@, r@),
    {
        let mut uvs: Vec<U> = Vec::new();
        let n = self.triangles.len();
        let mut i: usize = 0;
        while i < n
            invariant
                n == self@.len(),
                0 <= i <= n,
                forall|t: Triangle<P>| uv_of.requires((t,)),
                uvs@.len() == 3 * i,
                forall|m: int|
                    0 <= m < i ==> uv_of.ensures((#[trigger] self@[m],), [uvs@[3 * m], uvs@[3 * m + 1], uvs@[3 * m + 2]]),
            decreases n - i,
        {
            let local = uv_of(self.triangles[i]);
            let ghost before = uvs@;
            uvs.push(local[0]);
            uvs.push(local[1]);
            uvs.push(local[2]);
            assert([uvs@[3 * i], uvs@[3 * i + 1], uvs@[3 * i + 2]] =~= local);
            i = i + 1;
        }
        uvs
    }

    /// Moves every vertex occurrence: `noise` gives a height at the vertex and
    /// `displace` moves the vertex by that height (along its direction from
    /// the origin). Each triangle keeps its place in the sequence.
    pub fn apply_noise<H, N: Fn(P) -> H, D: Fn(P, H) -> P>(&mut self, noise: &N, displace: &D) -> (r: &mut Self)
        requires
            forall|p: P| noise.requires((p,)),
            forall|p: P, h: H| displace.requires((p, h)),
        ensures
            *final(self) == *final(r),
            r@.len() == old(self)@.len(),
            forall|i: int, k: int|
                0 <= i < r@.len() && 0 <= k < 3 ==> displaced_by(
                    *noise,
                    *displace,
                    old(self)@[i].vertices[k],
                    #[trigger] r@[i].vertices[k],
                ),
    {
        let mut moved: Vec<Triangle<P>> = Vec::new();
        let n = self.triangles.len();
        let mut i: usize = 0;
        while i < n
            invariant
                n == self@.len(),
                0 <= i <= n,
                forall|p: P| noise.requires((p,)),
                forall|p: P, h: H| displace.requires((p, h)),
                moved@.len() == i,
                forall|m: int, k: int|
                    0 <= m < i && 0 <= k < 3 ==> displaced_by(
                        *noise,
                        *displace,
                        self@[m].vertices[k],
                        #[trigger] moved@[m].vertices[k],
                    ),
            decreases n - i,
        {
            let t = self.triangles[i];
            let h0 = noise(t.vertices[0]);
            let h1 = noise(t.vertices[1]);
            let h2 = noise(t.vertices[2]);
            let p0 = displace(t.vertices[0], h0);
            let p1 = displace(t.vertices[1], h1);
            let p2 = displace(t.vertices[2], h2);
            let m = Triangle::new(p0, p1, p2);
            moved.push(m);
            assert(displaced_by(*noise, *displace, t.vertices[0], m.vertices[0]));
            assert(displaced_by(*noise, *displace, t.vertices[1], m.vertices[1]));
            assert(displaced_by(*noise, *displace, t.vertices[2], m.vertices[2]));
            i = i + 1;
        }
        self.triangles = moved;
        self
    }
}

} // verus!
