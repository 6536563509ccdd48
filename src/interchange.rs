use vstd::prelude::*;

use crate::builder::{flat_indices, flat_normals_of, flat_positions, flat_uvs_of, TriangleMeshBuilder};
use crate::triangle::Triangle;

verus! {

/// The index buffer of a renderer mesh, in either width.
#[derive(Clone, Debug)]
pub enum Indices {
    U16(Vec<u16>),
    U32(Vec<u32>),
}

/// A renderer mesh: vertex attributes in parallel buffers and a flat list of
/// triangle-vertex indices, three per triangle. An attribute or the index
/// buffer may be absent.
#[derive(Clone, Debug)]
pub struct IndexedMesh<P, U> {
    pub positions: Option<Vec<P>>,
    pub normals: Vec<P>,
    pub uvs: Vec<U>,
    pub indices: Option<Indices>,
}

/// Why a renderer mesh could not be read as triangles.
#[derive(Clone, Copy, Debug, PartialEq, Eq, Structural)]
pub enum MeshConversionError {
    /// The mesh has no position attribute.
    MissingPositions,
    /// The mesh has no index buffer.
    MissingIndices,
    /// The number of indices is not a multiple of three.
    IncompleteTriangle,
    /// An index names no position.
    IndexOutOfRange,
}

/// The indices of `ix`, widened to 32 bits.
pub open spec fn widened(ix: Indices) -> Seq<u32> {
    match ix {
        Indices::U16(v) => Seq::new(v@.len(), |j: int| v@[j] as u32),
        Indices::U32(v) => v@,
    }
}

/// The triangles read from `positions` and the widened index list `ix`:
/// triangle `i` is made of the positions that indices `3i`, `3i + 1` and
/// `3i + 2` name.
pub open spec fn spec_from_indexed<P>(positions: Option<Seq<P>>, ix: Option<Seq<u32>>) -> Result<
    Seq<Triangle<P>>,
    MeshConversionError,
> {
    match positions {
        None => Err(MeshConversionError::MissingPositions),
        Some(pos) => match ix {
            None => Err(MeshConversionError::MissingIndices),
            Some(ix) => {
                if ix.len() % 3 != 0 {
                    Err(MeshConversionError::IncompleteTriangle)
                } else if exists|j: int| 0 <= j < ix.len() && #[trigger] ix[j] >= pos.len() {
                    Err(MeshConversionError::IndexOutOfRange)
                } else {
                    Ok(
                        Seq::new(
                            ix.len() / 3,
                            |i: int|
                                Triangle::spec_new(
                                    pos[ix[3 * i] as int],
                                    pos[ix[3 * i + 1] as int],
                                    pos[ix[3 * i + 2] as int],
                                ),
                        ),
                    )
                }
            },
        },
    }
}

/// The positions of a mesh, as a sequence.
pub open spec fn positions_view<P>(positions: Option<Vec<P>>) -> Option<Seq<P>> {
    match positions {
        None => None,
        Some(v) => Some(v@),
    }
}

/// The index buffer of a mesh, widened.
pub open spec fn indices_view(indices: Option<Indices>) -> Option<Seq<u32>> {
    match indices {
        None => None,
        Some(ix) => Some(widened(ix)),
    }
}

/// The result of a conversion, as a triangle sequence.
pub open spec fn conversion_view<P>(r: Result<TriangleMeshBuilder<P>, MeshConversionError>) -> Result<
    Seq<Triangle<P>>,
    MeshConversionError,
> {
    match r {
        Ok(b) => Ok(b@),
        Err(e) => Err(e),
    }
}

fn widen(ix: &Indices) -> (r: Vec<u32>)
    ensures
        r@ == widened(*ix),
{
    match ix {
        Indices::U32(v) => v.clone(),
        Indices::U16(v) => {
            let mut out: Vec<u32> = Vec::new();
            let mut j: usize = 0;
            while j < v.len()
                invariant
                    0 <= j <= v@.len(),
                    out@ =~= Seq::new(j as nat, |m: int| v@[m] as u32),
                decreases v@.len() - j,
            {
                out.push(v[j] as u32);
                j = j + 1;
            }
            out
        },
    }
}

impl<P: Copy> TriangleMeshBuilder<P> {
    /// The renderer mesh of these triangles: their vertices in order, the
    /// flat-shaded normals and the texture coordinates that `normal_of` and
    /// `uv_of` give, and the 32-bit index list `0, 1, 2, ...`.
    pub fn build<U: Copy, F: Fn(Triangle<P>) -> P, G: Fn(Triangle<P>) -> [U; 3]>(
        &self,
        normal_of: &F,
        uv_of: &G,
    ) -> (r: IndexedMesh<P, U>)
        requires
            self@.len() * 3 <= 0x1_0000_0000,
            forall|t: Triangle<P>| normal_of.requires((t,)),
            forall|t: Triangle<P>| uv_of.requires((t,)),
        ensures
            positions_view(r.positions) == Some(flat_positions(self@)),
            r.indices matches Some(Indices::U32(ix)) && ix@ == flat_indices(self@.len()),
            indices_view(r.indices) == Some(flat_indices(self@.len())),
            flat_normals_of(*normal_of, self@, r.normals@),
            flat_uvs_of(*uv_of, self@, r.uvs@),
    {
        let (vertices, indices) = self.vertices_and_indices();
        let normals = self.normals(normal_of);
        let uvs = self.uvs(uv_of);
        IndexedMesh { positions: Some(vertices), normals, uvs, indices: Some(Indices::U32(indices)) }
    }

    /// Reads a renderer mesh back as independent triangles, walking the index
    /// buffer three indices at a time; 16-bit indices are widened first.
    pub fn from_indexed<U>(mesh: &IndexedMesh<P, U>) -> (r: Result<Self, MeshConversionError>)
        ensures
            conversion_view(r) == spec_from_indexed(positions_view(mesh.positions), indices_view(mesh.indices)),
    {
        let positions = match &mesh.positions {
            None => {
                return Err(MeshConversionError::MissingPositions);
            },
            Some(p) => p,
        };
        let ix = match &mesh.indices {
            None => {
                return Err(MeshConversionError::MissingIndices);
            },
            Some(ix) => widen(ix),
        };
        assert(positions_view(mesh.positions) == Some(positions@));
        assert(indices_view(mesh.indices) == Some(ix@));
        let len = ix.len();
        if len % 3 != 0 {
            return Err(MeshConversionError::IncompleteTriangle);
        }
        let mut j: usize = 0;
        while j < ix.len()
            invariant
                0 <= j <= ix@.len(),
                len == ix@.len(),
                len % 3 == 0,
                positions_view(mesh.positions) == Some(positions@),
                indices_view(mesh.indices) == Some(ix@),
                forall|m: int| 0 <= m < j ==> #[trigger] ix@[m] < positions@.len(),
            decreases ix@.len() - j,
        {
            if ix[j] as usize >= positions.len() {
                assert(0 <= j < ix@.len() && ix@[j as int] >= positions@.len());
                return Err(MeshConversionError::IndexOutOfRange);
            }
            j = j + 1;
        }
        let mut triangles: Vec<Triangle<P>> = Vec::new();
        let count = len / 3;
        let mut i: usize = 0;
        while i < count
            invariant
                len == ix@.len(),
                count == ix@.len() / 3,
                ix@.len() % 3 == 0,
                0 <= i <= count,
                forall|m: int| 0 <= m < ix@.len() ==> #[trigger] ix@[m] < positions@.len(),
                triangles@.len() == i,
                forall|m: int|
                    0 <= m < i ==> #[trigger] triangles@[m] == Triangle::spec_new(
                        positions@[ix@[3 * m] as int],
                        positions@[ix@[3 * m + 1] as int],
                        positions@[ix@[3 * m + 2] as int],
                    ),
            decreases count - i,
        {
            let a = positions[ix[3 * i] as usize];
            let b = positions[ix[3 * i + 1] as usize];
            let c = positions[ix[3 * i + 2] as usize];
            triangles.push(Triangle::new(a, b, c));
            i = i + 1;
        }
        let r = TriangleMeshBuilder { triangles };
        assert(r@ =~= spec_from_indexed(positions_view(mesh.positions), indices_view(mesh.indices)).unwrap());
        Ok(r)
    }
}

/// Reading back the renderer mesh of a triangle sequence gives the same
/// triangles, vertex for vertex.
pub proof fn lemma_build_round_trip<P>(ts: Seq<Triangle<P>>)
    requires
        ts.len() * 3 <= 0x1_0000_0000,
    ensures
        spec_from_indexed(Some(flat_positions(ts)), Some(flat_indices(ts.len()))) == Ok::<Seq<Triangle<P>>, MeshConversionError>(ts),
{
    let pos = flat_positions(ts);
    let ix = flat_indices(ts.len());
    assert(ix.len() % 3 == 0);
    assert(!(exists|j: int| 0 <= j < ix.len() && #[trigger] ix[j] >= pos.len()));
    let back = Seq::new(
        ix.len() / 3,
        |i: int| Triangle::spec_new(pos[ix[3 * i] as int], pos[ix[3 * i + 1] as int], pos[ix[3 * i + 2] as int]),
    );
    assert forall|i: int| 0 <= i < ts.len() implies back[i] == ts[i] by {
        assert(ix[3 * i] as int == 3 * i);
        assert(ix[3 * i + 1] as int == 3 * i + 1);
        assert(ix[3 * i + 2] as int == 3 * i + 2);
        assert(pos[3 * i] == ts[i].vertices[0]);
        assert(pos[3 * i + 1] == ts[i].vertices[1]);
        assert(pos[3 * i + 2] == ts[i].vertices[2]);
        assert(back[i].vertices =~= ts[i].vertices);
    }
    assert(back =~= ts);
}

} // verus!
