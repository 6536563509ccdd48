//! Procedural triangle-mesh geometry: subdivided octahedra, per-vertex
//! displacement, plane slicing with boundary closure, conversion to and from
//! an indexed renderer mesh, and fragmentation of a mesh into pieces by
//! repeated random cuts.
//!
//! The engine is generic over the vertex type. Everything that decides where
//! a vertex goes (which side of a plane a triangle lies on, how a straddling
//! triangle is split, how a cut is closed, how fragments are queued) is
//! verified here. The numeric kernels that compute vertices (the side test of
//! a point against a plane, an edge/plane intersection, a centroid, a
//! spherical midpoint, a face normal, texture coordinates, a displacement, a
//! random direction) are handed in as closures, and every contract states its
//! result in terms of what those closures returned.
pub mod builder;
pub mod explode;
pub mod interchange;
pub mod slice;
pub mod triangle;
