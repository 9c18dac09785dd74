//! The output aggregate of one chunk extraction: parallel sequences of
//! vertex positions, per-vertex normals, and triangle indices.

use vstd::prelude::*;

verus! {

/// A triangle mesh. `vertices` holds three fixed-point coordinates per
/// vertex; `normals` holds one (unnormalized) face normal per vertex, three
/// coordinates each, so the two sequences always have the same length;
/// `indices` names vertices in groups of three, one group per triangle;
/// `index_count` caches `indices.len()`.
///
/// Normals are exact cross products of two triangle edge vectors. Their
/// direction is the shading-relevant part; a renderer rescales them to unit
/// length when converting to its own floating-point vertex format.
#[derive(Debug)]
pub struct Mesh {
    pub vertices: Vec<i64>,
    pub normals: Vec<i64>,
    pub indices: Vec<u32>,
    pub index_count: usize,
}

impl Mesh {
    /// Structural invariant: whole vertices only, one normal per vertex,
    /// one index per vertex, and every index in range.
    pub open spec fn wf(self) -> bool {
        &&& self.vertices@.len() % 3 == 0
        &&& self.normals@.len() == self.vertices@.len()
        &&& self.indices@.len() * 3 == self.vertices@.len()
        &&& self.index_count == self.indices@.len()
        &&& forall|i: int|
            0 <= i < self.indices@.len()
                ==> (#[trigger] self.indices@[i]) as int * 3 < self.vertices@.len()
    }

    /// Number of triangles held.
    pub open spec fn spec_triangle_count(self) -> int {
        self.indices@.len() as int / 3
    }

    /// An empty mesh.
    pub fn empty() -> (m: Mesh)
        ensures
            m.wf(),
            m.vertices@ == Seq::<i64>::empty(),
            m.normals@ == Seq::<i64>::empty(),
            m.indices@ == Seq::<u32>::empty(),
            m.index_count == 0,
    {
        Mesh { vertices: Vec::new(), normals: Vec::new(), indices: Vec::new(), index_count: 0 }
    }

    /// Number of triangles held, as an executable query.
    pub fn triangle_count(&self) -> (n: usize)
        requires
            self.wf(),
        ensures
            n == self.spec_triangle_count(),
    {
        self.indices.len() / 3
    }
}

} // verus!
