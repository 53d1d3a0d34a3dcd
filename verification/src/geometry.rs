//! Triangle meshes of glyphs.

use vstd::prelude::*;

verus! {

/// The triangle mesh of a glyph: vertex positions and a triangle list that
/// refers to them by position. The vertex type is left to the renderer.
#[derive(Debug, Clone)]
pub struct GlyphGeometry<V> {
    /// The vertices.
    pub vertices: Vec<V>,
    /// The indices, three per triangle.
    pub indices: Vec<u16>,
}

/// Whether an index list describes whole triangles over `vertex_count`
/// vertices.
pub open spec fn valid_indices(indices: Seq<u16>, vertex_count: int) -> bool {
    &&& indices.len() % 3 == 0
    &&& forall|i: int| 0 <= i < indices.len() ==> (#[trigger] indices[i]) < vertex_count
}

impl<V> GlyphGeometry<V> {
    /// Every index refers to a vertex, and the indices come in triples.
    pub open spec fn wf(&self) -> bool {
        valid_indices(self.indices@, self.vertices@.len() as int)
    }

    /// The mesh without any triangle, as whitespace has it.
    pub fn empty() -> (g: Self)
        ensures
            g.wf(),
            g.vertices@.len() == 0,
            g.indices@.len() == 0,
    {
        GlyphGeometry { vertices: Vec::new(), indices: Vec::new() }
    }

    /// Builds a mesh from the output of a tessellator; `None` when an index
    /// refers to no vertex or the indices do not come in triples.
    pub fn new(vertices: Vec<V>, indices: Vec<u16>) -> (g: Option<Self>)
        ensures
            g is Some <==> valid_indices(indices@, vertices@.len() as int),
            g is Some ==> g.unwrap().vertices == vertices && g.unwrap().indices == indices,
    {
        if indices.len() % 3 != 0 {
            return None;
        }
        let count = vertices.len();
        let mut i: usize = 0;
        while i < indices.len()
            invariant
                i <= indices@.len(),
                count == vertices@.len(),
                forall|j: int| 0 <= j < i ==> (#[trigger] indices@[j]) < count,
            decreases indices@.len() - i,
        {
            if indices[i] as usize >= count {
                return None;
            }
            i = i + 1;
        }
        Some(GlyphGeometry { vertices, indices })
    }

    /// The number of triangles of the mesh.
    pub fn triangle_count(&self) -> (n: usize)
        ensures
            n == self.indices@.len() / 3,
    {
        self.indices.len() / 3
    }

    /// Whether the mesh draws nothing.
    pub fn is_empty(&self) -> (e: bool)
        ensures
            e == (self.indices@.len() == 0),
    {
        self.indices.len() == 0
    }
}

} // verus!
