//! Triangle meshes: vertex positions and the index triples of their faces.
use vstd::prelude::*;

verus! {

/// A face refers to a vertex that the mesh does not have.
#[derive(Clone, Copy, Debug, PartialEq, Eq, Structural)]
pub enum MeshError {
    IndexOutOfRange,
}

/// Vertices of type `V`, triangular faces as index triples into them, and
/// the bounding box (least and greatest corner) of the vertices.
pub struct Mesh<V> {
    vertices: Vec<V>,
    tris_face_indices: Vec<[usize; 3]>,
    bounding_box: (V, V),
}

/// Every index of every face is below `n`.
pub open spec fn faces_within(faces: Seq<[usize; 3]>, n: int) -> bool {
    forall|i: int, j: int| 0 <= i < faces.len() && 0 <= j < 3 ==> #[trigger] faces[i][j] < n
}

/// The triangles of one polygon's index list: its indices taken three at a
/// time, a shorter remainder dropped.
pub open spec fn polygon_triangles(p: Seq<usize>) -> Seq<[usize; 3]> {
    Seq::new((p.len() / 3) as nat, |k: int| [p[3 * k], p[3 * k + 1], p[3 * k + 2]])
}

/// The triangles of all polygons, in order.
pub open spec fn all_triangles(ps: Seq<Seq<usize>>) -> Seq<[usize; 3]>
    decreases ps.len(),
{
    if ps.len() == 0 {
        Seq::empty()
    } else {
        all_triangles(ps.drop_last()) + polygon_triangles(ps.last())
    }
}

/// Splits each polygon's index list into triangles, three indices at a time.
pub fn triangulate(polygons: &Vec<Vec<usize>>) -> (r: Vec<[usize; 3]>)
    ensures
        r@ == all_triangles(polygons@.map_values(|p: Vec<usize>| p@)),
{
    let ghost views = polygons@.map_values(|p: Vec<usize>| p@);
    let mut r: Vec<[usize; 3]> = Vec::new();
    let mut i: usize = 0;
    while i < polygons.len()
        invariant
            i <= polygons@.len(),
            views == polygons@.map_values(|p: Vec<usize>| p@),
            r@ == all_triangles(views.take(i as int)),
        decreases polygons@.len() - i,
    {
        let indices = &polygons[i];
        let ghost before = r@;
        let mut k: usize = 0;
        while indices.len() - k >= 3
            invariant
                k % 3 == 0,
                k <= indices@.len(),
                r@ == before + polygon_triangles(indices@).take(k as int / 3),
            decreases indices@.len() - k,
        {
            r.push([indices[k], indices[k + 1], indices[k + 2]]);
            assert(polygon_triangles(indices@).take(k as int / 3 + 1) =~= polygon_triangles(
                indices@,
            ).take(k as int / 3).push([indices@[k as int], indices@[k + 1], indices@[k + 2]]));
            k = k + 3;
        }
        assert(polygon_triangles(indices@).take(k as int / 3) =~= polygon_triangles(indices@));
        assert(views.take(i + 1).drop_last() =~= views.take(i as int));
        i = i + 1;
    }
    assert(views.take(i as int) =~= views);
    r
}

impl<V: Copy> Mesh<V> {
    pub closed spec fn vertex_seq(&self) -> Seq<V> {
        self.vertices@
    }

    pub closed spec fn face_seq(&self) -> Seq<[usize; 3]> {
        self.tris_face_indices@
    }

    pub closed spec fn bounds(&self) -> (V, V) {
        self.bounding_box
    }

    /// Every face refers to vertices of the mesh.
    pub open spec fn wf(&self) -> bool {
        faces_within(self.face_seq(), self.vertex_seq().len() as int)
    }

    /// A mesh of `vertices` and the faces `tris_face_indices`, or
    /// `IndexOutOfRange` when a face refers to a vertex it does not have.
    pub fn new(vertices: Vec<V>, tris_face_indices: Vec<[usize; 3]>, bounding_box: (V, V)) -> (r:
        Result<Mesh<V>, MeshError>)
        ensures
            faces_within(tris_face_indices@, vertices@.len() as int) <==> r is Ok,
            r matches Ok(m) ==> m.wf() && m.vertex_seq() == vertices@ && m.face_seq()
                == tris_face_indices@ && m.bounds() == bounding_box,
    {
        let n = vertices.len();
        let mut i: usize = 0;
        while i < tris_face_indices.len()
            invariant
                n == vertices@.len(),
                i <= tris_face_indices@.len(),
                faces_within(tris_face_indices@.take(i as int), n as int),
            decreases tris_face_indices@.len() - i,
        {
            let face = tris_face_indices[i];
            if face[0] >= n || face[1] >= n || face[2] >= n {
                proof {
                    let j: int = if face[0] >= n { 0 } else if face[1] >= n { 1 } else { 2 };
                    assert(tris_face_indices@[i as int][j] >= n);
                }
                return Err(MeshError::IndexOutOfRange);
            }
            proof {
                assert forall|a: int, j: int|
                    0 <= a < i + 1 && 0 <= j < 3 implies #[trigger] tris_face_indices@.take(
                    i + 1,
                )[a][j] < n by {
                    if a < i {
                        assert(tris_face_indices@.take(i as int)[a] == tris_face_indices@.take(
                            i + 1,
                        )[a]);
                    }
                }
            }
            i = i + 1;
        }
        assert(tris_face_indices@.take(i as int) =~= tris_face_indices@);
        Ok(Mesh { vertices, tris_face_indices, bounding_box })
    }

    /// The vertices.
    pub fn vertices(&self) -> (r: &Vec<V>)
        ensures
            r@ == self.vertex_seq(),
    {
        &self.vertices
    }

    /// The least and greatest corner of the vertices' bounding box.
    pub fn bounding_box(&self) -> (r: (V, V))
        ensures
            r == self.bounds(),
    {
        self.bounding_box
    }

    /// Each face with its indices resolved to vertices, in face order.
    pub fn tris_faces(&self) -> (r: Vec<[V; 3]>)
        requires
            self.wf(),
        ensures
            r@.len() == self.face_seq().len(),
            forall|i: int, j: int|
                0 <= i < r@.len() && 0 <= j < 3 ==> #[trigger] r@[i][j] == self.vertex_seq()[self.face_seq()[i][j] as int],
    {
        let mut r: Vec<[V; 3]> = Vec::new();
        let mut i: usize = 0;
        while i < self.tris_face_indices.len()
            invariant
                self.wf(),
                i <= self.face_seq().len(),
                r@.len() == i,
                forall|a: int, j: int|
                    0 <= a < i && 0 <= j < 3 ==> #[trigger] r@[a][j] == self.vertex_seq()[self.face_seq()[a][j] as int],
            decreases self.face_seq().len() - i,
        {
            let face = self.tris_face_indices[i];
            proof {
                assert(face[0] < self.vertices@.len());
                assert(face[1] < self.vertices@.len());
                assert(face[2] < self.vertices@.len());
            }
            let resolved = [self.vertices[face[0]], self.vertices[face[1]], self.vertices[face[2]]];
            r.push(resolved);
            i = i + 1;
        }
        r
    }
}

} // verus!
