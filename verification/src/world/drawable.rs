//! Meshes: vertex and index data of one object, or of many merged into one.

use vstd::prelude::*;

verus! {

/// Vertex and index data. The indices of a mesh built for one object count
/// from that object's own first vertex.
pub struct Triangles<V> {
    pub vertices: Vec<V>,
    pub indices: Vec<u32>,
}

/// The indices `indices`, each moved up by `offset`.
pub open spec fn offset_indices(indices: Seq<u32>, offset: int) -> Seq<int> {
    Seq::new(indices.len(), |i: int| indices[i] + offset)
}

/// Every index in `indices` names one of the first `count` vertices.
pub open spec fn indices_within(indices: Seq<u32>, count: int) -> bool {
    forall|i: int| 0 <= i < indices.len() ==> (#[trigger] indices[i]) < count
}

/// `indices` read as mathematical integers.
pub open spec fn as_ints(indices: Seq<u32>) -> Seq<int> {
    offset_indices(indices, 0)
}

impl<V> Triangles<V> {
    /// Every index names a vertex of this mesh.
    pub open spec fn self_contained(&self) -> bool {
        indices_within(self.indices@, self.vertices@.len() as int)
    }

    /// A mesh without vertices.
    pub fn new() -> (mesh: Self)
        ensures
            mesh.vertices@.len() == 0,
            mesh.indices@.len() == 0,
            mesh.self_contained(),
    {
        Triangles { vertices: Vec::new(), indices: Vec::new() }
    }
}

impl<V: Copy> Triangles<V> {
    /// Appends `mesh` behind the vertices already present: its vertices are
    /// copied as they are, and each of its indices is moved up by the number
    /// of vertices that were there before.
    pub fn append(&mut self, mesh: &Triangles<V>)
        requires
            mesh.self_contained(),
            old(self).vertices@.len() + mesh.vertices@.len() <= u32::MAX,
        ensures
            final(self).vertices@ == old(self).vertices@ + mesh.vertices@,
            as_ints(final(self).indices@) == as_ints(old(self).indices@) + offset_indices(
                mesh.indices@,
                old(self).vertices@.len() as int,
            ),
            old(self).self_contained() ==> final(self).self_contained(),
    {
        let offset: u32 = self.vertices.len() as u32;
        let ghost before = self.indices@;
        let mut i: usize = 0;
        while i < mesh.indices.len()
            invariant
                i <= mesh.indices@.len(),
                mesh.self_contained(),
                offset + mesh.vertices@.len() <= u32::MAX,
                self.vertices@ == old(self).vertices@,
                offset == old(self).vertices@.len(),
                self.indices@.len() == before.len() + i,
                forall|k: int| 0 <= k < before.len() ==> self.indices@[k] == before[k],
                forall|k: int|
                    0 <= k < i ==> (#[trigger] self.indices@[before.len() + k]) == mesh.indices@[k]
                        + offset,
            decreases mesh.indices@.len() - i,
        {
            self.indices.push(mesh.indices[i] + offset);
            i += 1;
        }
        let mut j: usize = 0;
        while j < mesh.vertices.len()
            invariant
                j <= mesh.vertices@.len(),
                self.indices@.len() == before.len() + mesh.indices@.len(),
                forall|k: int| 0 <= k < before.len() ==> self.indices@[k] == before[k],
                forall|k: int|
                    0 <= k < mesh.indices@.len() ==> (#[trigger] self.indices@[before.len() + k])
                        == mesh.indices@[k] + offset,
                self.vertices@ =~= old(self).vertices@ + mesh.vertices@.subrange(0, j as int),
            decreases mesh.vertices@.len() - j,
        {
            self.vertices.push(mesh.vertices[j]);
            j += 1;
        }
        proof {
            assert(mesh.vertices@.subrange(0, mesh.vertices@.len() as int) =~= mesh.vertices@);
            assert(as_ints(self.indices@) =~= as_ints(before) + offset_indices(
                mesh.indices@,
                offset as int,
            )) by {
                assert forall|k: int| 0 <= k < self.indices@.len() implies as_ints(
                    self.indices@,
                )[k] == (as_ints(before) + offset_indices(mesh.indices@, offset as int))[k] by {
                    if k >= before.len() {
                        assert(self.indices@[before.len() + (k - before.len())]
                            == mesh.indices@[k - before.len()] + offset);
                    }
                }
            }
            if old(self).self_contained() {
                assert forall|k: int| 0 <= k < self.indices@.len() implies (
                #[trigger] self.indices@[k]) < self.vertices@.len() by {
                    if k >= before.len() {
                        let m = k - before.len();
                        assert(self.indices@[before.len() + m] == mesh.indices@[m] + offset);
                        assert(mesh.indices@[m] < mesh.vertices@.len());
                    } else {
                        assert(self.indices@[k] == before[k]);
                        assert(before[k] < old(self).vertices@.len());
                    }
                }
            }
        }
    }
}

impl<V> Triangles<V> {
    /// Tests whether every index names a vertex of this mesh.
    pub fn is_self_contained(&self) -> (ok: bool)
        ensures
            ok == self.self_contained(),
    {
        let count = self.vertices.len();
        let mut i: usize = 0;
        while i < self.indices.len()
            invariant
                i <= self.indices@.len(),
                count == self.vertices@.len(),
                forall|k: int| 0 <= k < i ==> (#[trigger] self.indices@[k]) < count,
            decreases self.indices@.len() - i,
        {
            if self.indices[i] as usize >= count {
                return false;
            }
            i += 1;
        }
        true
    }
}

/// What the world asks of anything it draws: a centre, a colour, an optional
/// light, and a mesh whose indices count from the object's own first vertex.
pub trait Drawable {
    /// A continuous position in space.
    type Point;

    /// A display colour.
    type Color;

    /// The colour of an emitted light.
    type Glow;

    /// One vertex of a mesh.
    type Vertex;

    /// The continuous centre of the object.
    fn center(&self) -> Self::Point;

    fn set_center(&mut self, center: Self::Point);

    /// The display colour of the object.
    fn color(&self) -> Self::Color;

    fn set_color(&mut self, color: Self::Color);

    /// The colour of the light that the object emits, if it emits one.
    fn light(&self) -> Option<Self::Glow>;

    fn set_light(&mut self, light: Self::Glow);

    /// The mesh of the object as it stands. Its indices are expected to
    /// count from its own first vertex; the world tests that before it
    /// merges the mesh with others.
    fn build_object_data(&self) -> Triangles<Self::Vertex>;
}

} // verus!
