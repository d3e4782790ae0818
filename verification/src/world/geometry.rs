//! The geometry handed to a renderer: the cached meshes of the tiles and the
//! meshes of the entities, merged into one mesh with consistent indices.

use super::drawable::{as_ints, offset_indices, Triangles};
use super::entity::Entity;
use super::tile::Tile;
use super::{Placed, World};
use vstd::prelude::*;

verus! {

/// The vertices of the whole world: `base`, then those of every mesh in
/// order.
pub open spec fn merged_vertices<V>(base: Seq<V>, meshes: Seq<Triangles<V>>) -> Seq<V>
    decreases meshes.len(),
{
    if meshes.len() == 0 {
        base
    } else {
        merged_vertices(base, meshes.drop_last()) + meshes.last().vertices@
    }
}

/// The indices of the whole world: `base`, then those of every mesh in
/// order, each moved up by the number of vertices that precede the vertices
/// of its mesh.
pub open spec fn merged_indices<V>(
    base: Seq<int>,
    base_vertices: Seq<V>,
    meshes: Seq<Triangles<V>>,
) -> Seq<int>
    decreases meshes.len(),
{
    if meshes.len() == 0 {
        base
    } else {
        merged_indices(base, base_vertices, meshes.drop_last()) + offset_indices(
            meshes.last().indices@,
            merged_vertices(base_vertices, meshes.drop_last()).len() as int,
        )
    }
}

/// Every mesh is self-contained.
pub open spec fn all_self_contained<V>(meshes: Seq<Triangles<V>>) -> bool {
    forall|i: int| 0 <= i < meshes.len() ==> (#[trigger] meshes[i]).self_contained()
}

/// Taking in one more mesh adds its vertices and indices behind those merged
/// so far.
pub proof fn lemma_merged_step<V>(
    base: Seq<int>,
    base_vertices: Seq<V>,
    meshes: Seq<Triangles<V>>,
    n: int,
)
    requires
        0 <= n < meshes.len(),
    ensures
        merged_vertices(base_vertices, meshes.take(n + 1)) == merged_vertices(
            base_vertices,
            meshes.take(n),
        ) + meshes[n].vertices@,
        merged_indices(base, base_vertices, meshes.take(n + 1)) == merged_indices(
            base,
            base_vertices,
            meshes.take(n),
        ) + offset_indices(
            meshes[n].indices@,
            merged_vertices(base_vertices, meshes.take(n)).len() as int,
        ),
{
    assert(meshes.take(n + 1).drop_last() =~= meshes.take(n));
}

/// The merged sequences only grow as more meshes are taken in.
pub proof fn lemma_merged_grows<V>(
    base: Seq<int>,
    base_vertices: Seq<V>,
    meshes: Seq<Triangles<V>>,
    n: int,
)
    requires
        0 <= n <= meshes.len(),
    ensures
        merged_vertices(base_vertices, meshes.take(n)).len() <= merged_vertices(
            base_vertices,
            meshes,
        ).len(),
        merged_indices(base, base_vertices, meshes.take(n)).len() <= merged_indices(
            base,
            base_vertices,
            meshes,
        ).len(),
    decreases meshes.len(),
{
    if n == meshes.len() {
        assert(meshes.take(n) =~= meshes);
    } else {
        assert(meshes.drop_last().take(n) =~= meshes.take(n));
        lemma_merged_grows(base, base_vertices, meshes.drop_last(), n);
    }
}

impl<T, E, V, G> World<T, E, V, G> {
    /// Whether `meshes`, one for each entity, can be merged with the cached
    /// tile geometry: each is self-contained, and the merged counts fit the
    /// index type.
    pub open spec fn fits(&self, meshes: Seq<Triangles<V>>) -> bool {
        &&& all_self_contained(meshes)
        &&& merged_vertices(self.tile_vertices(), meshes).len() <= u32::MAX
        &&& merged_indices(as_ints(self.tile_indices()), self.tile_vertices(), meshes).len()
            <= u32::MAX
    }
}

impl<T, E, V: Copy, G> World<T, E, V, G> {
    /// Merges the cached tile geometry with `meshes`, the meshes of the
    /// entities in order, into one mesh, and returns it with its number of
    /// indices. Every index of the result names a vertex of the result.
    pub fn assemble_geometry(&self, meshes: &Vec<Triangles<V>>) -> (buffers: (Triangles<V>, u32))
        requires
            self.wf(),
            self.fits(meshes@),
        ensures
            buffers.0.vertices@ == merged_vertices(self.tile_vertices(), meshes@),
            as_ints(buffers.0.indices@) == merged_indices(
                as_ints(self.tile_indices()),
                self.tile_vertices(),
                meshes@,
            ),
            buffers.0.self_contained(),
            buffers.1 == buffers.0.indices@.len(),
    {
        let mut merged: Triangles<V> = Triangles::new();
        merged.append(&self.tile_geometry);
        proof {
            assert(merged.vertices@ =~= self.tile_vertices());
            assert(as_ints(merged.indices@) =~= as_ints(self.tile_indices()));
            assert(meshes@.take(0) =~= Seq::<Triangles<V>>::empty());
            lemma_merged_grows(as_ints(self.tile_indices()), self.tile_vertices(), meshes@, 0);
        }
        let mut i: usize = 0;
        while i < meshes.len()
            invariant
                i <= meshes@.len(),
                self.fits(meshes@),
                merged.vertices@ == merged_vertices(self.tile_vertices(), meshes@.take(i as int)),
                as_ints(merged.indices@) == merged_indices(
                    as_ints(self.tile_indices()),
                    self.tile_vertices(),
                    meshes@.take(i as int),
                ),
                merged.self_contained(),
            decreases meshes@.len() - i,
        {
            proof {
                lemma_merged_step(
                    as_ints(self.tile_indices()),
                    self.tile_vertices(),
                    meshes@,
                    i as int,
                );
                lemma_merged_grows(
                    as_ints(self.tile_indices()),
                    self.tile_vertices(),
                    meshes@,
                    i + 1,
                );
            }
            merged.append(&meshes[i]);
            i += 1;
        }
        proof {
            assert(meshes@.take(i as int) =~= meshes@);
            assert(as_ints(merged.indices@).len() == merged.indices@.len());
        }
        let index_count = merged.indices.len() as u32;
        (merged, index_count)
    }

    /// Tests whether `meshes` can be merged with the cached tile geometry.
    pub fn geometry_fits(&self, meshes: &Vec<Triangles<V>>) -> (ok: bool)
        requires
            self.wf(),
        ensures
            ok == self.fits(meshes@),
    {
        let limit: usize = 0xffff_ffff;
        let mut vertex_count: usize = self.tile_geometry.vertices.len();
        let mut index_count: usize = self.tile_geometry.indices.len();
        let ghost base = as_ints(self.tile_indices());
        proof {
            assert(meshes@.take(0) =~= Seq::<Triangles<V>>::empty());
            assert(base.len() == self.tile_indices().len());
        }
        let mut i: usize = 0;
        while i < meshes.len()
            invariant
                i <= meshes@.len(),
                limit == u32::MAX,
                base == as_ints(self.tile_indices()),
                all_self_contained(meshes@.take(i as int)),
                vertex_count == merged_vertices(self.tile_vertices(), meshes@.take(i as int)).len(),
                index_count == merged_indices(
                    base,
                    self.tile_vertices(),
                    meshes@.take(i as int),
                ).len(),
                vertex_count <= limit,
                index_count <= limit,
            decreases meshes@.len() - i,
        {
            proof {
                lemma_merged_step(base, self.tile_vertices(), meshes@, i as int);
                lemma_merged_grows(base, self.tile_vertices(), meshes@, i + 1);
            }
            let mesh = &meshes[i];
            if !mesh.is_self_contained() {
                proof {
                    assert(!meshes@[i as int].self_contained());
                }
                return false;
            }
            if mesh.vertices.len() > limit - vertex_count || mesh.indices.len() > limit
                - index_count {
                return false;
            }
            vertex_count += mesh.vertices.len();
            index_count += mesh.indices.len();
            proof {
                assert forall|k: int| 0 <= k < i + 1 implies (#[trigger] meshes@.take(
                    i + 1,
                )[k]).self_contained() by {
                    if k < i {
                        assert(meshes@.take(i as int)[k].self_contained());
                    }
                }
            }
            i += 1;
        }
        proof {
            assert(meshes@.take(i as int) =~= meshes@);
        }
        true
    }
}

/// `meshes` holds, for each of `entities` in order, a mesh that the entity
/// built when it was asked for one.
pub open spec fn built_by<E: Entity>(entities: Seq<E>, meshes: Seq<Triangles<E::Vertex>>) -> bool {
    &&& meshes.len() == entities.len()
    &&& forall|i: int|
        0 <= i < entities.len() ==> call_ensures(
            E::build_object_data,
            (&entities[i],),
            #[trigger] meshes[i],
        )
}

impl<V: Copy, G: Copy, T: Tile<Vertex = V, Glow = G>, E: Entity<Vertex = V, Glow = G>> World<
    T,
    E,
    V,
    G,
> {
    /// The mesh of every entity, built anew, in the order of insertion: each
    /// entity is asked once for its mesh, and no tile is asked.
    pub fn entity_meshes(&self) -> (meshes: Vec<Triangles<V>>)
        ensures
            built_by(self.entities(), meshes@),
    {
        let mut meshes: Vec<Triangles<V>> = Vec::new();
        let mut i: usize = 0;
        while i < self.entity_objects.len()
            invariant
                i <= self.entities().len(),
                meshes@.len() == i,
                forall|k: int|
                    0 <= k < i ==> call_ensures(
                        E::build_object_data,
                        (&self.entities()[k],),
                        #[trigger] meshes@[k],
                    ),
            decreases self.entities().len() - i,
        {
            meshes.push(self.entity_objects[i].build_object_data());
            i += 1;
        }
        meshes
    }

    /// Builds the mesh of every entity, in the order of insertion, and
    /// merges them with the cached tile geometry, as `assemble_geometry`
    /// does. Where one of the meshes built is not self-contained, or the
    /// merged counts do not fit the index type, nothing is assembled. The
    /// world stays as it is: no mesh of an entity joins the cached geometry.
    pub fn build_geometry_buffers(&self) -> (buffers: Option<(Triangles<V>, u32)>)
        requires
            self.wf(),
        ensures
            exists|meshes: Seq<Triangles<V>>| #[trigger]
                built_by(self.entities(), meshes) && (match buffers {
                    Some(b) => {
                        &&& self.fits(meshes)
                        &&& b.0.vertices@ == merged_vertices(self.tile_vertices(), meshes)
                        &&& as_ints(b.0.indices@) == merged_indices(
                            as_ints(self.tile_indices()),
                            self.tile_vertices(),
                            meshes,
                        )
                    },
                    None => !self.fits(meshes),
                }),
            buffers matches Some(b) ==> b.0.self_contained() && b.1 == b.0.indices@.len(),
            self.entities().len() == 0 ==> buffers.is_some(),
    {
        let meshes = self.entity_meshes();
        proof {
            if self.entities().len() == 0 {
                assert(as_ints(self.tile_indices()).len() == self.tile_indices().len());
            }
        }
        if self.geometry_fits(&meshes) {
            let buffers = self.assemble_geometry(&meshes);
            Some(buffers)
        } else {
            None
        }
    }
}

/// In a world made of one tile and no entity, the geometry handed to a
/// renderer is the mesh of that tile: it has as many indices as the mesh, and
/// each of them names one of its vertices.
pub proof fn lemma_single_tile_geometry<T, E, V, G>(
    empty: World<T, E, V, G>,
    world: World<T, E, V, G>,
    placed: Placed<T, G>,
    mesh: Triangles<V>,
)
    requires
        empty.tile_vertices().len() == 0,
        empty.tile_indices().len() == 0,
        empty.admits(mesh),
        world.grown_from(empty, placed, mesh),
        world.entities().len() == 0,
    ensures
        world.fits(Seq::empty()),
        merged_vertices(world.tile_vertices(), Seq::empty()) == mesh.vertices@,
        merged_indices(as_ints(world.tile_indices()), world.tile_vertices(), Seq::empty())
            == as_ints(mesh.indices@),
        as_ints(mesh.indices@).len() == mesh.indices@.len(),
        forall|k: int|
            0 <= k < mesh.indices@.len() ==> 0 <= #[trigger] as_ints(mesh.indices@)[k]
                < mesh.vertices@.len(),
{
    assert(empty.tile_vertices() + mesh.vertices@ =~= mesh.vertices@);
    assert(as_ints(empty.tile_indices()) + offset_indices(mesh.indices@, 0) =~= as_ints(
        mesh.indices@,
    ));
    assert(as_ints(world.tile_indices()).len() == world.tile_indices().len());
}

} // verus!
