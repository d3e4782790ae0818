//! The world: static tiles keyed by coordinate, dynamic entities in insertion
//! order, and the buffers assembled from both on every tick.
//!
//! Tiles and entities are supplied from outside through the traits `Tile`
//! and `Entity`. Nothing is assumed of what their methods return: a function
//! that asks an object for a value tests it before building on it, and each
//! such function stands beside one that takes the values as arguments and
//! says exactly what becomes of them.

pub mod drawable;
pub mod entity;
pub mod geometry;
pub mod lights;
pub mod physics;
pub mod tile;

pub use drawable::{Drawable, Triangles};
pub use entity::{Entity, EntityHandler};
pub use physics::{Pass, Response, Schedule, Step, Substep, MAX_SUBSTEPS};
pub use tile::Tile;

use cgmath::Point3;
use drawable::{as_ints, indices_within, offset_indices};
use std::collections::HashMap;
use vstd::prelude::*;

verus! {

broadcast use vstd::std_specs::hash::group_hash_axioms;

/// The key under which a coordinate is registered: its three components,
/// each moved into `0..65536`, read as the digits of one number.
pub open spec fn coord_key(p: Point3<i16>) -> int {
    (p.x + 32768) * 4294967296 + (p.y + 32768) * 65536 + (p.z + 32768)
}

/// Different coordinates have different keys.
pub proof fn lemma_coord_key_injective(p: Point3<i16>, q: Point3<i16>)
    ensures
        coord_key(p) == coord_key(q) <==> p == q,
        0 <= coord_key(p) <= u64::MAX,
{
}

fn key_of(p: Point3<i16>) -> (key: u64)
    ensures
        key == coord_key(p),
{
    let x: u64 = (p.x as i64 + 32768) as u64;
    let y: u64 = (p.y as i64 + 32768) as u64;
    let z: u64 = (p.z as i64 + 32768) as u64;
    x * 4294967296 + y * 65536 + z
}

/// A tile in its place: the coordinate it occupies and the light it emits,
/// both as they were when the tile was added.
pub struct Placed<T, G> {
    pub position: Point3<i16>,
    pub light: Option<G>,
    pub tile: T,
}

/// Tiles of type `T`, entities of type `E`, vertices of type `V` and light
/// colours of type `G`.
///
/// Tiles are kept in the order in which their coordinates were first
/// occupied; a tile added at an occupied coordinate takes the place of the
/// one that was there. The meshes of all tiles ever added are cached as one
/// mesh.
pub struct World<T, E, V, G> {
    tile_slots: HashMap<u64, usize>,
    tile_objects: Vec<Placed<T, G>>,
    tile_geometry: Triangles<V>,
    entity_objects: Vec<E>,
}

/// The tiles after `placed` was added to `tiles`: in the place of the one at
/// its coordinate, or behind all of them where that was free.
pub open spec fn tiles_with<T, G>(tiles: Seq<Placed<T, G>>, placed: Placed<T, G>) -> Seq<
    Placed<T, G>,
> {
    if exists|i: int| 0 <= i < tiles.len() && (#[trigger] tiles[i]).position == placed.position {
        tiles.update(
            choose|i: int| 0 <= i < tiles.len() && (#[trigger] tiles[i]).position
                == placed.position,
            placed,
        )
    } else {
        tiles.push(placed)
    }
}

impl<T, E, V, G> World<T, E, V, G> {
    /// The tiles, in the order in which their coordinates were first occupied.
    pub closed spec fn tiles(&self) -> Seq<Placed<T, G>> {
        self.tile_objects@
    }

    /// The entities, in the order of insertion.
    pub closed spec fn entities(&self) -> Seq<E> {
        self.entity_objects@
    }

    /// The cached vertices of every tile mesh built so far.
    pub closed spec fn tile_vertices(&self) -> Seq<V> {
        self.tile_geometry.vertices@
    }

    /// The cached indices of every tile mesh built so far.
    pub closed spec fn tile_indices(&self) -> Seq<u32> {
        self.tile_geometry.indices@
    }

    /// The lookup table names exactly the tiles, each under the key of its
    /// coordinate.
    pub closed spec fn index_agrees(&self) -> bool {
        &&& forall|key: u64| #[trigger]
            self.tile_slots@.contains_key(key) ==> {
                &&& self.tile_slots@[key] < self.tile_objects@.len()
                &&& coord_key(self.tile_objects@[self.tile_slots@[key] as int].position) == key
            }
        &&& forall|i: int|
            0 <= i < self.tile_objects@.len() ==> {
                &&& self.tile_slots@.contains_key(
                    coord_key((#[trigger] self.tile_objects@[i]).position) as u64,
                )
                &&& self.tile_slots@[coord_key(self.tile_objects@[i].position) as u64] == i
            }
    }

    /// The lookup table agrees with the tiles, every cached index names a
    /// cached vertex, and the cached counts fit the index type.
    pub open spec fn wf(&self) -> bool {
        &&& self.index_agrees()
        &&& indices_within(self.tile_indices(), self.tile_vertices().len() as int)
        &&& self.tile_vertices().len() <= u32::MAX
        &&& self.tile_indices().len() <= u32::MAX
    }

    /// Whether a tile occupies `p`.
    pub open spec fn occupied(&self, p: Point3<i16>) -> bool {
        exists|i: int| 0 <= i < self.tiles().len() && (#[trigger] self.tiles()[i]).position == p
    }

    /// The place among the tiles of the one that occupies `p`.
    pub open spec fn slot_of(&self, p: Point3<i16>) -> int {
        choose|i: int| 0 <= i < self.tiles().len() && (#[trigger] self.tiles()[i]).position == p
    }

    /// Whether `mesh` can join the cached tile geometry: it is
    /// self-contained, and with it the cached counts still fit the index
    /// type.
    pub open spec fn admits(&self, mesh: Triangles<V>) -> bool {
        &&& mesh.self_contained()
        &&& self.tile_vertices().len() + mesh.vertices@.len() <= u32::MAX
        &&& self.tile_indices().len() + mesh.indices@.len() <= u32::MAX
    }

    /// `self` is what `before` becomes when `placed` is registered and the
    /// mesh `mesh` joins the cached geometry.
    pub open spec fn grown_from(&self, before: Self, placed: Placed<T, G>, mesh: Triangles<V>) -> bool {
        &&& self.tiles() == tiles_with(before.tiles(), placed)
        &&& self.tile_vertices() == before.tile_vertices() + mesh.vertices@
        &&& as_ints(self.tile_indices()) == as_ints(before.tile_indices()) + offset_indices(
            mesh.indices@,
            before.tile_vertices().len() as int,
        )
        &&& self.entities() == before.entities()
    }

    /// The world keeps its tiles, its cached geometry and its entities.
    pub open spec fn same_as(&self, before: Self) -> bool {
        &&& self.tiles() == before.tiles()
        &&& self.tile_vertices() == before.tile_vertices()
        &&& self.tile_indices() == before.tile_indices()
        &&& self.entities() == before.entities()
    }

    /// No two tiles occupy one coordinate.
    pub proof fn lemma_tiles_distinct(&self, i: int, j: int)
        requires
            self.wf(),
            0 <= i < self.tiles().len(),
            0 <= j < self.tiles().len(),
            self.tiles()[i].position == self.tiles()[j].position,
        ensures
            i == j,
    {
    }

    /// The lookup table holds the key of `p` exactly where a tile occupies
    /// `p`, and then names that tile.
    proof fn lemma_lookup(&self, p: Point3<i16>)
        requires
            self.wf(),
        ensures
            0 <= coord_key(p) <= u64::MAX,
            self.tile_slots@.contains_key(coord_key(p) as u64) <==> self.occupied(p),
            self.occupied(p) ==> self.slot_of(p) == self.tile_slots@[coord_key(p) as u64] && 0
                <= self.slot_of(p) < self.tiles().len() && self.tiles()[self.slot_of(p)].position
                == p,
    {
        let key = coord_key(p) as u64;
        if self.tile_slots@.contains_key(key) {
            let i = self.tile_slots@[key] as int;
            lemma_coord_key_injective(self.tile_objects@[i].position, p);
            assert(self.tiles()[i].position == p);
        }
        if self.occupied(p) {
            let i = self.slot_of(p);
            assert(self.tile_slots@[coord_key(self.tile_objects@[i].position) as u64] == i);
        }
    }

    /// A world without tiles and without entities.
    pub fn new() -> (world: Self)
        ensures
            world.wf(),
            world.tiles().len() == 0,
            world.entities().len() == 0,
            world.tile_vertices().len() == 0,
            world.tile_indices().len() == 0,
    {
        World {
            tile_slots: HashMap::new(),
            tile_objects: Vec::new(),
            tile_geometry: Triangles::new(),
            entity_objects: Vec::new(),
        }
    }

    /// Whether a tile occupies the coordinate `tile`.
    pub fn contains(&self, tile: &Point3<i16>) -> (found: bool)
        requires
            self.wf(),
        ensures
            found == self.occupied(*tile),
    {
        let key = key_of(*tile);
        let found = self.tile_slots.contains_key(&key);
        proof {
            self.lemma_lookup(*tile);
        }
        found
    }

    /// True only when the world holds no tile and no entity.
    pub fn is_empty(&self) -> (empty: bool)
        ensures
            empty == (self.tiles().len() == 0 && self.entities().len() == 0),
    {
        self.tile_objects.len() == 0 && self.entity_objects.len() == 0
    }

    /// The tile that occupies `position`, if there is one.
    pub fn get_tile(&self, position: Point3<i16>) -> (tile: Option<&T>)
        requires
            self.wf(),
        ensures
            tile.is_some() == self.occupied(position),
            tile matches Some(t) ==> *t == self.tiles()[self.slot_of(position)].tile,
    {
        let key = key_of(position);
        proof {
            self.lemma_lookup(position);
        }
        match self.tile_slots.get(&key) {
            Some(slot) => Some(&self.tile_objects[*slot].tile),
            None => None,
        }
    }

    /// Number of tiles.
    pub fn tile_count(&self) -> (n: usize)
        ensures
            n == self.tiles().len(),
    {
        self.tile_objects.len()
    }

    /// Number of entities.
    pub fn entity_count(&self) -> (n: usize)
        ensures
            n == self.entities().len(),
    {
        self.entity_objects.len()
    }

    /// Adds `entity` behind the entities already present and returns the
    /// handle that names it from now on.
    pub fn add_entity(&mut self, entity: E) -> (handler: EntityHandler)
        ensures
            handler.slot() == old(self).entities().len(),
            final(self).entities() == old(self).entities().push(entity),
            final(self).tiles() == old(self).tiles(),
            final(self).tile_vertices() == old(self).tile_vertices(),
            final(self).tile_indices() == old(self).tile_indices(),
            old(self).wf() ==> final(self).wf(),
    {
        let handler = EntityHandler::new(self.entity_objects.len());
        self.entity_objects.push(entity);
        handler
    }

    /// Whether `handler` names an entity of this world.
    pub fn has_entity(&self, handler: EntityHandler) -> (found: bool)
        ensures
            found == (handler.slot() < self.entities().len()),
    {
        handler.index() < self.entity_objects.len()
    }

    /// The entity that `handler` names.
    pub fn entity(&self, handler: EntityHandler) -> (entity: &E)
        requires
            handler.slot() < self.entities().len(),
        ensures
            *entity == self.entities()[handler.slot()],
    {
        &self.entity_objects[handler.index()]
    }

    /// The entity that `handler` names, for changing it in place.
    pub fn entity_mut(&mut self, handler: EntityHandler) -> (entity: &mut E)
        requires
            handler.slot() < old(self).entities().len(),
        ensures
            *entity == old(self).entities()[handler.slot()],
            final(self).entities() == old(self).entities().update(handler.slot(), *final(entity)),
            final(self).tiles() == old(self).tiles(),
            final(self).tile_vertices() == old(self).tile_vertices(),
            final(self).tile_indices() == old(self).tile_indices(),
            old(self).wf() ==> final(self).wf(),
    {
        let index = handler.index();
        &mut self.entity_objects[index]
    }

    /// Decides on a move towards the tile at `target`, whose displacement is
    /// zero exactly if `at_rest`: the move is shortened while a tile occupies
    /// the target and something is left to take off, but never more than
    /// `MAX_SUBSTEPS` times, and committed otherwise.
    pub fn probe_move(&self, substep: &mut Substep, target: &Point3<i16>, at_rest: bool) -> (step:
        Step)
        requires
            self.wf(),
        ensures
            step == Step::Shrink <==> old(substep).shortens(self.occupied(*target), at_rest),
            step == Step::Commit <==> !old(substep).shortens(self.occupied(*target), at_rest),
            final(substep).taken() == old(substep).taken() + if old(substep).shortens(
                self.occupied(*target),
                at_rest,
            ) {
                1int
            } else {
                0int
            },
            old(substep).taken() <= MAX_SUBSTEPS ==> final(substep).taken() <= MAX_SUBSTEPS,
    {
        let occupied = self.contains(target);
        substep.probe(occupied, at_rest)
    }
}

impl<T, E, V: Copy, G> World<T, E, V, G> {
    /// Registers `tile` at `position` with the light `light`, and appends
    /// its mesh `mesh` to the cached tile geometry.
    pub fn place_tile(&mut self, tile: T, position: Point3<i16>, light: Option<G>, mesh: &Triangles<V>)
        requires
            old(self).wf(),
            old(self).admits(*mesh),
        ensures
            final(self).wf(),
            final(self).grown_from(*old(self), (Placed { position, light, tile }), *mesh),
            final(self).occupied(position),
            forall|p: Point3<i16>|
                p != position ==> (final(self).occupied(p) <==> old(self).occupied(p)),
    {
        let key = key_of(position);
        let placed = Placed { position, light, tile };
        proof {
            self.lemma_lookup(position);
        }
        let found = match self.tile_slots.get(&key) {
            Some(slot) => Some(*slot),
            None => None,
        };
        match found {
            Some(slot) => {
                self.tile_objects.set(slot, placed);
                proof {
                    assert forall|i: int| 0 <= i < self.tile_objects@.len() implies (
                    #[trigger] self.tile_objects@[i]).position == old(self).tile_objects@[i].position by {}
                }
            },
            None => {
                let slot = self.tile_objects.len();
                self.tile_objects.push(placed);
                self.tile_slots.insert(key, slot);
                proof {
                    assert forall|k: u64| #[trigger]
                        self.tile_slots@.contains_key(k) implies self.tile_slots@[k]
                        < self.tile_objects@.len() && coord_key(
                        self.tile_objects@[self.tile_slots@[k] as int].position,
                    ) == k by {
                        if k != key {
                            assert(old(self).tile_slots@.contains_key(k));
                        }
                    }
                    assert forall|i: int| 0 <= i < self.tile_objects@.len() implies {
                        &&& self.tile_slots@.contains_key(
                            coord_key((#[trigger] self.tile_objects@[i]).position) as u64,
                        )
                        &&& self.tile_slots@[coord_key(self.tile_objects@[i].position) as u64] == i
                    } by {
                        if i < slot {
                            assert(self.tile_objects@[i] == old(self).tile_objects@[i]);
                            lemma_coord_key_injective(self.tile_objects@[i].position, position);
                        }
                    }
                }
            },
        }
        self.tile_geometry.append(mesh);
        proof {
            let old_tiles = old(self).tiles();
            let new_tiles = self.tiles();
            assert(as_ints(self.tile_indices()).len() == self.tile_indices().len());
            if old(self).occupied(position) {
                let i = old(self).slot_of(position);
                assert(new_tiles[i].position == position);
            } else {
                assert(new_tiles[old_tiles.len() as int].position == position);
            }
            assert forall|p: Point3<i16>| p != position implies (self.occupied(p) <==> old(self).occupied(p)) by {
                if self.occupied(p) {
                    let i = self.slot_of(p);
                    assert(old_tiles[i].position == p);
                }
                if old(self).occupied(p) {
                    let i = old(self).slot_of(p);
                    assert(new_tiles[i].position == p);
                }
            }
        }
    }

    /// Tests whether `mesh` can join the cached tile geometry.
    pub fn can_admit(&self, mesh: &Triangles<V>) -> (ok: bool)
        requires
            self.wf(),
        ensures
            ok == self.admits(*mesh),
    {
        let limit: usize = 0xffff_ffff;
        mesh.is_self_contained() && mesh.vertices.len() <= limit
            - self.tile_geometry.vertices.len() && mesh.indices.len() <= limit
            - self.tile_geometry.indices.len()
    }
}

impl<V: Copy, G: Copy, T: Tile<Vertex = V, Glow = G>, E: Entity<Vertex = V, Glow = G>> World<
    T,
    E,
    V,
    G,
> {
    /// Asks `tile` for its mesh, and where that mesh can join the cached tile
    /// geometry, for its coordinate and its light, and registers it with
    /// them. A tile whose mesh cannot join is dropped, and the world stays as
    /// it is. The result says whether the tile was registered.
    pub fn add_tile(&mut self, tile: T) -> (added: bool)
        requires
            old(self).wf(),
        ensures
            final(self).wf(),
            exists|mesh: Triangles<V>, position: Point3<i16>, light: Option<G>| #[trigger]
                final(self).took(*old(self), tile, added, mesh, position, light),
    {
        let triangles = tile.build_object_data();
        if !self.can_admit(&triangles) {
            proof {
                let position = Point3::<i16> { x: 0, y: 0, z: 0 };
                assert(self.took(*old(self), tile, false, triangles, position, None));
            }
            return false;
        }
        let position = tile.position();
        let light = tile.light();
        self.place_tile(tile, position, light, &triangles);
        proof {
            assert(self.took(*old(self), tile, true, triangles, position, light));
        }
        true
    }

    /// `self` is what `before` becomes when it is asked to add `tile`, and
    /// `added` is the answer, given that the tile built the mesh `mesh`: the
    /// tile is added exactly if `before` admits that mesh. It is then
    /// registered at `position` with `light`, which are what the tile
    /// reported as its coordinate and its light, and the mesh joins the
    /// cached geometry. Otherwise nothing changes.
    pub open spec fn took(
        &self,
        before: Self,
        tile: T,
        added: bool,
        mesh: Triangles<V>,
        position: Point3<i16>,
        light: Option<G>,
    ) -> bool {
        &&& call_ensures(T::build_object_data, (&tile,), mesh)
        &&& added == before.admits(mesh)
        &&& added ==> {
            &&& call_ensures(T::position, (&tile,), position)
            &&& call_ensures(T::light, (&tile,), light)
            &&& self.grown_from(before, (Placed { position, light, tile }), mesh)
        }
        &&& !added ==> self.same_as(before)
    }
}

impl<T, E, V, G> Default for World<T, E, V, G> {
    /// A world without tiles and without entities.
    fn default() -> (world: Self)
        ensures
            world.wf(),
            world.tiles().len() == 0,
            world.entities().len() == 0,
            world.tile_vertices().len() == 0,
            world.tile_indices().len() == 0,
    {
        World::new()
    }
}

} // verus!
