//! The lights of the world, packed into a buffer of fixed capacity: those
//! of the tiles first, then those of the entities.

use super::entity::Entity;
use super::tile::Tile;
use super::{Placed, World};
use crate::light::{Light, LightPosition, LightSources, MAX_LIGHT_SOURCES};
use vstd::prelude::*;

verus! {

/// The lights of the emissive tiles among `tiles`, in order, each at the
/// coordinate of its tile.
pub open spec fn tile_lights<T, P, G>(tiles: Seq<Placed<T, G>>) -> Seq<Light<P, G>>
    decreases tiles.len(),
{
    if tiles.len() == 0 {
        Seq::empty()
    } else {
        let rest = tile_lights::<T, P, G>(tiles.drop_last());
        match tiles.last().light {
            Some(color) => rest.push(
                Light { position: LightPosition::Tile(tiles.last().position), color },
            ),
            None => rest,
        }
    }
}

/// What a light buffer keeps of the lights offered to it in order: the first
/// `MAX_LIGHT_SOURCES` of them.
pub open spec fn kept<L>(offered: Seq<L>) -> Seq<L> {
    if offered.len() <= MAX_LIGHT_SOURCES {
        offered
    } else {
        offered.take(MAX_LIGHT_SOURCES as int)
    }
}

/// Offering one more light adds it behind those kept while a slot is free,
/// and changes nothing once the buffer is full: the light is dropped.
pub proof fn lemma_kept_push<L>(offered: Seq<L>, light: L)
    ensures
        kept(offered).len() <= MAX_LIGHT_SOURCES,
        kept(offered).len() < MAX_LIGHT_SOURCES ==> kept(offered.push(light)) == kept(
            offered,
        ).push(light),
        kept(offered).len() == MAX_LIGHT_SOURCES ==> kept(offered.push(light)) == kept(offered),
{
    if offered.len() >= MAX_LIGHT_SOURCES {
        assert(offered.push(light).take(MAX_LIGHT_SOURCES as int) =~= offered.take(
            MAX_LIGHT_SOURCES as int,
        ));
        assert(offered.take(MAX_LIGHT_SOURCES as int) =~= kept(offered));
    }
}

/// What a light buffer keeps is a prefix of what it was offered, never
/// longer than the buffer.
pub proof fn lemma_kept_is_prefix<L>(offered: Seq<L>)
    ensures
        kept(offered).len() <= MAX_LIGHT_SOURCES,
        kept(offered).len() <= offered.len(),
        kept(offered).len() == offered.len() || kept(offered).len() == MAX_LIGHT_SOURCES,
        forall|i: int| 0 <= i < kept(offered).len() ==> #[trigger] kept(offered)[i] == offered[i],
{
}

impl<T, E, V, G: Copy> World<T, E, V, G> {
    /// Packs the lights of the emissive tiles, then `from_entities`, the
    /// lights of the emissive entities in order, into a light buffer, and
    /// returns it with the number of slots in use. Lights that find the
    /// buffer full are dropped.
    pub fn collect_lights<P>(&self, from_entities: Vec<Light<P, G>>) -> (lights: (
        LightSources<P, G>,
        u32,
    ))
        ensures
            lights.0.wf(),
            lights.0.lights() == kept(tile_lights::<T, P, G>(self.tiles()) + from_entities@),
            lights.1 == lights.0.used(),
            lights.1 <= MAX_LIGHT_SOURCES,
    {
        let mut sources: LightSources<P, G> = LightSources::new();
        let mut i: usize = 0;
        proof {
            assert(self.tiles().take(0) =~= Seq::<Placed<T, G>>::empty());
        }
        while i < self.tile_objects.len()
            invariant
                i <= self.tiles().len(),
                sources.wf(),
                sources.lights() == kept(tile_lights::<T, P, G>(self.tiles().take(i as int))),
            decreases self.tiles().len() - i,
        {
            let placed = &self.tile_objects[i];
            proof {
                assert(self.tiles().take(i + 1).drop_last() =~= self.tiles().take(i as int));
            }
            match placed.light {
                Some(color) => {
                    let light = Light { position: LightPosition::Tile(placed.position), color };
                    proof {
                        lemma_kept_push(
                            tile_lights::<T, P, G>(self.tiles().take(i as int)),
                            light,
                        );
                    }
                    sources.push(light);
                },
                None => {},
            }
            i += 1;
        }
        let ghost from_tiles = tile_lights::<T, P, G>(self.tiles());
        let ghost offered = from_entities@;
        proof {
            assert(self.tiles().take(i as int) =~= self.tiles());
            assert(from_tiles + offered.take(0) =~= from_tiles);
        }
        for light in it: from_entities
            invariant
                it.seq() == offered,
                sources.wf(),
                sources.lights() == kept(from_tiles + offered.take(it.index())),
        {
            proof {
                lemma_kept_push(from_tiles + offered.take(it.index()), light);
                assert(from_tiles + offered.take(it.index() + 1) =~= (from_tiles + offered.take(
                    it.index(),
                )).push(light));
            }
            sources.push(light);
        }
        proof {
            assert(offered.take(offered.len() as int) =~= offered);
        }
        let light_count = sources.count();
        (sources, light_count)
    }
}

/// `report` is what `entity` answered: no light, or a light of the colour
/// that the entity reported, at the centre that it reported.
pub open spec fn reported<E: Entity>(entity: E, report: Option<Light<E::Point, E::Glow>>) -> bool {
    match report {
        Some(light) => {
            &&& call_ensures(E::light, (&entity,), Some(light.color))
            &&& light.position matches LightPosition::Entity(center) && call_ensures(
                E::center,
                (&entity,),
                center,
            )
        },
        None => call_ensures(E::light, (&entity,), None::<E::Glow>),
    }
}

/// `reports` holds the answer of each of `entities`, in order.
pub open spec fn answered<E: Entity>(
    entities: Seq<E>,
    reports: Seq<Option<Light<E::Point, E::Glow>>>,
) -> bool {
    &&& reports.len() == entities.len()
    &&& forall|i: int| 0 <= i < entities.len() ==> reported(entities[i], #[trigger] reports[i])
}

/// The lights among `reports`, in order.
pub open spec fn emissive<P, G>(reports: Seq<Option<Light<P, G>>>) -> Seq<Light<P, G>>
    decreases reports.len(),
{
    if reports.len() == 0 {
        Seq::empty()
    } else {
        let rest = emissive(reports.drop_last());
        match reports.last() {
            Some(light) => rest.push(light),
            None => rest,
        }
    }
}

impl<V: Copy, G: Copy, T: Tile<Vertex = V, Glow = G>, E: Entity<Vertex = V, Glow = G>> World<
    T,
    E,
    V,
    G,
> {
    /// The lights of the emissive entities, in the order of insertion: each
    /// entity is asked for its light, and one that reports a light is asked
    /// for its centre, where the light is put.
    pub fn entity_lights(&self) -> (lights: Vec<Light<E::Point, G>>)
        ensures
            lights@.len() <= self.entities().len(),
            forall|i: int|
                0 <= i < lights@.len() ==> (#[trigger] lights@[i]).position is Entity,
            exists|reports: Seq<Option<Light<E::Point, G>>>| #[trigger]
                answered(self.entities(), reports) && lights@ == emissive(reports),
    {
        let mut lights: Vec<Light<E::Point, G>> = Vec::new();
        let ghost mut reports: Seq<Option<Light<E::Point, G>>> = Seq::empty();
        let mut i: usize = 0;
        while i < self.entity_objects.len()
            invariant
                i <= self.entities().len(),
                lights@.len() <= i,
                forall|k: int|
                    0 <= k < lights@.len() ==> (#[trigger] lights@[k]).position is Entity,
                reports.len() == i,
                forall|k: int|
                    0 <= k < i ==> reported(self.entities()[k], #[trigger] reports[k]),
                lights@ == emissive(reports),
            decreases self.entities().len() - i,
        {
            let entity = &self.entity_objects[i];
            let ghost before = reports;
            match entity.light() {
                Some(color) => {
                    let center = entity.center();
                    let light = Light { position: LightPosition::Entity(center), color };
                    proof {
                        reports = before.push(Some(light));
                        assert(reports.drop_last() =~= before);
                    }
                    lights.push(light);
                },
                None => {
                    proof {
                        reports = before.push(None);
                        assert(reports.drop_last() =~= before);
                    }
                },
            }
            i += 1;
        }
        proof {
            assert(answered(self.entities(), reports));
        }
        lights
    }

    /// Asks every entity for its light, as `entity_lights` does, and packs
    /// the lights of the emissive tiles, then those of the emissive
    /// entities, into a light buffer, as `collect_lights` does. Returns the
    /// buffer with the number of slots in use.
    pub fn build_light_sources(&self) -> (lights: (LightSources<E::Point, G>, u32))
        ensures
            lights.0.wf(),
            lights.1 == lights.0.used(),
            lights.1 <= MAX_LIGHT_SOURCES,
            exists|reports: Seq<Option<Light<E::Point, G>>>| #[trigger]
                answered(self.entities(), reports) && lights.0.lights() == kept(
                    tile_lights::<T, E::Point, G>(self.tiles()) + emissive(reports),
                ),
    {
        let from_entities = self.entity_lights();
        let ghost reports = choose|reports: Seq<Option<Light<E::Point, G>>>| #[trigger]
            answered(self.entities(), reports) && from_entities@ == emissive(reports);
        let lights = self.collect_lights(from_entities);
        proof {
            assert(answered(self.entities(), reports) && lights.0.lights() == kept(
                tile_lights::<T, E::Point, G>(self.tiles()) + emissive(reports),
            ));
        }
        lights
    }
}

} // verus!
