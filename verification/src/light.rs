//! The light list handed to a renderer: a buffer of fixed capacity that
//! keeps the first sources offered to it and drops the rest.

use cgmath::Point3;
use vstd::prelude::*;

verus! {

/// Number of slots in a light buffer.
pub const MAX_LIGHT_SOURCES: usize = 64;

/// Where a light shines from: the coordinate of a tile, or the continuous
/// centre of an entity.
pub enum LightPosition<P> {
    Tile(Point3<i16>),
    Entity(P),
}

/// One point light: its position and its colour.
pub struct Light<P, C> {
    pub position: LightPosition<P>,
    pub color: C,
}

/// A buffer of `MAX_LIGHT_SOURCES` slots, filled from the front.
pub struct LightSources<P, C> {
    light_uniforms: Vec<Option<Light<P, C>>>,
    light_count: usize,
}

impl<P, C> LightSources<P, C> {
    /// The slots of the buffer; an unused slot is `None`.
    pub closed spec fn slots(&self) -> Seq<Option<Light<P, C>>> {
        self.light_uniforms@
    }

    /// Number of slots in use.
    pub closed spec fn used(&self) -> int {
        self.light_count as int
    }

    /// The buffer has its fixed number of slots, and exactly the first
    /// `used()` of them hold a light.
    pub open spec fn wf(&self) -> bool {
        &&& self.slots().len() == MAX_LIGHT_SOURCES
        &&& 0 <= self.used() <= MAX_LIGHT_SOURCES
        &&& forall|i: int|
            0 <= i < self.slots().len() ==> ((#[trigger] self.slots()[i]).is_some() <==> i
                < self.used())
    }

    /// The lights held, in the order in which they were accepted.
    pub open spec fn lights(&self) -> Seq<Light<P, C>> {
        Seq::new(self.used() as nat, |i: int| self.slots()[i].unwrap())
    }

    /// A buffer with every slot unused.
    pub fn new() -> (sources: Self)
        ensures
            sources.wf(),
            sources.used() == 0,
            sources.lights() =~= Seq::empty(),
    {
        let mut light_uniforms: Vec<Option<Light<P, C>>> = Vec::new();
        let mut i: usize = 0;
        while i < MAX_LIGHT_SOURCES
            invariant
                i <= MAX_LIGHT_SOURCES,
                light_uniforms@.len() == i,
                forall|k: int| 0 <= k < i ==> (#[trigger] light_uniforms@[k]).is_none(),
            decreases MAX_LIGHT_SOURCES - i,
        {
            light_uniforms.push(None);
            i += 1;
        }
        LightSources { light_uniforms, light_count: 0 }
    }

    /// Number of slots in use; never more than `MAX_LIGHT_SOURCES`.
    pub fn count(&self) -> (n: u32)
        requires
            self.wf(),
        ensures
            n == self.used(),
            n <= MAX_LIGHT_SOURCES,
    {
        self.light_count as u32
    }

    /// The light in slot `i`, or `None` for an unused slot.
    pub fn get(&self, i: usize) -> (slot: &Option<Light<P, C>>)
        requires
            self.wf(),
            i < MAX_LIGHT_SOURCES,
        ensures
            *slot == self.slots()[i as int],
            slot.is_some() <==> i < self.used(),
    {
        &self.light_uniforms[i]
    }

    /// Offers `light` to the buffer. It takes the next free slot and `true`
    /// is returned; a full buffer stays as it is, the light is dropped and
    /// `false` is returned.
    pub fn push(&mut self, light: Light<P, C>) -> (accepted: bool)
        requires
            old(self).wf(),
        ensures
            final(self).wf(),
            accepted <==> old(self).used() < MAX_LIGHT_SOURCES,
            accepted ==> final(self).lights() == old(self).lights().push(light),
            !accepted ==> final(self).slots() == old(self).slots() && final(self).used() == old(self).used(),
    {
        if self.light_count < MAX_LIGHT_SOURCES {
            self.light_uniforms.set(self.light_count, Some(light));
            self.light_count += 1;
            proof {
                assert(self.lights() =~= old(self).lights().push(light));
            }
            true
        } else {
            false
        }
    }
}

} // verus!
