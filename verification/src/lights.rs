//! The light list handed to the renderer each frame.

use vstd::prelude::*;

verus! {

/// How many point or spot lights the renderer takes.
pub const MAX_LIGHTS: usize = 4;

/// The scene's directional light and up to `MAX_LIGHTS` other lights, of
/// which the first `light_count` are in use.
pub struct LightBuffer<D, L> {
    pub dir_light: D,
    pub lights: [L; 4],
    pub light_count: u32,
}

impl<D, L: Copy> LightBuffer<D, L> {
    /// The lights in use.
    pub open spec fn active_lights(&self) -> Seq<L> {
        self.lights@.take(self.light_count as int)
    }

    /// A buffer with the given directional light and every slot holding
    /// `unused`, none in use.
    pub fn new(dir_light: D, unused: L) -> (b: Self)
        ensures
            b.dir_light == dir_light,
            b.lights@ == seq![unused, unused, unused, unused],
            b.light_count == 0,
    {
        let b = LightBuffer { dir_light, lights: [unused, unused, unused, unused], light_count: 0 };
        assert(b.lights@ =~= seq![unused, unused, unused, unused]);
        b
    }

    /// Appends a light; refused (`false`, nothing changed) when all slots are
    /// in use.
    pub fn add_light(&mut self, light: L) -> (added: bool)
        ensures
            added == (old(self).light_count < MAX_LIGHTS),
            added ==> final(self).light_count == old(self).light_count + 1
                && final(self).lights@ == old(self).lights@.update(
                old(self).light_count as int,
                light,
            ),
            !added ==> final(self).light_count == old(self).light_count && final(self).lights@
                == old(self).lights@,
            final(self).dir_light == old(self).dir_light,
            old(self).light_count <= MAX_LIGHTS ==> final(self).light_count <= MAX_LIGHTS,
    {
        if self.light_count < 4 {
            let i = self.light_count as usize;
            self.lights.set(i, light);
            self.light_count = self.light_count + 1;
            true
        } else {
            false
        }
    }

    /// Marks every slot unused.
    pub fn clear_lights(&mut self)
        ensures
            final(self).light_count == 0,
            final(self).lights@ == old(self).lights@,
            final(self).dir_light == old(self).dir_light,
    {
        self.light_count = 0;
    }

    /// Overwrites slot `index`; refused (`false`, nothing changed) when there
    /// is no such slot. The number of lights in use does not change.
    pub fn set_light(&mut self, index: usize, light: L) -> (done: bool)
        ensures
            done == (index < MAX_LIGHTS),
            done ==> final(self).lights@ == old(self).lights@.update(index as int, light),
            !done ==> final(self).lights@ == old(self).lights@,
            final(self).light_count == old(self).light_count,
            final(self).dir_light == old(self).dir_light,
    {
        if index < MAX_LIGHTS {
            self.lights.set(index, light);
            true
        } else {
            false
        }
    }
}

/// Adding a light to a buffer with a free slot puts it last among the lights
/// in use and keeps the others.
pub proof fn law_add_light_appends<L>(lights: Seq<L>, count: nat, light: L)
    requires
        lights.len() == MAX_LIGHTS,
        count < MAX_LIGHTS,
    ensures
        lights.update(count as int, light).take(count + 1int) == lights.take(count as int).push(light),
{
    assert(lights.update(count as int, light).take(count + 1int) =~= lights.take(count as int).push(
        light,
    ));
}

} // verus!
