//! Scenes and the set of open scenes with the one being edited.

use crate::assets::AssetManager;
use crate::hierarchy::{Hierarchy, HierarchyView};
use crate::scene::{MaterialData, MeshData};
use bevy_ecs::world::World;
use std::collections::HashMap;
use vstd::prelude::*;
use vstd::std_specs::iter::IteratorSpec;

verus! {

#[verifier::external_type_specification]
#[verifier::external_body]
pub struct ExWorld(World);

/// The entities that `World::get_entity` finds in an ECS world (those placed
/// in it), each named by the bits of its identifier (`Entity::to_bits`).
pub uninterp spec fn live_entities(w: World) -> Set<u64>;

/// The entities reserved in an ECS world (by `Entities::reserve_entity` or
/// `Entities::reserve_entities`, as deferred commands do) but not yet placed
/// in it by a flush, each named by the bits of its identifier.
pub uninterp spec fn pending_entities(w: World) -> Set<u64>;

/// Makes an empty ECS world.
///
/// Trusted: calls `bevy_ecs::world::World::new`; the contract claims that no
/// entity is alive or reserved in the new world. Nothing else of the world
/// is claimed.
#[verifier::external_body]
fn new_world() -> (w: World)
    ensures
        live_entities(w) == Set::<u64>::empty(),
        pending_entities(w) == Set::<u64>::empty(),
{
    World::new()
}

/// Despawns an entity, named by the bits of its identifier.
///
/// Trusted: calls `bevy_ecs::world::World::despawn` on
/// `bevy_ecs::entity::Entity::from_bits(bits)`; the contract claims that the
/// entity is no longer alive, every other entity that was alive stays alive
/// (a missing entity is only warned about), and the only entities that may
/// come alive are those that were reserved but not yet placed (the world is
/// flushed before an entity is despawned), after which no more are reserved
/// than before. What happens to components is not claimed. Despawning bumps
/// the entity's 32-bit generation (the upper half of `bits`), which overflows
/// when that generation is already the largest one: such an input is left out.
#[verifier::external_body]
fn despawn(world: &mut World, bits: u64)
    requires
        live_entities(*old(world)).contains(bits) ==> bits < MAX_GENERATION_BITS,
    ensures
        !live_entities(*final(world)).contains(bits),
        live_entities(*old(world)).remove(bits).subset_of(live_entities(*final(world))),
        live_entities(*final(world)).subset_of(
            live_entities(*old(world)).remove(bits).union(pending_entities(*old(world))),
        ),
        pending_entities(*final(world)).subset_of(pending_entities(*old(world))),
{
    world.despawn(bevy_ecs::entity::Entity::from_bits(bits));
}

/// The smallest entity identifier whose generation (its upper 32 bits) is the
/// largest one.
pub const MAX_GENERATION_BITS: u64 = 0xffff_ffff_0000_0000u64;

/// The version nibble of a UUID's 128 bits (bits 76 to 79).
pub open spec fn uuid_version(bits: u128) -> u128 {
    (bits >> 76u128) & 0xfu128
}

/// The variant bits of a UUID's 128 bits (bits 62 and 63).
pub open spec fn uuid_variant(bits: u128) -> u128 {
    (bits >> 62u128) & 0x3u128
}

/// A fresh random identifier.
///
/// Trusted: calls `uuid::Uuid::new_v4` and returns its 128 bits; the value is
/// random, and the contract claims only what `new_v4` sets in every outcome:
/// version 4 and the RFC 4122 variant (binary 10).
#[verifier::external_body]
fn random_uuid_bits() -> (r: u128)
    ensures
        uuid_version(r) == 4,
        uuid_variant(r) == 2,
{
    uuid::Uuid::new_v4().as_u128()
}

/// Identifies a scene (the 128 bits of a random UUID).
#[derive(Debug, Clone, Copy, PartialEq, Eq, Hash, Structural)]
pub struct SceneHandle(pub u128);

impl SceneHandle {
    /// A new random handle: a version-4 UUID of the RFC 4122 variant.
    pub fn new() -> (h: Self)
        ensures
            uuid_version(h.0) == 4,
            uuid_variant(h.0) == 2,
    {
        SceneHandle(random_uuid_bits())
    }
}

/// A scene: its ECS world, the parent links between its entities and the
/// assets its entities use.
pub struct Scene {
    pub handle: SceneHandle,
    pub name: String,
    pub world: World,
    pub hierarchy: Hierarchy,
    pub mesh_manager: AssetManager<MeshData>,
    pub material_manager: AssetManager<MaterialData>,
}

impl Scene {
    /// An empty scene with the given name, a new handle and no assets.
    pub fn new(name: &str) -> (s: Self)
        ensures
            s.name@ == name@,
            s.hierarchy@.wf(),
            s.hierarchy@.parents == Map::<u64, u64>::empty(),
            s.hierarchy@.children == Map::<u64, Seq<u64>>::empty(),
            s.mesh_manager.wf(),
            s.mesh_manager@ == Map::<u64, std::sync::Arc<MeshData>>::empty(),
            s.material_manager.wf(),
            s.material_manager@ == Map::<u64, std::sync::Arc<MaterialData>>::empty(),
            live_entities(s.world) == Set::<u64>::empty(),
            pending_entities(s.world) == Set::<u64>::empty(),
            uuid_version(s.handle.0) == 4,
            uuid_variant(s.handle.0) == 2,
    {
        Scene {
            handle: SceneHandle::new(),
            name: String::from_str(name),
            world: new_world(),
            hierarchy: Hierarchy::new(),
            mesh_manager: AssetManager::new(),
            material_manager: AssetManager::new(),
        }
    }

    /// Deletes an entity together with its whole subtree: it leaves its
    /// parent's child list and every entity of the subtree is despawned,
    /// while every other live entity stays alive. (An entity that was only
    /// reserved, never placed in the world, cannot be despawned.) The entity
    /// must not lie on a cycle of parent links, and no entity of the subtree
    /// that is placed or reserved may have the largest generation, whose
    /// despawning would overflow it.
    pub fn remove_entity(&mut self, entity: u64) -> (r: bool)
        requires
            old(self).hierarchy@.wf(),
            !old(self).hierarchy@.is_ancestor(entity, entity),
            forall|x: u64|
                #[trigger] old(self).hierarchy@.subtree(entity).contains(x) && (live_entities(
                    old(self).world,
                ).contains(x) || pending_entities(old(self).world).contains(x))
                    ==> x < MAX_GENERATION_BITS,
        ensures
            r,
            final(self).hierarchy@.wf(),
            final(self).hierarchy@ == old(self).hierarchy@.remove_subtree(entity),
            forall|x: u64|
                #[trigger] old(self).hierarchy@.subtree(entity).contains(x) && !pending_entities(
                    old(self).world,
                ).contains(x) ==> !live_entities(final(self).world).contains(x),
            live_entities(old(self).world).difference(
                old(self).hierarchy@.subtree(entity).to_set(),
            ).subset_of(live_entities(final(self).world)),
            final(self).handle == old(self).handle,
            final(self).name == old(self).name,
            final(self).mesh_manager == old(self).mesh_manager,
            final(self).material_manager == old(self).material_manager,
    {
        let removed = self.hierarchy.remove_subtree(entity);
        let mut i: usize = 0;
        while i < removed.len()
            invariant
                i <= removed@.len(),
                self.hierarchy@ == old(self).hierarchy@.remove_subtree(entity),
                removed@ == old(self).hierarchy@.subtree(entity),
                pending_entities(self.world).subset_of(pending_entities(old(self).world)),
                live_entities(self.world).subset_of(
                    live_entities(old(self).world).union(pending_entities(old(self).world)),
                ),
                forall|x: u64|
                    #[trigger] old(self).hierarchy@.subtree(entity).contains(x) && (live_entities(
                        old(self).world,
                    ).contains(x) || pending_entities(old(self).world).contains(x))
                        ==> x < MAX_GENERATION_BITS,
                forall|j: int|
                    0 <= j < i && !pending_entities(old(self).world).contains(#[trigger] removed@[j])
                        ==> !live_entities(self.world).contains(removed@[j]),
                live_entities(old(self).world).difference(removed@.take(i as int).to_set()).subset_of(
                    live_entities(self.world),
                ),
                self.hierarchy@.wf(),
                self.handle == old(self).handle,
                self.name == old(self).name,
                self.mesh_manager == old(self).mesh_manager,
                self.material_manager == old(self).material_manager,
            decreases removed@.len() - i,
        {
            let ghost before = removed@.take(i as int);
            let ghost live_before = live_entities(self.world);
            assert(removed@.contains(removed@[i as int]));
            despawn(&mut self.world, removed[i]);
            proof {
                assert(removed@.take(i + 1) =~= before.push(removed@[i as int]));
                before.lemma_push_to_set_commute(removed@[i as int]);
                assert(live_entities(old(self).world).difference(
                    before.to_set().insert(removed@[i as int]),
                ).subset_of(live_before.remove(removed@[i as int])));
            }
            i = i + 1;
        }
        assert(removed@.take(removed@.len() as int) =~= removed@);
        assert forall|x: u64|
            #[trigger] removed@.contains(x) && !pending_entities(old(self).world).contains(
                x,
            ) implies !live_entities(self.world).contains(x) by {
            let j = choose|j: int| 0 <= j < removed@.len() && removed@[j] == x;
            assert(!live_entities(self.world).contains(removed@[j]));
        }
        true
    }
}

/// A sequence with as many distinct elements as entries repeats none.
proof fn lemma_as_many_elements_as_entries<A>(s: Seq<A>)
    requires
        s.to_set().len() == s.len(),
    ensures
        s.no_duplicates(),
{
    if !s.no_duplicates() {
        let (i, j) = choose|i: int, j: int|
            0 <= i < s.len() && 0 <= j < s.len() && i != j && s[i] == s[j];
        let t = s.remove(j);
        assert(t.to_set() =~= s.to_set()) by {
            assert forall|x: A| s.to_set().contains(x) implies t.to_set().contains(x) by {
                let k = choose|k: int| 0 <= k < s.len() && s[k] == x;
                let m = if k == j { i } else { k };
                let n = if m < j { m } else { m - 1 };
                assert(t[n] == x);
            }
            assert forall|x: A| t.to_set().contains(x) implies s.to_set().contains(x) by {
                let k = choose|k: int| 0 <= k < t.len() && t[k] == x;
                let n = if k < j { k } else { k + 1 };
                assert(s[n] == x);
            }
        }
        t.lemma_cardinality_of_set();
    }
}

/// Gives mutable access to the scene stored under `key`.
///
/// Trusted: calls `HashMap::get_mut`; the contract claims what its
/// documentation says: `None` when the key is absent, otherwise the stored
/// value, and whatever is written through it is stored under the key.
#[verifier::external_body]
fn scene_get_mut(m: &mut HashMap<u128, Scene>, key: u128) -> (r: Option<&mut Scene>)
    ensures
        !old(m)@.contains_key(key) ==> r is None && final(m)@ == old(m)@,
        old(m)@.contains_key(key) ==> r is Some && *r.unwrap() == old(m)@[key] && final(m)@
            == old(m)@.insert(key, *final(r.unwrap())),
{
    m.get_mut(&key)
}

/// The open scenes, each stored under its handle, and the active one.
pub struct SceneManager {
    scenes: HashMap<u128, Scene>,
    active_scene: Option<SceneHandle>,
}

impl SceneManager {
    /// The open scenes, keyed by the bits of their handles.
    pub closed spec fn scenes(&self) -> Map<u128, Scene> {
        self.scenes@
    }

    /// The handle of the scene being edited, if any.
    pub closed spec fn active(&self) -> Option<SceneHandle> {
        self.active_scene
    }

    /// Every scene is stored under its own handle, and the active handle, if
    /// any, names an open scene.
    pub closed spec fn wf(&self) -> bool {
        &&& forall|k: u128| #[trigger]
            self.scenes@.contains_key(k) ==> self.scenes@[k].handle.0 == k
        &&& self.active_scene matches Some(h) ==> self.scenes@.contains_key(h.0)
    }

    /// No scenes, none active.
    pub fn new() -> (m: Self)
        ensures
            m.wf(),
            m.scenes() == Map::<u128, Scene>::empty(),
            m.active() is None,
    {
        SceneManager { scenes: HashMap::new(), active_scene: None }
    }

    /// Opens a scene under its handle, replacing a scene with the same
    /// handle; it becomes active if no scene was.
    pub fn add_scene(&mut self, scene: Scene) -> (h: SceneHandle)
        requires
            old(self).wf(),
        ensures
            final(self).wf(),
            h == scene.handle,
            final(self).scenes() == old(self).scenes().insert(h.0, scene),
            final(self).active() == (if old(self).active() is None {
                Some(h)
            } else {
                old(self).active()
            }),
    {
        broadcast use vstd::std_specs::hash::group_hash_axioms;
        let handle = scene.handle;
        self.scenes.insert(handle.0, scene);
        if self.active_scene.is_none() {
            self.active_scene = Some(handle);
        }
        handle
    }

    /// Opens a new empty scene with the given name.
    pub fn create_scene(&mut self, name: &str) -> (h: SceneHandle)
        requires
            old(self).wf(),
        ensures
            final(self).wf(),
            final(self).scenes().contains_key(h.0),
            final(self).scenes()[h.0].name@ == name@,
            final(self).scenes()[h.0].hierarchy@.parents == Map::<u64, u64>::empty(),
            final(self).scenes()[h.0].hierarchy@.children == Map::<u64, Seq<u64>>::empty(),
            final(self).scenes()[h.0].mesh_manager@ == Map::<u64, std::sync::Arc<MeshData>>::empty(),
            final(self).scenes()[h.0].material_manager@ == Map::<
                u64,
                std::sync::Arc<MaterialData>,
            >::empty(),
            live_entities(final(self).scenes()[h.0].world) == Set::<u64>::empty(),
            pending_entities(final(self).scenes()[h.0].world) == Set::<u64>::empty(),
            final(self).scenes() == old(self).scenes().insert(h.0, final(self).scenes()[h.0]),
            final(self).active() == (if old(self).active() is None {
                Some(h)
            } else {
                old(self).active()
            }),
    {
        self.add_scene(Scene::new(name))
    }

    /// Opens a scene under its handle and makes it the active one.
    pub fn create_scene_from_object(&mut self, scene: Scene) -> (h: SceneHandle)
        requires
            old(self).wf(),
        ensures
            final(self).wf(),
            h == scene.handle,
            final(self).scenes() == old(self).scenes().insert(h.0, scene),
            final(self).active() == Some(h),
    {
        broadcast use vstd::std_specs::hash::group_hash_axioms;
        let handle = scene.handle;
        self.scenes.insert(handle.0, scene);
        self.active_scene = Some(handle);
        handle
    }

    /// The active scene, if any.
    pub fn active_scene(&self) -> (r: Option<&Scene>)
        requires
            self.wf(),
        ensures
            match self.active() {
                Some(h) => r == Some(&self.scenes()[h.0]),
                None => r is None,
            },
    {
        broadcast use vstd::std_specs::hash::group_hash_axioms;
        match self.active_scene {
            Some(h) => self.scenes.get(&h.0),
            None => None,
        }
    }

    /// Mutable access to the active scene, if any; what is written through
    /// it is stored under the active handle, and the manager stays
    /// well-formed as long as the scene keeps its handle.
    pub fn active_scene_mut(&mut self) -> (r: Option<&mut Scene>)
        requires
            old(self).wf(),
        ensures
            final(self).active() == old(self).active(),
            match old(self).active() {
                Some(h) => r is Some && *r.unwrap() == old(self).scenes()[h.0]
                    && final(self).scenes() == old(self).scenes().insert(h.0, *final(r.unwrap()))
                    && (final(r.unwrap()).handle == h ==> final(self).wf()),
                None => r is None && final(self).scenes() == old(self).scenes() && final(self).wf(),
            },
    {
        match self.active_scene {
            Some(h) => scene_get_mut(&mut self.scenes, h.0),
            None => None,
        }
    }

    /// Makes the scene with this handle active; refused (`false`, nothing
    /// changed) when no such scene is open.
    pub fn set_active_scene(&mut self, handle: SceneHandle) -> (r: bool)
        requires
            old(self).wf(),
        ensures
            final(self).wf(),
            r == old(self).scenes().contains_key(handle.0),
            final(self).scenes() == old(self).scenes(),
            final(self).active() == (if r {
                Some(handle)
            } else {
                old(self).active()
            }),
    {
        broadcast use vstd::std_specs::hash::group_hash_axioms;
        if self.scenes.contains_key(&handle.0) {
            self.active_scene = Some(handle);
            true
        } else {
            false
        }
    }

    /// The handle and name of every open scene, in the map's order.
    pub fn get_scenes(&self) -> (r: Vec<(&SceneHandle, &str)>)
        requires
            self.wf(),
        ensures
            r@.len() == self.scenes().len(),
            forall|i: int|
                0 <= i < r@.len() ==> #[trigger] self.scenes().contains_key(r@[i].0.0)
                    && r@[i].1@ == self.scenes()[r@[i].0.0].name@,
            forall|k: u128|
                #[trigger] self.scenes().contains_key(k) ==> exists|i: int|
                    0 <= i < r@.len() && r@[i].0.0 == k,
            forall|i: int, j: int|
                0 <= i < j < r@.len() ==> #[trigger] r@[i].0.0 != #[trigger] r@[j].0.0,
    {
        broadcast use vstd::std_specs::hash::group_hash_axioms;
        let mut r: Vec<(&SceneHandle, &str)> = Vec::new();
        let ghost vs = vstd::std_specs::hash::spec_values_iter(&self.scenes).remaining();
        assert(vs.unref().to_set() == self.scenes@.values());
        assert(vs.len() == self.scenes@.dom().len());
        for s in it: self.scenes.values()
            invariant
                self.wf(),
                it.seq() == vs,
                r@.len() == it.index(),
                forall|i: int|
                    0 <= i < r@.len() ==> *r@[i].0 == it.seq()[i].handle && r@[i].1@
                        == it.seq()[i].name@,
        {
            r.push((&s.handle, s.name.as_str()));
        }
        proof {
            assert forall|i: int| 0 <= i < r@.len() implies #[trigger] self.scenes().contains_key(
                r@[i].0.0,
            ) && r@[i].1@ == self.scenes()[r@[i].0.0].name@ by {
                let sc = *vs[i];
                assert(vs.unref()[i] == sc);
                assert(vs.unref().to_set().contains(sc));
                assert(self.scenes@.values().contains(sc));
                let k = choose|k: u128| self.scenes@.contains_key(k) && self.scenes@[k] == sc;
                assert(self.scenes@[k].handle.0 == k);
            }
            assert forall|k: u128| #[trigger] self.scenes().contains_key(k) implies exists|i: int|
                0 <= i < r@.len() && r@[i].0.0 == k by {
                let sc = self.scenes@[k];
                assert(self.scenes@.values().contains(sc));
                assert(vs.unref().to_set().contains(sc));
                let i = choose|i: int| 0 <= i < vs.unref().len() && vs.unref()[i] == sc;
                assert(r@[i].0.0 == k);
            }
            let keys = r@.map_values(|p: (&SceneHandle, &str)| p.0.0);
            assert(keys.to_set() =~= self.scenes@.dom()) by {
                assert forall|k: u128| keys.to_set().contains(k) implies self.scenes@.dom().contains(k) by {
                    let i = choose|i: int| 0 <= i < keys.len() && keys[i] == k;
                    assert(self.scenes().contains_key(r@[i].0.0));
                }
                assert forall|k: u128| self.scenes@.dom().contains(k) implies keys.to_set().contains(k) by {
                    assert(self.scenes().contains_key(k));
                    let i = choose|i: int| 0 <= i < r@.len() && r@[i].0.0 == k;
                    assert(keys[i] == k);
                }
            }
            lemma_as_many_elements_as_entries(keys);
            assert forall|i: int, j: int| 0 <= i < j < r@.len() implies #[trigger] r@[i].0.0
                != #[trigger] r@[j].0.0 by {
                assert(keys[i] != keys[j]);
            }
        }
        r
    }

    /// Closes the scene with this handle; when it was active, no scene is
    /// active afterwards. Returns whether such a scene was open.
    pub fn remove_scene(&mut self, handle: SceneHandle) -> (r: bool)
        requires
            old(self).wf(),
        ensures
            final(self).wf(),
            r == old(self).scenes().contains_key(handle.0),
            final(self).scenes() == old(self).scenes().remove(handle.0),
            final(self).active() == (if old(self).active() == Some(handle) {
                None
            } else {
                old(self).active()
            }),
    {
        broadcast use vstd::std_specs::hash::group_hash_axioms;
        if self.active_scene == Some(handle) {
            self.active_scene = None;
        }
        self.scenes.remove(&handle.0).is_some()
    }
}

/// The active scene, whenever there is one, is an open scene, and every
/// open scene is stored under its own handle.
pub proof fn law_active_scene_is_open(m: SceneManager)
    requires
        m.wf(),
    ensures
        m.active() matches Some(h) ==> m.scenes().contains_key(h.0),
        forall|k: u128| #[trigger] m.scenes().contains_key(k) ==> m.scenes()[k].handle.0 == k,
{
}

} // verus!
